//! File tree items of the file browser.

use vstd::prelude::*;

use crate::file_type::file_name_of;

verus! {

/// One entry of the file tree.
#[derive(Debug)]
pub struct FileTreeItem {
    pub path: String,
    pub name: String,
    pub is_dir: bool,
    pub depth: usize,
    pub expanded: bool,
}

impl FileTreeItem {
    /// A collapsed entry; its display name is the path's last component, or
    /// the whole path when there is none. Whether the path is a directory is
    /// the caller's knowledge, read from the filesystem outside this crate.
    pub fn new(path: String, is_dir: bool, depth: usize) -> (r: Self)
        ensures
            r.path@ == path@,
            r.name@ == if file_name_of(path@).len() > 0 {
                file_name_of(path@)
            } else {
                path@
            },
            r.is_dir == is_dir,
            r.depth == depth,
            !r.expanded,
    {
        let chars = crate::text::to_chars(path.as_str());
        let n = chars.len();
        let name_chars = match crate::file_type::chars_rfind_pub(&chars, '/') {
            Some(i) => crate::text::chars_subrange(&chars, i + 1, n),
            None => crate::text::chars_subrange(&chars, 0, n),
        };
        proof {
            assert(name_chars@ =~= file_name_of(chars@));
        }
        let name = if name_chars.len() > 0 {
            crate::text::from_chars(&name_chars)
        } else {
            path.clone()
        };
        FileTreeItem { path, name, is_dir, depth, expanded: false }
    }
}

} // verus!
