//! File type classification by file extension.

use vstd::prelude::*;

use crate::text::chars_eq;
use crate::text::chars_subrange;
use crate::text::str_eq;
use crate::text::to_chars;

verus! {

/// File type of an opened document.
#[derive(Debug, Clone)]
pub enum FileType {
    /// Markdown file.
    Markdown,
    /// Code file with its language identifier.
    Code(String),
    /// Plain text file.
    PlainText,
}

/// Mathematical shape of a `FileType`.
pub enum FileTypeView {
    Markdown,
    Code(Seq<char>),
    PlainText,
}

impl View for FileType {
    type V = FileTypeView;

    open spec fn view(&self) -> FileTypeView {
        match self {
            FileType::Markdown => FileTypeView::Markdown,
            FileType::Code(lang) => FileTypeView::Code(lang@),
            FileType::PlainText => FileTypeView::PlainText,
        }
    }
}

impl PartialEq for FileType {
    fn eq(&self, other: &Self) -> (r: bool) {
        match (self, other) {
            (FileType::Markdown, FileType::Markdown) => true,
            (FileType::Code(a), FileType::Code(b)) => str_eq(a.as_str(), b.as_str()),
            (FileType::PlainText, FileType::PlainText) => true,
            _ => false,
        }
    }
}

impl vstd::std_specs::cmp::PartialEqSpecImpl for FileType {
    open spec fn obeys_eq_spec() -> bool {
        true
    }

    open spec fn eq_spec(&self, other: &Self) -> bool {
        self@ == other@
    }
}

/// Index of the last occurrence of `c` in `s`, or `-1`.
pub open spec fn last_idx_of(s: Seq<char>, c: char) -> int
    decreases s.len(),
{
    if s.len() == 0 {
        -1
    } else if s.last() == c {
        s.len() - 1
    } else {
        last_idx_of(s.drop_last(), c)
    }
}

/// The file name part of a path: everything after the last `/`.
pub open spec fn file_name_of(path: Seq<char>) -> Seq<char> {
    path.skip(last_idx_of(path, '/') + 1)
}

/// The extension of a path: the part of the file name after its last `.`,
/// provided that dot is not the name's first character.
pub open spec fn extension_of(path: Seq<char>) -> Option<Seq<char>> {
    let name = file_name_of(path);
    let j = last_idx_of(name, '.');
    if j > 0 {
        Option::Some(name.skip(j + 1))
    } else {
        Option::None
    }
}

/// The language identifier a known code extension maps to, if any.
pub open spec fn code_language_of(e: Seq<char>) -> Option<Seq<char>> {
    if e == "mq"@ {
        Option::Some("mq"@)
    } else if e == "rs"@ {
        Option::Some("rust"@)
    } else if e == "py"@ {
        Option::Some("python"@)
    } else if e == "js"@ {
        Option::Some("javascript"@)
    } else if e == "ts"@ {
        Option::Some("typescript"@)
    } else if e == "tsx"@ {
        Option::Some("typescriptreact"@)
    } else if e == "jsx"@ {
        Option::Some("javascriptreact"@)
    } else if e == "go"@ {
        Option::Some("go"@)
    } else if e == "java"@ {
        Option::Some("java"@)
    } else if e == "cpp"@ || e == "cc"@ || e == "cxx"@ || e == "c++"@ {
        Option::Some("cpp"@)
    } else if e == "c"@ {
        Option::Some("c"@)
    } else if e == "h"@ || e == "hpp"@ || e == "hxx"@ {
        Option::Some("cpp"@)
    } else if e == "json"@ {
        Option::Some("json"@)
    } else if e == "toml"@ {
        Option::Some("toml"@)
    } else if e == "yaml"@ || e == "yml"@ {
        Option::Some("yaml"@)
    } else if e == "html"@ {
        Option::Some("html"@)
    } else if e == "css"@ {
        Option::Some("css"@)
    } else if e == "xml"@ {
        Option::Some("xml"@)
    } else if e == "sh"@ || e == "bash"@ {
        Option::Some("bash"@)
    } else if e == "rb"@ {
        Option::Some("ruby"@)
    } else if e == "php"@ {
        Option::Some("php"@)
    } else if e == "swift"@ {
        Option::Some("swift"@)
    } else if e == "kt"@ || e == "kts"@ {
        Option::Some("kotlin"@)
    } else if e == "scala"@ {
        Option::Some("scala"@)
    } else if e == "hs"@ {
        Option::Some("haskell"@)
    } else if e == "elm"@ {
        Option::Some("elm"@)
    } else if e == "vim"@ {
        Option::Some("vim"@)
    } else if e == "lua"@ {
        Option::Some("lua"@)
    } else {
        Option::None
    }
}

/// Classification of a path by its extension.
pub open spec fn file_type_spec(path: Seq<char>) -> FileTypeView {
    match extension_of(path) {
        Option::Some(e) => {
            if e == "md"@ || e == "markdown"@ {
                FileTypeView::Markdown
            } else {
                match code_language_of(e) {
                    Option::Some(lang) => FileTypeView::Code(lang),
                    Option::None => FileTypeView::PlainText,
                }
            }
        },
        Option::None => FileTypeView::PlainText,
    }
}

proof fn lemma_last_idx(s: Seq<char>, c: char, i: int)
    requires
        -1 <= i < s.len(),
        i >= 0 ==> s[i] == c,
        forall|k: int| i < k < s.len() ==> #[trigger] s[k] != c,
    ensures
        last_idx_of(s, c) == i,
    decreases s.len(),
{
    if s.len() == 0 {
    } else if s.last() == c {
        assert(i == s.len() - 1);
    } else {
        assert(i < s.len() - 1);
        lemma_last_idx(s.drop_last(), c, i);
    }
}

/// Index of the last occurrence of `c`, or `None`.
pub fn chars_rfind_pub(v: &Vec<char>, c: char) -> (r: Option<usize>)
    ensures
        match r {
            Some(i) => i < v@.len() && last_idx_of(v@, c) == i,
            None => last_idx_of(v@, c) == -1,
        },
{
    let mut i: usize = v.len();
    while i > 0
        invariant
            0 <= i <= v@.len(),
            forall|k: int| i <= k < v@.len() ==> #[trigger] v@[k] != c,
        decreases i,
    {
        i = i - 1;
        if v[i] == c {
            proof {
                lemma_last_idx(v@, c, i as int);
            }
            return Some(i);
        }
    }
    proof {
        lemma_last_idx(v@, c, -1);
    }
    None
}

impl FileType {
    /// Detects the file type from the path's extension.
    pub fn from_path(path: &str) -> (r: Self)
        ensures
            r@ == file_type_spec(path@),
    {
        let chars = to_chars(path);
        let n = chars.len();
        let name = match chars_rfind_pub(&chars, '/') {
            Some(i) => chars_subrange(&chars, i + 1, n),
            None => chars_subrange(&chars, 0, n),
        };
        proof {
            assert(name@ =~= file_name_of(chars@));
        }
        let ext = match chars_rfind_pub(&name, '.') {
            Some(j) => {
                if j > 0 {
                    Some(chars_subrange(&name, j + 1, name.len()))
                } else {
                    None
                }
            },
            None => None,
        };
        let e = match ext {
            Some(e) => {
                proof {
                    assert(e@ =~= extension_of(chars@)->0);
                }
                e
            },
            None => {
                return FileType::PlainText;
            },
        };
        if str_eq_vec("md", &e) || str_eq_vec("markdown", &e) {
            return FileType::Markdown;
        }
        let lang: Option<&str> = if str_eq_vec("mq", &e) {
            Some("mq")
        } else if str_eq_vec("rs", &e) {
            Some("rust")
        } else if str_eq_vec("py", &e) {
            Some("python")
        } else if str_eq_vec("js", &e) {
            Some("javascript")
        } else if str_eq_vec("ts", &e) {
            Some("typescript")
        } else if str_eq_vec("tsx", &e) {
            Some("typescriptreact")
        } else if str_eq_vec("jsx", &e) {
            Some("javascriptreact")
        } else if str_eq_vec("go", &e) {
            Some("go")
        } else if str_eq_vec("java", &e) {
            Some("java")
        } else if str_eq_vec("cpp", &e) || str_eq_vec("cc", &e) || str_eq_vec("cxx", &e)
            || str_eq_vec("c++", &e) {
            Some("cpp")
        } else if str_eq_vec("c", &e) {
            Some("c")
        } else if str_eq_vec("h", &e) || str_eq_vec("hpp", &e) || str_eq_vec("hxx", &e) {
            Some("cpp")
        } else if str_eq_vec("json", &e) {
            Some("json")
        } else if str_eq_vec("toml", &e) {
            Some("toml")
        } else if str_eq_vec("yaml", &e) || str_eq_vec("yml", &e) {
            Some("yaml")
        } else if str_eq_vec("html", &e) {
            Some("html")
        } else if str_eq_vec("css", &e) {
            Some("css")
        } else if str_eq_vec("xml", &e) {
            Some("xml")
        } else if str_eq_vec("sh", &e) || str_eq_vec("bash", &e) {
            Some("bash")
        } else if str_eq_vec("rb", &e) {
            Some("ruby")
        } else if str_eq_vec("php", &e) {
            Some("php")
        } else if str_eq_vec("swift", &e) {
            Some("swift")
        } else if str_eq_vec("kt", &e) || str_eq_vec("kts", &e) {
            Some("kotlin")
        } else if str_eq_vec("scala", &e) {
            Some("scala")
        } else if str_eq_vec("hs", &e) {
            Some("haskell")
        } else if str_eq_vec("elm", &e) {
            Some("elm")
        } else if str_eq_vec("vim", &e) {
            Some("vim")
        } else if str_eq_vec("lua", &e) {
            Some("lua")
        } else {
            None
        };
        match lang {
            Some(l) => FileType::Code(l.to_owned()),
            None => FileType::PlainText,
        }
    }

    /// The LSP language identifier to use for this file type, when LSP
    /// applies to it.
    pub fn lsp_language_id(&self) -> (r: Option<&str>)
        ensures
            match self {
                FileType::Code(lang) => r is Some && r->0@ == lang@,
                FileType::Markdown => r is Some && r->0@ == "markdown"@,
                FileType::PlainText => r is None,
            },
    {
        match self {
            FileType::Code(lang) => Some(lang.as_str()),
            FileType::Markdown => Some("markdown"),
            FileType::PlainText => None,
        }
    }

    /// A human-readable name for this file type.
    pub fn display_name(&self) -> (r: &str)
        ensures
            match self {
                FileType::Markdown => r@ == "Markdown"@,
                FileType::Code(lang) => r@ == lang@,
                FileType::PlainText => r@ == "Plain Text"@,
            },
    {
        match self {
            FileType::Markdown => "Markdown",
            FileType::Code(lang) => lang.as_str(),
            FileType::PlainText => "Plain Text",
        }
    }
}

/// Equality of a literal against a character vector.
fn str_eq_vec(s: &str, v: &Vec<char>) -> (r: bool)
    ensures
        r == (s@ == v@),
{
    crate::text::str_eq_chars(s, v)
}

} // verus!
