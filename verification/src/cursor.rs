//! Cursor position and the map from visual lines to document nodes.

use vstd::prelude::*;

use crate::doc::DocNode;
use crate::doc::DocNodeView;

verus! {

/// Cursor position in the editor, 0-indexed.
#[derive(Debug, Clone, Copy, PartialEq, Eq, Structural)]
pub struct Cursor {
    pub line: usize,
    pub column: usize,
    /// Desired column for vertical movement (sticky column).
    pub desired_column: usize,
}

impl Cursor {
    /// Cursor at the top of the document.
    pub fn new() -> (r: Self)
        ensures
            r.line == 0 && r.column == 0 && r.desired_column == 0,
    {
        Self { line: 0, column: 0, desired_column: 0 }
    }

    /// Cursor at the given position, with the column also desired.
    pub fn with_position(line: usize, column: usize) -> (r: Self)
        ensures
            r.line == line && r.column == column && r.desired_column == column,
    {
        Self { line, column, desired_column: column }
    }

    /// Records the current column as the desired one after a horizontal move.
    pub fn update_desired_column(&mut self)
        ensures
            *final(self) == (Cursor { desired_column: old(self).column, ..*old(self) }),
    {
        self.desired_column = self.column;
    }
}

impl Default for Cursor {
    fn default() -> (r: Self)
        ensures
            r.line == 0 && r.column == 0 && r.desired_column == 0,
    {
        Self::new()
    }
}

/// Cursor movement directions.
#[derive(Debug, Clone, Copy, PartialEq, Eq, Structural)]
pub enum CursorMovement {
    Up,
    Down,
    Left,
    Right,
    StartOfLine,
    EndOfLine,
    PageUp,
    PageDown,
    StartOfDocument,
    EndOfDocument,
}

/// One visual line of the editor, tied to the document node it displays.
#[derive(Debug, Clone, Copy, PartialEq, Eq, Structural)]
pub struct LineEntry {
    /// Index of the node in the document's node list.
    pub node_index: usize,
    /// Line offset within a multi-line node.
    pub node_line_offset: usize,
    /// Visual line number in the editor, 0-indexed.
    pub visual_line: usize,
    /// Starting character offset from the beginning of the node.
    pub char_offset: usize,
}

/// How many visual lines a node occupies: the lines of its span, or one line
/// when it has no span.
pub open spec fn node_line_count(n: DocNodeView) -> int {
    match n.span {
        Option::Some(sp) => {
            let s = if sp.start_line > 0 {
                sp.start_line - 1
            } else {
                0
            };
            let e = if sp.end_line > 0 {
                sp.end_line - 1
            } else {
                0
            };
            if e >= s {
                e - s + 1
            } else {
                1
            }
        },
        Option::None => 1,
    }
}

/// The entries a single node contributes, starting at visual line `base`.
pub open spec fn entries_for_node(idx: int, count: int, base: int) -> Seq<LineEntry> {
    Seq::new(
        count as nat,
        |o: int| LineEntry {
            node_index: idx as usize,
            node_line_offset: o as usize,
            visual_line: (base + o) as usize,
            char_offset: 0,
        },
    )
}

/// The full entry list for a node sequence.
pub open spec fn line_map_entries(nodes: Seq<DocNodeView>) -> Seq<LineEntry>
    decreases nodes.len(),
{
    if nodes.len() == 0 {
        Seq::<LineEntry>::empty()
    } else {
        let prev = line_map_entries(nodes.drop_last());
        prev + entries_for_node(
            nodes.len() - 1,
            node_line_count(nodes.last()),
            prev.len() as int,
        )
    }
}

/// Maps visual line numbers to document nodes.
#[derive(Debug, Clone)]
pub struct LineMap {
    pub entries: Vec<LineEntry>,
}

impl LineMap {
    /// An empty map.
    pub fn new() -> (r: Self)
        ensures
            r.entries@ == Seq::<LineEntry>::empty(),
    {
        Self { entries: Vec::new() }
    }

    /// Builds the map for a parsed node list.
    pub fn from_nodes(nodes: &Vec<DocNode>) -> (r: Self)
        ensures
            r.entries@ == line_map_entries(nodes.deep_view()),
    {
        let mut map = Self::new();
        let mut i: usize = 0;
        proof {
            assert(nodes.deep_view().take(0) =~= Seq::<DocNodeView>::empty());
        }
        while i < nodes.len()
            invariant
                0 <= i <= nodes@.len(),
                nodes.deep_view().len() == nodes@.len(),
                forall|k: int|
                    0 <= k < nodes@.len() ==> nodes.deep_view()[k] == (#[trigger] nodes@[k])@,
                map.entries@ == line_map_entries(nodes.deep_view().take(i as int)),
            decreases nodes@.len() - i,
        {
            Self::push_node_entries(&mut map.entries, nodes, i);
            proof {
                let pre = nodes.deep_view().take(i as int);
                let post = nodes.deep_view().take(i as int + 1);
                assert(post.drop_last() =~= pre);
                assert(post.last() == nodes.deep_view()[i as int]);
            }
            i = i + 1;
        }
        proof {
            assert(nodes.deep_view().take(nodes@.len() as int) =~= nodes.deep_view());
        }
        map
    }

    /// Appends the entries of node `i`, giving each the next visual line.
    fn push_node_entries(entries: &mut Vec<LineEntry>, nodes: &Vec<DocNode>, i: usize)
        requires
            i < nodes@.len(),
        ensures
            final(entries)@ == old(entries)@ + entries_for_node(
                i as int,
                node_line_count(nodes@[i as int]@),
                old(entries)@.len() as int,
            ),
    {
        let ghost base = entries@.len() as int;
        let ghost count = node_line_count(nodes@[i as int]@);
        let last: usize = match &nodes[i].span {
            Option::Some(sp) => {
                let s = if sp.start_line > 0 {
                    sp.start_line - 1
                } else {
                    0
                };
                let e = if sp.end_line > 0 {
                    sp.end_line - 1
                } else {
                    0
                };
                if e >= s {
                    e - s
                } else {
                    0
                }
            },
            Option::None => 0,
        };
        assert(count == last + 1);
        let mut off: usize = 0;
        loop
            invariant_except_break
                0 <= off <= last,
                count == last + 1,
                entries@.len() == base + off,
                entries@ == old(entries)@ + entries_for_node(i as int, off as int, base),
            ensures
                entries@ == old(entries)@ + entries_for_node(i as int, count, base),
            decreases last - off,
        {
            let vline = entries.len();
            entries.push(
                LineEntry { node_index: i, node_line_offset: off, visual_line: vline, char_offset: 0 },
            );
            proof {
                assert(entries@ =~= old(entries)@ + entries_for_node(
                    i as int,
                    off as int + 1,
                    base,
                ));
            }
            if off == last {
                break ;
            }
            off = off + 1;
        }
    }

    /// The entry shown at a visual line, if the line exists.
    pub fn get_entry(&self, line: usize) -> (r: Option<&LineEntry>)
        ensures
            match r {
                Some(e) => line < self.entries@.len() && *e == self.entries@[line as int],
                None => line >= self.entries@.len(),
            },
    {
        if line < self.entries.len() {
            Some(&self.entries[line])
        } else {
            None
        }
    }

    /// The node shown at a visual line, if the line exists and its entry
    /// names a node of this document.
    pub fn get_node_at_line<'a>(&self, nodes: &'a Vec<DocNode>, line: usize) -> (r: Option<
        &'a DocNode,
    >)
        ensures
            match r {
                Some(n) => line < self.entries@.len() && self.entries@[line as int].node_index
                    < nodes@.len() && *n == nodes@[self.entries@[line as int].node_index as int],
                None => line >= self.entries@.len() || self.entries@[line as int].node_index
                    >= nodes@.len(),
            },
    {
        match self.get_entry(line) {
            Some(e) => {
                if e.node_index < nodes.len() {
                    Some(&nodes[e.node_index])
                } else {
                    None
                }
            },
            None => None,
        }
    }

    /// Total number of visual lines.
    pub fn line_count(&self) -> (r: usize)
        ensures
            r == self.entries@.len(),
    {
        self.entries.len()
    }

    /// Drops every entry from the given visual line onwards.
    pub fn invalidate_from(&mut self, from_line: usize)
        ensures
            final(self).entries@ == if from_line <= old(self).entries@.len() {
                old(self).entries@.take(from_line as int)
            } else {
                old(self).entries@
            },
    {
        self.entries.truncate(from_line);
    }
}

impl Default for LineMap {
    fn default() -> (r: Self)
        ensures
            r.entries@ == Seq::<LineEntry>::empty(),
    {
        Self::new()
    }
}

} // verus!
