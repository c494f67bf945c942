//! Line-based Markdown analysis: classifies a single line by its leading
//! syntax, without a full document parse.

use vstd::prelude::*;

use crate::text::char_is_digit;
use crate::text::char_is_whitespace;
use crate::text::char_prefix_len;
use crate::text::chars_contains;
use crate::text::chars_eq;
use crate::text::chars_find;
use crate::text::chars_prefix_count;
use crate::text::chars_split;
use crate::text::chars_starts_with;
use crate::text::chars_subrange;
use crate::text::chars_trim;
use crate::text::chars_trim_matches;
use crate::text::chars_trim_start;
use crate::text::contains_seq;
use crate::text::find_idx;
use crate::text::from_chars;
use crate::text::is_digit;
use crate::text::is_ws;
use crate::text::lemma_find_idx_first;
use crate::text::split_char_spec;
use crate::text::starts_with;
use crate::text::to_chars;
use crate::text::trim_matches_spec;
use crate::text::trim_spec;
use crate::text::trim_start_spec;

verus! {

/// Table column alignment taken from a separator row.
#[derive(Debug, Clone, Copy, PartialEq, Eq, Structural)]
pub enum TableAlignment {
    Left,
    Center,
    Right,
    NotAligned,
}

/// Classification of one Markdown line.
#[derive(Debug, Clone)]
pub enum LineType {
    /// Heading with its level, 1 through 6.
    Heading(usize),
    ListItem,
    OrderedListItem,
    /// Task list item; true when checked.
    TaskListItem(bool),
    Blockquote,
    /// Opening or closing code fence, with the language when one is given.
    CodeFence(Option<String>),
    /// A line inside a fenced code block.
    InCode,
    HorizontalRule,
    /// Image line, as alt text and path.
    Image(String, String),
    TableHeader(Vec<String>),
    TableSeparator(Vec<TableAlignment>),
    TableRow(Vec<String>),
    /// `---` or `+++` opening or closing front matter.
    FrontMatterDelimiter,
    /// A line inside front matter.
    FrontMatterContent,
    Text,
}

/// Mathematical shape of a `LineType`, with strings as character sequences.
pub enum LineKind {
    Heading(int),
    ListItem,
    OrderedListItem,
    TaskListItem(bool),
    Blockquote,
    CodeFence(Option<Seq<char>>),
    InCode,
    HorizontalRule,
    Image(Seq<char>, Seq<char>),
    TableHeader(Seq<Seq<char>>),
    TableSeparator(Seq<TableAlignment>),
    TableRow(Seq<Seq<char>>),
    FrontMatterDelimiter,
    FrontMatterContent,
    Text,
}

impl View for LineType {
    type V = LineKind;

    open spec fn view(&self) -> LineKind {
        match self {
            LineType::Heading(k) => LineKind::Heading(*k as int),
            LineType::ListItem => LineKind::ListItem,
            LineType::OrderedListItem => LineKind::OrderedListItem,
            LineType::TaskListItem(b) => LineKind::TaskListItem(*b),
            LineType::Blockquote => LineKind::Blockquote,
            LineType::CodeFence(o) => LineKind::CodeFence(
                match o {
                    Option::Some(s) => Option::Some(s@),
                    Option::None => Option::None,
                },
            ),
            LineType::InCode => LineKind::InCode,
            LineType::HorizontalRule => LineKind::HorizontalRule,
            LineType::Image(a, p) => LineKind::Image(a@, p@),
            LineType::TableHeader(cs) => LineKind::TableHeader(cs.deep_view()),
            LineType::TableSeparator(al) => LineKind::TableSeparator(al@),
            LineType::TableRow(cs) => LineKind::TableRow(cs.deep_view()),
            LineType::FrontMatterDelimiter => LineKind::FrontMatterDelimiter,
            LineType::FrontMatterContent => LineKind::FrontMatterContent,
            LineType::Text => LineKind::Text,
        }
    }
}

impl PartialEq for LineType {
    fn eq(&self, other: &Self) -> (r: bool) {
        let r = match (self, other) {
            (LineType::Heading(a), LineType::Heading(b)) => {
                let e = a == b;
                assert(e == (self@ == other@));
                e
            },
            (LineType::ListItem, LineType::ListItem) => true,
            (LineType::OrderedListItem, LineType::OrderedListItem) => true,
            (LineType::TaskListItem(a), LineType::TaskListItem(b)) => {
                let e = a == b;
                assert(e == (self@ == other@));
                e
            },
            (LineType::Blockquote, LineType::Blockquote) => true,
            (LineType::CodeFence(a), LineType::CodeFence(b)) => {
                let e = match (a, b) {
                    (Option::Some(x), Option::Some(y)) => crate::text::str_eq(
                        x.as_str(),
                        y.as_str(),
                    ),
                    (Option::None, Option::None) => true,
                    _ => false,
                };
                assert(e == (self@ == other@));
                e
            },
            (LineType::InCode, LineType::InCode) => true,
            (LineType::HorizontalRule, LineType::HorizontalRule) => true,
            (LineType::Image(a1, p1), LineType::Image(a2, p2)) => {
                let e = crate::text::str_eq(a1.as_str(), a2.as_str()) && crate::text::str_eq(
                    p1.as_str(),
                    p2.as_str(),
                );
                assert(e == (self@ == other@));
                e
            },
            (LineType::TableHeader(a), LineType::TableHeader(b)) => {
                let e = string_vec_eq(a, b);
                assert(e == (self@ == other@));
                e
            },
            (LineType::TableSeparator(a), LineType::TableSeparator(b)) => {
                let e = alignment_vec_eq(a, b);
                assert(e == (self@ == other@));
                e
            },
            (LineType::TableRow(a), LineType::TableRow(b)) => {
                let e = string_vec_eq(a, b);
                assert(e == (self@ == other@));
                e
            },
            (LineType::FrontMatterDelimiter, LineType::FrontMatterDelimiter) => true,
            (LineType::FrontMatterContent, LineType::FrontMatterContent) => true,
            (LineType::Text, LineType::Text) => true,
            _ => {
                assert(self@ != other@);
                false
            },
        };
        r
    }
}

impl vstd::std_specs::cmp::PartialEqSpecImpl for LineType {
    open spec fn obeys_eq_spec() -> bool {
        true
    }

    open spec fn eq_spec(&self, other: &Self) -> bool {
        self@ == other@
    }
}

/// Elementwise equality of two string vectors over their views.
fn string_vec_eq(a: &Vec<String>, b: &Vec<String>) -> (r: bool)
    ensures
        r == (a.deep_view() == b.deep_view()),
{
    if a.len() != b.len() {
        assert(a.deep_view().len() != b.deep_view().len());
        return false;
    }
    let mut i: usize = 0;
    while i < a.len()
        invariant
            a@.len() == b@.len(),
            0 <= i <= a@.len(),
            forall|k: int| 0 <= k < i ==> a.deep_view()[k] == b.deep_view()[k],
        decreases a@.len() - i,
    {
        if !crate::text::str_eq(a[i].as_str(), b[i].as_str()) {
            assert(a.deep_view()[i as int] != b.deep_view()[i as int]);
            return false;
        }
        i = i + 1;
    }
    proof {
        assert(a.deep_view() =~= b.deep_view());
    }
    true
}

/// Elementwise equality of two alignment vectors.
fn alignment_vec_eq(a: &Vec<TableAlignment>, b: &Vec<TableAlignment>) -> (r: bool)
    ensures
        r == (a@ == b@),
{
    if a.len() != b.len() {
        return false;
    }
    let mut i: usize = 0;
    while i < a.len()
        invariant
            a@.len() == b@.len(),
            0 <= i <= a@.len(),
            forall|k: int| 0 <= k < i ==> a@[k] == b@[k],
        decreases a@.len() - i,
    {
        if a[i] != b[i] {
            return false;
        }
        i = i + 1;
    }
    proof {
        assert(a@ =~= b@);
    }
    true
}

/// Heading level of a trimmed line: the count of leading `#` when it is
/// between 1 and 6 and a whitespace character follows, else 0.
pub open spec fn heading_level_spec(t: Seq<char>) -> int {
    let k = char_prefix_len(t, '#');
    if 1 <= k <= 6 && k < t.len() && is_ws(t[k]) {
        k
    } else {
        0
    }
}

/// The horizontal-rule test of a trimmed line: `---` or `***` at the start,
/// or `___` at the start of a line made only of rule characters and
/// whitespace; the all-characters test guards the underscore form alone.
pub open spec fn is_hrule_spec(t: Seq<char>) -> bool {
    starts_with(t, "---"@) || starts_with(t, "***"@) || (starts_with(t, "___"@) && forall|i: int|
        0 <= i < t.len() ==> (#[trigger] t[i] == '-' || t[i] == '*' || t[i] == '_' || is_ws(t[i])))
}

/// Language tag of a fence line: the trimmed text after the backticks, when
/// it is not empty.
pub open spec fn fence_lang_spec(t: Seq<char>) -> Option<Seq<char>> {
    let lang = trim_spec(t.skip(3));
    if lang.len() > 0 {
        Option::Some(lang)
    } else {
        Option::None
    }
}

/// Classification of a line, in order of precedence: front matter
/// delimiter, heading, horizontal rule, code fence, task list, unordered
/// list, ordered list, blockquote, image, plain text.
pub open spec fn analyze_line_spec(s: Seq<char>) -> LineKind {
    let t = trim_start_spec(s);
    if (t == "---"@ || t == "+++"@) && s == t {
        LineKind::FrontMatterDelimiter
    } else if heading_level_spec(t) > 0 {
        LineKind::Heading(heading_level_spec(t))
    } else if is_hrule_spec(t) {
        LineKind::HorizontalRule
    } else if starts_with(t, "```"@) {
        LineKind::CodeFence(fence_lang_spec(t))
    } else if starts_with(t, "- ["@) && contains_seq(t, "- [x]"@) {
        LineKind::TaskListItem(true)
    } else if starts_with(t, "- ["@) && contains_seq(t, "- [X]"@) {
        LineKind::TaskListItem(true)
    } else if starts_with(t, "- ["@) && contains_seq(t, "- [ ]"@) {
        LineKind::TaskListItem(false)
    } else if starts_with(t, "- "@) || starts_with(t, "* "@) || starts_with(t, "+ "@) {
        LineKind::ListItem
    } else if t.len() > 0 && is_digit(t[0]) && (starts_with(t.skip(1), ". "@) || starts_with(
        t.skip(1),
        ") "@,
    )) {
        LineKind::OrderedListItem
    } else if starts_with(t, "> "@) {
        LineKind::Blockquote
    } else if starts_with(t, "!["@) && contains_seq(t, "]("@) && contains_seq(
        t.skip(find_idx(t, "]("@) + 2),
        ")"@,
    ) {
        let ae = find_idx(t, "]("@);
        let rest = t.skip(ae + 2);
        let pe = find_idx(rest, ")"@);
        LineKind::Image(t.subrange(2, ae), rest.subrange(0, pe))
    } else {
        LineKind::Text
    }
}

/// True if position `i` of a separator row holds content: neither a pipe nor
/// whitespace.
pub open spec fn sep_content_at(t: Seq<char>, i: int) -> bool {
    t[i] != '|' && !is_ws(t[i])
}

/// Cells of a table row: the row trimmed, stripped of outer pipes, split at
/// the remaining pipes, each cell trimmed.
pub open spec fn table_cells_spec(s: Seq<char>) -> Seq<Seq<char>> {
    split_char_spec(trim_matches_spec(trim_spec(s), '|'), '|').map_values(
        |cell: Seq<char>| trim_spec(cell),
    )
}

/// Alignment read from one separator cell.
pub open spec fn cell_alignment_spec(cell: Seq<char>) -> TableAlignment {
    let c = trim_spec(cell);
    let starts = c.len() > 0 && c.first() == ':';
    let ends = c.len() > 0 && c.last() == ':';
    if starts && ends {
        TableAlignment::Center
    } else if starts {
        TableAlignment::Left
    } else if ends {
        TableAlignment::Right
    } else {
        TableAlignment::NotAligned
    }
}

/// Line-by-line Markdown analyzer.
pub struct LineAnalyzer;

impl LineAnalyzer {
    /// Classifies a single line.
    pub fn analyze_line(line: &str) -> (r: LineType)
        ensures
            r@ == analyze_line_spec(line@),
    {
        let chars = to_chars(line);
        let t = chars_trim_start(&chars);
        let dashes = to_chars("---");
        let plusses = to_chars("+++");
        if (chars_eq(&t, &dashes) || chars_eq(&t, &plusses)) && chars_eq(&chars, &t) {
            return LineType::FrontMatterDelimiter;
        }
        let k = chars_prefix_count(&t, '#');
        if 1 <= k && k <= 6 && k < t.len() && char_is_whitespace(t[k]) {
            return LineType::Heading(k);
        }
        assert(heading_level_spec(t@) == 0);
        let stars = to_chars("***");
        let unders = to_chars("___");
        if chars_starts_with(&t, &dashes) || chars_starts_with(&t, &stars) || (chars_starts_with(
            &t,
            &unders,
        ) && Self::all_rule_chars(&t)) {
            return LineType::HorizontalRule;
        }
        let fence = to_chars("```");
        if chars_starts_with(&t, &fence) {
            proof {
                reveal_strlit("```");
            }
            let rest = chars_subrange(&t, 3, t.len());
            assert(rest@ =~= t@.skip(3));
            let lang = chars_trim(&rest);
            if lang.len() > 0 {
                return LineType::CodeFence(Option::Some(from_chars(&lang)));
            } else {
                return LineType::CodeFence(Option::None);
            }
        }
        let task_open = to_chars("- [");
        if chars_starts_with(&t, &task_open) {
            let checked_lower = to_chars("- [x]");
            let checked_upper = to_chars("- [X]");
            let unchecked = to_chars("- [ ]");
            if chars_contains(&t, &checked_lower) || chars_contains(&t, &checked_upper) {
                return LineType::TaskListItem(true);
            } else if chars_contains(&t, &unchecked) {
                return LineType::TaskListItem(false);
            }
        }
        let dash_sp = to_chars("- ");
        let star_sp = to_chars("* ");
        let plus_sp = to_chars("+ ");
        if chars_starts_with(&t, &dash_sp) || chars_starts_with(&t, &star_sp) || chars_starts_with(
            &t,
            &plus_sp,
        ) {
            return LineType::ListItem;
        }
        if t.len() > 0 && char_is_digit(t[0]) {
            let rest = chars_subrange(&t, 1, t.len());
            assert(rest@ =~= t@.skip(1));
            let dot_sp = to_chars(". ");
            let paren_sp = to_chars(") ");
            if chars_starts_with(&rest, &dot_sp) || chars_starts_with(&rest, &paren_sp) {
                return LineType::OrderedListItem;
            }
        }
        let quote = to_chars("> ");
        if chars_starts_with(&t, &quote) {
            return LineType::Blockquote;
        }
        let image_open = to_chars("![");
        if chars_starts_with(&t, &image_open) {
            let close_open = to_chars("](");
            if let Option::Some(ae) = chars_find(&t, &close_open) {
                proof {
                    reveal_strlit("](");
                    reveal_strlit("![");
                    lemma_find_idx_first(t@, "]("@, ae as int);
                    assert(ae + 2 <= t@.len());
                    assert(t@.subrange(ae as int, ae as int + 2) == "]("@);
                    if ae < 2 {
                        assert(t@.subrange(0, 2) == "!["@);
                        assert(t@[0] == t@.subrange(0, 2)[0] && t@[1] == t@.subrange(0, 2)[1]);
                        assert(t@[ae as int] == t@.subrange(ae as int, ae as int + 2)[0]);
                        assert(false);
                    }
                }
                let rest = chars_subrange(&t, ae + 2, t.len());
                assert(rest@ =~= t@.skip(ae as int + 2));
                let close = to_chars(")");
                if let Option::Some(pe) = chars_find(&rest, &close) {
                    proof {
                        lemma_find_idx_first(rest@, ")"@, pe as int);
                    }
                    let alt = chars_subrange(&t, 2, ae);
                    let path = chars_subrange(&rest, 0, pe);
                    return LineType::Image(from_chars(&alt), from_chars(&path));
                } else {
                    proof {
                        crate::text::lemma_find_idx_none(rest@, ")"@);
                    }
                }
            } else {
                proof {
                    crate::text::lemma_find_idx_none(t@, "]("@);
                }
            }
        }
        LineType::Text
    }

    /// True if every character of `t` may appear in a horizontal rule.
    fn all_rule_chars(t: &Vec<char>) -> (r: bool)
        ensures
            r == (forall|i: int|
                0 <= i < t@.len() ==> (#[trigger] t@[i] == '-' || t@[i] == '*' || t@[i] == '_'
                    || is_ws(t@[i]))),
    {
        let mut i: usize = 0;
        while i < t.len()
            invariant
                0 <= i <= t@.len(),
                forall|k: int|
                    0 <= k < i ==> (#[trigger] t@[k] == '-' || t@[k] == '*' || t@[k] == '_'
                        || is_ws(t@[k])),
            decreases t@.len() - i,
        {
            let c = t[i];
            if !(c == '-' || c == '*' || c == '_' || char_is_whitespace(c)) {
                return false;
            }
            i = i + 1;
        }
        true
    }

    /// True if the line holds bold markup.
    pub fn contains_bold(line: &str) -> (r: bool)
        ensures
            r == (contains_seq(line@, "**"@) || contains_seq(line@, "__"@)),
    {
        let chars = to_chars(line);
        let b1 = to_chars("**");
        let b2 = to_chars("__");
        chars_contains(&chars, &b1) || chars_contains(&chars, &b2)
    }

    /// True if the line holds italic markup.
    pub fn contains_italic(line: &str) -> (r: bool)
        ensures
            r == (contains_seq(line@, "*"@) || contains_seq(line@, "_"@)),
    {
        let chars = to_chars(line);
        let i1 = to_chars("*");
        let i2 = to_chars("_");
        chars_contains(&chars, &i1) || chars_contains(&chars, &i2)
    }

    /// True if the line holds strikethrough markup.
    pub fn contains_strikethrough(line: &str) -> (r: bool)
        ensures
            r == contains_seq(line@, "~~"@),
    {
        let chars = to_chars(line);
        let p = to_chars("~~");
        chars_contains(&chars, &p)
    }

    /// True if the line holds inline code but is not itself a fence.
    pub fn contains_inline_code(line: &str) -> (r: bool)
        ensures
            r == (contains_seq(line@, "`"@) && !starts_with(trim_spec(line@), "```"@)),
    {
        let chars = to_chars(line);
        let tick = to_chars("`");
        if !chars_contains(&chars, &tick) {
            return false;
        }
        let t = chars_trim(&chars);
        let fence = to_chars("```");
        !chars_starts_with(&t, &fence)
    }

    /// True if the line holds a Markdown link.
    pub fn contains_link(line: &str) -> (r: bool)
        ensures
            r == (contains_seq(line@, "["@) && contains_seq(line@, "]("@)),
    {
        let chars = to_chars(line);
        let open = to_chars("[");
        let mid = to_chars("](");
        chars_contains(&chars, &open) && chars_contains(&chars, &mid)
    }

    /// True if the trimmed line looks like a table row.
    pub fn is_table_row(line: &str) -> (r: bool)
        ensures
            r == (contains_seq(trim_spec(line@), "|"@) && !starts_with(trim_spec(line@), "```"@)),
    {
        let chars = to_chars(line);
        let t = chars_trim(&chars);
        let pipe = to_chars("|");
        let fence = to_chars("```");
        chars_contains(&t, &pipe) && !chars_starts_with(&t, &fence)
    }

    /// True if the trimmed line is a table separator row: it holds a pipe,
    /// and besides pipes and whitespace holds only dashes and colons, at
    /// least one of them.
    pub fn is_table_separator(line: &str) -> (r: bool)
        ensures
            r == ({
                let t = trim_spec(line@);
                contains_seq(t, "|"@) && (exists|i: int|
                    0 <= i < t.len() && #[trigger] sep_content_at(t, i)) && (forall|i: int|
                    0 <= i < t.len() && #[trigger] sep_content_at(t, i) ==> (t[i] == '-' || t[i]
                        == ':'))
            }),
    {
        let chars = to_chars(line);
        let t = chars_trim(&chars);
        assert(t@ == trim_spec(line@));
        let pipe = to_chars("|");
        if !chars_contains(&t, &pipe) {
            return false;
        }
        let mut found: bool = false;
        let mut i: usize = 0;
        while i < t.len()
            invariant
                0 <= i <= t@.len(),
                t@ == trim_spec(line@),
                contains_seq(t@, "|"@),
                found == (exists|k: int| 0 <= k < i && #[trigger] sep_content_at(t@, k)),
                forall|k: int|
                    0 <= k < i && #[trigger] sep_content_at(t@, k) ==> (t@[k] == '-' || t@[k]
                        == ':'),
            decreases t@.len() - i,
        {
            let c = t[i];
            if c != '|' && !char_is_whitespace(c) {
                assert(sep_content_at(t@, i as int));
                if !(c == '-' || c == ':') {
                    assert(!(forall|j: int|
                        0 <= j < t@.len() && #[trigger] sep_content_at(t@, j) ==> (t@[j] == '-'
                            || t@[j] == ':'))) by {
                        assert(0 <= i < t@.len() && sep_content_at(t@, i as int) && !(t@[i as int]
                            == '-' || t@[i as int] == ':'));
                    }
                    return false;
                }
                found = true;
            } else {
                assert(!sep_content_at(t@, i as int));
            }
            i = i + 1;
        }
        found
    }

    /// Splits a table row into its trimmed cell contents.
    pub fn parse_table_cells(line: &str) -> (r: Vec<String>)
        ensures
            r@.len() == table_cells_spec(line@).len(),
            forall|k: int|
                0 <= k < r@.len() ==> (#[trigger] r@[k])@ == table_cells_spec(line@)[k],
    {
        let chars = to_chars(line);
        let t = chars_trim(&chars);
        let stripped = chars_trim_matches(&t, '|');
        let pieces = chars_split(&stripped, '|');
        let mut out: Vec<String> = Vec::new();
        let mut i: usize = 0;
        while i < pieces.len()
            invariant
                0 <= i <= pieces@.len(),
                pieces@.len() == table_cells_spec(chars@).len(),
                forall|k: int|
                    0 <= k < pieces@.len() ==> trim_spec((#[trigger] pieces@[k])@)
                        == table_cells_spec(chars@)[k],
                out@.len() == i,
                forall|k: int|
                    0 <= k < i ==> (#[trigger] out@[k])@ == table_cells_spec(chars@)[k],
            decreases pieces@.len() - i,
        {
            let cell = chars_trim(&pieces[i]);
            out.push(from_chars(&cell));
            i = i + 1;
        }
        out
    }

    /// Reads the column alignments from a separator row.
    pub fn parse_table_alignment(line: &str) -> (r: Vec<TableAlignment>)
        ensures
            r@ == table_cells_spec(line@).map_values(
                |cell: Seq<char>| cell_alignment_spec(cell),
            ),
    {
        let cells = Self::parse_table_cells(line);
        let mut out: Vec<TableAlignment> = Vec::new();
        let mut i: usize = 0;
        while i < cells.len()
            invariant
                0 <= i <= cells@.len(),
                cells@.len() == table_cells_spec(line@).len(),
                forall|k: int|
                    0 <= k < cells@.len() ==> (#[trigger] cells@[k])@ == table_cells_spec(line@)[k],
                out@.len() == i,
                forall|k: int|
                    0 <= k < i ==> #[trigger] out@[k] == cell_alignment_spec(
                        table_cells_spec(line@)[k],
                    ),
            decreases cells@.len() - i,
        {
            let cv = to_chars(cells[i].as_str());
            let c = chars_trim(&cv);
            let starts = c.len() > 0 && c[0] == ':';
            let ends = c.len() > 0 && c[c.len() - 1] == ':';
            let a = if starts && ends {
                TableAlignment::Center
            } else if starts {
                TableAlignment::Left
            } else if ends {
                TableAlignment::Right
            } else {
                TableAlignment::NotAligned
            };
            out.push(a);
            i = i + 1;
        }
        proof {
            assert(out@ =~= table_cells_spec(line@).map_values(
                |cell: Seq<char>| cell_alignment_spec(cell),
            ));
        }
        out
    }
}

} // verus!
