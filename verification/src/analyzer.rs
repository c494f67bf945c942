//! The embedded Markdown analyzer: answers completion, definition,
//! references and diagnostics requests directly on a parsed document tree.

use vstd::prelude::*;

use crate::doc::DocNode;
use crate::doc::DocNodeView;
use crate::doc::NodeKind;
use crate::doc::NodeKindView;
use crate::doc::Span;
use crate::events::CompletionItem;
use crate::events::CompletionItemView;
use crate::events::CompletionKind;
use crate::events::Diagnostic;
use crate::events::DiagnosticView;
use crate::events::Location;
use crate::events::LocationView;
use crate::events::Position;
use crate::events::Range;
use crate::events::Severity;
use crate::events::Event;
use crate::events::EventView;
use crate::slug::lower_of;
use crate::slug::slug_of;
use crate::text::split_char_spec;
use crate::text::to_chars;
use crate::text::from_chars;
use crate::text::chars_split;
use crate::text::chars_subrange;

verus! {

/// A line number shifted from 1-indexed to 0-indexed, clamped at 0.
pub open spec fn sat1(x: int) -> int {
    if x > 0 {
        x - 1
    } else {
        0
    }
}

/// The LSP range of a source span: 1-indexed tree coordinates shifted to
/// 0-indexed positions.
pub open spec fn lsp_range_of(sp: Span) -> Range {
    Range {
        start: Position {
            line: sat1(sp.start_line as int) as u32,
            character: sat1(sp.start_col as int) as u32,
        },
        end: Position {
            line: sat1(sp.end_line as int) as u32,
            character: sat1(sp.end_col as int) as u32,
        },
    }
}

/// Converts a span to an LSP range.
pub fn to_lsp_range(sp: &Span) -> (r: Range)
    ensures
        r == lsp_range_of(*sp),
{
    let sl: usize = if sp.start_line > 0 {
        sp.start_line - 1
    } else {
        0
    };
    let sc: usize = if sp.start_col > 0 {
        sp.start_col - 1
    } else {
        0
    };
    let el: usize = if sp.end_line > 0 {
        sp.end_line - 1
    } else {
        0
    };
    let ec: usize = if sp.end_col > 0 {
        sp.end_col - 1
    } else {
        0
    };
    Range {
        start: Position { line: sl as u32, character: sc as u32 },
        end: Position { line: el as u32, character: ec as u32 },
    }
}

/// Whether a span's lines cover a 0-indexed line.
pub open spec fn span_covers_line(sp: Span, line: int) -> bool {
    sat1(sp.start_line as int) <= line && line < sp.end_line as int
}

/// Whether a span contains a 0-indexed position.
pub open spec fn span_contains(sp: Span, line: int, ch: int) -> bool {
    span_covers_line(sp, line) && sat1(sp.start_col as int) <= ch && ch < sp.end_col as int
}

/// Whether the position lies inside a code block node.
pub open spec fn in_code_block(nodes: Seq<DocNodeView>, line: int) -> bool {
    exists|i: int|
        0 <= i < nodes.len() && (#[trigger] nodes[i]).kind is CodeBlock && nodes[i].span is Some
            && span_covers_line(nodes[i].span->0, line)
}

/// Index of the first node whose span contains the position, or -1.
pub open spec fn node_at_from(nodes: Seq<DocNodeView>, line: int, ch: int, i: int) -> int
    decreases nodes.len() - i,
{
    if i < 0 || i >= nodes.len() {
        -1
    } else if nodes[i].span is Some && span_contains(nodes[i].span->0, line, ch) {
        i
    } else {
        node_at_from(nodes, line, ch, i + 1)
    }
}

pub open spec fn node_at(nodes: Seq<DocNodeView>, line: int, ch: int) -> int {
    node_at_from(nodes, line, ch, 0)
}

/// The slug of a heading's rendered text.
pub open spec fn heading_slug(text: Seq<char>) -> Seq<char> {
    slug_of(lower_of(text))
}

/// The anchor of a link destination: what follows a leading `#`.
pub open spec fn anchor_of(url: Seq<char>) -> Option<Seq<char>> {
    if url.len() > 0 && url[0] == '#' {
        Option::Some(url.skip(1))
    } else {
        Option::None
    }
}

/// Whether a node is an anchor-style link with a span.
pub open spec fn is_anchor_link(n: DocNodeView) -> bool {
    n.kind is Link && anchor_of(n.kind->Link_url) is Some && n.span is Some
}

/// Whether some heading of the document has this slug.
pub open spec fn has_heading_with_slug(nodes: Seq<DocNodeView>, slug: Seq<char>) -> bool {
    exists|i: int|
        0 <= i < nodes.len() && (#[trigger] nodes[i]).kind is Heading && heading_slug(
            nodes[i].kind->Heading_text,
        ) == slug
}

/// Index of the first heading with this slug and a span, or -1.
pub open spec fn heading_with_slug_from(
    nodes: Seq<DocNodeView>,
    slug: Seq<char>,
    i: int,
) -> int
    decreases nodes.len() - i,
{
    if i < 0 || i >= nodes.len() {
        -1
    } else if nodes[i].kind is Heading && heading_slug(nodes[i].kind->Heading_text) == slug
        && nodes[i].span is Some {
        i
    } else {
        heading_with_slug_from(nodes, slug, i + 1)
    }
}

/// The message of a broken-link diagnostic.
pub open spec fn broken_link_message(anchor: Seq<char>) -> Seq<char> {
    "Broken link: heading '"@ + anchor + "' not found"@
}

/// The diagnostics of a document, from position `i` on: one warning for each
/// anchor link whose slug matches no heading.
pub open spec fn diags_from(nodes: Seq<DocNodeView>, i: int) -> Seq<DiagnosticView>
    decreases nodes.len() - i,
{
    if i < 0 || i >= nodes.len() {
        Seq::<DiagnosticView>::empty()
    } else {
        let rest = diags_from(nodes, i + 1);
        if is_anchor_link(nodes[i]) && !has_heading_with_slug(
            nodes,
            anchor_of(nodes[i].kind->Link_url)->0,
        ) {
            seq![
                DiagnosticView {
                    range: lsp_range_of(nodes[i].span->0),
                    severity: Option::Some(Severity::Warning),
                    message: broken_link_message(anchor_of(nodes[i].kind->Link_url)->0),
                },
            ] + rest
        } else {
            rest
        }
    }
}

/// All broken-anchor diagnostics of a document.
pub open spec fn diagnostics_spec(nodes: Seq<DocNodeView>) -> Seq<DiagnosticView> {
    diags_from(nodes, 0)
}

/// The anchor-link locations matching `slug`, from position `i` on.
pub open spec fn anchor_locs_from(
    nodes: Seq<DocNodeView>,
    slug: Seq<char>,
    uri: Seq<char>,
    i: int,
) -> Seq<LocationView>
    decreases nodes.len() - i,
{
    if i < 0 || i >= nodes.len() {
        Seq::<LocationView>::empty()
    } else {
        let rest = anchor_locs_from(nodes, slug, uri, i + 1);
        if is_anchor_link(nodes[i]) && anchor_of(nodes[i].kind->Link_url)->0 == slug {
            seq![LocationView { uri: uri, range: lsp_range_of(nodes[i].span->0) }] + rest
        } else {
            rest
        }
    }
}

/// The heading locations whose slug is `slug`, from position `i` on.
pub open spec fn heading_locs_from(
    nodes: Seq<DocNodeView>,
    slug: Seq<char>,
    uri: Seq<char>,
    i: int,
) -> Seq<LocationView>
    decreases nodes.len() - i,
{
    if i < 0 || i >= nodes.len() {
        Seq::<LocationView>::empty()
    } else {
        let rest = heading_locs_from(nodes, slug, uri, i + 1);
        if nodes[i].kind is Heading && heading_slug(nodes[i].kind->Heading_text) == slug
            && nodes[i].span is Some {
            seq![LocationView { uri: uri, range: lsp_range_of(nodes[i].span->0) }] + rest
        } else {
            rest
        }
    }
}

/// The reference locations for the node under the cursor: for a heading, its
/// own span when declarations are included, then every matching anchor link;
/// for an anchor link, every matching heading when declarations are included,
/// then every link with the same anchor; nothing for any other node.
pub open spec fn references_spec(
    nodes: Seq<DocNodeView>,
    uri: Seq<char>,
    line: int,
    ch: int,
    include_declaration: bool,
) -> Seq<LocationView> {
    let idx = node_at(nodes, line, ch);
    if idx < 0 {
        Seq::<LocationView>::empty()
    } else {
        let n = nodes[idx];
        match n.kind {
            NodeKindView::Heading { depth, text } => {
                let slug = heading_slug(text);
                let decl: Seq<LocationView> = if include_declaration && n.span is Some {
                    seq![LocationView { uri: uri, range: lsp_range_of(n.span->0) }]
                } else {
                    Seq::<LocationView>::empty()
                };
                decl + anchor_locs_from(nodes, slug, uri, 0)
            },
            NodeKindView::Link { url } => {
                match anchor_of(url) {
                    Option::Some(a) => {
                        let decl: Seq<LocationView> = if include_declaration {
                            heading_locs_from(nodes, a, uri, 0)
                        } else {
                            Seq::<LocationView>::empty()
                        };
                        decl + anchor_locs_from(nodes, a, uri, 0)
                    },
                    Option::None => Seq::<LocationView>::empty(),
                }
            },
            _ => Seq::<LocationView>::empty(),
        }
    }
}

/// Counting matching anchor links from `i` on does not depend on whether
/// declarations are included.
proof fn lemma_anchor_locs_len(
    nodes: Seq<DocNodeView>,
    slug: Seq<char>,
    u1: Seq<char>,
    u2: Seq<char>,
    i: int,
)
    ensures
        anchor_locs_from(nodes, slug, u1, i).len() == anchor_locs_from(nodes, slug, u2, i).len(),
    decreases nodes.len() - i,
{
    if i < 0 || i >= nodes.len() {
    } else {
        lemma_anchor_locs_len(nodes, slug, u1, u2, i + 1);
    }
}

/// References from a heading include its own declaration exactly once: with
/// declarations included the answer holds the heading's span and then every
/// matching anchor link, so it is one location longer than the answer
/// without declarations.
pub proof fn lemma_references_declaration_count(
    nodes: Seq<DocNodeView>,
    uri: Seq<char>,
    line: int,
    ch: int,
)
    requires
        node_at(nodes, line, ch) >= 0,
        nodes[node_at(nodes, line, ch)].kind is Heading,
        nodes[node_at(nodes, line, ch)].span is Some,
    ensures
        references_spec(nodes, uri, line, ch, true).len() == 1 + references_spec(
            nodes,
            uri,
            line,
            ch,
            false,
        ).len(),
        references_spec(nodes, uri, line, ch, true)[0] == (LocationView {
            uri: uri,
            range: lsp_range_of(nodes[node_at(nodes, line, ch)].span->0),
        }),
{
    let idx = node_at(nodes, line, ch);
    let n = nodes[idx];
    let slug = heading_slug(n.kind->Heading_text);
    lemma_anchor_locs_len(nodes, slug, uri, uri, 0);
    assert(references_spec(nodes, uri, line, ch, true) == seq![
        LocationView { uri: uri, range: lsp_range_of(n.span->0) },
    ] + anchor_locs_from(nodes, slug, uri, 0));
    assert(references_spec(nodes, uri, line, ch, false) =~= anchor_locs_from(
        nodes,
        slug,
        uri,
        0,
    ));
}

/// What a definition request resolves to.
pub enum DefinitionLookup {
    /// The cursor sits on an anchor link with a matching heading: jump to it.
    AnchorFound { range: Range },
    /// The cursor sits on a link to a relative path: the caller must check
    /// whether the file exists before jumping.
    FileCandidate { target: String },
    /// Nothing to jump to.
    NotFound,
}

/// Mathematical shape of a definition lookup.
pub enum DefinitionLookupView {
    AnchorFound { range: Range },
    FileCandidate { target: Seq<char> },
    NotFound,
}

impl View for DefinitionLookup {
    type V = DefinitionLookupView;

    open spec fn view(&self) -> DefinitionLookupView {
        match self {
            DefinitionLookup::AnchorFound { range } => DefinitionLookupView::AnchorFound {
                range: *range,
            },
            DefinitionLookup::FileCandidate { target } => DefinitionLookupView::FileCandidate {
                target: target@,
            },
            DefinitionLookup::NotFound => DefinitionLookupView::NotFound,
        }
    }
}

/// Whether a link destination is an absolute web address.
pub open spec fn is_web_url(url: Seq<char>) -> bool {
    crate::text::starts_with(url, "http://"@) || crate::text::starts_with(url, "https://"@)
}

/// The path part of a link destination: what precedes the first `#`.
pub open spec fn path_part(url: Seq<char>) -> Seq<char> {
    split_char_spec(url, '#')[0]
}

/// What a definition request on this position resolves to: for an anchor
/// link, the first heading with the matching slug; for a relative file link,
/// the file as a candidate; otherwise nothing.
pub open spec fn definition_spec(
    nodes: Seq<DocNodeView>,
    line: int,
    ch: int,
) -> DefinitionLookupView {
    let idx = node_at(nodes, line, ch);
    if idx < 0 {
        DefinitionLookupView::NotFound
    } else {
        match nodes[idx].kind {
            NodeKindView::Link { url } => {
                match anchor_of(url) {
                    Option::Some(a) => {
                        let h = heading_with_slug_from(nodes, a, 0);
                        if h >= 0 {
                            DefinitionLookupView::AnchorFound {
                                range: lsp_range_of(nodes[h].span->0),
                            }
                        } else {
                            DefinitionLookupView::NotFound
                        }
                    },
                    Option::None => {
                        if !is_web_url(url) && path_part(url).len() > 0 {
                            DefinitionLookupView::FileCandidate { target: path_part(url) }
                        } else {
                            DefinitionLookupView::NotFound
                        }
                    },
                }
            },
            _ => DefinitionLookupView::NotFound,
        }
    }
}

/// A found heading index satisfies the heading conditions.
proof fn lemma_heading_from_props(nodes: Seq<DocNodeView>, slug: Seq<char>, i: int)
    requires
        heading_with_slug_from(nodes, slug, i) >= 0,
    ensures
        ({
            let h = heading_with_slug_from(nodes, slug, i);
            &&& i <= h < nodes.len()
            &&& nodes[h].kind is Heading
            &&& heading_slug(nodes[h].kind->Heading_text) == slug
            &&& nodes[h].span is Some
        }),
    decreases nodes.len() - i,
{
    if i < 0 || i >= nodes.len() {
    } else if nodes[i].kind is Heading && heading_slug(nodes[i].kind->Heading_text) == slug
        && nodes[i].span is Some {
    } else {
        lemma_heading_from_props(nodes, slug, i + 1);
    }
}

/// Finds the first node whose span contains the position.
pub fn find_node_at_position(nodes: &Vec<DocNode>, line: u32, ch: u32) -> (r: Option<usize>)
    ensures
        match r {
            Some(i) => i < nodes@.len() && node_at(nodes.deep_view(), line as int, ch as int)
                == i as int,
            None => node_at(nodes.deep_view(), line as int, ch as int) == -1,
        },
{
    let ghost vs = nodes.deep_view();
    proof {
        assert(vs.len() == nodes@.len());
    }
    let mut i: usize = 0;
    while i < nodes.len()
        invariant
            0 <= i <= nodes@.len(),
            vs == nodes.deep_view(),
            vs.len() == nodes@.len(),
            forall|k: int| 0 <= k < nodes@.len() ==> #[trigger] vs[k] == (nodes@[k])@,
            node_at(vs, line as int, ch as int) == node_at_from(vs, line as int, ch as int, i as int),
        decreases nodes@.len() - i,
    {
        let hit = match &nodes[i].span {
            Option::Some(sp) => {
                let sl: usize = if sp.start_line > 0 {
                    sp.start_line - 1
                } else {
                    0
                };
                let sc: usize = if sp.start_col > 0 {
                    sp.start_col - 1
                } else {
                    0
                };
                sl as u64 <= line as u64 && (line as u64) < sp.end_line as u64 && sc as u64
                    <= ch as u64 && (ch as u64) < sp.end_col as u64
            },
            Option::None => false,
        };
        proof {
            assert(vs[i as int].span == nodes@[i as int]@.span);
        }
        if hit {
            assert(vs[i as int].span is Some && span_contains(
                vs[i as int].span->0,
                line as int,
                ch as int,
            ));
            return Some(i);
        }
        assert(!(vs[i as int].span is Some && span_contains(
            vs[i as int].span->0,
            line as int,
            ch as int,
        )));
        i = i + 1;
    }
    None
}

/// Whether the 0-indexed line lies inside any code block node.
pub fn is_inside_code_block(nodes: &Vec<DocNode>, line: u32) -> (r: bool)
    ensures
        r == in_code_block(nodes.deep_view(), line as int),
{
    let ghost vs = nodes.deep_view();
    let mut i: usize = 0;
    while i < nodes.len()
        invariant
            0 <= i <= nodes@.len(),
            vs == nodes.deep_view(),
            vs.len() == nodes@.len(),
            forall|k: int| 0 <= k < nodes@.len() ==> #[trigger] vs[k] == (nodes@[k])@,
            forall|k: int|
                0 <= k < i ==> !((#[trigger] vs[k]).kind is CodeBlock && vs[k].span is Some
                    && span_covers_line(vs[k].span->0, line as int)),
        decreases nodes@.len() - i,
    {
        let is_code = match &nodes[i].kind {
            NodeKind::CodeBlock => true,
            _ => false,
        };
        let covers = match &nodes[i].span {
            Option::Some(sp) => {
                let sl: usize = if sp.start_line > 0 {
                    sp.start_line - 1
                } else {
                    0
                };
                sl as u64 <= line as u64 && (line as u64) < sp.end_line as u64
            },
            Option::None => false,
        };
        proof {
            assert(vs[i as int] == nodes@[i as int]@);
        }
        if is_code && covers {
            assert(vs[i as int].kind is CodeBlock && vs[i as int].span is Some
                && span_covers_line(vs[i as int].span->0, line as int));
            return true;
        }
        proof {
            assert(!(vs[i as int].kind is CodeBlock && vs[i as int].span is Some
                && span_covers_line(vs[i as int].span->0, line as int)));
        }
        i = i + 1;
    }
    false
}

/// Whether this node is an anchor link whose anchor equals `slug`.
fn node_matches_anchor(n: &DocNode, slug: &Vec<char>) -> (r: bool)
    ensures
        r == (is_anchor_link(n@) && anchor_of(n@.kind->Link_url)->0 == slug@),
{
    match &n.kind {
        NodeKind::Link { url } => {
            let urlc = to_chars(url.as_str());
            if urlc.len() > 0 && urlc[0] == '#' {
                let anchor = chars_subrange(&urlc, 1, urlc.len());
                proof {
                    assert(anchor@ =~= url@.skip(1));
                }
                match &n.span {
                    Option::Some(_) => crate::text::chars_eq(&anchor, slug),
                    Option::None => false,
                }
            } else {
                false
            }
        },
        _ => false,
    }
}

/// Whether this node is a heading whose slug equals `slug`, with a span.
fn node_is_heading_with_slug(n: &DocNode, slug: &Vec<char>) -> (r: bool)
    ensures
        r == (n@.kind is Heading && heading_slug(n@.kind->Heading_text) == slug@ && n@.span
            is Some),
{
    match &n.kind {
        NodeKind::Heading { depth, text } => {
            let hs = crate::slug::make_heading_slug(text.as_str());
            let hsc = to_chars(hs.as_str());
            match &n.span {
                Option::Some(_) => crate::text::chars_eq(&hsc, slug),
                Option::None => false,
            }
        },
        _ => false,
    }
}

/// Collects the locations of anchor links matching `slug`, in node order.
fn collect_anchor_locs(nodes: &Vec<DocNode>, slug: &Vec<char>, uri: &str) -> (r: Vec<Location>)
    ensures
        r.deep_view() == anchor_locs_from(nodes.deep_view(), slug@, uri@, 0),
{
    let ghost vs = nodes.deep_view();
    let mut out: Vec<Location> = Vec::new();
    let mut i: usize = 0;
    proof {
        assert(out.deep_view() =~= Seq::<LocationView>::empty());
        assert(anchor_locs_from(vs, slug@, uri@, 0) =~= out.deep_view() + anchor_locs_from(
            vs,
            slug@,
            uri@,
            0,
        ));
    }
    while i < nodes.len()
        invariant
            0 <= i <= nodes@.len(),
            vs == nodes.deep_view(),
            vs.len() == nodes@.len(),
            forall|k: int| 0 <= k < nodes@.len() ==> #[trigger] vs[k] == (nodes@[k])@,
            anchor_locs_from(vs, slug@, uri@, 0) == out.deep_view() + anchor_locs_from(
                vs,
                slug@,
                uri@,
                i as int,
            ),
        decreases nodes@.len() - i,
    {
        let ghost pre = out.deep_view();
        if node_matches_anchor(&nodes[i], slug) {
            let sp = match &nodes[i].span {
                Option::Some(sp) => *sp,
                Option::None => Span { start_line: 0, start_col: 0, end_line: 0, end_col: 0 },
            };
            let loc = Location { uri: uri.to_owned(), range: to_lsp_range(&sp) };
            out.push(loc);
            proof {
                assert(out.deep_view() =~= pre + seq![
                    LocationView { uri: uri@, range: lsp_range_of(vs[i as int].span->0) },
                ]);
                assert(anchor_locs_from(vs, slug@, uri@, i as int) == seq![
                    LocationView { uri: uri@, range: lsp_range_of(vs[i as int].span->0) },
                ] + anchor_locs_from(vs, slug@, uri@, i as int + 1));
                assert(pre + (seq![
                    LocationView { uri: uri@, range: lsp_range_of(vs[i as int].span->0) },
                ] + anchor_locs_from(vs, slug@, uri@, i as int + 1)) =~= out.deep_view()
                    + anchor_locs_from(vs, slug@, uri@, i as int + 1));
            }
        } else {
            proof {
                assert(anchor_locs_from(vs, slug@, uri@, i as int) == anchor_locs_from(
                    vs,
                    slug@,
                    uri@,
                    i as int + 1,
                ));
            }
        }
        i = i + 1;
    }
    proof {
        assert(anchor_locs_from(vs, slug@, uri@, nodes@.len() as int) =~= Seq::<
            LocationView,
        >::empty());
        assert(out.deep_view() + Seq::<LocationView>::empty() =~= out.deep_view());
    }
    out
}

/// Collects the locations of headings whose slug is `slug`, in node order.
fn collect_heading_locs(nodes: &Vec<DocNode>, slug: &Vec<char>, uri: &str) -> (r: Vec<Location>)
    ensures
        r.deep_view() == heading_locs_from(nodes.deep_view(), slug@, uri@, 0),
{
    let ghost vs = nodes.deep_view();
    let mut out: Vec<Location> = Vec::new();
    let mut i: usize = 0;
    proof {
        assert(out.deep_view() =~= Seq::<LocationView>::empty());
        assert(heading_locs_from(vs, slug@, uri@, 0) =~= out.deep_view() + heading_locs_from(
            vs,
            slug@,
            uri@,
            0,
        ));
    }
    while i < nodes.len()
        invariant
            0 <= i <= nodes@.len(),
            vs == nodes.deep_view(),
            vs.len() == nodes@.len(),
            forall|k: int| 0 <= k < nodes@.len() ==> #[trigger] vs[k] == (nodes@[k])@,
            heading_locs_from(vs, slug@, uri@, 0) == out.deep_view() + heading_locs_from(
                vs,
                slug@,
                uri@,
                i as int,
            ),
        decreases nodes@.len() - i,
    {
        let ghost pre = out.deep_view();
        if node_is_heading_with_slug(&nodes[i], slug) {
            let sp = match &nodes[i].span {
                Option::Some(sp) => *sp,
                Option::None => Span { start_line: 0, start_col: 0, end_line: 0, end_col: 0 },
            };
            let loc = Location { uri: uri.to_owned(), range: to_lsp_range(&sp) };
            out.push(loc);
            proof {
                assert(out.deep_view() =~= pre + seq![
                    LocationView { uri: uri@, range: lsp_range_of(vs[i as int].span->0) },
                ]);
                assert(heading_locs_from(vs, slug@, uri@, i as int) == seq![
                    LocationView { uri: uri@, range: lsp_range_of(vs[i as int].span->0) },
                ] + heading_locs_from(vs, slug@, uri@, i as int + 1));
                assert(pre + (seq![
                    LocationView { uri: uri@, range: lsp_range_of(vs[i as int].span->0) },
                ] + heading_locs_from(vs, slug@, uri@, i as int + 1)) =~= out.deep_view()
                    + heading_locs_from(vs, slug@, uri@, i as int + 1));
            }
        } else {
            proof {
                assert(heading_locs_from(vs, slug@, uri@, i as int) == heading_locs_from(
                    vs,
                    slug@,
                    uri@,
                    i as int + 1,
                ));
            }
        }
        i = i + 1;
    }
    proof {
        assert(heading_locs_from(vs, slug@, uri@, nodes@.len() as int) =~= Seq::<
            LocationView,
        >::empty());
        assert(out.deep_view() + Seq::<LocationView>::empty() =~= out.deep_view());
    }
    out
}

/// The reference locations for the position, per `references_spec`.
pub fn references_in_nodes(
    nodes: &Vec<DocNode>,
    uri: &str,
    line: u32,
    ch: u32,
    include_declaration: bool,
) -> (r: Vec<Location>)
    ensures
        r.deep_view() == references_spec(
            nodes.deep_view(),
            uri@,
            line as int,
            ch as int,
            include_declaration,
        ),
{
    let ghost vs = nodes.deep_view();
    let idx = match find_node_at_position(nodes, line, ch) {
        Some(i) => i,
        None => {
            proof {
                assert(references_spec(vs, uri@, line as int, ch as int, include_declaration)
                    =~= Seq::<LocationView>::empty());
            }
            return Vec::new();
        },
    };
    proof {
        assert(vs[idx as int] == (nodes@[idx as int])@);
    }
    match &nodes[idx].kind {
        NodeKind::Heading { depth, text } => {
            let hs = crate::slug::make_heading_slug(text.as_str());
            let slug = to_chars(hs.as_str());
            let mut out: Vec<Location> = Vec::new();
            let has_span = match &nodes[idx].span {
                Option::Some(_) => true,
                Option::None => false,
            };
            if include_declaration && has_span {
                let sp = match &nodes[idx].span {
                    Option::Some(sp) => *sp,
                    Option::None => Span { start_line: 0, start_col: 0, end_line: 0, end_col: 0 },
                };
                out.push(Location { uri: uri.to_owned(), range: to_lsp_range(&sp) });
            }
            let ghost decl = out.deep_view();
            let links = collect_anchor_locs(nodes, &slug, uri);
            let mut k: usize = 0;
            let ghost lv = links.deep_view();
            while k < links.len()
                invariant
                    0 <= k <= links@.len(),
                    lv == links.deep_view(),
                    lv.len() == links@.len(),
                    out.deep_view() == decl + lv.take(k as int),
                decreases links@.len() - k,
            {
                proof {
                    assert(lv.take(k as int + 1) =~= lv.take(k as int).push(lv[k as int]));
                    assert(decl + lv.take(k as int + 1) =~= (decl + lv.take(k as int)).push(
                        lv[k as int],
                    ));
                    assert(links@[k as int]@ == lv[k as int]);
                }
                let l = &links[k];
                out.push(Location { uri: l.uri.clone(), range: l.range });
                k = k + 1;
            }
            proof {
                assert(lv.take(links@.len() as int) =~= lv);
                assert(references_spec(vs, uri@, line as int, ch as int, include_declaration)
                    == decl + anchor_locs_from(vs, heading_slug(vs[idx as int].kind->Heading_text), uri@, 0));
            }
            out
        },
        NodeKind::Link { url } => {
            let urlc = to_chars(url.as_str());
            if urlc.len() > 0 && urlc[0] == '#' {
                let anchor = chars_subrange(&urlc, 1, urlc.len());
                proof {
                    assert(anchor@ =~= url@.skip(1));
                }
                let mut out: Vec<Location> = Vec::new();
                if include_declaration {
                    let hs = collect_heading_locs(nodes, &anchor, uri);
                    let mut k: usize = 0;
                    let ghost hv = hs.deep_view();
                    while k < hs.len()
                        invariant
                            0 <= k <= hs@.len(),
                            hv == hs.deep_view(),
                            hv.len() == hs@.len(),
                            out.deep_view() == hv.take(k as int),
                        decreases hs@.len() - k,
                    {
                        proof {
                            assert(hv.take(k as int + 1) =~= hv.take(k as int).push(
                                hv[k as int],
                            ));
                            assert(hs@[k as int]@ == hv[k as int]);
                        }
                        let l = &hs[k];
                        out.push(Location { uri: l.uri.clone(), range: l.range });
                        k = k + 1;
                    }
                    proof {
                        assert(hv.take(hs@.len() as int) =~= hv);
                    }
                }
                let ghost decl = out.deep_view();
                let links = collect_anchor_locs(nodes, &anchor, uri);
                let mut k: usize = 0;
                let ghost lv = links.deep_view();
                while k < links.len()
                    invariant
                        0 <= k <= links@.len(),
                        lv == links.deep_view(),
                        lv.len() == links@.len(),
                        out.deep_view() == decl + lv.take(k as int),
                    decreases links@.len() - k,
                {
                    proof {
                        assert(lv.take(k as int + 1) =~= lv.take(k as int).push(lv[k as int]));
                        assert(decl + lv.take(k as int + 1) =~= (decl + lv.take(k as int)).push(
                            lv[k as int],
                        ));
                        assert(links@[k as int]@ == lv[k as int]);
                    }
                    let l = &links[k];
                    out.push(Location { uri: l.uri.clone(), range: l.range });
                    k = k + 1;
                }
                proof {
                    assert(lv.take(links@.len() as int) =~= lv);
                    if !include_declaration {
                        assert(decl =~= Seq::<LocationView>::empty());
                        assert(decl + lv =~= lv);
                    }
                }
                out
            } else {
                proof {
                    assert(references_spec(vs, uri@, line as int, ch as int, include_declaration)
                        =~= Seq::<LocationView>::empty());
                }
                Vec::new()
            }
        },
        _ => {
            proof {
                assert(references_spec(vs, uri@, line as int, ch as int, include_declaration)
                    =~= Seq::<LocationView>::empty());
            }
            Vec::new()
        },
    }
}

/// The broken-anchor diagnostics of a document, per `diagnostics_spec`.
pub fn diagnostics_in_nodes(nodes: &Vec<DocNode>) -> (r: Vec<Diagnostic>)
    ensures
        r.deep_view() == diagnostics_spec(nodes.deep_view()),
{
    let ghost vs = nodes.deep_view();
    let mut out: Vec<Diagnostic> = Vec::new();
    let mut i: usize = 0;
    proof {
        assert(out.deep_view() =~= Seq::<DiagnosticView>::empty());
        assert(diags_from(vs, 0) =~= out.deep_view() + diags_from(vs, 0));
    }
    while i < nodes.len()
        invariant
            0 <= i <= nodes@.len(),
            vs == nodes.deep_view(),
            vs.len() == nodes@.len(),
            forall|k: int| 0 <= k < nodes@.len() ==> #[trigger] vs[k] == (nodes@[k])@,
            diags_from(vs, 0) == out.deep_view() + diags_from(vs, i as int),
        decreases nodes@.len() - i,
    {
        let ghost pre = out.deep_view();
        let broken = match &nodes[i].kind {
            NodeKind::Link { url } => {
                let urlc = to_chars(url.as_str());
                if urlc.len() > 0 && urlc[0] == '#' {
                    let anchor = chars_subrange(&urlc, 1, urlc.len());
                    proof {
                        assert(anchor@ =~= url@.skip(1));
                    }
                    let has_span = match &nodes[i].span {
                        Option::Some(_) => true,
                        Option::None => false,
                    };
                    if has_span && !any_heading_with_slug(nodes, &anchor) {
                        Some(anchor)
                    } else {
                        None
                    }
                } else {
                    None
                }
            },
            _ => None,
        };
        match broken {
            Some(anchor) => {
                let sp = match &nodes[i].span {
                    Option::Some(sp) => *sp,
                    Option::None => Span { start_line: 0, start_col: 0, end_line: 0, end_col: 0 },
                };
                let mut msg = to_chars("Broken link: heading '");
                let mut k: usize = 0;
                let ghost base = msg@;
                while k < anchor.len()
                    invariant
                        0 <= k <= anchor@.len(),
                        msg@ == base + anchor@.take(k as int),
                    decreases anchor@.len() - k,
                {
                    proof {
                        assert(anchor@.take(k as int + 1) =~= anchor@.take(k as int).push(
                            anchor@[k as int],
                        ));
                        assert(base + anchor@.take(k as int + 1) =~= (base + anchor@.take(
                            k as int,
                        )).push(anchor@[k as int]));
                    }
                    msg.push(anchor[k]);
                    k = k + 1;
                }
                proof {
                    assert(anchor@.take(anchor@.len() as int) =~= anchor@);
                }
                let tail = to_chars("' not found");
                let mut k2: usize = 0;
                let ghost base2 = msg@;
                while k2 < tail.len()
                    invariant
                        0 <= k2 <= tail@.len(),
                        msg@ == base2 + tail@.take(k2 as int),
                    decreases tail@.len() - k2,
                {
                    proof {
                        assert(tail@.take(k2 as int + 1) =~= tail@.take(k2 as int).push(
                            tail@[k2 as int],
                        ));
                        assert(base2 + tail@.take(k2 as int + 1) =~= (base2 + tail@.take(
                            k2 as int,
                        )).push(tail@[k2 as int]));
                    }
                    msg.push(tail[k2]);
                    k2 = k2 + 1;
                }
                proof {
                    assert(tail@.take(tail@.len() as int) =~= tail@);
                    assert(msg@ =~= broken_link_message(anchor_of(
                        vs[i as int].kind->Link_url,
                    )->0));
                }
                let d = Diagnostic {
                    range: to_lsp_range(&sp),
                    severity: Some(Severity::Warning),
                    message: from_chars(&msg),
                };
                out.push(d);
                proof {
                    assert(out.deep_view() =~= pre + seq![
                        DiagnosticView {
                            range: lsp_range_of(vs[i as int].span->0),
                            severity: Option::Some(Severity::Warning),
                            message: broken_link_message(anchor_of(vs[i as int].kind->Link_url)->0),
                        },
                    ]);
                    assert(diags_from(vs, i as int) == seq![
                        DiagnosticView {
                            range: lsp_range_of(vs[i as int].span->0),
                            severity: Option::Some(Severity::Warning),
                            message: broken_link_message(anchor_of(vs[i as int].kind->Link_url)->0),
                        },
                    ] + diags_from(vs, i as int + 1));
                    assert(pre + (seq![
                        DiagnosticView {
                            range: lsp_range_of(vs[i as int].span->0),
                            severity: Option::Some(Severity::Warning),
                            message: broken_link_message(anchor_of(vs[i as int].kind->Link_url)->0),
                        },
                    ] + diags_from(vs, i as int + 1)) =~= out.deep_view() + diags_from(
                        vs,
                        i as int + 1,
                    ));
                }
            },
            None => {
                proof {
                    assert(diags_from(vs, i as int) == diags_from(vs, i as int + 1));
                }
            },
        }
        i = i + 1;
    }
    proof {
        assert(diags_from(vs, nodes@.len() as int) =~= Seq::<DiagnosticView>::empty());
        assert(out.deep_view() + Seq::<DiagnosticView>::empty() =~= out.deep_view());
    }
    out
}

/// Whether any heading of the document has this slug.
fn any_heading_with_slug(nodes: &Vec<DocNode>, slug: &Vec<char>) -> (r: bool)
    ensures
        r == has_heading_with_slug(nodes.deep_view(), slug@),
{
    let ghost vs = nodes.deep_view();
    let mut i: usize = 0;
    while i < nodes.len()
        invariant
            0 <= i <= nodes@.len(),
            vs == nodes.deep_view(),
            vs.len() == nodes@.len(),
            forall|k: int| 0 <= k < nodes@.len() ==> #[trigger] vs[k] == (nodes@[k])@,
            forall|k: int|
                0 <= k < i ==> !((#[trigger] vs[k]).kind is Heading && heading_slug(
                    vs[k].kind->Heading_text,
                ) == slug@),
        decreases nodes@.len() - i,
    {
        let hit = match &nodes[i].kind {
            NodeKind::Heading { depth, text } => {
                let hs = crate::slug::make_heading_slug(text.as_str());
                crate::text::str_eq_chars(hs.as_str(), slug)
            },
            _ => false,
        };
        proof {
            assert(vs[i as int] == (nodes@[i as int])@);
        }
        if hit {
            assert(vs[i as int].kind is Heading && heading_slug(vs[i as int].kind->Heading_text)
                == slug@);
            return true;
        }
        proof {
            assert(!(vs[i as int].kind is Heading && heading_slug(vs[i as int].kind->Heading_text)
                == slug@));
        }
        i = i + 1;
    }
    false
}

/// What a definition request resolves to, per `definition_spec`.
pub fn definition_in_nodes(nodes: &Vec<DocNode>, line: u32, ch: u32) -> (r: DefinitionLookup)
    ensures
        r@ == definition_spec(nodes.deep_view(), line as int, ch as int),
{
    let ghost vs = nodes.deep_view();
    let idx = match find_node_at_position(nodes, line, ch) {
        Some(i) => i,
        None => {
            return DefinitionLookup::NotFound;
        },
    };
    proof {
        assert(vs[idx as int] == (nodes@[idx as int])@);
    }
    match &nodes[idx].kind {
        NodeKind::Link { url } => {
            let urlc = to_chars(url.as_str());
            if urlc.len() > 0 && urlc[0] == '#' {
                let anchor = chars_subrange(&urlc, 1, urlc.len());
                proof {
                    assert(anchor@ =~= url@.skip(1));
                }
                match first_heading_with_slug(nodes, &anchor) {
                    Some(h) => {
                        proof {
                            lemma_heading_from_props(vs, anchor@, 0);
                            assert(vs[h as int] == (nodes@[h as int])@);
                        }
                        let sp = match &nodes[h].span {
                            Option::Some(sp) => *sp,
                            Option::None => Span {
                                start_line: 0,
                                start_col: 0,
                                end_line: 0,
                                end_col: 0,
                            },
                        };
                        DefinitionLookup::AnchorFound { range: to_lsp_range(&sp) }
                    },
                    None => DefinitionLookup::NotFound,
                }
            } else {
                let http = to_chars("http://");
                let https = to_chars("https://");
                if crate::text::chars_starts_with(&urlc, &http) || crate::text::chars_starts_with(
                    &urlc,
                    &https,
                ) {
                    return DefinitionLookup::NotFound;
                }
                let pieces = chars_split(&urlc, '#');
                proof {
                    crate::text::lemma_split_char_nonempty(url@, '#');
                }
                let file_part = &pieces[0];
                if file_part.len() > 0 {
                    DefinitionLookup::FileCandidate { target: from_chars(file_part) }
                } else {
                    DefinitionLookup::NotFound
                }
            }
        },
        _ => DefinitionLookup::NotFound,
    }
}

/// First heading with this slug and a span.
fn first_heading_with_slug(nodes: &Vec<DocNode>, slug: &Vec<char>) -> (r: Option<usize>)
    ensures
        match r {
            Some(h) => h < nodes@.len() && heading_with_slug_from(nodes.deep_view(), slug@, 0)
                == h as int,
            None => heading_with_slug_from(nodes.deep_view(), slug@, 0) == -1,
        },
{
    let ghost vs = nodes.deep_view();
    let mut i: usize = 0;
    while i < nodes.len()
        invariant
            0 <= i <= nodes@.len(),
            vs == nodes.deep_view(),
            vs.len() == nodes@.len(),
            forall|k: int| 0 <= k < nodes@.len() ==> #[trigger] vs[k] == (nodes@[k])@,
            heading_with_slug_from(vs, slug@, 0) == heading_with_slug_from(vs, slug@, i as int),
        decreases nodes@.len() - i,
    {
        let hit = match &nodes[i].kind {
            NodeKind::Heading { depth, text } => {
                let hs = crate::slug::make_heading_slug(text.as_str());
                let ok = crate::text::str_eq_chars(hs.as_str(), slug);
                match &nodes[i].span {
                    Option::Some(_) => ok,
                    Option::None => false,
                }
            },
            _ => false,
        };
        proof {
            assert(vs[i as int] == (nodes@[i as int])@);
        }
        if hit {
            return Some(i);
        }
        i = i + 1;
    }
    None
}


/// One line of a text, as `str::lines` splits it: pieces between newlines,
/// with a carriage return stripped from the end of every piece but the last,
/// and no final empty piece.
pub open spec fn strip_cr(p: Seq<char>) -> Seq<char> {
    if p.len() > 0 && p.last() == '\r' {
        p.drop_last()
    } else {
        p
    }
}

pub open spec fn lines_of(s: Seq<char>) -> Seq<Seq<char>> {
    let ps = split_char_spec(s, '\n');
    let stripped = Seq::new(
        ps.len(),
        |i: int|
            if i < ps.len() - 1 {
                strip_cr(ps[i])
            } else {
                ps[i]
            },
    );
    if stripped.len() > 0 && stripped.last().len() == 0 {
        stripped.drop_last()
    } else {
        stripped
    }
}

/// Splits a text into its lines.
pub fn split_lines(v: &Vec<char>) -> (r: Vec<Vec<char>>)
    ensures
        r@.len() == lines_of(v@).len(),
        forall|k: int| 0 <= k < r@.len() ==> (#[trigger] r@[k])@ == lines_of(v@)[k],
{
    let pieces = chars_split(v, '\n');
    proof {
        crate::text::lemma_split_char_nonempty(v@, '\n');
    }
    let mut out: Vec<Vec<char>> = Vec::new();
    let mut i: usize = 0;
    let ghost ps = split_char_spec(v@, '\n');
    let ghost stripped = Seq::new(
        ps.len(),
        |k: int|
            if k < ps.len() - 1 {
                strip_cr(ps[k])
            } else {
                ps[k]
            },
    );
    while i < pieces.len()
        invariant
            0 <= i <= pieces@.len(),
            pieces@.len() == ps.len(),
            ps == split_char_spec(v@, '\n'),
            stripped == Seq::new(
                ps.len(),
                |k: int|
                    if k < ps.len() - 1 {
                        strip_cr(ps[k])
                    } else {
                        ps[k]
                    },
            ),
            forall|k: int| 0 <= k < pieces@.len() ==> (#[trigger] pieces@[k])@ == ps[k],
            out@.len() == i,
            forall|k: int| 0 <= k < i ==> (#[trigger] out@[k])@ == stripped[k],
        decreases pieces@.len() - i,
    {
        let p = &pieces[i];
        if i + 1 < pieces.len() && p.len() > 0 && p[p.len() - 1] == '\r' {
            let cut = chars_subrange(p, 0, p.len() - 1);
            proof {
                assert(cut@ =~= ps[i as int].drop_last());
            }
            out.push(cut);
        } else {
            let copy = chars_subrange(p, 0, p.len());
            proof {
                assert(copy@ =~= ps[i as int]);
            }
            out.push(copy);
        }
        i = i + 1;
    }
    if out.len() > 0 {
        let last_empty = out[out.len() - 1].len() == 0;
        if last_empty {
            let ghost pre = out@;
            out.pop();
            proof {
                assert(out@ =~= pre.drop_last());
                assert(stripped.last().len() == 0);
            }
        } else {
            proof {
                assert(!(stripped.last().len() == 0));
            }
        }
    }
    out
}

/// A completion item with the snippet kind.
pub open spec fn civ_snip(
    label: Seq<char>,
    detail: Option<Seq<char>>,
    insert: Seq<char>,
    snip: bool,
) -> CompletionItemView {
    CompletionItemView {
        label: label,
        detail: detail,
        kind: CompletionKind::Snippet,
        insert_text: Option::Some(insert),
        snippet: snip,
        sort_text: Option::None,
    }
}

/// The six heading snippets.
pub open spec fn heading_items_spec() -> Seq<CompletionItemView> {
    seq![
        civ_snip("# Heading 1"@, Option::None, "# "@, false),
        civ_snip("## Heading 2"@, Option::None, "## "@, false),
        civ_snip("### Heading 3"@, Option::None, "### "@, false),
        civ_snip("#### Heading 4"@, Option::None, "#### "@, false),
        civ_snip("##### Heading 5"@, Option::None, "##### "@, false),
        civ_snip("###### Heading 6"@, Option::None, "###### "@, false),
    ]
}

/// The link, image and task snippets.
pub open spec fn link_item_spec() -> CompletionItemView {
    civ_snip("[text](url)"@, Option::Some("Link"@), "$1]($2)"@, true)
}

pub open spec fn image_item_spec() -> CompletionItemView {
    civ_snip("![alt](url)"@, Option::Some("Image"@), "$1]($2)"@, true)
}

pub open spec fn task_items_spec() -> Seq<CompletionItemView> {
    seq![
        civ_snip("- [ ] Task"@, Option::Some("Task list item"@), " [ ] "@, false),
        civ_snip("- [x] Completed task"@, Option::Some("Completed task item"@), " [x] "@, false),
    ]
}

/// The language tags offered after a code fence.
pub open spec fn fence_langs_spec() -> Seq<Seq<char>> {
    seq![
        "rust"@,
        "python"@,
        "javascript"@,
        "typescript"@,
        "json"@,
        "yaml"@,
        "bash"@,
        "go"@,
        "java"@,
        "c"@,
        "cpp"@,
        "ruby"@,
        "elixir"@,
        "clojure"@,
        "haskell"@,
        "scala"@,
        "sh"@,
        "jq"@,
        "mq"@,
        "shell"@,
        "powershell"@,
        "zsh"@,
        "fish"@,
        "perl"@,
        "php"@,
        "swift"@,
        "kotlin"@,
        "dart"@,
        "lua"@,
        "groovy"@,
        "objective-c"@,
        "ocaml"@,
        "r"@,
        "matlab"@,
        "fortran"@,
        "assembly"@,
        "pascal"@,
        "vb"@,
        "fsharp"@,
        "erlang"@,
        "nim"@,
        "crystal"@,
        "julia"@,
        "prolog"@,
        "smalltalk"@,
        "tcl"@,
        "coffee"@,
        "typescriptreact"@,
        "jsx"@,
        "tsx"@,
        "css"@,
        "scss"@,
        "less"@,
        "html"@,
        "xml"@,
        "markdown"@,
        "plaintext"@,
        "sql"@,
        "sqlite"@,
        "postgres"@,
        "mysql"@,
        "redis"@,
        "dockerfile"@,
        "terraform"@,
        "ansible"@,
        "puppet"@,
        "makefile"@,
        "cmake"@,
        "gradle"@,
        "ini"@,
        "toml"@,
        "csv"@,
    ]
}

/// Builds the language tag list.
fn fence_langs() -> (r: Vec<String>)
    ensures
        r.deep_view() =~= fence_langs_spec(),
{
    let mut out: Vec<String> = Vec::new();
    out.push("rust".to_owned());
    out.push("python".to_owned());
    out.push("javascript".to_owned());
    out.push("typescript".to_owned());
    out.push("json".to_owned());
    out.push("yaml".to_owned());
    out.push("bash".to_owned());
    out.push("go".to_owned());
    out.push("java".to_owned());
    out.push("c".to_owned());
    out.push("cpp".to_owned());
    out.push("ruby".to_owned());
    out.push("elixir".to_owned());
    out.push("clojure".to_owned());
    out.push("haskell".to_owned());
    out.push("scala".to_owned());
    out.push("sh".to_owned());
    out.push("jq".to_owned());
    out.push("mq".to_owned());
    out.push("shell".to_owned());
    out.push("powershell".to_owned());
    out.push("zsh".to_owned());
    out.push("fish".to_owned());
    out.push("perl".to_owned());
    out.push("php".to_owned());
    out.push("swift".to_owned());
    out.push("kotlin".to_owned());
    out.push("dart".to_owned());
    out.push("lua".to_owned());
    out.push("groovy".to_owned());
    out.push("objective-c".to_owned());
    out.push("ocaml".to_owned());
    out.push("r".to_owned());
    out.push("matlab".to_owned());
    out.push("fortran".to_owned());
    out.push("assembly".to_owned());
    out.push("pascal".to_owned());
    out.push("vb".to_owned());
    out.push("fsharp".to_owned());
    out.push("erlang".to_owned());
    out.push("nim".to_owned());
    out.push("crystal".to_owned());
    out.push("julia".to_owned());
    out.push("prolog".to_owned());
    out.push("smalltalk".to_owned());
    out.push("tcl".to_owned());
    out.push("coffee".to_owned());
    out.push("typescriptreact".to_owned());
    out.push("jsx".to_owned());
    out.push("tsx".to_owned());
    out.push("css".to_owned());
    out.push("scss".to_owned());
    out.push("less".to_owned());
    out.push("html".to_owned());
    out.push("xml".to_owned());
    out.push("markdown".to_owned());
    out.push("plaintext".to_owned());
    out.push("sql".to_owned());
    out.push("sqlite".to_owned());
    out.push("postgres".to_owned());
    out.push("mysql".to_owned());
    out.push("redis".to_owned());
    out.push("dockerfile".to_owned());
    out.push("terraform".to_owned());
    out.push("ansible".to_owned());
    out.push("puppet".to_owned());
    out.push("makefile".to_owned());
    out.push("cmake".to_owned());
    out.push("gradle".to_owned());
    out.push("ini".to_owned());
    out.push("toml".to_owned());
    out.push("csv".to_owned());
    proof {
        assert(out.deep_view().len() == fence_langs_spec().len());
    }
    out
}

/// The fence snippet for one language tag.
pub open spec fn fence_item_spec(lang: Seq<char>) -> CompletionItemView {
    civ_snip(
        seq!['`'] + lang,
        Option::Some(lang + " code block"@),
        seq!['`'] + lang + "\n$1\n```"@,
        true,
    )
}

pub open spec fn fence_items_spec() -> Seq<CompletionItemView> {
    fence_langs_spec().map_values(|l: Seq<char>| fence_item_spec(l))
}

/// Four-digit sort key: the index zero-padded to at least four digits.
pub open spec fn pad4(k: nat) -> Seq<char> {
    if k < 10 {
        "000"@ + crate::text::decimal_digits(k)
    } else if k < 100 {
        "00"@ + crate::text::decimal_digits(k)
    } else if k < 1000 {
        "0"@ + crate::text::decimal_digits(k)
    } else {
        crate::text::decimal_digits(k)
    }
}

/// The anchor candidate for the `k`-th heading.
pub open spec fn anchor_item_spec(depth: int, text: Seq<char>, k: nat) -> CompletionItemView {
    CompletionItemView {
        label: seq!['#'] + heading_slug(text),
        detail: Option::Some(
            seq!['H'] + crate::text::decimal_digits(depth as nat) + ": "@ + text,
        ),
        kind: CompletionKind::Reference,
        insert_text: Option::Some(heading_slug(text)),
        snippet: false,
        sort_text: Option::Some(pad4(k)),
    }
}

/// Anchor candidates for every heading from node `i` on, `k` headings seen.
pub open spec fn anchor_items_from(nodes: Seq<DocNodeView>, i: int, k: nat) -> Seq<
    CompletionItemView,
>
    decreases nodes.len() - i,
{
    if i < 0 || i >= nodes.len() {
        Seq::<CompletionItemView>::empty()
    } else {
        match nodes[i].kind {
            NodeKindView::Heading { depth, text } => seq![anchor_item_spec(depth, text, k)]
                + anchor_items_from(nodes, i + 1, k + 1),
            _ => anchor_items_from(nodes, i + 1, k),
        }
    }
}

/// All completion candidates for a cursor prefix.
pub open spec fn completion_groups(
    prefix: Seq<char>,
    nodes: Option<Seq<DocNodeView>>,
) -> Seq<CompletionItemView> {
    (if crate::text::ends_with(prefix, "#"@) || crate::text::ends_with(prefix, "# "@) {
        heading_items_spec()
    } else {
        Seq::<CompletionItemView>::empty()
    }) + (if crate::text::ends_with(prefix, "["@) {
        seq![link_item_spec()]
    } else {
        Seq::<CompletionItemView>::empty()
    }) + (if crate::text::ends_with(prefix, "!["@) {
        seq![image_item_spec()]
    } else {
        Seq::<CompletionItemView>::empty()
    }) + (if crate::text::ends_with(crate::text::trim_start_spec(prefix), "-"@)
        || crate::text::ends_with(crate::text::trim_start_spec(prefix), "- "@) {
        task_items_spec()
    } else {
        Seq::<CompletionItemView>::empty()
    }) + (if crate::text::ends_with(prefix, "``"@) {
        fence_items_spec()
    } else {
        Seq::<CompletionItemView>::empty()
    }) + (if crate::text::contains_seq(prefix, "](#"@) && nodes is Some {
        anchor_items_from(nodes->0, 0, 0)
    } else {
        Seq::<CompletionItemView>::empty()
    })
}

/// All completion candidates at a position: none inside a code block, none
/// past the last line, else the candidates for the text left of the cursor.
pub open spec fn completions_spec(
    content: Seq<char>,
    nodes: Option<Seq<DocNodeView>>,
    line: int,
    ch: int,
) -> Seq<CompletionItemView> {
    if nodes is Some && in_code_block(nodes->0, line) {
        Seq::<CompletionItemView>::empty()
    } else {
        let lines = lines_of(content);
        if line < 0 || line >= lines.len() {
            Seq::<CompletionItemView>::empty()
        } else {
            let lc = lines[line];
            let p = lc.take(
                if ch <= lc.len() {
                    ch
                } else {
                    lc.len() as int
                },
            );
            completion_groups(p, nodes)
        }
    }
}


/// Copies a completion item, exact in the contract.
fn copy_item(e: &CompletionItem) -> (r: CompletionItem)
    ensures
        r@ == e@,
{
    CompletionItem {
        label: e.label.clone(),
        detail: match &e.detail {
            Option::Some(d) => Option::Some(d.clone()),
            Option::None => Option::None,
        },
        kind: e.kind,
        insert_text: match &e.insert_text {
            Option::Some(t) => Option::Some(t.clone()),
            Option::None => Option::None,
        },
        snippet: e.snippet,
        sort_text: match &e.sort_text {
            Option::Some(t) => Option::Some(t.clone()),
            Option::None => Option::None,
        },
    }
}

/// Appends all of `src` to `dst`.
fn append_items(dst: &mut Vec<CompletionItem>, src: &Vec<CompletionItem>)
    ensures
        final(dst).deep_view() == old(dst).deep_view() + src.deep_view(),
{
    let mut i: usize = 0;
    proof {
        assert(dst.deep_view() =~= old(dst).deep_view() + src.deep_view().take(0));
    }
    while i < src.len()
        invariant
            0 <= i <= src@.len(),
            src.deep_view().len() == src@.len(),
            forall|k: int| 0 <= k < src@.len() ==> #[trigger] src.deep_view()[k] == (src@[k])@,
            dst.deep_view() == old(dst).deep_view() + src.deep_view().take(i as int),
        decreases src@.len() - i,
    {
        let ghost pre = dst.deep_view();
        let it = copy_item(&src[i]);
        dst.push(it);
        proof {
            assert(dst.deep_view() =~= pre.push(src.deep_view()[i as int]));
            assert(src.deep_view().take(i as int + 1) =~= src.deep_view().take(i as int).push(
                src.deep_view()[i as int],
            ));
            assert(old(dst).deep_view() + src.deep_view().take(i as int + 1) =~= (old(
                dst,
            ).deep_view() + src.deep_view().take(i as int)).push(src.deep_view()[i as int]));
        }
        i = i + 1;
    }
    proof {
        assert(src.deep_view().take(src@.len() as int) =~= src.deep_view());
    }
}

/// A snippet-kind item from its parts.
fn mk_snip(label: &str, detail: Option<&str>, insert: &str, snip: bool) -> (r: CompletionItem)
    ensures
        r@ == civ_snip(
            label@,
            match detail {
                Option::Some(d) => Option::Some(d@),
                Option::None => Option::None,
            },
            insert@,
            snip,
        ),
{
    CompletionItem {
        label: label.to_owned(),
        detail: match detail {
            Option::Some(d) => Option::Some(d.to_owned()),
            Option::None => Option::None,
        },
        kind: CompletionKind::Snippet,
        insert_text: Option::Some(insert.to_owned()),
        snippet: snip,
        sort_text: Option::None,
    }
}

/// The six heading snippets.
fn heading_items() -> (r: Vec<CompletionItem>)
    ensures
        r.deep_view() =~= heading_items_spec(),
{
    let mut out: Vec<CompletionItem> = Vec::new();
    out.push(mk_snip("# Heading 1", None, "# ", false));
    out.push(mk_snip("## Heading 2", None, "## ", false));
    out.push(mk_snip("### Heading 3", None, "### ", false));
    out.push(mk_snip("#### Heading 4", None, "#### ", false));
    out.push(mk_snip("##### Heading 5", None, "##### ", false));
    out.push(mk_snip("###### Heading 6", None, "###### ", false));
    out
}

/// The fence snippets, one per language tag.
fn fence_items() -> (r: Vec<CompletionItem>)
    ensures
        r.deep_view() =~= fence_items_spec(),
{
    let langs = fence_langs();
    let mut out: Vec<CompletionItem> = Vec::new();
    let mut i: usize = 0;
    let ghost lv = langs.deep_view();
    while i < langs.len()
        invariant
            0 <= i <= langs@.len(),
            lv == langs.deep_view(),
            lv =~= fence_langs_spec(),
            lv.len() == langs@.len(),
            forall|k: int| 0 <= k < langs@.len() ==> #[trigger] lv[k] == (langs@[k])@,
            out.deep_view().len() == i,
            forall|k: int|
                0 <= k < i ==> #[trigger] out.deep_view()[k] == fence_item_spec(lv[k]),
        decreases langs@.len() - i,
    {
        let lang = &langs[i];
        let lc = to_chars(lang.as_str());
        let mut label: Vec<char> = Vec::new();
        label.push('`');
        let ghost lb = label@;
        let mut k: usize = 0;
        while k < lc.len()
            invariant
                0 <= k <= lc@.len(),
                label@ == lb + lc@.take(k as int),
            decreases lc@.len() - k,
        {
            proof {
                assert(lc@.take(k as int + 1) =~= lc@.take(k as int).push(lc@[k as int]));
                assert(lb + lc@.take(k as int + 1) =~= (lb + lc@.take(k as int)).push(
                    lc@[k as int],
                ));
            }
            label.push(lc[k]);
            k = k + 1;
        }
        proof {
            assert(lc@.take(lc@.len() as int) =~= lc@);
            assert(label@ =~= seq!['`'] + lv[i as int]);
        }
        let mut detail = crate::text::chars_subrange(&lc, 0, lc.len());
        proof {
            assert(detail@ =~= lc@);
        }
        let tail = to_chars(" code block");
        let ghost db = detail@;
        let mut k2: usize = 0;
        while k2 < tail.len()
            invariant
                0 <= k2 <= tail@.len(),
                detail@ == db + tail@.take(k2 as int),
            decreases tail@.len() - k2,
        {
            proof {
                assert(tail@.take(k2 as int + 1) =~= tail@.take(k2 as int).push(
                    tail@[k2 as int],
                ));
                assert(db + tail@.take(k2 as int + 1) =~= (db + tail@.take(k2 as int)).push(
                    tail@[k2 as int],
                ));
            }
            detail.push(tail[k2]);
            k2 = k2 + 1;
        }
        proof {
            assert(tail@.take(tail@.len() as int) =~= tail@);
            assert(detail@ =~= lv[i as int] + " code block"@);
        }
        let mut insert = crate::text::chars_subrange(&label, 0, label.len());
        proof {
            assert(insert@ =~= label@);
        }
        let itail = to_chars("\n$1\n```");
        let ghost ib = insert@;
        let mut k3: usize = 0;
        while k3 < itail.len()
            invariant
                0 <= k3 <= itail@.len(),
                insert@ == ib + itail@.take(k3 as int),
            decreases itail@.len() - k3,
        {
            proof {
                assert(itail@.take(k3 as int + 1) =~= itail@.take(k3 as int).push(
                    itail@[k3 as int],
                ));
                assert(ib + itail@.take(k3 as int + 1) =~= (ib + itail@.take(k3 as int)).push(
                    itail@[k3 as int],
                ));
            }
            insert.push(itail[k3]);
            k3 = k3 + 1;
        }
        proof {
            assert(itail@.take(itail@.len() as int) =~= itail@);
            assert(insert@ =~= seq!['`'] + lv[i as int] + "\n$1\n```"@);
        }
        let item = CompletionItem {
            label: from_chars(&label),
            detail: Option::Some(from_chars(&detail)),
            kind: CompletionKind::Snippet,
            insert_text: Option::Some(from_chars(&insert)),
            snippet: true,
            sort_text: Option::None,
        };
        let ghost pre = out.deep_view();
        proof {
            assert(item@ == fence_item_spec(lv[i as int]));
        }
        out.push(item);
        proof {
            assert(out.deep_view() =~= pre.push(fence_item_spec(lv[i as int])));
        }
        i = i + 1;
    }
    proof {
        assert forall|k: int| 0 <= k < out.deep_view().len() implies #[trigger] out.deep_view()[k]
            == fence_items_spec()[k] by {
            assert(fence_items_spec()[k] == fence_item_spec(fence_langs_spec()[k]));
        }
        assert(out.deep_view().len() == fence_items_spec().len());
    }
    out
}

/// The four-digit sort key for index `k`.
fn pad4_chars(k: u64) -> (r: Vec<char>)
    ensures
        r@ == pad4(k as nat),
{
    let digits = crate::text::format_decimal(k);
    let mut out: Vec<char> = Vec::new();
    if k < 10 {
        out = to_chars("000");
    } else if k < 100 {
        out = to_chars("00");
    } else if k < 1000 {
        out = to_chars("0");
    }
    let ghost base = out@;
    let mut i: usize = 0;
    while i < digits.len()
        invariant
            0 <= i <= digits@.len(),
            out@ == base + digits@.take(i as int),
        decreases digits@.len() - i,
    {
        proof {
            assert(digits@.take(i as int + 1) =~= digits@.take(i as int).push(
                digits@[i as int],
            ));
            assert(base + digits@.take(i as int + 1) =~= (base + digits@.take(i as int)).push(
                digits@[i as int],
            ));
        }
        out.push(digits[i]);
        i = i + 1;
    }
    proof {
        assert(digits@.take(digits@.len() as int) =~= digits@);
        if k >= 1000 {
            assert(out@ =~= digits@);
        }
    }
    out
}

/// Anchor candidates for every heading of the document, in document order.
fn anchor_items(nodes: &Vec<DocNode>) -> (r: Vec<CompletionItem>)
    ensures
        r.deep_view() == anchor_items_from(nodes.deep_view(), 0, 0),
{
    let ghost vs = nodes.deep_view();
    let mut out: Vec<CompletionItem> = Vec::new();
    let mut i: usize = 0;
    let mut seen: u64 = 0;
    proof {
        assert(out.deep_view() =~= Seq::<CompletionItemView>::empty());
        assert(anchor_items_from(vs, 0, 0) =~= out.deep_view() + anchor_items_from(vs, 0, 0));
    }
    while i < nodes.len()
        invariant
            0 <= i <= nodes@.len(),
            vs == nodes.deep_view(),
            vs.len() == nodes@.len(),
            forall|k: int| 0 <= k < nodes@.len() ==> #[trigger] vs[k] == (nodes@[k])@,
            seen <= i,
            anchor_items_from(vs, 0, 0) == out.deep_view() + anchor_items_from(
                vs,
                i as int,
                seen as nat,
            ),
        decreases nodes@.len() - i,
    {
        let ghost pre = out.deep_view();
        match &nodes[i].kind {
            NodeKind::Heading { depth, text } => {
                let slug_s = crate::slug::make_heading_slug(text.as_str());
                let slug = to_chars(slug_s.as_str());
                let mut label: Vec<char> = Vec::new();
                label.push('#');
                let ghost lb = label@;
                let mut k: usize = 0;
                while k < slug.len()
                    invariant
                        0 <= k <= slug@.len(),
                        label@ == lb + slug@.take(k as int),
                    decreases slug@.len() - k,
                {
                    proof {
                        assert(slug@.take(k as int + 1) =~= slug@.take(k as int).push(
                            slug@[k as int],
                        ));
                        assert(lb + slug@.take(k as int + 1) =~= (lb + slug@.take(
                            k as int,
                        )).push(slug@[k as int]));
                    }
                    label.push(slug[k]);
                    k = k + 1;
                }
                proof {
                    assert(slug@.take(slug@.len() as int) =~= slug@);
                }
                let mut detail: Vec<char> = Vec::new();
                detail.push('H');
                let dd = crate::text::format_decimal(*depth as u64);
                let ghost db = detail@;
                let mut k2: usize = 0;
                while k2 < dd.len()
                    invariant
                        0 <= k2 <= dd@.len(),
                        detail@ == db + dd@.take(k2 as int),
                    decreases dd@.len() - k2,
                {
                    proof {
                        assert(dd@.take(k2 as int + 1) =~= dd@.take(k2 as int).push(
                            dd@[k2 as int],
                        ));
                        assert(db + dd@.take(k2 as int + 1) =~= (db + dd@.take(k2 as int)).push(
                            dd@[k2 as int],
                        ));
                    }
                    detail.push(dd[k2]);
                    k2 = k2 + 1;
                }
                proof {
                    assert(dd@.take(dd@.len() as int) =~= dd@);
                }
                detail.push(':');
                detail.push(' ');
                let tc = to_chars(text.as_str());
                let ghost db2 = detail@;
                let mut k3: usize = 0;
                while k3 < tc.len()
                    invariant
                        0 <= k3 <= tc@.len(),
                        detail@ == db2 + tc@.take(k3 as int),
                    decreases tc@.len() - k3,
                {
                    proof {
                        assert(tc@.take(k3 as int + 1) =~= tc@.take(k3 as int).push(
                            tc@[k3 as int],
                        ));
                        assert(db2 + tc@.take(k3 as int + 1) =~= (db2 + tc@.take(k3 as int)).push(
                            tc@[k3 as int],
                        ));
                    }
                    detail.push(tc[k3]);
                    k3 = k3 + 1;
                }
                proof {
                    assert(tc@.take(tc@.len() as int) =~= tc@);
                }
                let sort = pad4_chars(seen);
                let item = CompletionItem {
                    label: from_chars(&label),
                    detail: Option::Some(from_chars(&detail)),
                    kind: CompletionKind::Reference,
                    insert_text: Option::Some(slug_s),
                    snippet: false,
                    sort_text: Option::Some(from_chars(&sort)),
                };
                proof {
                    reveal_strlit(": ");
                    let ghost dview = vs[i as int].kind->Heading_depth;
                    let ghost tview = vs[i as int].kind->Heading_text;
                    assert(label@ =~= seq!['#'] + heading_slug(tview));
                    assert(detail@ =~= seq!['H'] + crate::text::decimal_digits(dview as nat)
                        + ": "@ + tview);
                    assert(item@ == anchor_item_spec(dview, tview, seen as nat));
                    assert(anchor_items_from(vs, i as int, seen as nat) == seq![
                        anchor_item_spec(dview, tview, seen as nat),
                    ] + anchor_items_from(vs, i as int + 1, seen as nat + 1));
                }
                out.push(item);
                proof {
                    assert(out.deep_view() =~= pre.push(anchor_item_spec(
                        vs[i as int].kind->Heading_depth,
                        vs[i as int].kind->Heading_text,
                        seen as nat,
                    )));
                    assert(pre + (seq![
                        anchor_item_spec(
                            vs[i as int].kind->Heading_depth,
                            vs[i as int].kind->Heading_text,
                            seen as nat,
                        ),
                    ] + anchor_items_from(vs, i as int + 1, seen as nat + 1)) =~= out.deep_view()
                        + anchor_items_from(vs, i as int + 1, seen as nat + 1));
                }
                seen = seen + 1;
            },
            _ => {
                proof {
                    assert(anchor_items_from(vs, i as int, seen as nat) == anchor_items_from(
                        vs,
                        i as int + 1,
                        seen as nat,
                    ));
                }
            },
        }
        i = i + 1;
    }
    proof {
        assert(anchor_items_from(vs, nodes@.len() as int, seen as nat) =~= Seq::<
            CompletionItemView,
        >::empty());
        assert(out.deep_view() + Seq::<CompletionItemView>::empty() =~= out.deep_view());
    }
    out
}

/// The completion candidates for a prefix, per `completion_groups`.
pub fn completions_for_prefix(prefix: &Vec<char>, nodes: Option<&Vec<DocNode>>) -> (r: Vec<
    CompletionItem,
>)
    ensures
        r.deep_view() == completion_groups(
            prefix@,
            match nodes {
                Option::Some(ns) => Option::Some(ns.deep_view()),
                Option::None => Option::None,
            },
        ),
{
    let ghost nv: Option<Seq<DocNodeView>> = match nodes {
        Option::Some(ns) => Option::Some(ns.deep_view()),
        Option::None => Option::None,
    };
    let mut out: Vec<CompletionItem> = Vec::new();
    let ghost g0 = out.deep_view();
    let hash1 = to_chars("#");
    let hash2 = to_chars("# ");
    if crate::text::chars_ends_with(prefix, &hash1) || crate::text::chars_ends_with(
        prefix,
        &hash2,
    ) {
        let hs = heading_items();
        append_items(&mut out, &hs);
    }
    proof {
        let g = if crate::text::ends_with(prefix@, "#"@) || crate::text::ends_with(
            prefix@,
            "# "@,
        ) {
            heading_items_spec()
        } else {
            Seq::<CompletionItemView>::empty()
        };
        assert(out.deep_view() =~= g);
    }
    let ghost acc1 = out.deep_view();
    let open1 = to_chars("[");
    if crate::text::chars_ends_with(prefix, &open1) {
        let it = mk_snip("[text](url)", Some("Link"), "$1]($2)", true);
        out.push(it);
    }
    proof {
        let g = if crate::text::ends_with(prefix@, "["@) {
            seq![link_item_spec()]
        } else {
            Seq::<CompletionItemView>::empty()
        };
        assert(out.deep_view() =~= acc1 + g);
    }
    let ghost acc2 = out.deep_view();
    let open2 = to_chars("![");
    if crate::text::chars_ends_with(prefix, &open2) {
        let it = mk_snip("![alt](url)", Some("Image"), "$1]($2)", true);
        out.push(it);
    }
    proof {
        let g = if crate::text::ends_with(prefix@, "!["@) {
            seq![image_item_spec()]
        } else {
            Seq::<CompletionItemView>::empty()
        };
        assert(out.deep_view() =~= acc2 + g);
    }
    let ghost acc3 = out.deep_view();
    let trimmed = crate::text::chars_trim_start(prefix);
    let dash1 = to_chars("-");
    let dash2 = to_chars("- ");
    if crate::text::chars_ends_with(&trimmed, &dash1) || crate::text::chars_ends_with(
        &trimmed,
        &dash2,
    ) {
        let t1 = mk_snip("- [ ] Task", Some("Task list item"), " [ ] ", false);
        let t2 = mk_snip("- [x] Completed task", Some("Completed task item"), " [x] ", false);
        out.push(t1);
        out.push(t2);
    }
    proof {
        let g = if crate::text::ends_with(crate::text::trim_start_spec(prefix@), "-"@)
            || crate::text::ends_with(crate::text::trim_start_spec(prefix@), "- "@) {
            task_items_spec()
        } else {
            Seq::<CompletionItemView>::empty()
        };
        assert(out.deep_view() =~= acc3 + g);
    }
    let ghost acc4 = out.deep_view();
    let ticks = to_chars("``");
    if crate::text::chars_ends_with(prefix, &ticks) {
        let fs = fence_items();
        append_items(&mut out, &fs);
    }
    proof {
        let g = if crate::text::ends_with(prefix@, "``"@) {
            fence_items_spec()
        } else {
            Seq::<CompletionItemView>::empty()
        };
        assert(out.deep_view() =~= acc4 + g);
    }
    let ghost acc5 = out.deep_view();
    let anchor_mark = to_chars("](#");
    if crate::text::chars_contains(prefix, &anchor_mark) {
        match nodes {
            Option::Some(ns) => {
                let ai = anchor_items(ns);
                append_items(&mut out, &ai);
            },
            Option::None => {},
        }
    }
    proof {
        let g = if crate::text::contains_seq(prefix@, "](#"@) && nv is Some {
            anchor_items_from(nv->0, 0, 0)
        } else {
            Seq::<CompletionItemView>::empty()
        };
        assert(out.deep_view() =~= acc5 + g);
        assert(out.deep_view() =~= completion_groups(prefix@, nv));
    }
    out
}


/// A document the analyzer holds: its raw text and, when parsing succeeded,
/// its node list.
#[derive(Debug)]
pub struct MarkdownDocument {
    pub content: String,
    pub nodes: Option<Vec<DocNode>>,
}

/// Mathematical shape of a stored document.
pub struct MarkdownDocumentView {
    pub content: Seq<char>,
    pub nodes: Option<Seq<DocNodeView>>,
}

impl View for MarkdownDocument {
    type V = MarkdownDocumentView;

    open spec fn view(&self) -> MarkdownDocumentView {
        MarkdownDocumentView {
            content: self.content@,
            nodes: match self.nodes {
                Option::Some(ns) => Option::Some(ns.deep_view()),
                Option::None => Option::None,
            },
        }
    }
}

/// First stored document under `uri`.
pub open spec fn doc_lookup(
    docs: Seq<(String, MarkdownDocument)>,
    uri: Seq<char>,
) -> Option<MarkdownDocumentView>
    decreases docs.len(),
{
    if docs.len() == 0 {
        Option::None
    } else if docs[0].0@ == uri {
        Option::Some(docs[0].1@)
    } else {
        doc_lookup(docs.drop_first(), uri)
    }
}

/// The node list a store ends with: the fresh parse when it succeeded, else
/// whatever the previous copy of the document held.
pub open spec fn stored_nodes_after(
    tree: Option<Seq<DocNodeView>>,
    prev: Option<MarkdownDocumentView>,
) -> Option<Seq<DocNodeView>> {
    match tree {
        Option::Some(t) => Option::Some(t),
        Option::None => match prev {
            Option::Some(d) => d.nodes,
            Option::None => Option::None,
        },
    }
}

/// The embedded Markdown language server: parses open documents and answers
/// the request surface directly, publishing results on its event queue.
#[derive(Debug)]
pub struct MarkdownLsp {
    pub documents: Vec<(String, MarkdownDocument)>,
    pub root_path: String,
    pub events: Vec<Event>,
}

/// The trigger characters the analyzer negotiates.
pub open spec fn markdown_trigger_chars() -> Seq<Seq<char>> {
    seq!["#"@, "["@, "!"@, "`"@, "-"@]
}

/// The file URI of a path.
pub open spec fn uri_of_path(path: Seq<char>) -> Seq<char> {
    "file://"@ + path
}

/// Turns a filesystem path into a file URI.
pub fn path_to_uri(path: &str) -> (r: String)
    ensures
        r@ == uri_of_path(path@),
{
    let mut out = "file://".to_owned();
    out.append(path);
    out
}

impl MarkdownLsp {
    /// A fresh analyzer for a workspace root.
    pub fn new(root_path: String) -> (r: Self)
        ensures
            r.documents@.len() == 0,
            r.events@.len() == 0,
            r.root_path@ == root_path@,
    {
        MarkdownLsp { documents: Vec::new(), root_path, events: Vec::new() }
    }

    /// The heading slug of a rendered heading text.
    pub fn make_heading_slug(text: &str) -> (r: String)
        ensures
            r@ == crate::slug::slug_of(lower_of(text@)),
    {
        crate::slug::make_heading_slug(text)
    }

    /// Parses a document and stores it under its URI, replacing any previous
    /// copy; when parsing fails the previous node list, if any, is kept and
    /// only the raw text changes. One diagnostics event is published when
    /// the parse succeeded and found broken anchors.
    pub fn parse_document(&mut self, uri: &str, content: &str)
        ensures
            doc_lookup(final(self).documents@, uri@) == Option::Some(
                MarkdownDocumentView {
                    content: content@,
                    nodes: stored_nodes_after(
                        crate::doc::doc_tree_of(content@),
                        doc_lookup(old(self).documents@, uri@),
                    ),
                },
            ),
            forall|other: Seq<char>|
                other != uri@ ==> #[trigger] doc_lookup(final(self).documents@, other)
                    == doc_lookup(old(self).documents@, other),
            final(self).root_path@ == old(self).root_path@,
            parse_events_after(
                final(self).events.deep_view(),
                old(self).events.deep_view(),
                uri@,
                content@,
            ),
    {
        let parsed = crate::doc::parse_markdown(content);
        match &parsed {
            Option::Some(ns) => {
                let diags = diagnostics_in_nodes(ns);
                if diags.len() > 0 {
                    let ghost pre = self.events.deep_view();
                    self.events.push(Event::Diagnostics { uri: uri.to_owned(), diagnostics: diags });
                    proof {
                        assert(self.events.deep_view() =~= pre + seq![
                            EventView::Diagnostics {
                                uri: uri@,
                                diagnostics: diagnostics_spec(
                                    crate::doc::doc_tree_of(content@)->0,
                                ),
                            },
                        ]);
                    }
                }
            },
            Option::None => {},
        }
        let ghost olddocs = self.documents@;
        match self.document_index(uri) {
            Some(i) => {
                proof {
                    lemma_doc_lookup_update(olddocs, olddocs, uri@, i as int);
                }
                let old_entry = self.documents.remove(i);
                let kept = match parsed {
                    Option::Some(n) => Option::Some(n),
                    Option::None => old_entry.1.nodes,
                };
                let doc = MarkdownDocument { content: content.to_owned(), nodes: kept };
                self.documents.insert(i, (uri.to_owned(), doc));
                proof {
                    let newdocs = self.documents@;
                    assert(newdocs =~= olddocs.update(i as int, newdocs[i as int]));
                    lemma_doc_lookup_update(olddocs, newdocs, uri@, i as int);
                }
            },
            None => {
                proof {
                    lemma_doc_lookup_none(olddocs, uri@);
                }
                let doc = MarkdownDocument { content: content.to_owned(), nodes: parsed };
                self.documents.push((uri.to_owned(), doc));
                proof {
                    let newdocs = self.documents@;
                    assert(newdocs.drop_last() =~= olddocs);
                    lemma_doc_lookup_append(olddocs, newdocs, uri@);
                }
            },
        }
    }

    /// Position of the first stored document under `uri`.
    fn document_index(&self, uri: &str) -> (r: Option<usize>)
        ensures
            match r {
                Some(i) => i < self.documents@.len() && self.documents@[i as int].0@ == uri@
                    && forall|k: int|
                    0 <= k < i ==> (#[trigger] self.documents@[k]).0@ != uri@,
                None => forall|k: int|
                    0 <= k < self.documents@.len() ==> (#[trigger] self.documents@[k]).0@ != uri@,
            },
    {
        let mut i: usize = 0;
        while i < self.documents.len()
            invariant
                0 <= i <= self.documents@.len(),
                forall|k: int| 0 <= k < i ==> (#[trigger] self.documents@[k]).0@ != uri@,
            decreases self.documents@.len() - i,
        {
            if crate::text::str_eq(self.documents[i].0.as_str(), uri) {
                return Some(i);
            }
            i = i + 1;
        }
        None
    }
}

/// How storing a document extends the event queue: one diagnostics event
/// when the parse succeeded and found broken anchors, nothing otherwise.
pub open spec fn parse_events_after(
    post: Seq<EventView>,
    pre: Seq<EventView>,
    uri: Seq<char>,
    content: Seq<char>,
) -> bool {
    let tree = crate::doc::doc_tree_of(content);
    if tree is Some && diagnostics_spec(tree->0).len() > 0 {
        post == pre + seq![
            EventView::Diagnostics { uri: uri, diagnostics: diagnostics_spec(tree->0) },
        ]
    } else {
        post == pre
    }
}

/// When no entry carries `uri`, the lookup finds nothing.
proof fn lemma_doc_lookup_none(docs: Seq<(String, MarkdownDocument)>, uri: Seq<char>)
    requires
        forall|k: int| 0 <= k < docs.len() ==> (#[trigger] docs[k]).0@ != uri,
    ensures
        doc_lookup(docs, uri) is None,
    decreases docs.len(),
{
    if docs.len() > 0 {
        assert forall|k: int|
            0 <= k < docs.drop_first().len() implies (#[trigger] docs.drop_first()[k]).0@
            != uri by {
            assert(docs.drop_first()[k] == docs[k + 1]);
        }
        lemma_doc_lookup_none(docs.drop_first(), uri);
    }
}

/// After replacing entry `i`, whose key is `uri` and before which `uri` does
/// not occur, lookups of `uri` give the new document and others are
/// unchanged.
proof fn lemma_doc_lookup_update(
    olddocs: Seq<(String, MarkdownDocument)>,
    newdocs: Seq<(String, MarkdownDocument)>,
    uri: Seq<char>,
    i: int,
)
    requires
        0 <= i < olddocs.len(),
        newdocs.len() == olddocs.len(),
        forall|k: int| 0 <= k < olddocs.len() && k != i ==> olddocs[k] == #[trigger] newdocs[k],
        forall|k: int| 0 <= k < i ==> (#[trigger] olddocs[k]).0@ != uri,
        olddocs[i].0@ == uri,
        newdocs[i].0@ == uri,
    ensures
        doc_lookup(newdocs, uri) == Option::Some(newdocs[i].1@),
        forall|other: Seq<char>|
            other != uri ==> #[trigger] doc_lookup(newdocs, other) == doc_lookup(olddocs, other),
    decreases olddocs.len(),
{
    if i == 0 {
        assert(doc_lookup(newdocs, uri) == Option::Some(newdocs[0].1@));
        assert forall|other: Seq<char>| other != uri implies #[trigger] doc_lookup(newdocs, other)
            == doc_lookup(olddocs, other) by {
            assert(newdocs.drop_first() =~= olddocs.drop_first());
            assert(doc_lookup(newdocs, other) == doc_lookup(newdocs.drop_first(), other));
            assert(doc_lookup(olddocs, other) == doc_lookup(olddocs.drop_first(), other));
        }
    } else {
        assert(olddocs[0] == newdocs[0]);
        assert forall|k: int|
            0 <= k < olddocs.drop_first().len() && k != i - 1 implies olddocs.drop_first()[k]
            == #[trigger] newdocs.drop_first()[k] by {
            assert(olddocs.drop_first()[k] == olddocs[k + 1]);
            assert(newdocs.drop_first()[k] == newdocs[k + 1]);
        }
        assert forall|k: int| 0 <= k < i - 1 implies (#[trigger] olddocs.drop_first()[k]).0@
            != uri by {
            assert(olddocs.drop_first()[k] == olddocs[k + 1]);
        }
        assert(olddocs.drop_first()[i - 1].0@ == uri && newdocs.drop_first()[i - 1].0@ == uri);
        lemma_doc_lookup_update(olddocs.drop_first(), newdocs.drop_first(), uri, i - 1);
        assert(newdocs[0].0@ != uri);
        assert(doc_lookup(newdocs, uri) == doc_lookup(newdocs.drop_first(), uri));
        assert(newdocs.drop_first()[i - 1] == newdocs[i]);
        assert forall|other: Seq<char>| other != uri implies #[trigger] doc_lookup(newdocs, other)
            == doc_lookup(olddocs, other) by {
            assert(doc_lookup(newdocs, other) == if newdocs[0].0@ == other {
                Option::Some(newdocs[0].1@)
            } else {
                doc_lookup(newdocs.drop_first(), other)
            });
            assert(doc_lookup(olddocs, other) == if olddocs[0].0@ == other {
                Option::Some(olddocs[0].1@)
            } else {
                doc_lookup(olddocs.drop_first(), other)
            });
        }
    }
}

/// After appending an entry with a key not stored before, lookups of that
/// key give the new document and others are unchanged.
proof fn lemma_doc_lookup_append(
    olddocs: Seq<(String, MarkdownDocument)>,
    newdocs: Seq<(String, MarkdownDocument)>,
    uri: Seq<char>,
)
    requires
        newdocs.len() == olddocs.len() + 1,
        newdocs.drop_last() == olddocs,
        newdocs.last().0@ == uri,
        forall|k: int| 0 <= k < olddocs.len() ==> (#[trigger] olddocs[k]).0@ != uri,
    ensures
        doc_lookup(newdocs, uri) == Option::Some(newdocs.last().1@),
        forall|other: Seq<char>|
            other != uri ==> #[trigger] doc_lookup(newdocs, other) == doc_lookup(olddocs, other),
    decreases olddocs.len(),
{
    if olddocs.len() == 0 {
        assert(newdocs.len() == 1);
        assert(newdocs[0] == newdocs.last());
        assert(newdocs.drop_first() =~= Seq::<(String, MarkdownDocument)>::empty());
        assert forall|other: Seq<char>| other != uri implies #[trigger] doc_lookup(newdocs, other)
            == doc_lookup(olddocs, other) by {
            assert(doc_lookup(newdocs, other) == doc_lookup(newdocs.drop_first(), other));
        }
    } else {
        assert(newdocs[0] == olddocs[0]) by {
            assert(newdocs.drop_last()[0] == newdocs[0]);
        }
        assert(newdocs.drop_first().drop_last() =~= olddocs.drop_first()) by {
            assert forall|k: int|
                0 <= k < olddocs.drop_first().len() implies newdocs.drop_first().drop_last()[k]
                == olddocs.drop_first()[k] by {
                assert(newdocs.drop_first().drop_last()[k] == newdocs[k + 1]);
                assert(olddocs.drop_first()[k] == olddocs[k + 1]);
                assert(newdocs.drop_last()[k + 1] == newdocs[k + 1]);
            }
        }
        assert(newdocs.drop_first().last() == newdocs.last());
        assert forall|k: int| 0 <= k < olddocs.drop_first().len() implies (
        #[trigger] olddocs.drop_first()[k]).0@ != uri by {
            assert(olddocs.drop_first()[k] == olddocs[k + 1]);
        }
        lemma_doc_lookup_append(olddocs.drop_first(), newdocs.drop_first(), uri);
        assert(olddocs[0].0@ != uri);
        assert(doc_lookup(newdocs, uri) == doc_lookup(newdocs.drop_first(), uri));
        assert forall|other: Seq<char>| other != uri implies #[trigger] doc_lookup(newdocs, other)
            == doc_lookup(olddocs, other) by {
            assert(doc_lookup(newdocs, other) == if newdocs[0].0@ == other {
                Option::Some(newdocs[0].1@)
            } else {
                doc_lookup(newdocs.drop_first(), other)
            });
            assert(doc_lookup(olddocs, other) == if olddocs[0].0@ == other {
                Option::Some(olddocs[0].1@)
            } else {
                doc_lookup(olddocs.drop_first(), other)
            });
        }
    }
}


/// Level of a Markdown heading line, judged from the line text alone.
pub fn is_heading(line: &str) -> (r: Option<usize>)
    ensures
        match r {
            Some(level) => crate::line_analyzer::heading_level_spec(
                crate::text::trim_start_spec(line@),
            ) == level && 1 <= level <= 6,
            None => crate::line_analyzer::heading_level_spec(
                crate::text::trim_start_spec(line@),
            ) == 0,
        },
{
    let chars = to_chars(line);
    let t = crate::text::chars_trim_start(&chars);
    let k = crate::text::chars_prefix_count(&t, '#');
    if 1 <= k && k <= 6 && k < t.len() && crate::text::char_is_whitespace(t[k]) {
        Some(k)
    } else {
        None
    }
}

impl MarkdownLsp {
    /// First stored document under `uri`.
    fn find_document(&self, uri: &str) -> (r: Option<&MarkdownDocument>)
        ensures
            match r {
                Some(d) => doc_lookup(self.documents@, uri@) == Option::Some(d@),
                None => doc_lookup(self.documents@, uri@) is None,
            },
    {
        proof {
            lemma_doc_lookup_from(self.documents@, uri@, 0);
            assert(self.documents@.skip(0) =~= self.documents@);
        }
        let mut i: usize = 0;
        while i < self.documents.len()
            invariant
                0 <= i <= self.documents@.len(),
                forall|k: int| 0 <= k < i ==> (#[trigger] self.documents@[k]).0@ != uri@,
                doc_lookup(self.documents@, uri@) == doc_lookup_from(self.documents@, uri@, i as int),
            decreases self.documents@.len() - i,
        {
            proof {
                assert(doc_lookup_from(self.documents@, uri@, i as int) == if self.documents@[i as int].0@
                    == uri@ {
                    Option::Some(self.documents@[i as int].1@)
                } else {
                    doc_lookup_from(self.documents@, uri@, i as int + 1)
                });
            }
            if crate::text::str_eq(self.documents[i].0.as_str(), uri) {
                return Some(&self.documents[i].1);
            }
            i = i + 1;
        }
        None
    }

    /// The completion candidates at a position of a document, per
    /// `completions_spec`; none when the document is unknown, and none at a
    /// position inside a fenced code block whatever the prefix.
    pub fn get_completions(&self, uri: &str, line: u32, character: u32) -> (r: Vec<
        CompletionItem,
    >)
        ensures
            r.deep_view() == match doc_lookup(self.documents@, uri@) {
                Option::Some(d) => completions_spec(d.content, d.nodes, line as int, character as int),
                Option::None => Seq::<CompletionItemView>::empty(),
            },
            (doc_lookup(self.documents@, uri@) matches Option::Some(d) && d.nodes is Some
                && in_code_block(d.nodes->0, line as int)) ==> r.deep_view().len() == 0,
    {
        let doc = match self.find_document(uri) {
            Some(d) => d,
            None => {
                let empty: Vec<CompletionItem> = Vec::new();
                proof {
                    assert(empty.deep_view() =~= Seq::<CompletionItemView>::empty());
                }
                return empty;
            },
        };
        match &doc.nodes {
            Option::Some(ns) => {
                if is_inside_code_block(ns, line) {
                    let empty: Vec<CompletionItem> = Vec::new();
                    proof {
                        assert(empty.deep_view() =~= Seq::<CompletionItemView>::empty());
                    }
                    return empty;
                }
            },
            Option::None => {},
        }
        let content = to_chars(doc.content.as_str());
        let lines = split_lines(&content);
        if line as usize >= lines.len() {
            let empty: Vec<CompletionItem> = Vec::new();
            proof {
                assert(empty.deep_view() =~= Seq::<CompletionItemView>::empty());
            }
            return empty;
        }
        let lc = &lines[line as usize];
        let cut: usize = if (character as usize) <= lc.len() {
            character as usize
        } else {
            lc.len()
        };
        let prefix = crate::text::chars_subrange(lc, 0, cut);
        proof {
            assert(prefix@ =~= lines_of(doc@.content)[line as int].take(
                if character as int <= lines_of(doc@.content)[line as int].len() {
                    character as int
                } else {
                    lines_of(doc@.content)[line as int].len() as int
                },
            ));
        }
        let items = match &doc.nodes {
            Option::Some(ns) => completions_for_prefix(&prefix, Some(ns)),
            Option::None => completions_for_prefix(&prefix, None),
        };
        items
    }

    /// What a definition request at this position resolves to, per
    /// `definition_spec`; nothing when the document is unknown or has no
    /// parse tree.
    pub fn get_definition(&self, uri: &str, line: u32, character: u32) -> (r: DefinitionLookup)
        ensures
            r@ == match doc_lookup(self.documents@, uri@) {
                Option::Some(d) => match d.nodes {
                    Option::Some(ns) => definition_spec(ns, line as int, character as int),
                    Option::None => DefinitionLookupView::NotFound,
                },
                Option::None => DefinitionLookupView::NotFound,
            },
    {
        let doc = match self.find_document(uri) {
            Some(d) => d,
            None => {
                return DefinitionLookup::NotFound;
            },
        };
        match &doc.nodes {
            Option::Some(ns) => definition_in_nodes(ns, line, character),
            Option::None => DefinitionLookup::NotFound,
        }
    }

    /// The reference locations at this position, per `references_spec`;
    /// none when the document is unknown or has no parse tree.
    pub fn get_references(
        &self,
        uri: &str,
        line: u32,
        character: u32,
        include_declaration: bool,
    ) -> (r: Vec<Location>)
        ensures
            r.deep_view() == match doc_lookup(self.documents@, uri@) {
                Option::Some(d) => match d.nodes {
                    Option::Some(ns) => references_spec(
                        ns,
                        uri@,
                        line as int,
                        character as int,
                        include_declaration,
                    ),
                    Option::None => Seq::<LocationView>::empty(),
                },
                Option::None => Seq::<LocationView>::empty(),
            },
    {
        let doc = match self.find_document(uri) {
            Some(d) => d,
            None => {
                let empty: Vec<Location> = Vec::new();
                proof {
                    assert(empty.deep_view() =~= Seq::<LocationView>::empty());
                }
                return empty;
            },
        };
        match &doc.nodes {
            Option::Some(ns) => references_in_nodes(ns, uri, line, character, include_declaration),
            Option::None => {
                let empty: Vec<Location> = Vec::new();
                proof {
                    assert(empty.deep_view() =~= Seq::<LocationView>::empty());
                }
                empty
            },
        }
    }

    /// Announces the handshake result: the trigger characters that should
    /// re-invoke completion.
    pub fn initialize(&mut self)
        ensures
            final(self).events.deep_view() == old(self).events.deep_view() + seq![
                EventView::Initialized { trigger_characters: markdown_trigger_chars() },
            ],
            final(self).documents@ == old(self).documents@,
            final(self).root_path@ == old(self).root_path@,
    {
        let mut cs: Vec<String> = Vec::new();
        cs.push("#".to_owned());
        cs.push("[".to_owned());
        cs.push("!".to_owned());
        cs.push("`".to_owned());
        cs.push("-".to_owned());
        proof {
            assert(cs.deep_view() =~= markdown_trigger_chars());
        }
        let ghost pre = self.events.deep_view();
        self.events.push(Event::Initialized { trigger_characters: cs });
        proof {
            assert(self.events.deep_view() =~= pre + seq![
                EventView::Initialized { trigger_characters: markdown_trigger_chars() },
            ]);
        }
    }

    /// Completes the handshake; the analyzer needs nothing more.
    pub fn initialized(&mut self)
        ensures
            *final(self) == *old(self),
    {
    }

    /// Records a newly opened document: it is parsed and stored, broken
    /// anchors are reported, and every other document stays as it was.
    pub fn did_open(&mut self, file_path: &str, content: &str)
        ensures
            doc_lookup(final(self).documents@, uri_of_path(file_path@)) == Option::Some(
                MarkdownDocumentView {
                    content: content@,
                    nodes: stored_nodes_after(
                        crate::doc::doc_tree_of(content@),
                        doc_lookup(old(self).documents@, uri_of_path(file_path@)),
                    ),
                },
            ),
            forall|other: Seq<char>|
                other != uri_of_path(file_path@) ==> #[trigger] doc_lookup(
                    final(self).documents@,
                    other,
                ) == doc_lookup(old(self).documents@, other),
            parse_events_after(
                final(self).events.deep_view(),
                old(self).events.deep_view(),
                uri_of_path(file_path@),
                content@,
            ),
            final(self).root_path@ == old(self).root_path@,
    {
        let uri = path_to_uri(file_path);
        self.parse_document(uri.as_str(), content);
    }

    /// Replaces a document wholesale after a change, re-parsing it and
    /// reporting broken anchors anew; when the re-parse fails the previous
    /// node list is kept. Every other document stays as it was.
    pub fn did_change(&mut self, file_path: &str, version: i32, content: &str)
        ensures
            doc_lookup(final(self).documents@, uri_of_path(file_path@)) == Option::Some(
                MarkdownDocumentView {
                    content: content@,
                    nodes: stored_nodes_after(
                        crate::doc::doc_tree_of(content@),
                        doc_lookup(old(self).documents@, uri_of_path(file_path@)),
                    ),
                },
            ),
            forall|other: Seq<char>|
                other != uri_of_path(file_path@) ==> #[trigger] doc_lookup(
                    final(self).documents@,
                    other,
                ) == doc_lookup(old(self).documents@, other),
            parse_events_after(
                final(self).events.deep_view(),
                old(self).events.deep_view(),
                uri_of_path(file_path@),
                content@,
            ),
            final(self).root_path@ == old(self).root_path@,
    {
        let uri = path_to_uri(file_path);
        self.parse_document(uri.as_str(), content);
    }

    /// The analyzer offers no semantic tokens; the request is a no-op.
    pub fn request_semantic_tokens(&mut self, file_path: &str)
        ensures
            *final(self) == *old(self),
    {
    }

    /// Computes the completion candidates and publishes them as one event.
    pub fn request_completion(
        &mut self,
        file_path: &str,
        line: u32,
        character: u32,
        trigger_character: Option<String>,
    )
        ensures
            final(self).events.deep_view() == old(self).events.deep_view() + seq![
                EventView::Completion {
                    items: match doc_lookup(old(self).documents@, uri_of_path(file_path@)) {
                        Option::Some(d) => completions_spec(
                            d.content,
                            d.nodes,
                            line as int,
                            character as int,
                        ),
                        Option::None => Seq::<CompletionItemView>::empty(),
                    },
                },
            ],
            final(self).documents@ == old(self).documents@,
            final(self).root_path@ == old(self).root_path@,
    {
        let uri = path_to_uri(file_path);
        let items = self.get_completions(uri.as_str(), line, character);
        let ghost pre = self.events.deep_view();
        let ghost iv = items.deep_view();
        self.events.push(Event::Completion { items });
        proof {
            assert(self.events.deep_view() =~= pre + seq![EventView::Completion { items: iv }]);
        }
    }

    /// Resolves a definition request. An anchor target is answered at once
    /// with an event; a relative file target is handed back so the caller
    /// can check the file on disk and finish with
    /// `resolve_file_definition`.
    pub fn request_definition(&mut self, file_path: &str, line: u32, character: u32) -> (r:
        Option<String>)
        ensures
            final(self).documents@ == old(self).documents@,
            final(self).root_path@ == old(self).root_path@,
            ({
                let lookup = match doc_lookup(old(self).documents@, uri_of_path(file_path@)) {
                    Option::Some(d) => match d.nodes {
                        Option::Some(ns) => definition_spec(ns, line as int, character as int),
                        Option::None => DefinitionLookupView::NotFound,
                    },
                    Option::None => DefinitionLookupView::NotFound,
                };
                match lookup {
                    DefinitionLookupView::AnchorFound { range } => r is None
                        && final(self).events.deep_view() == old(self).events.deep_view() + seq![
                        EventView::Definition {
                            response: crate::events::DefinitionResponseView::Single(
                                LocationView { uri: uri_of_path(file_path@), range: range },
                            ),
                        },
                    ],
                    DefinitionLookupView::FileCandidate { target } => r matches Option::Some(t)
                        && t@ == target
                        && final(self).events.deep_view() == old(self).events.deep_view(),
                    DefinitionLookupView::NotFound => r is None && final(self).events.deep_view()
                        == old(self).events.deep_view(),
                }
            }),
    {
        let uri = path_to_uri(file_path);
        match self.get_definition(uri.as_str(), line, character) {
            DefinitionLookup::AnchorFound { range } => {
                let ghost pre = self.events.deep_view();
                let loc = Location { uri: uri, range };
                let ghost lv = loc@;
                self.events.push(
                    Event::Definition {
                        response: crate::events::DefinitionResponse::Single(loc),
                    },
                );
                proof {
                    assert(self.events.deep_view() =~= pre + seq![
                        EventView::Definition {
                            response: crate::events::DefinitionResponseView::Single(lv),
                        },
                    ]);
                }
                None
            },
            DefinitionLookup::FileCandidate { target } => Some(target),
            DefinitionLookup::NotFound => None,
        }
    }

    /// Finishes a file-target definition: when the caller found the file on
    /// disk, its location is published.
    pub fn resolve_file_definition(&mut self, target_uri: &str, exists: bool)
        ensures
            final(self).documents@ == old(self).documents@,
            final(self).root_path@ == old(self).root_path@,
            exists ==> final(self).events.deep_view() == old(self).events.deep_view() + seq![
                EventView::Definition {
                    response: crate::events::DefinitionResponseView::Single(
                        LocationView {
                            uri: target_uri@,
                            range: Range {
                                start: Position { line: 0, character: 0 },
                                end: Position { line: 0, character: 0 },
                            },
                        },
                    ),
                },
            ],
            !exists ==> final(self).events.deep_view() == old(self).events.deep_view(),
    {
        if exists {
            let ghost pre = self.events.deep_view();
            let loc = Location {
                uri: target_uri.to_owned(),
                range: Range {
                    start: Position { line: 0, character: 0 },
                    end: Position { line: 0, character: 0 },
                },
            };
            let ghost lv = loc@;
            self.events.push(
                Event::Definition { response: crate::events::DefinitionResponse::Single(loc) },
            );
            proof {
                assert(self.events.deep_view() =~= pre + seq![
                    EventView::Definition {
                        response: crate::events::DefinitionResponseView::Single(lv),
                    },
                ]);
            }
        }
    }

    /// Computes the reference locations and publishes them as one event when
    /// there are any.
    pub fn request_references(
        &mut self,
        file_path: &str,
        line: u32,
        character: u32,
        include_declaration: bool,
    )
        ensures
            final(self).documents@ == old(self).documents@,
            final(self).root_path@ == old(self).root_path@,
            ({
                let locs = match doc_lookup(old(self).documents@, uri_of_path(file_path@)) {
                    Option::Some(d) => match d.nodes {
                        Option::Some(ns) => references_spec(
                            ns,
                            uri_of_path(file_path@),
                            line as int,
                            character as int,
                            include_declaration,
                        ),
                        Option::None => Seq::<LocationView>::empty(),
                    },
                    Option::None => Seq::<LocationView>::empty(),
                };
                if locs.len() > 0 {
                    final(self).events.deep_view() == old(self).events.deep_view() + seq![
                        EventView::References { locations: locs },
                    ]
                } else {
                    final(self).events.deep_view() == old(self).events.deep_view()
                }
            }),
    {
        let uri = path_to_uri(file_path);
        let locs = self.get_references(uri.as_str(), line, character, include_declaration);
        if locs.len() > 0 {
            let ghost pre = self.events.deep_view();
            let ghost lv = locs.deep_view();
            self.events.push(Event::References { locations: locs });
            proof {
                assert(self.events.deep_view() =~= pre + seq![
                    EventView::References { locations: lv },
                ]);
            }
        }
    }

    /// Forgets every document.
    pub fn shutdown(&mut self)
        ensures
            final(self).documents@.len() == 0,
            final(self).events@ == old(self).events@,
            final(self).root_path@ == old(self).root_path@,
    {
        self.documents.clear();
    }

    /// The language this analyzer serves.
    pub fn language_id(&self) -> (r: &str)
        ensures
            r@ == "markdown"@,
    {
        "markdown"
    }

    /// Takes all queued events, oldest first.
    pub fn drain_events(&mut self) -> (r: Vec<Event>)
        ensures
            r@ == old(self).events@,
            final(self).events@.len() == 0,
            final(self).documents@ == old(self).documents@,
            final(self).root_path@ == old(self).root_path@,
    {
        let mut out: Vec<Event> = Vec::new();
        core::mem::swap(&mut out, &mut self.events);
        out
    }
}

/// The indexed lookup agrees with the recursive one on the tail.
proof fn lemma_doc_lookup_from(docs: Seq<(String, MarkdownDocument)>, uri: Seq<char>, i: int)
    requires
        0 <= i <= docs.len(),
    ensures
        doc_lookup(docs.skip(i), uri) == doc_lookup_from(docs, uri, i),
    decreases docs.len() - i,
{
    if i == docs.len() {
        assert(docs.skip(i) =~= Seq::<(String, MarkdownDocument)>::empty());
    } else {
        lemma_doc_lookup_from(docs, uri, i + 1);
        assert(docs.skip(i).len() > 0);
        assert(docs.skip(i)[0] == docs[i]);
        assert(docs.skip(i).drop_first() =~= docs.skip(i + 1));
    }
}

/// First stored document under `uri`, looking from position `i` on.
pub open spec fn doc_lookup_from(
    docs: Seq<(String, MarkdownDocument)>,
    uri: Seq<char>,
    i: int,
) -> Option<MarkdownDocumentView>
    decreases docs.len() - i,
{
    if i < 0 || i >= docs.len() {
        Option::None
    } else if docs[i].0@ == uri {
        Option::Some(docs[i].1@)
    } else {
        doc_lookup_from(docs, uri, i + 1)
    }
}

} // verus!
