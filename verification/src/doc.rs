//! Document model for the embedded analyzer: a flat list of block-level
//! nodes, each with the fields the analysis reads and its source span.

use vstd::prelude::*;

verus! {

/// Source span of a node, 1-indexed lines and columns.
#[derive(Debug, Clone, Copy, PartialEq, Eq, Structural)]
pub struct Span {
    pub start_line: usize,
    pub start_col: usize,
    pub end_line: usize,
    pub end_col: usize,
}

/// What the analysis reads of one block node.
#[derive(Debug, Clone)]
pub enum NodeKind {
    /// Heading with its depth and rendered text.
    Heading { depth: u8, text: String },
    /// Link with its destination.
    Link { url: String },
    /// Fenced or indented code block.
    CodeBlock,
    /// Any other node kind.
    Other,
}

/// One node of the parsed document.
#[derive(Debug, Clone)]
pub struct DocNode {
    pub kind: NodeKind,
    pub span: Option<Span>,
}

/// Mathematical shape of a node kind.
pub enum NodeKindView {
    Heading { depth: int, text: Seq<char> },
    Link { url: Seq<char> },
    CodeBlock,
    Other,
}

/// Mathematical shape of a node.
pub struct DocNodeView {
    pub kind: NodeKindView,
    pub span: Option<Span>,
}

impl View for NodeKind {
    type V = NodeKindView;

    open spec fn view(&self) -> NodeKindView {
        match self {
            NodeKind::Heading { depth, text } => NodeKindView::Heading {
                depth: *depth as int,
                text: text@,
            },
            NodeKind::Link { url } => NodeKindView::Link { url: url@ },
            NodeKind::CodeBlock => NodeKindView::CodeBlock,
            NodeKind::Other => NodeKindView::Other,
        }
    }
}

impl DeepView for NodeKind {
    type V = NodeKindView;

    open spec fn deep_view(&self) -> NodeKindView {
        self@
    }
}

impl View for DocNode {
    type V = DocNodeView;

    open spec fn view(&self) -> DocNodeView {
        DocNodeView { kind: self.kind@, span: self.span }
    }
}

impl DeepView for DocNode {
    type V = DocNodeView;

    open spec fn deep_view(&self) -> DocNodeView {
        self@
    }
}

/// The node list that parsing yields for a text, or nothing when parsing
/// fails: a function of the text alone.
pub uninterp spec fn doc_tree_of(s: Seq<char>) -> Option<Seq<DocNodeView>>;

/// Relies on mq_markdown::Markdown::from_markdown_str: parsing is a function
/// of the text alone. Each block node carries over one for one: its variant,
/// a heading's depth and rendered text, a link's destination, and the source
/// position when the parser assigns one.
#[verifier::external_body]
pub fn parse_markdown(text: &str) -> (r: Option<Vec<DocNode>>)
    ensures
        r.deep_view() == doc_tree_of(text@),
{
    let md = mq_markdown::Markdown::from_markdown_str(text).ok()?;
    Some(md.nodes.iter().map(|n| {
        let span = n.position().map(|p| Span {
            start_line: p.start.line, start_col: p.start.column,
            end_line: p.end.line, end_col: p.end.column,
        });
        let kind = match n {
            mq_markdown::Node::Heading(h) => NodeKind::Heading { depth: h.depth, text: n.value() },
            mq_markdown::Node::Link(l) => NodeKind::Link { url: l.url.as_str().to_string() },
            mq_markdown::Node::Code(_) => NodeKind::CodeBlock,
            _ => NodeKind::Other,
        };
        DocNode { kind, span }
    }).collect())
}

} // verus!
