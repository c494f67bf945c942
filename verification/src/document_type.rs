//! Per-document data keyed by file type: a parsed tree and line map for
//! Markdown, a language id for code, nothing for plain text.

use vstd::prelude::*;

use crate::cursor::LineMap;
use crate::cursor::line_map_entries;
use crate::doc::DocNode;
use crate::doc::doc_tree_of;
use crate::file_type::FileType;
use crate::file_type::FileTypeView;

verus! {

/// What a document of each file type carries.
#[derive(Debug)]
pub enum DocumentType {
    /// Markdown document with its parsed node list and line map.
    Markdown { nodes: Vec<DocNode>, line_map: LineMap },
    /// Code document with its language identifier.
    Code { language: String },
    /// Plain text document.
    PlainText,
}

impl DocumentType {
    /// Parses a Markdown document; fails exactly when parsing does.
    pub fn new_markdown(content: &str) -> (r: Result<Self, String>)
        ensures
            match r {
                Ok(d) => doc_tree_of(content@) is Some && d is Markdown
                    && d->Markdown_nodes.deep_view() == doc_tree_of(content@)->0
                    && d->Markdown_line_map.entries@ == line_map_entries(
                    doc_tree_of(content@)->0,
                ),
                Err(m) => doc_tree_of(content@) is None && m@ == "Failed to parse markdown"@,
            },
    {
        match crate::doc::parse_markdown(content) {
            Some(nodes) => {
                let line_map = LineMap::from_nodes(&nodes);
                Ok(DocumentType::Markdown { nodes, line_map })
            },
            None => Err("Failed to parse markdown".to_owned()),
        }
    }

    /// A code document.
    pub fn new_code(language: String) -> (r: Self)
        ensures
            r is Code && r->Code_language@ == language@,
    {
        DocumentType::Code { language }
    }

    /// A plain text document.
    pub fn new_plain_text() -> (r: Self)
        ensures
            r is PlainText,
    {
        DocumentType::PlainText
    }

    /// The file type this document was made for.
    pub fn file_type(&self) -> (r: FileType)
        ensures
            match self {
                DocumentType::Markdown { .. } => r@ == FileTypeView::Markdown,
                DocumentType::Code { language } => r@ == FileTypeView::Code(language@),
                DocumentType::PlainText => r@ == FileTypeView::PlainText,
            },
    {
        match self {
            DocumentType::Markdown { .. } => FileType::Markdown,
            DocumentType::Code { language } => FileType::Code(language.clone()),
            DocumentType::PlainText => FileType::PlainText,
        }
    }

    /// The parsed node list, for a Markdown document.
    pub fn markdown_ast(&self) -> (r: Option<&Vec<DocNode>>)
        ensures
            match self {
                DocumentType::Markdown { nodes, .. } => r is Some && r->0 == nodes,
                _ => r is None,
            },
    {
        match self {
            DocumentType::Markdown { nodes, .. } => Some(nodes),
            _ => None,
        }
    }

    /// The line map, for a Markdown document.
    pub fn line_map(&self) -> (r: Option<&LineMap>)
        ensures
            match self {
                DocumentType::Markdown { line_map, .. } => r is Some && r->0 == line_map,
                _ => r is None,
            },
    {
        match self {
            DocumentType::Markdown { line_map, .. } => Some(line_map),
            _ => None,
        }
    }

    /// The language identifier, for a code document.
    pub fn language(&self) -> (r: Option<&str>)
        ensures
            match self {
                DocumentType::Code { language } => r is Some && r->0@ == language@,
                _ => r is None,
            },
    {
        match self {
            DocumentType::Code { language } => Some(language.as_str()),
            _ => None,
        }
    }

    /// Reparses a Markdown document after a change; code and plain text need
    /// nothing. Fails exactly when a Markdown reparse does.
    pub fn rebuild(&mut self, content: &str) -> (r: Result<(), String>)
        ensures
            match r {
                Ok(_) => (*old(self) is Markdown ==> doc_tree_of(content@) is Some
                    && (*final(self)) is Markdown
                    && (*final(self))->Markdown_nodes.deep_view() == doc_tree_of(content@)->0)
                    && (!(*old(self) is Markdown) ==> *final(self) == *old(self)),
                Err(m) => *old(self) is Markdown && doc_tree_of(content@) is None && m@
                    == "Failed to parse markdown"@ && *final(self) == *old(self),
            },
    {
        match self {
            DocumentType::Markdown { .. } => {
                match crate::doc::parse_markdown(content) {
                    Some(nodes) => {
                        let line_map = LineMap::from_nodes(&nodes);
                        *self = DocumentType::Markdown { nodes, line_map };
                        Ok(())
                    },
                    None => Err("Failed to parse markdown".to_owned()),
                }
            },
            _ => Ok(()),
        }
    }

    /// Whether tree-based operations are available.
    pub fn has_ast(&self) -> (r: bool)
        ensures
            r == (self is Markdown),
    {
        matches!(self, DocumentType::Markdown { .. })
    }
}

} // verus!
