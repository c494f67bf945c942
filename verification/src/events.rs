//! Typed events that backends publish and the editor consumes, with the
//! plain data types they carry.

use vstd::prelude::*;

verus! {

/// A position in a document, 0-indexed line and character.
#[derive(Debug, Clone, Copy, PartialEq, Eq, Structural)]
pub struct Position {
    pub line: u32,
    pub character: u32,
}

/// A half-open range between two positions.
#[derive(Debug, Clone, Copy, PartialEq, Eq, Structural)]
pub struct Range {
    pub start: Position,
    pub end: Position,
}

/// A range within a named document.
#[derive(Debug, Clone)]
pub struct Location {
    pub uri: String,
    pub range: Range,
}

/// Mathematical shape of a location.
pub struct LocationView {
    pub uri: Seq<char>,
    pub range: Range,
}

impl View for Location {
    type V = LocationView;

    open spec fn view(&self) -> LocationView {
        LocationView { uri: self.uri@, range: self.range }
    }
}

impl DeepView for Location {
    type V = LocationView;

    open spec fn deep_view(&self) -> LocationView {
        self@
    }
}

/// Severity of a diagnostic.
#[derive(Debug, Clone, Copy, PartialEq, Eq, Structural)]
pub enum Severity {
    Error,
    Warning,
    Information,
    Hint,
}

/// One diagnostic message attached to a range.
#[derive(Debug, Clone)]
pub struct Diagnostic {
    pub range: Range,
    pub severity: Option<Severity>,
    pub message: String,
}

/// Mathematical shape of a diagnostic.
pub struct DiagnosticView {
    pub range: Range,
    pub severity: Option<Severity>,
    pub message: Seq<char>,
}

impl View for Diagnostic {
    type V = DiagnosticView;

    open spec fn view(&self) -> DiagnosticView {
        DiagnosticView { range: self.range, severity: self.severity, message: self.message@ }
    }
}

impl DeepView for Diagnostic {
    type V = DiagnosticView;

    open spec fn deep_view(&self) -> DiagnosticView {
        self@
    }
}

/// Kind of a completion item.
#[derive(Debug, Clone, Copy, PartialEq, Eq, Structural)]
pub enum CompletionKind {
    Snippet,
    Reference,
    Other,
}

/// A completion candidate.
#[derive(Debug, Clone)]
pub struct CompletionItem {
    pub label: String,
    pub detail: Option<String>,
    pub kind: CompletionKind,
    pub insert_text: Option<String>,
    /// Whether the insert text uses snippet placeholders.
    pub snippet: bool,
    pub sort_text: Option<String>,
}

/// Mathematical shape of a completion candidate.
pub struct CompletionItemView {
    pub label: Seq<char>,
    pub detail: Option<Seq<char>>,
    pub kind: CompletionKind,
    pub insert_text: Option<Seq<char>>,
    pub snippet: bool,
    pub sort_text: Option<Seq<char>>,
}

/// View of an optional string.
pub open spec fn opt_str_view(o: Option<String>) -> Option<Seq<char>> {
    match o {
        Option::Some(s) => Option::Some(s@),
        Option::None => Option::None,
    }
}

impl View for CompletionItem {
    type V = CompletionItemView;

    open spec fn view(&self) -> CompletionItemView {
        CompletionItemView {
            label: self.label@,
            detail: opt_str_view(self.detail),
            kind: self.kind,
            insert_text: opt_str_view(self.insert_text),
            snippet: self.snippet,
            sort_text: opt_str_view(self.sort_text),
        }
    }
}

impl DeepView for CompletionItem {
    type V = CompletionItemView;

    open spec fn deep_view(&self) -> CompletionItemView {
        self@
    }
}

/// A definition answer: one location or several.
#[derive(Debug, Clone)]
pub enum DefinitionResponse {
    Single(Location),
    Many(Vec<Location>),
}

/// Mathematical shape of a definition answer.
pub enum DefinitionResponseView {
    Single(LocationView),
    Many(Seq<LocationView>),
}

impl View for DefinitionResponse {
    type V = DefinitionResponseView;

    open spec fn view(&self) -> DefinitionResponseView {
        match self {
            DefinitionResponse::Single(l) => DefinitionResponseView::Single(l@),
            DefinitionResponse::Many(ls) => DefinitionResponseView::Many(ls.deep_view()),
        }
    }
}

impl DeepView for DefinitionResponse {
    type V = DefinitionResponseView;

    open spec fn deep_view(&self) -> DefinitionResponseView {
        self@
    }
}

/// An event published by a backend.
#[derive(Debug)]
pub enum Event {
    /// Diagnostics for a document.
    Diagnostics { uri: String, diagnostics: Vec<Diagnostic> },
    /// Semantic tokens for a document, as the raw token stream.
    SemanticTokens { uri: String, data: Vec<u32> },
    /// Completion candidates.
    Completion { items: Vec<CompletionItem> },
    /// A definition answer.
    Definition { response: DefinitionResponse },
    /// Reference locations.
    References { locations: Vec<Location> },
    /// The backend finished its handshake; carries the completion trigger
    /// characters it negotiated.
    Initialized { trigger_characters: Vec<String> },
    /// A failure the editor should surface.
    Error { message: String },
}

/// Mathematical shape of an event.
pub enum EventView {
    Diagnostics { uri: Seq<char>, diagnostics: Seq<DiagnosticView> },
    SemanticTokens { uri: Seq<char>, data: Seq<u32> },
    Completion { items: Seq<CompletionItemView> },
    Definition { response: DefinitionResponseView },
    References { locations: Seq<LocationView> },
    Initialized { trigger_characters: Seq<Seq<char>> },
    Error { message: Seq<char> },
}

impl View for Event {
    type V = EventView;

    open spec fn view(&self) -> EventView {
        match self {
            Event::Diagnostics { uri, diagnostics } => EventView::Diagnostics {
                uri: uri@,
                diagnostics: diagnostics.deep_view(),
            },
            Event::SemanticTokens { uri, data } => EventView::SemanticTokens {
                uri: uri@,
                data: data@,
            },
            Event::Completion { items } => EventView::Completion { items: items.deep_view() },
            Event::Definition { response } => EventView::Definition { response: response@ },
            Event::References { locations } => EventView::References {
                locations: locations.deep_view(),
            },
            Event::Initialized { trigger_characters } => EventView::Initialized {
                trigger_characters: trigger_characters.deep_view(),
            },
            Event::Error { message } => EventView::Error { message: message@ },
        }
    }
}

impl DeepView for Event {
    type V = EventView;

    open spec fn deep_view(&self) -> EventView {
        self@
    }
}

} // verus!
