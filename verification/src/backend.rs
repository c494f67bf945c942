//! The closed set of backends: one spawned language server, or the embedded
//! Markdown analyzer. Both offer the same operations and publish to an event
//! queue of their own.
//!
//! Each operation's behaviour is captured by an effect predicate over the
//! backend state before and after the call, so that callers — the manager's
//! routing surface above all — can state exactly what a forwarded call did.

use vstd::prelude::*;

use crate::analyzer::MarkdownLsp;
use crate::analyzer::MarkdownDocumentView;
use crate::analyzer::doc_lookup;
use crate::analyzer::markdown_trigger_chars;
use crate::analyzer::parse_events_after;
use crate::analyzer::stored_nodes_after;
use crate::analyzer::uri_of_path;
use crate::client::ProcessClientCore;
use crate::client::file_uri_of;
use crate::codec::frame_body_view;
use crate::codec::notification_view;
use crate::codec::request_view;
use crate::events::Event;
use crate::events::EventView;
use crate::json::JsonView;
use crate::json::ser_json;

verus! {

/// One backend: a process-backed client, or the embedded analyzer.
pub enum Backend {
    Process(ProcessClientCore),
    Embedded(MarkdownLsp),
}

/// The parts of a process client a request or notification never touches.
pub open spec fn core_identity(pre: ProcessClientCore, post: ProcessClientCore) -> bool {
    &&& post.language_id@ == pre.language_id@
    &&& post.root_path@ == pre.root_path@
}

/// A process client queued exactly one more frame, with the given body, and
/// its events are untouched.
pub open spec fn core_queued(
    pre: ProcessClientCore,
    post: ProcessClientCore,
    body: Seq<char>,
) -> bool {
    &&& post.outbox.deep_view() == pre.outbox.deep_view() + seq![frame_body_view(body)]
    &&& post.events@ == pre.events@
    &&& core_identity(pre, post)
}

/// A process client queued exactly one more request under the next id: the
/// id source advanced and the id is pending under the method.
pub open spec fn core_requested(
    pre: ProcessClientCore,
    post: ProcessClientCore,
    method: Seq<char>,
    params: JsonView,
) -> bool {
    &&& core_queued(pre, post, ser_json(request_view(pre.gen.next as int, method, params)))
    &&& post.gen.next == pre.gen.next + 1
    &&& post.pending.spec_contains(pre.gen.next)
    &&& post.pending.spec_method_of(pre.gen.next) == method
}

/// What a request does to a process client: when the id space is open, the
/// exact request is queued; at its end nothing happens.
pub open spec fn process_request_effect(
    pre: ProcessClientCore,
    post: ProcessClientCore,
    method: Seq<char>,
    params: JsonView,
) -> bool {
    if pre.gen.next < u64::MAX {
        core_requested(pre, post, method, params)
    } else {
        post == pre
    }
}

/// What the embedded analyzer keeps across a read-only request.
pub open spec fn analyzer_identity(pre: MarkdownLsp, post: MarkdownLsp) -> bool {
    &&& post.documents@ == pre.documents@
    &&& post.root_path@ == pre.root_path@
}

/// Starting the handshake: the analyzer announces its trigger characters at
/// once; a process client queues the initialize request.
pub open spec fn initialize_effect(pre: Backend, post: Backend) -> bool {
    match (pre, post) {
        (Backend::Embedded(a0), Backend::Embedded(a1)) => {
            &&& analyzer_identity(a0, a1)
            &&& a1.events.deep_view() == a0.events.deep_view() + seq![
                EventView::Initialized { trigger_characters: markdown_trigger_chars() },
            ]
        },
        (Backend::Process(c0), Backend::Process(c1)) => process_request_effect(
            c0,
            c1,
            "initialize"@,
            crate::client::initialize_params_view(
                Option::None,
                file_uri_of(c0.root_path@),
            ),
        ),
        _ => false,
    }
}

/// Completing the handshake: a no-op for the analyzer; a process client
/// queues the initialized notification.
pub open spec fn initialized_effect(pre: Backend, post: Backend) -> bool {
    match (pre, post) {
        (Backend::Embedded(a0), Backend::Embedded(a1)) => a1 == a0,
        (Backend::Process(c0), Backend::Process(c1)) => {
            &&& core_queued(
                c0,
                c1,
                ser_json(
                    notification_view(
                        "initialized"@,
                        JsonView::Obj(Seq::<(Seq<char>, JsonView)>::empty()),
                    ),
                ),
            )
            &&& c1.pending.entries@ == c0.pending.entries@
            &&& c1.gen == c0.gen
        },
        _ => false,
    }
}

/// Opening a document: the analyzer parses and stores it and reports broken
/// anchors; a process client queues the open notification with the whole
/// text.
pub open spec fn did_open_effect(
    pre: Backend,
    post: Backend,
    file_path: Seq<char>,
    content: Seq<char>,
) -> bool {
    match (pre, post) {
        (Backend::Embedded(a0), Backend::Embedded(a1)) => {
            &&& doc_lookup(a1.documents@, uri_of_path(file_path)) == Option::Some(
                MarkdownDocumentView {
                    content: content,
                    nodes: stored_nodes_after(
                        crate::doc::doc_tree_of(content),
                        doc_lookup(a0.documents@, uri_of_path(file_path)),
                    ),
                },
            )
            &&& forall|other: Seq<char>|
                other != uri_of_path(file_path) ==> #[trigger] doc_lookup(a1.documents@, other)
                    == doc_lookup(a0.documents@, other)
            &&& parse_events_after(
                a1.events.deep_view(),
                a0.events.deep_view(),
                uri_of_path(file_path),
                content,
            )
            &&& a1.root_path@ == a0.root_path@
        },
        (Backend::Process(c0), Backend::Process(c1)) => {
            &&& core_queued(
                c0,
                c1,
                ser_json(
                    notification_view(
                        "textDocument/didOpen"@,
                        ProcessClientCore::did_open_params_view(
                            file_uri_of(file_path),
                            c0.language_id@,
                            content,
                        ),
                    ),
                ),
            )
            &&& c1.pending.entries@ == c0.pending.entries@
            &&& c1.gen == c0.gen
        },
        _ => false,
    }
}

/// Changing a document: the analyzer replaces it wholesale and re-reports;
/// a process client queues the change notification with the whole text.
pub open spec fn did_change_effect(
    pre: Backend,
    post: Backend,
    file_path: Seq<char>,
    version: int,
    content: Seq<char>,
) -> bool {
    match (pre, post) {
        (Backend::Embedded(a0), Backend::Embedded(a1)) => {
            &&& doc_lookup(a1.documents@, uri_of_path(file_path)) == Option::Some(
                MarkdownDocumentView {
                    content: content,
                    nodes: stored_nodes_after(
                        crate::doc::doc_tree_of(content),
                        doc_lookup(a0.documents@, uri_of_path(file_path)),
                    ),
                },
            )
            &&& forall|other: Seq<char>|
                other != uri_of_path(file_path) ==> #[trigger] doc_lookup(a1.documents@, other)
                    == doc_lookup(a0.documents@, other)
            &&& parse_events_after(
                a1.events.deep_view(),
                a0.events.deep_view(),
                uri_of_path(file_path),
                content,
            )
            &&& a1.root_path@ == a0.root_path@
        },
        (Backend::Process(c0), Backend::Process(c1)) => {
            &&& core_queued(
                c0,
                c1,
                ser_json(
                    notification_view(
                        "textDocument/didChange"@,
                        ProcessClientCore::did_change_params_view(
                            file_uri_of(file_path),
                            version,
                            content,
                        ),
                    ),
                ),
            )
            &&& c1.pending.entries@ == c0.pending.entries@
            &&& c1.gen == c0.gen
        },
        _ => false,
    }
}

/// Requesting semantic tokens: the analyzer offers none and stays silent; a
/// process client queues the request.
pub open spec fn semantic_tokens_effect(
    pre: Backend,
    post: Backend,
    file_path: Seq<char>,
) -> bool {
    match (pre, post) {
        (Backend::Embedded(a0), Backend::Embedded(a1)) => a1 == a0,
        (Backend::Process(c0), Backend::Process(c1)) => process_request_effect(
            c0,
            c1,
            "textDocument/semanticTokens/full"@,
            ProcessClientCore::semantic_tokens_params_view(file_uri_of(file_path)),
        ),
        _ => false,
    }
}

/// Requesting completion: the analyzer computes its candidates and publishes
/// one completion event; a process client queues the request.
pub open spec fn completion_effect(
    pre: Backend,
    post: Backend,
    file_path: Seq<char>,
    line: u32,
    character: u32,
    trigger: Option<Seq<char>>,
) -> bool {
    match (pre, post) {
        (Backend::Embedded(a0), Backend::Embedded(a1)) => {
            &&& analyzer_identity(a0, a1)
            &&& a1.events.deep_view() == a0.events.deep_view() + seq![
                EventView::Completion {
                    items: match doc_lookup(a0.documents@, uri_of_path(file_path)) {
                        Option::Some(d) => crate::analyzer::completions_spec(
                            d.content,
                            d.nodes,
                            line as int,
                            character as int,
                        ),
                        Option::None => Seq::<crate::events::CompletionItemView>::empty(),
                    },
                },
            ]
        },
        (Backend::Process(c0), Backend::Process(c1)) => process_request_effect(
            c0,
            c1,
            "textDocument/completion"@,
            ProcessClientCore::completion_params_view(
                file_uri_of(file_path),
                line,
                character,
                trigger,
            ),
        ),
        _ => false,
    }
}

/// Requesting a definition: the analyzer answers an anchor at once, hands a
/// relative file back as a candidate, or stays silent; a process client
/// queues the request and returns no candidate.
pub open spec fn definition_effect(
    pre: Backend,
    post: Backend,
    file_path: Seq<char>,
    line: u32,
    character: u32,
    candidate: Option<Seq<char>>,
) -> bool {
    match (pre, post) {
        (Backend::Embedded(a0), Backend::Embedded(a1)) => {
            &&& analyzer_identity(a0, a1)
            &&& {
                let lookup = match doc_lookup(a0.documents@, uri_of_path(file_path)) {
                    Option::Some(d) => match d.nodes {
                        Option::Some(ns) => crate::analyzer::definition_spec(
                            ns,
                            line as int,
                            character as int,
                        ),
                        Option::None => crate::analyzer::DefinitionLookupView::NotFound,
                    },
                    Option::None => crate::analyzer::DefinitionLookupView::NotFound,
                };
                match lookup {
                    crate::analyzer::DefinitionLookupView::AnchorFound { range } => {
                        &&& candidate is None
                        &&& a1.events.deep_view() == a0.events.deep_view() + seq![
                            EventView::Definition {
                                response: crate::events::DefinitionResponseView::Single(
                                    crate::events::LocationView {
                                        uri: uri_of_path(file_path),
                                        range: range,
                                    },
                                ),
                            },
                        ]
                    },
                    crate::analyzer::DefinitionLookupView::FileCandidate { target } => {
                        &&& candidate == Option::Some(target)
                        &&& a1.events.deep_view() == a0.events.deep_view()
                    },
                    crate::analyzer::DefinitionLookupView::NotFound => {
                        &&& candidate is None
                        &&& a1.events.deep_view() == a0.events.deep_view()
                    },
                }
            }
        },
        (Backend::Process(c0), Backend::Process(c1)) => {
            &&& candidate is None
            &&& process_request_effect(
                c0,
                c1,
                "textDocument/definition"@,
                ProcessClientCore::definition_params_view(
                    file_uri_of(file_path),
                    line,
                    character,
                ),
            )
        },
        _ => false,
    }
}

/// Requesting references: the analyzer publishes the locations when there
/// are any; a process client queues the request.
pub open spec fn references_effect(
    pre: Backend,
    post: Backend,
    file_path: Seq<char>,
    line: u32,
    character: u32,
    include_declaration: bool,
) -> bool {
    match (pre, post) {
        (Backend::Embedded(a0), Backend::Embedded(a1)) => {
            &&& analyzer_identity(a0, a1)
            &&& {
                let locs = match doc_lookup(a0.documents@, uri_of_path(file_path)) {
                    Option::Some(d) => match d.nodes {
                        Option::Some(ns) => crate::analyzer::references_spec(
                            ns,
                            uri_of_path(file_path),
                            line as int,
                            character as int,
                            include_declaration,
                        ),
                        Option::None => Seq::<crate::events::LocationView>::empty(),
                    },
                    Option::None => Seq::<crate::events::LocationView>::empty(),
                };
                if locs.len() > 0 {
                    a1.events.deep_view() == a0.events.deep_view() + seq![
                        EventView::References { locations: locs },
                    ]
                } else {
                    a1.events.deep_view() == a0.events.deep_view()
                }
            }
        },
        (Backend::Process(c0), Backend::Process(c1)) => process_request_effect(
            c0,
            c1,
            "textDocument/references"@,
            ProcessClientCore::references_params_view(
                file_uri_of(file_path),
                line,
                character,
                include_declaration,
            ),
        ),
        _ => false,
    }
}

/// Shutting down: the analyzer forgets its documents, a process client its
/// protocol state; queued events stay readable.
pub open spec fn shutdown_effect(pre: Backend, post: Backend) -> bool {
    match (pre, post) {
        (Backend::Embedded(a0), Backend::Embedded(a1)) => {
            &&& a1.documents@.len() == 0
            &&& a1.events@ == a0.events@
            &&& a1.root_path@ == a0.root_path@
        },
        (Backend::Process(c0), Backend::Process(c1)) => {
            &&& c1.pending.entries@.len() == 0
            &&& c1.outbox@.len() == 0
            &&& c1.events@ == c0.events@
            &&& core_identity(c0, c1)
        },
        _ => false,
    }
}

/// Draining the event queue: the queue empties and everything else stays.
pub open spec fn drained_effect(pre: Backend, post: Backend) -> bool {
    match (pre, post) {
        (Backend::Embedded(a0), Backend::Embedded(a1)) => {
            &&& a1.events@.len() == 0
            &&& analyzer_identity(a0, a1)
        },
        (Backend::Process(c0), Backend::Process(c1)) => {
            &&& c1.events@.len() == 0
            &&& c1.outbox@ == c0.outbox@
            &&& c1.pending.entries@ == c0.pending.entries@
            &&& c1.gen == c0.gen
            &&& core_identity(c0, c1)
        },
        _ => false,
    }
}

/// The events a backend has queued.
pub open spec fn backend_events(b: Backend) -> Seq<EventView> {
    match b {
        Backend::Process(c) => c.events.deep_view(),
        Backend::Embedded(a) => a.events.deep_view(),
    }
}

impl Backend {
    /// The structural invariant of the underlying backend.
    pub open spec fn wf(&self) -> bool {
        match self {
            Backend::Process(c) => c.wf(),
            Backend::Embedded(_) => true,
        }
    }

    /// Starts the handshake.
    pub fn initialize(&mut self)
        requires
            old(self).wf(),
        ensures
            final(self).wf(),
            initialize_effect(*old(self), *final(self)),
    {
        match self {
            Backend::Process(c) => {
                if c.gen.next < u64::MAX {
                    let _ = c.initialize(None);
                }
            },
            Backend::Embedded(a) => {
                a.initialize();
            },
        }
    }

    /// Completes the handshake.
    pub fn initialized(&mut self)
        requires
            old(self).wf(),
        ensures
            final(self).wf(),
            initialized_effect(*old(self), *final(self)),
    {
        match self {
            Backend::Process(c) => {
                c.initialized();
            },
            Backend::Embedded(a) => {
                a.initialized();
            },
        }
    }

    /// Announces an opened document.
    pub fn did_open(&mut self, file_path: &str, content: &str)
        requires
            old(self).wf(),
        ensures
            final(self).wf(),
            did_open_effect(*old(self), *final(self), file_path@, content@),
    {
        match self {
            Backend::Process(c) => {
                c.did_open(file_path, content);
            },
            Backend::Embedded(a) => {
                a.did_open(file_path, content);
            },
        }
    }

    /// Announces a changed document, replacing its whole text.
    pub fn did_change(&mut self, file_path: &str, version: i32, content: &str)
        requires
            old(self).wf(),
        ensures
            final(self).wf(),
            did_change_effect(*old(self), *final(self), file_path@, version as int, content@),
    {
        match self {
            Backend::Process(c) => {
                c.did_change(file_path, version, content);
            },
            Backend::Embedded(a) => {
                a.did_change(file_path, version, content);
            },
        }
    }

    /// Requests semantic tokens.
    pub fn request_semantic_tokens(&mut self, file_path: &str)
        requires
            old(self).wf(),
        ensures
            final(self).wf(),
            semantic_tokens_effect(*old(self), *final(self), file_path@),
    {
        match self {
            Backend::Process(c) => {
                if c.gen.next < u64::MAX {
                    let _ = c.request_semantic_tokens(file_path);
                }
            },
            Backend::Embedded(a) => {
                a.request_semantic_tokens(file_path);
            },
        }
    }

    /// Requests completion candidates at a position.
    pub fn request_completion(
        &mut self,
        file_path: &str,
        line: u32,
        character: u32,
        trigger_character: Option<String>,
    )
        requires
            old(self).wf(),
        ensures
            final(self).wf(),
            completion_effect(
                *old(self),
                *final(self),
                file_path@,
                line,
                character,
                crate::events::opt_str_view(trigger_character),
            ),
    {
        match self {
            Backend::Process(c) => {
                if c.gen.next < u64::MAX {
                    let _ = c.request_completion(file_path, line, character, trigger_character);
                }
            },
            Backend::Embedded(a) => {
                a.request_completion(file_path, line, character, trigger_character);
            },
        }
    }

    /// Requests a definition at a position. For the analyzer, a link to a
    /// relative file comes back as a candidate the caller must check on
    /// disk.
    pub fn request_definition(&mut self, file_path: &str, line: u32, character: u32) -> (r:
        Option<String>)
        requires
            old(self).wf(),
        ensures
            final(self).wf(),
            definition_effect(
                *old(self),
                *final(self),
                file_path@,
                line,
                character,
                crate::events::opt_str_view(r),
            ),
    {
        match self {
            Backend::Process(c) => {
                if c.gen.next < u64::MAX {
                    let _ = c.request_definition(file_path, line, character);
                }
                None
            },
            Backend::Embedded(a) => a.request_definition(file_path, line, character),
        }
    }

    /// Requests references at a position.
    pub fn request_references(
        &mut self,
        file_path: &str,
        line: u32,
        character: u32,
        include_declaration: bool,
    )
        requires
            old(self).wf(),
        ensures
            final(self).wf(),
            references_effect(
                *old(self),
                *final(self),
                file_path@,
                line,
                character,
                include_declaration,
            ),
    {
        match self {
            Backend::Process(c) => {
                if c.gen.next < u64::MAX {
                    let _ = c.request_references(file_path, line, character, include_declaration);
                }
            },
            Backend::Embedded(a) => {
                a.request_references(file_path, line, character, include_declaration);
            },
        }
    }

    /// Shuts the backend down: protocol state is dropped; killing a spawned
    /// process is the embedder's part.
    pub fn shutdown(&mut self)
        requires
            old(self).wf(),
        ensures
            final(self).wf(),
            shutdown_effect(*old(self), *final(self)),
    {
        match self {
            Backend::Process(c) => {
                c.shutdown();
            },
            Backend::Embedded(a) => {
                a.shutdown();
            },
        }
    }

    /// The language this backend serves.
    pub fn language_id(&self) -> (r: &str)
        ensures
            match self {
                Backend::Process(c) => r@ == c.language_id@,
                Backend::Embedded(_) => r@ == "markdown"@,
            },
    {
        match self {
            Backend::Process(c) => c.language_id.as_str(),
            Backend::Embedded(a) => a.language_id(),
        }
    }

    /// Takes all queued events, oldest first.
    pub fn drain_events(&mut self) -> (r: Vec<Event>)
        requires
            old(self).wf(),
        ensures
            final(self).wf(),
            r.deep_view() == backend_events(*old(self)),
            drained_effect(*old(self), *final(self)),
    {
        match self {
            Backend::Process(c) => c.drain_events(),
            Backend::Embedded(a) => a.drain_events(),
        }
    }

    /// Takes all queued outbound frames; the analyzer has none.
    pub fn take_outbox(&mut self) -> (r: Vec<String>)
        requires
            old(self).wf(),
        ensures
            final(self).wf(),
            match *old(self) {
                Backend::Process(c) => r@ == c.outbox@ && (*final(self)) is Process && (*final(self))->Process_0.outbox@.len() == 0,
                Backend::Embedded(_) => r@.len() == 0 && *final(self) == *old(self),
            },
    {
        match self {
            Backend::Process(c) => c.take_outbox(),
            Backend::Embedded(_) => Vec::new(),
        }
    }
}

} // verus!
