//! The backend registry: one backend per language id, created lazily from
//! configuration, with one poll surface over all their event queues.

use vstd::prelude::*;

use crate::analyzer::MarkdownLsp;
use crate::backend::Backend;
use crate::backend::backend_events;
use crate::client::ProcessClientCore;
use crate::events::Event;
use crate::events::EventView;
use crate::text::str_eq;

verus! {

/// Configuration of one language server.
#[derive(Debug, Clone)]
pub struct LspServerConfig {
    /// Command that starts the server; unused for an embedded backend.
    pub command: String,
    /// Arguments of the command.
    pub args: Vec<String>,
    /// Use the embedded analyzer instead of an external process.
    pub embedded: bool,
    /// Enable code completion.
    pub enable_completion: bool,
    /// Enable diagnostics.
    pub enable_diagnostics: bool,
    /// Enable go-to-definition.
    pub enable_goto_definition: bool,
}

impl Default for LspServerConfig {
    fn default() -> (r: Self)
        ensures
            r.command@.len() == 0,
            r.args@.len() == 0,
            !r.embedded,
            r.enable_completion,
            r.enable_diagnostics,
            r.enable_goto_definition,
    {
        LspServerConfig {
            command: String::new(),
            args: Vec::new(),
            embedded: false,
            enable_completion: true,
            enable_diagnostics: true,
            enable_goto_definition: true,
        }
    }
}

/// An error the manager reports to its caller.
#[derive(Debug)]
pub struct LspError {
    pub message: String,
}

impl LspError {
    /// The error text.
    pub fn text(&self) -> (r: &str)
        ensures
            r@ == self.message@,
    {
        self.message.as_str()
    }
}

/// Whether an association list holds `key`.
pub open spec fn assoc_contains<V>(entries: Seq<(String, V)>, key: Seq<char>) -> bool {
    exists|i: int| 0 <= i < entries.len() && (#[trigger] entries[i]).0@ == key
}

/// First value stored under `key`.
pub open spec fn assoc_lookup<V>(entries: Seq<(String, V)>, key: Seq<char>) -> Option<V>
    decreases entries.len(),
{
    if entries.len() == 0 {
        Option::None
    } else if entries[0].0@ == key {
        Option::Some(entries[0].1)
    } else {
        assoc_lookup(entries.drop_first(), key)
    }
}

/// With no match before `i` and a match at `i`, the lookup finds entry `i`.
proof fn lemma_assoc_lookup_at<V>(entries: Seq<(String, V)>, key: Seq<char>, i: int)
    requires
        0 <= i < entries.len(),
        forall|k: int| 0 <= k < i ==> (#[trigger] entries[k]).0@ != key,
        entries[i].0@ == key,
    ensures
        assoc_lookup(entries, key) == Option::Some(entries[i].1),
        assoc_contains(entries, key),
    decreases i,
{
    if i == 0 {
    } else {
        assert forall|k: int| 0 <= k < i - 1 implies (#[trigger] entries.drop_first()[k]).0@
            != key by {
            assert(entries.drop_first()[k] == entries[k + 1]);
        }
        assert(entries.drop_first()[i - 1] == entries[i]);
        lemma_assoc_lookup_at(entries.drop_first(), key, i - 1);
    }
}

/// With no entry under `key`, the lookup finds nothing.
proof fn lemma_assoc_lookup_none<V>(entries: Seq<(String, V)>, key: Seq<char>)
    requires
        forall|k: int| 0 <= k < entries.len() ==> (#[trigger] entries[k]).0@ != key,
    ensures
        assoc_lookup(entries, key) is None,
        !assoc_contains(entries, key),
    decreases entries.len(),
{
    if entries.len() > 0 {
        assert forall|k: int|
            0 <= k < entries.drop_first().len() implies (#[trigger] entries.drop_first()[k]).0@
            != key by {
            assert(entries.drop_first()[k] == entries[k + 1]);
        }
        lemma_assoc_lookup_none(entries.drop_first(), key);
    }
}

/// Replacing entry `i`, first under its key, frames every other key.
proof fn lemma_assoc_lookup_update<V>(
    olde: Seq<(String, V)>,
    newe: Seq<(String, V)>,
    key: Seq<char>,
    i: int,
)
    requires
        0 <= i < olde.len(),
        newe.len() == olde.len(),
        forall|k: int| 0 <= k < olde.len() && k != i ==> olde[k] == #[trigger] newe[k],
        forall|k: int| 0 <= k < i ==> (#[trigger] olde[k]).0@ != key,
        olde[i].0@ == key,
        newe[i].0@ == key,
    ensures
        assoc_lookup(newe, key) == Option::Some(newe[i].1),
        forall|other: Seq<char>|
            other != key ==> #[trigger] assoc_lookup(newe, other) == assoc_lookup(olde, other),
    decreases olde.len(),
{
    if i == 0 {
        assert forall|other: Seq<char>| other != key implies #[trigger] assoc_lookup(newe, other)
            == assoc_lookup(olde, other) by {
            assert(newe.drop_first() =~= olde.drop_first());
            assert(assoc_lookup(newe, other) == assoc_lookup(newe.drop_first(), other));
            assert(assoc_lookup(olde, other) == assoc_lookup(olde.drop_first(), other));
        }
    } else {
        assert(olde[0] == newe[0]);
        assert forall|k: int|
            0 <= k < olde.drop_first().len() && k != i - 1 implies olde.drop_first()[k]
            == #[trigger] newe.drop_first()[k] by {
            assert(olde.drop_first()[k] == olde[k + 1]);
            assert(newe.drop_first()[k] == newe[k + 1]);
        }
        assert forall|k: int| 0 <= k < i - 1 implies (#[trigger] olde.drop_first()[k]).0@
            != key by {
            assert(olde.drop_first()[k] == olde[k + 1]);
        }
        assert(olde.drop_first()[i - 1].0@ == key && newe.drop_first()[i - 1].0@ == key);
        lemma_assoc_lookup_update(olde.drop_first(), newe.drop_first(), key, i - 1);
        assert(newe[0].0@ != key);
        assert(newe.drop_first()[i - 1] == newe[i]);
        assert forall|other: Seq<char>| other != key implies #[trigger] assoc_lookup(newe, other)
            == assoc_lookup(olde, other) by {
            assert(assoc_lookup(newe, other) == if newe[0].0@ == other {
                Option::Some(newe[0].1)
            } else {
                assoc_lookup(newe.drop_first(), other)
            });
            assert(assoc_lookup(olde, other) == if olde[0].0@ == other {
                Option::Some(olde[0].1)
            } else {
                assoc_lookup(olde.drop_first(), other)
            });
        }
    }
}

/// Appending an entry under a key not stored before frames every other key.
proof fn lemma_assoc_lookup_append<V>(
    olde: Seq<(String, V)>,
    newe: Seq<(String, V)>,
    key: Seq<char>,
)
    requires
        newe.len() == olde.len() + 1,
        newe.drop_last() == olde,
        newe.last().0@ == key,
        forall|k: int| 0 <= k < olde.len() ==> (#[trigger] olde[k]).0@ != key,
    ensures
        assoc_lookup(newe, key) == Option::Some(newe.last().1),
        forall|other: Seq<char>|
            other != key ==> #[trigger] assoc_lookup(newe, other) == assoc_lookup(olde, other),
    decreases olde.len(),
{
    if olde.len() == 0 {
        assert(newe[0] == newe.last());
        assert(newe.drop_first() =~= Seq::<(String, V)>::empty());
        assert forall|other: Seq<char>| other != key implies #[trigger] assoc_lookup(newe, other)
            == assoc_lookup(olde, other) by {
            assert(assoc_lookup(newe, other) == assoc_lookup(newe.drop_first(), other));
        }
    } else {
        assert(newe[0] == olde[0]) by {
            assert(newe.drop_last()[0] == newe[0]);
        }
        assert(newe.drop_first().drop_last() =~= olde.drop_first()) by {
            assert forall|k: int|
                0 <= k < olde.drop_first().len() implies newe.drop_first().drop_last()[k]
                == olde.drop_first()[k] by {
                assert(newe.drop_first().drop_last()[k] == newe[k + 1]);
                assert(olde.drop_first()[k] == olde[k + 1]);
                assert(newe.drop_last()[k + 1] == newe[k + 1]);
            }
        }
        assert(newe.drop_first().last() == newe.last());
        assert forall|k: int| 0 <= k < olde.drop_first().len() implies (
        #[trigger] olde.drop_first()[k]).0@ != key by {
            assert(olde.drop_first()[k] == olde[k + 1]);
        }
        lemma_assoc_lookup_append(olde.drop_first(), newe.drop_first(), key);
        assert(olde[0].0@ != key);
        assert forall|other: Seq<char>| other != key implies #[trigger] assoc_lookup(newe, other)
            == assoc_lookup(olde, other) by {
            assert(assoc_lookup(newe, other) == if newe[0].0@ == other {
                Option::Some(newe[0].1)
            } else {
                assoc_lookup(newe.drop_first(), other)
            });
            assert(assoc_lookup(olde, other) == if olde[0].0@ == other {
                Option::Some(olde[0].1)
            } else {
                assoc_lookup(olde.drop_first(), other)
            });
        }
    }
}

/// Removing entry `i`, first under its key, with unique keys: the key is
/// gone and every other key is framed.
proof fn lemma_assoc_lookup_remove<V>(
    olde: Seq<(String, V)>,
    newe: Seq<(String, V)>,
    key: Seq<char>,
    i: int,
)
    requires
        0 <= i < olde.len(),
        newe.len() == olde.len() - 1,
        forall|k: int| 0 <= k < i ==> olde[k] == #[trigger] newe[k],
        forall|k: int| i <= k < newe.len() ==> olde[k + 1] == #[trigger] newe[k],
        forall|k: int| 0 <= k < olde.len() && k != i ==> (#[trigger] olde[k]).0@ != key,
        olde[i].0@ == key,
    ensures
        assoc_lookup(newe, key) is None,
        !assoc_contains(newe, key),
        forall|other: Seq<char>|
            other != key ==> #[trigger] assoc_lookup(newe, other) == assoc_lookup(olde, other),
    decreases olde.len(),
{
    assert forall|k: int| 0 <= k < newe.len() implies (#[trigger] newe[k]).0@ != key by {
        if k < i {
            assert(newe[k] == olde[k]);
        } else {
            assert(newe[k] == olde[k + 1]);
        }
    }
    lemma_assoc_lookup_none(newe, key);
    if i == 0 {
        assert(newe =~= olde.drop_first());
        assert forall|other: Seq<char>| other != key implies #[trigger] assoc_lookup(newe, other)
            == assoc_lookup(olde, other) by {
            assert(assoc_lookup(olde, other) == assoc_lookup(olde.drop_first(), other));
        }
    } else {
        assert(newe[0] == olde[0]);
        assert forall|k: int| 0 <= k < i - 1 implies olde.drop_first()[k] == #[trigger] newe.drop_first()[k]
            by {
            assert(olde.drop_first()[k] == olde[k + 1]);
            assert(newe.drop_first()[k] == newe[k + 1]);
        }
        assert forall|k: int|
            i - 1 <= k < newe.drop_first().len() implies olde.drop_first()[k + 1]
            == #[trigger] newe.drop_first()[k] by {
            assert(olde.drop_first()[k + 1] == olde[k + 2]);
            assert(newe.drop_first()[k] == newe[k + 1]);
        }
        assert forall|k: int|
            0 <= k < olde.drop_first().len() && k != i - 1 implies (
        #[trigger] olde.drop_first()[k]).0@ != key by {
            assert(olde.drop_first()[k] == olde[k + 1]);
        }
        assert(olde.drop_first()[i - 1] == olde[i]);
        lemma_assoc_lookup_remove(olde.drop_first(), newe.drop_first(), key, i - 1);
        assert forall|other: Seq<char>| other != key implies #[trigger] assoc_lookup(newe, other)
            == assoc_lookup(olde, other) by {
            assert(assoc_lookup(newe, other) == if newe[0].0@ == other {
                Option::Some(newe[0].1)
            } else {
                assoc_lookup(newe.drop_first(), other)
            });
            assert(assoc_lookup(olde, other) == if olde[0].0@ == other {
                Option::Some(olde[0].1)
            } else {
                assoc_lookup(olde.drop_first(), other)
            });
        }
    }
}

/// Whether the stored trigger characters of `lang` include the single
/// character `ch`.
pub open spec fn has_trigger_char(
    tc: Seq<(String, Vec<String>)>,
    lang: Seq<char>,
    ch: char,
) -> bool {
    exists|i: int, j: int|
        0 <= i < tc.len() && 0 <= j < (tc[i]).1@.len() && ((#[trigger] (tc[i]).1@[j])@ == seq![ch]
            && (tc[i]).0@ == lang)
}

/// A language with no stored trigger set answers no trigger character.
pub proof fn lemma_no_trigger_without_entry(
    tc: Seq<(String, Vec<String>)>,
    lang: Seq<char>,
    ch: char,
)
    requires
        assoc_lookup(tc, lang) is None,
    ensures
        !has_trigger_char(tc, lang, ch),
    decreases tc.len(),
{
    if tc.len() > 0 {
        assert(tc[0].0@ != lang);
        lemma_no_trigger_without_entry(tc.drop_first(), lang, ch);
        if has_trigger_char(tc, lang, ch) {
            let (a, b): (int, int) = choose|a: int, b: int|
                0 <= a < tc.len() && 0 <= b < (tc[a]).1@.len() && ((#[trigger] (tc[a]).1@[b])@
                    == seq![ch] && (tc[a]).0@ == lang);
            assert(a > 0);
            assert(tc.drop_first()[a - 1] == tc[a]);
            assert(has_trigger_char(tc.drop_first(), lang, ch)) by {
                assert(((tc.drop_first()[a - 1]).1@[b])@ == seq![ch]);
            }
        }
    }
}

/// Why creating a backend is refused for a configured registry: the language
/// has no configuration, or its configuration asks for an embedded backend
/// and only Markdown has one.
pub open spec fn creation_refused(
    configs: Seq<(String, LspServerConfig)>,
    lang: Seq<char>,
) -> bool {
    match assoc_lookup(configs, lang) {
        Option::None => true,
        Option::Some(c) => c.embedded && lang != "markdown"@,
    }
}

/// The message of a refused creation.
pub open spec fn creation_error_message(
    configs: Seq<(String, LspServerConfig)>,
    lang: Seq<char>,
) -> Seq<char> {
    if assoc_lookup(configs, lang) is None {
        "No LSP server configured for language: "@ + lang
    } else {
        "No embedded LSP implementation for language: "@ + lang
    }
}

/// The state of a freshly created backend, right after its handshake: an
/// embedded analyzer has announced its trigger characters; a process client
/// has queued the initialize request under id 1 and the initialized
/// notification.
pub open spec fn created_backend_spec(
    b: Backend,
    embedded: bool,
    lang: Seq<char>,
    root: Seq<char>,
    pid: Option<u64>,
) -> bool {
    if embedded {
        &&& b is Embedded
        &&& b->Embedded_0.documents@.len() == 0
        &&& b->Embedded_0.root_path@ == root
        &&& b->Embedded_0.events.deep_view() == seq![
            EventView::Initialized {
                trigger_characters: crate::analyzer::markdown_trigger_chars(),
            },
        ]
    } else {
        &&& b is Process
        &&& {
            let c = b->Process_0;
            &&& c.language_id@ == lang
            &&& c.root_path@ == root
            &&& c.gen.next == 2
            &&& c.pending.entries@.len() == 1
            &&& c.pending.entries@[0].0 == 1
            &&& (c.pending.entries@[0].1)@ == "initialize"@
            &&& c.events@.len() == 0
            &&& c.outbox.deep_view() == seq![
                crate::codec::frame_body_view(
                    crate::json::ser_json(
                        crate::codec::request_view(
                            1,
                            "initialize"@,
                            crate::client::initialize_params_view(
                                pid,
                                crate::client::file_uri_of(root),
                            ),
                        ),
                    ),
                ),
                crate::codec::frame_body_view(
                    crate::json::ser_json(
                        crate::codec::notification_view(
                            "initialized"@,
                            crate::json::JsonView::Obj(
                                Seq::<(Seq<char>, crate::json::JsonView)>::empty(),
                            ),
                        ),
                    ),
                ),
            ]
        }
    }
}

/// The backend a routed call starts from: the one already registered, or the
/// freshly created one when none was.
pub open spec fn routed_pre(
    b: Backend,
    old_backends: Seq<(String, Backend)>,
    configs: Seq<(String, LspServerConfig)>,
    lang: Seq<char>,
    root: Seq<char>,
    pid: Option<u64>,
) -> bool {
    if assoc_contains(old_backends, lang) {
        assoc_lookup(old_backends, lang) == Option::Some(b)
    } else {
        &&& assoc_lookup(configs, lang) is Some
        &&& created_backend_spec(b, assoc_lookup(configs, lang)->0.embedded, lang, root, pid)
    }
}

/// Owns one backend per language id and routes calls by language.
pub struct LspManager {
    pub backends: Vec<(String, Backend)>,
    pub trigger_characters: Vec<(String, Vec<String>)>,
    pub server_configs: Vec<(String, LspServerConfig)>,
    pub root_path: String,
    /// The editor's own process id, announced to spawned servers in the
    /// handshake once the embedder has provided it.
    pub process_id: Option<u64>,
}

impl LspManager {
    /// The structural invariant: at most one backend and one trigger set per
    /// language id, and every backend well formed.
    pub open spec fn wf(&self) -> bool {
        &&& forall|i: int, j: int|
            0 <= i < j < self.backends@.len() ==> (#[trigger] self.backends@[i]).0@ != (
            #[trigger] self.backends@[j]).0@
        &&& forall|i: int|
            0 <= i < self.backends@.len() ==> (#[trigger] self.backends@[i]).1.wf()
        &&& forall|i: int, j: int|
            0 <= i < j < self.trigger_characters@.len() ==> (
            #[trigger] self.trigger_characters@[i]).0@ != (
            #[trigger] self.trigger_characters@[j]).0@
    }

    /// A manager with no backends yet.
    pub fn new(server_configs: Vec<(String, LspServerConfig)>, root_path: String) -> (r: Self)
        ensures
            r.wf(),
            r.backends@.len() == 0,
            r.trigger_characters@.len() == 0,
            r.server_configs@ == server_configs@,
            r.root_path@ == root_path@,
            r.process_id is None,
    {
        LspManager {
            backends: Vec::new(),
            trigger_characters: Vec::new(),
            server_configs,
            root_path,
            process_id: None,
        }
    }

    /// Records the editor's process id for later handshakes. Reading the id
    /// itself is the embedder's part.
    pub fn set_process_id(&mut self, pid: Option<u64>)
        requires
            old(self).wf(),
        ensures
            final(self).wf(),
            final(self).process_id == pid,
            final(self).backends@ == old(self).backends@,
            final(self).trigger_characters@ == old(self).trigger_characters@,
            final(self).server_configs@ == old(self).server_configs@,
            final(self).root_path@ == old(self).root_path@,
    {
        self.process_id = pid;
    }

    /// Whether a backend exists for this language.
    pub fn has_client(&self, language_id: &str) -> (r: bool)
        ensures
            r == assoc_contains(self.backends@, language_id@),
    {
        let mut i: usize = 0;
        while i < self.backends.len()
            invariant
                0 <= i <= self.backends@.len(),
                forall|k: int| 0 <= k < i ==> (#[trigger] self.backends@[k]).0@ != language_id@,
            decreases self.backends@.len() - i,
        {
            if str_eq(self.backends[i].0.as_str(), language_id) {
                return true;
            }
            i = i + 1;
        }
        false
    }

    /// Whether configuration enables this language.
    pub fn is_enabled(&self, language_id: &str) -> (r: bool)
        ensures
            r == assoc_contains(self.server_configs@, language_id@),
    {
        let mut i: usize = 0;
        while i < self.server_configs.len()
            invariant
                0 <= i <= self.server_configs@.len(),
                forall|k: int|
                    0 <= k < i ==> (#[trigger] self.server_configs@[k]).0@ != language_id@,
            decreases self.server_configs@.len() - i,
        {
            if str_eq(self.server_configs[i].0.as_str(), language_id) {
                return true;
            }
            i = i + 1;
        }
        false
    }

    /// Position of the backend for this language.
    fn backend_index(&self, language_id: &str) -> (r: Option<usize>)
        ensures
            match r {
                Some(i) => i < self.backends@.len() && self.backends@[i as int].0@ == language_id@
                    && forall|k: int|
                    0 <= k < i ==> (#[trigger] self.backends@[k]).0@ != language_id@,
                None => !assoc_contains(self.backends@, language_id@) && assoc_lookup(
                    self.backends@,
                    language_id@,
                ) is None,
            },
    {
        let mut i: usize = 0;
        while i < self.backends.len()
            invariant
                0 <= i <= self.backends@.len(),
                forall|k: int| 0 <= k < i ==> (#[trigger] self.backends@[k]).0@ != language_id@,
            decreases self.backends@.len() - i,
        {
            if str_eq(self.backends[i].0.as_str(), language_id) {
                return Some(i);
            }
            i = i + 1;
        }
        proof {
            lemma_assoc_lookup_none(self.backends@, language_id@);
        }
        None
    }

    /// The embedded flag of this language's configuration, if one exists.
    fn config_embedded(&self, language_id: &str) -> (r: Option<bool>)
        ensures
            match r {
                Some(e) => assoc_lookup(self.server_configs@, language_id@) is Some && e
                    == assoc_lookup(self.server_configs@, language_id@)->0.embedded,
                None => assoc_lookup(self.server_configs@, language_id@) is None
                    && !assoc_contains(self.server_configs@, language_id@),
            },
    {
        let mut i: usize = 0;
        while i < self.server_configs.len()
            invariant
                0 <= i <= self.server_configs@.len(),
                forall|k: int|
                    0 <= k < i ==> (#[trigger] self.server_configs@[k]).0@ != language_id@,
            decreases self.server_configs@.len() - i,
        {
            if str_eq(self.server_configs[i].0.as_str(), language_id) {
                proof {
                    lemma_assoc_lookup_at(self.server_configs@, language_id@, i as int);
                }
                return Some(self.server_configs[i].1.embedded);
            }
            i = i + 1;
        }
        proof {
            lemma_assoc_lookup_none(self.server_configs@, language_id@);
        }
        None
    }

    /// Makes sure a backend exists for this language and returns its
    /// position. Requesting an unconfigured language — or an embedded
    /// backend for any language but Markdown — returns an error naming the
    /// language, and creates and registers nothing. A second request for a
    /// served language finds the backend already there and changes nothing,
    /// so no duplicate is ever created. A newly created backend matches the
    /// configuration's embedded flag and goes through the initialize and
    /// initialized handshake at once.
    pub fn get_or_create_backend(&mut self, language_id: &str) -> (r: Result<usize, LspError>)
        requires
            old(self).wf(),
        ensures
            final(self).wf(),
            final(self).root_path@ == old(self).root_path@,
            final(self).server_configs@ == old(self).server_configs@,
            final(self).trigger_characters@ == old(self).trigger_characters@,
            final(self).process_id == old(self).process_id,
            (r is Err) == (!assoc_contains(old(self).backends@, language_id@) && creation_refused(
                old(self).server_configs@,
                language_id@,
            )),
            match r {
                Ok(i) => i < final(self).backends@.len() && final(self).backends@[i as int].0@
                    == language_id@ && assoc_lookup(final(self).backends@, language_id@)
                    == Option::Some(final(self).backends@[i as int].1) && (assoc_contains(
                    old(self).backends@,
                    language_id@,
                ) ==> final(self).backends@ == old(self).backends@) && (!assoc_contains(
                    old(self).backends@,
                    language_id@,
                ) ==> i == old(self).backends@.len() && final(self).backends@.len() == old(self).backends@.len() + 1 && (forall|k: int|
                    0 <= k < old(self).backends@.len() ==> final(self).backends@[k] == old(self).backends@[k]) && assoc_lookup(old(self).server_configs@, language_id@)
                    is Some && created_backend_spec(
                    final(self).backends@[i as int].1,
                    assoc_lookup(old(self).server_configs@, language_id@)->0.embedded,
                    language_id@,
                    old(self).root_path@,
                    old(self).process_id,
                )),
                Err(e) => final(self).backends@ == old(self).backends@ && e.message@
                    == creation_error_message(old(self).server_configs@, language_id@),
            },
    {
        match self.backend_index(language_id) {
            Some(i) => {
                proof {
                    lemma_assoc_lookup_at(self.backends@, language_id@, i as int);
                }
                return Ok(i);
            },
            None => {},
        }
        let embedded = match self.config_embedded(language_id) {
            Some(e) => e,
            None => {
                let mut message = "No LSP server configured for language: ".to_owned();
                message.append(language_id);
                return Err(LspError { message });
            },
        };
        let backend: Backend = if embedded {
            if !str_eq(language_id, "markdown") {
                let mut message = "No embedded LSP implementation for language: ".to_owned();
                message.append(language_id);
                return Err(LspError { message });
            }
            let mut a = MarkdownLsp::new(self.root_path.clone());
            a.initialize();
            a.initialized();
            proof {
                assert(a.events.deep_view() =~= seq![
                    EventView::Initialized {
                        trigger_characters: crate::analyzer::markdown_trigger_chars(),
                    },
                ]);
            }
            Backend::Embedded(a)
        } else {
            let mut c = ProcessClientCore::new(language_id.to_owned(), self.root_path.clone());
            let _ = c.initialize(self.process_id);
            c.initialized();
            proof {
                assert(c.pending.entries@.len() == 1 && c.pending.entries@[0].0 == 1 && (
                c.pending.entries@[0].1)@ == "initialize"@) by {
                    assert(c.pending.entries@ =~= Seq::<(u64, String)>::empty().push(
                        c.pending.entries@[0],
                    ));
                }
                assert(c.outbox.deep_view() =~= seq![
                    crate::codec::frame_body_view(
                        crate::json::ser_json(
                            crate::codec::request_view(
                                1,
                                "initialize"@,
                                crate::client::initialize_params_view(
                                    self.process_id,
                                    crate::client::file_uri_of(c.root_path@),
                                ),
                            ),
                        ),
                    ),
                    crate::codec::frame_body_view(
                        crate::json::ser_json(
                            crate::codec::notification_view(
                                "initialized"@,
                                crate::json::JsonView::Obj(
                                    Seq::<(Seq<char>, crate::json::JsonView)>::empty(),
                                ),
                            ),
                        ),
                    ),
                ]);
            }
            Backend::Process(c)
        };
        proof {
            assert(created_backend_spec(
                backend,
                embedded,
                language_id@,
                self.root_path@,
                self.process_id,
            ));
        }
        let ghost oldbackends = self.backends@;
        self.backends.push((language_id.to_owned(), backend));
        proof {
            let n = oldbackends.len() as int;
            assert(self.backends@[n].0@ == language_id@);
            assert forall|a: int, b: int|
                0 <= a < b < self.backends@.len() implies (#[trigger] self.backends@[a]).0@ != (
            #[trigger] self.backends@[b]).0@ by {
                if b < n {
                    assert(self.backends@[a] == oldbackends[a]);
                    assert(self.backends@[b] == oldbackends[b]);
                } else {
                    assert(self.backends@[a] == oldbackends[a]);
                }
            }
            assert(self.backends@.drop_last() =~= oldbackends);
            lemma_assoc_lookup_append(oldbackends, self.backends@, language_id@);
        }
        Ok(self.backends.len() - 1)
    }

    /// Announces an opened document to the language's backend, creating it
    /// first when needed.
    pub fn did_open(&mut self, language_id: &str, file_path: &str, content: &str) -> (r: Result<
        (),
        LspError,
    >)
        requires
            old(self).wf(),
        ensures
            final(self).wf(),
            final(self).root_path@ == old(self).root_path@,
            final(self).server_configs@ == old(self).server_configs@,
            final(self).trigger_characters@ == old(self).trigger_characters@,
            final(self).process_id == old(self).process_id,
            (r is Err) == (!assoc_contains(old(self).backends@, language_id@) && creation_refused(
                old(self).server_configs@,
                language_id@,
            )),
            match r {
                Ok(_) => assoc_lookup(final(self).backends@, language_id@) is Some && (forall|
                    other: Seq<char>,
                |
                    other != language_id@ ==> #[trigger] assoc_lookup(final(self).backends@, other)
                        == assoc_lookup(old(self).backends@, other)) && exists|b: Backend|
                    #[trigger] routed_pre(
                        b,
                        old(self).backends@,
                        old(self).server_configs@,
                        language_id@,
                        old(self).root_path@,
                        old(self).process_id,
                    ) && crate::backend::did_open_effect(
                        b,
                        assoc_lookup(final(self).backends@, language_id@)->0,
                        file_path@,
                        content@,
                    ),
                Err(e) => final(self).backends@ == old(self).backends@ && e.message@
                    == creation_error_message(old(self).server_configs@, language_id@),
            },
    {
        let ghost oldb = self.backends@;
        let i = match self.get_or_create_backend(language_id) {
            Ok(i) => i,
            Err(e) => {
                return Err(e);
            },
        };
        let ghost mid = self.backends@;
        proof {
            self.lemma_routed_pre_holds(oldb, i as int, language_id@);
        }
        let mut entry = self.backends.remove(i);
        entry.1.did_open(file_path, content);
        self.backends.insert(i, entry);
        proof {
            self.lemma_routed_post(oldb, mid, i as int, language_id@);
        }
        Ok(())
    }

    /// Announces a changed document to the language's backend.
    pub fn did_change(
        &mut self,
        language_id: &str,
        file_path: &str,
        version: i32,
        content: &str,
    ) -> (r: Result<(), LspError>)
        requires
            old(self).wf(),
        ensures
            final(self).wf(),
            final(self).root_path@ == old(self).root_path@,
            final(self).server_configs@ == old(self).server_configs@,
            final(self).trigger_characters@ == old(self).trigger_characters@,
            final(self).process_id == old(self).process_id,
            (r is Err) == (!assoc_contains(old(self).backends@, language_id@) && creation_refused(
                old(self).server_configs@,
                language_id@,
            )),
            match r {
                Ok(_) => assoc_lookup(final(self).backends@, language_id@) is Some && (forall|
                    other: Seq<char>,
                |
                    other != language_id@ ==> #[trigger] assoc_lookup(final(self).backends@, other)
                        == assoc_lookup(old(self).backends@, other)) && exists|b: Backend|
                    #[trigger] routed_pre(
                        b,
                        old(self).backends@,
                        old(self).server_configs@,
                        language_id@,
                        old(self).root_path@,
                        old(self).process_id,
                    ) && crate::backend::did_change_effect(
                        b,
                        assoc_lookup(final(self).backends@, language_id@)->0,
                        file_path@,
                        version as int,
                        content@,
                    ),
                Err(e) => final(self).backends@ == old(self).backends@ && e.message@
                    == creation_error_message(old(self).server_configs@, language_id@),
            },
    {
        let ghost oldb = self.backends@;
        let i = match self.get_or_create_backend(language_id) {
            Ok(i) => i,
            Err(e) => {
                return Err(e);
            },
        };
        let ghost mid = self.backends@;
        proof {
            self.lemma_routed_pre_holds(oldb, i as int, language_id@);
        }
        let mut entry = self.backends.remove(i);
        entry.1.did_change(file_path, version, content);
        self.backends.insert(i, entry);
        proof {
            self.lemma_routed_post(oldb, mid, i as int, language_id@);
        }
        Ok(())
    }

    /// Requests semantic tokens from the language's backend.
    pub fn request_semantic_tokens(&mut self, language_id: &str, file_path: &str) -> (r: Result<
        (),
        LspError,
    >)
        requires
            old(self).wf(),
        ensures
            final(self).wf(),
            final(self).root_path@ == old(self).root_path@,
            final(self).server_configs@ == old(self).server_configs@,
            final(self).trigger_characters@ == old(self).trigger_characters@,
            final(self).process_id == old(self).process_id,
            (r is Err) == (!assoc_contains(old(self).backends@, language_id@) && creation_refused(
                old(self).server_configs@,
                language_id@,
            )),
            match r {
                Ok(_) => assoc_lookup(final(self).backends@, language_id@) is Some && (forall|
                    other: Seq<char>,
                |
                    other != language_id@ ==> #[trigger] assoc_lookup(final(self).backends@, other)
                        == assoc_lookup(old(self).backends@, other)) && exists|b: Backend|
                    #[trigger] routed_pre(
                        b,
                        old(self).backends@,
                        old(self).server_configs@,
                        language_id@,
                        old(self).root_path@,
                        old(self).process_id,
                    ) && crate::backend::semantic_tokens_effect(
                        b,
                        assoc_lookup(final(self).backends@, language_id@)->0,
                        file_path@,
                    ),
                Err(e) => final(self).backends@ == old(self).backends@ && e.message@
                    == creation_error_message(old(self).server_configs@, language_id@),
            },
    {
        let ghost oldb = self.backends@;
        let i = match self.get_or_create_backend(language_id) {
            Ok(i) => i,
            Err(e) => {
                return Err(e);
            },
        };
        let ghost mid = self.backends@;
        proof {
            self.lemma_routed_pre_holds(oldb, i as int, language_id@);
        }
        let mut entry = self.backends.remove(i);
        entry.1.request_semantic_tokens(file_path);
        self.backends.insert(i, entry);
        proof {
            self.lemma_routed_post(oldb, mid, i as int, language_id@);
        }
        Ok(())
    }

    /// Requests completion from the language's backend.
    pub fn request_completion(
        &mut self,
        language_id: &str,
        file_path: &str,
        line: u32,
        character: u32,
        trigger_character: Option<String>,
    ) -> (r: Result<(), LspError>)
        requires
            old(self).wf(),
        ensures
            final(self).wf(),
            final(self).root_path@ == old(self).root_path@,
            final(self).server_configs@ == old(self).server_configs@,
            final(self).trigger_characters@ == old(self).trigger_characters@,
            final(self).process_id == old(self).process_id,
            (r is Err) == (!assoc_contains(old(self).backends@, language_id@) && creation_refused(
                old(self).server_configs@,
                language_id@,
            )),
            match r {
                Ok(_) => assoc_lookup(final(self).backends@, language_id@) is Some && (forall|
                    other: Seq<char>,
                |
                    other != language_id@ ==> #[trigger] assoc_lookup(final(self).backends@, other)
                        == assoc_lookup(old(self).backends@, other)) && exists|b: Backend|
                    #[trigger] routed_pre(
                        b,
                        old(self).backends@,
                        old(self).server_configs@,
                        language_id@,
                        old(self).root_path@,
                        old(self).process_id,
                    ) && crate::backend::completion_effect(
                        b,
                        assoc_lookup(final(self).backends@, language_id@)->0,
                        file_path@,
                        line,
                        character,
                        crate::events::opt_str_view(trigger_character),
                    ),
                Err(e) => final(self).backends@ == old(self).backends@ && e.message@
                    == creation_error_message(old(self).server_configs@, language_id@),
            },
    {
        let ghost oldb = self.backends@;
        let i = match self.get_or_create_backend(language_id) {
            Ok(i) => i,
            Err(e) => {
                return Err(e);
            },
        };
        let ghost mid = self.backends@;
        proof {
            self.lemma_routed_pre_holds(oldb, i as int, language_id@);
        }
        let mut entry = self.backends.remove(i);
        entry.1.request_completion(file_path, line, character, trigger_character);
        self.backends.insert(i, entry);
        proof {
            self.lemma_routed_post(oldb, mid, i as int, language_id@);
        }
        Ok(())
    }

    /// Requests a definition from the language's backend; a relative file
    /// target of the embedded analyzer comes back for the caller to check on
    /// disk.
    pub fn request_definition(
        &mut self,
        language_id: &str,
        file_path: &str,
        line: u32,
        character: u32,
    ) -> (r: Result<Option<String>, LspError>)
        requires
            old(self).wf(),
        ensures
            final(self).wf(),
            final(self).root_path@ == old(self).root_path@,
            final(self).server_configs@ == old(self).server_configs@,
            final(self).trigger_characters@ == old(self).trigger_characters@,
            final(self).process_id == old(self).process_id,
            (r is Err) == (!assoc_contains(old(self).backends@, language_id@) && creation_refused(
                old(self).server_configs@,
                language_id@,
            )),
            match r {
                Ok(candidate) => assoc_lookup(final(self).backends@, language_id@) is Some && (
                forall|other: Seq<char>|
                    other != language_id@ ==> #[trigger] assoc_lookup(final(self).backends@, other)
                        == assoc_lookup(old(self).backends@, other)) && exists|b: Backend|
                    #[trigger] routed_pre(
                        b,
                        old(self).backends@,
                        old(self).server_configs@,
                        language_id@,
                        old(self).root_path@,
                        old(self).process_id,
                    ) && crate::backend::definition_effect(
                        b,
                        assoc_lookup(final(self).backends@, language_id@)->0,
                        file_path@,
                        line,
                        character,
                        crate::events::opt_str_view(candidate),
                    ),
                Err(e) => final(self).backends@ == old(self).backends@ && e.message@
                    == creation_error_message(old(self).server_configs@, language_id@),
            },
    {
        let ghost oldb = self.backends@;
        let i = match self.get_or_create_backend(language_id) {
            Ok(i) => i,
            Err(e) => {
                return Err(e);
            },
        };
        let ghost mid = self.backends@;
        proof {
            self.lemma_routed_pre_holds(oldb, i as int, language_id@);
        }
        let mut entry = self.backends.remove(i);
        let candidate = entry.1.request_definition(file_path, line, character);
        self.backends.insert(i, entry);
        proof {
            self.lemma_routed_post(oldb, mid, i as int, language_id@);
        }
        Ok(candidate)
    }

    /// Requests references from the language's backend.
    pub fn request_references(
        &mut self,
        language_id: &str,
        file_path: &str,
        line: u32,
        character: u32,
        include_declaration: bool,
    ) -> (r: Result<(), LspError>)
        requires
            old(self).wf(),
        ensures
            final(self).wf(),
            final(self).root_path@ == old(self).root_path@,
            final(self).server_configs@ == old(self).server_configs@,
            final(self).trigger_characters@ == old(self).trigger_characters@,
            final(self).process_id == old(self).process_id,
            (r is Err) == (!assoc_contains(old(self).backends@, language_id@) && creation_refused(
                old(self).server_configs@,
                language_id@,
            )),
            match r {
                Ok(_) => assoc_lookup(final(self).backends@, language_id@) is Some && (forall|
                    other: Seq<char>,
                |
                    other != language_id@ ==> #[trigger] assoc_lookup(final(self).backends@, other)
                        == assoc_lookup(old(self).backends@, other)) && exists|b: Backend|
                    #[trigger] routed_pre(
                        b,
                        old(self).backends@,
                        old(self).server_configs@,
                        language_id@,
                        old(self).root_path@,
                        old(self).process_id,
                    ) && crate::backend::references_effect(
                        b,
                        assoc_lookup(final(self).backends@, language_id@)->0,
                        file_path@,
                        line,
                        character,
                        include_declaration,
                    ),
                Err(e) => final(self).backends@ == old(self).backends@ && e.message@
                    == creation_error_message(old(self).server_configs@, language_id@),
            },
    {
        let ghost oldb = self.backends@;
        let i = match self.get_or_create_backend(language_id) {
            Ok(i) => i,
            Err(e) => {
                return Err(e);
            },
        };
        let ghost mid = self.backends@;
        proof {
            self.lemma_routed_pre_holds(oldb, i as int, language_id@);
        }
        let mut entry = self.backends.remove(i);
        entry.1.request_references(file_path, line, character, include_declaration);
        self.backends.insert(i, entry);
        proof {
            self.lemma_routed_post(oldb, mid, i as int, language_id@);
        }
        Ok(())
    }

    /// After `get_or_create_backend` succeeded with position `i`, the entry
    /// there is the routed call's starting backend.
    proof fn lemma_routed_pre_holds(
        &self,
        oldb: Seq<(String, Backend)>,
        i: int,
        lang: Seq<char>,
    )
        requires
            self.wf(),
            0 <= i < self.backends@.len(),
            self.backends@[i].0@ == lang,
            assoc_contains(oldb, lang) ==> self.backends@ == oldb,
            !assoc_contains(oldb, lang) ==> i == oldb.len() && self.backends@.len() == oldb.len()
                + 1 && (forall|k: int| 0 <= k < oldb.len() ==> self.backends@[k] == oldb[k])
                && assoc_lookup(self.server_configs@, lang) is Some && created_backend_spec(
                self.backends@[i].1,
                assoc_lookup(self.server_configs@, lang)->0.embedded,
                lang,
                self.root_path@,
                self.process_id,
            ),
        ensures
            routed_pre(
                self.backends@[i].1,
                oldb,
                self.server_configs@,
                lang,
                self.root_path@,
                self.process_id,
            ),
            forall|k: int| 0 <= k < i ==> (#[trigger] self.backends@[k]).0@ != lang,
            assoc_lookup(self.backends@, lang) == Option::Some(self.backends@[i].1),
    {
        assert forall|k: int| 0 <= k < i implies (#[trigger] self.backends@[k]).0@ != lang by {
            if self.backends@[k].0@ == lang {
                assert(self.backends@[k].0@ != self.backends@[i].0@);
            }
        }
        lemma_assoc_lookup_at(self.backends@, lang, i);
        if assoc_contains(oldb, lang) {
            assert(assoc_lookup(oldb, lang) == Option::Some(self.backends@[i].1));
        }
    }

    /// After the routed call replaced entry `i`, the registry is well formed
    /// again, the language's backend is the replaced entry, and every other
    /// language's backend is untouched.
    proof fn lemma_routed_post(
        &self,
        oldb: Seq<(String, Backend)>,
        mid: Seq<(String, Backend)>,
        i: int,
        lang: Seq<char>,
    )
        requires
            0 <= i < mid.len(),
            self.backends@.len() == mid.len(),
            forall|k: int| 0 <= k < mid.len() && k != i ==> mid[k] == #[trigger] self.backends@[k],
            self.backends@[i].0@ == lang,
            mid[i].0@ == lang,
            self.backends@[i].1.wf(),
            forall|a: int, b: int|
                0 <= a < b < mid.len() ==> (#[trigger] mid[a]).0@ != (#[trigger] mid[b]).0@,
            forall|k: int| 0 <= k < mid.len() ==> (#[trigger] mid[k]).1.wf(),
            forall|i0: int, j0: int|
                0 <= i0 < j0 < self.trigger_characters@.len() ==> (
                #[trigger] self.trigger_characters@[i0]).0@ != (
                #[trigger] self.trigger_characters@[j0]).0@,
            assoc_contains(oldb, lang) ==> mid == oldb,
            !assoc_contains(oldb, lang) ==> mid.len() == oldb.len() + 1 && i == oldb.len() && (
            forall|k: int| 0 <= k < oldb.len() ==> mid[k] == oldb[k]),
        ensures
            self.wf(),
            assoc_lookup(self.backends@, lang) == Option::Some(self.backends@[i].1),
            forall|other: Seq<char>|
                other != lang ==> #[trigger] assoc_lookup(self.backends@, other) == assoc_lookup(
                    oldb,
                    other,
                ),
    {
        let cur = self.backends@;
        assert forall|a: int, b: int|
            0 <= a < b < cur.len() implies (#[trigger] cur[a]).0@ != (#[trigger] cur[b]).0@ by {
            assert(cur[a].0@ == mid[a].0@);
            assert(cur[b].0@ == mid[b].0@);
        }
        assert forall|k: int| 0 <= k < cur.len() implies (#[trigger] cur[k]).1.wf() by {
            if k != i {
                assert(cur[k] == mid[k]);
            }
        }
        assert forall|k: int| 0 <= k < i implies (#[trigger] mid[k]).0@ != lang by {
            if mid[k].0@ == lang {
                assert(mid[k].0@ != mid[i].0@);
            }
        }
        lemma_assoc_lookup_update(mid, cur, lang, i);
        if assoc_contains(oldb, lang) {
        } else {
            assert(mid.drop_last() =~= oldb);
            assert forall|k: int| 0 <= k < oldb.len() implies (#[trigger] oldb[k]).0@ != lang by {
                assert(oldb[k] == mid[k]);
                assert(mid[k].0@ != mid[i].0@);
            }
            lemma_assoc_lookup_append(oldb, mid, lang);
        }
    }

    /// Removes the backend of a language, if one is registered; every other
    /// language's backend is untouched. The caller drops whatever transport
    /// it attached.
    pub fn remove_backend(&mut self, language_id: &str)
        requires
            old(self).wf(),
        ensures
            final(self).wf(),
            !assoc_contains(final(self).backends@, language_id@),
            forall|other: Seq<char>|
                other != language_id@ ==> #[trigger] assoc_lookup(final(self).backends@, other)
                    == assoc_lookup(old(self).backends@, other),
            final(self).trigger_characters@ == old(self).trigger_characters@,
            final(self).server_configs@ == old(self).server_configs@,
            final(self).root_path@ == old(self).root_path@,
            final(self).process_id == old(self).process_id,
    {
        let ghost oldb = self.backends@;
        match self.backend_index(language_id) {
            Some(i) => {
                let _ = self.backends.remove(i);
                proof {
                    let cur = self.backends@;
                    assert forall|k: int|
                        0 <= k < oldb.len() && k != i as int implies (#[trigger] oldb[k]).0@
                        != language_id@ by {
                        if k > i as int {
                            assert(oldb[k].0@ != oldb[i as int].0@);
                        }
                    }
                    assert forall|k: int| i as int <= k < cur.len() implies oldb[k + 1]
                        == #[trigger] cur[k] by {
                        assert(cur =~= oldb.subrange(0, i as int) + oldb.subrange(
                            i as int + 1,
                            oldb.len() as int,
                        ));
                    }
                    assert forall|k: int| 0 <= k < i as int implies oldb[k] == #[trigger] cur[k] by {
                        assert(cur =~= oldb.subrange(0, i as int) + oldb.subrange(
                            i as int + 1,
                            oldb.len() as int,
                        ));
                    }
                    lemma_assoc_lookup_remove(oldb, cur, language_id@, i as int);
                    assert forall|a: int, b: int|
                        0 <= a < b < cur.len() implies (#[trigger] cur[a]).0@ != (
                    #[trigger] cur[b]).0@ by {
                        let a0 = if a < i as int {
                            a
                        } else {
                            a + 1
                        };
                        let b0 = if b < i as int {
                            b
                        } else {
                            b + 1
                        };
                        assert(cur[a] == oldb[a0] && cur[b] == oldb[b0]);
                    }
                    assert forall|k: int| 0 <= k < cur.len() implies (#[trigger] cur[k]).1.wf() by {
                        let k0 = if k < i as int {
                            k
                        } else {
                            k + 1
                        };
                        assert(cur[k] == oldb[k0]);
                    }
                }
            },
            None => {
                proof {
                    lemma_assoc_lookup_none(self.backends@, language_id@);
                }
            },
        }
    }

    /// Remembers the trigger characters a backend negotiated, replacing any
    /// stored before; every other language's stored set is untouched.
    pub fn set_trigger_characters(&mut self, language_id: &str, chars: Vec<String>)
        requires
            old(self).wf(),
        ensures
            final(self).wf(),
            final(self).backends@ == old(self).backends@,
            final(self).server_configs@ == old(self).server_configs@,
            final(self).root_path@ == old(self).root_path@,
            ({
                let stored = assoc_lookup(final(self).trigger_characters@, language_id@);
                stored is Some && stored->0.deep_view() == chars.deep_view()
            }),
            forall|other: Seq<char>|
                other != language_id@ ==> #[trigger] assoc_lookup(
                    final(self).trigger_characters@,
                    other,
                ) == assoc_lookup(old(self).trigger_characters@, other),
            final(self).process_id == old(self).process_id,
    {
        let ghost oldtc = self.trigger_characters@;
        let ghost chars_view = chars.deep_view();
        let mut i: usize = 0;
        while i < self.trigger_characters.len()
            invariant
                0 <= i <= self.trigger_characters@.len(),
                self.trigger_characters@ == oldtc,
                self.backends@ == old(self).backends@,
                self.server_configs@ == old(self).server_configs@,
                self.root_path == old(self).root_path,
                self.process_id == old(self).process_id,
                chars.deep_view() == chars_view,
                old(self).wf(),
                oldtc == old(self).trigger_characters@,
                forall|k: int| 0 <= k < i ==> (#[trigger] oldtc[k]).0@ != language_id@,
            decreases self.trigger_characters@.len() - i,
        {
            if str_eq(self.trigger_characters[i].0.as_str(), language_id) {
                self.trigger_characters[i] = (language_id.to_owned(), chars);
                proof {
                    let cur = self.trigger_characters@;
                    assert(cur =~= oldtc.update(i as int, cur[i as int]));
                    assert forall|a: int, b: int|
                        0 <= a < b < cur.len() implies (#[trigger] cur[a]).0@ != (
                    #[trigger] cur[b]).0@ by {
                        assert(cur[a].0@ == oldtc[a].0@);
                        assert(cur[b].0@ == oldtc[b].0@);
                    }
                    lemma_assoc_lookup_update(oldtc, cur, language_id@, i as int);
                    assert(cur[i as int].1.deep_view() == chars_view);
                }
                return ;
            }
            i = i + 1;
        }
        let ghost pre = self.trigger_characters@;
        self.trigger_characters.push((language_id.to_owned(), chars));
        proof {
            let cur = self.trigger_characters@;
            let n = pre.len() as int;
            assert(cur[n].0@ == language_id@);
            assert forall|a: int, b: int|
                0 <= a < b < cur.len() implies (#[trigger] cur[a]).0@ != (#[trigger] cur[b]).0@ by {
                if b < n {
                    assert(cur[a] == pre[a]);
                    assert(cur[b] == pre[b]);
                } else {
                    assert(cur[a] == pre[a]);
                }
            }
            assert(cur.drop_last() =~= pre);
            lemma_assoc_lookup_append(pre, cur, language_id@);
            assert(cur[n].1.deep_view() == chars_view);
        }
    }

    /// The trigger characters stored for a language: exactly the set last
    /// stored, or nothing when none was.
    pub fn get_trigger_characters(&self, language_id: &str) -> (r: Option<&Vec<String>>)
        ensures
            match r {
                Some(v) => assoc_lookup(self.trigger_characters@, language_id@) == Option::Some(
                    *v,
                ),
                None => assoc_lookup(self.trigger_characters@, language_id@) is None
                    && !assoc_contains(self.trigger_characters@, language_id@),
            },
    {
        let mut i: usize = 0;
        while i < self.trigger_characters.len()
            invariant
                0 <= i <= self.trigger_characters@.len(),
                forall|k: int|
                    0 <= k < i ==> (#[trigger] self.trigger_characters@[k]).0@ != language_id@,
            decreases self.trigger_characters@.len() - i,
        {
            if str_eq(self.trigger_characters[i].0.as_str(), language_id) {
                proof {
                    lemma_assoc_lookup_at(self.trigger_characters@, language_id@, i as int);
                }
                return Some(&self.trigger_characters[i].1);
            }
            i = i + 1;
        }
        proof {
            lemma_assoc_lookup_none(self.trigger_characters@, language_id@);
        }
        None
    }

    /// Whether typing this character should re-invoke completion for the
    /// language: it is one of the language's stored trigger characters.
    pub fn is_trigger_character(&self, language_id: &str, ch: char) -> (r: bool)
        requires
            self.wf(),
        ensures
            r == has_trigger_char(self.trigger_characters@, language_id@, ch),
    {
        let mut i: usize = 0;
        while i < self.trigger_characters.len()
            invariant
                self.wf(),
                0 <= i <= self.trigger_characters@.len(),
                forall|a: int, b: int|
                    0 <= a < i && 0 <= b < (self.trigger_characters@[a]).1@.len() ==> !((
                    #[trigger] (self.trigger_characters@[a]).1@[b])@ == seq![ch] && (
                    self.trigger_characters@[a]).0@ == language_id@),
            decreases self.trigger_characters@.len() - i,
        {
            if str_eq(self.trigger_characters[i].0.as_str(), language_id) {
                let cs = &self.trigger_characters[i].1;
                let mut j: usize = 0;
                while j < cs.len()
                    invariant
                        self.wf(),
                        0 <= j <= cs@.len(),
                        i < self.trigger_characters@.len(),
                        cs == &(self.trigger_characters@[i as int]).1,
                        (self.trigger_characters@[i as int]).0@ == language_id@,
                        forall|b: int| 0 <= b < j ==> ((#[trigger] cs@[b])@ != seq![ch]),
                    decreases cs@.len() - j,
                {
                    let s = &cs[j];
                    let sc = crate::text::to_chars(s.as_str());
                    if sc.len() == 1 && sc[0] == ch {
                        proof {
                            assert((cs@[j as int])@ =~= seq![ch]);
                            assert(has_trigger_char(
                                self.trigger_characters@,
                                language_id@,
                                ch,
                            )) by {
                                assert(((self.trigger_characters@[i as int]).1@[j as int])@
                                    == seq![ch]);
                            }
                        }
                        return true;
                    }
                    proof {
                        if (cs@[j as int])@ == seq![ch] {
                            assert(sc@.len() == 1 && sc@[0] == ch);
                        }
                    }
                    j = j + 1;
                }
                proof {
                    assert(!has_trigger_char(self.trigger_characters@, language_id@, ch)) by {
                        if has_trigger_char(self.trigger_characters@, language_id@, ch) {
                            let (a, b): (int, int) = choose|a: int, b: int|
                                0 <= a < self.trigger_characters@.len() && 0 <= b < (
                                self.trigger_characters@[a]).1@.len() && ((
                                #[trigger] (self.trigger_characters@[a]).1@[b])@ == seq![ch] && (
                                self.trigger_characters@[a]).0@ == language_id@);
                            if a < i as int {
                            } else if a == i as int {
                            } else {
                                assert((self.trigger_characters@[a]).0@ == language_id@);
                                assert((self.trigger_characters@[i as int]).0@ == language_id@);
                                assert(false);
                            }
                        }
                    }
                }
                return false;
            }
            i = i + 1;
        }
        proof {
            if has_trigger_char(self.trigger_characters@, language_id@, ch) {
                let (a, b): (int, int) = choose|a: int, b: int|
                    0 <= a < self.trigger_characters@.len() && 0 <= b < (
                    self.trigger_characters@[a]).1@.len() && ((
                    #[trigger] (self.trigger_characters@[a]).1@[b])@ == seq![ch] && (
                    self.trigger_characters@[a]).0@ == language_id@);
                assert(false);
            }
        }
        false
    }

    /// Drains every backend's event queue, keeping each queue's order, and
    /// pairs each event with its language id. Within one backend the order
    /// of arrival is kept; across backends events come in registry order,
    /// which callers must not rely on. Every event is consumed exactly once:
    /// afterwards every queue is empty, and nothing else of any backend
    /// changes.
    pub fn poll_events(&mut self) -> (r: Vec<(String, Event)>)
        requires
            old(self).wf(),
        ensures
            final(self).wf(),
            r@.len() == drained_pairs(old(self).backends@, 0).len(),
            forall|k: int|
                0 <= k < r@.len() ==> ((#[trigger] r@[k]).0@, (r@[k]).1@) == drained_pairs(
                    old(self).backends@,
                    0,
                )[k],
            final(self).backends@.len() == old(self).backends@.len(),
            forall|k: int|
                0 <= k < final(self).backends@.len() ==> (#[trigger] final(self).backends@[k]).0@ == (old(self).backends@[k]).0@ && crate::backend::drained_effect(
                    (old(self).backends@[k]).1,
                    (final(self).backends@[k]).1,
                ),
            final(self).trigger_characters@ == old(self).trigger_characters@,
            final(self).server_configs@ == old(self).server_configs@,
            final(self).root_path@ == old(self).root_path@,
            final(self).process_id == old(self).process_id,
    {
        let ghost oldb = old(self).backends@;
        let mut out: Vec<(String, Event)> = Vec::new();
        let mut i: usize = 0;
        proof {
            assert(drained_pairs(oldb, 0) =~= Seq::<(Seq<char>, EventView)>::empty()
                + drained_pairs(oldb, 0));
        }
        while i < self.backends.len()
            invariant
                0 <= i <= self.backends@.len(),
                old(self).wf(),
                oldb == old(self).backends@,
                self.trigger_characters@ == old(self).trigger_characters@,
                self.server_configs@ == old(self).server_configs@,
                self.root_path == old(self).root_path,
                self.process_id == old(self).process_id,
                self.backends@.len() == oldb.len(),
                forall|k: int|
                    0 <= k < i ==> (#[trigger] self.backends@[k]).0@ == (oldb[k]).0@
                        && crate::backend::drained_effect((oldb[k]).1, (self.backends@[k]).1),
                forall|k: int| i <= k < oldb.len() ==> #[trigger] self.backends@[k] == oldb[k],
                forall|k: int|
                    0 <= k < self.backends@.len() ==> (#[trigger] self.backends@[k]).1.wf(),
                out@.len() + drained_pairs(oldb, i as int).len() == drained_pairs(oldb, 0).len(),
                forall|k: int|
                    0 <= k < out@.len() ==> ((#[trigger] out@[k]).0@, (out@[k]).1@)
                        == drained_pairs(oldb, 0)[k],
                forall|k: int|
                    0 <= k < drained_pairs(oldb, i as int).len() ==> #[trigger] drained_pairs(
                        oldb,
                        i as int,
                    )[k] == drained_pairs(oldb, 0)[out@.len() + k],
            decreases self.backends@.len() - i,
        {
            let ghost mid = self.backends@;
            let mut entry = self.backends.remove(i);
            let mut events = entry.1.drain_events();
            let lang = entry.0.clone();
            self.backends.insert(i, entry);
            proof {
                let cur = self.backends@;
                assert(cur =~= mid.update(i as int, cur[i as int]));
                assert(mid[i as int] == oldb[i as int]);
                assert(events.deep_view() == backend_events(oldb[i as int].1));
                assert(lang@ == oldb[i as int].0@);
                assert(drained_pairs(oldb, i as int) =~= pairs_of(
                    oldb[i as int].0@,
                    backend_events(oldb[i as int].1),
                ) + drained_pairs(oldb, i as int + 1));
            }
            let ghost evs = events.deep_view();
            let ghost base = out@.len() as int;
            let en = events.len();
            proof {
                assert(evs.len() == en as int);
            }
            let mut m: usize = 0;
            while events.len() > 0
                invariant
                    evs.len() <= usize::MAX,
                    evs.len() >= m,
                    m + events@.len() == evs.len(),
                    forall|k: int|
                        0 <= k < events@.len() ==> (#[trigger] events@[k])@ == evs[m + k],
                    out@.len() == base + m,
                    lang@ == oldb[i as int].0@,
                    forall|k: int|
                        0 <= k < drained_pairs(oldb, i as int).len() ==> #[trigger] drained_pairs(
                            oldb,
                            i as int,
                        )[k] == drained_pairs(oldb, 0)[base + k],
                    drained_pairs(oldb, i as int) == pairs_of(oldb[i as int].0@, evs)
                        + drained_pairs(oldb, i as int + 1),
                    base + drained_pairs(oldb, i as int).len() == drained_pairs(oldb, 0).len(),
                    forall|k: int|
                        0 <= k < out@.len() ==> ((#[trigger] out@[k]).0@, (out@[k]).1@)
                            == drained_pairs(oldb, 0)[k],
                decreases events@.len(),
            {
                let e = events.remove(0);
                let ghost pre = out@;
                proof {
                    assert(e@ == evs[m as int]);
                    assert(events@ =~= events@);
                }
                out.push((lang.clone(), e));
                proof {
                    assert(out@ =~= pre.push(out@[pre.len() as int]));
                    assert((out@[pre.len() as int]).0@ == lang@);
                    assert((out@[pre.len() as int]).1@ == evs[m as int]);
                    assert(pairs_of(oldb[i as int].0@, evs)[m as int] == (
                    oldb[i as int].0@, evs[m as int]));
                    assert(drained_pairs(oldb, i as int)[m as int] == pairs_of(
                        oldb[i as int].0@,
                        evs,
                    )[m as int]);
                    assert(drained_pairs(oldb, 0)[base + m] == (lang@, evs[m as int]));
                }
                m = m + 1;
            }
            proof {
                assert(events@.len() == 0);
                assert(m == evs.len());
                assert forall|k: int|
                    0 <= k < drained_pairs(oldb, i as int + 1).len() implies #[trigger] drained_pairs(
                    oldb,
                    i as int + 1,
                )[k] == drained_pairs(oldb, 0)[out@.len() + k] by {
                    assert(drained_pairs(oldb, i as int)[evs.len() + k] == drained_pairs(
                        oldb,
                        0,
                    )[base + evs.len() + k]);
                    assert(drained_pairs(oldb, i as int)[evs.len() + k] == drained_pairs(
                        oldb,
                        i as int + 1,
                    )[k]);
                }
            }
            i = i + 1;
        }
        proof {
            assert(drained_pairs(oldb, oldb.len() as int) =~= Seq::<(Seq<char>, EventView)>::empty());
        }
        out
    }

    /// Shuts every backend down and forgets them all.
    pub fn shutdown_all(&mut self)
        requires
            old(self).wf(),
        ensures
            final(self).wf(),
            final(self).backends@.len() == 0,
    {
        self.backends.clear();
    }
}

/// The events of one language, paired with its id.
pub open spec fn pairs_of(lang: Seq<char>, evs: Seq<EventView>) -> Seq<(Seq<char>, EventView)> {
    Seq::new(evs.len(), |k: int| (lang, evs[k]))
}

/// Every queued (language, event) pair from backend `i` on, in registry
/// order, each backend's queue in arrival order.
pub open spec fn drained_pairs(backends: Seq<(String, Backend)>, i: int) -> Seq<
    (Seq<char>, EventView),
>
    decreases backends.len() - i,
{
    if i < 0 || i >= backends.len() {
        Seq::<(Seq<char>, EventView)>::empty()
    } else {
        pairs_of(backends[i].0@, backend_events(backends[i].1)) + drained_pairs(backends, i + 1)
    }
}

} // verus!
