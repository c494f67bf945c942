//! Application configuration: editor display settings, key bindings and the
//! per-language server table.

use vstd::prelude::*;

use crate::slug::ascii_lower_seq;
use crate::slug::ascii_upper_seq;
use crate::slug::lower_of;
use crate::slug::lowercase_str;
use crate::slug::upper_of;
use crate::slug::uppercase;
use crate::text::str_eq;

verus! {

/// Configuration of one language server, as the configuration file gives it.
#[derive(Debug, Clone)]
pub struct LspServerConfig {
    /// Command that starts the server.
    pub command: String,
    /// Arguments of the command.
    pub args: Vec<String>,
    /// Enable code completion.
    pub enable_completion: bool,
    /// Enable diagnostics.
    pub enable_diagnostics: bool,
    /// Enable go-to-definition.
    pub enable_goto_definition: bool,
}

/// The per-language server table.
#[derive(Debug)]
pub struct LspConfig {
    pub servers: ServerMap,
}

/// Language id to server configuration, one entry per language.
#[derive(Debug)]
pub struct ServerMap {
    pub entries: Vec<(String, LspServerConfig)>,
}

impl ServerMap {
    /// An empty table.
    pub fn new() -> (r: Self)
        ensures
            r.entries@.len() == 0,
    {
        ServerMap { entries: Vec::new() }
    }

    /// Whether the table holds this language.
    pub fn contains_key(&self, language_id: &str) -> (r: bool)
        ensures
            r == crate::manager::assoc_contains(self.entries@, language_id@),
    {
        let mut i: usize = 0;
        while i < self.entries.len()
            invariant
                0 <= i <= self.entries@.len(),
                forall|k: int| 0 <= k < i ==> (#[trigger] self.entries@[k]).0@ != language_id@,
            decreases self.entries@.len() - i,
        {
            if str_eq(self.entries[i].0.as_str(), language_id) {
                return true;
            }
            i = i + 1;
        }
        false
    }

    /// The configuration stored under this language.
    pub fn get(&self, language_id: &str) -> (r: Option<&LspServerConfig>)
        ensures
            r is Some == crate::manager::assoc_contains(self.entries@, language_id@),
    {
        let mut i: usize = 0;
        while i < self.entries.len()
            invariant
                0 <= i <= self.entries@.len(),
                forall|k: int| 0 <= k < i ==> (#[trigger] self.entries@[k]).0@ != language_id@,
            decreases self.entries@.len() - i,
        {
            if str_eq(self.entries[i].0.as_str(), language_id) {
                return Some(&self.entries[i].1);
            }
            i = i + 1;
        }
        None
    }

    /// Stores a configuration under a language, replacing any stored before.
    pub fn insert(&mut self, language_id: &str, config: LspServerConfig)
        ensures
            crate::manager::assoc_contains(final(self).entries@, language_id@),
    {
        let mut i: usize = 0;
        while i < self.entries.len()
            invariant
                0 <= i <= self.entries@.len(),
            decreases self.entries@.len() - i,
        {
            if str_eq(self.entries[i].0.as_str(), language_id) {
                self.entries[i] = (language_id.to_owned(), config);
                proof {
                    assert(self.entries@[i as int].0@ == language_id@);
                }
                return ;
            }
            i = i + 1;
        }
        self.entries.push((language_id.to_owned(), config));
        proof {
            assert(self.entries@[self.entries@.len() - 1].0@ == language_id@);
        }
    }

    /// Whether the table is empty.
    pub fn is_empty(&self) -> (r: bool)
        ensures
            r == (self.entries@.len() == 0),
    {
        self.entries.len() == 0
    }
}

impl Default for LspConfig {
    /// The stock table: rust-analyzer for Rust, pyright for Python, and the
    /// language server of the query language.
    fn default() -> (r: Self)
        ensures
            crate::manager::assoc_contains(r.servers.entries@, "rust"@),
            crate::manager::assoc_contains(r.servers.entries@, "python"@),
            crate::manager::assoc_contains(r.servers.entries@, "mq"@),
    {
        let mut entries: Vec<(String, LspServerConfig)> = Vec::new();
        entries.push(
            (
                "rust".to_owned(),
                LspServerConfig {
                    command: "rust-analyzer".to_owned(),
                    args: Vec::new(),
                    enable_completion: true,
                    enable_diagnostics: true,
                    enable_goto_definition: true,
                },
            ),
        );
        entries.push(
            (
                "python".to_owned(),
                LspServerConfig {
                    command: "pyright-langserver".to_owned(),
                    args: vec!["--stdio".to_owned()],
                    enable_completion: true,
                    enable_diagnostics: true,
                    enable_goto_definition: true,
                },
            ),
        );
        entries.push(
            (
                "mq".to_owned(),
                LspServerConfig {
                    command: "mq-lsp".to_owned(),
                    args: Vec::new(),
                    enable_completion: true,
                    enable_diagnostics: true,
                    enable_goto_definition: true,
                },
            ),
        );
        let servers = ServerMap { entries };
        proof {
            assert(servers.entries@[0].0@ == "rust"@);
            assert(servers.entries@[1].0@ == "python"@);
            assert(servers.entries@[2].0@ == "mq"@);
        }
        LspConfig { servers }
    }
}

/// Editor display configuration.
#[derive(Debug, Clone)]
pub struct EditorConfig {
    pub show_line_numbers: bool,
    pub show_current_line_highlight: bool,
    pub theme: String,
    pub use_semantic_tokens: bool,
}

impl Default for EditorConfig {
    fn default() -> (r: Self)
        ensures
            r.show_line_numbers,
            r.show_current_line_highlight,
            r.theme@ == "base16-ocean.dark"@,
            !r.use_semantic_tokens,
    {
        EditorConfig {
            show_line_numbers: true,
            show_current_line_highlight: true,
            theme: "base16-ocean.dark".to_owned(),
            use_semantic_tokens: false,
        }
    }
}

/// A key press, as the key binding table sees it.
#[derive(Debug, Clone, Copy, PartialEq, Eq, Structural)]
pub struct KeyInput {
    pub code: KeyCodeInput,
    pub ctrl: bool,
    pub shift: bool,
    pub alt: bool,
}

/// The key of a key press.
#[derive(Debug, Clone, Copy, PartialEq, Eq, Structural)]
pub enum KeyCodeInput {
    Esc,
    Enter,
    Backspace,
    Tab,
    Function(u8),
    Character(char),
}

/// One configured key binding: a key name and its modifiers.
#[derive(Debug, Clone)]
pub struct KeyBinding {
    pub code: String,
    pub modifiers: Vec<String>,
}

/// Whether a lower-cased key name names this key.
pub open spec fn code_matches_spec(lowered: Seq<char>, key: KeyCodeInput) -> bool {
    if lowered == "esc"@ {
        key == KeyCodeInput::Esc
    } else if lowered == "enter"@ {
        key == KeyCodeInput::Enter
    } else if lowered == "backspace"@ {
        key == KeyCodeInput::Backspace
    } else if lowered == "tab"@ {
        key == KeyCodeInput::Tab
    } else if lowered == "space"@ {
        key == KeyCodeInput::Character(' ')
    } else if lowered == "f1"@ {
        key == KeyCodeInput::Function(1)
    } else if lowered == "f2"@ {
        key == KeyCodeInput::Function(2)
    } else if lowered == "f3"@ {
        key == KeyCodeInput::Function(3)
    } else if lowered == "f4"@ {
        key == KeyCodeInput::Function(4)
    } else if lowered == "f5"@ {
        key == KeyCodeInput::Function(5)
    } else if lowered == "f6"@ {
        key == KeyCodeInput::Function(6)
    } else if lowered == "f7"@ {
        key == KeyCodeInput::Function(7)
    } else if lowered == "f8"@ {
        key == KeyCodeInput::Function(8)
    } else if lowered == "f9"@ {
        key == KeyCodeInput::Function(9)
    } else if lowered == "f10"@ {
        key == KeyCodeInput::Function(10)
    } else if lowered == "f11"@ {
        key == KeyCodeInput::Function(11)
    } else if lowered == "f12"@ {
        key == KeyCodeInput::Function(12)
    } else if lowered.len() == 1 {
        match key {
            KeyCodeInput::Character(c) => lower_of(seq![c]) == lower_of(lowered),
            _ => false,
        }
    } else {
        false
    }
}

/// The modifier set a binding's modifier names denote.
pub open spec fn modifiers_spec(mods: Seq<Seq<char>>, i: int) -> (bool, bool, bool)
    decreases i,
{
    if i <= 0 {
        (false, false, false)
    } else {
        let (c, s, a) = modifiers_spec(mods, i - 1);
        let m = lower_of(mods[i - 1]);
        if m == "ctrl"@ || m == "control"@ {
            (true, s, a)
        } else if m == "shift"@ {
            (c, true, a)
        } else if m == "alt"@ {
            (c, s, true)
        } else {
            (c, s, a)
        }
    }
}

impl KeyBinding {
    /// Whether this binding matches a key press: the key name matches, and
    /// the pressed modifiers are exactly the configured ones.
    pub fn matches(&self, key: &KeyInput) -> (r: bool)
        ensures
            r == (code_matches_spec(lower_of(self.code@), key.code) && ({
                let (c, s, a) = modifiers_spec(
                    self.modifiers@.map_values(|m: String| m@),
                    self.modifiers@.len() as int,
                );
                key.ctrl == c && key.shift == s && key.alt == a
            })),
    {
        let lowered = lowercase_str(self.code.as_str());
        let code_ok = self.code_matches(lowered.as_str(), key.code);
        if !code_ok {
            return false;
        }
        let mut c = false;
        let mut s = false;
        let mut a = false;
        let ghost mods = self.modifiers@.map_values(|m: String| m@);
        let mut i: usize = 0;
        while i < self.modifiers.len()
            invariant
                0 <= i <= self.modifiers@.len(),
                mods == self.modifiers@.map_values(|m: String| m@),
                mods.len() == self.modifiers@.len(),
                (c, s, a) == modifiers_spec(mods, i as int),
            decreases self.modifiers@.len() - i,
        {
            let m = lowercase_str(self.modifiers[i].as_str());
            proof {
                assert(mods[i as int] == self.modifiers@[i as int]@);
            }
            if str_eq(m.as_str(), "ctrl") || str_eq(m.as_str(), "control") {
                c = true;
            } else if str_eq(m.as_str(), "shift") {
                s = true;
            } else if str_eq(m.as_str(), "alt") {
                a = true;
            }
            i = i + 1;
        }
        key.ctrl == c && key.shift == s && key.alt == a
    }

    /// Whether the lower-cased key name names this key.
    fn code_matches(&self, lowered: &str, key: KeyCodeInput) -> (r: bool)
        ensures
            r == code_matches_spec(lowered@, key),
    {
        if str_eq(lowered, "esc") {
            return matches!(key, KeyCodeInput::Esc);
        }
        if str_eq(lowered, "enter") {
            return matches!(key, KeyCodeInput::Enter);
        }
        if str_eq(lowered, "backspace") {
            return matches!(key, KeyCodeInput::Backspace);
        }
        if str_eq(lowered, "tab") {
            return matches!(key, KeyCodeInput::Tab);
        }
        if str_eq(lowered, "space") {
            return match key {
                KeyCodeInput::Character(cc) => cc == ' ',
                _ => false,
            };
        }
        if str_eq(lowered, "f1") {
            return matches!(key, KeyCodeInput::Function(1));
        }
        if str_eq(lowered, "f2") {
            return matches!(key, KeyCodeInput::Function(2));
        }
        if str_eq(lowered, "f3") {
            return matches!(key, KeyCodeInput::Function(3));
        }
        if str_eq(lowered, "f4") {
            return matches!(key, KeyCodeInput::Function(4));
        }
        if str_eq(lowered, "f5") {
            return matches!(key, KeyCodeInput::Function(5));
        }
        if str_eq(lowered, "f6") {
            return matches!(key, KeyCodeInput::Function(6));
        }
        if str_eq(lowered, "f7") {
            return matches!(key, KeyCodeInput::Function(7));
        }
        if str_eq(lowered, "f8") {
            return matches!(key, KeyCodeInput::Function(8));
        }
        if str_eq(lowered, "f9") {
            return matches!(key, KeyCodeInput::Function(9));
        }
        if str_eq(lowered, "f10") {
            return matches!(key, KeyCodeInput::Function(10));
        }
        if str_eq(lowered, "f11") {
            return matches!(key, KeyCodeInput::Function(11));
        }
        if str_eq(lowered, "f12") {
            return matches!(key, KeyCodeInput::Function(12));
        }
        let lc = crate::text::to_chars(lowered);
        if lc.len() == 1 {
            match key {
                KeyCodeInput::Character(cc) => {
                    let mut a: Vec<char> = Vec::new();
                    a.push(cc);
                    let av = crate::text::from_chars(&a);
                    let la = lowercase_str(av.as_str());
                    let lb = lowercase_str(lowered);
                    proof {
                        assert(a@ =~= seq![cc]);
                    }
                    return str_eq(la.as_str(), lb.as_str());
                },
                _ => {
                    return false;
                },
            }
        }
        false
    }

    /// A human-readable form: the modifiers, names like `Ctrl` for the
    /// known ones, then the upper-cased key name, joined with `+`.
    pub fn display(&self) -> (r: String)
        ensures
            r@ == display_spec(
                self.modifiers@.map_values(|m: String| m@),
                self.modifiers@.len() as int,
                self.code@,
            ),
    {
        let ghost mods = self.modifiers@.map_values(|m: String| m@);
        let mut out: Vec<char> = Vec::new();
        let mut i: usize = 0;
        proof {
            assert(out@ =~= display_parts(mods, 0));
        }
        while i < self.modifiers.len()
            invariant
                0 <= i <= self.modifiers@.len(),
                mods == self.modifiers@.map_values(|m: String| m@),
                mods.len() == self.modifiers@.len(),
                out@ == display_parts(mods, i as int),
            decreases self.modifiers@.len() - i,
        {
            proof {
                assert(mods[i as int] == self.modifiers@[i as int]@);
            }
            let m = lowercase_str(self.modifiers[i].as_str());
            let ghost pre = out@;
            if str_eq(m.as_str(), "ctrl") || str_eq(m.as_str(), "control") {
                let p = crate::text::to_chars("Ctrl");
                append_all(&mut out, &p);
            } else if str_eq(m.as_str(), "shift") {
                let p = crate::text::to_chars("Shift");
                append_all(&mut out, &p);
            } else if str_eq(m.as_str(), "alt") {
                let p = crate::text::to_chars("Alt");
                append_all(&mut out, &p);
            } else {
                let p = crate::text::to_chars(self.modifiers[i].as_str());
                append_all(&mut out, &p);
            }
            out.push('+');
            proof {
                assert(out@ =~= display_parts(mods, i as int + 1));
            }
            i = i + 1;
        }
        let up = uppercase(self.code.as_str());
        let uc = crate::text::to_chars(up.as_str());
        append_all(&mut out, &uc);
        proof {
            assert(out@ =~= display_parts(mods, mods.len() as int) + upper_of(self.code@));
        }
        crate::text::from_chars(&out)
    }
}

/// The display name of one modifier.
pub open spec fn modifier_display(m: Seq<char>) -> Seq<char> {
    let l = lower_of(m);
    if l == "ctrl"@ || l == "control"@ {
        "Ctrl"@
    } else if l == "shift"@ {
        "Shift"@
    } else if l == "alt"@ {
        "Alt"@
    } else {
        m
    }
}

/// The first `i` modifiers displayed, each followed by `+`.
pub open spec fn display_parts(mods: Seq<Seq<char>>, i: int) -> Seq<char>
    decreases i,
{
    if i <= 0 {
        Seq::<char>::empty()
    } else {
        display_parts(mods, i - 1) + modifier_display(mods[i - 1]) + seq!['+']
    }
}

/// The whole displayed binding.
pub open spec fn display_spec(mods: Seq<Seq<char>>, n: int, code: Seq<char>) -> Seq<char> {
    display_parts(mods, n) + upper_of(code)
}

/// Appends all of `src` to `out`.
fn append_all(out: &mut Vec<char>, src: &Vec<char>)
    ensures
        final(out)@ == old(out)@ + src@,
{
    let mut i: usize = 0;
    proof {
        assert(out@ =~= old(out)@ + src@.take(0));
    }
    while i < src.len()
        invariant
            0 <= i <= src@.len(),
            out@ == old(out)@ + src@.take(i as int),
        decreases src@.len() - i,
    {
        proof {
            assert(src@.take(i as int + 1) =~= src@.take(i as int).push(src@[i as int]));
            assert(old(out)@ + src@.take(i as int + 1) =~= (old(out)@ + src@.take(i as int)).push(
                src@[i as int],
            ));
        }
        out.push(src[i]);
        i = i + 1;
    }
    proof {
        assert(src@.take(src@.len() as int) =~= src@);
    }
}

/// The key binding table.
#[derive(Debug, Clone)]
pub struct Keybindings {
    pub quit: KeyBinding,
    pub quit_alt: KeyBinding,
    pub save: KeyBinding,
    pub toggle_file_browser: KeyBinding,
    pub toggle_file_browser_alt: KeyBinding,
    pub goto_definition: KeyBinding,
    pub navigate_back: KeyBinding,
    pub navigate_forward: KeyBinding,
    pub search: KeyBinding,
    pub replace: KeyBinding,
    pub undo: KeyBinding,
    pub redo: KeyBinding,
    pub close_browser: KeyBinding,
    pub toggle_line_numbers: KeyBinding,
    pub toggle_current_line_highlight: KeyBinding,
    pub goto_line: KeyBinding,
}

/// A binding of a key with one modifier.
fn kb1(code: &str, modifier: &str) -> (r: KeyBinding)
    ensures
        r.code@ == code@,
        r.modifiers@.len() == 1,
        (r.modifiers@[0])@ == modifier@,
{
    KeyBinding { code: code.to_owned(), modifiers: vec![modifier.to_owned()] }
}

/// A binding of a bare key.
fn kb0(code: &str) -> (r: KeyBinding)
    ensures
        r.code@ == code@,
        r.modifiers@.len() == 0,
{
    KeyBinding { code: code.to_owned(), modifiers: Vec::new() }
}

impl Default for Keybindings {
    /// The stock bindings.
    fn default() -> (r: Self)
        ensures
            r.quit.code@ == "q"@ && r.quit.modifiers@.len() == 1,
            r.quit_alt.code@ == "esc"@ && r.quit_alt.modifiers@.len() == 0,
            r.save.code@ == "s"@ && r.save.modifiers@.len() == 1,
            r.goto_line.code@ == "g"@,
    {
        Keybindings {
            quit: kb1("q", "ctrl"),
            quit_alt: kb0("esc"),
            save: kb1("s", "ctrl"),
            toggle_file_browser: kb1("b", "alt"),
            toggle_file_browser_alt: kb0("f2"),
            goto_definition: kb1("d", "ctrl"),
            navigate_back: kb1("b", "ctrl"),
            navigate_forward: kb1("f", "ctrl"),
            search: kb0("f3"),
            replace: kb0("f4"),
            undo: kb1("z", "ctrl"),
            redo: kb1("y", "ctrl"),
            close_browser: kb0("esc"),
            toggle_line_numbers: kb1("l", "ctrl"),
            toggle_current_line_highlight: {
                KeyBinding {
                    code: "l".to_owned(),
                    modifiers: vec!["ctrl".to_owned(), "shift".to_owned()],
                }
            },
            goto_line: kb1("g", "ctrl"),
        }
    }
}

/// The whole application configuration.
#[derive(Debug)]
pub struct Config {
    pub editor: EditorConfig,
    pub keybindings: Keybindings,
    pub lsp: LspConfig,
}

impl Default for Config {
    fn default() -> (r: Self)
        ensures
            r.keybindings.save.code@ == "s"@,
            r.keybindings.quit.code@ == "q"@,
            r.keybindings.quit.modifiers@.len() == 1,
            r.keybindings.quit_alt.code@ == "esc"@,
            r.keybindings.quit_alt.modifiers@.len() == 0,
            crate::manager::assoc_contains(r.lsp.servers.entries@, "rust"@),
    {
        Config {
            editor: EditorConfig::default(),
            keybindings: Keybindings::default(),
            lsp: LspConfig::default(),
        }
    }
}

} // verus!
