//! Interface settings: the single writer of the settings file, and the keymap.
//!
//! Changes land in the store before any timer starts. Frequent ones are debounced; durable choices
//! are flushed at once through the same writer.

use vstd::prelude::*;

use crate::text::{
    ascii_folded, char_from, chars_of, join, joined, lemma_char_from, lemma_char_from_unique,
    lemma_rows_push, opt_text,
    parts_of, rows, same_str, spells, split_on, string_of, trim, trimmed,
};

verus! {

/// Debounce for settings writes after a drag or toggle, in milliseconds.
pub const SAVE_DEBOUNCE_MS: u64 = 400;

pub const FILE_NAME: &'static str = "ui-settings.json";

// ---------------------------------------------------------------------------
// The store
// ---------------------------------------------------------------------------

/// Whether a change waits for the coalescing window or is to reach disk at once.
#[derive(Debug, Clone, Copy, PartialEq, Eq, Structural)]
pub enum SavePolicy {
    Debounced,
    Immediate,
}

/// What a change asks for.
#[derive(Debug, Clone, Copy, PartialEq, Eq, Structural)]
pub enum Schedule {
    /// Write now.
    Flush,
    /// Write after so many milliseconds; an earlier timer is given up.
    After(u64),
}

/// The sole owner of the settings, with the revision that is current and the one on disk.
pub struct SettingsStore<T> {
    pub current: T,
    pub revision: u64,
    pub saved_revision: u64,
    /// Whether a timer runs.
    pub pending: bool,
}

impl<T> SettingsStore<T> {
    /// The settings loaded at boot.
    pub fn init(settings: T) -> (r: Self)
        ensures
            r == (SettingsStore { current: settings, revision: 0, saved_revision: 0, pending: false }),
    {
        SettingsStore { current: settings, revision: 0, saved_revision: 0, pending: false }
    }

    /// Replace the settings; nothing happens where they are the same.
    pub fn replace(&mut self, settings: T, differs: bool, policy: SavePolicy) -> (r: Option<Schedule>)
        ensures
            !differs ==> r is None && *final(self) == *old(self),
            differs ==> {
                &&& final(self).current == settings
                &&& final(self).revision == (old(self).revision + 1) % 0x1_0000_0000_0000_0000
                &&& final(self).saved_revision == old(self).saved_revision
                &&& final(self).pending == (policy == SavePolicy::Debounced)
                &&& r == Some(
                    match policy {
                        SavePolicy::Immediate => Schedule::Flush,
                        SavePolicy::Debounced => Schedule::After(SAVE_DEBOUNCE_MS),
                    },
                )
            },
    {
        if !differs {
            return None;
        }
        self.current = settings;
        self.revision = self.revision.wrapping_add(1);
        match policy {
            SavePolicy::Immediate => {
                self.pending = false;
                Some(Schedule::Flush)
            },
            SavePolicy::Debounced => {
                self.pending = true;
                Some(Schedule::After(SAVE_DEBOUNCE_MS))
            },
        }
    }

    /// The revision to write, or none where the latest is on disk. A running timer is given up.
    pub fn flush(&mut self) -> (r: Option<u64>)
        ensures
            r == if old(self).saved_revision == old(self).revision {
                None
            } else {
                Some(old(self).revision)
            },
            *final(self) == (SettingsStore { pending: false, ..*old(self) }),
    {
        self.pending = false;
        if self.saved_revision == self.revision {
            None
        } else {
            Some(self.revision)
        }
    }

    /// A write succeeded: whether it was of the latest revision.
    pub fn mark_saved(&mut self, revision: u64) -> (latest: bool)
        ensures
            *final(self) == (SettingsStore {
                saved_revision: saved_after(old(self).saved_revision, revision),
                ..*old(self)
            }),
            latest == (final(self).saved_revision == old(self).revision),
    {
        if revision > self.saved_revision {
            self.saved_revision = revision;
        }
        self.saved_revision == self.revision
    }
}

/// The revision on disk after a write.
pub open spec fn saved_after(saved: u64, written: u64) -> u64 {
    if written > saved {
        written
    } else {
        saved
    }
}

/// A write of a stale revision is never taken for the latest, and never sets back what is on disk.
pub proof fn law_stale_writes_do_not_count(saved: u64, written: u64, current: u64)
    requires
        saved < current,
        written < current,
    ensures
        saved_after(saved, written) != current,
        saved_after(saved, written) >= saved,
        saved_after(saved, current) == current,
{
}

// ---------------------------------------------------------------------------
// Keymap
// ---------------------------------------------------------------------------

/// The rebindable shortcuts.
#[derive(Debug, Clone, Copy, PartialEq, Eq, Hash, Structural)]
pub enum ShortcutId {
    ToggleSidebar,
    ToggleChanges,
    ToggleTerminal,
    NewSession,
}

impl ShortcutId {
    pub open spec fn every() -> Seq<ShortcutId> {
        seq![
            ShortcutId::ToggleSidebar,
            ShortcutId::ToggleChanges,
            ShortcutId::ToggleTerminal,
            ShortcutId::NewSession,
        ]
    }

    pub fn all() -> (r: Vec<ShortcutId>)
        ensures
            r@ == Self::every(),
    {
        let mut r: Vec<ShortcutId> = Vec::new();
        r.push(ShortcutId::ToggleSidebar);
        r.push(ShortcutId::ToggleChanges);
        r.push(ShortcutId::ToggleTerminal);
        r.push(ShortcutId::NewSession);
        r
    }

    pub fn label(self) -> (r: &'static str)
        ensures
            r@ == match self {
                ShortcutId::ToggleSidebar => "Toggle left sidebar"@,
                ShortcutId::ToggleChanges => "Toggle right sidebar"@,
                ShortcutId::ToggleTerminal => "Toggle terminal"@,
                ShortcutId::NewSession => "New session"@,
            },
    {
        match self {
            ShortcutId::ToggleSidebar => "Toggle left sidebar",
            ShortcutId::ToggleChanges => "Toggle right sidebar",
            ShortcutId::ToggleTerminal => "Toggle terminal",
            ShortcutId::NewSession => "New session",
        }
    }

    pub open spec fn factory(self) -> Seq<char> {
        match self {
            ShortcutId::ToggleSidebar => "mod-s"@,
            ShortcutId::ToggleChanges => "mod-b"@,
            ShortcutId::ToggleTerminal => "mod-j"@,
            ShortcutId::NewSession => "mod-n"@,
        }
    }

    pub fn default_combo(self) -> (r: &'static str)
        ensures
            r@ == self.factory(),
    {
        match self {
            ShortcutId::ToggleSidebar => "mod-s",
            ShortcutId::ToggleChanges => "mod-b",
            ShortcutId::ToggleTerminal => "mod-j",
            ShortcutId::NewSession => "mod-n",
        }
    }
}

/// Persisted shortcut combos, platform-neutral ("mod-s").
#[derive(Debug, Clone, PartialEq)]
pub struct KeymapConfig {
    pub toggle_sidebar: String,
    pub toggle_changes: String,
    pub toggle_terminal: String,
    pub new_session: String,
}

impl Default for KeymapConfig {
    fn default() -> (r: Self)
        ensures
            forall|id: ShortcutId| #[trigger] r.bound(id) == id.factory(),
    {
        KeymapConfig {
            toggle_sidebar: ShortcutId::ToggleSidebar.default_combo().to_owned(),
            toggle_changes: ShortcutId::ToggleChanges.default_combo().to_owned(),
            toggle_terminal: ShortcutId::ToggleTerminal.default_combo().to_owned(),
            new_session: ShortcutId::NewSession.default_combo().to_owned(),
        }
    }
}

impl KeymapConfig {
    /// What a shortcut is bound to.
    pub open spec fn bound(self, id: ShortcutId) -> Seq<char> {
        match id {
            ShortcutId::ToggleSidebar => self.toggle_sidebar@,
            ShortcutId::ToggleChanges => self.toggle_changes@,
            ShortcutId::ToggleTerminal => self.toggle_terminal@,
            ShortcutId::NewSession => self.new_session@,
        }
    }

    pub fn get(&self, id: ShortcutId) -> (r: &str)
        ensures
            r@ == self.bound(id),
    {
        match id {
            ShortcutId::ToggleSidebar => self.toggle_sidebar.as_str(),
            ShortcutId::ToggleChanges => self.toggle_changes.as_str(),
            ShortcutId::ToggleTerminal => self.toggle_terminal.as_str(),
            ShortcutId::NewSession => self.new_session.as_str(),
        }
    }

    /// Bind a shortcut; the others stay as they are.
    pub fn set(&mut self, id: ShortcutId, combo: String)
        ensures
            forall|other: ShortcutId| #[trigger]
                final(self).bound(other) == if other == id {
                    combo@
                } else {
                    old(self).bound(other)
                },
    {
        match id {
            ShortcutId::ToggleSidebar => {
                self.toggle_sidebar = combo;
            },
            ShortcutId::ToggleChanges => {
                self.toggle_changes = combo;
            },
            ShortcutId::ToggleTerminal => {
                self.toggle_terminal = combo;
            },
            ShortcutId::NewSession => {
                self.new_session = combo;
            },
        }
    }

    /// Bind a shortcut to its default; the others stay as they are.
    pub fn reset(&mut self, id: ShortcutId)
        ensures
            forall|other: ShortcutId| #[trigger]
                final(self).bound(other) == if other == id {
                    id.factory()
                } else {
                    old(self).bound(other)
                },
    {
        self.set(id, id.default_combo().to_owned());
    }
}

/// Whether a shortcut's combo is another's too. Shortcuts without a combo do not collide.
pub open spec fn conflicted(keymap: KeymapConfig, id: ShortcutId) -> bool {
    keymap.bound(id).len() > 0 && exists|other: ShortcutId|
        other != id && #[trigger] keymap.bound(other) == keymap.bound(id)
}

/// Shortcuts collide in pairs: one that does shares its combo with another that does.
pub proof fn law_conflicts_come_in_pairs(keymap: KeymapConfig, id: ShortcutId)
    requires
        conflicted(keymap, id),
    ensures
        exists|other: ShortcutId|
            other != id && #[trigger] keymap.bound(other) == keymap.bound(id) && conflicted(
                keymap,
                other,
            ),
{
    let other = choose|other: ShortcutId|
        other != id && #[trigger] keymap.bound(other) == keymap.bound(id);
    assert(keymap.bound(id) == keymap.bound(other));
    assert(conflicted(keymap, other));
}

/// The default bindings do not collide.
pub proof fn law_defaults_do_not_conflict(keymap: KeymapConfig, id: ShortcutId)
    requires
        forall|other: ShortcutId| #[trigger] keymap.bound(other) == other.factory(),
    ensures
        !conflicted(keymap, id),
{
    reveal_strlit("mod-s");
    reveal_strlit("mod-b");
    reveal_strlit("mod-j");
    reveal_strlit("mod-n");
    assert("mod-s"@[4] == 's' && "mod-b"@[4] == 'b' && "mod-j"@[4] == 'j' && "mod-n"@[4] == 'n');
}

fn conflicts(keymap: &KeymapConfig, id: ShortcutId) -> (r: bool)
    ensures
        r == conflicted(*keymap, id),
{
    let combo = keymap.get(id);
    if combo.is_empty() {
        return false;
    }
    let all = ShortcutId::all();
    for i in 0..all.len()
        invariant
            all@ == ShortcutId::every(),
            combo@ == keymap.bound(id),
            combo@.len() > 0,
            forall|k: int|
                0 <= k < i ==> all@[k] == id || keymap.bound(#[trigger] all@[k]) != keymap.bound(id),
    {
        if all[i] != id && same_str(keymap.get(all[i]), combo) {
            assert(keymap.bound(all@[i as int]) == keymap.bound(id));
            return true;
        }
    }
    assert forall|other: ShortcutId| other != id implies #[trigger] keymap.bound(other)
        != keymap.bound(id) by {
        let k = match other {
            ShortcutId::ToggleSidebar => 0int,
            ShortcutId::ToggleChanges => 1int,
            ShortcutId::ToggleTerminal => 2int,
            ShortcutId::NewSession => 3int,
        };
        assert(all@[k] == other);
    }
    false
}

/// Those of the first `n` shortcuts that collide.
pub open spec fn conflicted_upto(keymap: KeymapConfig, n: nat) -> Seq<ShortcutId>
    decreases n,
{
    if n == 0 {
        Seq::empty()
    } else {
        let front = conflicted_upto(keymap, (n - 1) as nat);
        let id = ShortcutId::every()[n - 1];
        if conflicted(keymap, id) {
            front.push(id)
        } else {
            front
        }
    }
}

/// The shortcuts whose combos collide with another's, in their order.
pub fn conflicted_shortcuts(keymap: &KeymapConfig) -> (r: Vec<ShortcutId>)
    ensures
        r@ == conflicted_upto(*keymap, 4),
{
    let all = ShortcutId::all();
    let mut r: Vec<ShortcutId> = Vec::new();
    for i in 0..all.len()
        invariant
            all@ == ShortcutId::every(),
            r@ == conflicted_upto(*keymap, i as nat),
    {
        if conflicts(keymap, all[i]) {
            r.push(all[i]);
        }
    }
    r
}

// ---------------------------------------------------------------------------
// Combos
// ---------------------------------------------------------------------------

/// A text in lower case.
pub uninterp spec fn lower_text(s: Seq<char>) -> Seq<char>;

/// Every character is ASCII.
pub open spec fn all_ascii(s: Seq<char>) -> bool {
    forall|i: int| 0 <= i < s.len() ==> (#[trigger] s[i] as u32) < 128
}

/// `str::to_lowercase`: a text in lower case; of an ASCII text, that is its capitals as small
/// letters.
#[verifier::external_body]
fn lowercase(s: &str) -> (r: String)
    ensures
        r@ == lower_text(s@),
        all_ascii(s@) ==> r@ == ascii_folded(s@),
{
    s.to_lowercase()
}

/// The upper case of a character, which may take several.
pub uninterp spec fn upper_case(c: char) -> Seq<char>;

/// `char::to_uppercase`: the upper case of a character; an ASCII small letter has its capital, and
/// the other ASCII characters have themselves.
#[verifier::external_body]
fn uppercase(c: char) -> (r: Vec<char>)
    ensures
        r@ == upper_case(c),
        'a' <= c <= 'z' ==> r@ == seq![((c as u32) - 32) as char],
        (c as u32) < 128 && !('a' <= c <= 'z') ==> r@ == seq![c],
{
    c.to_uppercase().collect()
}

/// A key that only modifies others.
pub open spec fn is_modifier(key: Seq<char>) -> bool {
    key == "ctrl"@ || key == "control"@ || key == "alt"@ || key == "shift"@ || key == "cmd"@
        || key == "platform"@ || key == "fn"@
}

/// The combo of a key in lower case: the modifiers in their order, and the key.
pub open spec fn combo(ctrl: bool, alt: bool, shift: bool, cmd: bool, key: Seq<char>) -> Seq<char> {
    (if ctrl || cmd {
        "mod-"@
    } else {
        Seq::empty()
    }) + (if alt {
        "alt-"@
    } else {
        Seq::empty()
    }) + (if shift {
        "shift-"@
    } else {
        Seq::empty()
    }) + key
}

/// The combo of a key that is in lower case already; bare modifiers record nothing.
pub fn combo_of(ctrl: bool, alt: bool, shift: bool, cmd: bool, key: &str) -> (r: Option<String>)
    ensures
        opt_text(r) == if key@.len() == 0 || is_modifier(key@) {
            None
        } else {
            Some(combo(ctrl, alt, shift, cmd, key@))
        },
{
    if key.is_empty() || same_str(key, "ctrl") || same_str(key, "control") || same_str(key, "alt")
        || same_str(key, "shift") || same_str(key, "cmd") || same_str(key, "platform") || same_str(
        key,
        "fn",
    ) {
        return None;
    }
    let mut r = String::new();
    if ctrl || cmd {
        r.push_str("mod-");
    }
    if alt {
        r.push_str("alt-");
    }
    if shift {
        r.push_str("shift-");
    }
    r.push_str(key);
    assert(r@ =~= combo(ctrl, alt, shift, cmd, key@));
    Some(r)
}

/// Build a combo from a recorded keystroke. The primary modifier — cmd on macOS, ctrl elsewhere,
/// either recorded key maps in — becomes "mod".
pub fn combo_from_keystroke(ctrl: bool, alt: bool, shift: bool, cmd: bool, key: &str) -> (r: Option<
    String,
>)
    ensures
        ({
            let key = lower_text(trim(key@));
            opt_text(r) == if key.len() == 0 || is_modifier(key) {
                None
            } else {
                Some(combo(ctrl, alt, shift, cmd, key))
            }
        }),
{
    let chars = chars_of(key);
    let bare = string_of(trimmed(chars.as_slice()));
    let key = lowercase(bare.as_str());
    combo_of(ctrl, alt, shift, cmd, key.as_str())
}

/// A part of a combo as this platform binds it.
pub open spec fn bound_part(part: Seq<char>, macos: bool) -> Seq<char> {
    if part == "mod"@ {
        if macos {
            "cmd"@
        } else {
            "ctrl"@
        }
    } else {
        part
    }
}

/// The first `n` parts as this platform binds them.
pub open spec fn bound_parts(parts: Seq<Seq<char>>, macos: bool, n: nat) -> Seq<Seq<char>> {
    Seq::new(n, |i: int| bound_part(parts[i], macos))
}

/// A stored combo as this platform binds it.
pub open spec fn platform_text(combo: Seq<char>, macos: bool) -> Seq<char> {
    let parts = split_on(combo, '-');
    join(bound_parts(parts, macos, parts.len()), "-"@)
}

/// Translate a stored combo into a keystroke that this platform can bind.
pub fn platform_combo(combo: &str, macos: bool) -> (r: String)
    ensures
        r@ == platform_text(combo@, macos),
{
    let chars = chars_of(combo);
    let parts = parts_of(chars.as_slice(), '-');
    let ghost all = split_on(combo@, '-');
    let mut out: Vec<Vec<char>> = Vec::new();
    for i in 0..parts.len()
        invariant
            rows(parts@) == all,
            rows(out@) =~= bound_parts(all, macos, i as nat),
    {
        let part = parts[i].as_slice();
        assert(part@ == all[i as int]);
        let next = if spells(part, "mod") {
            if macos {
                chars_of("cmd")
            } else {
                chars_of("ctrl")
            }
        } else {
            copied(part)
        };
        proof {
            lemma_rows_push(out@, next);
        }
        out.push(next);
    }
    let line = joined(&out, "-");
    string_of(line.as_slice())
}

fn copied(s: &[char]) -> (r: Vec<char>)
    ensures
        r@ == s@,
{
    let mut r: Vec<char> = Vec::new();
    for i in 0..s.len()
        invariant
            r@ =~= s@.take(i as int),
    {
        r.push(s[i]);
    }
    assert(r@ =~= s@);
    r
}

/// A part of a combo as people read it.
pub open spec fn shown_part(part: Seq<char>, macos: bool) -> Seq<char> {
    if part == "mod"@ {
        if macos {
            "Cmd"@
        } else {
            "Ctrl"@
        }
    } else if part == "alt"@ {
        "Alt"@
    } else if part == "shift"@ {
        "Shift"@
    } else if part.len() == 0 {
        part
    } else {
        upper_case(part[0]) + part.skip(1)
    }
}

pub open spec fn shown_parts(parts: Seq<Seq<char>>, macos: bool, n: nat) -> Seq<Seq<char>> {
    Seq::new(n, |i: int| shown_part(parts[i], macos))
}

/// A stored combo as people read it.
pub open spec fn display_text(combo: Seq<char>, macos: bool) -> Seq<char> {
    let parts = split_on(combo, '-');
    join(shown_parts(parts, macos, parts.len()), "+"@)
}

fn show_part(part: &[char], macos: bool) -> (r: Vec<char>)
    ensures
        r@ == shown_part(part@, macos),
{
    if spells(part, "mod") {
        if macos {
            chars_of("Cmd")
        } else {
            chars_of("Ctrl")
        }
    } else if spells(part, "alt") {
        chars_of("Alt")
    } else if spells(part, "shift") {
        chars_of("Shift")
    } else if part.len() == 0 {
        let r: Vec<char> = Vec::new();
        assert(r@ =~= part@);
        r
    } else {
        let mut r = uppercase(part[0]);
        let (_, rest) = part.split_at(1);
        let mut rest = copied(rest);
        r.append(&mut rest);
        assert(r@ =~= upper_case(part@[0]) + part@.skip(1));
        r
    }
}

/// Human-readable combo ("mod-s" → "Cmd+S" or "Ctrl+S").
pub fn display_combo(combo: &str, macos: bool) -> (r: String)
    ensures
        r@ == display_text(combo@, macos),
{
    let chars = chars_of(combo);
    let parts = parts_of(chars.as_slice(), '-');
    let ghost all = split_on(combo@, '-');
    let mut out: Vec<Vec<char>> = Vec::new();
    for i in 0..parts.len()
        invariant
            rows(parts@) == all,
            rows(out@) =~= shown_parts(all, macos, i as nat),
    {
        let part = parts[i].as_slice();
        assert(part@ == all[i as int]);
        let next = show_part(part, macos);
        proof {
            lemma_rows_push(out@, next);
        }
        out.push(next);
    }
    let line = joined(&out, "+");
    string_of(line.as_slice())
}

/// A combo without the primary modifier is bound as it is stored.
pub proof fn law_plain_combos_are_bound_as_stored(combo: Seq<char>, macos: bool)
    requires
        forall|i: int|
            0 <= i < split_on(combo, '-').len() ==> #[trigger] split_on(combo, '-')[i] != "mod"@,
    ensures
        platform_text(combo, macos) == combo,
{
    let parts = split_on(combo, '-');
    assert(bound_parts(parts, macos, parts.len()) =~= parts);
    lemma_split_join(combo, '-', "-"@);
}

/// Joining what was split gives the text back.
proof fn lemma_split_join(s: Seq<char>, c: char, sep: Seq<char>)
    requires
        c == '-',
        sep == "-"@,
    ensures
        join(split_on(s, c), sep) == s,
    decreases s.len(),
{
    reveal_strlit("-");
    lemma_char_from(s, c, 0);
    let at = char_from(s, c, 0);
    if at >= s.len() {
        assert(split_on(s, c) =~= seq![s]);
        lemma_join_one(s, sep);
    } else {
        let rest = s.skip(at + 1);
        lemma_split_join(rest, c, sep);
        lemma_split_some(rest, c);
        lemma_join_front(s.take(at), split_on(rest, c), sep);
        assert(s =~= s.take(at) + sep + rest);
    }
}

proof fn lemma_split_some(s: Seq<char>, c: char)
    ensures
        split_on(s, c).len() > 0,
    decreases s.len(),
{
    lemma_char_from(s, c, 0);
}

proof fn lemma_join_one(s: Seq<char>, sep: Seq<char>)
    ensures
        join(seq![s], sep) == s,
{
    reveal_with_fuel(join, 2);
    assert(join(seq![s], sep) =~= s);
}

/// The first part stands before the separator.
proof fn lemma_join_front(first: Seq<char>, rest: Seq<Seq<char>>, sep: Seq<char>)
    requires
        rest.len() > 0,
    ensures
        join(seq![first] + rest, sep) == first + sep + join(rest, sep),
    decreases rest.len(),
{
    let all = seq![first] + rest;
    if rest.len() == 1 {
        reveal_with_fuel(join, 3);
        assert(all.drop_last() =~= seq![first]);
        assert(join(all, sep) =~= first + sep + join(rest, sep));
    } else {
        assert(all.drop_last() =~= seq![first] + rest.drop_last());
        assert(all.last() == rest.last());
        lemma_join_front(first, rest.drop_last(), sep);
        assert(join(all, sep) =~= first + sep + join(rest, sep));
    }
}

/// A part in front of a dash is split off.
proof fn lemma_split_front(part: Seq<char>, rest: Seq<char>)
    requires
        forall|i: int| 0 <= i < part.len() ==> #[trigger] part[i] != '-',
    ensures
        split_on(part + seq!['-'] + rest, '-') == seq![part] + split_on(rest, '-'),
{
    let s = part + seq!['-'] + rest;
    let at = part.len() as int;
    assert forall|i: int| 0 <= i < at implies s[i] != '-' by {
        assert(s[i] == part[i]);
    }
    assert(s[at] == '-');
    lemma_char_from_unique(s, '-', 0, at);
    assert(s.take(at) =~= part);
    assert(s.skip(at + 1) =~= rest);
}

/// A text without a dash is one part.
proof fn lemma_split_none(part: Seq<char>)
    requires
        forall|i: int| 0 <= i < part.len() ==> #[trigger] part[i] != '-',
    ensures
        split_on(part, '-') == seq![part],
{
    lemma_char_from_unique(part, '-', 0, part.len() as int);
}

/// The parts of a recorded combo.
pub open spec fn recorded_parts(primary: bool, alt: bool, shift: bool, key: Seq<char>) -> Seq<
    Seq<char>,
> {
    (if primary {
        seq!["mod"@]
    } else {
        Seq::empty()
    }) + (if alt {
        seq!["alt"@]
    } else {
        Seq::empty()
    }) + (if shift {
        seq!["shift"@]
    } else {
        Seq::empty()
    }) + seq![key]
}

#[verifier::rlimit(50)]
proof fn lemma_recorded_parts(ctrl: bool, alt: bool, shift: bool, cmd: bool, key: Seq<char>)
    requires
        forall|i: int| 0 <= i < key.len() ==> #[trigger] key[i] != '-',
    ensures
        split_on(combo(ctrl, alt, shift, cmd, key), '-') == recorded_parts(
            ctrl || cmd,
            alt,
            shift,
            key,
        ),
{
    reveal_strlit("mod");
    reveal_strlit("alt");
    reveal_strlit("shift");
    reveal_strlit("mod-");
    reveal_strlit("alt-");
    reveal_strlit("shift-");
    assert("mod-"@ =~= "mod"@ + seq!['-']);
    assert("alt-"@ =~= "alt"@ + seq!['-']);
    assert("shift-"@ =~= "shift"@ + seq!['-']);
    lemma_split_none(key);
    let third = if shift {
        "shift-"@ + key
    } else {
        key
    };
    if shift {
        lemma_split_front("shift"@, key);
    }
    let second = if alt {
        "alt-"@ + third
    } else {
        third
    };
    if alt {
        lemma_split_front("alt"@, third);
    }
    let first = if ctrl || cmd {
        "mod-"@ + second
    } else {
        second
    };
    if ctrl || cmd {
        lemma_split_front("mod"@, second);
    }
    assert(first =~= combo(ctrl, alt, shift, cmd, key));
    assert(split_on(first, '-') =~= recorded_parts(ctrl || cmd, alt, shift, key));
}

/// A recorded keystroke is bound as it was pressed: with the platform's own primary key, Alt and
/// Shift where they were held, and the key.
#[verifier::rlimit(50)]
pub proof fn law_recorded_keys_are_bound_as_pressed(
    ctrl: bool,
    alt: bool,
    shift: bool,
    cmd: bool,
    key: Seq<char>,
    macos: bool,
)
    requires
        forall|i: int| 0 <= i < key.len() ==> #[trigger] key[i] != '-',
        key != "mod"@,
    ensures
        ({
            let primary = if macos {
                "cmd-"@
            } else {
                "ctrl-"@
            };
            let none = Seq::<char>::empty();
            platform_text(combo(ctrl, alt, shift, cmd, key), macos) == (if ctrl || cmd {
                primary
            } else {
                none
            }) + (if alt {
                "alt-"@
            } else {
                none
            }) + (if shift {
                "shift-"@
            } else {
                none
            }) + key
        }),
{
    reveal_strlit("mod");
    reveal_strlit("alt");
    reveal_strlit("shift");
    reveal_strlit("cmd");
    reveal_strlit("ctrl");
    reveal_strlit("cmd-");
    reveal_strlit("ctrl-");
    reveal_strlit("alt-");
    reveal_strlit("shift-");
    reveal_strlit("-");
    let dash = "-"@;
    assert(dash =~= seq!['-']);
    assert("alt"@[0] == 'a' && "shift"@[0] == 's' && "mod"@[0] == 'm');
    let own = if macos {
        "cmd"@
    } else {
        "ctrl"@
    };
    assert("cmd-"@ =~= "cmd"@ + dash);
    assert("ctrl-"@ =~= "ctrl"@ + dash);
    assert("alt-"@ =~= "alt"@ + dash);
    assert("shift-"@ =~= "shift"@ + dash);
    lemma_recorded_parts(ctrl, alt, shift, cmd, key);
    let parts = recorded_parts(ctrl || cmd, alt, shift, key);
    let bound = bound_parts(parts, macos, parts.len());
    let last = seq![key];
    lemma_join_one(key, dash);
    let third = if shift {
        seq!["shift"@] + last
    } else {
        last
    };
    if shift {
        lemma_join_front("shift"@, last, dash);
    }
    let second = if alt {
        seq!["alt"@] + third
    } else {
        third
    };
    if alt {
        lemma_join_front("alt"@, third, dash);
    }
    let first = if ctrl || cmd {
        seq![own] + second
    } else {
        second
    };
    if ctrl || cmd {
        lemma_join_front(own, second, dash);
    }
    assert(bound =~= first);
    let none = Seq::<char>::empty();
    let primary = own + dash;
    assert(join(first, dash) =~= (if ctrl || cmd {
        primary
    } else {
        none
    }) + (if alt {
        "alt-"@
    } else {
        none
    }) + (if shift {
        "shift-"@
    } else {
        none
    }) + key);
}

/// The shortcuts that are listed as colliding are exactly those whose combo, if they have one,
/// another has too.
pub proof fn law_all_collisions_are_listed(keymap: KeymapConfig, id: ShortcutId)
    ensures
        conflicted_upto(keymap, 4).contains(id) <==> keymap.bound(id).len() > 0 && exists|
            other: ShortcutId,
        |
            other != id && #[trigger] keymap.bound(other) == keymap.bound(id),
{
    let every = ShortcutId::every();
    let listed = conflicted_upto(keymap, 4);
    lemma_conflicted_upto(keymap, 4);
    let k = match id {
        ShortcutId::ToggleSidebar => 0int,
        ShortcutId::ToggleChanges => 1int,
        ShortcutId::ToggleTerminal => 2int,
        ShortcutId::NewSession => 3int,
    };
    assert(every[k] == id);
}

proof fn lemma_conflicted_upto(keymap: KeymapConfig, n: nat)
    requires
        n <= 4,
    ensures
        forall|k: int|
            0 <= k < n && conflicted(keymap, #[trigger] ShortcutId::every()[k]) ==> conflicted_upto(
                keymap,
                n,
            ).contains(ShortcutId::every()[k]),
        forall|j: int|
            0 <= j < conflicted_upto(keymap, n).len() ==> conflicted(
                keymap,
                #[trigger] conflicted_upto(keymap, n)[j],
            ),
    decreases n,
{
    if n > 0 {
        lemma_conflicted_upto(keymap, (n - 1) as nat);
        let front = conflicted_upto(keymap, (n - 1) as nat);
        let all = conflicted_upto(keymap, n);
        assert forall|k: int|
            0 <= k < n && conflicted(keymap, #[trigger] ShortcutId::every()[k]) implies all.contains(
            ShortcutId::every()[k],
        ) by {
            let id = ShortcutId::every()[k];
            if k < n - 1 {
                let j = choose|j: int| 0 <= j < front.len() && front[j] == id;
                assert(all[j] == id);
            } else {
                assert(all[front.len() as int] == id);
            }
        }
    }
}

/// Each shortcut has the combo that is stored under its name.
pub proof fn law_shortcuts_have_their_own_combo(keymap: KeymapConfig)
    ensures
        keymap.bound(ShortcutId::ToggleSidebar) == keymap.toggle_sidebar@,
        keymap.bound(ShortcutId::ToggleChanges) == keymap.toggle_changes@,
        keymap.bound(ShortcutId::ToggleTerminal) == keymap.toggle_terminal@,
        keymap.bound(ShortcutId::NewSession) == keymap.new_session@,
{
}

/// A recorded keystroke is shown as people read it: the platform's own primary key, Alt and Shift
/// where they were held, and the key with its first letter in upper case.
#[verifier::rlimit(50)]
pub proof fn law_recorded_keys_are_shown_as_pressed(
    ctrl: bool,
    alt: bool,
    shift: bool,
    cmd: bool,
    key: Seq<char>,
    macos: bool,
)
    requires
        key.len() > 0,
        forall|i: int| 0 <= i < key.len() ==> #[trigger] key[i] != '-',
        key != "mod"@ && key != "alt"@ && key != "shift"@,
    ensures
        ({
            let primary = if macos {
                "Cmd+"@
            } else {
                "Ctrl+"@
            };
            let none = Seq::<char>::empty();
            display_text(combo(ctrl, alt, shift, cmd, key), macos) == (if ctrl || cmd {
                primary
            } else {
                none
            }) + (if alt {
                "Alt+"@
            } else {
                none
            }) + (if shift {
                "Shift+"@
            } else {
                none
            }) + (upper_case(key[0]) + key.skip(1))
        }),
{
    reveal_strlit("mod");
    reveal_strlit("alt");
    reveal_strlit("shift");
    reveal_strlit("Cmd");
    reveal_strlit("Ctrl");
    reveal_strlit("Alt");
    reveal_strlit("Shift");
    reveal_strlit("Cmd+");
    reveal_strlit("Ctrl+");
    reveal_strlit("Alt+");
    reveal_strlit("Shift+");
    reveal_strlit("+");
    let plus = "+"@;
    assert(plus =~= seq!['+']);
    assert("alt"@[0] == 'a' && "shift"@[0] == 's' && "mod"@[0] == 'm');
    let own = if macos {
        "Cmd"@
    } else {
        "Ctrl"@
    };
    assert("Cmd+"@ =~= "Cmd"@ + plus);
    assert("Ctrl+"@ =~= "Ctrl"@ + plus);
    assert("Alt+"@ =~= "Alt"@ + plus);
    assert("Shift+"@ =~= "Shift"@ + plus);
    lemma_recorded_parts(ctrl, alt, shift, cmd, key);
    let parts = recorded_parts(ctrl || cmd, alt, shift, key);
    let shown = shown_parts(parts, macos, parts.len());
    let name = upper_case(key[0]) + key.skip(1);
    let last = seq![name];
    lemma_join_one(name, plus);
    let third = if shift {
        seq!["Shift"@] + last
    } else {
        last
    };
    if shift {
        lemma_join_front("Shift"@, last, plus);
    }
    let second = if alt {
        seq!["Alt"@] + third
    } else {
        third
    };
    if alt {
        lemma_join_front("Alt"@, third, plus);
    }
    let first = if ctrl || cmd {
        seq![own] + second
    } else {
        second
    };
    if ctrl || cmd {
        lemma_join_front(own, second, plus);
    }
    assert(shown =~= first);
    let none = Seq::<char>::empty();
    let primary = own + plus;
    assert(join(first, plus) =~= (if ctrl || cmd {
        primary
    } else {
        none
    }) + (if alt {
        "Alt+"@
    } else {
        none
    }) + (if shift {
        "Shift+"@
    } else {
        none
    }) + name);
}

/// The keys that only modify others are no shortcut by themselves; a key that types one character is
/// no such key.
pub proof fn law_bare_modifiers_are_no_shortcut(key: Seq<char>)
    ensures
        is_modifier("ctrl"@) && is_modifier("control"@) && is_modifier("alt"@) && is_modifier(
            "shift"@,
        ) && is_modifier("cmd"@) && is_modifier("platform"@) && is_modifier("fn"@),
        key.len() == 1 ==> !is_modifier(key),
{
    reveal_strlit("ctrl");
    reveal_strlit("control");
    reveal_strlit("alt");
    reveal_strlit("shift");
    reveal_strlit("cmd");
    reveal_strlit("platform");
    reveal_strlit("fn");
}

/// What is on disk after a write is the later of what was there and what was written.
pub proof fn law_the_latest_write_stays(saved: u64, written: u64)
    ensures
        saved_after(saved, written) >= saved,
        saved_after(saved, written) >= written,
        saved_after(saved, written) == saved || saved_after(saved, written) == written,
{
}

} // verus!
