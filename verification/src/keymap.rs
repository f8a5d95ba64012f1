//! Configurable keybindings.
//!
//! Parses human key-strings (`"alt-o"`, `"ctrl-n"`, `"enter"`) into `KeyChord`s
//! and resolves an incoming `KeyEvent` to a picker `Action`. Only the Normal-mode
//! action chords are rebindable; the navigation arrows, `Ctrl-c`, `Backspace` and
//! printable-character filtering stay fixed in the picker's state machine.

use vstd::prelude::*;
use crate::text::{lemma_trim_idempotent, chars_of, lower, lower_chars, split_char, split_chars, trim, trim_chars};

verus! {

/// A key, as the terminal reports it.
#[derive(Debug, Clone, Copy, PartialEq, Eq, Structural)]
pub enum KeyCode {
    Backspace,
    Enter,
    Left,
    Right,
    Up,
    Down,
    Home,
    End,
    PageUp,
    PageDown,
    Tab,
    BackTab,
    Delete,
    Insert,
    F(u8),
    Char(char),
    Null,
    Esc,
    CapsLock,
    ScrollLock,
    NumLock,
    PrintScreen,
    Pause,
    Menu,
    KeypadBegin,
    /// Media and lone-modifier keys, which no binding can name.
    Other,
}

/// Modifier bits of a key event: shift = 1, control = 2, alt = 4, and the
/// terminal's other flags (super, hyper, meta) above them.
#[derive(Debug, Clone, Copy, PartialEq, Eq, Structural)]
pub struct KeyModifiers {
    pub bits: u8,
}

impl KeyModifiers {
    /// No modifier.
    pub fn none() -> (r: KeyModifiers)
        ensures
            r.bits == 0,
    {
        KeyModifiers { bits: 0 }
    }

    /// Shift alone.
    pub fn shift() -> (r: KeyModifiers)
        ensures
            r.bits == 1,
    {
        KeyModifiers { bits: 1 }
    }

    /// Control alone.
    pub fn control() -> (r: KeyModifiers)
        ensures
            r.bits == 2,
    {
        KeyModifiers { bits: 2 }
    }

    /// Alt alone.
    pub fn alt() -> (r: KeyModifiers)
        ensures
            r.bits == 4,
    {
        KeyModifiers { bits: 4 }
    }

    /// True when the alt bit is set.
    pub fn has_alt(&self) -> (r: bool)
        ensures
            r == has_flag(self.bits, 4),
    {
        (self.bits / 4) % 2 == 1
    }

    /// True when the control bit is set.
    pub fn has_control(&self) -> (r: bool)
        ensures
            r == has_flag(self.bits, 2),
    {
        (self.bits / 2) % 2 == 1
    }

    /// The union of two sets of modifiers.
    pub fn union(self, other: KeyModifiers) -> (r: KeyModifiers)
        ensures
            r.bits == self.bits | other.bits,
    {
        KeyModifiers { bits: self.bits | other.bits }
    }
}

/// True when bit `flag` (a power of two) is set in `bits`.
pub open spec fn has_flag(bits: u8, flag: u8) -> bool {
    (bits / flag) % 2 == 1
}

/// `bits` with the single bit `flag` set: `bits | flag`.
pub open spec fn set_flag(bits: u8, flag: u8) -> u8 {
    if has_flag(bits, flag) {
        bits
    } else {
        (bits + flag) as u8
    }
}

/// One key press: a key and the modifiers held with it.
#[derive(Debug, Clone, Copy, PartialEq, Eq, Structural)]
pub struct KeyEvent {
    pub code: KeyCode,
    pub modifiers: KeyModifiers,
}

impl KeyEvent {
    pub fn new(code: KeyCode, modifiers: KeyModifiers) -> (r: KeyEvent)
        ensures
            r.code == code,
            r.modifiers == modifiers,
    {
        KeyEvent { code, modifiers }
    }

    /// The same key with alt added: how a lone `Esc` followed at once by another
    /// key is read (terminals send `Alt+<key>` as `ESC` then `<key>`).
    pub fn with_alt(self) -> (r: KeyEvent)
        ensures
            r.code == self.code,
            r.modifiers.bits == self.modifiers.bits | 4u8,
    {
        KeyEvent { code: self.code, modifiers: self.modifiers.union(KeyModifiers::alt()) }
    }

    /// True for an `Esc` with no modifiers, the press that may start an alt chord.
    pub fn is_bare_esc(&self) -> (r: bool)
        ensures
            r == (self.code == KeyCode::Esc && self.modifiers.bits == 0),
    {
        self.code == KeyCode::Esc && self.modifiers.bits == 0
    }
}

/// A rebindable picker action (Normal mode only).
#[derive(Debug, Clone, Copy, PartialEq, Eq, Structural)]
pub enum Action {
    Select,
    Open,
    Agent,
    New,
    Forget,
    Up,
    Down,
    Abort,
}

/// A base key plus its alt/ctrl/shift modifiers.
#[derive(Debug, Clone, Copy, PartialEq, Eq, Structural)]
pub struct KeyChord {
    pub code: KeyCode,
    pub mods: KeyModifiers,
}

/// The modifier flag a modifier word names, if any.
pub open spec fn mod_flag(m: Seq<char>) -> Option<u8> {
    let l = lower(m);
    if l == "alt"@ || l == "meta"@ || l == "m"@ {
        Some(4u8)
    } else if l == "ctrl"@ || l == "control"@ || l == "c"@ {
        Some(2u8)
    } else if l == "shift"@ || l == "s"@ {
        Some(1u8)
    } else {
        None
    }
}

/// The modifier bits named by a list of modifier words; `None` if one is unknown.
pub open spec fn mods_of(parts: Seq<Seq<char>>) -> Option<u8>
    decreases parts.len(),
{
    if parts.len() == 0 {
        Some(0u8)
    } else {
        match (mods_of(parts.drop_last()), mod_flag(parts.last())) {
            (Some(b), Some(f)) => Some(set_flag(b, f)),
            _ => None,
        }
    }
}

/// The key a key token names: a named key (case-insensitive) or one literal character.
pub open spec fn key_token(tok: Seq<char>) -> Option<KeyCode> {
    let l = lower(tok);
    if l == "enter"@ || l == "return"@ || l == "ret"@ {
        Some(KeyCode::Enter)
    } else if l == "esc"@ || l == "escape"@ {
        Some(KeyCode::Esc)
    } else if l == "up"@ {
        Some(KeyCode::Up)
    } else if l == "down"@ {
        Some(KeyCode::Down)
    } else if l == "left"@ {
        Some(KeyCode::Left)
    } else if l == "right"@ {
        Some(KeyCode::Right)
    } else if l == "home"@ {
        Some(KeyCode::Home)
    } else if l == "end"@ {
        Some(KeyCode::End)
    } else if l == "pageup"@ {
        Some(KeyCode::PageUp)
    } else if l == "pagedown"@ {
        Some(KeyCode::PageDown)
    } else if l == "tab"@ {
        Some(KeyCode::Tab)
    } else if l == "backspace"@ || l == "bs"@ {
        Some(KeyCode::Backspace)
    } else if l == "delete"@ || l == "del"@ {
        Some(KeyCode::Delete)
    } else if l == "space"@ {
        Some(KeyCode::Char(' '))
    } else if tok.len() == 1 {
        Some(KeyCode::Char(tok[0]))
    } else {
        None
    }
}

/// What `KeyChord::parse` gives for the key-string `s`: after trimming, the
/// `-`-separated modifier words then a non-empty key token.
pub open spec fn parse_chord(s: Seq<char>) -> Option<KeyChord> {
    let t = trim(s);
    if t.len() == 0 {
        None
    } else {
        let parts = split_char(t, '-');
        let key = parts.last();
        if key.len() == 0 {
            None
        } else {
            match (mods_of(parts.drop_last()), key_token(key)) {
                (Some(m), Some(c)) => Some(KeyChord { code: c, mods: KeyModifiers { bits: m } }),
                _ => None,
            }
        }
    }
}

/// The chord matches the event: same key, and the same alt/ctrl/shift bits
/// (other modifier bits of the event are ignored).
pub open spec fn chord_matches(chord: KeyChord, ev: KeyEvent) -> bool {
    ev.code == chord.code && ev.modifiers.bits % 8 == chord.mods.bits
}

/// True when `v` holds the characters of `lit`.
pub fn eq_lit(v: &[char], lit: &str) -> (r: bool)
    ensures
        r == (v@ == lit@),
{
    let l = chars_of(lit);
    if v.len() != l.len() {
        return false;
    }
    let mut i: usize = 0;
    while i < v.len()
        invariant
            i <= v.len(),
            v.len() == l.len(),
            l@ == lit@,
            forall|j: int| 0 <= j < i ==> v@[j] == l@[j],
        decreases v.len() - i,
    {
        if v[i] != l[i] {
            return false;
        }
        i = i + 1;
    }
    proof {
        assert(v@ =~= l@);
    }
    true
}

impl KeyChord {
    pub fn new(code: KeyCode, mods: KeyModifiers) -> (r: KeyChord)
        ensures
            r.code == code,
            r.mods == mods,
    {
        KeyChord { code, mods }
    }

    /// Parse a key-string like `"alt-o"`, `"ctrl-n"`, `"enter"`, or `"k"`.
    /// Modifier prefixes (`alt-`/`ctrl-`/`shift-`, joined by `-`) precede a key
    /// token. Returns `None` for anything unrecognized so the caller can fall back
    /// to a default binding.
    pub fn parse(s: &str) -> (r: Option<KeyChord>)
        ensures
            r == parse_chord(s@),
    {
        let all = chars_of(s);
        let t = trim_chars(&all);
        if t.len() == 0 {
            return None;
        }
        let parts = split_chars(&t, '-');
        let last = parts.len() - 1;
        let key = &parts[last];
        if key.len() == 0 {
            return None;
        }
        let mut bits: u8 = 0;
        let mut i: usize = 0;
        while i < last
            invariant
                t@ == trim(s@),
                t@.len() > 0,
                key@.len() > 0,
                key@ == parts@[last as int]@,
                parts@.len() == split_char(t@, '-').len(),
                forall|j: int| 0 <= j < parts@.len() ==> #[trigger] parts@[j]@ == split_char(t@, '-')[j],
                last == parts@.len() - 1,
                i <= last,
                bits < 8,
                mods_of(split_char(t@, '-').take(i as int)) == Some(bits),
            decreases last - i,
        {
            let ghost ps = split_char(t@, '-');
            proof {
                assert(ps.take(i + 1).drop_last() =~= ps.take(i as int));
                assert(ps.take(i + 1).last() == ps[i as int]);
            }
            let f = mod_word_flag(&parts[i]);
            match f {
                Some(flag) => {
                    if (bits / flag) % 2 != 1 {
                        bits = bits + flag;
                    }
                },
                None => {
                    proof {
                        assert(mods_of(ps.take(i + 1)) is None);
                        lemma_mods_none_extends(ps, i as int + 1, last as int);
                        assert(ps.take(last as int) =~= ps.drop_last());
                        assert(mods_of(ps.drop_last()) is None);
                    }
                    return None;
                },
            }
            i = i + 1;
        }
        proof {
            let ps = split_char(t@, '-');
            assert(ps.take(last as int) =~= ps.drop_last());
            assert(key@ == ps.last());
        }
        match parse_key_token(key) {
            Some(code) => Some(KeyChord { code, mods: KeyModifiers { bits } }),
            None => None,
        }
    }

    /// True if `ev` is this chord. Only the alt/ctrl/shift bits are compared, so
    /// platform-specific extras in the event don't defeat a match.
    pub fn matches(&self, ev: &KeyEvent) -> (r: bool)
        ensures
            r == chord_matches(*self, *ev),
    {
        ev.code == self.code && ev.modifiers.bits % 8 == self.mods.bits
    }
}

/// Once a prefix of modifier words holds an unknown word, every longer prefix does.
proof fn lemma_mods_none_extends(ps: Seq<Seq<char>>, i: int, n: int)
    requires
        0 <= i <= n <= ps.len(),
        mods_of(ps.take(i)) is None,
    ensures
        mods_of(ps.take(n)) is None,
    decreases n - i,
{
    if i < n {
        assert(ps.take(i + 1).drop_last() =~= ps.take(i));
        lemma_mods_none_extends(ps, i + 1, n);
    }
}

/// The flag a modifier word names.
fn mod_word_flag(m: &Vec<char>) -> (r: Option<u8>)
    ensures
        r == mod_flag(m@),
        r matches Some(f) ==> (f == 1 || f == 2 || f == 4),
{
    let l = lower_chars(m);
    if eq_lit(&l, "alt") || eq_lit(&l, "meta") || eq_lit(&l, "m") {
        Some(4)
    } else if eq_lit(&l, "ctrl") || eq_lit(&l, "control") || eq_lit(&l, "c") {
        Some(2)
    } else if eq_lit(&l, "shift") || eq_lit(&l, "s") {
        Some(1)
    } else {
        None
    }
}

/// The key a non-empty key token names.
fn parse_key_token(tok: &Vec<char>) -> (r: Option<KeyCode>)
    ensures
        r == key_token(tok@),
{
    let l = lower_chars(tok);
    if eq_lit(&l, "enter") || eq_lit(&l, "return") || eq_lit(&l, "ret") {
        Some(KeyCode::Enter)
    } else if eq_lit(&l, "esc") || eq_lit(&l, "escape") {
        Some(KeyCode::Esc)
    } else if eq_lit(&l, "up") {
        Some(KeyCode::Up)
    } else if eq_lit(&l, "down") {
        Some(KeyCode::Down)
    } else if eq_lit(&l, "left") {
        Some(KeyCode::Left)
    } else if eq_lit(&l, "right") {
        Some(KeyCode::Right)
    } else if eq_lit(&l, "home") {
        Some(KeyCode::Home)
    } else if eq_lit(&l, "end") {
        Some(KeyCode::End)
    } else if eq_lit(&l, "pageup") {
        Some(KeyCode::PageUp)
    } else if eq_lit(&l, "pagedown") {
        Some(KeyCode::PageDown)
    } else if eq_lit(&l, "tab") {
        Some(KeyCode::Tab)
    } else if eq_lit(&l, "backspace") || eq_lit(&l, "bs") {
        Some(KeyCode::Backspace)
    } else if eq_lit(&l, "delete") || eq_lit(&l, "del") {
        Some(KeyCode::Delete)
    } else if eq_lit(&l, "space") {
        Some(KeyCode::Char(' '))
    } else if tok.len() == 1 {
        Some(KeyCode::Char(tok[0]))
    } else {
        None
    }
}

/// The full set of action bindings. Defaults reproduce the legacy chords.
#[derive(Debug, Clone, Copy, PartialEq, Eq, Structural)]
pub struct KeyBindings {
    pub select: KeyChord,
    pub open: KeyChord,
    pub agent: KeyChord,
    pub new: KeyChord,
    pub forget: KeyChord,
    pub up: KeyChord,
    pub down: KeyChord,
    pub abort: KeyChord,
}

/// The actions in priority order: the order `resolve` tries them in.
pub open spec fn action_order() -> Seq<Action> {
    seq![
        Action::Select,
        Action::Open,
        Action::Agent,
        Action::New,
        Action::Forget,
        Action::Up,
        Action::Down,
        Action::Abort,
    ]
}

/// The chord bound to the action of rank `i` in `action_order`.
pub open spec fn chord_at(kb: KeyBindings, i: int) -> KeyChord {
    if i == 0 {
        kb.select
    } else if i == 1 {
        kb.open
    } else if i == 2 {
        kb.agent
    } else if i == 3 {
        kb.new
    } else if i == 4 {
        kb.forget
    } else if i == 5 {
        kb.up
    } else if i == 6 {
        kb.down
    } else {
        kb.abort
    }
}

/// The first action of rank `i` or later whose chord matches `ev`.
pub open spec fn first_match_from(kb: KeyBindings, ev: KeyEvent, i: int) -> Option<Action>
    decreases 8 - i,
{
    if i < 0 || i >= 8 {
        None
    } else if chord_matches(chord_at(kb, i), ev) {
        Some(action_order()[i])
    } else {
        first_match_from(kb, ev, i + 1)
    }
}

/// The action `ev` resolves to: the highest-priority action whose chord matches.
pub open spec fn resolve_action(kb: KeyBindings, ev: KeyEvent) -> Option<Action> {
    first_match_from(kb, ev, 0)
}

/// The legacy bindings: enter, alt-o, alt-a, alt-n, alt-d, ctrl-p, ctrl-n, esc.
pub open spec fn default_bindings() -> KeyBindings {
    KeyBindings {
        select: KeyChord { code: KeyCode::Enter, mods: KeyModifiers { bits: 0 } },
        open: KeyChord { code: KeyCode::Char('o'), mods: KeyModifiers { bits: 4 } },
        agent: KeyChord { code: KeyCode::Char('a'), mods: KeyModifiers { bits: 4 } },
        new: KeyChord { code: KeyCode::Char('n'), mods: KeyModifiers { bits: 4 } },
        forget: KeyChord { code: KeyCode::Char('d'), mods: KeyModifiers { bits: 4 } },
        up: KeyChord { code: KeyCode::Char('p'), mods: KeyModifiers { bits: 2 } },
        down: KeyChord { code: KeyCode::Char('n'), mods: KeyModifiers { bits: 2 } },
        abort: KeyChord { code: KeyCode::Esc, mods: KeyModifiers { bits: 0 } },
    }
}

impl Default for KeyBindings {
    fn default() -> (r: Self)
        ensures
            r == default_bindings(),
    {
        KeyBindings {
            select: KeyChord { code: KeyCode::Enter, mods: KeyModifiers { bits: 0 } },
            open: KeyChord { code: KeyCode::Char('o'), mods: KeyModifiers { bits: 4 } },
            agent: KeyChord { code: KeyCode::Char('a'), mods: KeyModifiers { bits: 4 } },
            new: KeyChord { code: KeyCode::Char('n'), mods: KeyModifiers { bits: 4 } },
            forget: KeyChord { code: KeyCode::Char('d'), mods: KeyModifiers { bits: 4 } },
            up: KeyChord { code: KeyCode::Char('p'), mods: KeyModifiers { bits: 2 } },
            down: KeyChord { code: KeyCode::Char('n'), mods: KeyModifiers { bits: 2 } },
            abort: KeyChord { code: KeyCode::Esc, mods: KeyModifiers { bits: 0 } },
        }
    }
}

/// The configuration word naming an action in the `[keys]` table.
pub fn action_name(a: Action) -> (r: &'static str)
    ensures
        r@ == action_name_spec(a),
{
    match a {
        Action::Select => "select",
        Action::Open => "open",
        Action::Agent => "agent",
        Action::New => "new",
        Action::Forget => "forget",
        Action::Up => "up",
        Action::Down => "down",
        Action::Abort => "abort",
    }
}

/// The configuration word naming an action.
pub open spec fn action_name_spec(a: Action) -> Seq<char> {
    match a {
        Action::Select => "select"@,
        Action::Open => "open"@,
        Action::Agent => "agent"@,
        Action::New => "new"@,
        Action::Forget => "forget"@,
        Action::Up => "up"@,
        Action::Down => "down"@,
        Action::Abort => "abort"@,
    }
}

/// Pairs `(action_order[i], action_order[j])`, `i < j < end`, bound to the same chord,
/// for one fixed `i`, in increasing `j`.
pub open spec fn conflicts_with(kb: KeyBindings, i: int, end: int) -> Seq<(Action, Action)>
    decreases end - i,
{
    if end <= i + 1 {
        Seq::empty()
    } else {
        let init = conflicts_with(kb, i, end - 1);
        if chord_at(kb, i) == chord_at(kb, end - 1) {
            init.push((action_order()[i], action_order()[end - 1]))
        } else {
            init
        }
    }
}

/// All pairs of actions (earlier first) that share a chord, ordered by the
/// earlier action's rank and then the later one's, over ranks below `end`.
pub open spec fn conflicts_below(kb: KeyBindings, end: int) -> Seq<(Action, Action)>
    decreases end,
{
    if end <= 0 {
        Seq::empty()
    } else {
        conflicts_below(kb, end - 1) + conflicts_with(kb, end - 1, 8)
    }
}

impl KeyBindings {
    /// The chord bound to the action of rank `i`.
    pub fn chord(&self, i: usize) -> (r: KeyChord)
        requires
            i < 8,
        ensures
            r == chord_at(*self, i as int),
    {
        if i == 0 {
            self.select
        } else if i == 1 {
            self.open
        } else if i == 2 {
            self.agent
        } else if i == 3 {
            self.new
        } else if i == 4 {
            self.forget
        } else if i == 5 {
            self.up
        } else if i == 6 {
            self.down
        } else {
            self.abort
        }
    }

    /// Resolve a key event to its bound action, or `None` if unbound (the caller
    /// then tries the fixed universal keys).
    pub fn resolve(&self, ev: &KeyEvent) -> (r: Option<Action>)
        ensures
            r == resolve_action(*self, *ev),
    {
        let mut i: usize = 0;
        while i < 8
            invariant
                i <= 8,
                resolve_action(*self, *ev) == first_match_from(*self, *ev, i as int),
            decreases 8 - i,
        {
            if self.chord(i).matches(ev) {
                return Some(action_at(i));
            }
            i = i + 1;
        }
        None
    }

    /// Pairs of actions bound to the same chord (the earlier one wins in
    /// `resolve`), so that a caller can warn about them.
    pub fn conflicts(&self) -> (r: Vec<(Action, Action)>)
        ensures
            r@ == conflicts_below(*self, 8),
    {
        let mut r: Vec<(Action, Action)> = Vec::new();
        let mut i: usize = 0;
        while i < 8
            invariant
                i <= 8,
                r@ == conflicts_below(*self, i as int),
            decreases 8 - i,
        {
            let ghost before = r@;
            let mut j: usize = i + 1;
            while j < 8
                invariant
                    i < 8,
                    i + 1 <= j <= 8,
                    r@ == before + conflicts_with(*self, i as int, j as int),
                decreases 8 - j,
            {
                if self.chord(i) == self.chord(j) {
                    r.push((action_at(i), action_at(j)));
                }
                j = j + 1;
            }
            i = i + 1;
        }
        r
    }
}

/// The action of rank `i`.
pub fn action_at(i: usize) -> (r: Action)
    requires
        i < 8,
    ensures
        r == action_order()[i as int],
{
    if i == 0 {
        Action::Select
    } else if i == 1 {
        Action::Open
    } else if i == 2 {
        Action::Agent
    } else if i == 3 {
        Action::New
    } else if i == 4 {
        Action::Forget
    } else if i == 5 {
        Action::Up
    } else if i == 6 {
        Action::Down
    } else {
        Action::Abort
    }
}

/// Raw `[keys]` table: each action is an optional key-string. Resolved into
/// `KeyBindings` with per-field fallback so one bad binding doesn't discard the rest.
#[derive(Debug, Clone, Default)]
pub struct RawKeyBindings {
    pub select: Option<String>,
    pub open: Option<String>,
    pub agent: Option<String>,
    pub new: Option<String>,
    pub forget: Option<String>,
    pub up: Option<String>,
    pub down: Option<String>,
    pub abort: Option<String>,
}

/// The key-string given for the action of rank `i`.
pub open spec fn raw_at(raw: RawKeyBindings, i: int) -> Option<String> {
    if i == 0 {
        raw.select
    } else if i == 1 {
        raw.open
    } else if i == 2 {
        raw.agent
    } else if i == 3 {
        raw.new
    } else if i == 4 {
        raw.forget
    } else if i == 5 {
        raw.up
    } else if i == 6 {
        raw.down
    } else {
        raw.abort
    }
}

/// The chord for one action: the given key-string if it parses, else the default.
pub open spec fn pick_chord(opt: Option<String>, d: KeyChord) -> KeyChord {
    match opt {
        Some(s) => match parse_chord(s@) {
            Some(c) => c,
            None => d,
        },
        None => d,
    }
}

/// The bindings a raw table resolves to, field by field.
pub open spec fn bindings_from_raw(raw: RawKeyBindings) -> KeyBindings {
    let d = default_bindings();
    KeyBindings {
        select: pick_chord(raw.select, d.select),
        open: pick_chord(raw.open, d.open),
        agent: pick_chord(raw.agent, d.agent),
        new: pick_chord(raw.new, d.new),
        forget: pick_chord(raw.forget, d.forget),
        up: pick_chord(raw.up, d.up),
        down: pick_chord(raw.down, d.down),
        abort: pick_chord(raw.abort, d.abort),
    }
}

/// The given key-strings of ranks below `end` that do not parse, in rank order.
pub open spec fn rejected_below(raw: RawKeyBindings, end: int) -> Seq<(Action, Seq<char>)>
    decreases end,
{
    if end <= 0 {
        Seq::empty()
    } else {
        let init = rejected_below(raw, end - 1);
        match raw_at(raw, end - 1) {
            Some(s) => if parse_chord(s@) is None {
                init.push((action_order()[end - 1], s@))
            } else {
                init
            },
            None => init,
        }
    }
}

fn pick(opt: &Option<String>, d: KeyChord) -> (r: KeyChord)
    ensures
        r == pick_chord(*opt, d),
{
    match opt {
        Some(s) => match KeyChord::parse(s.as_str()) {
            Some(c) => c,
            None => d,
        },
        None => d,
    }
}

impl RawKeyBindings {
    /// The key-string given for the action of rank `i`.
    pub fn field(&self, i: usize) -> (r: &Option<String>)
        requires
            i < 8,
        ensures
            *r == raw_at(*self, i as int),
    {
        if i == 0 {
            &self.select
        } else if i == 1 {
            &self.open
        } else if i == 2 {
            &self.agent
        } else if i == 3 {
            &self.new
        } else if i == 4 {
            &self.forget
        } else if i == 5 {
            &self.up
        } else if i == 6 {
            &self.down
        } else {
            &self.abort
        }
    }

    /// The key-strings that do not parse (and so fall back to the default), with
    /// their actions, in priority order: what a caller warns about.
    pub fn rejected(&self) -> (r: Vec<(Action, String)>)
        ensures
            r@.len() == rejected_below(*self, 8).len(),
            forall|k: int|
                0 <= k < r@.len() ==> (#[trigger] r@[k]).0 == rejected_below(*self, 8)[k].0
                    && r@[k].1@ == rejected_below(*self, 8)[k].1,
    {
        let mut r: Vec<(Action, String)> = Vec::new();
        let mut i: usize = 0;
        while i < 8
            invariant
                i <= 8,
                r@.len() == rejected_below(*self, i as int).len(),
                forall|k: int|
                    0 <= k < r@.len() ==> (#[trigger] r@[k]).0 == rejected_below(*self, i as int)[k].0
                        && r@[k].1@ == rejected_below(*self, i as int)[k].1,
            decreases 8 - i,
        {
            match self.field(i) {
                Some(s) => {
                    if KeyChord::parse(s.as_str()).is_none() {
                        r.push((action_at(i), s.clone()));
                    }
                },
                None => {},
            }
            i = i + 1;
        }
        r
    }
}

impl KeyBindings {
    /// Resolve a raw table: each action takes its key-string's chord when that
    /// parses, and keeps its default otherwise.
    pub fn from_raw(raw: RawKeyBindings) -> (kb: KeyBindings)
        ensures
            kb == bindings_from_raw(raw),
    {
        let d = KeyBindings::default();
        KeyBindings {
            select: pick(&raw.select, d.select),
            open: pick(&raw.open, d.open),
            agent: pick(&raw.agent, d.agent),
            new: pick(&raw.new, d.new),
            forget: pick(&raw.forget, d.forget),
            up: pick(&raw.up, d.up),
            down: pick(&raw.down, d.down),
            abort: pick(&raw.abort, d.abort),
        }
    }
}

impl From<RawKeyBindings> for KeyBindings {
    fn from(raw: RawKeyBindings) -> (kb: KeyBindings) {
        KeyBindings::from_raw(raw)
    }
}

impl vstd::std_specs::convert::FromSpecImpl<RawKeyBindings> for KeyBindings {
    open spec fn obeys_from_spec() -> bool {
        true
    }

    open spec fn from_spec(raw: RawKeyBindings) -> KeyBindings {
        bindings_from_raw(raw)
    }
}

/// The action a key event resolves to is the one of lowest rank whose chord
/// matches it: its own chord matches and no earlier chord does.
pub proof fn law_resolve_takes_first_match(kb: KeyBindings, ev: KeyEvent, j: int)
    requires
        0 <= j < 8,
        resolve_action(kb, ev) == Some(action_order()[j]),
    ensures
        chord_matches(chord_at(kb, j), ev),
        forall|i: int| 0 <= i < j ==> !chord_matches(#[trigger] chord_at(kb, i), ev),
{
    lemma_first_match_from(kb, ev, 0, j);
}

proof fn lemma_first_match_from(kb: KeyBindings, ev: KeyEvent, k: int, j: int)
    requires
        0 <= k <= j < 8,
        first_match_from(kb, ev, k) == Some(action_order()[j]),
    ensures
        chord_matches(chord_at(kb, j), ev),
        forall|i: int| k <= i < j ==> !chord_matches(#[trigger] chord_at(kb, i), ev),
    decreases j - k,
{
    assert(action_order().len() == 8);
    if chord_matches(chord_at(kb, k), ev) {
        if k != j {
            assert(action_order()[k] != action_order()[j]);
        }
    } else if k == j {
        lemma_first_match_rank(kb, ev, k + 1, j);
    } else {
        lemma_first_match_from(kb, ev, k + 1, j);
    }
}

proof fn lemma_first_match_rank(kb: KeyBindings, ev: KeyEvent, m: int, j: int)
    requires
        0 <= j < m,
    ensures
        first_match_from(kb, ev, m) != Some(action_order()[j]),
    decreases 8 - m,
{
    if m < 8 {
        assert(action_order()[m] != action_order()[j]);
        lemma_first_match_rank(kb, ev, m + 1, j);
    }
}

/// When two actions share a chord, the later one is unreachable: no key event
/// resolves to it.
pub proof fn law_shared_chord_earlier_wins(kb: KeyBindings, ev: KeyEvent, i: int, j: int)
    requires
        0 <= i < j < 8,
        chord_at(kb, i) == chord_at(kb, j),
    ensures
        resolve_action(kb, ev) != Some(action_order()[j]),
{
    if resolve_action(kb, ev) == Some(action_order()[j]) {
        law_resolve_takes_first_match(kb, ev, j);
        assert(!chord_matches(chord_at(kb, i), ev));
    }
}

/// Matching looks only at the key and the alt/ctrl/shift bits: two events that
/// agree on those match the same chords.
pub proof fn law_matches_ignores_other_modifiers(chord: KeyChord, a: KeyEvent, b: KeyEvent)
    requires
        a.code == b.code,
        a.modifiers.bits % 8 == b.modifiers.bits % 8,
    ensures
        chord_matches(chord, a) == chord_matches(chord, b),
{
}

/// Surrounding white space does not change what a key-string parses to.
pub proof fn law_parse_ignores_surrounding_space(s: Seq<char>)
    ensures
        parse_chord(trim(s)) == parse_chord(s),
{
    lemma_trim_idempotent(s);
}

/// Each action takes the chord its key-string in the `[keys]` table parses to;
/// only an absent or unparsable key-string keeps the action's default chord.
pub proof fn law_raw_binding_sets_its_action(raw: RawKeyBindings, i: int)
    requires
        0 <= i < 8,
    ensures
        match raw_at(raw, i) {
            Some(t) => match parse_chord(t@) {
                Some(c) => chord_at(bindings_from_raw(raw), i) == c,
                None => chord_at(bindings_from_raw(raw), i) == chord_at(default_bindings(), i),
            },
            None => chord_at(bindings_from_raw(raw), i) == chord_at(default_bindings(), i),
        },
{
    if i == 0 {
    } else if i == 1 {
    } else if i == 2 {
    } else if i == 3 {
    } else if i == 4 {
    } else if i == 5 {
    } else if i == 6 {
    } else {
    }
}

/// A key with no modifiers.
pub open spec fn bare(code: KeyCode) -> KeyChord {
    KeyChord { code, mods: KeyModifiers { bits: 0 } }
}

/// A key-string whose lower-cased text is a word of lower-case letters parses
/// as that word's key token, with no modifiers.
proof fn lemma_word_token(s: Seq<char>, w: Seq<char>)
    requires
        lower(s) == w,
        w.len() > 0,
        forall|i: int| 0 <= i < w.len() ==> 'a' <= #[trigger] w[i] <= 'z',
    ensures
        parse_chord(s) == (match key_token(s) {
            Some(c) => Some(bare(c)),
            None => None,
        }),
{
    assert forall|i: int| 0 <= i < s.len() implies !crate::text::is_ws(#[trigger] s[i]) && s[i] != '-' by {
        assert(lower(s)[i] == crate::text::lower_char(s[i]));
        assert('a' <= w[i] <= 'z');
    }
    assert(!crate::text::is_ws(s[0]));
    assert(crate::text::trim_start(s) == s);
    assert(!crate::text::is_ws(s.last()));
    assert(crate::text::trim_end(s) == s);
    crate::text::lemma_split_none(s, '-');
    let parts = split_char(s, '-');
    assert(parts.drop_last() =~= Seq::<Seq<char>>::empty());
    assert(mods_of(parts.drop_last()) == Some(0u8));
}

#[verifier::spinoff_prover]
proof fn lemma_token_0(s: Seq<char>)
    requires
        lower(s) == "enter"@,
    ensures
        parse_chord(s) == Some(bare(KeyCode::Enter)),
{
    reveal_strlit("enter");
    lemma_word_token(s, "enter"@);
    assert(("enter"@).len() == 5);
    assert(key_token(s) == Some(KeyCode::Enter));
}

#[verifier::spinoff_prover]
proof fn lemma_token_1(s: Seq<char>)
    requires
        lower(s) == "return"@,
    ensures
        parse_chord(s) == Some(bare(KeyCode::Enter)),
{
    reveal_strlit("return");
    reveal_strlit("enter");
    lemma_word_token(s, "return"@);
    assert(("return"@).len() == 6);
    assert(("enter"@).len() == 5);
    assert(lower(s) != "enter"@);
    assert(key_token(s) == Some(KeyCode::Enter));
}

#[verifier::spinoff_prover]
proof fn lemma_token_2(s: Seq<char>)
    requires
        lower(s) == "ret"@,
    ensures
        parse_chord(s) == Some(bare(KeyCode::Enter)),
{
    reveal_strlit("ret");
    reveal_strlit("enter");
    reveal_strlit("return");
    lemma_word_token(s, "ret"@);
    assert(("ret"@).len() == 3);
    assert(("enter"@).len() == 5);
    assert(lower(s) != "enter"@);
    assert(("return"@).len() == 6);
    assert(lower(s) != "return"@);
    assert(key_token(s) == Some(KeyCode::Enter));
}

#[verifier::spinoff_prover]
proof fn lemma_token_3(s: Seq<char>)
    requires
        lower(s) == "esc"@,
    ensures
        parse_chord(s) == Some(bare(KeyCode::Esc)),
{
    reveal_strlit("esc");
    reveal_strlit("enter");
    reveal_strlit("return");
    reveal_strlit("ret");
    lemma_word_token(s, "esc"@);
    assert(("esc"@).len() == 3);
    assert(("enter"@).len() == 5);
    assert(lower(s) != "enter"@);
    assert(("return"@).len() == 6);
    assert(lower(s) != "return"@);
    assert(("esc"@)[0] != ("ret"@)[0]);
    assert(lower(s) != "ret"@);
    assert(key_token(s) == Some(KeyCode::Esc));
}

#[verifier::spinoff_prover]
proof fn lemma_token_4(s: Seq<char>)
    requires
        lower(s) == "escape"@,
    ensures
        parse_chord(s) == Some(bare(KeyCode::Esc)),
{
    reveal_strlit("escape");
    reveal_strlit("enter");
    reveal_strlit("return");
    reveal_strlit("ret");
    reveal_strlit("esc");
    lemma_word_token(s, "escape"@);
    assert(("escape"@).len() == 6);
    assert(("enter"@).len() == 5);
    assert(lower(s) != "enter"@);
    assert(("escape"@)[0] != ("return"@)[0]);
    assert(lower(s) != "return"@);
    assert(("ret"@).len() == 3);
    assert(lower(s) != "ret"@);
    assert(("esc"@).len() == 3);
    assert(lower(s) != "esc"@);
    assert(key_token(s) == Some(KeyCode::Esc));
}

#[verifier::spinoff_prover]
proof fn lemma_token_5(s: Seq<char>)
    requires
        lower(s) == "up"@,
    ensures
        parse_chord(s) == Some(bare(KeyCode::Up)),
{
    reveal_strlit("up");
    reveal_strlit("enter");
    reveal_strlit("return");
    reveal_strlit("ret");
    reveal_strlit("esc");
    reveal_strlit("escape");
    lemma_word_token(s, "up"@);
    assert(("up"@).len() == 2);
    assert(("enter"@).len() == 5);
    assert(lower(s) != "enter"@);
    assert(("return"@).len() == 6);
    assert(lower(s) != "return"@);
    assert(("ret"@).len() == 3);
    assert(lower(s) != "ret"@);
    assert(("esc"@).len() == 3);
    assert(lower(s) != "esc"@);
    assert(("escape"@).len() == 6);
    assert(lower(s) != "escape"@);
    assert(key_token(s) == Some(KeyCode::Up));
}

#[verifier::spinoff_prover]
proof fn lemma_token_6(s: Seq<char>)
    requires
        lower(s) == "down"@,
    ensures
        parse_chord(s) == Some(bare(KeyCode::Down)),
{
    reveal_strlit("down");
    reveal_strlit("enter");
    reveal_strlit("return");
    reveal_strlit("ret");
    reveal_strlit("esc");
    reveal_strlit("escape");
    reveal_strlit("up");
    lemma_word_token(s, "down"@);
    assert(("down"@).len() == 4);
    assert(("enter"@).len() == 5);
    assert(lower(s) != "enter"@);
    assert(("return"@).len() == 6);
    assert(lower(s) != "return"@);
    assert(("ret"@).len() == 3);
    assert(lower(s) != "ret"@);
    assert(("esc"@).len() == 3);
    assert(lower(s) != "esc"@);
    assert(("escape"@).len() == 6);
    assert(lower(s) != "escape"@);
    assert(("up"@).len() == 2);
    assert(lower(s) != "up"@);
    assert(key_token(s) == Some(KeyCode::Down));
}

#[verifier::spinoff_prover]
proof fn lemma_token_7(s: Seq<char>)
    requires
        lower(s) == "left"@,
    ensures
        parse_chord(s) == Some(bare(KeyCode::Left)),
{
    reveal_strlit("left");
    reveal_strlit("enter");
    reveal_strlit("return");
    reveal_strlit("ret");
    reveal_strlit("esc");
    reveal_strlit("escape");
    reveal_strlit("up");
    reveal_strlit("down");
    lemma_word_token(s, "left"@);
    assert(("left"@).len() == 4);
    assert(("enter"@).len() == 5);
    assert(lower(s) != "enter"@);
    assert(("return"@).len() == 6);
    assert(lower(s) != "return"@);
    assert(("ret"@).len() == 3);
    assert(lower(s) != "ret"@);
    assert(("esc"@).len() == 3);
    assert(lower(s) != "esc"@);
    assert(("escape"@).len() == 6);
    assert(lower(s) != "escape"@);
    assert(("up"@).len() == 2);
    assert(lower(s) != "up"@);
    assert(("left"@)[0] != ("down"@)[0]);
    assert(lower(s) != "down"@);
    assert(key_token(s) == Some(KeyCode::Left));
}

#[verifier::spinoff_prover]
proof fn lemma_token_8(s: Seq<char>)
    requires
        lower(s) == "right"@,
    ensures
        parse_chord(s) == Some(bare(KeyCode::Right)),
{
    reveal_strlit("right");
    reveal_strlit("enter");
    reveal_strlit("return");
    reveal_strlit("ret");
    reveal_strlit("esc");
    reveal_strlit("escape");
    reveal_strlit("up");
    reveal_strlit("down");
    reveal_strlit("left");
    lemma_word_token(s, "right"@);
    assert(("right"@).len() == 5);
    assert(("right"@)[0] != ("enter"@)[0]);
    assert(lower(s) != "enter"@);
    assert(("return"@).len() == 6);
    assert(lower(s) != "return"@);
    assert(("ret"@).len() == 3);
    assert(lower(s) != "ret"@);
    assert(("esc"@).len() == 3);
    assert(lower(s) != "esc"@);
    assert(("escape"@).len() == 6);
    assert(lower(s) != "escape"@);
    assert(("up"@).len() == 2);
    assert(lower(s) != "up"@);
    assert(("down"@).len() == 4);
    assert(lower(s) != "down"@);
    assert(("left"@).len() == 4);
    assert(lower(s) != "left"@);
    assert(key_token(s) == Some(KeyCode::Right));
}

#[verifier::spinoff_prover]
proof fn lemma_token_9(s: Seq<char>)
    requires
        lower(s) == "home"@,
    ensures
        parse_chord(s) == Some(bare(KeyCode::Home)),
{
    reveal_strlit("home");
    reveal_strlit("enter");
    reveal_strlit("return");
    reveal_strlit("ret");
    reveal_strlit("esc");
    reveal_strlit("escape");
    reveal_strlit("up");
    reveal_strlit("down");
    reveal_strlit("left");
    reveal_strlit("right");
    lemma_word_token(s, "home"@);
    assert(("home"@).len() == 4);
    assert(("enter"@).len() == 5);
    assert(lower(s) != "enter"@);
    assert(("return"@).len() == 6);
    assert(lower(s) != "return"@);
    assert(("ret"@).len() == 3);
    assert(lower(s) != "ret"@);
    assert(("esc"@).len() == 3);
    assert(lower(s) != "esc"@);
    assert(("escape"@).len() == 6);
    assert(lower(s) != "escape"@);
    assert(("up"@).len() == 2);
    assert(lower(s) != "up"@);
    assert(("home"@)[0] != ("down"@)[0]);
    assert(lower(s) != "down"@);
    assert(("home"@)[0] != ("left"@)[0]);
    assert(lower(s) != "left"@);
    assert(("right"@).len() == 5);
    assert(lower(s) != "right"@);
    assert(key_token(s) == Some(KeyCode::Home));
}

#[verifier::spinoff_prover]
proof fn lemma_token_10(s: Seq<char>)
    requires
        lower(s) == "end"@,
    ensures
        parse_chord(s) == Some(bare(KeyCode::End)),
{
    reveal_strlit("end");
    reveal_strlit("enter");
    reveal_strlit("return");
    reveal_strlit("ret");
    reveal_strlit("esc");
    reveal_strlit("escape");
    reveal_strlit("up");
    reveal_strlit("down");
    reveal_strlit("left");
    reveal_strlit("right");
    reveal_strlit("home");
    lemma_word_token(s, "end"@);
    assert(("end"@).len() == 3);
    assert(("enter"@).len() == 5);
    assert(lower(s) != "enter"@);
    assert(("return"@).len() == 6);
    assert(lower(s) != "return"@);
    assert(("end"@)[0] != ("ret"@)[0]);
    assert(lower(s) != "ret"@);
    assert(("end"@)[1] != ("esc"@)[1]);
    assert(lower(s) != "esc"@);
    assert(("escape"@).len() == 6);
    assert(lower(s) != "escape"@);
    assert(("up"@).len() == 2);
    assert(lower(s) != "up"@);
    assert(("down"@).len() == 4);
    assert(lower(s) != "down"@);
    assert(("left"@).len() == 4);
    assert(lower(s) != "left"@);
    assert(("right"@).len() == 5);
    assert(lower(s) != "right"@);
    assert(("home"@).len() == 4);
    assert(lower(s) != "home"@);
    assert(key_token(s) == Some(KeyCode::End));
}

#[verifier::spinoff_prover]
proof fn lemma_token_11(s: Seq<char>)
    requires
        lower(s) == "pageup"@,
    ensures
        parse_chord(s) == Some(bare(KeyCode::PageUp)),
{
    reveal_strlit("pageup");
    reveal_strlit("enter");
    reveal_strlit("return");
    reveal_strlit("ret");
    reveal_strlit("esc");
    reveal_strlit("escape");
    reveal_strlit("up");
    reveal_strlit("down");
    reveal_strlit("left");
    reveal_strlit("right");
    reveal_strlit("home");
    reveal_strlit("end");
    lemma_word_token(s, "pageup"@);
    assert(("pageup"@).len() == 6);
    assert(("enter"@).len() == 5);
    assert(lower(s) != "enter"@);
    assert(("pageup"@)[0] != ("return"@)[0]);
    assert(lower(s) != "return"@);
    assert(("ret"@).len() == 3);
    assert(lower(s) != "ret"@);
    assert(("esc"@).len() == 3);
    assert(lower(s) != "esc"@);
    assert(("pageup"@)[0] != ("escape"@)[0]);
    assert(lower(s) != "escape"@);
    assert(("up"@).len() == 2);
    assert(lower(s) != "up"@);
    assert(("down"@).len() == 4);
    assert(lower(s) != "down"@);
    assert(("left"@).len() == 4);
    assert(lower(s) != "left"@);
    assert(("right"@).len() == 5);
    assert(lower(s) != "right"@);
    assert(("home"@).len() == 4);
    assert(lower(s) != "home"@);
    assert(("end"@).len() == 3);
    assert(lower(s) != "end"@);
    assert(key_token(s) == Some(KeyCode::PageUp));
}

#[verifier::spinoff_prover]
proof fn lemma_token_12(s: Seq<char>)
    requires
        lower(s) == "pagedown"@,
    ensures
        parse_chord(s) == Some(bare(KeyCode::PageDown)),
{
    reveal_strlit("pagedown");
    reveal_strlit("enter");
    reveal_strlit("return");
    reveal_strlit("ret");
    reveal_strlit("esc");
    reveal_strlit("escape");
    reveal_strlit("up");
    reveal_strlit("down");
    reveal_strlit("left");
    reveal_strlit("right");
    reveal_strlit("home");
    reveal_strlit("end");
    reveal_strlit("pageup");
    lemma_word_token(s, "pagedown"@);
    assert(("pagedown"@).len() == 8);
    assert(("enter"@).len() == 5);
    assert(lower(s) != "enter"@);
    assert(("return"@).len() == 6);
    assert(lower(s) != "return"@);
    assert(("ret"@).len() == 3);
    assert(lower(s) != "ret"@);
    assert(("esc"@).len() == 3);
    assert(lower(s) != "esc"@);
    assert(("escape"@).len() == 6);
    assert(lower(s) != "escape"@);
    assert(("up"@).len() == 2);
    assert(lower(s) != "up"@);
    assert(("down"@).len() == 4);
    assert(lower(s) != "down"@);
    assert(("left"@).len() == 4);
    assert(lower(s) != "left"@);
    assert(("right"@).len() == 5);
    assert(lower(s) != "right"@);
    assert(("home"@).len() == 4);
    assert(lower(s) != "home"@);
    assert(("end"@).len() == 3);
    assert(lower(s) != "end"@);
    assert(("pageup"@).len() == 6);
    assert(lower(s) != "pageup"@);
    assert(key_token(s) == Some(KeyCode::PageDown));
}

#[verifier::spinoff_prover]
proof fn lemma_token_13(s: Seq<char>)
    requires
        lower(s) == "tab"@,
    ensures
        parse_chord(s) == Some(bare(KeyCode::Tab)),
{
    reveal_strlit("tab");
    reveal_strlit("enter");
    reveal_strlit("return");
    reveal_strlit("ret");
    reveal_strlit("esc");
    reveal_strlit("escape");
    reveal_strlit("up");
    reveal_strlit("down");
    reveal_strlit("left");
    reveal_strlit("right");
    reveal_strlit("home");
    reveal_strlit("end");
    reveal_strlit("pageup");
    reveal_strlit("pagedown");
    lemma_word_token(s, "tab"@);
    assert(("tab"@).len() == 3);
    assert(("enter"@).len() == 5);
    assert(lower(s) != "enter"@);
    assert(("return"@).len() == 6);
    assert(lower(s) != "return"@);
    assert(("tab"@)[0] != ("ret"@)[0]);
    assert(lower(s) != "ret"@);
    assert(("tab"@)[0] != ("esc"@)[0]);
    assert(lower(s) != "esc"@);
    assert(("escape"@).len() == 6);
    assert(lower(s) != "escape"@);
    assert(("up"@).len() == 2);
    assert(lower(s) != "up"@);
    assert(("down"@).len() == 4);
    assert(lower(s) != "down"@);
    assert(("left"@).len() == 4);
    assert(lower(s) != "left"@);
    assert(("right"@).len() == 5);
    assert(lower(s) != "right"@);
    assert(("home"@).len() == 4);
    assert(lower(s) != "home"@);
    assert(("tab"@)[0] != ("end"@)[0]);
    assert(lower(s) != "end"@);
    assert(("pageup"@).len() == 6);
    assert(lower(s) != "pageup"@);
    assert(("pagedown"@).len() == 8);
    assert(lower(s) != "pagedown"@);
    assert(key_token(s) == Some(KeyCode::Tab));
}

#[verifier::spinoff_prover]
proof fn lemma_token_14(s: Seq<char>)
    requires
        lower(s) == "backspace"@,
    ensures
        parse_chord(s) == Some(bare(KeyCode::Backspace)),
{
    reveal_strlit("backspace");
    reveal_strlit("enter");
    reveal_strlit("return");
    reveal_strlit("ret");
    reveal_strlit("esc");
    reveal_strlit("escape");
    reveal_strlit("up");
    reveal_strlit("down");
    reveal_strlit("left");
    reveal_strlit("right");
    reveal_strlit("home");
    reveal_strlit("end");
    reveal_strlit("pageup");
    reveal_strlit("pagedown");
    reveal_strlit("tab");
    lemma_word_token(s, "backspace"@);
    assert(("backspace"@).len() == 9);
    assert(("enter"@).len() == 5);
    assert(lower(s) != "enter"@);
    assert(("return"@).len() == 6);
    assert(lower(s) != "return"@);
    assert(("ret"@).len() == 3);
    assert(lower(s) != "ret"@);
    assert(("esc"@).len() == 3);
    assert(lower(s) != "esc"@);
    assert(("escape"@).len() == 6);
    assert(lower(s) != "escape"@);
    assert(("up"@).len() == 2);
    assert(lower(s) != "up"@);
    assert(("down"@).len() == 4);
    assert(lower(s) != "down"@);
    assert(("left"@).len() == 4);
    assert(lower(s) != "left"@);
    assert(("right"@).len() == 5);
    assert(lower(s) != "right"@);
    assert(("home"@).len() == 4);
    assert(lower(s) != "home"@);
    assert(("end"@).len() == 3);
    assert(lower(s) != "end"@);
    assert(("pageup"@).len() == 6);
    assert(lower(s) != "pageup"@);
    assert(("pagedown"@).len() == 8);
    assert(lower(s) != "pagedown"@);
    assert(("tab"@).len() == 3);
    assert(lower(s) != "tab"@);
    assert(key_token(s) == Some(KeyCode::Backspace));
}

#[verifier::spinoff_prover]
proof fn lemma_token_15(s: Seq<char>)
    requires
        lower(s) == "bs"@,
    ensures
        parse_chord(s) == Some(bare(KeyCode::Backspace)),
{
    reveal_strlit("bs");
    reveal_strlit("enter");
    reveal_strlit("return");
    reveal_strlit("ret");
    reveal_strlit("esc");
    reveal_strlit("escape");
    reveal_strlit("up");
    reveal_strlit("down");
    reveal_strlit("left");
    reveal_strlit("right");
    reveal_strlit("home");
    reveal_strlit("end");
    reveal_strlit("pageup");
    reveal_strlit("pagedown");
    reveal_strlit("tab");
    reveal_strlit("backspace");
    lemma_word_token(s, "bs"@);
    assert(("bs"@).len() == 2);
    assert(("enter"@).len() == 5);
    assert(lower(s) != "enter"@);
    assert(("return"@).len() == 6);
    assert(lower(s) != "return"@);
    assert(("ret"@).len() == 3);
    assert(lower(s) != "ret"@);
    assert(("esc"@).len() == 3);
    assert(lower(s) != "esc"@);
    assert(("escape"@).len() == 6);
    assert(lower(s) != "escape"@);
    assert(("bs"@)[0] != ("up"@)[0]);
    assert(lower(s) != "up"@);
    assert(("down"@).len() == 4);
    assert(lower(s) != "down"@);
    assert(("left"@).len() == 4);
    assert(lower(s) != "left"@);
    assert(("right"@).len() == 5);
    assert(lower(s) != "right"@);
    assert(("home"@).len() == 4);
    assert(lower(s) != "home"@);
    assert(("end"@).len() == 3);
    assert(lower(s) != "end"@);
    assert(("pageup"@).len() == 6);
    assert(lower(s) != "pageup"@);
    assert(("pagedown"@).len() == 8);
    assert(lower(s) != "pagedown"@);
    assert(("tab"@).len() == 3);
    assert(lower(s) != "tab"@);
    assert(("backspace"@).len() == 9);
    assert(lower(s) != "backspace"@);
    assert(key_token(s) == Some(KeyCode::Backspace));
}

#[verifier::spinoff_prover]
proof fn lemma_token_16(s: Seq<char>)
    requires
        lower(s) == "delete"@,
    ensures
        parse_chord(s) == Some(bare(KeyCode::Delete)),
{
    reveal_strlit("delete");
    reveal_strlit("enter");
    reveal_strlit("return");
    reveal_strlit("ret");
    reveal_strlit("esc");
    reveal_strlit("escape");
    reveal_strlit("up");
    reveal_strlit("down");
    reveal_strlit("left");
    reveal_strlit("right");
    reveal_strlit("home");
    reveal_strlit("end");
    reveal_strlit("pageup");
    reveal_strlit("pagedown");
    reveal_strlit("tab");
    reveal_strlit("backspace");
    reveal_strlit("bs");
    lemma_word_token(s, "delete"@);
    assert(("delete"@).len() == 6);
    assert(("enter"@).len() == 5);
    assert(lower(s) != "enter"@);
    assert(("delete"@)[0] != ("return"@)[0]);
    assert(lower(s) != "return"@);
    assert(("ret"@).len() == 3);
    assert(lower(s) != "ret"@);
    assert(("esc"@).len() == 3);
    assert(lower(s) != "esc"@);
    assert(("delete"@)[0] != ("escape"@)[0]);
    assert(lower(s) != "escape"@);
    assert(("up"@).len() == 2);
    assert(lower(s) != "up"@);
    assert(("down"@).len() == 4);
    assert(lower(s) != "down"@);
    assert(("left"@).len() == 4);
    assert(lower(s) != "left"@);
    assert(("right"@).len() == 5);
    assert(lower(s) != "right"@);
    assert(("home"@).len() == 4);
    assert(lower(s) != "home"@);
    assert(("end"@).len() == 3);
    assert(lower(s) != "end"@);
    assert(("delete"@)[0] != ("pageup"@)[0]);
    assert(lower(s) != "pageup"@);
    assert(("pagedown"@).len() == 8);
    assert(lower(s) != "pagedown"@);
    assert(("tab"@).len() == 3);
    assert(lower(s) != "tab"@);
    assert(("backspace"@).len() == 9);
    assert(lower(s) != "backspace"@);
    assert(("bs"@).len() == 2);
    assert(lower(s) != "bs"@);
    assert(key_token(s) == Some(KeyCode::Delete));
}

#[verifier::spinoff_prover]
proof fn lemma_token_17(s: Seq<char>)
    requires
        lower(s) == "del"@,
    ensures
        parse_chord(s) == Some(bare(KeyCode::Delete)),
{
    reveal_strlit("del");
    reveal_strlit("enter");
    reveal_strlit("return");
    reveal_strlit("ret");
    reveal_strlit("esc");
    reveal_strlit("escape");
    reveal_strlit("up");
    reveal_strlit("down");
    reveal_strlit("left");
    reveal_strlit("right");
    reveal_strlit("home");
    reveal_strlit("end");
    reveal_strlit("pageup");
    reveal_strlit("pagedown");
    reveal_strlit("tab");
    reveal_strlit("backspace");
    reveal_strlit("bs");
    reveal_strlit("delete");
    lemma_word_token(s, "del"@);
    assert(("del"@).len() == 3);
    assert(("enter"@).len() == 5);
    assert(lower(s) != "enter"@);
    assert(("return"@).len() == 6);
    assert(lower(s) != "return"@);
    assert(("del"@)[0] != ("ret"@)[0]);
    assert(lower(s) != "ret"@);
    assert(("del"@)[0] != ("esc"@)[0]);
    assert(lower(s) != "esc"@);
    assert(("escape"@).len() == 6);
    assert(lower(s) != "escape"@);
    assert(("up"@).len() == 2);
    assert(lower(s) != "up"@);
    assert(("down"@).len() == 4);
    assert(lower(s) != "down"@);
    assert(("left"@).len() == 4);
    assert(lower(s) != "left"@);
    assert(("right"@).len() == 5);
    assert(lower(s) != "right"@);
    assert(("home"@).len() == 4);
    assert(lower(s) != "home"@);
    assert(("del"@)[0] != ("end"@)[0]);
    assert(lower(s) != "end"@);
    assert(("pageup"@).len() == 6);
    assert(lower(s) != "pageup"@);
    assert(("pagedown"@).len() == 8);
    assert(lower(s) != "pagedown"@);
    assert(("del"@)[0] != ("tab"@)[0]);
    assert(lower(s) != "tab"@);
    assert(("backspace"@).len() == 9);
    assert(lower(s) != "backspace"@);
    assert(("bs"@).len() == 2);
    assert(lower(s) != "bs"@);
    assert(("delete"@).len() == 6);
    assert(lower(s) != "delete"@);
    assert(key_token(s) == Some(KeyCode::Delete));
}

#[verifier::spinoff_prover]
proof fn lemma_token_18(s: Seq<char>)
    requires
        lower(s) == "space"@,
    ensures
        parse_chord(s) == Some(bare(KeyCode::Char(' '))),
{
    reveal_strlit("space");
    reveal_strlit("enter");
    reveal_strlit("return");
    reveal_strlit("ret");
    reveal_strlit("esc");
    reveal_strlit("escape");
    reveal_strlit("up");
    reveal_strlit("down");
    reveal_strlit("left");
    reveal_strlit("right");
    reveal_strlit("home");
    reveal_strlit("end");
    reveal_strlit("pageup");
    reveal_strlit("pagedown");
    reveal_strlit("tab");
    reveal_strlit("backspace");
    reveal_strlit("bs");
    reveal_strlit("delete");
    reveal_strlit("del");
    lemma_word_token(s, "space"@);
    assert(("space"@).len() == 5);
    assert(("space"@)[0] != ("enter"@)[0]);
    assert(lower(s) != "enter"@);
    assert(("return"@).len() == 6);
    assert(lower(s) != "return"@);
    assert(("ret"@).len() == 3);
    assert(lower(s) != "ret"@);
    assert(("esc"@).len() == 3);
    assert(lower(s) != "esc"@);
    assert(("escape"@).len() == 6);
    assert(lower(s) != "escape"@);
    assert(("up"@).len() == 2);
    assert(lower(s) != "up"@);
    assert(("down"@).len() == 4);
    assert(lower(s) != "down"@);
    assert(("left"@).len() == 4);
    assert(lower(s) != "left"@);
    assert(("space"@)[0] != ("right"@)[0]);
    assert(lower(s) != "right"@);
    assert(("home"@).len() == 4);
    assert(lower(s) != "home"@);
    assert(("end"@).len() == 3);
    assert(lower(s) != "end"@);
    assert(("pageup"@).len() == 6);
    assert(lower(s) != "pageup"@);
    assert(("pagedown"@).len() == 8);
    assert(lower(s) != "pagedown"@);
    assert(("tab"@).len() == 3);
    assert(lower(s) != "tab"@);
    assert(("backspace"@).len() == 9);
    assert(lower(s) != "backspace"@);
    assert(("bs"@).len() == 2);
    assert(lower(s) != "bs"@);
    assert(("delete"@).len() == 6);
    assert(lower(s) != "delete"@);
    assert(("del"@).len() == 3);
    assert(lower(s) != "del"@);
    assert(key_token(s) == Some(KeyCode::Char(' ')));
}

/// Each named key token parses to the key of that name, with no modifiers,
/// whatever its letter case: `tab` is Tab, `enter` is Enter, `pageup` is PageUp.
pub proof fn law_named_keys_parse(s: Seq<char>)
    ensures
        lower(s) == "enter"@ ==> parse_chord(s) == Some(bare(KeyCode::Enter)),
        lower(s) == "return"@ ==> parse_chord(s) == Some(bare(KeyCode::Enter)),
        lower(s) == "ret"@ ==> parse_chord(s) == Some(bare(KeyCode::Enter)),
        lower(s) == "esc"@ ==> parse_chord(s) == Some(bare(KeyCode::Esc)),
        lower(s) == "escape"@ ==> parse_chord(s) == Some(bare(KeyCode::Esc)),
        lower(s) == "up"@ ==> parse_chord(s) == Some(bare(KeyCode::Up)),
        lower(s) == "down"@ ==> parse_chord(s) == Some(bare(KeyCode::Down)),
        lower(s) == "left"@ ==> parse_chord(s) == Some(bare(KeyCode::Left)),
        lower(s) == "right"@ ==> parse_chord(s) == Some(bare(KeyCode::Right)),
        lower(s) == "home"@ ==> parse_chord(s) == Some(bare(KeyCode::Home)),
        lower(s) == "end"@ ==> parse_chord(s) == Some(bare(KeyCode::End)),
        lower(s) == "pageup"@ ==> parse_chord(s) == Some(bare(KeyCode::PageUp)),
        lower(s) == "pagedown"@ ==> parse_chord(s) == Some(bare(KeyCode::PageDown)),
        lower(s) == "tab"@ ==> parse_chord(s) == Some(bare(KeyCode::Tab)),
        lower(s) == "backspace"@ ==> parse_chord(s) == Some(bare(KeyCode::Backspace)),
        lower(s) == "bs"@ ==> parse_chord(s) == Some(bare(KeyCode::Backspace)),
        lower(s) == "delete"@ ==> parse_chord(s) == Some(bare(KeyCode::Delete)),
        lower(s) == "del"@ ==> parse_chord(s) == Some(bare(KeyCode::Delete)),
        lower(s) == "space"@ ==> parse_chord(s) == Some(bare(KeyCode::Char(' '))),
{
    if lower(s) == "enter"@ {
        lemma_token_0(s);
    }
    if lower(s) == "return"@ {
        lemma_token_1(s);
    }
    if lower(s) == "ret"@ {
        lemma_token_2(s);
    }
    if lower(s) == "esc"@ {
        lemma_token_3(s);
    }
    if lower(s) == "escape"@ {
        lemma_token_4(s);
    }
    if lower(s) == "up"@ {
        lemma_token_5(s);
    }
    if lower(s) == "down"@ {
        lemma_token_6(s);
    }
    if lower(s) == "left"@ {
        lemma_token_7(s);
    }
    if lower(s) == "right"@ {
        lemma_token_8(s);
    }
    if lower(s) == "home"@ {
        lemma_token_9(s);
    }
    if lower(s) == "end"@ {
        lemma_token_10(s);
    }
    if lower(s) == "pageup"@ {
        lemma_token_11(s);
    }
    if lower(s) == "pagedown"@ {
        lemma_token_12(s);
    }
    if lower(s) == "tab"@ {
        lemma_token_13(s);
    }
    if lower(s) == "backspace"@ {
        lemma_token_14(s);
    }
    if lower(s) == "bs"@ {
        lemma_token_15(s);
    }
    if lower(s) == "delete"@ {
        lemma_token_16(s);
    }
    if lower(s) == "del"@ {
        lemma_token_17(s);
    }
    if lower(s) == "space"@ {
        lemma_token_18(s);
    }
}

} // verus!
