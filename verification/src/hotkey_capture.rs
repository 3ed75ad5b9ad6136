//! Capturing an arbitrary key combination: while a capture runs, the next
//! valid chord (one or more modifiers and a key, or a function key alone) is
//! recorded as a config string like "Ctrl+Alt+D". Esc cancels; a timeout
//! guards against keyboard lockout. The keyboard hook itself lives with the
//! caller, which reports each key-down and polls.

use vstd::prelude::*;
use crate::text::{
    all_ascii, ascii_lower, chars_of, decimal, is_ws, lower_char, lowercase, push_char,
    push_decimal, push_str, split_char, trim, lemma_split_append,
};
use crate::hotkey::{
    empty_partial, function_number, key_of_word, parse_parts, parse_spec, parse_step, Combo, Key,
    Partial,
};

verus! {

/// What a poll of the capture finds.
#[derive(Debug, Clone, PartialEq, Eq)]
pub enum Poll {
    /// No capture is running.
    Idle,
    /// Still waiting for a chord.
    Pending,
    /// A chord was pressed; the capture is over.
    Captured(String),
    /// Esc was pressed or the capture timed out; the capture is over.
    Cancelled,
}

/// Shift, Ctrl and Alt (either side), and both Windows keys.
pub open spec fn is_modifier_vk(vk: u16) -> bool {
    vk == 0x10 || vk == 0xA0 || vk == 0xA1 || vk == 0x11 || vk == 0xA2 || vk == 0xA3 || vk == 0x12
        || vk == 0xA4 || vk == 0xA5 || vk == 0x5B || vk == 0x5C
}

pub fn is_modifier(vk: u16) -> (b: bool)
    ensures
        b == is_modifier_vk(vk),
{
    vk == 0x10 || vk == 0xA0 || vk == 0xA1 || vk == 0x11 || vk == 0xA2 || vk == 0xA3 || vk == 0x12
        || vk == 0xA4 || vk == 0xA5 || vk == 0x5B || vk == 0x5C
}

/// The name a virtual-key code is written with: `A`..`Z`, `Space`, `F1`..`F12`.
pub open spec fn vk_name(vk: u16) -> Option<Seq<char>> {
    if 0x41 <= vk && vk <= 0x5A {
        Some(seq![(vk as u32) as char])
    } else if vk == 0x20 {
        Some("Space"@)
    } else if 0x70 <= vk && vk <= 0x7B {
        Some("F"@ + decimal((vk - 0x6F) as nat))
    } else {
        None
    }
}

pub fn vk_to_name(vk: u16) -> (r: Option<String>)
    ensures
        match r {
            Some(s) => vk_name(vk) == Some(s@),
            None => vk_name(vk) is None,
        },
{
    if 0x41 <= vk && vk <= 0x5A {
        let c = (vk as u8) as char;
        assert(c == (vk as u32) as char);
        let mut s = String::new();
        push_char(&mut s, c);
        assert(s@ =~= seq![(vk as u32) as char]);
        Some(s)
    } else if vk == 0x20 {
        let mut s = String::new();
        push_str(&mut s, "Space");
        assert(s@ =~= "Space"@);
        Some(s)
    } else if 0x70 <= vk && vk <= 0x7B {
        let mut s = String::new();
        push_str(&mut s, "F");
        push_decimal(&mut s, (vk - 0x6F) as u64);
        assert(s@ =~= "F"@ + decimal((vk - 0x6F) as nat));
        Some(s)
    } else {
        None
    }
}

/// Which modifier keys are down.
#[derive(Debug, Clone, Copy, PartialEq, Eq, Structural)]
pub struct Held {
    pub ctrl: bool,
    pub alt: bool,
    pub shift: bool,
    /// Either Windows key.
    pub win: bool,
}

/// The modifier prefix of a chord, in the order Ctrl, Alt, Shift, Super.
pub open spec fn held_text(h: Held) -> Seq<char> {
    (if h.ctrl {
        "Ctrl+"@
    } else {
        Seq::empty()
    }) + (if h.alt {
        "Alt+"@
    } else {
        Seq::empty()
    }) + (if h.shift {
        "Shift+"@
    } else {
        Seq::empty()
    }) + (if h.win {
        "Super+"@
    } else {
        Seq::empty()
    })
}

/// Builds the modifier prefix ("Ctrl+Alt+") from the keys held.
pub fn held_modifiers(h: Held) -> (s: String)
    ensures
        s@ == held_text(h),
{
    let mut s = String::new();
    if h.ctrl {
        push_str(&mut s, "Ctrl+");
    }
    if h.alt {
        push_str(&mut s, "Alt+");
    }
    if h.shift {
        push_str(&mut s, "Shift+");
    }
    if h.win {
        push_str(&mut s, "Super+");
    }
    assert(s@ =~= held_text(h));
    s
}

/// What a key-down does while a capture runs (every such key-down is
/// swallowed).
#[derive(Debug, Clone, PartialEq, Eq)]
pub enum KeyDecision {
    /// Esc: cancel the capture.
    Cancel,
    /// A modifier alone, an unsupported key, or a bare key that is no
    /// function key: keep waiting.
    Wait,
    /// A valid chord, as a config string.
    Capture(String),
}

/// A function key's name: `F` followed by more.
pub open spec fn is_function_name(name: Seq<char>) -> bool {
    name.len() > 1 && name[0] == 'F'
}

/// The chord a key-down records, if any.
pub open spec fn chord_of(vk: u16, h: Held) -> Option<Seq<char>> {
    if vk == 0x1B || is_modifier_vk(vk) {
        None
    } else {
        match vk_name(vk) {
            Some(name) => if held_text(h).len() > 0 || is_function_name(name) {
                Some(held_text(h) + name)
            } else {
                None
            },
            None => None,
        }
    }
}

pub fn key_down(vk: u16, h: Held) -> (d: KeyDecision)
    ensures
        vk == 0x1B ==> d == KeyDecision::Cancel,
        vk != 0x1B ==> match d {
            KeyDecision::Capture(c) => chord_of(vk, h) == Some(c@),
            KeyDecision::Wait => chord_of(vk, h) is None,
            KeyDecision::Cancel => false,
        },
{
    if vk == 0x1B {
        return KeyDecision::Cancel;
    }
    if is_modifier(vk) {
        return KeyDecision::Wait;
    }
    match vk_to_name(vk) {
        Some(name) => {
            let mods = held_modifiers(h);
            let name_chars = chars_of(name.as_str());
            let mods_chars = chars_of(mods.as_str());
            let is_fn = name_chars.len() > 1 && name_chars[0] == 'F';
            if mods_chars.len() > 0 || is_fn {
                let mut combo = mods;
                push_str(&mut combo, name.as_str());
                KeyDecision::Capture(combo)
            } else {
                KeyDecision::Wait
            }
        },
        None => KeyDecision::Wait,
    }
}

/// The abstract state of a capture.
pub struct CaptureView {
    pub capturing: bool,
    pub cancelled: bool,
    pub result: Option<Seq<char>>,
}

/// A capture in progress, fed by the keyboard hook and polled by the tray.
pub struct Capture {
    capturing: bool,
    cancelled: bool,
    result: Option<String>,
}

impl View for Capture {
    type V = CaptureView;

    closed spec fn view(&self) -> CaptureView {
        CaptureView {
            capturing: self.capturing,
            cancelled: self.cancelled,
            result: match self.result {
                Some(s) => Some(s@),
                None => None,
            },
        }
    }
}

/// Starting a capture: ignored while one runs; otherwise the last result and
/// cancellation are cleared, and the capture runs once the hook is installed.
pub open spec fn begin_spec(c: CaptureView, hook_installed: bool) -> CaptureView {
    if c.capturing {
        c
    } else {
        CaptureView { capturing: hook_installed, cancelled: false, result: None }
    }
}

/// A key-down seen by the hook: `(new state, swallowed)`.
pub open spec fn key_spec(c: CaptureView, vk: u16, h: Held) -> (CaptureView, bool) {
    if !c.capturing {
        (c, false)
    } else if vk == 0x1B {
        (CaptureView { cancelled: true, ..c }, true)
    } else {
        match chord_of(vk, h) {
            Some(chord) => (CaptureView { result: Some(chord), ..c }, true),
            None => (c, true),
        }
    }
}

/// A poll's answer as a view.
pub enum PollView {
    Idle,
    Pending,
    Captured(Seq<char>),
    Cancelled,
}

pub open spec fn poll_view(p: Poll) -> PollView {
    match p {
        Poll::Idle => PollView::Idle,
        Poll::Pending => PollView::Pending,
        Poll::Captured(s) => PollView::Captured(s@),
        Poll::Cancelled => PollView::Cancelled,
    }
}

/// A poll: a recorded chord wins over a cancellation, which wins over a
/// timeout. Each of the three ends the capture.
pub open spec fn poll_spec(c: CaptureView, timed_out: bool) -> (CaptureView, PollView) {
    if !c.capturing {
        (c, PollView::Idle)
    } else if c.result is Some {
        (CaptureView { capturing: false, result: None, ..c }, PollView::Captured(c.result->0))
    } else if c.cancelled || timed_out {
        (CaptureView { capturing: false, ..c }, PollView::Cancelled)
    } else {
        (c, PollView::Pending)
    }
}

impl Capture {
    pub fn new() -> (c: Self)
        ensures
            c@ == (CaptureView { capturing: false, cancelled: false, result: None }),
    {
        Capture { capturing: false, cancelled: false, result: None }
    }

    pub fn is_capturing(&self) -> (b: bool)
        ensures
            b == self@.capturing,
    {
        self.capturing
    }

    /// Whether the hook should be installed: false while a capture runs.
    /// Call `hook_installed` with the outcome.
    pub fn begin(&mut self) -> (install: bool)
        ensures
            install == !old(self)@.capturing,
            install ==> final(self)@ == (CaptureView {
                capturing: false,
                cancelled: false,
                result: None,
            }),
            !install ==> final(self)@ == old(self)@,
    {
        if self.capturing {
            return false;
        }
        self.result = None;
        self.cancelled = false;
        true
    }

    /// Records whether installing the hook succeeded.
    pub fn hook_installed(&mut self, ok: bool)
        requires
            !old(self)@.capturing,
        ensures
            final(self)@ == begin_spec(old(self)@, ok),
    {
        self.capturing = ok;
        self.cancelled = false;
        self.result = None;
    }

    /// A key-down from the hook; returns whether to swallow it.
    pub fn key_down(&mut self, vk: u16, h: Held) -> (swallow: bool)
        ensures
            (final(self)@, swallow) == key_spec(old(self)@, vk, h),
    {
        if !self.capturing {
            return false;
        }
        match key_down(vk, h) {
            KeyDecision::Cancel => {
                self.cancelled = true;
            },
            KeyDecision::Capture(chord) => {
                self.result = Some(chord);
            },
            KeyDecision::Wait => {},
        }
        true
    }

    /// Polls the capture; `timed_out` tells whether it has run past its
    /// time limit. Returns the answer and whether to remove the hook.
    pub fn poll(&mut self, timed_out: bool) -> (r: (Poll, bool))
        ensures
            (final(self)@, poll_view(r.0)) == poll_spec(old(self)@, timed_out),
            r.1 == (old(self)@.capturing && !(r.0 is Pending)),
    {
        if !self.capturing {
            return (Poll::Idle, false);
        }
        match self.result.take() {
            Some(chord) => {
                self.capturing = false;
                return (Poll::Captured(chord), true);
            },
            None => {},
        }
        if self.cancelled || timed_out {
            self.capturing = false;
            return (Poll::Cancelled, true);
        }
        (Poll::Pending, false)
    }
}


// ---------------------------------------------------------------------------
// Captured chords are hotkey strings
// ---------------------------------------------------------------------------

/// The key a virtual-key code stands for in a parsed hotkey.
pub open spec fn vk_key(vk: u16) -> Key {
    if 0x41 <= vk && vk <= 0x5A {
        Key::Letter(((vk as u32) + 32) as char)
    } else if vk == 0x20 {
        Key::Space
    } else {
        Key::Function((vk - 0x6F) as u8)
    }
}

/// A word with no whitespace at either end trims to itself.
proof fn lemma_trim_plain(w: Seq<char>)
    requires
        w.len() > 0,
        !is_ws(w[0]),
        !is_ws(w.last()),
    ensures
        trim(w) == w,
{
}

proof fn lemma_parts_append(p: Seq<Seq<char>>, w: Seq<char>)
    ensures
        parse_parts(p.push(w)) == (match parse_parts(p) {
            Ok(acc) => parse_step(acc, w),
            Err(e) => Err(e),
        }),
{
    assert(p.push(w).drop_last() =~= p);
}

proof fn lemma_ascii_lower_word(w: Seq<char>, l: Seq<char>)
    requires
        w.len() == l.len(),
        all_ascii(w),
        forall|i: int| 0 <= i < w.len() ==> lower_char(#[trigger] w[i]) == l[i],
    ensures
        lowercase(w) == l,
{
    assert(ascii_lower(w) =~= l);
}

/// The words the capture writes for the modifiers, and what each reads as.
proof fn lemma_modifier_words()
    ensures
        parse_step(empty_partial(), seq!['C', 't', 'r', 'l']) == Ok::<Partial, Seq<char>>(
            Partial { ctrl: true, ..empty_partial() },
        ),
        forall|a: Partial| parse_step(a, seq!['C', 't', 'r', 'l']) == Ok::<Partial, Seq<char>>(Partial { ctrl: true, ..a }),
        forall|a: Partial| parse_step(a, seq!['A', 'l', 't']) == Ok::<Partial, Seq<char>>(Partial { alt: true, ..a }),
        forall|a: Partial| parse_step(a, seq!['S', 'h', 'i', 'f', 't']) == Ok::<Partial, Seq<char>>(Partial { shift: true, ..a }),
        forall|a: Partial| parse_step(a, seq!['S', 'u', 'p', 'e', 'r']) == Ok::<Partial, Seq<char>>(Partial { meta: true, ..a }),
{
    reveal_strlit("cmdorctrl");
    reveal_strlit("ctrl");
    reveal_strlit("control");
    reveal_strlit("shift");
    reveal_strlit("alt");
    reveal_strlit("option");
    reveal_strlit("super");
    let ctrl_w = seq!['C', 't', 'r', 'l'];
    let alt_w = seq!['A', 'l', 't'];
    let shift_w = seq!['S', 'h', 'i', 'f', 't'];
    let super_w = seq!['S', 'u', 'p', 'e', 'r'];
    lemma_ascii_lower_word(ctrl_w, "ctrl"@);
    lemma_ascii_lower_word(alt_w, "alt"@);
    lemma_ascii_lower_word(shift_w, "shift"@);
    lemma_ascii_lower_word(super_w, "super"@);
    lemma_trim_plain(ctrl_w);
    lemma_trim_plain(alt_w);
    lemma_trim_plain(shift_w);
    lemma_trim_plain(super_w);
    assert("super"@ != "shift"@) by {
        assert("super"@[1] != "shift"@[1]);
    };
    assert("super"@ != "cmdorctrl"@ && "super"@ != "ctrl"@ && "super"@ != "control"@);
    assert("super"@ != "alt"@ && "super"@ != "option"@);
}

/// The words the capture writes for the modifiers, trimmed and lowercased,
/// are the config words for those modifiers.
pub proof fn lemma_modifier_word_forms()
    ensures
        lowercase(trim(seq!['C', 't', 'r', 'l'])) == "ctrl"@,
        lowercase(trim(seq!['A', 'l', 't'])) == "alt"@,
        lowercase(trim(seq!['S', 'h', 'i', 'f', 't'])) == "shift"@,
        lowercase(trim(seq!['S', 'u', 'p', 'e', 'r'])) == "super"@,
{
    reveal_strlit("ctrl");
    reveal_strlit("shift");
    reveal_strlit("alt");
    reveal_strlit("super");
    let ctrl_w = seq!['C', 't', 'r', 'l'];
    let alt_w = seq!['A', 'l', 't'];
    let shift_w = seq!['S', 'h', 'i', 'f', 't'];
    let super_w = seq!['S', 'u', 'p', 'e', 'r'];
    lemma_ascii_lower_word(ctrl_w, "ctrl"@);
    lemma_ascii_lower_word(alt_w, "alt"@);
    lemma_ascii_lower_word(shift_w, "shift"@);
    lemma_ascii_lower_word(super_w, "super"@);
    lemma_trim_plain(ctrl_w);
    lemma_trim_plain(alt_w);
    lemma_trim_plain(shift_w);
    lemma_trim_plain(super_w);
}

/// One optional modifier word and its `'+'` added to the prefix.
proof fn lemma_prefix_step(t: Seq<char>, p: Seq<Seq<char>>, a: Partial, on: bool, w: Seq<char>, b: Partial) -> (r: (Seq<char>, Seq<Seq<char>>, Partial))
    requires
        split_char(t, '+') == p.push(Seq::<char>::empty()),
        parse_parts(p) == Ok::<Partial, Seq<char>>(a),
        forall|i: int| 0 <= i < w.len() ==> w[i] != '+',
        parse_step(a, w) == Ok::<Partial, Seq<char>>(b),
    ensures
        r.0 == t + (if on { w.push('+') } else { Seq::<char>::empty() }),
        split_char(r.0, '+') == r.1.push(Seq::<char>::empty()),
        parse_parts(r.1) == Ok::<Partial, Seq<char>>(r.2),
        r.2 == (if on { b } else { a }),
        r.1 == push_if(p, on, w),
{
    if on {
        lemma_split_append(t, p, w, '+');
        lemma_parts_append(p, w);
        assert((t + w).push('+') =~= t + w.push('+'));
        ((t + w).push('+'), p.push(w), b)
    } else {
        assert(t + Seq::<char>::empty() =~= t);
        (t, p, a)
    }
}

/// `p` with `w` appended when `on`.
pub open spec fn push_if(p: Seq<Seq<char>>, on: bool, w: Seq<char>) -> Seq<Seq<char>> {
    if on {
        p.push(w)
    } else {
        p
    }
}

/// The modifier words of a chord, in the order Ctrl, Alt, Shift, Super.
pub open spec fn held_words(h: Held) -> Seq<Seq<char>> {
    push_if(
        push_if(
            push_if(push_if(Seq::empty(), h.ctrl, seq!['C', 't', 'r', 'l']), h.alt, seq!['A', 'l', 't']),
            h.shift,
            seq!['S', 'h', 'i', 'f', 't'],
        ),
        h.win,
        seq!['S', 'u', 'p', 'e', 'r'],
    )
}

/// The modifier prefix splits into the modifier words, which read as the
/// modifiers held.
pub proof fn lemma_prefix(h: Held) -> (p: Seq<Seq<char>>)
    ensures
        p == held_words(h),
        split_char(held_text(h), '+') == p.push(Seq::<char>::empty()),
        parse_parts(p) == Ok::<Partial, Seq<char>>(
            Partial { ctrl: h.ctrl, shift: h.shift, alt: h.alt, meta: h.win, key: None },
        ),
{
    reveal_strlit("Ctrl+");
    reveal_strlit("Alt+");
    reveal_strlit("Shift+");
    reveal_strlit("Super+");
    lemma_modifier_words();
    let e = Seq::<char>::empty();
    let p0 = Seq::<Seq<char>>::empty();
    let a0 = empty_partial();
    assert(split_char(e, '+') == p0.push(e)) by {
        assert(p0.push(e) =~= seq![e]);
    };
    let ctrl_w = seq!['C', 't', 'r', 'l'];
    let alt_w = seq!['A', 'l', 't'];
    let shift_w = seq!['S', 'h', 'i', 'f', 't'];
    let super_w = seq!['S', 'u', 'p', 'e', 'r'];
    let (t1, p1, a1) = lemma_prefix_step(e, p0, a0, h.ctrl, ctrl_w, Partial { ctrl: true, ..a0 });
    let (t2, p2, a2) = lemma_prefix_step(t1, p1, a1, h.alt, alt_w, Partial { alt: true, ..a1 });
    let (t3, p3, a3) = lemma_prefix_step(t2, p2, a2, h.shift, shift_w, Partial { shift: true, ..a2 });
    let (t4, p4, a4) = lemma_prefix_step(t3, p3, a3, h.win, super_w, Partial { meta: true, ..a3 });
    assert("Ctrl+"@ =~= ctrl_w.push('+'));
    assert("Alt+"@ =~= alt_w.push('+'));
    assert("Shift+"@ =~= shift_w.push('+'));
    assert("Super+"@ =~= super_w.push('+'));
    assert(t4 =~= held_text(h));
    p4
}

/// A key's name holds no `'+'` and reads as that key.
proof fn lemma_name_reads(vk: u16, a: Partial)
    requires
        vk_name(vk) is Some,
    ensures
        forall|i: int| 0 <= i < vk_name(vk)->0.len() ==> vk_name(vk)->0[i] != '+',
        parse_step(a, vk_name(vk)->0) == Ok::<Partial, Seq<char>>(
            Partial { key: Some(vk_key(vk)), ..a },
        ),
{
    reveal_strlit("Space");
    reveal_strlit("F");
    reveal_strlit("cmdorctrl");
    reveal_strlit("ctrl");
    reveal_strlit("control");
    reveal_strlit("shift");
    reveal_strlit("alt");
    reveal_strlit("option");
    reveal_strlit("super");
    reveal_strlit("meta");
    reveal_strlit("cmd");
    reveal_strlit("win");
    reveal_strlit("space");
    let name = vk_name(vk)->0;
    if 0x41 <= vk && vk <= 0x5A {
        let c = (vk as u32) as char;
        let l = ((vk as u32) + 32) as char;
        assert(name =~= seq![c]);
        lemma_trim_plain(name);
        lemma_ascii_lower_word(name, seq![l]);
        lemma_ascii_lower_word(seq![l], seq![l]);
    } else if vk == 0x20 {
        lemma_trim_plain(name);
        lemma_ascii_lower_word(name, "space"@);
        lemma_ascii_lower_word("space"@, "space"@);
    } else {
        let n = (vk - 0x6F) as nat;
        reveal_with_fuel(decimal, 2);
        let d = decimal(n);
        assert(name =~= seq!['F'] + d);
        if n < 10 {
            let ld = seq!['f', d[0]];
            lemma_trim_plain(name);
            lemma_ascii_lower_word(name, ld);
            lemma_ascii_lower_word(ld, ld);
            assert(function_number(ld) == Some(n as u8));
        } else {
            let ld = seq!['f', '1', d[1]];
            lemma_trim_plain(name);
            lemma_ascii_lower_word(name, ld);
            lemma_ascii_lower_word(ld, ld);
            assert(function_number(ld) == Some(n as u8));
        }
    }
}

/// Every chord a capture records is a hotkey string that parses back to the
/// same modifiers and key.
pub proof fn law_captured_chord_parses(vk: u16, h: Held)
    requires
        chord_of(vk, h) is Some,
    ensures
        parse_spec(chord_of(vk, h)->0) == Ok::<Combo, (bool, Seq<char>)>(
            Combo { ctrl: h.ctrl, shift: h.shift, alt: h.alt, meta: h.win, key: vk_key(vk) },
        ),
{
    let p = lemma_prefix(h);
    let a = Partial { ctrl: h.ctrl, shift: h.shift, alt: h.alt, meta: h.win, key: None };
    let name = vk_name(vk)->0;
    lemma_name_reads(vk, a);
    lemma_split_append(held_text(h), p, name, '+');
    lemma_parts_append(p, name);
}

/// A capture that starts, sees a chord and is polled hands back exactly
/// that chord, ends, and the hook is removed; the next poll finds no capture.
/// Every key-down while capturing is swallowed.
pub proof fn law_capture_cycle(c: CaptureView, vk: u16, h: Held, t1: bool, t2: bool)
    requires
        !c.capturing,
        chord_of(vk, h) is Some,
    ensures
        ({
            let c1 = begin_spec(c, true);
            let (c2, swallowed) = key_spec(c1, vk, h);
            let (c3, answer) = poll_spec(c2, t1);
            &&& c1.capturing
            &&& swallowed
            &&& answer == PollView::Captured(chord_of(vk, h)->0)
            &&& !c3.capturing
            &&& poll_spec(c3, t2).1 == PollView::Idle
        }),
{
}

/// Esc ends a capture with nothing recorded: the poll answers `Cancelled`.
pub proof fn law_escape_cancels(c: CaptureView, h: Held, t: bool)
    requires
        !c.capturing,
    ensures
        poll_spec(key_spec(begin_spec(c, true), 0x1B, h).0, t).1 == PollView::Cancelled,
{
}

/// A chord is recorded exactly for a letter, Space or F1..F12 pressed with at
/// least one modifier held, or for F1..F12 alone: a bare letter or Space is
/// never a hotkey, and Esc or a modifier never is one.
pub proof fn law_chord_needs_a_modifier_or_function_key(vk: u16, h: Held)
    ensures
        chord_of(vk, h) is Some <==> (((0x41 <= vk <= 0x5A || vk == 0x20) && (h.ctrl || h.alt
            || h.shift || h.win)) || 0x70 <= vk <= 0x7B),
        chord_of(vk, h) is Some && !(h.ctrl || h.alt || h.shift || h.win) ==> 0x70 <= vk <= 0x7B,
{
    reveal_strlit("Space");
    reveal_strlit("F");
    reveal_strlit("Ctrl+");
    reveal_strlit("Alt+");
    reveal_strlit("Shift+");
    reveal_strlit("Super+");
    let e = Seq::<char>::empty();
    let any = h.ctrl || h.alt || h.shift || h.win;
    assert(held_text(h).len() > 0 <==> any);
    if 0x70 <= vk <= 0x7B {
        let name = vk_name(vk)->0;
        assert(name[0] == 'F');
        assert(name.len() > 1);
    }
    if 0x41 <= vk <= 0x5A {
        assert(vk_name(vk)->0.len() == 1);
    }
}

} // verus!
