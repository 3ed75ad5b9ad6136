//! The keystrokes that paste: the configured shortcut as a sequence of key
//! presses and releases, the X11 keycode of a keysym, which injection path a
//! session needs, and what a paste reports. Injecting the keys is the caller's.

use vstd::prelude::*;
use crate::text::{chars_of, eq_ignore_ascii_case, eq_ignore_case};

verus! {

/// A key of the paste shortcut.
#[derive(Debug, Clone, Copy, PartialEq, Eq, Structural)]
pub enum PasteKey {
    Control,
    Shift,
    V,
}

/// A key press (`false`) or release (`true`).
pub type KeyEvent = (PasteKey, bool);

/// Ctrl down, Shift down when the shortcut is Ctrl+Shift+V (in any case),
/// V down, V up, Shift up, Ctrl up.
pub open spec fn paste_keys_spec(shortcut: Seq<char>) -> Seq<(PasteKey, bool)> {
    if eq_ignore_case(shortcut, "Ctrl+Shift+V"@) {
        seq![
            (PasteKey::Control, false),
            (PasteKey::Shift, false),
            (PasteKey::V, false),
            (PasteKey::V, true),
            (PasteKey::Shift, true),
            (PasteKey::Control, true),
        ]
    } else {
        seq![
            (PasteKey::Control, false),
            (PasteKey::V, false),
            (PasteKey::V, true),
            (PasteKey::Control, true),
        ]
    }
}

pub fn paste_keys(shortcut: &str) -> (r: Vec<(PasteKey, bool)>)
    ensures
        r@ == paste_keys_spec(shortcut@),
{
    let shift = eq_ignore_ascii_case(chars_of(shortcut).as_slice(), chars_of("Ctrl+Shift+V").as_slice());
    let mut r: Vec<(PasteKey, bool)> = Vec::new();
    r.push((PasteKey::Control, false));
    if shift {
        r.push((PasteKey::Shift, false));
    }
    r.push((PasteKey::V, false));
    r.push((PasteKey::V, true));
    if shift {
        r.push((PasteKey::Shift, true));
    }
    r.push((PasteKey::Control, true));
    assert(r@ =~= paste_keys_spec(shortcut@));
    r
}

/// The index of the first occurrence of `x`.
pub open spec fn first_index(s: Seq<u32>, x: u32) -> Option<int>
    decreases s.len(),
{
    if s.len() == 0 {
        None
    } else {
        match first_index(s.drop_last(), x) {
            Some(i) => Some(i),
            None => if s.last() == x {
                Some(s.len() - 1)
            } else {
                None
            },
        }
    }
}

pub proof fn lemma_first_index_bound(s: Seq<u32>, x: u32)
    ensures
        first_index(s, x) matches Some(i) ==> 0 <= i < s.len() && s[i] == x,
    decreases s.len(),
{
    if s.len() > 0 {
        lemma_first_index_bound(s.drop_last(), x);
    }
}

/// The keycode whose keysyms hold `keysym`, in a keyboard mapping that lists
/// `per` keysyms for each keycode from `min_keycode` on: the keycode of its
/// first occurrence.
pub open spec fn keycode_spec(min_keycode: u8, per: usize, keysyms: Seq<u32>, keysym: u32) -> Option<u8> {
    match first_index(keysyms, keysym) {
        Some(i) => Some((min_keycode + i / (per as int)) as u8),
        None => None,
    }
}

pub fn keysym_to_keycode(min_keycode: u8, per: usize, keysyms: &[u32], keysym: u32) -> (r: Option<u8>)
    requires
        per > 0,
        keysyms@.len() <= per * (256 - min_keycode),
    ensures
        r == keycode_spec(min_keycode, per, keysyms@, keysym),
{
    let mut i: usize = 0;
    assert(keysyms@.take(0) =~= Seq::<u32>::empty());
    while i < keysyms.len()
        invariant
            per > 0,
            keysyms@.len() <= per * (256 - min_keycode),
            i <= keysyms.len(),
            first_index(keysyms@.take(i as int), keysym) is None,
        decreases keysyms.len() - i,
    {
        assert(keysyms@.take(i as int + 1).drop_last() =~= keysyms@.take(i as int));
        if keysyms[i] == keysym {
            proof {
                lemma_first_index_prefix(keysyms@, keysym, i as int + 1);
            }
            let chunk = i / per;
            assert(chunk < 256 - min_keycode) by (nonlinear_arith)
                requires
                    chunk == i / per,
                    i < keysyms@.len(),
                    keysyms@.len() <= per * (256 - min_keycode),
                    per > 0,
            ;
            return Some(min_keycode + chunk as u8);
        }
        i = i + 1;
    }
    assert(keysyms@.take(keysyms.len() as int) =~= keysyms@);
    None
}

/// A prefix that finds `x` finds it where the whole does.
pub proof fn lemma_first_index_prefix(s: Seq<u32>, x: u32, n: int)
    requires
        0 <= n <= s.len(),
        first_index(s.take(n), x) is Some,
    ensures
        first_index(s, x) == first_index(s.take(n), x),
    decreases s.len() - n,
{
    if n < s.len() {
        assert(s.take(n + 1).drop_last() =~= s.take(n));
        lemma_first_index_prefix(s, x, n + 1);
    } else {
        assert(s.take(n) =~= s);
    }
}

/// Whether the session is Wayland: `WAYLAND_DISPLAY` set, or
/// `XDG_SESSION_TYPE` equal to "wayland" in any case.
pub fn is_wayland_session(wayland_display_set: bool, session_type: Option<&str>) -> (b: bool)
    ensures
        b == (wayland_display_set || (session_type is Some && eq_ignore_case(
            session_type->0@,
            "wayland"@,
        ))),
{
    if wayland_display_set {
        return true;
    }
    match session_type {
        Some(t) => eq_ignore_ascii_case(chars_of(t).as_slice(), chars_of("wayland").as_slice()),
        None => false,
    }
}

/// The `ydotool` arguments that press and release Ctrl+V (evdev codes: Left
/// Ctrl = 29, V = 47).
pub const YDOTOOL_ARGS: [&'static str; 5] = ["key", "29:1", "47:1", "47:0", "29:0"];

/// Default socket path created by the `ydotoold` system service.
pub const DEFAULT_YDOTOOL_SOCKET: &'static str = "/run/ydotool.socket";

/// What a paste reports, given how many key events the system took in
/// (`SendInput`'s count, or every event after a successful X11 flush or
/// `ydotool` run), or `None` when the injection could not run at all: `true`
/// when the keystroke went in, `false` when nothing did and only the
/// clipboard holds the text, for the user to paste by hand.
pub fn paste_reported(inserted: Option<u32>) -> (b: bool)
    ensures
        b == (inserted matches Some(n) && n > 0),
{
    match inserted {
        Some(n) => n > 0,
        None => false,
    }
}

/// Every key the paste presses is released later in the sequence, and in the
/// reverse order of the presses: Ctrl is pressed first and released last.
pub proof fn law_paste_releases_every_key(shortcut: Seq<char>)
    ensures
        ({
            let ks = paste_keys_spec(shortcut);
            &&& forall|i: int|
                0 <= i < ks.len() && !(#[trigger] ks[i]).1 ==> exists|j: int|
                    i < j < ks.len() && ks[j] == (ks[i].0, true)
            &&& ks[0] == (PasteKey::Control, false)
            &&& ks[ks.len() - 1] == (PasteKey::Control, true)
            &&& ks.len() == 2 * (ks.len() / 2)
            &&& forall|i: int| 0 <= i < ks.len() / 2 ==> ks[ks.len() - 1 - i] == ((#[trigger] ks[i]).0, true)
        }),
{
    let ks = paste_keys_spec(shortcut);
    assert forall|i: int| 0 <= i < ks.len() && !(#[trigger] ks[i]).1 implies exists|j: int|
        i < j < ks.len() && ks[j] == (ks[i].0, true) by {
        let j = ks.len() - 1 - i;
        assert(ks[j] == (ks[i].0, true));
    };
}

} // verus!
