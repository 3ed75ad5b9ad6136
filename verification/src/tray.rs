//! The tray's decisions: the labels and rows each phase shows, the status row,
//! the shortcut dialog's result and the GNOME accelerator it saves, and the
//! icon colour. Drawing the menu and reading its events is the caller's.

use vstd::prelude::*;
use crate::hotkey::{is_alt_word, is_ctrl_word, is_meta_word, is_shift_word};
use crate::hotkey::{parse_spec, Combo, Key};
use crate::hotkey_capture::{
    chord_of, held_modifiers, held_text, held_words, is_modifier_vk, law_captured_chord_parses,
    lemma_modifier_word_forms, lemma_prefix, push_if, vk_key, vk_name, Held,
};
use crate::hotkey_portal::{display_key_spec, display_shortcut_spec, named_modifiers};
use crate::text::{lemma_split_append, replace_all, rfind_char, rsplit_once, strip_prefix};
use crate::hotkey_portal::{PROMPT_SHORTCUT_ID, SHORTCUT_ID};
use crate::state::Phase;
use crate::text::{
    all_ascii, ascii_lower, ascii_lowercase_of, ascii_upper, ascii_uppercase_of, chars_of,
    eq_ignore_ascii_case, eq_ignore_case, eq_str, is_lower_ascii, is_upper_ascii, lowercase,
    push_chars, push_str, split_char, split_char_of, string_of, to_lowercase, trim, trim_of, views,
};

verus! {

// ---------------------------------------------------------------------------
// GNOME accelerators
// ---------------------------------------------------------------------------

/// The modifiers (GNOME syntax) and the key word of the parts so far; the
/// last key word wins.
pub open spec fn accel_parts(parts: Seq<Seq<char>>) -> (Seq<char>, Seq<char>)
    decreases parts.len(),
{
    if parts.len() == 0 {
        (Seq::empty(), Seq::empty())
    } else {
        let (mods, key) = accel_parts(parts.drop_last());
        let w = lowercase(trim(parts.last()));
        if w.len() == 0 {
            (mods, key)
        } else if is_ctrl_word(w) {
            (mods + "<Control>"@, key)
        } else if is_alt_word(w) {
            (mods + "<Alt>"@, key)
        } else if is_shift_word(w) {
            (mods + "<Shift>"@, key)
        } else if is_meta_word(w) {
            (mods + "<Super>"@, key)
        } else {
            (mods, w)
        }
    }
}

/// A display combo ("Ctrl+Alt+Space") in GNOME accelerator syntax
/// ("<Control><Alt>space").
pub open spec fn accelerator_spec(display: Seq<char>) -> Seq<char> {
    let (mods, key) = accel_parts(split_char(display, '+'));
    mods + key
}

pub fn to_accelerator(display: &str) -> (r: String)
    ensures
        r@ == accelerator_spec(display@),
{
    let v = chars_of(display);
    let parts = split_char_of(v.as_slice(), '+');
    let mut mods = String::new();
    let mut key: Vec<char> = Vec::new();
    assert(views(parts@).take(0) =~= Seq::<Seq<char>>::empty());
    for i in 0..parts.len()
        invariant
            views(parts@) == split_char(v@, '+'),
            v@ == display@,
            accel_parts(views(parts@).take(i as int)) == (mods@, key@),
    {
        let ghost pre = views(parts@).take(i as int + 1);
        assert(pre.drop_last() =~= views(parts@).take(i as int));
        assert(pre.last() == parts@[i as int]@);
        let t = trim_of(parts[i].as_slice());
        let ts = string_of(t.as_slice());
        let l = to_lowercase(ts.as_str());
        let w = chars_of(l.as_str());
        if w.len() == 0 {
        } else if eq_str(&w, "ctrl") || eq_str(&w, "control") || eq_str(&w, "cmdorctrl") {
            push_str(&mut mods, "<Control>");
        } else if eq_str(&w, "alt") || eq_str(&w, "option") {
            push_str(&mut mods, "<Alt>");
        } else if eq_str(&w, "shift") {
            push_str(&mut mods, "<Shift>");
        } else if eq_str(&w, "super") || eq_str(&w, "meta") || eq_str(&w, "cmd") || eq_str(
            &w,
            "win",
        ) {
            push_str(&mut mods, "<Super>");
        } else {
            key = w;
        }
    }
    assert(views(parts@).take(parts.len() as int) =~= views(parts@));
    push_chars(&mut mods, key.as_slice());
    mods
}

// ---------------------------------------------------------------------------
// The shortcut dialog
// ---------------------------------------------------------------------------

pub open spec fn is_ascii_alpha(c: char) -> bool {
    is_upper_ascii(c) || is_lower_ascii(c)
}

/// A function key's name as GTK gives it: "F1" to "F12".
pub open spec fn is_function_key_name(name: Seq<char>) -> bool {
    (name.len() == 2 && name[0] == 'F' && 49 <= (name[1] as u32) <= 57) || (name.len() == 3
        && name[0] == 'F' && name[1] == '1' && 48 <= (name[2] as u32) <= 50)
}

/// The key of a key press as shown and as an accelerator, and whether it is a
/// function key: a letter, Space (any case), or F1 to F12; other keys are
/// refused.
pub open spec fn dialog_key(name: Seq<char>) -> Option<(Seq<char>, Seq<char>, bool)> {
    if name.len() == 1 && is_ascii_alpha(name[0]) {
        Some((ascii_upper(name), ascii_lower(name), false))
    } else if eq_ignore_case(name, "space"@) {
        Some(("Space"@, "space"@, false))
    } else if is_function_key_name(name) {
        Some((name, name, true))
    } else {
        None
    }
}

/// The accelerator modifiers for the keys held, in the order Control, Alt,
/// Shift, Super.
pub open spec fn held_accelerator(h: Held) -> Seq<char> {
    (if h.ctrl {
        "<Control>"@
    } else {
        Seq::empty()
    }) + (if h.alt {
        "<Alt>"@
    } else {
        Seq::empty()
    }) + (if h.shift {
        "<Shift>"@
    } else {
        Seq::empty()
    }) + (if h.win {
        "<Super>"@
    } else {
        Seq::empty()
    })
}

/// The shortcut a key press in the dialog picks, as `(display, accelerator)`:
/// the held modifiers and the key, e.g. ("Ctrl+Alt+D", "<Control><Alt>d").
/// A key with no modifier counts only when it is a function key.
pub open spec fn dialog_shortcut_spec(name: Seq<char>, h: Held) -> Option<(Seq<char>, Seq<char>)> {
    match dialog_key(name) {
        Some((shown, accel, function)) => if held_text(h).len() == 0 && !function {
            None
        } else {
            Some((held_text(h) + shown, held_accelerator(h) + accel))
        },
        None => None,
    }
}

/// The shortcut a key press in the dialog picks; `key_name` is GTK's name for
/// the key, `h` the modifiers held (Super or Meta both count as `win`).
pub fn shortcut_from_key(key_name: &str, h: Held) -> (r: Option<(String, String)>)
    ensures
        match r {
            Some((d, a)) => dialog_shortcut_spec(key_name@, h) == Some((d@, a@)),
            None => dialog_shortcut_spec(key_name@, h) is None,
        },
{
    let name = chars_of(key_name);
    let space = chars_of("space");
    let (shown, accel, function) = if name.len() == 1 && ((65 <= name[0] as u32 && name[0] as u32
        <= 90) || (97 <= name[0] as u32 && name[0] as u32 <= 122)) {
        (ascii_uppercase_of(name.as_slice()), ascii_lowercase_of(name.as_slice()), false)
    } else if eq_ignore_ascii_case(name.as_slice(), space.as_slice()) {
        (chars_of("Space"), chars_of("space"), false)
    } else if (name.len() == 2 && name[0] == 'F' && 49 <= name[1] as u32 && name[1] as u32 <= 57)
        || (name.len() == 3 && name[0] == 'F' && name[1] == '1' && 48 <= name[2] as u32
        && name[2] as u32 <= 50) {
        (name.clone(), name.clone(), true)
    } else {
        return None;
    };
    let mods = held_modifiers(h);
    let mods_chars = chars_of(mods.as_str());
    if mods_chars.len() == 0 && !function {
        return None;
    }
    let mut display = mods;
    push_chars(&mut display, shown.as_slice());
    let mut accelerator = String::new();
    if h.ctrl {
        push_str(&mut accelerator, "<Control>");
    }
    if h.alt {
        push_str(&mut accelerator, "<Alt>");
    }
    if h.shift {
        push_str(&mut accelerator, "<Shift>");
    }
    if h.win {
        push_str(&mut accelerator, "<Super>");
    }
    assert(accelerator@ =~= held_accelerator(h));
    push_chars(&mut accelerator, accel.as_slice());
    Some((display, accelerator))
}

/// The key a dialog key name stands for in a parsed hotkey.
pub open spec fn dialog_parsed_key(name: Seq<char>) -> Key {
    if name.len() == 1 {
        Key::Letter(crate::text::lower_char(name[0]))
    } else if name.len() == 2 && name[0] == 'F' {
        Key::Function(((name[1] as u32) - 48) as u8)
    } else if name.len() == 3 && name[0] == 'F' {
        Key::Function(((name[2] as u32) - 38) as u8)
    } else {
        Key::Space
    }
}

/// Every shortcut the dialog picks is a hotkey string that parses back to
/// the modifiers held and the key pressed.
pub proof fn law_dialog_shortcut_parses(name: Seq<char>, h: Held)
    requires
        dialog_shortcut_spec(name, h) is Some,
    ensures
        parse_spec((dialog_shortcut_spec(name, h)->0).0) == Ok::<Combo, (bool, Seq<char>)>(
            Combo { ctrl: h.ctrl, shift: h.shift, alt: h.alt, meta: h.win, key: dialog_parsed_key(name) },
        ),
{
    reveal_strlit("space");
    reveal_strlit("Space");
    reveal_strlit("F");
    let d = (dialog_shortcut_spec(name, h)->0).0;
    if name.len() == 1 && is_ascii_alpha(name[0]) {
        let u = crate::text::upper_char(name[0]);
        let vk = (u as u32) as u16;
        assert(crate::text::ascii_upper(name) =~= seq![u]);
        assert(vk_name(vk) == Some(seq![u]));
        assert(!is_modifier_vk(vk));
        assert(chord_of(vk, h) == Some(d));
        law_captured_chord_parses(vk, h);
        assert(crate::text::lower_char(name[0]) == ((vk as u32) + 32) as char);
    } else if eq_ignore_case(name, "space"@) {
        let vk: u16 = 0x20;
        assert(crate::text::ascii_lower(name).len() == name.len());
        assert(chord_of(vk, h) == Some(d));
        law_captured_chord_parses(vk, h);
    } else {
        assert(is_function_key_name(name));
        reveal_with_fuel(crate::text::decimal, 2);
        let n: u16 = if name.len() == 2 {
            ((name[1] as u32) - 48) as u16
        } else {
            ((name[2] as u32) - 38) as u16
        };
        let vk: u16 = (0x6F + n) as u16;
        if name.len() == 2 {
            vstd::utf8::char_u32_cast(name[1], name[1] as u32);
            assert(crate::text::digit_char(n as nat) == name[1]);
            assert(crate::text::decimal(n as nat) =~= seq![name[1]]);
        } else {
            vstd::utf8::char_u32_cast(name[2], name[2] as u32);
            assert(crate::text::digit_char((n % 10) as nat) == name[2]);
            assert(crate::text::decimal(1) =~= seq!['1']);
            assert(crate::text::decimal(n as nat) =~= seq!['1', name[2]]);
        }
        assert(name =~= "F"@ + crate::text::decimal(n as nat));
        assert(chord_of(vk, h) == Some(d));
        law_captured_chord_parses(vk, h);
    }
}

// ---------------------------------------------------------------------------
// What the dialog saves reads back in the menu
// ---------------------------------------------------------------------------

/// The segments joined front to back.
pub open spec fn flat(segs: Seq<Seq<char>>) -> Seq<char>
    decreases segs.len(),
{
    if segs.len() == 0 {
        Seq::empty()
    } else {
        segs[0] + flat(segs.drop_first())
    }
}

pub open spec fn no_angle(x: Seq<char>) -> bool {
    forall|i: int| 0 <= i < x.len() ==> x[i] != '<'
}

/// An accelerator tag such as `<Control>`: `'<'` first and nowhere else.
pub open spec fn is_tag(x: Seq<char>) -> bool {
    x.len() >= 3 && x[0] == '<' && no_angle(x.drop_first())
}

/// Two tags that part within their first three characters.
pub open spec fn tags_differ(x: Seq<char>, y: Seq<char>) -> bool {
    x.len() >= 3 && y.len() >= 3 && (x[1] != y[1] || x[2] != y[2])
}

pub open spec fn replaced_seg(x: Seq<char>, pat: Seq<char>, rep: Seq<char>) -> Seq<char> {
    if x == pat {
        rep
    } else {
        x
    }
}

proof fn lemma_replace_plain_prefix(x: Seq<char>, y: Seq<char>, pat: Seq<char>, rep: Seq<char>)
    requires
        no_angle(x),
        pat.len() > 0,
        pat[0] == '<',
    ensures
        replace_all(x + y, pat, rep) == x + replace_all(y, pat, rep),
    decreases x.len(),
{
    if x.len() == 0 {
        assert(x + y =~= y);
        assert(x + replace_all(y, pat, rep) =~= replace_all(y, pat, rep));
    } else {
        let s = x + y;
        assert(s[0] == x[0]);
        if pat.len() <= s.len() {
            assert(s.take(pat.len() as int)[0] != pat[0]);
        }
        assert(s.drop_first() =~= x.drop_first() + y);
        lemma_replace_plain_prefix(x.drop_first(), y, pat, rep);
        assert(seq![s[0]] + (x.drop_first() + replace_all(y, pat, rep)) =~= x + replace_all(y, pat, rep));
    }
}

proof fn lemma_replace_match_prefix(y: Seq<char>, pat: Seq<char>, rep: Seq<char>)
    requires
        pat.len() > 0,
    ensures
        replace_all(pat + y, pat, rep) == rep + replace_all(y, pat, rep),
{
    let s = pat + y;
    assert(s.take(pat.len() as int) =~= pat);
    assert(s.skip(pat.len() as int) =~= y);
}

proof fn lemma_replace_other_tag(t: Seq<char>, y: Seq<char>, pat: Seq<char>, rep: Seq<char>)
    requires
        is_tag(t),
        is_tag(pat),
        tags_differ(t, pat),
    ensures
        replace_all(t + y, pat, rep) == t + replace_all(y, pat, rep),
{
    let s = t + y;
    assert(s[1] == t[1] && s[2] == t[2]);
    if pat.len() <= s.len() {
        let tk = s.take(pat.len() as int);
        assert(tk[1] == s[1] && tk[2] == s[2]);
        assert(tk != pat);
    }
    let rest = t.drop_first();
    assert(s.drop_first() =~= rest + y);
    assert(no_angle(rest));
    lemma_replace_plain_prefix(rest, y, pat, rep);
    assert(seq![s[0]] + (rest + replace_all(y, pat, rep)) =~= t + replace_all(y, pat, rep));
}

/// One replacement pass over segments that are plain text, the pattern
/// itself, or other tags: each occurrence of the pattern is replaced where it
/// stands.
proof fn lemma_replace_flat(segs: Seq<Seq<char>>, pat: Seq<char>, rep: Seq<char>)
    requires
        is_tag(pat),
        forall|i: int|
            0 <= i < segs.len() ==> no_angle(#[trigger] segs[i]) || segs[i] == pat || (is_tag(segs[i])
                && tags_differ(segs[i], pat)),
    ensures
        replace_all(flat(segs), pat, rep) == flat(
            segs.map_values(|x: Seq<char>| replaced_seg(x, pat, rep)),
        ),
    decreases segs.len(),
{
    let m = segs.map_values(|x: Seq<char>| replaced_seg(x, pat, rep));
    if segs.len() == 0 {
        assert(m =~= Seq::<Seq<char>>::empty());
    } else {
        let rest = segs.drop_first();
        assert forall|i: int|
            0 <= i < rest.len() implies no_angle(#[trigger] rest[i]) || rest[i] == pat || (is_tag(
                rest[i],
            ) && tags_differ(rest[i], pat)) by {
            assert(rest[i] == segs[i + 1]);
        };
        lemma_replace_flat(rest, pat, rep);
        assert(m.drop_first() =~= rest.map_values(|x: Seq<char>| replaced_seg(x, pat, rep)));
        let x = segs[0];
        if x == pat {
            lemma_replace_match_prefix(flat(rest), pat, rep);
        } else if no_angle(x) {
            lemma_replace_plain_prefix(x, flat(rest), pat, rep);
        } else {
            lemma_replace_other_tag(x, flat(rest), pat, rep);
        }
    }
}

/// The key part of a dialog shortcut's display holds no `'+'` and no `'<'`.
proof fn lemma_rfind_after_plain(x: Seq<char>, k: Seq<char>, c: char)
    requires
        forall|i: int| 0 <= i < k.len() ==> k[i] != c,
    ensures
        rfind_char(x + k, c) == rfind_char(x, c),
    decreases k.len(),
{
    if k.len() == 0 {
        assert(x + k =~= x);
    } else {
        assert((x + k).drop_last() =~= x + k.drop_last());
        lemma_rfind_after_plain(x, k.drop_last(), c);
    }
}

/// One modifier word added to the parts: its tag is added to the modifiers.
proof fn lemma_accel_step(p: Seq<Seq<char>>, m: Seq<char>, on: bool, w: Seq<char>, tag: Seq<char>)
    requires
        accel_parts(p) == (m, Seq::<char>::empty()),
        on ==> accel_parts(p.push(w)) == (m + tag, Seq::<char>::empty()),
    ensures
        accel_parts(push_if(p, on, w)) == (m + (if on { tag } else { Seq::<char>::empty() }),
        Seq::<char>::empty()),
{
    if !on {
        assert(m + Seq::<char>::empty() =~= m);
    }
}

/// What each modifier word adds.
proof fn lemma_accel_word(p: Seq<Seq<char>>, m: Seq<char>)
    requires
        accel_parts(p) == (m, Seq::<char>::empty()),
    ensures
        accel_parts(p.push(seq!['C', 't', 'r', 'l'])) == (m + "<Control>"@, Seq::<char>::empty()),
        accel_parts(p.push(seq!['A', 'l', 't'])) == (m + "<Alt>"@, Seq::<char>::empty()),
        accel_parts(p.push(seq!['S', 'h', 'i', 'f', 't'])) == (m + "<Shift>"@, Seq::<char>::empty()),
        accel_parts(p.push(seq!['S', 'u', 'p', 'e', 'r'])) == (m + "<Super>"@, Seq::<char>::empty()),
{
    reveal_strlit("cmdorctrl");
    reveal_strlit("ctrl");
    reveal_strlit("control");
    reveal_strlit("shift");
    reveal_strlit("alt");
    reveal_strlit("option");
    reveal_strlit("super");
    lemma_modifier_word_forms();
    assert(p.push(seq!['C', 't', 'r', 'l']).drop_last() =~= p);
    assert(p.push(seq!['A', 'l', 't']).drop_last() =~= p);
    assert(p.push(seq!['S', 'h', 'i', 'f', 't']).drop_last() =~= p);
    assert(p.push(seq!['S', 'u', 'p', 'e', 'r']).drop_last() =~= p);
    assert("super"@ != "shift"@) by {
        assert("super"@[1] != "shift"@[1]);
    };
}

/// The accelerator modifiers of the modifier words.
proof fn lemma_accel_words(h: Held)
    ensures
        accel_parts(held_words(h)) == (held_accelerator(h), Seq::<char>::empty()),
{
    let e = Seq::<char>::empty();
    let p0 = Seq::<Seq<char>>::empty();
    let p1 = push_if(p0, h.ctrl, seq!['C', 't', 'r', 'l']);
    let p2 = push_if(p1, h.alt, seq!['A', 'l', 't']);
    let p3 = push_if(p2, h.shift, seq!['S', 'h', 'i', 'f', 't']);
    let m1 = e + if h.ctrl { "<Control>"@ } else { e };
    let m2 = m1 + if h.alt { "<Alt>"@ } else { e };
    let m3 = m2 + if h.shift { "<Shift>"@ } else { e };
    let m4 = m3 + if h.win { "<Super>"@ } else { e };
    lemma_accel_word(p0, e);
    lemma_accel_step(p0, e, h.ctrl, seq!['C', 't', 'r', 'l'], "<Control>"@);
    lemma_accel_word(p1, m1);
    lemma_accel_step(p1, m1, h.alt, seq!['A', 'l', 't'], "<Alt>"@);
    lemma_accel_word(p2, m2);
    lemma_accel_step(p2, m2, h.shift, seq!['S', 'h', 'i', 'f', 't'], "<Shift>"@);
    lemma_accel_word(p3, m3);
    lemma_accel_step(p3, m3, h.win, seq!['S', 'u', 'p', 'e', 'r'], "<Super>"@);
    assert(m4 =~= held_accelerator(h));
}

/// The key of a dialog shortcut that is no function key: as shown, and as
/// it reads lowercased.
pub open spec fn shown_key(name: Seq<char>) -> Seq<char> {
    if name.len() == 1 && is_ascii_alpha(name[0]) {
        seq![crate::text::upper_char(name[0])]
    } else {
        "Space"@
    }
}

pub open spec fn lowered_key(name: Seq<char>) -> Seq<char> {
    if name.len() == 1 && is_ascii_alpha(name[0]) {
        seq![crate::text::lower_char(crate::text::upper_char(name[0]))]
    } else {
        "space"@
    }
}

/// The lowered key names no modifier.
proof fn lemma_lowered_key_plain(name: Seq<char>)
    ensures
        ({
            let k = lowered_key(name);
            &&& k.len() > 0
            &&& !is_ctrl_word(k)
            &&& !is_shift_word(k)
            &&& !is_alt_word(k)
            &&& !is_meta_word(k)
        }),
{
    reveal_strlit("space");
    reveal_strlit("cmdorctrl");
    reveal_strlit("ctrl");
    reveal_strlit("control");
    reveal_strlit("shift");
    reveal_strlit("alt");
    reveal_strlit("option");
    reveal_strlit("super");
    reveal_strlit("meta");
    reveal_strlit("cmd");
    reveal_strlit("win");
    let k = lowered_key(name);
    if !(name.len() == 1 && is_ascii_alpha(name[0])) {
        assert(k == "space"@);
        assert(k.len() == 5);
        assert(k != "shift"@) by {
            assert(k[1] != "shift"@[1]);
        };
        assert(k != "super"@) by {
            assert(k[1] != "super"@[1]);
        };
    } else {
        assert(k.len() == 1);
    }
    assert("cmdorctrl"@.len() == 9 && "ctrl"@.len() == 4 && "control"@.len() == 7);
    assert("alt"@.len() == 3 && "option"@.len() == 6 && "meta"@.len() == 4);
    assert("cmd"@.len() == 3 && "win"@.len() == 3 && "shift"@.len() == 5 && "super"@.len() == 5);
}

/// The display and accelerator of a dialog shortcut without a function key.
proof fn lemma_dialog_parts(name: Seq<char>, h: Held)
    requires
        dialog_shortcut_spec(name, h) is Some,
        !is_function_key_name(name),
    ensures
        (dialog_shortcut_spec(name, h)->0).0 == held_text(h) + shown_key(name),
        held_text(h).len() > 0,
        accelerator_spec((dialog_shortcut_spec(name, h)->0).0) == held_accelerator(h) + lowered_key(name),
        forall|i: int| 0 <= i < lowered_key(name).len() ==> lowered_key(name)[i] != '+' && lowered_key(name)[i] != '<',
        display_key_spec(lowered_key(name)) == shown_key(name),
{
    reveal_strlit("space");
    reveal_strlit("Space");
    let letter = name.len() == 1 && is_ascii_alpha(name[0]);
    let shown = shown_key(name);
    let k = lowered_key(name);
    let ht = held_text(h);
    if letter {
        assert(ascii_upper(name) =~= shown);
    } else {
        assert(ascii_lower(name).len() == name.len());
    }
    let d = ht + shown;
    let p = lemma_prefix(h);
    assert(forall|i: int| 0 <= i < shown.len() ==> shown[i] != '+');
    lemma_split_append(ht, p, shown, '+');
    assert(split_char(d, '+') == p.push(shown));
    assert(p.push(shown).drop_last() =~= p);
    assert(p.push(shown).last() == shown);
    lemma_accel_words(h);
    assert(crate::text::trim(shown) == shown);
    assert(lowercase(shown) == k) by {
        assert(crate::text::ascii_lower(shown) =~= k);
    };
    lemma_lowered_key_plain(name);
    assert(accel_parts(p.push(shown)) == (held_accelerator(h), k));
    assert(display_key_spec(k) == shown) by {
        if letter {
            assert(!eq_ignore_case(k, "space"@)) by {
                assert(ascii_lower(k).len() != ascii_lower("space"@).len());
            };
            assert(ascii_upper(k) =~= shown);
        }
    };
}

/// A non-empty modifier prefix ends with `'+'`.
proof fn lemma_held_text_ends(h: Held)
    requires
        held_text(h).len() > 0,
    ensures
        held_text(h).last() == '+',
{
    reveal_strlit("Ctrl+");
    reveal_strlit("Alt+");
    reveal_strlit("Shift+");
    reveal_strlit("Super+");
    let e = Seq::<char>::empty();
    let a = if h.ctrl { "Ctrl+"@ } else { e };
    let b = if h.alt { "Alt+"@ } else { e };
    let c = if h.shift { "Shift+"@ } else { e };
    let d = if h.win { "Super+"@ } else { e };
    assert(held_text(h) == a + b + c + d);
    if d.len() > 0 {
    } else if c.len() > 0 {
        assert(a + b + c + d =~= a + b + c);
    } else if b.len() > 0 {
        assert(a + b + c + d =~= a + b);
    } else {
        assert(a + b + c + d =~= a);
    }
}

/// The four accelerator tags, and how they part.
proof fn lemma_tag_facts()
    ensures
        is_tag("<Control>"@),
        is_tag("<Alt>"@),
        is_tag("<Shift>"@),
        is_tag("<Super>"@),
        tags_differ("<Control>"@, "<Alt>"@),
        tags_differ("<Control>"@, "<Shift>"@),
        tags_differ("<Control>"@, "<Super>"@),
        tags_differ("<Alt>"@, "<Control>"@),
        tags_differ("<Alt>"@, "<Shift>"@),
        tags_differ("<Alt>"@, "<Super>"@),
        tags_differ("<Shift>"@, "<Control>"@),
        tags_differ("<Shift>"@, "<Alt>"@),
        tags_differ("<Shift>"@, "<Super>"@),
        tags_differ("<Super>"@, "<Control>"@),
        tags_differ("<Super>"@, "<Alt>"@),
        tags_differ("<Super>"@, "<Shift>"@),
        no_angle("Ctrl+"@),
        no_angle("Alt+"@),
        no_angle("Shift+"@),
        no_angle("Super+"@),
        no_angle(Seq::<char>::empty()),
{
    reveal_strlit("<Control>");
    reveal_strlit("<Alt>");
    reveal_strlit("<Shift>");
    reveal_strlit("<Super>");
    reveal_strlit("Ctrl+");
    reveal_strlit("Alt+");
    reveal_strlit("Shift+");
    reveal_strlit("Super+");
}

/// A segment a renaming pass handles where it stands.
pub open spec fn handled(x: Seq<char>, pat: Seq<char>) -> bool {
    no_angle(x) || x == pat || (is_tag(x) && tags_differ(x, pat))
}

proof fn lemma_flat5(a: Seq<char>, b: Seq<char>, c: Seq<char>, d: Seq<char>, e: Seq<char>)
    ensures
        flat(seq![a, b, c, d, e]) == a + b + c + d + e,
{
    let z = Seq::<Seq<char>>::empty();
    let s1 = seq![e];
    let s2 = seq![d, e];
    let s3 = seq![c, d, e];
    let s4 = seq![b, c, d, e];
    let s5 = seq![a, b, c, d, e];
    assert(flat(z) == Seq::<char>::empty());
    assert(s1.drop_first() =~= z);
    assert(flat(s1) == e + flat(z));
    assert(e + Seq::<char>::empty() =~= e);
    assert(s2.drop_first() =~= s1);
    assert(flat(s2) == d + flat(s1));
    assert(s3.drop_first() =~= s2);
    assert(flat(s3) == c + flat(s2));
    assert(s4.drop_first() =~= s3);
    assert(flat(s4) == b + flat(s3));
    assert(s5.drop_first() =~= s4);
    assert(flat(s5) == a + flat(s4));
    assert(a + (b + (c + (d + e))) =~= a + b + c + d + e);
}

/// One renaming pass over the five segments of a description.
proof fn lemma_pass(
    x0: Seq<char>,
    x1: Seq<char>,
    x2: Seq<char>,
    x3: Seq<char>,
    x4: Seq<char>,
    pat: Seq<char>,
    rep: Seq<char>,
)
    requires
        is_tag(pat),
        handled(x0, pat),
        handled(x1, pat),
        handled(x2, pat),
        handled(x3, pat),
        handled(x4, pat),
    ensures
        replace_all(x0 + x1 + x2 + x3 + x4, pat, rep) == replaced_seg(x0, pat, rep) + replaced_seg(
            x1,
            pat,
            rep,
        ) + replaced_seg(x2, pat, rep) + replaced_seg(x3, pat, rep) + replaced_seg(x4, pat, rep),
{
    let s = seq![x0, x1, x2, x3, x4];
    assert forall|i: int| 0 <= i < s.len() implies no_angle(#[trigger] s[i]) || s[i] == pat || (
    is_tag(s[i]) && tags_differ(s[i], pat)) by {
        assert(handled(s[i], pat));
    };
    lemma_replace_flat(s, pat, rep);
    let out = seq![
        replaced_seg(x0, pat, rep),
        replaced_seg(x1, pat, rep),
        replaced_seg(x2, pat, rep),
        replaced_seg(x3, pat, rep),
        replaced_seg(x4, pat, rep),
    ];
    assert(s.map_values(|x: Seq<char>| replaced_seg(x, pat, rep)) =~= out);
    lemma_flat5(x0, x1, x2, x3, x4);
    lemma_flat5(out[0], out[1], out[2], out[3], out[4]);
}

/// Renaming the accelerator tags gives back the display's modifier prefix.
proof fn lemma_tags_renamed(h: Held, k: Seq<char>)
    requires
        no_angle(k),
    ensures
        named_modifiers("Press "@ + (held_accelerator(h) + k)) == held_text(h) + k,
        strip_prefix(held_accelerator(h) + k, "Press "@) is None ==> named_modifiers(
            held_accelerator(h) + k,
        ) == held_text(h) + k,
{
    reveal_strlit("Press ");
    lemma_tag_facts();
    let e = Seq::<char>::empty();
    let a = held_accelerator(h);
    let t = "Press "@ + (a + k);
    assert(t.take(6) =~= "Press "@);
    assert(t.skip(6) =~= a + k);
    assert(strip_prefix(t, "Press "@) == Some(a + k));
    let tc = if h.ctrl { "<Control>"@ } else { e };
    let ta = if h.alt { "<Alt>"@ } else { e };
    let ts = if h.shift { "<Shift>"@ } else { e };
    let tu = if h.win { "<Super>"@ } else { e };
    let cc = if h.ctrl { "Ctrl+"@ } else { e };
    let ca = if h.alt { "Alt+"@ } else { e };
    let cs = if h.shift { "Shift+"@ } else { e };
    let cu = if h.win { "Super+"@ } else { e };
    assert(a + k == tc + ta + ts + tu + k);
    lemma_pass(tc, ta, ts, tu, k, "<Control>"@, "Ctrl+"@);
    assert(replaced_seg(tc, "<Control>"@, "Ctrl+"@) == cc);
    assert(replaced_seg(ta, "<Control>"@, "Ctrl+"@) == ta);
    assert(replaced_seg(ts, "<Control>"@, "Ctrl+"@) == ts);
    assert(replaced_seg(tu, "<Control>"@, "Ctrl+"@) == tu);
    assert(replaced_seg(k, "<Control>"@, "Ctrl+"@) == k);
    lemma_pass(cc, ta, ts, tu, k, "<Alt>"@, "Alt+"@);
    assert(replaced_seg(cc, "<Alt>"@, "Alt+"@) == cc);
    assert(replaced_seg(ta, "<Alt>"@, "Alt+"@) == ca);
    assert(replaced_seg(ts, "<Alt>"@, "Alt+"@) == ts);
    assert(replaced_seg(tu, "<Alt>"@, "Alt+"@) == tu);
    assert(replaced_seg(k, "<Alt>"@, "Alt+"@) == k);
    lemma_pass(cc, ca, ts, tu, k, "<Shift>"@, "Shift+"@);
    assert(replaced_seg(cc, "<Shift>"@, "Shift+"@) == cc);
    assert(replaced_seg(ca, "<Shift>"@, "Shift+"@) == ca);
    assert(replaced_seg(ts, "<Shift>"@, "Shift+"@) == cs);
    assert(replaced_seg(tu, "<Shift>"@, "Shift+"@) == tu);
    assert(replaced_seg(k, "<Shift>"@, "Shift+"@) == k);
    lemma_pass(cc, ca, cs, tu, k, "<Super>"@, "Super+"@);
    assert(replaced_seg(cc, "<Super>"@, "Super+"@) == cc);
    assert(replaced_seg(ca, "<Super>"@, "Super+"@) == ca);
    assert(replaced_seg(cs, "<Super>"@, "Super+"@) == cs);
    assert(replaced_seg(tu, "<Super>"@, "Super+"@) == cu);
    assert(replaced_seg(k, "<Super>"@, "Super+"@) == k);
    assert(cc + ca + cs + cu + k == held_text(h) + k);
    assert(named_modifiers(t) == held_text(h) + k);
}

/// A shortcut the dialog saves (a letter or Space, with modifiers), turned
/// into an accelerator by `to_accelerator` and reported back by the portal as
/// "Press <accelerator>", shows in the menu exactly as the dialog displayed
/// it. Function keys are left out: `to_accelerator` lowercases them, so
/// "Ctrl+F9" is saved as "<Control>f9" and reads back as "Ctrl+f9".
pub proof fn law_saved_shortcut_reads_back(name: Seq<char>, h: Held)
    requires
        dialog_shortcut_spec(name, h) is Some,
        !is_function_key_name(name),
    ensures
        display_shortcut_spec("Press "@ + accelerator_spec((dialog_shortcut_spec(name, h)->0).0))
            == (dialog_shortcut_spec(name, h)->0).0,
{
    reveal_strlit("+");
    lemma_dialog_parts(name, h);
    let ht = held_text(h);
    let k = lowered_key(name);
    lemma_tags_renamed(h, k);
    lemma_rfind_after_plain(ht, k, '+');
    lemma_held_text_ends(h);
    assert(rfind_char(ht, '+') == Some(ht.len() - 1));
    assert((ht + k).take(ht.len() - 1) =~= ht.drop_last());
    assert((ht + k).skip(ht.len() as int) =~= k);
    assert(rsplit_once(ht + k, '+') == Some((ht.drop_last(), k)));
    assert(ht.drop_last() + "+"@ + shown_key(name) =~= ht + shown_key(name));
}

/// The key part of a dialog shortcut: as its accelerator ends, and as the
/// display shows it.
proof fn lemma_dialog_accel_parts(name: Seq<char>, h: Held) -> (r: (Seq<char>, Seq<char>))
    requires
        dialog_shortcut_spec(name, h) is Some,
    ensures
        (dialog_shortcut_spec(name, h)->0).0 == held_text(h) + r.1,
        (dialog_shortcut_spec(name, h)->0).1 == held_accelerator(h) + r.0,
        no_angle(r.0),
        forall|i: int| 0 <= i < r.0.len() ==> r.0[i] != '+',
        0 < r.0.len() <= 5,
        r.0[0] != 'P',
        display_key_spec(r.0) == r.1,
        held_text(h).len() == 0 ==> r.0.len() <= 3,
{
    reveal_strlit("space");
    reveal_strlit("Space");
    match dialog_key(name) {
        Some((shown, accel, function)) => {
            if name.len() == 1 && is_ascii_alpha(name[0]) {
                let c = name[0];
                assert(accel =~= seq![crate::text::lower_char(c)]);
                assert(shown =~= seq![crate::text::upper_char(c)]);
                let l = crate::text::lower_char(c);
                assert(is_lower_ascii(l));
                assert(!eq_ignore_case(accel, "space"@)) by {
                    assert(ascii_lower(accel).len() != ascii_lower("space"@).len());
                };
                assert(all_ascii(accel));
                assert(crate::text::upper_char(l) == crate::text::upper_char(c)) by {
                    vstd::utf8::char_u32_cast(c, c as u32);
                };
                assert(ascii_upper(accel) =~= shown);
            } else if eq_ignore_case(name, "space"@) {
                assert(accel == "space"@);
                assert(ascii_lower(accel) =~= ascii_lower("space"@)) by {
                    assert(ascii_lower("space"@) =~= "space"@);
                };
            } else {
                assert(is_function_key_name(name));
                assert(accel == name && shown == name);
                assert(!eq_ignore_case(name, "space"@)) by {
                    assert(ascii_lower(name).len() != ascii_lower("space"@).len());
                };
                assert(name[0] == 'F');
            }
            (accel, shown)
        },
        None => (Seq::empty(), Seq::empty()),
    }
}

/// Every shortcut the dialog picks reads back in the menu as the dialog
/// displayed it: the portal's description of its accelerator, with or
/// without "Press " before it, shows as the display. Function keys included.
pub proof fn law_dialog_accelerator_reads_back(name: Seq<char>, h: Held)
    requires
        dialog_shortcut_spec(name, h) is Some,
    ensures
        display_shortcut_spec((dialog_shortcut_spec(name, h)->0).1) == (dialog_shortcut_spec(
            name,
            h,
        )->0).0,
        display_shortcut_spec("Press "@ + (dialog_shortcut_spec(name, h)->0).1) == (
        dialog_shortcut_spec(name, h)->0).0,
{
    reveal_strlit("+");
    reveal_strlit("Press ");
    reveal_strlit("<Control>");
    reveal_strlit("<Alt>");
    reveal_strlit("<Shift>");
    reveal_strlit("<Super>");
    let (k, sk) = lemma_dialog_accel_parts(name, h);
    let ht = held_text(h);
    let ha = held_accelerator(h);
    let a = ha + k;
    let d = ht + sk;
    assert(strip_prefix(a, "Press "@) is None) by {
        if "Press "@.len() <= a.len() && a.take(6) == "Press "@ {
            assert(a.take(6)[0] == 'P');
            if ha.len() > 0 {
                assert(a[0] == ha[0]);
                assert(ha[0] == '<');
            } else {
                assert(ht.len() == 0);
                assert(a =~= k);
            }
        }
    };
    lemma_tags_renamed(h, k);
    lemma_rfind_after_plain(ht, k, '+');
    if ht.len() > 0 {
        lemma_held_text_ends(h);
        assert(rfind_char(ht, '+') == Some(ht.len() - 1));
        assert((ht + k).take(ht.len() - 1) =~= ht.drop_last());
        assert((ht + k).skip(ht.len() as int) =~= k);
        assert(rsplit_once(ht + k, '+') == Some((ht.drop_last(), k)));
        assert(ht.drop_last() + "+"@ + sk =~= d);
    } else {
        assert(ht + k =~= k);
        assert(rfind_char(ht, '+') is None);
        assert(d =~= sk);
    }
}

/// Letters count in either case: GTK names a letter by its case ("D" while
/// Shift is held), and the dialog shows it uppercase and writes it lowercase
/// in the accelerator, the same shortcut for "d" and "D". With at least one
/// modifier held it is taken; with none it is refused.
pub proof fn law_dialog_letters_any_case(c: char, h: Held)
    requires
        65 <= (c as u32) <= 90 || 97 <= (c as u32) <= 122,
    ensures
        (h.ctrl || h.alt || h.shift || h.win) ==> dialog_shortcut_spec(seq![c], h) == Some(
            (
                held_text(h) + seq![crate::text::upper_char(c)],
                held_accelerator(h) + seq![crate::text::lower_char(c)],
            ),
        ),
        !(h.ctrl || h.alt || h.shift || h.win) ==> dialog_shortcut_spec(seq![c], h) is None,
        dialog_shortcut_spec(seq![crate::text::upper_char(c)], h) == dialog_shortcut_spec(
            seq![crate::text::lower_char(c)],
            h,
        ),
{
    reveal_strlit("space");
    reveal_strlit("Ctrl+");
    reveal_strlit("Alt+");
    reveal_strlit("Shift+");
    reveal_strlit("Super+");
    assert(held_text(h).len() > 0 <==> (h.ctrl || h.alt || h.shift || h.win));
    let u = crate::text::upper_char(c);
    let l = crate::text::lower_char(c);
    vstd::utf8::char_u32_cast(c, c as u32);
    assert(65 <= (u as u32) <= 90);
    assert(97 <= (l as u32) <= 122);
    assert(crate::text::upper_char(u) == u);
    assert(crate::text::upper_char(l) == u);
    assert(crate::text::lower_char(u) == l);
    assert(crate::text::lower_char(l) == l);
    assert(ascii_upper(seq![c]) =~= seq![u]);
    assert(ascii_lower(seq![c]) =~= seq![l]);
    assert(ascii_upper(seq![u]) =~= seq![u]);
    assert(ascii_lower(seq![u]) =~= seq![l]);
    assert(ascii_upper(seq![l]) =~= seq![u]);
    assert(ascii_lower(seq![l]) =~= seq![l]);
}

/// Which of the two dictation shortcuts a dialog is rebinding.
#[derive(Debug, Clone, Copy, PartialEq, Eq, Structural)]
pub enum Which {
    Raw,
    Prompt,
}

/// Both bindings after the dialog picks `display` for one of them: the
/// untouched one is written back alongside, as `(raw, prompt)`.
pub fn dialog_bindings(which: Which, display: &str, raw: &str, prompt: &str) -> (r: (String, String))
    ensures
        which == Which::Raw ==> r.0@ == display@ && r.1@ == prompt@,
        which == Which::Prompt ==> r.0@ == raw@ && r.1@ == display@,
{
    match which {
        Which::Raw => (string_of(chars_of(display).as_slice()), string_of(chars_of(prompt).as_slice())),
        Which::Prompt => (string_of(chars_of(raw).as_slice()), string_of(chars_of(display).as_slice())),
    }
}

/// The gsettings value that binds both shortcuts, given their display forms.
pub open spec fn gsettings_value_spec(raw: Seq<char>, prompt: Seq<char>) -> Seq<char> {
    "[('"@ + SHORTCUT_ID@ + "', {'shortcuts': <['"@ + accelerator_spec(raw)
        + "']>, 'description': <'Start/stop voice dictation'>}), ('"@ + PROMPT_SHORTCUT_ID@
        + "', {'shortcuts': <['"@ + accelerator_spec(prompt)
        + "']>, 'description': <'Start/stop dictation in prompt mode'>})]"@
}

pub fn gsettings_value(raw: &str, prompt: &str) -> (r: String)
    ensures
        r@ == gsettings_value_spec(raw@, prompt@),
{
    let mut s = String::new();
    push_str(&mut s, "[('");
    push_str(&mut s, SHORTCUT_ID);
    push_str(&mut s, "', {'shortcuts': <['");
    let a = to_accelerator(raw);
    push_str(&mut s, a.as_str());
    push_str(&mut s, "']>, 'description': <'Start/stop voice dictation'>}), ('");
    push_str(&mut s, PROMPT_SHORTCUT_ID);
    push_str(&mut s, "', {'shortcuts': <['");
    let b = to_accelerator(prompt);
    push_str(&mut s, b.as_str());
    push_str(&mut s, "']>, 'description': <'Start/stop dictation in prompt mode'>})]");
    s
}

// ---------------------------------------------------------------------------
// What the menu shows
// ---------------------------------------------------------------------------

/// The dictate rows' texts and whether they are enabled, per phase.
pub open spec fn phase_rows_spec(phase: Phase) -> (Seq<char>, Seq<char>, bool) {
    match phase {
        Phase::Idle => ("Dictate raw"@, "Dictate prompt"@, true),
        Phase::Recording => ("Stop"@, "Stop"@, true),
        Phase::Transcribing => ("Transcribing..."@, "Transcribing..."@, false),
    }
}

pub fn phase_rows(phase: Phase) -> (r: (&'static str, &'static str, bool))
    ensures
        (r.0@, r.1@, r.2) == phase_rows_spec(phase),
{
    match phase {
        Phase::Idle => ("Dictate raw", "Dictate prompt", true),
        Phase::Recording => ("Stop", "Stop", true),
        Phase::Transcribing => ("Transcribing...", "Transcribing...", false),
    }
}

/// The status row: shown only while something is wrong, the unreachable
/// speech server first.
pub open spec fn problem_spec(server_reachable: bool, prompt_enabled: bool, have_api_key: bool) -> Option<Seq<char>> {
    if !server_reachable {
        Some("Speech server offline"@)
    } else if prompt_enabled && !have_api_key {
        Some("Prompt mode needs ANTHROPIC_API_KEY"@)
    } else {
        None
    }
}

pub fn problem(server_reachable: bool, prompt_enabled: bool, have_api_key: bool) -> (r: Option<String>)
    ensures
        match r {
            Some(s) => problem_spec(server_reachable, prompt_enabled, have_api_key) == Some(s@),
            None => problem_spec(server_reachable, prompt_enabled, have_api_key) is None,
        },
{
    if !server_reachable {
        Some(string_of(chars_of("Speech server offline").as_slice()))
    } else if prompt_enabled && !have_api_key {
        Some(string_of(chars_of("Prompt mode needs ANTHROPIC_API_KEY").as_slice()))
    } else {
        None
    }
}

/// Whether the paste shortcut is Ctrl+Shift+V (in any case).
pub fn pastes_with_shift(paste_shortcut: &str) -> (b: bool)
    ensures
        b == eq_ignore_case(paste_shortcut@, "Ctrl+Shift+V"@),
{
    eq_ignore_ascii_case(chars_of(paste_shortcut).as_slice(), chars_of("Ctrl+Shift+V").as_slice())
}

/// The paste submenu's state for a choice: the shortcut, whether each of the
/// two rows is checked (Ctrl+V, Ctrl+Shift+V), and the submenu's text.
pub fn paste_choice(with_shift: bool) -> (r: (&'static str, bool, bool, &'static str))
    ensures
        r.0@ == (if with_shift { "Ctrl+Shift+V"@ } else { "Ctrl+V"@ }),
        r.1 == !with_shift,
        r.2 == with_shift,
        r.3@ == "Paste with: "@ + r.0@,
{
    proof {
        reveal_strlit("Ctrl+Shift+V");
        reveal_strlit("Ctrl+V");
        reveal_strlit("Paste with: ");
        reveal_strlit("Paste with: Ctrl+Shift+V");
        reveal_strlit("Paste with: Ctrl+V");
    }
    if with_shift {
        let r = ("Ctrl+Shift+V", false, true, "Paste with: Ctrl+Shift+V");
        assert(r.3@ =~= "Paste with: "@ + r.0@);
        r
    } else {
        let r = ("Ctrl+V", true, false, "Paste with: Ctrl+V");
        assert(r.3@ =~= "Paste with: "@ + r.0@);
        r
    }
}

/// A shortcut row's text: "Raw: Ctrl+Space" or "Prompt: ...".
pub fn shortcut_row(which: Which, shortcut: &str) -> (r: String)
    ensures
        r@ == (match which {
            Which::Raw => "Raw: "@,
            Which::Prompt => "Prompt: "@,
        }) + shortcut@,
{
    let mut s = String::new();
    match which {
        Which::Raw => push_str(&mut s, "Raw: "),
        Which::Prompt => push_str(&mut s, "Prompt: "),
    }
    push_str(&mut s, shortcut);
    s
}

// ---------------------------------------------------------------------------
// Changing the hotkey from a captured chord (Windows)
// ---------------------------------------------------------------------------

/// The hotkey a captured chord asks for, or the notification when it does
/// not parse: "Invalid combination: " and the parse error's message.
pub fn hotkey_change(combo: &str) -> (r: Result<global_hotkey::hotkey::HotKey, String>)
    ensures
        match r {
            Ok(h) => parse_spec(combo@) is Ok && h == crate::hotkey::global_hotkey(
                parse_spec(combo@)->Ok_0.ctrl,
                parse_spec(combo@)->Ok_0.shift,
                parse_spec(combo@)->Ok_0.alt,
                parse_spec(combo@)->Ok_0.meta,
                crate::hotkey::code_name(parse_spec(combo@)->Ok_0.key),
            ),
            Err(m) => parse_spec(combo@) is Err && exists|e: crate::hotkey::HotkeyError|
                parse_spec(combo@) == Err::<Combo, (bool, Seq<char>)>(crate::hotkey::error_view(e))
                    && m@ == "Invalid combination: "@ + (match e {
                    crate::hotkey::HotkeyError::UnknownKey(t) => "unknown key: "@ + t@,
                    crate::hotkey::HotkeyError::NoKey(t) => "no key in hotkey: "@ + t@,
                }),
        },
{
    match crate::hotkey::parse(combo) {
        Ok(h) => Ok(h),
        Err(e) => {
            let mut m = String::new();
            push_str(&mut m, "Invalid combination: ");
            let em = e.message();
            push_str(&mut m, em.as_str());
            Err(m)
        },
    }
}

/// The notification after registering the new hotkey: "Hotkey set to
/// <combo>", or "Could not set <combo>: <error>" when registering failed (the
/// previous hotkey is registered again).
pub fn hotkey_change_message(combo: &str, registered: Result<(), &str>) -> (m: String)
    ensures
        match registered {
            Ok(()) => m@ == "Hotkey set to "@ + combo@,
            Err(e) => m@ == "Could not set "@ + combo@ + ": "@ + e@,
        },
{
    let mut m = String::new();
    match registered {
        Ok(()) => {
            push_str(&mut m, "Hotkey set to ");
            push_str(&mut m, combo);
        },
        Err(e) => {
            push_str(&mut m, "Could not set ");
            push_str(&mut m, combo);
            push_str(&mut m, ": ");
            push_str(&mut m, e);
        },
    }
    m
}

// ---------------------------------------------------------------------------
// The tray loop's bookkeeping
// ---------------------------------------------------------------------------

/// What the tray currently shows.
pub struct TrayView {
    pub phase: Phase,
    pub problem: Option<Seq<char>>,
    pub shortcut: Seq<char>,
    pub prompt_shortcut: Seq<char>,
}

/// What one pass of the tray loop has to change.
pub struct TrayUpdate {
    /// New dictate rows and icon, when the phase changed.
    pub phase: Option<Phase>,
    /// A dictation just finished: reload the history rows.
    pub reload_history: bool,
    /// The status row, when it changed: `Some(None)` hides it.
    pub problem: Option<Option<String>>,
    /// New shortcut row texts, when the shortcuts changed.
    pub shortcut_row: Option<String>,
    pub prompt_shortcut_row: Option<String>,
}

pub struct Tray {
    phase: Phase,
    problem: Option<String>,
    shortcut: String,
    prompt_shortcut: String,
}

pub open spec fn opt_view(o: Option<String>) -> Option<Seq<char>> {
    match o {
        Some(s) => Some(s@),
        None => None,
    }
}

impl View for Tray {
    type V = TrayView;

    closed spec fn view(&self) -> TrayView {
        TrayView {
            phase: self.phase,
            problem: opt_view(self.problem),
            shortcut: self.shortcut@,
            prompt_shortcut: self.prompt_shortcut@,
        }
    }
}

/// One pass: what changed since the last, and what the tray shows after it.
pub open spec fn refresh_spec(
    t: TrayView,
    phase: Phase,
    problem: Option<Seq<char>>,
    shortcut: Seq<char>,
    prompt_shortcut: Seq<char>,
) -> TrayView {
    TrayView { phase, problem, shortcut, prompt_shortcut }
}

/// Whether two optional texts are equal.
fn same_text(a: &Option<String>, b: &Option<String>) -> (r: bool)
    ensures
        r == (opt_view(*a) == opt_view(*b)),
{
    match a {
        Some(x) => match b {
            Some(y) => x.eq(y),
            None => false,
        },
        None => match b {
            Some(_) => false,
            None => true,
        },
    }
}

impl Tray {
    /// The tray as first drawn: idle, no status row, the given shortcuts.
    pub fn new(shortcut: &str, prompt_shortcut: &str) -> (t: Self)
        ensures
            t@ == (TrayView {
                phase: Phase::Idle,
                problem: None,
                shortcut: shortcut@,
                prompt_shortcut: prompt_shortcut@,
            }),
    {
        Tray {
            phase: Phase::Idle,
            problem: None,
            shortcut: string_of(chars_of(shortcut).as_slice()),
            prompt_shortcut: string_of(chars_of(prompt_shortcut).as_slice()),
        }
    }

    /// Compares the current state with what is shown.
    pub fn refresh(
        &mut self,
        phase: Phase,
        server_reachable: bool,
        prompt_enabled: bool,
        have_api_key: bool,
        shortcut: &str,
        prompt_shortcut: &str,
    ) -> (u: TrayUpdate)
        ensures
            final(self)@ == refresh_spec(
                old(self)@,
                phase,
                problem_spec(server_reachable, prompt_enabled, have_api_key),
                shortcut@,
                prompt_shortcut@,
            ),
            u.phase == (if phase != old(self)@.phase { Some(phase) } else { None }),
            u.reload_history == (old(self)@.phase == Phase::Transcribing && phase == Phase::Idle),
            match u.problem {
                Some(p) => opt_view(p) == problem_spec(server_reachable, prompt_enabled, have_api_key)
                    && opt_view(p) != old(self)@.problem,
                None => problem_spec(server_reachable, prompt_enabled, have_api_key)
                    == old(self)@.problem,
            },
            match u.shortcut_row {
                Some(r) => shortcut@ != old(self)@.shortcut && r@ == "Raw: "@ + shortcut@,
                None => shortcut@ == old(self)@.shortcut,
            },
            match u.prompt_shortcut_row {
                Some(r) => prompt_shortcut@ != old(self)@.prompt_shortcut && r@ == "Prompt: "@
                    + prompt_shortcut@,
                None => prompt_shortcut@ == old(self)@.prompt_shortcut,
            },
    {
        let phase_changed = phase != self.phase;
        let reload_history = self.phase == Phase::Transcribing && phase == Phase::Idle;
        self.phase = phase;
        let p = problem(server_reachable, prompt_enabled, have_api_key);
        let same_problem = same_text(&p, &self.problem);
        let problem_update = if same_problem {
            None
        } else {
            let shown = match &p {
                Some(text) => Some(string_of(chars_of(text.as_str()).as_slice())),
                None => None,
            };
            self.problem = shown;
            Some(p)
        };
        let s = string_of(chars_of(shortcut).as_slice());
        let raw_row = if s == self.shortcut {
            None
        } else {
            self.shortcut = s;
            Some(shortcut_row(Which::Raw, shortcut))
        };
        let ps = string_of(chars_of(prompt_shortcut).as_slice());
        let prompt_shortcut_row = if ps == self.prompt_shortcut {
            None
        } else {
            self.prompt_shortcut = ps;
            Some(shortcut_row(Which::Prompt, prompt_shortcut))
        };
        TrayUpdate {
            phase: if phase_changed { Some(phase) } else { None },
            reload_history,
            problem: problem_update,
            shortcut_row: raw_row,
            prompt_shortcut_row,
        }
    }
}

// ---------------------------------------------------------------------------
// Icon colour
// ---------------------------------------------------------------------------

/// The colour the microphone is drawn in: red while recording, white
/// otherwise.
pub open spec fn icon_color_spec(phase: Phase) -> (u8, u8, u8) {
    if phase == Phase::Recording {
        (230, 40, 40)
    } else {
        (255, 255, 255)
    }
}

pub fn icon_color(phase: Phase) -> (c: (u8, u8, u8))
    ensures
        c == icon_color_spec(phase),
{
    if phase == Phase::Recording {
        (230, 40, 40)
    } else {
        (255, 255, 255)
    }
}

/// The RGBA pixels with each of the first `pixels` pixels that is visible
/// (alpha above zero) recoloured; alpha, invisible pixels and any bytes past
/// the first `pixels` pixels are kept.
pub open spec fn recolored(rgba: Seq<u8>, pixels: nat, color: (u8, u8, u8)) -> Seq<u8> {
    Seq::new(
        rgba.len(),
        |i: int|
            {
                let base = i - i % 4;
                let visible = i < 4 * pixels && rgba[base + 3] > 0;
                if visible && i % 4 == 0 {
                    color.0
                } else if visible && i % 4 == 1 {
                    color.1
                } else if visible && i % 4 == 2 {
                    color.2
                } else {
                    rgba[i]
                }
            },
    )
}

/// Recolours the visible pixels among the first `pixels` of an RGBA buffer.
pub fn recolor(rgba: &mut Vec<u8>, pixels: usize, color: (u8, u8, u8))
    requires
        4 * pixels <= old(rgba)@.len(),
    ensures
        final(rgba)@ == recolored(old(rgba)@, pixels as nat, color),
{
    let ghost orig = rgba@;
    let n = rgba.len();
    let mut q: usize = 0;
    while q < pixels
        invariant
            n == rgba.len(),
            orig.len() == n,
            4 * pixels <= n,
            q <= pixels,
            forall|i: int| 0 <= i < 4 * q ==> rgba@[i] == recolored(orig, pixels as nat, color)[i],
            forall|i: int| 4 * q <= i < n ==> rgba@[i] == orig[i],
        decreases pixels - q,
    {
        let p = 4 * q;
        if rgba[p + 3] > 0 {
            rgba.set(p, color.0);
            rgba.set(p + 1, color.1);
            rgba.set(p + 2, color.2);
        }
        assert forall|i: int| p <= i < p + 4 implies rgba@[i] == recolored(
            orig,
            pixels as nat,
            color,
        )[i] by {
            assert(i - i % 4 == p);
        };
        q = q + 1;
    }
    assert forall|i: int| 4 * pixels <= i < n implies rgba@[i] == recolored(
        orig,
        pixels as nat,
        color,
    )[i] by {};
    assert(rgba@ =~= recolored(orig, pixels as nat, color));
}

/// Every visible pixel of an icon is drawn in its phase's colour and keeps its
/// alpha; every invisible pixel is left as it was. Idle and Transcribing draw
/// the same icon, in white; Recording draws it in red.
pub proof fn law_icon_colour(raw: Seq<u8>, w: u32, h: u32, phase: Phase)
    requires
        raw.len() == 4 * (w as int) * (h as int),
    ensures
        ({
            let v = recolored(raw, (w as nat) * (h as nat), icon_color_spec(phase));
            let c = icon_color_spec(phase);
            &&& v.len() == raw.len()
            &&& forall|p: int|
                0 <= p < (w as int) * (h as int) ==> {
                    &&& #[trigger] v[4 * p + 3] == raw[4 * p + 3]
                    &&& raw[4 * p + 3] > 0 ==> v[4 * p] == c.0 && v[4 * p + 1] == c.1 && v[4 * p + 2] == c.2
                    &&& raw[4 * p + 3] == 0 ==> v[4 * p] == raw[4 * p] && v[4 * p + 1] == raw[4 * p + 1]
                        && v[4 * p + 2] == raw[4 * p + 2]
                }
        }),
        recolored(raw, (w as nat) * (h as nat), icon_color_spec(Phase::Idle)) == recolored(
            raw,
            (w as nat) * (h as nat),
            icon_color_spec(Phase::Transcribing),
        ),
        icon_color_spec(Phase::Idle) == (255u8, 255u8, 255u8),
        icon_color_spec(Phase::Recording) == (230u8, 40u8, 40u8),
{
    let n = (w as nat) * (h as nat);
    let c = icon_color_spec(phase);
    let v = recolored(raw, n, c);
    assert forall|p: int| 0 <= p < (w as int) * (h as int) implies {
        &&& #[trigger] v[4 * p + 3] == raw[4 * p + 3]
        &&& raw[4 * p + 3] > 0 ==> v[4 * p] == c.0 && v[4 * p + 1] == c.1 && v[4 * p + 2] == c.2
        &&& raw[4 * p + 3] == 0 ==> v[4 * p] == raw[4 * p] && v[4 * p + 1] == raw[4 * p + 1]
            && v[4 * p + 2] == raw[4 * p + 2]
    } by {
        assert((4 * p) % 4 == 0 && (4 * p + 1) % 4 == 1 && (4 * p + 2) % 4 == 2 && (4 * p + 3) % 4
            == 3) by (nonlinear_arith)
            requires
                0 <= p,
        ;
        assert(4 * p + 3 < 4 * n && 4 * n == raw.len()) by (nonlinear_arith)
            requires
                0 <= p < (w as int) * (h as int),
                n == (w as int) * (h as int),
                raw.len() == 4 * (w as int) * (h as int),
        ;
        let b = 4 * p;
        assert((b + 1) - (b + 1) % 4 == b && (b + 2) - (b + 2) % 4 == b && (b + 3) - (b + 3) % 4 == b
            && b - b % 4 == b);
    };
}

/// The pixels `image::load_from_memory` decodes from these bytes, as RGBA8
/// with the width and height; `None` when the bytes do not decode.
pub uninterp spec fn decoded_rgba(bytes: Seq<u8>) -> Option<(Seq<u8>, u32, u32)>;

/// Calls `image::load_from_memory` and converts the image to RGBA8
/// (`into_rgba8`), returning its raw buffer and dimensions. The result is
/// named `decoded_rgba`. Stated beside the name: the buffer holds exactly four
/// bytes for each of the width times height pixels. The decoder's buffer is
/// allocated at `total_bytes`, width times height times the bytes per pixel
/// (`decoder_to_vec`), and a conversion to RGBA8 builds a new buffer of that
/// size (`ImageBuffer::new`).
#[verifier::external_body]
fn decode_rgba(bytes: &[u8]) -> (r: Option<(Vec<u8>, u32, u32)>)
    ensures
        match r {
            Some((v, w, h)) => decoded_rgba(bytes@) == Some((v@, w, h)) && 4 * (w as int) * (
            h as int) == v@.len(),
            None => decoded_rgba(bytes@) is None,
        },
{
    let img = image::load_from_memory(bytes).ok()?.into_rgba8();
    let (w, h) = img.dimensions();
    Some((img.into_raw(), w, h))
}

/// The tray icon for a phase, decoded from the PNG `png` and drawn in the
/// phase's colour: the RGBA pixels, width and height. `None` when `png` does
/// not decode.
pub fn icon_rgba(png: &[u8], phase: Phase) -> (r: Option<(Vec<u8>, u32, u32)>)
    ensures
        match r {
            Some((v, w, h)) => decoded_rgba(png@) matches Some((raw, dw, dh)) && w == dw && h == dh
                && v@ == recolored(raw, (w as nat) * (h as nat), icon_color_spec(phase))
                && raw.len() == 4 * (w as int) * (h as int),
            None => decoded_rgba(png@) is None,
        },
{
    match decode_rgba(png) {
        Some((raw, w, h)) => {
            let mut rgba = raw;
            let len = rgba.len();
            assert((w as int) * (h as int) <= len && 4 * ((w as int) * (h as int)) <= len) by (nonlinear_arith)
                requires
                    4 * (w as int) * (h as int) == len,
            ;
            let pixels = (w as usize) * (h as usize);
            recolor(&mut rgba, pixels, icon_color(phase));
            Some((rgba, w, h))
        },
        None => None,
    }
}

} // verus!
