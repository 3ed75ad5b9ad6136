//! Hotkey strings such as "Ctrl+Alt+D" or "F9": parsing them, and the
//! `global_hotkey` value a parsed combination is registered as.

use vstd::prelude::*;
use crate::text::{
    all_ascii, ascii_lower, lemma_split_append, lemma_trim_ascii, chars_of, decimal, eq_str, is_lower_ascii, push_char, push_decimal, push_str,
    split_char, split_char_of, string_of, to_ascii_uppercase, to_lowercase, trim, trim_of,
    lowercase, upper_char, views,
};
use global_hotkey::hotkey::{Code, HotKey, Modifiers};

verus! {

/// The main key of a combination.
#[derive(Debug, Clone, Copy, PartialEq, Eq, Structural)]
pub enum Key {
    Space,
    /// A letter key, held as its lowercase ASCII letter.
    Letter(char),
    /// A function key, `F1` to `F12`.
    Function(u8),
}

/// A parsed combination: the modifiers held and the main key.
#[derive(Debug, Clone, Copy, PartialEq, Eq, Structural)]
pub struct Combo {
    pub ctrl: bool,
    pub shift: bool,
    pub alt: bool,
    /// Super, Meta, Cmd or Win.
    pub meta: bool,
    pub key: Key,
}

/// The modifiers seen so far and the last main key, while parsing.
#[derive(Debug, Clone, Copy, PartialEq, Eq, Structural)]
pub struct Partial {
    pub ctrl: bool,
    pub shift: bool,
    pub alt: bool,
    pub meta: bool,
    pub key: Option<Key>,
}

/// Why a hotkey string was refused.
#[derive(Debug, Clone, PartialEq, Eq)]
pub enum HotkeyError {
    /// A part named no modifier and no supported key; holds that part,
    /// trimmed and lowercased.
    UnknownKey(String),
    /// Only modifiers; holds the whole hotkey string.
    NoKey(String),
}

/// The error as a view: which kind, and the text it holds.
pub open spec fn error_view(e: HotkeyError) -> (bool, Seq<char>) {
    match e {
        HotkeyError::UnknownKey(t) => (true, t@),
        HotkeyError::NoKey(t) => (false, t@),
    }
}

impl HotkeyError {
    /// The message a user sees.
    pub fn message(&self) -> (m: String)
        ensures
            m@ == (match self {
                HotkeyError::UnknownKey(t) => "unknown key: "@ + t@,
                HotkeyError::NoKey(t) => "no key in hotkey: "@ + t@,
            }),
    {
        match self {
            HotkeyError::UnknownKey(t) => {
                let mut m = String::new();
                push_str(&mut m, "unknown key: ");
                push_str(&mut m, t.as_str());
                m
            },
            HotkeyError::NoKey(t) => {
                let mut m = String::new();
                push_str(&mut m, "no key in hotkey: ");
                push_str(&mut m, t.as_str());
                m
            },
        }
    }
}

// ---------------------------------------------------------------------------
// The words of a hotkey string
// ---------------------------------------------------------------------------

pub open spec fn is_ctrl_word(w: Seq<char>) -> bool {
    w == "cmdorctrl"@ || w == "ctrl"@ || w == "control"@
}

pub open spec fn is_shift_word(w: Seq<char>) -> bool {
    w == "shift"@
}

pub open spec fn is_alt_word(w: Seq<char>) -> bool {
    w == "alt"@ || w == "option"@
}

pub open spec fn is_meta_word(w: Seq<char>) -> bool {
    w == "super"@ || w == "meta"@ || w == "cmd"@ || w == "win"@
}

/// The function key a lowercased word names: "f1" to "f12".
pub open spec fn function_number(w: Seq<char>) -> Option<u8> {
    if w.len() == 2 && w[0] == 'f' && 49 <= (w[1] as u32) <= 57 {
        Some(((w[1] as u32) - 48) as u8)
    } else if w.len() == 3 && w[0] == 'f' && w[1] == '1' && 48 <= (w[2] as u32) <= 50 {
        Some(((w[2] as u32) - 38) as u8)
    } else {
        None
    }
}

/// The key a lowercased word names: "space", a single letter, or "f1" to "f12".
pub open spec fn key_of_word(w: Seq<char>) -> Option<Key> {
    if w == "space"@ {
        Some(Key::Space)
    } else if w.len() == 1 && is_lower_ascii(w[0]) {
        Some(Key::Letter(w[0]))
    } else {
        match function_number(w) {
            Some(n) => Some(Key::Function(n)),
            None => None,
        }
    }
}

/// One part of the string, trimmed and lowercased, applied to the parse so far.
/// A word that is no modifier is read as a key after a second lowercasing.
pub open spec fn parse_step(acc: Partial, part: Seq<char>) -> Result<Partial, Seq<char>> {
    let w = lowercase(trim(part));
    if w.len() == 0 {
        Ok(acc)
    } else if is_ctrl_word(w) {
        Ok(Partial { ctrl: true, ..acc })
    } else if is_shift_word(w) {
        Ok(Partial { shift: true, ..acc })
    } else if is_alt_word(w) {
        Ok(Partial { alt: true, ..acc })
    } else if is_meta_word(w) {
        Ok(Partial { meta: true, ..acc })
    } else {
        let k = lowercase(w);
        match key_of_word(k) {
            Some(key) => Ok(Partial { key: Some(key), ..acc }),
            None => Err(k),
        }
    }
}

pub open spec fn empty_partial() -> Partial {
    Partial { ctrl: false, shift: false, alt: false, meta: false, key: None }
}

/// The parts applied left to right; the first unknown key stops the parse.
pub open spec fn parse_parts(parts: Seq<Seq<char>>) -> Result<Partial, Seq<char>>
    decreases parts.len(),
{
    if parts.len() == 0 {
        Ok(empty_partial())
    } else {
        match parse_parts(parts.drop_last()) {
            Ok(acc) => parse_step(acc, parts.last()),
            Err(e) => Err(e),
        }
    }
}

/// The combination a hotkey string describes, split on `'+'`: modifiers in any
/// order, empty parts skipped, the last key named wins. `Err((true, part))` for
/// an unknown key, `Err((false, s))` when no key is named.
pub open spec fn parse_spec(s: Seq<char>) -> Result<Combo, (bool, Seq<char>)> {
    match parse_parts(split_char(s, '+')) {
        Err(k) => Err((true, k)),
        Ok(p) => match p.key {
            Some(key) => Ok(Combo { ctrl: p.ctrl, shift: p.shift, alt: p.alt, meta: p.meta, key }),
            None => Err((false, s)),
        },
    }
}

/// The key a lowercased word names.
pub fn key_of(w: &[char]) -> (k: Option<Key>)
    ensures
        k == key_of_word(w@),
{
    if eq_str(w, "space") {
        return Some(Key::Space);
    }
    if w.len() == 1 && 97 <= w[0] as u32 && w[0] as u32 <= 122 {
        return Some(Key::Letter(w[0]));
    }
    if w.len() == 2 && w[0] == 'f' && 49 <= w[1] as u32 && w[1] as u32 <= 57 {
        let n = (w[1] as u32 - 48) as u8;
        return Some(Key::Function(n));
    }
    if w.len() == 3 && w[0] == 'f' && w[1] == '1' && 48 <= w[2] as u32 && w[2] as u32 <= 50 {
        let n = (w[2] as u32 - 38) as u8;
        return Some(Key::Function(n));
    }
    None
}

/// The trimmed, lowercased form of one part.
fn word_of(part: &[char]) -> (w: Vec<char>)
    ensures
        w@ == lowercase(trim(part@)),
{
    let t = trim_of(part);
    let ts = string_of(t.as_slice());
    let l = to_lowercase(ts.as_str());
    chars_of(l.as_str())
}

/// `parse_step` on executable values.
fn apply_part(acc: Partial, part: &[char]) -> (r: Result<Partial, Vec<char>>)
    ensures
        match r {
            Ok(p) => parse_step(acc, part@) == Ok::<Partial, Seq<char>>(p),
            Err(k) => parse_step(acc, part@) == Err::<Partial, Seq<char>>(k@),
        },
{
    let w = word_of(part);
    if w.len() == 0 {
        Ok(acc)
    } else if eq_str(&w, "cmdorctrl") || eq_str(&w, "ctrl") || eq_str(&w, "control") {
        Ok(Partial { ctrl: true, ..acc })
    } else if eq_str(&w, "shift") {
        Ok(Partial { shift: true, ..acc })
    } else if eq_str(&w, "alt") || eq_str(&w, "option") {
        Ok(Partial { alt: true, ..acc })
    } else if eq_str(&w, "super") || eq_str(&w, "meta") || eq_str(&w, "cmd") || eq_str(&w, "win") {
        Ok(Partial { meta: true, ..acc })
    } else {
        let ws = string_of(w.as_slice());
        let kl = to_lowercase(ws.as_str());
        let k = chars_of(kl.as_str());
        match key_of(k.as_slice()) {
            Some(key) => Ok(Partial { key: Some(key), ..acc }),
            None => Err(k),
        }
    }
}

/// Parses a hotkey string into the combination it names.
pub fn parse_combo(s: &str) -> (r: Result<Combo, HotkeyError>)
    ensures
        match r {
            Ok(c) => parse_spec(s@) == Ok::<Combo, (bool, Seq<char>)>(c),
            Err(e) => parse_spec(s@) == Err::<Combo, (bool, Seq<char>)>(error_view(e)),
        },
{
    let v = chars_of(s);
    let parts = split_char_of(v.as_slice(), '+');
    let mut acc = Partial { ctrl: false, shift: false, alt: false, meta: false, key: None };
    assert(views(parts@).take(0) =~= Seq::<Seq<char>>::empty());
    for i in 0..parts.len()
        invariant
            views(parts@) == split_char(v@, '+'),
            v@ == s@,
            parse_parts(views(parts@).take(i as int)) == Ok::<Partial, Seq<char>>(acc),
    {
        let ghost pre = views(parts@).take(i as int + 1);
        assert(pre.drop_last() =~= views(parts@).take(i as int));
        assert(pre.last() == parts@[i as int]@);
        match apply_part(acc, parts[i].as_slice()) {
            Ok(p) => {
                acc = p;
            },
            Err(k) => {
                proof {
                    lemma_parse_parts_err_sticks(views(parts@), i as int + 1);
                }
                return Err(HotkeyError::UnknownKey(string_of(k.as_slice())));
            },
        }
    }
    assert(views(parts@).take(parts.len() as int) =~= views(parts@));
    match acc.key {
        Some(key) => Ok(Combo { ctrl: acc.ctrl, shift: acc.shift, alt: acc.alt, meta: acc.meta, key }),
        None => Err(HotkeyError::NoKey(string_of(v.as_slice()))),
    }
}

/// Once a prefix of the parts fails, the whole parse fails the same way.
pub proof fn lemma_parse_parts_err_sticks(parts: Seq<Seq<char>>, i: int)
    requires
        0 <= i <= parts.len(),
        parse_parts(parts.take(i)) is Err,
    ensures
        parse_parts(parts) == parse_parts(parts.take(i)),
    decreases parts.len() - i,
{
    if i < parts.len() {
        assert(parts.take(i + 1).drop_last() =~= parts.take(i));
        lemma_parse_parts_err_sticks(parts, i + 1);
    } else {
        assert(parts.take(i) =~= parts);
    }
}

/// Every modifier word the parser documents is read as its modifier, in any
/// case and with whitespace around it: "cmdorctrl", "ctrl" and "control" set
/// Ctrl; "shift" sets Shift; "alt" and "option" set Alt; "super", "meta",
/// "cmd" and "win" set Super (Meta). Nothing else of the parse so far
/// changes. "space" and a single letter name the key.
pub proof fn law_documented_words(acc: Partial, part: Seq<char>)
    requires
        all_ascii(part),
    ensures
        ({
            let w = ascii_lower(trim(part));
            &&& (w == "cmdorctrl"@ || w == "ctrl"@ || w == "control"@) ==> parse_step(acc, part)
                == Ok::<Partial, Seq<char>>(Partial { ctrl: true, ..acc })
            &&& w == "shift"@ ==> parse_step(acc, part) == Ok::<Partial, Seq<char>>(
                Partial { shift: true, ..acc },
            )
            &&& (w == "alt"@ || w == "option"@) ==> parse_step(acc, part) == Ok::<Partial, Seq<char>>(
                Partial { alt: true, ..acc },
            )
            &&& (w == "super"@ || w == "meta"@ || w == "cmd"@ || w == "win"@) ==> parse_step(acc, part)
                == Ok::<Partial, Seq<char>>(Partial { meta: true, ..acc })
            &&& w == "space"@ ==> parse_step(acc, part) == Ok::<Partial, Seq<char>>(
                Partial { key: Some(Key::Space), ..acc },
            )
            &&& (w.len() == 1 && 97 <= (w[0] as u32) <= 122) ==> parse_step(acc, part) == Ok::<
                Partial,
                Seq<char>,
            >(Partial { key: Some(Key::Letter(w[0])), ..acc })
        }),
{
    reveal_strlit("cmdorctrl");
    reveal_strlit("ctrl");
    reveal_strlit("control");
    reveal_strlit("shift");
    reveal_strlit("alt");
    reveal_strlit("option");
    reveal_strlit("super");
    reveal_strlit("meta");
    reveal_strlit("cmd");
    reveal_strlit("win");
    reveal_strlit("space");
    lemma_trim_ascii(part);
    let w = ascii_lower(trim(part));
    assert(lowercase(trim(part)) == w);
    if w == "super"@ || w == "meta"@ || w == "cmd"@ || w == "win"@ {
        assert(w != "shift"@) by {
            if w.len() == 5 {
                assert(w[1] != "shift"@[1]);
            }
        };
        assert(!is_ctrl_word(w)) by {
            if w.len() == 4 {
                assert(w[0] != "ctrl"@[0]);
            }
            if w.len() == 3 {
                assert(w[0] != "alt"@[0]);
            }
        };
        assert(!is_alt_word(w)) by {
            if w.len() == 3 {
                assert(w[0] != "alt"@[0]);
            }
        };
    }
    if w == "alt"@ || w == "option"@ {
        assert(!is_ctrl_word(w));
        assert(!is_shift_word(w));
    }
    if w == "shift"@ {
        assert(!is_ctrl_word(w));
    }
    if w == "space"@ {
        assert(!is_ctrl_word(w));
        assert(!is_shift_word(w)) by {
            assert(w[1] != "shift"@[1]);
        };
        assert(!is_alt_word(w));
        assert(!is_meta_word(w)) by {
            assert(w[1] != "super"@[1]);
        };
        assert(key_of_word(lowercase(w)) == Some(Key::Space));
    }
    if w.len() == 1 && 97 <= (w[0] as u32) <= 122 {
        assert(!is_ctrl_word(w) && !is_shift_word(w) && !is_alt_word(w) && !is_meta_word(w));
        assert(key_of_word(lowercase(w)) == Some(Key::Letter(w[0])));
    }
}

/// A documented modifier word before a key word, such as "Control+Space",
/// parses to that modifier alone and the key.
pub proof fn law_modifier_then_key(m: Seq<char>, k: Seq<char>)
    requires
        all_ascii(m),
        all_ascii(k),
        forall|i: int| 0 <= i < m.len() ==> m[i] != '+',
        forall|i: int| 0 <= i < k.len() ==> k[i] != '+',
        ascii_lower(trim(k)) == "space"@,
    ensures
        ({
            let w = ascii_lower(trim(m));
            let r = parse_spec(m + "+"@ + k);
            &&& (w == "cmdorctrl"@ || w == "ctrl"@ || w == "control"@) ==> r == Ok::<
                Combo,
                (bool, Seq<char>),
            >(Combo { ctrl: true, shift: false, alt: false, meta: false, key: Key::Space })
            &&& w == "shift"@ ==> r == Ok::<Combo, (bool, Seq<char>)>(
                Combo { ctrl: false, shift: true, alt: false, meta: false, key: Key::Space },
            )
            &&& (w == "alt"@ || w == "option"@) ==> r == Ok::<Combo, (bool, Seq<char>)>(
                Combo { ctrl: false, shift: false, alt: true, meta: false, key: Key::Space },
            )
            &&& (w == "super"@ || w == "meta"@ || w == "cmd"@ || w == "win"@) ==> r == Ok::<
                Combo,
                (bool, Seq<char>),
            >(Combo { ctrl: false, shift: false, alt: false, meta: true, key: Key::Space })
        }),
{
    reveal_strlit("+");
    let e = Seq::<char>::empty();
    let p0 = Seq::<Seq<char>>::empty();
    assert(split_char(e, '+') == p0.push(e)) by {
        assert(split_char(e, '+') =~= seq![e]);
        assert(p0.push(e) =~= seq![e]);
    };
    lemma_split_append(e, p0, m, '+');
    assert(e + m =~= m);
    assert((e + m).push('+') =~= m + "+"@);
    lemma_split_append(m + "+"@, p0.push(m), k, '+');
    let parts = p0.push(m).push(k);
    assert(split_char(m + "+"@ + k, '+') == parts);
    assert(parts.drop_last() =~= seq![m]);
    assert(seq![m].drop_last() =~= p0);
    assert(parse_parts(p0) == Ok::<Partial, Seq<char>>(empty_partial()));
    assert(parse_parts(seq![m]) == parse_step(empty_partial(), m));
    assert(parse_parts(parts) == match parse_parts(seq![m]) {
        Ok(acc) => parse_step(acc, k),
        Err(e) => Err(e),
    });
    law_documented_words(empty_partial(), m);
    let a = parse_step(empty_partial(), m);
    if a is Ok {
        law_documented_words(a->Ok_0, k);
    }
}

// ---------------------------------------------------------------------------
// The `global_hotkey` value
// ---------------------------------------------------------------------------

/// The name `keyboard_types::Code` gives the key: "Space", "KeyA".."KeyZ",
/// "F1".."F12".
pub open spec fn code_name(k: Key) -> Seq<char> {
    match k {
        Key::Space => "Space"@,
        Key::Letter(c) => "Key"@.push(upper_char(c)),
        Key::Function(n) => "F"@ + decimal(n as nat),
    }
}

pub fn code_name_of(k: Key) -> (s: String)
    ensures
        s@ == code_name(k),
{
    let mut s = String::new();
    match k {
        Key::Space => push_str(&mut s, "Space"),
        Key::Letter(c) => {
            push_str(&mut s, "Key");
            push_char(&mut s, to_ascii_uppercase(c));
        },
        Key::Function(n) => {
            push_str(&mut s, "F");
            push_decimal(&mut s, n as u64);
        },
    }
    s
}

/// `global_hotkey::hotkey::HotKey`, carried through opaque.
#[verifier::external_type_specification]
#[verifier::external_body]
pub struct ExHotKey(HotKey);

/// What `HotKey::new` builds from these modifiers and the key named `code`.
pub uninterp spec fn global_hotkey(ctrl: bool, shift: bool, alt: bool, meta: bool, code: Seq<char>) -> HotKey;

/// Builds the `global_hotkey::hotkey::HotKey` for a combination: the held
/// modifiers as `Modifiers` flags (meta as `META`) and the key looked up by its
/// `Code` name (`Code::Unidentified` for a name `Code::from_str` refuses), then
/// `HotKey::new`. The result is named `global_hotkey`; nothing else is claimed
/// of it.
#[verifier::external_body]
fn new_hotkey(ctrl: bool, shift: bool, alt: bool, meta: bool, code: &str) -> (h: HotKey)
    ensures
        h == global_hotkey(ctrl, shift, alt, meta, code@),
{
    let mut mods = Modifiers::empty();
    mods.set(Modifiers::CONTROL, ctrl);
    mods.set(Modifiers::SHIFT, shift);
    mods.set(Modifiers::ALT, alt);
    mods.set(Modifiers::META, meta);
    let key: Code = code.parse().unwrap_or(Code::Unidentified);
    HotKey::new(Some(mods), key)
}

/// Parses a hotkey string into the hotkey to register.
pub fn parse(s: &str) -> (r: Result<HotKey, HotkeyError>)
    ensures
        match r {
            Ok(h) => parse_spec(s@) is Ok && h == global_hotkey(
                parse_spec(s@)->Ok_0.ctrl,
                parse_spec(s@)->Ok_0.shift,
                parse_spec(s@)->Ok_0.alt,
                parse_spec(s@)->Ok_0.meta,
                code_name(parse_spec(s@)->Ok_0.key),
            ),
            Err(e) => parse_spec(s@) == Err::<Combo, (bool, Seq<char>)>(error_view(e)),
        },
{
    match parse_combo(s) {
        Ok(c) => {
            let name = code_name_of(c.key);
            let h = new_hotkey(c.ctrl, c.shift, c.alt, c.meta, name.as_str());
            Ok(h)
        },
        Err(e) => Err(e),
    }
}

} // verus!
