//! Text handled by the Wayland GlobalShortcuts portal: the preferred trigger
//! proposed for a configured hotkey, and the menu form of the trigger the
//! compositor reports back. The portal session itself is the caller's.

use vstd::prelude::*;
use crate::hotkey::{is_alt_word, is_ctrl_word, is_meta_word, is_shift_word};
use crate::text::{
    all_ascii, ascii_lower, lemma_split_append, lemma_trim_ascii, ascii_upper, chars_of, eq_ignore_ascii_case, eq_ignore_case, eq_str, join, lowercase,
    push_chars, push_str, replace_all, replace_exec, rsplit_once, rsplit_once_exec, split_char,
    split_char_of, string_of, strip_prefix, strip_prefix_exec, to_lowercase, trim, trim_of, views,
    ascii_uppercase_of,
};

verus! {

/// The id of the raw-dictation shortcut.
pub const SHORTCUT_ID: &'static str = "toggle-dictation";

/// The id of the prompt-dictation shortcut.
pub const PROMPT_SHORTCUT_ID: &'static str = "toggle-prompt-dictation";

// ---------------------------------------------------------------------------
// Menu form of a portal trigger
// ---------------------------------------------------------------------------

/// A key as the menu shows it: "Space" in any case becomes "Space", a single
/// ASCII character is uppercased, anything else is kept.
pub open spec fn display_key_spec(key: Seq<char>) -> Seq<char> {
    if eq_ignore_case(key, "space"@) {
        "Space"@
    } else if key.len() == 1 && all_ascii(key) {
        ascii_upper(key)
    } else {
        key
    }
}

pub fn display_key(key: &[char]) -> (r: Vec<char>)
    ensures
        r@ == display_key_spec(key@),
{
    let space = chars_of("space");
    if eq_ignore_ascii_case(key, space.as_slice()) {
        chars_of("Space")
    } else if key.len() == 1 && (key[0] as u32) < 128 {
        assert(all_ascii(key@));
        ascii_uppercase_of(key)
    } else {
        proof {
            if key@.len() == 1 && all_ascii(key@) {
                assert((key@[0] as u32) < 128);
            }
        }
        crate::text::slice_from(key, 0)
    }
}

/// The portal's trigger description with modifiers spelled the menu's way.
pub open spec fn named_modifiers(trigger: Seq<char>) -> Seq<char> {
    let d = match strip_prefix(trigger, "Press "@) {
        Some(rest) => rest,
        None => trigger,
    };
    replace_all(
        replace_all(
            replace_all(replace_all(d, "<Control>"@, "Ctrl+"@), "<Alt>"@, "Alt+"@),
            "<Shift>"@,
            "Shift+"@,
        ),
        "<Super>"@,
        "Super+"@,
    )
}

/// The menu form of a portal trigger: "Press <Control>space" reads
/// "Ctrl+Space".
pub open spec fn display_shortcut_spec(trigger: Seq<char>) -> Seq<char> {
    let d = named_modifiers(trigger);
    match rsplit_once(d, '+') {
        Some((prefix, key)) => prefix + "+"@ + display_key_spec(key),
        None => display_key_spec(d),
    }
}

pub fn display_shortcut(trigger: &str) -> (r: String)
    ensures
        r@ == display_shortcut_spec(trigger@),
{
    let t = chars_of(trigger);
    let press = chars_of("Press ");
    let d = match strip_prefix_exec(t.as_slice(), press.as_slice()) {
        Some(rest) => rest,
        None => t,
    };
    let d = replace_exec(d.as_slice(), chars_of("<Control>").as_slice(), chars_of("Ctrl+").as_slice());
    let d = replace_exec(d.as_slice(), chars_of("<Alt>").as_slice(), chars_of("Alt+").as_slice());
    let d = replace_exec(d.as_slice(), chars_of("<Shift>").as_slice(), chars_of("Shift+").as_slice());
    let d = replace_exec(d.as_slice(), chars_of("<Super>").as_slice(), chars_of("Super+").as_slice());
    let mut out = String::new();
    match rsplit_once_exec(d.as_slice(), '+') {
        Some((prefix, key)) => {
            push_chars(&mut out, prefix.as_slice());
            push_str(&mut out, "+");
            let k = display_key(key.as_slice());
            push_chars(&mut out, k.as_slice());
        },
        None => {
            let k = display_key(d.as_slice());
            push_chars(&mut out, k.as_slice());
        },
    }
    assert(out@ =~= display_shortcut_spec(trigger@));
    out
}

/// The menu form of the raw-dictation shortcut among those the portal
/// reports, as `(id, trigger description)` pairs: the first with that id.
pub open spec fn current_shortcut_spec(shortcuts: Seq<(Seq<char>, Seq<char>)>) -> Option<Seq<char>>
    decreases shortcuts.len(),
{
    if shortcuts.len() == 0 {
        None
    } else if shortcuts[0].0 == SHORTCUT_ID@ {
        Some(display_shortcut_spec(shortcuts[0].1))
    } else {
        current_shortcut_spec(shortcuts.drop_first())
    }
}

pub open spec fn pair_views(v: Seq<(String, String)>) -> Seq<(Seq<char>, Seq<char>)> {
    v.map_values(|p: (String, String)| (p.0@, p.1@))
}

pub fn current_shortcut(shortcuts: &Vec<(String, String)>) -> (r: Option<String>)
    ensures
        match r {
            Some(s) => current_shortcut_spec(pair_views(shortcuts@)) == Some(s@),
            None => current_shortcut_spec(pair_views(shortcuts@)) is None,
        },
{
    let mut i: usize = 0;
    assert(pair_views(shortcuts@).skip(0) =~= pair_views(shortcuts@));
    while i < shortcuts.len()
        invariant
            i <= shortcuts.len(),
            current_shortcut_spec(pair_views(shortcuts@)) == current_shortcut_spec(
                pair_views(shortcuts@).skip(i as int),
            ),
        decreases shortcuts.len() - i,
    {
        let ghost rest = pair_views(shortcuts@).skip(i as int);
        assert(rest[0] == (shortcuts@[i as int].0@, shortcuts@[i as int].1@));
        let id = chars_of(shortcuts[i].0.as_str());
        if eq_str(id.as_slice(), SHORTCUT_ID) {
            return Some(display_shortcut(shortcuts[i].1.as_str()));
        }
        assert(rest.drop_first() =~= pair_views(shortcuts@).skip(i as int + 1));
        i = i + 1;
    }
    None
}

// ---------------------------------------------------------------------------
// Preferred trigger for a configured hotkey
// ---------------------------------------------------------------------------

/// The modifiers (portal names) and the last key word of the parts so far.
pub open spec fn trigger_parts(parts: Seq<Seq<char>>) -> (Seq<Seq<char>>, Option<Seq<char>>)
    decreases parts.len(),
{
    if parts.len() == 0 {
        (Seq::empty(), None)
    } else {
        let (mods, key) = trigger_parts(parts.drop_last());
        let w = lowercase(trim(parts.last()));
        if w.len() == 0 {
            (mods, key)
        } else if is_ctrl_word(w) {
            (mods.push("CTRL"@), key)
        } else if is_shift_word(w) {
            (mods.push("SHIFT"@), key)
        } else if is_alt_word(w) {
            (mods.push("ALT"@), key)
        } else if is_meta_word(w) {
            (mods.push("LOGO"@), key)
        } else {
            (mods, Some(w))
        }
    }
}

/// The portal trigger syntax for a config hotkey: "Ctrl+Space" becomes
/// "CTRL+space"; modifiers in the order given, then the last key named.
/// `None` when no key is named.
pub open spec fn portal_trigger_spec(hotkey: Seq<char>) -> Option<Seq<char>> {
    let (mods, key) = trigger_parts(split_char(hotkey, '+'));
    match key {
        Some(k) => Some(join(mods.push(k), "+"@)),
        None => None,
    }
}

pub fn to_portal_trigger(hotkey: &str) -> (r: Option<String>)
    ensures
        match r {
            Some(s) => portal_trigger_spec(hotkey@) == Some(s@),
            None => portal_trigger_spec(hotkey@) is None,
        },
{
    let v = chars_of(hotkey);
    let parts = split_char_of(v.as_slice(), '+');
    let mut mods: Vec<Vec<char>> = Vec::new();
    let mut key: Option<Vec<char>> = None;
    assert(views(parts@).take(0) =~= Seq::<Seq<char>>::empty());
    assert(views(mods@) =~= Seq::<Seq<char>>::empty());
    for i in 0..parts.len()
        invariant
            views(parts@) == split_char(v@, '+'),
            v@ == hotkey@,
            trigger_parts(views(parts@).take(i as int)) == (views(mods@), match key {
                Some(k) => Some(k@),
                None => None::<Seq<char>>,
            }),
    {
        let ghost pre = views(parts@).take(i as int + 1);
        assert(pre.drop_last() =~= views(parts@).take(i as int));
        assert(pre.last() == parts@[i as int]@);
        let t = trim_of(parts[i].as_slice());
        let ts = string_of(t.as_slice());
        let l = to_lowercase(ts.as_str());
        let w = chars_of(l.as_str());
        let ghost old_mods = mods@;
        if w.len() == 0 {
        } else if eq_str(&w, "cmdorctrl") || eq_str(&w, "ctrl") || eq_str(&w, "control") {
            mods.push(chars_of("CTRL"));
            assert(views(mods@) =~= views(old_mods).push("CTRL"@));
        } else if eq_str(&w, "shift") {
            mods.push(chars_of("SHIFT"));
            assert(views(mods@) =~= views(old_mods).push("SHIFT"@));
        } else if eq_str(&w, "alt") || eq_str(&w, "option") {
            mods.push(chars_of("ALT"));
            assert(views(mods@) =~= views(old_mods).push("ALT"@));
        } else if eq_str(&w, "super") || eq_str(&w, "meta") || eq_str(&w, "cmd") || eq_str(
            &w,
            "win",
        ) {
            mods.push(chars_of("LOGO"));
            assert(views(mods@) =~= views(old_mods).push("LOGO"@));
        } else {
            key = Some(w);
        }
    }
    assert(views(parts@).take(parts.len() as int) =~= views(parts@));
    match key {
        Some(k) => {
            let mut out: Vec<char> = Vec::new();
            let ghost all = views(mods@).push(k@);
            for j in 0..mods.len()
                invariant
                    all == views(mods@).push(k@),
                    j <= mods.len(),
                    j == 0 ==> out@.len() == 0,
                    j > 0 ==> out@ == join(all.take(j as int), "+"@) + "+"@,
            {
                let ghost before = out@;
                crate::text::append_chars(&mut out, mods[j].as_slice());
                out.push('+');
                proof {
                    reveal_strlit("+");
                    let pre = all.take(j as int + 1);
                    assert(pre.drop_last() =~= all.take(j as int));
                    assert(pre.last() == mods@[j as int]@);
                    if j == 0 {
                        assert(out@ =~= join(pre, "+"@) + "+"@);
                    } else {
                        assert(out@ =~= join(pre, "+"@) + "+"@);
                    }
                }
            }
            let ghost before = out@;
            crate::text::append_chars(&mut out, k.as_slice());
            proof {
                reveal_strlit("+");
                let n = mods.len() as int;
                let pre = all.take(n + 1);
                assert(pre =~= all);
                assert(pre.drop_last() =~= all.take(n));
                if n == 0 {
                    assert(out@ =~= join(all, "+"@));
                } else {
                    assert(out@ =~= join(all, "+"@));
                }
            }
            Some(string_of(out.as_slice()))
        },
        None => None,
    }
}

/// One word, any case, whitespace around it: the portal name it adds.
pub open spec fn portal_modifier(w: Seq<char>) -> Option<Seq<char>> {
    if w == "cmdorctrl"@ || w == "ctrl"@ || w == "control"@ {
        Some("CTRL"@)
    } else if w == "shift"@ {
        Some("SHIFT"@)
    } else if w == "alt"@ || w == "option"@ {
        Some("ALT"@)
    } else if w == "super"@ || w == "meta"@ || w == "cmd"@ || w == "win"@ {
        Some("LOGO"@)
    } else {
        None
    }
}

/// Each documented modifier word, in any case and with whitespace around it,
/// becomes its portal name before the key: "Control+Space" and
/// "ctrl + space" give "CTRL+space", "Super+Space" gives "LOGO+space",
/// "Option+D" gives "ALT+d", "Shift+F9" gives "SHIFT+f9". The key is the key
/// word lowercased.
pub proof fn law_portal_modifier_then_key(m: Seq<char>, k: Seq<char>)
    requires
        all_ascii(m),
        all_ascii(k),
        forall|i: int| 0 <= i < m.len() ==> m[i] != '+',
        forall|i: int| 0 <= i < k.len() ==> k[i] != '+',
        ascii_lower(trim(m)) == "cmdorctrl"@ || ascii_lower(trim(m)) == "ctrl"@ || ascii_lower(trim(m))
            == "control"@ || ascii_lower(trim(m)) == "shift"@ || ascii_lower(trim(m)) == "alt"@
            || ascii_lower(trim(m)) == "option"@ || ascii_lower(trim(m)) == "super"@ || ascii_lower(
            trim(m),
        ) == "meta"@ || ascii_lower(trim(m)) == "cmd"@ || ascii_lower(trim(m)) == "win"@,
        ascii_lower(trim(k)).len() > 0,
        portal_modifier(ascii_lower(trim(k))) is None,
    ensures
        portal_modifier(ascii_lower(trim(m))) is Some,
        portal_trigger_spec(m + "+"@ + k) == Some(
            portal_modifier(ascii_lower(trim(m)))->0 + "+"@ + ascii_lower(trim(k)),
        ),
{
    reveal_strlit("cmdorctrl");
    reveal_strlit("ctrl");
    reveal_strlit("control");
    reveal_strlit("shift");
    reveal_strlit("alt");
    reveal_strlit("option");
    reveal_strlit("super");
    reveal_strlit("meta");
    reveal_strlit("cmd");
    reveal_strlit("win");
    reveal_strlit("+");
    reveal_strlit("CTRL");
    reveal_strlit("SHIFT");
    reveal_strlit("ALT");
    reveal_strlit("LOGO");
    let e = Seq::<char>::empty();
    let p0 = Seq::<Seq<char>>::empty();
    assert(split_char(e, '+') == p0.push(e)) by {
        assert(split_char(e, '+') =~= seq![e]);
        assert(p0.push(e) =~= seq![e]);
    };
    lemma_split_append(e, p0, m, '+');
    assert(e + m =~= m);
    assert((e + m).push('+') =~= m + "+"@);
    lemma_split_append(m + "+"@, p0.push(m), k, '+');
    let parts = p0.push(m).push(k);
    assert(split_char(m + "+"@ + k, '+') == parts);
    assert(parts.drop_last() =~= seq![m]);
    assert(seq![m].drop_last() =~= p0);
    lemma_trim_ascii(m);
    lemma_trim_ascii(k);
    let w = ascii_lower(trim(m));
    let kw = ascii_lower(trim(k));
    assert(lowercase(trim(m)) == w);
    assert(lowercase(trim(k)) == kw);
    assert(trigger_parts(p0) == (Seq::<Seq<char>>::empty(), None::<Seq<char>>));
    let name = portal_modifier(w)->0;
    assert(w != "shift"@ ==> !is_shift_word(w));
    assert((w == "super"@ || w == "meta"@ || w == "cmd"@ || w == "win"@) ==> w != "shift"@) by {
        if w == "super"@ {
            assert(w[1] != "shift"@[1]);
        }
    };
    assert(trigger_parts(seq![m]) == (seq![name], None::<Seq<char>>)) by {
        assert(Seq::<Seq<char>>::empty().push(name) =~= seq![name]);
    };
    assert(!is_ctrl_word(kw) && !is_shift_word(kw) && !is_alt_word(kw) && !is_meta_word(kw));
    assert(trigger_parts(parts) == (seq![name], Some(kw)));
    assert(seq![name].push(kw) =~= seq![name, kw]);
    assert(seq![name, kw].drop_last() =~= seq![name]);
    assert(join(seq![name], "+"@) == name);
    assert(seq![name, kw].last() == kw);
    assert(join(seq![name, kw], "+"@) == join(seq![name], "+"@) + "+"@ + kw);
}

} // verus!
