//! The client's settings, their defaults, the edit that persists a new hotkey
//! while keeping the rest of the file, and where the transcription API key
//! comes from. Reading the file and the environment is the caller's.

use vstd::prelude::*;
use crate::text::{
    find, lemma_find_from_bounds, trim_end, chars_of, eq_str, lemma_lines_of_terminated, lemma_split_char_nonempty,
    lemma_split_pieces_free, lines, lines_of, push_chars, push_str, split_char, split_once,
    split_once_exec, starts_with_exec, string_of, strip_cr, terminated, trim, trim_of, trim_start,
    trim_start_of, views,
};

verus! {

pub fn default_hotkey() -> (s: String)
    ensures
        s@ == "Ctrl+Space"@,
{
    string_of(chars_of("Ctrl+Space").as_slice())
}

pub fn default_model() -> (s: String)
    ensures
        s@ == "gpt-4o-transcribe"@,
{
    string_of(chars_of("gpt-4o-transcribe").as_slice())
}

pub fn default_api_base() -> (s: String)
    ensures
        s@ == "https://api.openai.com/v1"@,
{
    string_of(chars_of("https://api.openai.com/v1").as_slice())
}

pub fn default_history_days() -> (d: u32)
    ensures
        d == 7,
{
    7
}

#[derive(Debug, Clone)]
pub struct Config {
    pub api_base: String,
    pub model: String,
    pub language: String,
    pub prompt: String,
    pub hotkey: String,
    /// 0 = use device native rate
    pub samplerate: u32,
    pub history_retention_days: u32,
    pub openai_api_key: String,
    /// Prompt-mode dictations with more words than this paste raw; `None`
    /// sets no limit.
    pub cleanup_max_words: Option<u32>,
}

/// The settings used where the file gives none.
pub open spec fn is_default_config(c: Config) -> bool {
    &&& c.api_base@ == "https://api.openai.com/v1"@
    &&& c.model@ == "gpt-4o-transcribe"@
    &&& c.language@ == Seq::<char>::empty()
    &&& c.prompt@ == Seq::<char>::empty()
    &&& c.hotkey@ == "Ctrl+Space"@
    &&& c.samplerate == 0
    &&& c.history_retention_days == 7
    &&& c.openai_api_key@ == Seq::<char>::empty()
    &&& c.cleanup_max_words is None
}

impl Default for Config {
    fn default() -> (c: Self)
        ensures
            is_default_config(c),
    {
        Config {
            api_base: default_api_base(),
            model: default_model(),
            language: String::new(),
            prompt: String::new(),
            hotkey: default_hotkey(),
            samplerate: 0,
            history_retention_days: default_history_days(),
            openai_api_key: String::new(),
            cleanup_max_words: None,
        }
    }
}

// ---------------------------------------------------------------------------
// Persisting a new hotkey
// ---------------------------------------------------------------------------

/// The line that sets the hotkey: `hotkey = "<combo>"`.
pub open spec fn hotkey_line(combo: Seq<char>) -> Seq<char> {
    "hotkey = \""@ + combo + "\""@
}

/// A line that sets the hotkey: it starts (after whitespace) with `hotkey`,
/// and the text before its first `=` trims to `hotkey`.
pub open spec fn is_hotkey_line(l: Seq<char>) -> bool {
    let t = trim_start(l);
    &&& "hotkey"@.len() <= t.len()
    &&& t.take("hotkey"@.len() as int) == "hotkey"@
    &&& match split_once(l, "="@) {
        Some((k, _)) => trim(k) == "hotkey"@,
        None => false,
    }
}

/// Each line, with every hotkey line replaced by the new one.
pub open spec fn replaced_lines(ls: Seq<Seq<char>>, combo: Seq<char>) -> Seq<Seq<char>> {
    ls.map_values(|l: Seq<char>| if is_hotkey_line(l) { hotkey_line(combo) } else { l })
}

pub open spec fn has_hotkey_line(ls: Seq<Seq<char>>) -> bool {
    exists|i: int| 0 <= i < ls.len() && is_hotkey_line(#[trigger] ls[i])
}

/// The config file's text after saving `combo` as the hotkey: every line kept
/// (with a newline after each) but the hotkey lines, which are replaced; the
/// hotkey line appended when there was none.
pub open spec fn with_hotkey(existing: Seq<char>, combo: Seq<char>) -> Seq<char> {
    let ls = lines(existing);
    terminated(replaced_lines(ls, combo)) + if has_hotkey_line(ls) {
        Seq::<char>::empty()
    } else {
        hotkey_line(combo).push('\n')
    }
}

fn is_hotkey_line_exec(l: &[char]) -> (b: bool)
    ensures
        b == is_hotkey_line(l@),
{
    let t = trim_start_of(l);
    let prefix = chars_of("hotkey");
    if !starts_with_exec(t.as_slice(), prefix.as_slice()) {
        return false;
    }
    let eq = chars_of("=");
    match split_once_exec(l, eq.as_slice()) {
        Some((k, _)) => {
            let kt = trim_of(k.as_slice());
            eq_str(kt.as_slice(), "hotkey")
        },
        None => false,
    }
}

/// The new text of the config file when `combo` becomes the hotkey,
/// keeping comments and every other setting.
pub fn hotkey_saved(existing: &str, combo: &str) -> (r: String)
    ensures
        r@ == with_hotkey(existing@, combo@),
{
    let ls = lines_of(chars_of(existing).as_slice());
    let mut new_line = String::new();
    push_str(&mut new_line, "hotkey = \"");
    push_str(&mut new_line, combo);
    push_str(&mut new_line, "\"");
    let mut out = String::new();
    let mut replaced = false;
    let ghost all = views(ls@);
    assert(all.take(0) =~= Seq::<Seq<char>>::empty());
    assert(replaced_lines(all.take(0), combo@) =~= Seq::<Seq<char>>::empty());
    for i in 0..ls.len()
        invariant
            all == views(ls@),
            all == lines(existing@),
            new_line@ == hotkey_line(combo@),
            out@ == terminated(replaced_lines(all.take(i as int), combo@)),
            replaced == has_hotkey_line(all.take(i as int)),
    {
        let ghost pre = all.take(i as int + 1);
        assert(pre.drop_last() =~= all.take(i as int));
        assert(pre.last() == ls@[i as int]@);
        assert(replaced_lines(pre, combo@).drop_last() =~= replaced_lines(all.take(i as int), combo@));
        let line = &ls[i];
        if is_hotkey_line_exec(line.as_slice()) {
            push_str(&mut out, new_line.as_str());
            replaced = true;
            assert(pre[i as int] == ls@[i as int]@);
        } else {
            push_chars(&mut out, line.as_slice());
            assert(has_hotkey_line(pre) == has_hotkey_line(all.take(i as int))) by {
                if has_hotkey_line(pre) {
                    let j = choose|j: int| 0 <= j < pre.len() && is_hotkey_line(#[trigger] pre[j]);
                    if j < i {
                        assert(all.take(i as int)[j] == pre[j]);
                    }
                }
                if has_hotkey_line(all.take(i as int)) {
                    let j = choose|j: int|
                        0 <= j < i && is_hotkey_line(#[trigger] all.take(i as int)[j]);
                    assert(pre[j] == all.take(i as int)[j]);
                }
            };
        }
        push_str(&mut out, "\n");
        proof {
            reveal_strlit("\n");
        }
        assert(out@ =~= terminated(replaced_lines(pre, combo@)));
    }
    assert(all.take(ls.len() as int) =~= all);
    if !replaced {
        push_str(&mut out, new_line.as_str());
        push_str(&mut out, "\n");
        proof {
            reveal_strlit("\n");
        }
    }
    assert(out@ =~= with_hotkey(existing@, combo@));
    out
}

/// No line of a text holds a newline.
pub proof fn lemma_lines_free(s: Seq<char>)
    ensures
        forall|i: int, j: int|
            0 <= i < lines(s).len() && 0 <= j < lines(s)[i].len() ==> #[trigger] lines(s)[i][j]
                != '\n',
{
    lemma_split_pieces_free(s, '\n');
    lemma_split_char_nonempty(s, '\n');
    let parts = split_char(s, '\n');
    assert forall|i: int, j: int|
        0 <= i < lines(s).len() && 0 <= j < lines(s)[i].len() implies #[trigger] lines(s)[i][j]
            != '\n' by {
        if i < parts.len() - 1 {
            assert(lines(s)[i] == strip_cr(parts[i]));
            assert(lines(s)[i][j] == parts[i][j]);
        } else {
            assert(lines(s)[i] == parts[parts.len() - 1]);
        }
    };
}

/// After the hotkey is saved, the file's text holds the line that sets it
/// (for a combination without a line break).
pub proof fn law_saved_hotkey_line_present(existing: Seq<char>, combo: Seq<char>)
    requires
        forall|j: int| 0 <= j < combo.len() ==> combo[j] != '\n',
    ensures
        lines(with_hotkey(existing, combo)).contains(hotkey_line(combo)),
{
    reveal_strlit("hotkey = \"");
    reveal_strlit("\"");
    let ls = lines(existing);
    let h = hotkey_line(combo);
    let r = replaced_lines(ls, combo);
    lemma_lines_free(existing);
    assert forall|j: int| 0 <= j < h.len() implies h[j] != '\n' by {
        if j >= 10 && j < 10 + combo.len() {
            assert(h[j] == combo[j - 10]);
        }
    };
    assert(strip_cr(h) == h);
    assert forall|i: int, j: int| 0 <= i < r.len() && 0 <= j < r[i].len() implies #[trigger] r[i][j]
        != '\n' by {
        if is_hotkey_line(ls[i]) {
            assert(r[i] == h);
        } else {
            assert(r[i] == ls[i]);
        }
    };
    if has_hotkey_line(ls) {
        let i = choose|i: int| 0 <= i < ls.len() && is_hotkey_line(#[trigger] ls[i]);
        lemma_lines_of_terminated(r);
        assert(with_hotkey(existing, combo) =~= terminated(r));
        assert(lines(with_hotkey(existing, combo))[i] == h);
    } else {
        let r2 = r.push(h);
        assert forall|i: int, j: int| 0 <= i < r2.len() && 0 <= j < r2[i].len() implies #[trigger] r2[i][j]
            != '\n' by {
            if i < r.len() {
                assert(r2[i] == r[i]);
            }
        };
        lemma_lines_of_terminated(r2);
        assert(r2.drop_last() =~= r);
        assert(with_hotkey(existing, combo) =~= terminated(r2));
        assert(lines(with_hotkey(existing, combo))[r.len() as int] == h);
    }
}

/// What the saving of a hotkey looks for: a line whose text before its first
/// `=` trims to exactly `hotkey`.
pub open spec fn sets_hotkey(l: Seq<char>) -> bool {
    match split_once(l, "="@) {
        Some((k, _)) => trim(k) == "hotkey"@,
        None => false,
    }
}

proof fn lemma_trim_start_append(a: Seq<char>, b: Seq<char>)
    requires
        trim_start(a).len() > 0,
    ensures
        trim_start(a + b) == trim_start(a) + b,
    decreases a.len(),
{
    assert(a.len() > 0);
    assert((a + b)[0] == a[0]);
    if crate::text::is_ws(a[0]) {
        assert((a + b).drop_first() =~= a.drop_first() + b);
        lemma_trim_start_append(a.drop_first(), b);
    }
}

proof fn lemma_trim_end_prefix(t: Seq<char>)
    ensures
        trim_end(t).len() <= t.len(),
        trim_end(t) == t.take(trim_end(t).len() as int),
    decreases t.len(),
{
    if t.len() > 0 && crate::text::is_ws(t.last()) {
        lemma_trim_end_prefix(t.drop_last());
        assert(t.drop_last().take(trim_end(t).len() as int) =~= t.take(trim_end(t).len() as int));
    } else {
        assert(t.take(t.len() as int) =~= t);
    }
}

/// A line whose key trims to `hotkey` also starts, after whitespace, with
/// `hotkey`: the two tests the saving makes agree.
proof fn lemma_hotkey_line_is_key(l: Seq<char>)
    ensures
        is_hotkey_line(l) <==> sets_hotkey(l),
{
    reveal_strlit("hotkey");
    reveal_strlit("=");
    if sets_hotkey(l) {
        lemma_find_from_bounds(l, "="@, 0);
        let i = find(l, "="@)->0;
        let k = l.take(i);
        let rest = l.skip(i);
        assert(l =~= k + rest);
        let ts = trim_start(k);
        lemma_trim_end_prefix(ts);
        assert(trim(k) == trim_end(ts));
        assert(ts.len() >= 6);
        lemma_trim_start_append(k, rest);
        assert(trim_start(l) == ts + rest);
        assert(trim_start(l).take(6) =~= ts.take(6));
        assert(ts.take(6) == trim_end(ts));
    }
}

/// Saving a hotkey replaces exactly the lines whose text before the first
/// `=` trims to `hotkey`, each by `hotkey = "<combo>"`, and keeps every other
/// line (comments such as `# hotkey = ...`, and keys such as
/// `prompt_hotkey`) as it was, in its place, each followed by a newline; the
/// line is appended when none was replaced.
pub proof fn law_saved_hotkey_replaces_only_the_hotkey_line(existing: Seq<char>, combo: Seq<char>)
    ensures
        ({
            let ls = lines(existing);
            let kept = Seq::new(
                ls.len(),
                |i: int| if sets_hotkey(ls[i]) { hotkey_line(combo) } else { ls[i] },
            );
            with_hotkey(existing, combo) == terminated(kept) + if (exists|i: int|
                0 <= i < ls.len() && sets_hotkey(#[trigger] ls[i])) {
                Seq::<char>::empty()
            } else {
                hotkey_line(combo).push('\n')
            }
        }),
{
    let ls = lines(existing);
    let kept = Seq::new(ls.len(), |i: int| if sets_hotkey(ls[i]) { hotkey_line(combo) } else { ls[i] });
    assert forall|i: int| 0 <= i < ls.len() implies is_hotkey_line(ls[i]) == sets_hotkey(
        #[trigger] ls[i],
    ) by {
        lemma_hotkey_line_is_key(ls[i]);
    };
    assert(replaced_lines(ls, combo) =~= kept);
    if has_hotkey_line(ls) {
        let j = choose|j: int| 0 <= j < ls.len() && is_hotkey_line(#[trigger] ls[j]);
        assert(sets_hotkey(ls[j]));
    }
    if exists|i: int| 0 <= i < ls.len() && sets_hotkey(#[trigger] ls[i]) {
        let j = choose|j: int| 0 <= j < ls.len() && sets_hotkey(#[trigger] ls[j]);
        assert(is_hotkey_line(ls[j]));
    }
}

/// Read back line by line (for a combination without a line break), the
/// saved text holds every line that sets no hotkey at its place, without
/// one trailing carriage return, and the new hotkey line where a hotkey line
/// stood.
pub proof fn law_saved_hotkey_keeps_other_lines(existing: Seq<char>, combo: Seq<char>)
    requires
        forall|j: int| 0 <= j < combo.len() ==> combo[j] != '\n',
    ensures
        ({
            let ls = lines(existing);
            let out = lines(with_hotkey(existing, combo));
            &&& out.len() >= ls.len()
            &&& forall|i: int|
                0 <= i < ls.len() ==> (#[trigger] out[i]) == strip_cr(
                    if sets_hotkey(ls[i]) { hotkey_line(combo) } else { ls[i] },
                )
        }),
{
    reveal_strlit("hotkey = \"");
    reveal_strlit("\"");
    law_saved_hotkey_replaces_only_the_hotkey_line(existing, combo);
    let ls = lines(existing);
    let h = hotkey_line(combo);
    let kept = Seq::new(ls.len(), |i: int| if sets_hotkey(ls[i]) { h } else { ls[i] });
    lemma_lines_free(existing);
    assert forall|j: int| 0 <= j < h.len() implies h[j] != '\n' by {
        if j >= 10 && j < 10 + combo.len() {
            assert(h[j] == combo[j - 10]);
        }
    };
    assert forall|i: int, j: int| 0 <= i < kept.len() && 0 <= j < kept[i].len() implies #[trigger] kept[i][j]
        != '\n' by {
        if !sets_hotkey(ls[i]) {
            assert(kept[i] == ls[i]);
        }
    };
    if exists|i: int| 0 <= i < ls.len() && sets_hotkey(#[trigger] ls[i]) {
        lemma_lines_of_terminated(kept);
        assert(with_hotkey(existing, combo) =~= terminated(kept));
    } else {
        let k2 = kept.push(h);
        assert forall|i: int, j: int| 0 <= i < k2.len() && 0 <= j < k2[i].len() implies #[trigger] k2[i][j]
            != '\n' by {
            if i < kept.len() {
                assert(k2[i] == kept[i]);
            }
        };
        lemma_lines_of_terminated(k2);
        assert(k2.drop_last() =~= kept);
        assert(with_hotkey(existing, combo) =~= terminated(k2));
    }
}

// ---------------------------------------------------------------------------
// The transcription API key
// ---------------------------------------------------------------------------

/// Where the key comes from, first match wins: the `OPENAI_API_KEY`
/// environment variable (trimmed, if not empty), the config file's field (if
/// not empty), the legacy key file's text (trimmed, if not empty).
pub open spec fn api_key_spec(env: Option<Seq<char>>, config_key: Seq<char>, legacy: Option<Seq<char>>) -> Option<Seq<char>> {
    if env is Some && trim(env->0).len() > 0 {
        Some(trim(env->0))
    } else if config_key.len() > 0 {
        Some(config_key)
    } else if legacy is Some && trim(legacy->0).len() > 0 {
        Some(trim(legacy->0))
    } else {
        None
    }
}

pub open spec fn opt_str_view(o: Option<&str>) -> Option<Seq<char>> {
    match o {
        Some(s) => Some(s@),
        None => None,
    }
}

/// The transcription API key, given the environment variable's value and the
/// legacy key file's text, where there are any.
pub fn resolve_api_key(cfg: &Config, env: Option<&str>, legacy: Option<&str>) -> (r: Option<String>)
    ensures
        match r {
            Some(k) => api_key_spec(opt_str_view(env), cfg.openai_api_key@, opt_str_view(legacy))
                == Some(k@),
            None => api_key_spec(opt_str_view(env), cfg.openai_api_key@, opt_str_view(legacy)) is None,
        },
{
    if let Some(k) = env {
        let t = trim_of(chars_of(k).as_slice());
        if t.len() > 0 {
            return Some(string_of(t.as_slice()));
        }
    }
    let c = chars_of(cfg.openai_api_key.as_str());
    if c.len() > 0 {
        return Some(string_of(c.as_slice()));
    }
    if let Some(k) = legacy {
        let t = trim_of(chars_of(k).as_slice());
        if t.len() > 0 {
            return Some(string_of(t.as_slice()));
        }
    }
    None
}

} // verus!
