//! The record of what was dictated: one entry per dictation, newest first
//! when read back. Prompt mode keeps both texts: the transcript is what the
//! recogniser heard, the prompt is what reached the clipboard. Reading and
//! writing the file, and the JSON form of an entry, are the caller's; the
//! line framing, pruning and menu previews are here.

use vstd::prelude::*;
use crate::text::{
    is_ws, chars_of, decimal, join, join_of, lines, lines_of, push_chars, push_decimal, push_str,
    slice_to, string_of, terminated, trim, trim_end, trim_end_of, trim_of, views, words, words_of,
};

verus! {

#[derive(Debug, Clone)]
pub struct Entry {
    /// Seconds since the Unix epoch.
    pub at: u64,
    pub mode: String,
    pub transcript: String,
    /// Absent in raw mode, where the transcript is what was pasted.
    pub prompt: Option<String>,
}

/// What the dictation put on the clipboard: the prompt when there is one,
/// else the transcript.
pub open spec fn pasted_spec(e: Entry) -> Seq<char> {
    match e.prompt {
        Some(p) => p@,
        None => e.transcript@,
    }
}

impl Entry {
    /// What the dictation put on the clipboard.
    pub fn pasted(&self) -> (s: &str)
        ensures
            s@ == pasted_spec(*self),
    {
        match &self.prompt {
            Some(p) => p.as_str(),
            None => self.transcript.as_str(),
        }
    }
}

/// Calls `SystemTime::now` and reads it as whole seconds since the Unix epoch
/// (0 for a clock set before the epoch). Nothing is claimed of the value: it
/// is the time.
#[verifier::external_body]
pub fn now() -> (t: u64) {
    std::time::SystemTime::now().duration_since(std::time::UNIX_EPOCH).map(|d| d.as_secs()).unwrap_or(0)
}

/// The entry for a dictation made at `at`.
pub fn entry_at(at: u64, mode: &str, transcript: &str, prompt: Option<&str>) -> (e: Entry)
    ensures
        e.at == at,
        e.mode@ == mode@,
        e.transcript@ == transcript@,
        match prompt {
            Some(p) => e.prompt is Some && e.prompt->0@ == p@,
            None => e.prompt is None,
        },
{
    Entry {
        at,
        mode: string_of(chars_of(mode).as_slice()),
        transcript: string_of(chars_of(transcript).as_slice()),
        prompt: match prompt {
            Some(p) => Some(string_of(chars_of(p).as_slice())),
            None => None,
        },
    }
}

/// The entry for a dictation made now, to be appended to the history file.
pub fn record(mode: &str, transcript: &str, prompt: Option<&str>) -> (e: Entry)
    ensures
        e.mode@ == mode@,
        e.transcript@ == transcript@,
        match prompt {
            Some(p) => e.prompt is Some && e.prompt->0@ == p@,
            None => e.prompt is None,
        },
{
    entry_at(now(), mode, transcript, prompt)
}

// ---------------------------------------------------------------------------
// The file's lines
// ---------------------------------------------------------------------------

/// The lines that hold something besides whitespace, last line first.
pub open spec fn newest_first(ls: Seq<Seq<char>>) -> Seq<Seq<char>>
    decreases ls.len(),
{
    if ls.len() == 0 {
        Seq::empty()
    } else {
        let rest = newest_first(ls.drop_last());
        if trim(ls.last()).len() > 0 {
            seq![ls.last()] + rest
        } else {
            rest
        }
    }
}

pub open spec fn string_views(v: Seq<String>) -> Seq<Seq<char>> {
    v.map_values(|s: String| s@)
}

/// The non-blank lines of the history file, newest first, each to be read as
/// one entry (a line that does not read is skipped).
pub fn entry_lines(text: &str) -> (r: Vec<String>)
    ensures
        string_views(r@) == newest_first(lines(text@)),
{
    let all = lines_of(chars_of(text).as_slice());
    let mut out: Vec<String> = Vec::new();
    assert(views(all@).take(0) =~= Seq::<Seq<char>>::empty());
    assert(string_views(out@) =~= Seq::<Seq<char>>::empty());
    for i in 0..all.len()
        invariant
            views(all@) == lines(text@),
            string_views(out@) == newest_first(views(all@).take(i as int)),
    {
        let ghost pre = views(all@).take(i as int + 1);
        assert(pre.drop_last() =~= views(all@).take(i as int));
        assert(pre.last() == all@[i as int]@);
        let t = trim_of(all[i].as_slice());
        if t.len() > 0 {
            let ghost before = out@;
            out.insert(0, string_of(all[i].as_slice()));
            assert(string_views(out@) =~= seq![all@[i as int]@] + string_views(before));
        }
    }
    assert(views(all@).take(all.len() as int) =~= views(all@));
    out
}

/// The file's text for the given lines: each followed by a newline.
pub fn jsonl(lines: &Vec<String>) -> (r: String)
    ensures
        r@ == terminated(string_views(lines@)),
{
    let mut out = String::new();
    assert(string_views(lines@).take(0) =~= Seq::<Seq<char>>::empty());
    for i in 0..lines.len()
        invariant
            out@ == terminated(string_views(lines@).take(i as int)),
    {
        let ghost pre = string_views(lines@).take(i as int + 1);
        assert(pre.drop_last() =~= string_views(lines@).take(i as int));
        assert(pre.last() == lines@[i as int]@);
        push_str(&mut out, lines[i].as_str());
        push_str(&mut out, "\n");
        proof {
            reveal_strlit("\n");
        }
        assert(out@ =~= terminated(pre));
    }
    assert(string_views(lines@).take(lines.len() as int) =~= string_views(lines@));
    out
}

// ---------------------------------------------------------------------------
// Pruning
// ---------------------------------------------------------------------------

/// The oldest time an entry may have to survive a prune at `now`: the
/// retention window before `now`, or 0 when the window reaches past the epoch.
pub open spec fn cutoff_spec(now: u64, retention_days: u32) -> u64 {
    if now >= retention_days * 86400 {
        (now - retention_days * 86400) as u64
    } else {
        0
    }
}

/// Entries kept by a prune with this cutoff, in the order given.
pub open spec fn recent(es: Seq<Entry>, cutoff: u64) -> Seq<Entry>
    decreases es.len(),
{
    if es.len() == 0 {
        Seq::empty()
    } else {
        let rest = recent(es.drop_last(), cutoff);
        if es.last().at >= cutoff {
            rest.push(es.last())
        } else {
            rest
        }
    }
}

/// What a prune at `now` writes back, given the entries newest first: `None`
/// (the file is left alone) for a zero retention window, else the entries
/// inside the window, oldest first as the file keeps them.
pub open spec fn prune_spec(newest_first: Seq<Entry>, now: u64, retention_days: u32) -> Option<Seq<Entry>> {
    if retention_days == 0 {
        None
    } else {
        Some(recent(newest_first.reverse(), cutoff_spec(now, retention_days)))
    }
}

pub fn prune_at(entries: Vec<Entry>, now: u64, retention_days: u32) -> (r: Option<Vec<Entry>>)
    ensures
        match r {
            Some(v) => prune_spec(entries@, now, retention_days) == Some(v@),
            None => prune_spec(entries@, now, retention_days) is None,
        },
{
    if retention_days == 0 {
        return None;
    }
    let window = (retention_days as u64) * 86400;
    let cutoff = now.saturating_sub(window);
    let ghost file = entries@.reverse();
    let mut kept: Vec<Entry> = Vec::new();
    let mut entries = entries;
    let ghost all = entries@;
    let mut i: usize = 0;
    let n = entries.len();
    assert(file.take(0) =~= Seq::<Entry>::empty());
    while i < n
        invariant
            n == all.len(),
            i <= n,
            entries@ == all.take(n - i),
            file == all.reverse(),
            kept@ == recent(file.take(i as int), cutoff),
            cutoff == cutoff_spec(now, retention_days),
        decreases n - i,
    {
        let e = entries.pop().unwrap();
        let ghost pre = file.take(i as int + 1);
        assert(pre.drop_last() =~= file.take(i as int));
        assert(pre.last() == all[n - 1 - i]);
        assert(e == all[n - 1 - i]);
        if e.at >= cutoff {
            kept.push(e);
        }
        assert(all.take(n - i).drop_last() =~= all.take(n - i - 1));
        i = i + 1;
    }
    assert(file.take(n as int) =~= file);
    Some(kept)
}

/// Prunes, at the present time, the entries (newest first) to the retention
/// window. Runs once at startup.
pub fn prune(entries: Vec<Entry>, retention_days: u32) -> (r: Option<Vec<Entry>>)
    ensures
        retention_days == 0 <==> r is None,
        match r {
            Some(v) => exists|t: u64| prune_spec(entries@, t, retention_days) == Some(v@),
            None => true,
        },
{
    let t = now();
    prune_at(entries, t, retention_days)
}

/// Keeping the recent entries twice keeps the same entries.
pub proof fn lemma_recent_idempotent(es: Seq<Entry>, cutoff: u64)
    ensures
        recent(recent(es, cutoff), cutoff) == recent(es, cutoff),
    decreases es.len(),
{
    if es.len() > 0 {
        lemma_recent_idempotent(es.drop_last(), cutoff);
        let rest = recent(es.drop_last(), cutoff);
        if es.last().at >= cutoff {
            assert(rest.push(es.last()).drop_last() =~= rest);
        }
    }
}

/// Every entry a prune keeps is inside the window, and the kept entries are
/// among those given.
pub proof fn lemma_recent_inside(es: Seq<Entry>, cutoff: u64)
    ensures
        forall|i: int| 0 <= i < recent(es, cutoff).len() ==> #[trigger] recent(es, cutoff)[i].at >= cutoff,
        forall|i: int| 0 <= i < recent(es, cutoff).len() ==> es.contains(#[trigger] recent(es, cutoff)[i]),
    decreases es.len(),
{
    if es.len() > 0 {
        lemma_recent_inside(es.drop_last(), cutoff);
        let rest = recent(es.drop_last(), cutoff);
        assert forall|i: int| 0 <= i < recent(es, cutoff).len() implies es.contains(#[trigger] recent(es, cutoff)[i]) by {
            if i < rest.len() {
                assert(recent(es, cutoff)[i] == rest[i]);
                let k = choose|k: int| 0 <= k < es.drop_last().len() && es.drop_last()[k] == rest[i];
                assert(es[k] == rest[i]);
            } else {
                assert(recent(es, cutoff)[i] == es[es.len() - 1]);
            }
        };
    }
}

/// Pruning what a prune wrote (read back newest first) at the same moment
/// writes the same entries again: a prune is idempotent. What it keeps lies
/// inside the retention window and came from the file.
pub proof fn law_prune_idempotent(newest_first: Seq<Entry>, now: u64, retention_days: u32)
    requires
        retention_days > 0,
    ensures
        prune_spec(prune_spec(newest_first, now, retention_days)->0.reverse(), now, retention_days)
            == prune_spec(newest_first, now, retention_days),
        forall|i: int|
            0 <= i < prune_spec(newest_first, now, retention_days)->0.len() ==> (#[trigger] prune_spec(
                newest_first,
                now,
                retention_days,
            )->0[i]).at >= cutoff_spec(now, retention_days) && newest_first.contains(
                prune_spec(newest_first, now, retention_days)->0[i],
            ),
{
    let c = cutoff_spec(now, retention_days);
    let kept = recent(newest_first.reverse(), c);
    assert(kept.reverse().reverse() =~= kept);
    lemma_recent_idempotent(newest_first.reverse(), c);
    lemma_recent_inside(newest_first.reverse(), c);
    assert forall|i: int| 0 <= i < kept.len() implies newest_first.contains(#[trigger] kept[i]) by {
        let k = choose|k: int| 0 <= k < newest_first.reverse().len() && newest_first.reverse()[k] == kept[i];
        assert(newest_first[newest_first.len() - 1 - k] == kept[i]);
    };
}

/// A zero retention window leaves the history alone.
pub proof fn law_prune_zero_keeps_all(newest_first: Seq<Entry>, now: u64)
    ensures
        prune_spec(newest_first, now, 0) is None,
{
}

// ---------------------------------------------------------------------------
// Menu rows
// ---------------------------------------------------------------------------

/// A single-line preview: runs of whitespace become one space; past
/// `max_chars` characters the text is cut to one less, trailing whitespace
/// dropped, and "…" appended.
pub open spec fn preview_spec(text: Seq<char>, max_chars: usize) -> Seq<char> {
    let flat = join(words(text), seq![' ']);
    if flat.len() <= max_chars {
        flat
    } else {
        let keep = if max_chars >= 1 {
            max_chars - 1
        } else {
            0
        };
        trim_end(flat.take(keep)).push('\u{2026}')
    }
}

/// Single-line preview for a menu entry.
pub fn preview(text: &str, max_chars: usize) -> (r: String)
    ensures
        r@ == preview_spec(text@, max_chars),
{
    let ws = words_of(chars_of(text).as_slice());
    let space = chars_of(" ");
    proof {
        reveal_strlit(" ");
        assert(space@ =~= seq![' ']);
    }
    let flat = join_of(&ws, space.as_slice());
    if flat.len() <= max_chars {
        return string_of(flat.as_slice());
    }
    let keep = max_chars.saturating_sub(1);
    let cut = slice_to(flat.as_slice(), keep);
    let cut = trim_end_of(cut.as_slice());
    let mut out = string_of(cut.as_slice());
    crate::text::push_char(&mut out, '\u{2026}');
    out
}

/// Words hold no whitespace.
proof fn lemma_words_plain(s: Seq<char>)
    ensures
        forall|i: int, j: int|
            0 <= i < words(s).len() && 0 <= j < words(s)[i].len() ==> !is_ws(#[trigger] words(s)[i][j]),
    decreases s.len(),
{
    if s.len() > 0 {
        lemma_words_plain(s.drop_last());
        let prev = words(s.drop_last());
        let c = s.last();
        if !is_ws(c) && s.len() > 1 && !is_ws(s[s.len() - 2]) {
            crate::text::lemma_words_nonempty(s.drop_last());
        }
        assert forall|i: int, j: int|
            0 <= i < words(s).len() && 0 <= j < words(s)[i].len() implies !is_ws(#[trigger] words(s)[i][j]) by {
            if i < prev.len() && !(i == prev.len() - 1 && !is_ws(c) && s.len() > 1 && !is_ws(s[s.len() - 2])) {
                assert(words(s)[i] == prev[i]);
            } else if i < prev.len() {
                if j < prev[i].len() {
                    assert(words(s)[i][j] == prev[i][j]);
                }
            }
        };
    }
}

/// Joined with single spaces, whitespace-free words give a text whose only
/// whitespace is those spaces.
proof fn lemma_join_spaces(parts: Seq<Seq<char>>)
    requires
        forall|i: int, j: int| 0 <= i < parts.len() && 0 <= j < parts[i].len() ==> !is_ws(#[trigger] parts[i][j]),
    ensures
        forall|k: int| 0 <= k < join(parts, seq![' ']).len() && is_ws(#[trigger] join(parts, seq![' '])[k]) ==> join(parts, seq![' '])[k] == ' ',
    decreases parts.len(),
{
    if parts.len() > 1 {
        let p = parts.drop_last();
        assert forall|i: int, j: int| 0 <= i < p.len() && 0 <= j < p[i].len() implies !is_ws(#[trigger] p[i][j]) by {
            assert(p[i] == parts[i]);
        };
        lemma_join_spaces(p);
        let a = join(p, seq![' ']);
        let l = parts.last();
        assert forall|k: int| 0 <= k < join(parts, seq![' ']).len() && is_ws(#[trigger] join(parts, seq![' '])[k]) implies join(parts, seq![' '])[k] == ' ' by {
            if k < a.len() {
                assert(join(parts, seq![' '])[k] == a[k]);
            } else if k > a.len() {
                assert(join(parts, seq![' '])[k] == l[k - a.len() - 1]);
                assert(l == parts[parts.len() - 1]);
            }
        };
    } else if parts.len() == 1 {
        assert forall|k: int| 0 <= k < join(parts, seq![' ']).len() implies !is_ws(#[trigger] join(parts, seq![' '])[k]) by {
            assert(join(parts, seq![' '])[k] == parts[0][k]);
        };
    }
}

/// Trimming the end keeps a prefix.
proof fn lemma_trim_end_prefix(s: Seq<char>)
    ensures
        trim_end(s).len() <= s.len(),
        trim_end(s) == s.take(trim_end(s).len() as int),
    decreases s.len(),
{
    if s.len() > 0 && is_ws(s.last()) {
        lemma_trim_end_prefix(s.drop_last());
        assert(s.drop_last().take(trim_end(s).len() as int) =~= s.take(trim_end(s).len() as int));
    } else {
        assert(s.take(s.len() as int) =~= s);
    }
}

/// A preview is one line: its only whitespace is single spaces (no line
/// breaks), and with room for at least one character it is no longer than
/// `max_chars`.
pub proof fn law_preview_single_line(text: Seq<char>, max_chars: usize)
    ensures
        forall|k: int| 0 <= k < preview_spec(text, max_chars).len() && is_ws(#[trigger] preview_spec(text, max_chars)[k]) ==> preview_spec(text, max_chars)[k] == ' ',
        max_chars >= 1 ==> preview_spec(text, max_chars).len() <= max_chars,
{
    lemma_words_plain(text);
    lemma_join_spaces(words(text));
    let flat = join(words(text), seq![' ']);
    if flat.len() > max_chars {
        let keep: int = if max_chars >= 1 { max_chars - 1 } else { 0 };
        let cut = flat.take(keep);
        lemma_trim_end_prefix(cut);
        let t = trim_end(cut);
        assert forall|k: int| 0 <= k < t.len() implies t[k] == flat[k] by {
            assert(t[k] == cut.take(t.len() as int)[k]);
        };
        assert(!is_ws('\u{2026}'));
        assert forall|k: int| 0 <= k < preview_spec(text, max_chars).len() && is_ws(#[trigger] preview_spec(text, max_chars)[k]) implies preview_spec(text, max_chars)[k] == ' ' by {
            if k < t.len() {
                assert(preview_spec(text, max_chars)[k] == flat[k]);
            }
        };
    }
}

/// Coarse age label for something `elapsed` seconds old, in the largest whole
/// unit.
pub open spec fn age_label_spec(elapsed: u64) -> Seq<char> {
    if elapsed <= 59 {
        "just now"@
    } else if elapsed <= 3599 {
        decimal((elapsed / 60) as nat) + "m ago"@
    } else if elapsed <= 86399 {
        decimal((elapsed / 3600) as nat) + "h ago"@
    } else {
        decimal((elapsed / 86400) as nat) + "d ago"@
    }
}

/// The age label of something made at `at`, seen at `now` (a time in the
/// future reads as "just now").
pub open spec fn age_at_spec(at: u64, now: u64) -> Seq<char> {
    age_label_spec(if now >= at {
        (now - at) as u64
    } else {
        0
    })
}

pub fn age_at(at: u64, now: u64) -> (r: String)
    ensures
        r@ == age_at_spec(at, now),
{
    let elapsed = now.saturating_sub(at);
    let mut s = String::new();
    if elapsed <= 59 {
        push_str(&mut s, "just now");
    } else if elapsed <= 3599 {
        push_decimal(&mut s, elapsed / 60);
        push_str(&mut s, "m ago");
    } else if elapsed <= 86399 {
        push_decimal(&mut s, elapsed / 3600);
        push_str(&mut s, "h ago");
    } else {
        push_decimal(&mut s, elapsed / 86400);
        push_str(&mut s, "d ago");
    }
    assert(s@ =~= age_at_spec(at, now));
    s
}

/// Coarse age label, so the menu needs no date formatting dependency.
pub fn age(at: u64) -> (r: String)
    ensures
        exists|t: u64| r@ == age_at_spec(at, t),
{
    let t = now();
    age_at(at, t)
}

/// How many past dictations the history submenu lists.
pub const HISTORY_SHOWN: usize = 12;

/// Characters of each entry shown in the menu before it is elided.
pub const HISTORY_PREVIEW: usize = 60;

/// A history row: its text, and what clicking it copies (what was pasted).
pub open spec fn history_row_spec(e: Entry, now: u64) -> (Seq<char>, Seq<char>) {
    let marker = if e.mode@ == "prompt"@ {
        "P"@
    } else {
        "R"@
    };
    (
        "["@ + marker + "] "@ + preview_spec(pasted_spec(e), HISTORY_PREVIEW) + " \u{b7} "@
            + age_at_spec(e.at, now),
        pasted_spec(e),
    )
}

pub fn history_row(e: &Entry, now: u64) -> (r: (String, String))
    ensures
        (r.0@, r.1@) == history_row_spec(*e, now),
{
    let mut s = String::new();
    push_str(&mut s, "[");
    let mode = chars_of(e.mode.as_str());
    if crate::text::eq_str(mode.as_slice(), "prompt") {
        push_str(&mut s, "P");
    } else {
        push_str(&mut s, "R");
    }
    push_str(&mut s, "] ");
    let p = preview(e.pasted(), HISTORY_PREVIEW);
    push_str(&mut s, p.as_str());
    push_str(&mut s, " \u{b7} ");
    let a = age_at(e.at, now);
    push_str(&mut s, a.as_str());
    (s, string_of(chars_of(e.pasted()).as_slice()))
}

/// The rows of the history submenu, newest first, at most `HISTORY_SHOWN`.
pub fn history_rows(entries: &Vec<Entry>, now: u64) -> (r: Vec<(String, String)>)
    ensures
        r@.len() == if entries@.len() < HISTORY_SHOWN { entries@.len() } else { HISTORY_SHOWN as nat },
        forall|i: int|
            0 <= i < r@.len() ==> ((#[trigger] r@[i]).0@, r@[i].1@) == history_row_spec(
                entries@[i],
                now,
            ),
{
    let mut rows: Vec<(String, String)> = Vec::new();
    let n = if entries.len() < HISTORY_SHOWN {
        entries.len()
    } else {
        HISTORY_SHOWN
    };
    for i in 0..n
        invariant
            n <= entries@.len(),
            rows@.len() == i,
            forall|j: int|
                0 <= j < i ==> ((#[trigger] rows@[j]).0@, rows@[j].1@) == history_row_spec(
                    entries@[j],
                    now,
                ),
    {
        rows.push(history_row(&entries[i], now));
    }
    rows
}

/// Whether the two copy rows are offered, given the newest entry: the last
/// output whenever there is an entry, the raw transcript only when it differs
/// from the output (prompt mode).
pub fn copy_rows(newest: Option<&Entry>) -> (r: (bool, bool))
    ensures
        r.0 == newest is Some,
        r.1 == (newest is Some && newest->0.prompt is Some),
{
    match newest {
        Some(e) => (true, e.prompt.is_some()),
        None => (false, false),
    }
}

} // verus!
