use voice_dictate::history::{
    age, age_at, copy_rows, entry_at, entry_lines, history_row, history_rows, jsonl, now, preview,
    prune_at, Entry,
};

#[test]
fn pasted_prefers_the_prompt() {
    let raw = Entry { at: 0, mode: "raw".into(), transcript: "hello".into(), prompt: None };
    assert_eq!(raw.pasted(), "hello");

    let prompt = Entry {
        at: 0,
        mode: "prompt".into(),
        transcript: "hello".into(),
        prompt: Some("Hello.".into()),
    };
    assert_eq!(prompt.pasted(), "Hello.");
}

#[test]
fn preview_collapses_whitespace_and_truncates() {
    assert_eq!(preview("one   two\nthree", 40), "one two three");
    assert_eq!(preview("abcdefghij", 5), "abcd…");
}

#[test]
fn age_reads_in_the_largest_whole_unit() {
    let t = now();
    assert_eq!(age(t), "just now");
    assert_eq!(age(t - 120), "2m ago");
    assert_eq!(age(t - 7200), "2h ago");
    assert_eq!(age(t - 172_800), "2d ago");
}

#[test]
fn age_at_boundaries() {
    assert_eq!(age_at(1000, 1059), "just now");
    assert_eq!(age_at(1000, 1060), "1m ago");
    assert_eq!(age_at(0, 3599), "59m ago");
    assert_eq!(age_at(0, 3600), "1h ago");
    assert_eq!(age_at(0, 86_399), "23h ago");
    assert_eq!(age_at(0, 86_400), "1d ago");
    // A time in the future reads as just now.
    assert_eq!(age_at(5000, 10), "just now");
}

#[test]
fn preview_edge_cases() {
    assert_eq!(preview("", 10), "");
    assert_eq!(preview("  \t\n ", 10), "");
    // The cut drops trailing whitespace before the ellipsis.
    assert_eq!(preview("abc def", 5), "abc…");
    // No room: only the ellipsis.
    assert_eq!(preview("abc", 0), "…");
    // Exactly at the limit: kept whole.
    assert_eq!(preview("abcde", 5), "abcde");
    // Unicode whitespace collapses too.
    assert_eq!(preview("a\u{3000}b\u{a0}\u{a0}c", 10), "a b c");
}

#[test]
fn preview_law_single_line_and_bounded() {
    let p = preview("line one\r\nline   two\n\nthree", 12);
    assert!(!p.contains('\n'));
    assert!(p.chars().count() <= 12);
    assert_eq!(p, "line one li…");
}

#[test]
fn entry_lines_are_nonblank_and_newest_first() {
    let text = "{\"a\":1}\n\n   \n{\"b\":2}\r\n{\"c\":3}";
    assert_eq!(entry_lines(text), vec!["{\"c\":3}", "{\"b\":2}", "{\"a\":1}"]);
    assert!(entry_lines("").is_empty());
    assert!(entry_lines("\n\n").is_empty());
}

#[test]
fn jsonl_ends_each_line() {
    assert_eq!(jsonl(&vec!["a".to_string(), "b".to_string()]), "a\nb\n");
    assert_eq!(jsonl(&vec![]), "");
}

fn entry(at: u64, text: &str) -> Entry {
    entry_at(at, "raw", text, None)
}

#[test]
fn prune_keeps_the_window_oldest_first() {
    let now = 10 * 86_400;
    // Newest first, as read back.
    let entries = vec![entry(now - 10, "new"), entry(now - 2 * 86_400, "edge"), entry(now - 3 * 86_400, "old")];
    let kept = prune_at(entries, now, 2).unwrap();
    let texts: Vec<&str> = kept.iter().map(|e| e.transcript.as_str()).collect();
    assert_eq!(texts, vec!["edge", "new"]);
}

#[test]
fn prune_zero_days_leaves_the_file() {
    assert!(prune_at(vec![entry(0, "x")], 100, 0).is_none());
}

#[test]
fn prune_window_past_the_epoch_keeps_everything() {
    let kept = prune_at(vec![entry(5, "b"), entry(0, "a")], 100, 7).unwrap();
    assert_eq!(kept.len(), 2);
    assert_eq!(kept[0].transcript, "a");
}

#[test]
fn prune_twice_is_prune_once() {
    let now = 50 * 86_400;
    let entries: Vec<Entry> = (0..10).rev().map(|d| entry(now - d * 86_400 / 2, "x")).collect();
    let once = prune_at(entries, now, 3).unwrap();
    let mut again_input = once.clone();
    again_input.reverse();
    let twice = prune_at(again_input, now, 3).unwrap();
    let a: Vec<u64> = once.iter().map(|e| e.at).collect();
    let b: Vec<u64> = twice.iter().map(|e| e.at).collect();
    assert_eq!(a, b);
    assert!(a.iter().all(|&t| t >= now - 3 * 86_400));
}

#[test]
fn history_rows_mark_mode_preview_and_age() {
    let now = 1_000_000;
    let p = entry_at(now - 120, "prompt", "hello   world", Some("Hello, world."));
    let r = entry_at(now - 10, "raw", "quick\nnote", None);
    let (label, copy) = history_row(&p, now);
    assert_eq!(label, "[P] Hello, world. · 2m ago");
    assert_eq!(copy, "Hello, world.");
    let (label, copy) = history_row(&r, now);
    assert_eq!(label, "[R] quick note · just now");
    assert_eq!(copy, "quick\nnote");
    let many: Vec<Entry> = (0..20).map(|i| entry(now - i, "x")).collect();
    assert_eq!(history_rows(&many, now).len(), 12);
    assert_eq!(history_rows(&vec![p], now).len(), 1);
}

#[test]
fn copy_rows_follow_the_newest_entry() {
    let p = entry_at(0, "prompt", "a", Some("b"));
    let r = entry_at(0, "raw", "a", None);
    assert_eq!(copy_rows(Some(&p)), (true, true));
    assert_eq!(copy_rows(Some(&r)), (true, false));
    assert_eq!(copy_rows(None), (false, false));
}

#[test]
fn record_stamps_the_present() {
    let before = now();
    let e = voice_dictate::history::record("prompt", "t", Some("p"));
    assert!(e.at >= before);
    assert_eq!(e.mode, "prompt");
    assert_eq!(e.pasted(), "p");
}
