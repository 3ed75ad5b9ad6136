use voice_dictate::cleanup::{
    finished_prompt, reply_text, transcript_message, usable_key, word_count, Block, ReplyError,
};

#[test]
fn counts_words_across_newlines() {
    assert_eq!(word_count("one two\nthree  four"), 4);
    assert_eq!(word_count("   "), 0);
}

#[test]
fn word_count_edges() {
    assert_eq!(word_count(""), 0);
    assert_eq!(word_count("one"), 1);
    assert_eq!(word_count(" \u{2003}a\u{3000}b\t"), 2);
}

#[test]
fn transcript_is_framed_as_data() {
    assert_eq!(transcript_message("hi there"), "<transcript>\nhi there\n</transcript>");
}

#[test]
fn reply_text_takes_the_first_text_block() {
    let blocks = vec![Block::Other, Block::Text("{\"prompt\":\"a\"}".into()), Block::Text("x".into())];
    assert_eq!(reply_text(&blocks).unwrap(), "{\"prompt\":\"a\"}");
    let none = vec![Block::Other];
    let err = reply_text(&none).unwrap_err();
    assert_eq!(err, ReplyError::NoText);
    assert_eq!(err.message(), "cleanup response had no text block");
}

#[test]
fn finished_prompt_is_trimmed() {
    assert_eq!(finished_prompt("  Mete o timeout a 60 segundos.\n"), "Mete o timeout a 60 segundos.");
}

#[test]
fn usable_key_refuses_empty() {
    assert_eq!(usable_key(Some("k")), Some("k".to_string()));
    assert_eq!(usable_key(Some("")), None);
    assert_eq!(usable_key(None), None);
}

#[test]
fn word_counts_add_up_across_a_space() {
    let a = "one two\n";
    let b = "  three\tfour five";
    assert_eq!(word_count(&format!("{a} {b}")), word_count(a) + word_count(b));
    assert_eq!(word_count(&format!("{a} {b}")), 5);
    assert_eq!(word_count(" \n\t"), 0);
}
