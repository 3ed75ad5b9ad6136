use voice_dictate::transcribe::{transcript_text, Transcriber};

#[test]
fn new_trims_slashes_and_empty_language() {
    let t = Transcriber::new("http://127.0.0.1:8080/v1//", "default", "", true);
    assert_eq!(t.server_url, "http://127.0.0.1:8080/v1");
    assert_eq!(t.language, None);
    assert_eq!(t.endpoint(), "http://127.0.0.1:8080/v1/audio/transcriptions");
    let t = Transcriber::new("http://h", "m", "pt", false);
    assert_eq!(t.language.as_deref(), Some("pt"));
}

#[test]
fn form_fields_in_order() {
    let t = Transcriber::new("http://h", "m", "pt", false);
    let f = t.form_fields();
    assert_eq!(
        f,
        vec![
            ("model".to_string(), "m".to_string()),
            ("automatic_punctuation".to_string(), "false".to_string()),
            ("language".to_string(), "pt".to_string()),
        ]
    );
    let t = Transcriber::new("http://h", "m", "", true);
    assert_eq!(t.form_fields().len(), 2);
    assert_eq!(t.form_fields()[1].1, "true");
}

#[test]
fn transcript_text_is_trimmed() {
    assert_eq!(transcript_text("  hello world \n"), "hello world");
}
