use voice_dictate::config::{
    default_api_base, default_history_days, default_hotkey, default_model, hotkey_saved,
    resolve_api_key, Config,
};

#[test]
fn defaults() {
    let c = Config::default();
    assert_eq!(c.cleanup_max_words, None);
    assert_eq!(c.api_base, "https://api.openai.com/v1");
    assert_eq!(c.model, "gpt-4o-transcribe");
    assert_eq!(c.hotkey, "Ctrl+Space");
    assert_eq!(c.samplerate, 0);
    assert_eq!(c.history_retention_days, 7);
    assert!(c.language.is_empty() && c.prompt.is_empty() && c.openai_api_key.is_empty());
    assert_eq!(default_hotkey(), "Ctrl+Space");
    assert_eq!(default_model(), "gpt-4o-transcribe");
    assert_eq!(default_api_base(), "https://api.openai.com/v1");
    assert_eq!(default_history_days(), 7);
}

#[test]
fn saving_a_hotkey_replaces_its_line_and_keeps_the_rest() {
    let existing = "# my settings\nmodel = \"x\"\n  hotkey = \"F9\" # old\nhotkeys_note = 1\n";
    assert_eq!(
        hotkey_saved(existing, "Ctrl+Alt+D"),
        "# my settings\nmodel = \"x\"\nhotkey = \"Ctrl+Alt+D\"\nhotkeys_note = 1\n"
    );
}

#[test]
fn saving_a_hotkey_appends_when_absent() {
    assert_eq!(hotkey_saved("", "F9"), "hotkey = \"F9\"\n");
    assert_eq!(hotkey_saved("model = \"x\"", "F9"), "model = \"x\"\nhotkey = \"F9\"\n");
    // "hotkeys = ..." is another key.
    assert_eq!(hotkey_saved("hotkeys = 2\r\n", "F9"), "hotkeys = 2\nhotkey = \"F9\"\n");
}

#[test]
fn saving_twice_is_saving_once() {
    let once = hotkey_saved("a = 1\nhotkey=\"x\"\n", "Ctrl+Space");
    assert_eq!(hotkey_saved(&once, "Ctrl+Space"), once);
}

fn config_with_key(k: &str) -> Config {
    Config { openai_api_key: k.to_string(), ..Config::default() }
}

#[test]
fn api_key_precedence() {
    assert_eq!(resolve_api_key(&config_with_key("cfg"), Some("  env \n"), Some("legacy")).as_deref(), Some("env"));
    assert_eq!(resolve_api_key(&config_with_key("cfg"), Some("   "), Some("legacy")).as_deref(), Some("cfg"));
    assert_eq!(resolve_api_key(&config_with_key(""), None, Some(" legacy\n")).as_deref(), Some("legacy"));
    assert_eq!(resolve_api_key(&config_with_key(""), None, Some("\n")), None);
    assert_eq!(resolve_api_key(&config_with_key(""), None, None), None);
}
