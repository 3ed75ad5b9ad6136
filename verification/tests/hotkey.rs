use global_hotkey::hotkey::{Code, HotKey, Modifiers};
use voice_dictate::hotkey::{code_name_of, parse, parse_combo, HotkeyError, Key};

#[test]
fn parses_modifiers_and_a_key() {
    let c = parse_combo("Ctrl+Alt+D").unwrap();
    assert!(c.ctrl && c.alt && !c.shift && !c.meta);
    assert_eq!(c.key, Key::Letter('d'));
    let c = parse_combo(" cmd + Shift + space ").unwrap();
    assert!(c.meta && c.shift && !c.ctrl);
    assert_eq!(c.key, Key::Space);
    assert_eq!(parse_combo("F9").unwrap().key, Key::Function(9));
    assert_eq!(parse_combo("f12").unwrap().key, Key::Function(12));
    // Empty parts are skipped; the last key named wins.
    assert_eq!(parse_combo("a++b").unwrap().key, Key::Letter('b'));
}

#[test]
fn parse_errors() {
    assert_eq!(parse_combo("Ctrl+Alt"), Err(HotkeyError::NoKey("Ctrl+Alt".into())));
    let e = parse_combo("Ctrl+F13").unwrap_err();
    assert_eq!(e, HotkeyError::UnknownKey("f13".into()));
    assert_eq!(e.message(), "unknown key: f13");
    assert_eq!(HotkeyError::NoKey("x".into()).message(), "no key in hotkey: x");
}

#[test]
fn parse_builds_the_global_hotkey() {
    let h = parse("Ctrl+Shift+Space").unwrap();
    assert_eq!(h, HotKey::new(Some(Modifiers::CONTROL | Modifiers::SHIFT), Code::Space));
    let h = parse("super+q").unwrap();
    assert_eq!(h, HotKey::new(Some(Modifiers::META), Code::KeyQ));
    assert_eq!(parse("F5").unwrap(), HotKey::new(None, Code::F5));
}

#[test]
fn code_names() {
    assert_eq!(code_name_of(Key::Letter('q')), "KeyQ");
    assert_eq!(code_name_of(Key::Space), "Space");
    assert_eq!(code_name_of(Key::Function(11)), "F11");
}
