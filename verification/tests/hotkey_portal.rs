use voice_dictate::hotkey_portal::{current_shortcut, display_shortcut, to_portal_trigger};

#[test]
fn formats_portal_shortcut_for_the_menu() {
    assert_eq!(display_shortcut("Press <Control>space"), "Ctrl+Space");
    assert_eq!(
        display_shortcut("Press <Control><Shift>v"),
        "Ctrl+Shift+V"
    );
}

#[test]
fn display_shortcut_more_forms() {
    assert_eq!(display_shortcut("<Alt><Super>F9"), "Alt+Super+F9");
    assert_eq!(display_shortcut("f9"), "f9");
    assert_eq!(display_shortcut("space"), "Space");
}

#[test]
fn portal_trigger_from_config_hotkey() {
    assert_eq!(to_portal_trigger("Ctrl+Space").as_deref(), Some("CTRL+space"));
    assert_eq!(to_portal_trigger("ctrl + alt + shift + win + D").as_deref(), Some("CTRL+ALT+SHIFT+LOGO+d"));
    assert_eq!(to_portal_trigger("F9").as_deref(), Some("f9"));
    assert_eq!(to_portal_trigger("Ctrl+Alt"), None);
}

#[test]
fn current_shortcut_finds_the_raw_binding() {
    let list = vec![
        ("other".to_string(), "Press <Alt>x".to_string()),
        ("toggle-dictation".to_string(), "Press <Control>space".to_string()),
    ];
    assert_eq!(current_shortcut(&list).as_deref(), Some("Ctrl+Space"));
    assert_eq!(current_shortcut(&vec![]), None);
}
