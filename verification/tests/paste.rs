use voice_dictate::paste::{is_wayland_session, keysym_to_keycode, paste_keys, paste_reported, PasteKey};

#[test]
fn paste_key_sequences() {
    assert_eq!(
        paste_keys("Ctrl+V"),
        vec![(PasteKey::Control, false), (PasteKey::V, false), (PasteKey::V, true), (PasteKey::Control, true)]
    );
    assert_eq!(
        paste_keys("ctrl+shift+v"),
        vec![
            (PasteKey::Control, false),
            (PasteKey::Shift, false),
            (PasteKey::V, false),
            (PasteKey::V, true),
            (PasteKey::Shift, true),
            (PasteKey::Control, true),
        ]
    );
}

#[test]
fn keycode_of_the_first_chunk_holding_the_keysym() {
    let syms = [1, 2, 0x76, 3, 0x76, 4];
    assert_eq!(keysym_to_keycode(8, 2, &syms, 0x76), Some(9));
    assert_eq!(keysym_to_keycode(8, 2, &syms, 4), Some(10));
    assert_eq!(keysym_to_keycode(8, 2, &syms, 99), None);
}

#[test]
fn wayland_detection() {
    assert!(is_wayland_session(true, None));
    assert!(is_wayland_session(false, Some("Wayland")));
    assert!(!is_wayland_session(false, Some("x11")));
    assert!(!is_wayland_session(false, None));
}

#[test]
fn paste_reports_whether_the_keystroke_went_in() {
    assert!(paste_reported(Some(4)));
    assert!(paste_reported(Some(1)));
    assert!(!paste_reported(Some(0)));
    assert!(!paste_reported(None));
}
