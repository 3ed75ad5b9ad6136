use voice_dictate::hotkey_capture::{
    held_modifiers, is_modifier, key_down, vk_to_name, Capture, Held, KeyDecision, Poll,
};

fn held(ctrl: bool, alt: bool, shift: bool, win: bool) -> Held {
    Held { ctrl, alt, shift, win }
}

#[test]
fn names_and_modifiers() {
    assert_eq!(vk_to_name(0x41).as_deref(), Some("A"));
    assert_eq!(vk_to_name(0x20).as_deref(), Some("Space"));
    assert_eq!(vk_to_name(0x78).as_deref(), Some("F9"));
    assert_eq!(vk_to_name(0x7B).as_deref(), Some("F12"));
    assert_eq!(vk_to_name(0x0D), None);
    assert!(is_modifier(0xA2));
    assert!(!is_modifier(0x41));
    assert_eq!(held_modifiers(held(true, true, true, true)), "Ctrl+Alt+Shift+Super+");
    assert_eq!(held_modifiers(held(false, false, false, false)), "");
}

#[test]
fn key_down_decisions() {
    assert_eq!(key_down(0x1B, held(true, false, false, false)), KeyDecision::Cancel);
    assert_eq!(key_down(0x11, held(true, false, false, false)), KeyDecision::Wait);
    assert_eq!(key_down(0x44, held(true, true, false, false)), KeyDecision::Capture("Ctrl+Alt+D".into()));
    assert_eq!(key_down(0x44, held(false, false, false, false)), KeyDecision::Wait);
    assert_eq!(key_down(0x46, held(false, false, false, false)), KeyDecision::Wait);
    assert_eq!(key_down(0x70, held(false, false, false, false)), KeyDecision::Capture("F1".into()));
    assert_eq!(key_down(0x0D, held(true, false, false, false)), KeyDecision::Wait);
}

#[test]
fn captured_chords_parse() {
    for vk in [0x20u16, 0x41, 0x5A, 0x70, 0x79, 0x7B] {
        if let KeyDecision::Capture(c) = key_down(vk, held(true, false, true, false)) {
            let combo = voice_dictate::hotkey::parse_combo(&c).unwrap();
            assert!(combo.ctrl && combo.shift && !combo.alt && !combo.meta);
        } else {
            panic!("no capture for {vk}");
        }
    }
}

#[test]
fn capture_cycle() {
    let mut c = Capture::new();
    assert_eq!(c.poll(false), (Poll::Idle, false));
    assert!(c.begin());
    c.hook_installed(true);
    assert!(!c.begin());
    assert_eq!(c.poll(false), (Poll::Pending, false));
    assert!(c.key_down(0x11, held(true, false, false, false)));
    assert!(c.key_down(0x56, held(true, false, true, false)));
    assert_eq!(c.poll(false), (Poll::Captured("Ctrl+Shift+V".into()), true));
    assert!(!c.is_capturing());
    assert!(!c.key_down(0x56, held(true, false, false, false)));
    assert_eq!(c.poll(false), (Poll::Idle, false));
}

#[test]
fn capture_cancel_and_timeout() {
    let mut c = Capture::new();
    c.begin();
    c.hook_installed(true);
    assert!(c.key_down(0x1B, held(false, false, false, false)));
    assert_eq!(c.poll(false), (Poll::Cancelled, true));
    c.begin();
    c.hook_installed(true);
    assert_eq!(c.poll(true), (Poll::Cancelled, true));
    c.begin();
    c.hook_installed(false);
    assert!(!c.is_capturing());
}
