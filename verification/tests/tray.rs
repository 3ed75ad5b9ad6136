use voice_dictate::hotkey_capture::Held;
use voice_dictate::hotkey_portal::display_shortcut;
use voice_dictate::state::Phase;
use voice_dictate::tray::{
    dialog_bindings, gsettings_value, hotkey_change, hotkey_change_message, icon_color, icon_rgba,
    paste_choice, pastes_with_shift, phase_rows, problem, recolor, shortcut_from_key, shortcut_row,
    to_accelerator, Tray, Which,
};

fn held(ctrl: bool, alt: bool, shift: bool, win: bool) -> Held {
    Held { ctrl, alt, shift, win }
}

#[test]
fn builds_gnome_accelerators() {
    assert_eq!(to_accelerator("Ctrl+Space"), "<Control>space");
    assert_eq!(
        to_accelerator("Ctrl+Alt+Space"),
        "<Control><Alt>space"
    );
    assert_eq!(to_accelerator("F9"), "f9");
}

fn png(width: u32, height: u32, pixels: &[[u8; 4]]) -> Vec<u8> {
    let mut img = image::RgbaImage::new(width, height);
    for (i, p) in img.pixels_mut().enumerate() {
        *p = image::Rgba(pixels[i % pixels.len()]);
    }
    let mut bytes = std::io::Cursor::new(Vec::new());
    img.write_to(&mut bytes, image::ImageFormat::Png).unwrap();
    bytes.into_inner()
}

fn has_only_color(rgba: &[u8], color: [u8; 3]) -> bool {
    rgba.chunks_exact(4)
        .filter(|pixel| pixel[3] > 0)
        .all(|pixel| pixel[..3] == color)
}

#[test]
fn icon_is_white_except_while_recording() {
    let icon = png(4, 3, &[[10, 20, 30, 255], [0, 0, 0, 0], [1, 2, 3, 7]]);
    let (idle, w, h) = icon_rgba(&icon, Phase::Idle).unwrap();
    let (transcribing, _, _) = icon_rgba(&icon, Phase::Transcribing).unwrap();
    let (recording, _, _) = icon_rgba(&icon, Phase::Recording).unwrap();
    assert_eq!((w, h), (4, 3));

    assert_eq!(idle, transcribing);
    assert!(has_only_color(&idle, [255, 255, 255]));
    assert!(has_only_color(&recording, [230, 40, 40]));
}

#[test]
fn icon_keeps_alpha_and_invisible_pixels() {
    let icon = png(2, 1, &[[10, 20, 30, 128], [9, 8, 7, 0]]);
    let (rgba, _, _) = icon_rgba(&icon, Phase::Recording).unwrap();
    assert_eq!(rgba, vec![230, 40, 40, 128, 9, 8, 7, 0]);
    assert!(icon_rgba(b"not a png", Phase::Idle).is_none());
}

#[test]
fn recolor_touches_only_the_given_pixels() {
    let mut v = vec![1, 1, 1, 1, 2, 2, 2, 2, 3, 3];
    recolor(&mut v, 1, (9, 9, 9));
    assert_eq!(v, vec![9, 9, 9, 1, 2, 2, 2, 2, 3, 3]);
    assert_eq!(icon_color(Phase::Idle), (255, 255, 255));
}

#[test]
fn dialog_shortcuts_need_a_modifier_or_a_function_key() {
    let (d, a) = shortcut_from_key("d", held(true, true, false, false)).unwrap();
    assert_eq!(d, "Ctrl+Alt+D");
    assert_eq!(a, "<Control><Alt>d");
    let (d, a) = shortcut_from_key("space", held(true, false, false, false)).unwrap();
    assert_eq!((d.as_str(), a.as_str()), ("Ctrl+Space", "<Control>space"));
    let (d, a) = shortcut_from_key("F9", held(false, false, false, false)).unwrap();
    assert_eq!((d.as_str(), a.as_str()), ("F9", "F9"));
    let (d, _) = shortcut_from_key("F12", held(false, false, true, true)).unwrap();
    assert_eq!(d, "Shift+Super+F12");
    assert_eq!(shortcut_from_key("d", held(false, false, false, false)), None);
    assert_eq!(shortcut_from_key("F13", held(true, false, false, false)), None);
    assert_eq!(shortcut_from_key("Return", held(true, false, false, false)), None);
}

#[test]
fn dialog_shortcut_parses_and_reads_back() {
    let (d, _) = shortcut_from_key("v", held(true, false, true, false)).unwrap();
    let combo = voice_dictate::hotkey::parse_combo(&d).unwrap();
    assert!(combo.ctrl && combo.shift && !combo.alt && !combo.meta);
    let accel = to_accelerator(&d);
    let shown = voice_dictate::hotkey_portal::display_shortcut(&format!("Press {accel}"));
    assert_eq!(shown, d);
}

#[test]
fn dialog_writes_back_the_other_binding() {
    assert_eq!(dialog_bindings(Which::Raw, "F9", "Ctrl+Space", "Ctrl+Alt+Space"), ("F9".to_string(), "Ctrl+Alt+Space".to_string()));
    assert_eq!(dialog_bindings(Which::Prompt, "F9", "Ctrl+Space", "Ctrl+Alt+Space"), ("Ctrl+Space".to_string(), "F9".to_string()));
}

#[test]
fn gsettings_value_binds_both_shortcuts() {
    assert_eq!(
        gsettings_value("Ctrl+Space", "Ctrl+Alt+Space"),
        "[('toggle-dictation', {'shortcuts': <['<Control>space']>, 'description': <'Start/stop voice dictation'>}), ('toggle-prompt-dictation', {'shortcuts': <['<Control><Alt>space']>, 'description': <'Start/stop dictation in prompt mode'>})]"
    );
}

#[test]
fn rows_per_phase() {
    assert_eq!(phase_rows(Phase::Idle), ("Dictate raw", "Dictate prompt", true));
    assert_eq!(phase_rows(Phase::Recording), ("Stop", "Stop", true));
    assert_eq!(phase_rows(Phase::Transcribing), ("Transcribing...", "Transcribing...", false));
}

#[test]
fn status_row_only_when_something_is_wrong() {
    assert_eq!(problem(false, true, false).as_deref(), Some("Speech server offline"));
    assert_eq!(problem(true, true, false).as_deref(), Some("Prompt mode needs ANTHROPIC_API_KEY"));
    assert_eq!(problem(true, false, false), None);
    assert_eq!(problem(true, true, true), None);
}

#[test]
fn paste_menu_state() {
    assert!(pastes_with_shift("ctrl+shift+v"));
    assert!(!pastes_with_shift("Ctrl+V"));
    assert_eq!(paste_choice(true), ("Ctrl+Shift+V", false, true, "Paste with: Ctrl+Shift+V"));
    assert_eq!(paste_choice(false), ("Ctrl+V", true, false, "Paste with: Ctrl+V"));
    assert_eq!(shortcut_row(Which::Prompt, "F9"), "Prompt: F9");
}

#[test]
fn tray_refresh_reports_changes_once() {
    let mut t = Tray::new("Ctrl+Space", "Ctrl+Alt+Space");
    let u = t.refresh(Phase::Recording, true, false, false, "Ctrl+Space", "Ctrl+Alt+Space");
    assert_eq!(u.phase, Some(Phase::Recording));
    assert!(!u.reload_history);
    assert!(u.problem.is_none());
    assert!(u.shortcut_row.is_none());
    let u = t.refresh(Phase::Transcribing, false, false, false, "F9", "Ctrl+Alt+Space");
    assert_eq!(u.problem, Some(Some("Speech server offline".to_string())));
    assert_eq!(u.shortcut_row.as_deref(), Some("Raw: F9"));
    let u = t.refresh(Phase::Idle, true, false, false, "F9", "Ctrl+Alt+Space");
    assert!(u.reload_history);
    assert_eq!(u.problem, Some(None));
    let u = t.refresh(Phase::Idle, true, false, false, "F9", "Ctrl+Alt+Space");
    assert_eq!(u.phase, None);
    assert!(u.problem.is_none());
}

#[test]
fn hotkey_change_messages() {
    assert!(hotkey_change("Ctrl+Alt+D").is_ok());
    assert_eq!(hotkey_change("Ctrl+Enter").unwrap_err(), "Invalid combination: unknown key: enter");
    assert_eq!(hotkey_change_message("F9", Ok(())), "Hotkey set to F9");
    assert_eq!(hotkey_change_message("F9", Err("taken")), "Could not set F9: taken");
}

#[test]
fn dialog_accelerators_read_back_as_displayed() {
    let cases = [
        ("F9", held(false, false, false, false)),
        ("F12", held(true, false, true, false)),
        ("space", held(true, true, false, false)),
        ("q", held(false, false, false, true)),
    ];
    for (name, h) in cases {
        let (d, a) = shortcut_from_key(name, h).unwrap();
        assert_eq!(display_shortcut(&a), d);
        assert_eq!(display_shortcut(&format!("Press {a}")), d);
    }
    let (d, a) = shortcut_from_key("F9", held(true, false, false, false)).unwrap();
    assert_eq!((d.as_str(), a.as_str()), ("Ctrl+F9", "<Control>F9"));
}
