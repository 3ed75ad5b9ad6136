use voice_dictate::state::{
    cleanup_wanted, dictation_outcome, paste_notice, transcript_action, AppState, Dictation, Mode,
    Phase, PressAction, TranscriptAction,
};

#[test]
fn transition_only_from_the_expected_phase() {
    let mut s = AppState::new();
    assert_eq!(s.get(), Phase::Idle);
    assert!(!s.transition(Phase::Recording, Phase::Transcribing));
    assert_eq!(s.get(), Phase::Idle);
    assert!(s.transition(Phase::Idle, Phase::Recording));
    assert_eq!(s.get(), Phase::Recording);
    s.set(Phase::Idle);
    assert_eq!(s.get(), Phase::Idle);
}

#[test]
fn a_dictation_keeps_the_mode_it_started_in() {
    let mut d = Dictation::new();
    assert_eq!(d.press(Mode::Prompt), PressAction::StartRecording);
    d.recorder_started(true);
    assert_eq!(d.phase(), Phase::Recording);
    assert_eq!(d.press(Mode::Raw), PressAction::StopRecording(Mode::Prompt));
    assert_eq!(d.press(Mode::Raw), PressAction::Ignored);
    assert!(d.recorder_stopped(Some(100)));
    assert_eq!(d.phase(), Phase::Transcribing);
    d.transcription_finished();
    assert_eq!(d.phase(), Phase::Idle);
}

#[test]
fn failures_go_back_to_idle() {
    let mut d = Dictation::new();
    d.press(Mode::Raw);
    d.recorder_started(false);
    assert_eq!(d.phase(), Phase::Idle);
    d.press(Mode::Raw);
    d.recorder_started(true);
    d.press(Mode::Raw);
    assert!(!d.recorder_stopped(Some(0)));
    assert_eq!(d.phase(), Phase::Idle);
    d.press(Mode::Raw);
    d.press(Mode::Raw);
    assert!(!d.recorder_stopped(None));
    assert_eq!(d.phase(), Phase::Idle);
}

#[test]
fn transcript_outcomes() {
    assert_eq!(transcript_action(Ok("hi".into())), TranscriptAction::Paste("hi".into()));
    assert_eq!(transcript_action(Ok(String::new())), TranscriptAction::Nothing);
    assert_eq!(transcript_action(Err("boom".into())), TranscriptAction::Report("Error: boom".into()));
}

#[test]
fn prompt_mode_needs_the_switch_a_cleaner_and_few_enough_words() {
    let t = "one two three";
    assert!(cleanup_wanted(Mode::Prompt, true, true, t, None));
    assert!(cleanup_wanted(Mode::Prompt, true, true, t, Some(3)));
    assert!(!cleanup_wanted(Mode::Prompt, true, true, t, Some(2)));
    assert!(!cleanup_wanted(Mode::Raw, true, true, t, None));
    assert!(!cleanup_wanted(Mode::Prompt, false, true, t, None));
    assert!(!cleanup_wanted(Mode::Prompt, true, false, t, None));
}

#[test]
fn a_failed_cleanup_pastes_raw() {
    assert_eq!(dictation_outcome(Some(Ok("Fix it.".to_string()))), ("prompt", Some("Fix it.".to_string())));
    assert_eq!(dictation_outcome(Some(Err("timeout".to_string()))), ("raw", None));
    assert_eq!(dictation_outcome(None), ("raw", None));
}

#[test]
fn clipboard_only_paste_is_announced() {
    assert_eq!(paste_notice(Ok(false)), Some("Copied to the clipboard: paste with Ctrl+V"));
    assert_eq!(paste_notice(Ok(true)), None);
    assert_eq!(paste_notice(Err("no display".to_string())), None);
}
