//! The dictation phase, the decisions a hotkey press makes on it, and what a
//! recognised transcript leads to: prompt mode or raw, and the paste notice.

use vstd::prelude::*;
use crate::text::words;

verus! {

/// Which hotkey started the dictation. Captured when recording begins, so the
/// stop press uses the mode the speaker chose at the start.
#[derive(Debug, Clone, Copy, PartialEq, Eq, Structural)]
pub enum Mode {
    /// Paste the transcript exactly as the recogniser returned it.
    Raw,
    /// Restructure the transcript into a prompt before pasting.
    Prompt,
}

#[derive(Debug, Clone, Copy, PartialEq, Eq, Structural)]
pub enum Phase {
    Idle,
    Recording,
    Transcribing,
}

/// The current phase of the client. It is one value, not a handle: it has no
/// `Clone`, so there is never a second copy to drift apart. Threads share it
/// behind a lock of the caller's choosing; every change goes through these
/// methods.
#[derive(Debug, PartialEq, Eq, Structural)]
pub struct AppState {
    phase: Phase,
}

impl View for AppState {
    type V = Phase;

    closed spec fn view(&self) -> Phase {
        self.phase
    }
}

/// What `transition(from, to)` leaves behind: `to` when the phase was `from`,
/// the phase unchanged otherwise.
pub open spec fn transition_spec(current: Phase, from: Phase, to: Phase) -> (Phase, bool) {
    if current == from {
        (to, true)
    } else {
        (current, false)
    }
}

impl AppState {
    pub fn new() -> (s: Self)
        ensures
            s@ == Phase::Idle,
    {
        AppState { phase: Phase::Idle }
    }

    pub fn get(&self) -> (p: Phase)
        ensures
            p == self@,
    {
        self.phase
    }

    /// Transition to `to` only if the current phase matches `from`.
    /// Returns true on success.
    pub fn transition(&mut self, from: Phase, to: Phase) -> (ok: bool)
        ensures
            (final(self)@, ok) == transition_spec(old(self)@, from, to),
    {
        if self.phase == from {
            self.phase = to;
            true
        } else {
            false
        }
    }

    pub fn set(&mut self, phase: Phase)
        ensures
            final(self)@ == phase,
    {
        self.phase = phase;
    }
}

/// The abstract state of a dictation: the phase, and the mode captured by the
/// press that started the current recording.
pub struct DictationView {
    pub phase: Phase,
    pub mode: Mode,
}

/// What a hotkey press asks the caller to do.
#[derive(Debug, Clone, Copy, PartialEq, Eq, Structural)]
pub enum PressAction {
    /// The phase moved to `Recording`: start the recorder.
    StartRecording,
    /// The phase moved to `Transcribing`: stop the recorder and transcribe in
    /// the given mode, the one chosen when the recording started.
    StopRecording(Mode),
    /// A transcription is under way; the press is ignored.
    Ignored,
}

/// A press: Idle starts recording in the pressed mode, Recording stops it in
/// the mode captured at the start, Transcribing ignores the press.
pub open spec fn press_spec(d: DictationView, mode: Mode) -> (DictationView, PressAction) {
    match d.phase {
        Phase::Idle => (DictationView { phase: Phase::Recording, mode }, PressAction::StartRecording),
        Phase::Recording => (
            DictationView { phase: Phase::Transcribing, mode: d.mode },
            PressAction::StopRecording(d.mode),
        ),
        Phase::Transcribing => (d, PressAction::Ignored),
    }
}

/// The recorder's answer to a start: on failure the dictation is abandoned.
pub open spec fn started_spec(d: DictationView, ok: bool) -> DictationView {
    if d.phase == Phase::Recording && !ok {
        DictationView { phase: Phase::Idle, mode: d.mode }
    } else {
        d
    }
}

/// The recorder's answer to a stop (`None` on failure, else the size of the
/// audio): only non-empty audio goes on to be transcribed.
pub open spec fn stopped_spec(d: DictationView, audio_len: Option<usize>) -> (DictationView, bool) {
    if d.phase != Phase::Transcribing {
        (d, false)
    } else {
        match audio_len {
            Some(n) if n > 0 => (d, true),
            _ => (DictationView { phase: Phase::Idle, mode: d.mode }, false),
        }
    }
}

/// Whatever the transcription gave, the dictation ends in `Idle`.
pub open spec fn finished_spec(d: DictationView) -> DictationView {
    DictationView { phase: Phase::Idle, mode: d.mode }
}

/// The phase of the client together with the mode of the current dictation.
/// Like `AppState`, one value shared behind the caller's lock.
#[derive(Debug)]
pub struct Dictation {
    state: AppState,
    mode: Mode,
}

impl View for Dictation {
    type V = DictationView;

    closed spec fn view(&self) -> DictationView {
        DictationView { phase: self.state@, mode: self.mode }
    }
}

impl Dictation {
    pub fn new() -> (d: Self)
        ensures
            d@ == (DictationView { phase: Phase::Idle, mode: Mode::Raw }),
    {
        Dictation { state: AppState::new(), mode: Mode::Raw }
    }

    pub fn phase(&self) -> (p: Phase)
        ensures
            p == self@.phase,
    {
        self.state.get()
    }

    /// A press of the hotkey for `mode`.
    pub fn press(&mut self, mode: Mode) -> (a: PressAction)
        ensures
            (final(self)@, a) == press_spec(old(self)@, mode),
    {
        if self.state.transition(Phase::Idle, Phase::Recording) {
            self.mode = mode;
            PressAction::StartRecording
        } else if self.state.transition(Phase::Recording, Phase::Transcribing) {
            PressAction::StopRecording(self.mode)
        } else {
            PressAction::Ignored
        }
    }

    /// Reports whether the recorder started.
    pub fn recorder_started(&mut self, ok: bool)
        ensures
            final(self)@ == started_spec(old(self)@, ok),
    {
        if !ok && self.state.get() == Phase::Recording {
            self.state.set(Phase::Idle);
        }
    }

    /// Reports what stopping the recorder gave; returns whether to transcribe.
    pub fn recorder_stopped(&mut self, audio_len: Option<usize>) -> (transcribe: bool)
        ensures
            (final(self)@, transcribe) == stopped_spec(old(self)@, audio_len),
    {
        if self.state.get() != Phase::Transcribing {
            return false;
        }
        match audio_len {
            Some(n) if n > 0 => true,
            _ => {
                self.state.set(Phase::Idle);
                false
            },
        }
    }

    /// Reports that the transcription (and any paste) is over.
    pub fn transcription_finished(&mut self)
        ensures
            final(self)@ == finished_spec(old(self)@),
    {
        self.state.set(Phase::Idle);
    }
}

/// What to do with the transcription's outcome.
#[derive(Debug, Clone, PartialEq, Eq)]
pub enum TranscriptAction {
    /// Copy the text to the clipboard and paste it.
    Paste(String),
    /// Nothing was recognised.
    Nothing,
    /// Tell the user: the notification's body.
    Report(String),
}

/// Non-empty text is pasted, empty text is dropped, and a failure is
/// reported as "Error: " and its message.
pub fn transcript_action(outcome: Result<String, String>) -> (a: TranscriptAction)
    ensures
        match outcome {
            Ok(t) => if t@.len() > 0 {
                a matches TranscriptAction::Paste(p) && p@ == t@
            } else {
                a == TranscriptAction::Nothing
            },
            Err(e) => a matches TranscriptAction::Report(m) && m@ == "Error: "@ + e@,
        },
{
    match outcome {
        Ok(t) => {
            if crate::text::chars_of(t.as_str()).len() > 0 {
                TranscriptAction::Paste(t)
            } else {
                TranscriptAction::Nothing
            }
        },
        Err(e) => {
            let mut m = String::new();
            crate::text::push_str(&mut m, "Error: ");
            crate::text::push_str(&mut m, e.as_str());
            TranscriptAction::Report(m)
        },
    }
}

/// A dictation that starts from `Idle`, whose recorder starts and stops with
/// some audio, is transcribed in the mode of the press that started it,
/// whatever mode the stopping press names, and ends back in `Idle`.
pub proof fn law_dictation_cycle(d: DictationView, start: Mode, stop: Mode, audio: usize)
    requires
        d.phase == Phase::Idle,
        audio > 0,
    ensures
        ({
            let (d1, a1) = press_spec(d, start);
            let d2 = started_spec(d1, true);
            let (d3, a3) = press_spec(d2, stop);
            let (d4, go) = stopped_spec(d3, Some(audio));
            let d5 = finished_spec(d4);
            &&& a1 == PressAction::StartRecording
            &&& d2.phase == Phase::Recording
            &&& a3 == PressAction::StopRecording(start)
            &&& go
            &&& d5.phase == Phase::Idle
        }),
{
}

/// While a transcription is under way, no press changes anything.
pub proof fn law_press_ignored_while_transcribing(d: DictationView, mode: Mode)
    requires
        d.phase == Phase::Transcribing,
    ensures
        press_spec(d, mode) == (d, PressAction::Ignored),
{
}

/// A failed start, an empty recording or a failed stop all bring the client
/// back to `Idle`, so the next press can start again.
pub proof fn law_failures_return_to_idle(d: DictationView, mode: Mode, stop: Mode)
    requires
        d.phase == Phase::Idle,
    ensures
        started_spec(press_spec(d, mode).0, false).phase == Phase::Idle,
        stopped_spec(press_spec(started_spec(press_spec(d, mode).0, true), stop).0, None).0.phase
            == Phase::Idle,
        stopped_spec(press_spec(started_spec(press_spec(d, mode).0, true), stop).0, Some(0)).0.phase
            == Phase::Idle,
{
}

// ---------------------------------------------------------------------------
// What a recognised transcript leads to
// ---------------------------------------------------------------------------

/// A transcript is restructured into a prompt when the dictation was started
/// in prompt mode, prompt mode is switched on, a cleanup service is at hand,
/// and the transcript has no more words than the configured limit (no limit
/// when none is set); otherwise it pastes raw.
pub open spec fn cleanup_wanted_spec(
    mode: Mode,
    prompt_enabled: bool,
    have_cleaner: bool,
    transcript: Seq<char>,
    max_words: Option<u32>,
) -> bool {
    &&& mode == Mode::Prompt
    &&& prompt_enabled
    &&& have_cleaner
    &&& match max_words {
        Some(m) => words(transcript).len() <= m,
        None => true,
    }
}

pub fn cleanup_wanted(
    mode: Mode,
    prompt_enabled: bool,
    have_cleaner: bool,
    transcript: &str,
    max_words: Option<u32>,
) -> (b: bool)
    ensures
        b == cleanup_wanted_spec(mode, prompt_enabled, have_cleaner, transcript@, max_words),
{
    if mode != Mode::Prompt || !prompt_enabled || !have_cleaner {
        return false;
    }
    match max_words {
        Some(m) => crate::cleanup::word_count(transcript) <= m as usize,
        None => true,
    }
}

/// The history mode and prompt of a dictation, given what the cleanup gave
/// (`None` when none was asked for): a prompt when the cleanup answered,
/// "prompt" mode; raw otherwise, a failed cleanup included.
pub fn dictation_outcome(cleanup: Option<Result<String, String>>) -> (r: (&'static str, Option<String>))
    ensures
        match cleanup {
            Some(Ok(p)) => r.0@ == "prompt"@ && (r.1 matches Some(q) && q@ == p@),
            _ => r.0@ == "raw"@ && r.1 is None,
        },
{
    match cleanup {
        Some(Ok(p)) => ("prompt", Some(p)),
        _ => ("raw", None),
    }
}

/// The notice after a paste: when the keystroke did not go in, the user is
/// told to paste by hand; a pasted keystroke or an error (which is logged)
/// gives none.
pub fn paste_notice(pasted: Result<bool, String>) -> (r: Option<&'static str>)
    ensures
        match pasted {
            Ok(false) => r matches Some(m) && m@ == "Copied to the clipboard: paste with Ctrl+V"@,
            _ => r is None,
        },
{
    match pasted {
        Ok(false) => Some("Copied to the clipboard: paste with Ctrl+V"),
        _ => None,
    }
}

} // verus!
