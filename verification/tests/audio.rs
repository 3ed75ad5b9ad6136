use voice_dictate::audio::{encode_wav, recording_bytes, start_action, StartAction};

#[test]
fn wav_has_a_header_and_the_samples() {
    let samples = [0i16, 1, -1, i16::MAX];
    let wav = encode_wav(&samples, 16_000);
    assert_eq!(&wav[0..4], b"RIFF");
    assert_eq!(&wav[8..12], b"WAVE");
    assert_eq!(wav.len(), 44 + 2 * samples.len());
    assert_eq!(u32::from_le_bytes([wav[24], wav[25], wav[26], wav[27]]), 16_000);
    assert_eq!(&wav[44..], &[0, 0, 1, 0, 255, 255, 255, 127]);
}

#[test]
fn no_audio_gives_no_bytes() {
    assert!(recording_bytes(&[], 16_000).is_empty());
    assert!(!recording_bytes(&[5], 16_000).is_empty());
}

#[test]
fn wav_header_is_a_pcm_mono_header() {
    let wav = encode_wav(&[7i16, -2], 44_100);
    let mut expected: Vec<u8> = Vec::new();
    expected.extend_from_slice(b"RIFF");
    expected.extend_from_slice(&40u32.to_le_bytes());
    expected.extend_from_slice(b"WAVEfmt ");
    expected.extend_from_slice(&16u32.to_le_bytes());
    expected.extend_from_slice(&1u16.to_le_bytes());
    expected.extend_from_slice(&1u16.to_le_bytes());
    expected.extend_from_slice(&44_100u32.to_le_bytes());
    expected.extend_from_slice(&88_200u32.to_le_bytes());
    expected.extend_from_slice(&2u16.to_le_bytes());
    expected.extend_from_slice(&16u16.to_le_bytes());
    expected.extend_from_slice(b"data");
    expected.extend_from_slice(&4u32.to_le_bytes());
    expected.extend_from_slice(&[7, 0, 254, 255]);
    assert_eq!(wav, expected);
}

#[test]
fn start_keeps_a_recording_under_way() {
    assert_eq!(start_action(true), StartAction::KeepRecording);
    assert_eq!(start_action(false), StartAction::OpenStream);
}
