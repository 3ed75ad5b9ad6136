//! The recording as it is handed to the speech server: 16-bit mono PCM in a
//! WAV container, written by `hound`. Capturing from the microphone and
//! mixing it down to mono samples is the caller's.

use vstd::prelude::*;

verus! {

/// `x` as two little-endian bytes.
pub open spec fn le16(x: int) -> Seq<u8> {
    seq![(x % 256) as u8, ((x / 256) % 256) as u8]
}

/// `x` as four little-endian bytes.
pub open spec fn le32(x: int) -> Seq<u8> {
    le16(x % 65536) + le16((x / 65536) % 65536)
}

/// The samples as 16-bit little-endian two's complement, one after another.
pub open spec fn sample_bytes(samples: Seq<i16>) -> Seq<u8>
    decreases samples.len(),
{
    if samples.len() == 0 {
        Seq::empty()
    } else {
        sample_bytes(samples.drop_last()) + le16((samples.last() as int) % 65536)
    }
}

/// The bytes `hound` writes for these 16-bit mono samples at this rate: the
/// RIFF header with the file size, a PCM `fmt ` chunk (format 1, one channel,
/// the rate, two bytes per sample), and the `data` chunk with the samples.
pub open spec fn wav_bytes(samples: Seq<i16>, sample_rate: u32) -> Seq<u8> {
    let n: int = 2 * (samples.len() as int);
    seq![82u8, 73, 70, 70] + le32(n + 36) + seq![87u8, 65, 86, 69]
        + seq![102u8, 109, 116, 32] + le32(16) + le16(1) + le16(1)
        + le32(sample_rate as int) + le32(2 * sample_rate) + le16(2) + le16(16)
        + seq![100u8, 97, 116, 97] + le32(n) + sample_bytes(samples)
}

/// Writes 16-bit mono samples as a WAV file in memory with `hound`: a
/// `WavWriter` over a `Cursor<Vec<u8>>` (spec: 1 channel, `sample_rate`,
/// 16 bits, integer samples), one `write_sample` per sample, `finalize`, and
/// the cursor's buffer. `hound`'s writer keeps its output until `finalize`
/// consumes it, so the loop stands here, around its calls. The bytes are the
/// header and samples `wav_bytes` spells out, as `write_headers`,
/// `write_pcmwaveformat`, `write_sample` and `update_header` write them. The
/// source shows no error for this spec on an in-memory buffer. The `requires`
/// keeps the sizes inside the header's 32-bit fields, and the rate nonzero
/// and its byte rate (twice the rate) inside `u32`: `write_waveformat`
/// multiplies and then divides by the rate.
#[verifier::external_body]
fn write_wav(samples: &[i16], sample_rate: u32) -> (r: Vec<u8>)
    requires
        2 * samples@.len() + 44 <= u32::MAX,
        0 < sample_rate,
        2 * sample_rate <= u32::MAX,
    ensures
        r@ == wav_bytes(samples@, sample_rate),
{
    let mut buf = std::io::Cursor::new(Vec::new());
    let spec = hound::WavSpec {
        channels: 1,
        sample_rate,
        bits_per_sample: 16,
        sample_format: hound::SampleFormat::Int,
    };
    let mut writer = hound::WavWriter::new(&mut buf, spec).expect("in-memory WAV header");
    for &s in samples {
        writer.write_sample(s).expect("in-memory WAV sample");
    }
    writer.finalize().expect("in-memory WAV trailer");
    buf.into_inner()
}

/// The WAV file for a recording mixed down to 16-bit mono samples.
pub fn encode_wav(samples: &[i16], sample_rate: u32) -> (r: Vec<u8>)
    requires
        2 * samples@.len() + 44 <= u32::MAX,
        0 < sample_rate,
        2 * sample_rate <= u32::MAX,
    ensures
        r@ == wav_bytes(samples@, sample_rate),
{
    write_wav(samples, sample_rate)
}

/// What stopping the recorder hands on: nothing when no audio was captured,
/// else the WAV file of the mono samples.
pub fn recording_bytes(mono: &[i16], sample_rate: u32) -> (r: Vec<u8>)
    requires
        2 * mono@.len() + 44 <= u32::MAX,
        0 < sample_rate,
        2 * sample_rate <= u32::MAX,
    ensures
        mono@.len() == 0 ==> r@.len() == 0,
        mono@.len() > 0 ==> r@ == wav_bytes(mono@, sample_rate),
{
    if mono.len() == 0 {
        return Vec::new();
    }
    encode_wav(mono, sample_rate)
}

/// What a start request does to the recorder.
#[derive(Debug, Clone, Copy, PartialEq, Eq, Structural)]
pub enum StartAction {
    /// No stream is open: open one and begin collecting frames.
    OpenStream,
    /// A recording is already under way: keep it, and report success.
    KeepRecording,
}

/// A start while recording keeps the recording that is under way; otherwise a
/// new input stream is opened.
pub fn start_action(recording: bool) -> (a: StartAction)
    ensures
        recording ==> a == StartAction::KeepRecording,
        !recording ==> a == StartAction::OpenStream,
{
    if recording {
        StartAction::KeepRecording
    } else {
        StartAction::OpenStream
    }
}

} // verus!
