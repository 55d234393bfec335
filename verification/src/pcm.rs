//! Sample formats at the edges of the pipeline: the wire format of the
//! streaming protocol and the length of a VAD frame.
use vstd::prelude::*;

verus! {

/// Sample rate that whisper.cpp requires.
pub const TARGET_SAMPLE_RATE: u32 = 16_000;

/// The signed 16-bit sample whose little-endian bytes are `lo`, `hi`.
pub open spec fn i16_le(lo: u8, hi: u8) -> i16 {
    (lo as int + 256 * hi as int) as i16
}

/// Decodes PCM i16 little-endian (the wire format of the WebSocket stream)
/// into samples; a trailing odd byte is ignored.
pub fn pcm_i16_le_samples(bytes: &[u8]) -> (r: Vec<i16>)
    ensures
        r@.len() == bytes@.len() / 2,
        forall|i: int| 0 <= i < r@.len() ==> #[trigger] r@[i] == i16_le(bytes@[2 * i], bytes@[2 * i + 1]),
{
    let mut r: Vec<i16> = Vec::new();
    let n = bytes.len() / 2;
    let mut k: usize = 0;
    let mut j: usize = 0;
    while k < n
        invariant
            k <= n,
            j == 2 * k,
            n == bytes@.len() / 2,
            r@.len() == k,
            forall|i: int| 0 <= i < k ==> #[trigger] r@[i] == i16_le(bytes@[2 * i], bytes@[2 * i + 1]),
        decreases n - k,
    {
        let lo = bytes[j];
        let hi = bytes[j + 1];
        let word: u16 = lo as u16 + (hi as u16) * 256;
        r.push(#[verifier::truncate] (word as i16));
        k += 1;
        j += 2;
    }
    r
}

/// Length in milliseconds of a VAD frame of `frame_samples` samples at
/// [`TARGET_SAMPLE_RATE`] (`SpeechProbe::frame_ms`), truncated to `u32`.
pub fn frame_ms(frame_samples: usize) -> (ms: u32)
    ensures
        ms == (frame_samples as nat * 1000 / 16_000) as u32,
{
    ((frame_samples as u128) * 1000 / 16_000) as u32
}

} // verus!
