//! What an ASR engine hands back: segments, words with timestamps, and the
//! length checks that run before a model is called.
use vstd::prelude::*;
use std::path::PathBuf;
use crate::text::{trim_chars, chars_of, string_from_chars, trimmed};

verus! {

/// `std::path::PathBuf`, carried through errors and settings unopened.
#[verifier::external_type_specification]
#[verifier::external_body]
pub struct ExPathBuf(PathBuf);

/// The only sample rate that whisper.cpp (and the other engines) accept.
pub const WHISPER_SAMPLE_RATE: u32 = 16_000;

/// Decode mode. Partial favours latency, Final favours quality.
#[derive(Debug, Clone, Copy, PartialEq, Eq, Structural)]
pub enum DecodeMode {
    /// Short window, greedy, one segment — runs several times a second.
    Partial,
    /// The whole utterance, several segments and beam search if configured.
    Final,
}

#[derive(Debug, Clone, PartialEq)]
pub struct Segment {
    pub text: String,
    pub start_ms: i64,
    pub end_ms: i64,
}

/// One recognised word with its time span, in milliseconds.
#[derive(Debug, Clone, PartialEq)]
pub struct Word {
    pub text: String,
    pub start_ms: i64,
    pub end_ms: i64,
}

impl Word {
    /// A copy of this word.
    pub fn duplicate(&self) -> (r: Word)
        ensures
            r == *self,
    {
        Word { text: self.text.clone(), start_ms: self.start_ms, end_ms: self.end_ms }
    }
}

#[derive(Debug, Clone)]
pub struct TranscriptResult {
    pub segments: Vec<Segment>,
    /// Words with timestamps, when the engine reports them.
    pub words: Vec<Word>,
    pub mode: DecodeMode,
    /// Length of the audio that was decoded.
    pub audio_ms: u32,
    /// Wall time the inference took.
    pub inference_ms: u64,
}

/// The trimmed, non-empty pieces of `texts` joined with single spaces.
pub open spec fn pieces_text(texts: Seq<Seq<char>>) -> Seq<char>
    decreases texts.len(),
{
    if texts.len() == 0 {
        seq![]
    } else {
        let prev = pieces_text(texts.drop_last());
        let piece = trimmed(texts.last());
        if piece.len() == 0 {
            prev
        } else if prev.len() == 0 {
            piece
        } else {
            prev.push(' ') + piece
        }
    }
}

/// The texts of `segments`.
pub open spec fn segment_texts(segments: Seq<Segment>) -> Seq<Seq<char>> {
    segments.map_values(|s: Segment| s.text@)
}

impl TranscriptResult {
    /// The text of all segments, each trimmed, empty ones skipped, joined with
    /// single spaces.
    pub fn text(&self) -> (r: String)
        ensures
            r@ == pieces_text(segment_texts(self.segments@)),
    {
        let ghost texts = segment_texts(self.segments@);
        let mut out: Vec<char> = Vec::new();
        let mut k: usize = 0;
        while k < self.segments.len()
            invariant
                k <= self.segments.len(),
                texts == segment_texts(self.segments@),
                out@ == pieces_text(texts.take(k as int)),
            decreases self.segments.len() - k,
        {
            assert(texts.take(k + 1).drop_last() =~= texts.take(k as int));
            let piece = trim_chars(chars_of(self.segments[k].text.as_str()).as_slice());
            if piece.len() > 0 {
                if out.len() > 0 {
                    out.push(' ');
                }
                crate::text::append_chars(&mut out, piece.as_slice());
            }
            k += 1;
        }
        assert(texts.take(self.segments.len() as int) =~= texts);
        string_from_chars(out.as_slice())
    }
}

/// Errors of the ASR engines.
#[derive(Debug)]
pub enum AsrError {
    ModelMissing(PathBuf),
    ModelLoad { path: PathBuf, message: String },
    StateCreate(String),
    Inference(String),
    /// whisper.cpp returns nothing or fails on audio that is too short — refuse
    /// it early rather than pay a 30 s encode for a few dozen ms of audio.
    AudioTooShort { got_ms: u32, min_ms: u32 },
    Backend(String),
}

/// Milliseconds of audio held by `n_samples` samples at 16 kHz, truncated to
/// `u32` as the engines report it.
pub open spec fn audio_ms_spec(n_samples: nat) -> u32 {
    (n_samples * 1000 / 16_000) as u32
}

/// Milliseconds of audio in `n_samples` samples at 16 kHz.
pub fn audio_ms_of(n_samples: usize) -> (ms: u32)
    ensures
        ms == audio_ms_spec(n_samples as nat),
{
    ((n_samples as u128) * 1000 / 16_000) as u32
}

/// The number of samples in `min_audio_ms` milliseconds at 16 kHz
/// (`WhisperConfig::min_samples`).
pub fn min_samples(min_audio_ms: u32) -> (n: usize)
    ensures
        n == (16_000 * min_audio_ms as nat / 1000) as usize,
{
    ((16_000u64 * min_audio_ms as u64) / 1_000) as usize
}

/// The length check that whisper runs before decoding: the audio's length
/// in milliseconds, or `AudioTooShort` when it holds fewer than
/// [`min_samples`] samples.
pub fn check_whisper_length(n_samples: usize, min_audio_ms: u32) -> (r: Result<u32, AsrError>)
    ensures
        (n_samples < (16_000 * min_audio_ms as nat / 1000) as usize) ==> r == Err::<u32, AsrError>(
            AsrError::AudioTooShort { got_ms: audio_ms_spec(n_samples as nat), min_ms: min_audio_ms },
        ),
        !(n_samples < (16_000 * min_audio_ms as nat / 1000) as usize) ==> r == Ok::<u32, AsrError>(
            audio_ms_spec(n_samples as nat),
        ),
{
    let audio_ms = audio_ms_of(n_samples);
    if n_samples < min_samples(min_audio_ms) {
        return Err(AsrError::AudioTooShort { got_ms: audio_ms, min_ms: min_audio_ms });
    }
    Ok(audio_ms)
}

/// How one whisper decode runs: the choices that do not depend on floating
/// point settings.
#[derive(Debug, Clone)]
pub struct DecodePlan {
    /// `Some(n)`: beam search of width `n`; `None`: greedy.
    pub beam_size: Option<i32>,
    /// Decode into a single segment (partials); finals let whisper cut
    /// sentences, or long text would be cut down to one segment.
    pub single_segment: bool,
    /// The language to decode in; `None`: detect it.
    pub language: Option<String>,
    /// The text that primes the decoder, if any.
    pub prompt: Option<String>,
}

/// The plan of a decode: beam search only for a final with a beam size
/// configured; one segment for a partial; the request's language, else the
/// model's (none: detect); the request's prompt, else the configured initial
/// prompt.
pub fn decode_plan(
    mode: DecodeMode,
    beam_size: Option<i32>,
    language: Option<String>,
    model_language: Option<String>,
    prompt: Option<String>,
    initial_prompt: Option<String>,
) -> (p: DecodePlan)
    ensures
        p.beam_size == (if mode == DecodeMode::Final {
            beam_size
        } else {
            None
        }),
        p.single_segment == (mode == DecodeMode::Partial),
        p.language == (if language is Some {
            language
        } else {
            model_language
        }),
        p.prompt == (if prompt is Some {
            prompt
        } else {
            initial_prompt
        }),
{
    let final_mode = match mode {
        DecodeMode::Final => true,
        DecodeMode::Partial => false,
    };
    DecodePlan {
        beam_size: if final_mode {
            beam_size
        } else {
            None
        },
        single_segment: !final_mode,
        language: match language {
            Some(l) => Some(l),
            None => model_language,
        },
        prompt: match prompt {
            Some(t) => Some(t),
            None => initial_prompt,
        },
    }
}

} // verus!
