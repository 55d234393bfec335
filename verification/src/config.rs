//! Settings helpers: the defaults of the server settings file, the query
//! parameters of the HTTP endpoints, and how an optional text setting is read.
use vstd::prelude::*;
use crate::pcm::TARGET_SAMPLE_RATE;
use crate::text::{trim_str, trimmed};

verus! {

/// An optional text setting: `None` when it is empty or only white space,
/// otherwise the trimmed text.
pub fn opt(value: &str) -> (r: Option<String>)
    ensures
        trimmed(value@).len() == 0 ==> r is None,
        trimmed(value@).len() > 0 ==> r is Some && r->0@ == trimmed(value@),
{
    let t = trim_str(value);
    if t.as_str().is_empty() {
        None
    } else {
        Some(t)
    }
}

/// The beam size of a model setting: beam search only above 1; 0 or 1 mean
/// greedy decoding.
pub fn beam_setting(beam_size: i32) -> (r: Option<i32>)
    ensures
        beam_size > 1 ==> r == Some(beam_size),
        beam_size <= 1 ==> r is None,
{
    if beam_size > 1 {
        Some(beam_size)
    } else {
        None
    }
}

/// Size of a pool of decoder states: the configured concurrency, at least one.
pub fn pool_size(max_concurrent: usize) -> (r: usize)
    ensures
        r == (if max_concurrent >= 1 {
            max_concurrent
        } else {
            1
        }),
{
    if max_concurrent >= 1 {
        max_concurrent
    } else {
        1
    }
}

/// The language of the partial model: its own when set, otherwise the main
/// model's (each read as an optional text setting).
pub fn partial_language(partial: &str, main: &str) -> (r: Option<String>)
    ensures
        trimmed(partial@).len() > 0 ==> r is Some && r->0@ == trimmed(partial@),
        trimmed(partial@).len() == 0 && trimmed(main@).len() > 0 ==> r is Some && r->0@
            == trimmed(main@),
        trimmed(partial@).len() == 0 && trimmed(main@).len() == 0 ==> r is None,
{
    match opt(partial) {
        Some(p) => Some(p),
        None => opt(main),
    }
}

/// Default concurrency of the partial model.
pub fn default_partial_concurrency() -> (r: usize)
    ensures
        r == 1,
{
    1
}

/// Default of the boolean settings that are on unless turned off.
pub fn default_true() -> (r: bool)
    ensures
        r,
{
    true
}

/// Default sample rate of a stream: 16 kHz, so the server need not resample.
pub fn default_sample_rate() -> (r: u32)
    ensures
        r == 16_000,
{
    TARGET_SAMPLE_RATE
}

/// Default channel count of a stream: mono.
pub fn default_channels() -> (r: usize)
    ensures
        r == 1,
{
    1
}

/// Query of `GET /v1/stream`: the format of the PCM the client sends.
#[derive(Debug, Clone, Copy)]
pub struct StreamParams {
    pub sample_rate: u32,
    pub channels: usize,
}

/// Query of `POST /v1/transcribe`: `?language=vi`; absent means auto-detect
/// (one more decode pass).
#[derive(Debug, Clone)]
pub struct TranscribeParams {
    pub language: Option<String>,
}

} // verus!
