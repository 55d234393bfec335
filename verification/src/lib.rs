//! Real-time streaming speech-to-text: the logic of the pipeline, verified.
//!
//! Audio arrives as 16 kHz mono PCM, a VAD gate cuts it into utterances, the
//! session decides when a partial or a final decode runs, LocalAgreement
//! keeps shown text from being rewritten, and the transcript assembles the
//! committed text. The word error rate measures the result. Engines, audio
//! devices, codecs and the network stay outside: this crate decides, its
//! runner performs.
use vstd::prelude::*;

pub mod asr;
pub mod budget;
pub mod config;
pub mod errors;
pub mod gate;
pub mod local_agreement;
pub mod pcm;
pub mod ring_buffer;
pub mod session;
pub mod text;
pub mod transcript;
pub mod wer;
pub mod zipformer;

verus! {

} // verus!
