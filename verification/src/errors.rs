//! Errors of the audio pipeline and of the streaming engine.
use vstd::prelude::*;
use std::path::PathBuf;
use crate::asr::AsrError;

verus! {

#[derive(Debug)]
pub enum AudioError {
    NoInputDevice,
    Device(String),
    UnsupportedSampleFormat(String),
    Decode(String),
    Resample(String),
    VadModelMissing(PathBuf),
    Vad(String),
    VadFrameSize { got: usize, expected: usize },
}

#[derive(Debug)]
pub enum EngineError {
    Asr(AsrError),
    Audio(AudioError),
    /// An inference task failed to complete.
    Join(String),
    /// The scheduler is shutting down.
    Shutdown,
}

/// The frame check of a speech probe: a chunk of `got` samples is scored in
/// `got / frame_samples` whole frames, and a chunk shorter than one frame is
/// refused as `VadFrameSize`.
pub fn vad_frame_count(got: usize, frame_samples: usize) -> (r: Result<usize, AudioError>)
    requires
        frame_samples >= 1,
    ensures
        got < frame_samples ==> r == Err::<usize, AudioError>(
            AudioError::VadFrameSize { got, expected: frame_samples },
        ),
        got >= frame_samples ==> r == Ok::<usize, AudioError>(got / frame_samples),
{
    if got < frame_samples {
        return Err(AudioError::VadFrameSize { got, expected: frame_samples });
    }
    Ok(got / frame_samples)
}

} // verus!
