use whisper_rt::gate::{GateConfig, SpeechGate, VadEvent};

/// The probability threshold of the gates below.
const THRESHOLD: f32 = 0.5;

fn speech(prob: f32) -> bool {
    prob >= THRESHOLD
}

fn gate() -> SpeechGate {
    SpeechGate::new(GateConfig { silence_ms_for_end: 96, min_speech_ms: 64 }, 32)
}

#[test]
fn short_blip_does_not_open_an_utterance() {
    let mut gate = gate();
    assert_eq!(gate.observe(speech(0.9)), VadEvent::Silence);
    assert_eq!(gate.observe(speech(0.1)), VadEvent::Silence);
    assert!(!gate.is_speaking());
}

#[test]
fn speech_then_silence_closes_the_utterance() {
    let mut gate = gate();
    assert_eq!(gate.observe(speech(0.9)), VadEvent::Silence);
    assert_eq!(gate.observe(speech(0.9)), VadEvent::SpeechStart);
    assert_eq!(gate.observe(speech(0.9)), VadEvent::SpeechContinue);
    // The first two silent frames are still in the grace period.
    assert_eq!(gate.observe(speech(0.0)), VadEvent::SpeechContinue);
    assert_eq!(gate.observe(speech(0.0)), VadEvent::SpeechContinue);
    assert_eq!(gate.observe(speech(0.0)), VadEvent::SpeechEnd);
    assert_eq!(gate.observe(speech(0.0)), VadEvent::Silence);
}

#[test]
fn force_end_only_fires_while_speaking() {
    let mut gate = gate();
    assert_eq!(gate.force_end(), None);
    gate.observe(speech(0.9));
    gate.observe(speech(0.9));
    assert_eq!(gate.force_end(), Some(VadEvent::SpeechEnd));
    assert!(!gate.is_speaking());
}

#[test]
fn thresholds_are_at_least_one_frame() {
    // 10 ms of speech with 32 ms frames still needs one frame; so does silence.
    let mut gate = SpeechGate::new(GateConfig { silence_ms_for_end: 10, min_speech_ms: 10 }, 32);
    assert_eq!(gate.observe(true), VadEvent::SpeechStart);
    assert_eq!(gate.observe(false), VadEvent::SpeechEnd);
    // A zero frame length counts as 1 ms.
    let mut gate = SpeechGate::new(GateConfig { silence_ms_for_end: 2, min_speech_ms: 3 }, 0);
    assert_eq!(gate.observe(true), VadEvent::Silence);
    assert_eq!(gate.observe(true), VadEvent::Silence);
    assert_eq!(gate.observe(true), VadEvent::SpeechStart);
}

#[test]
fn default_timing_matches_silero_frames() {
    let config = GateConfig::default();
    assert_eq!(config.silence_ms_for_end, 800);
    assert_eq!(config.min_speech_ms, 128);
    // 128 ms at 32 ms per frame: four speech frames open the utterance.
    let mut gate = SpeechGate::new(config, 32);
    for _ in 0..3 {
        assert_eq!(gate.observe(true), VadEvent::Silence);
    }
    assert_eq!(gate.observe(true), VadEvent::SpeechStart);
    // 800 ms: 25 silent frames close it.
    for _ in 0..24 {
        assert_eq!(gate.observe(false), VadEvent::SpeechContinue);
    }
    assert_eq!(gate.observe(false), VadEvent::SpeechEnd);
}

#[test]
fn speech_in_a_pause_restarts_the_silence_count() {
    let mut gate = gate();
    gate.observe(true);
    assert_eq!(gate.observe(true), VadEvent::SpeechStart);
    assert_eq!(gate.observe(false), VadEvent::SpeechContinue);
    assert_eq!(gate.observe(false), VadEvent::SpeechContinue);
    assert_eq!(gate.observe(true), VadEvent::SpeechContinue);
    assert_eq!(gate.observe(false), VadEvent::SpeechContinue);
    assert_eq!(gate.observe(false), VadEvent::SpeechContinue);
    assert_eq!(gate.observe(false), VadEvent::SpeechEnd);
}
