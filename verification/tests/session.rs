use whisper_rt::asr::{AsrError, DecodeMode, Segment, TranscriptResult, Word};
use whisper_rt::errors::EngineError;
use whisper_rt::gate::GateConfig;
use whisper_rt::session::{Session, SessionConfig, SessionEvent};

fn config() -> SessionConfig {
    SessionConfig {
        max_utterance_samples: 1_000,
        partial_window_samples: 400,
        partial_window_ms: 25,
        partial_interval_ms: 100,
        pre_roll_samples: 50,
        max_probe_backlog_samples: 10_000,
        condition_on_previous: true,
        prompt_chars: 5,
        local_agreement: true,
        language: Some("vi".to_string()),
        gate: GateConfig { silence_ms_for_end: 64, min_speech_ms: 64 },
    }
}

/// Probe frames of 10 samples, 32 ms each: chunks of 80 samples; two frames
/// open and two close an utterance.
fn session() -> Session<i16> {
    Session::new(config(), 10, 32, 0)
}

fn result(text: &str, words: Vec<Word>, mode: DecodeMode) -> TranscriptResult {
    TranscriptResult {
        segments: vec![Segment { text: text.to_string(), start_ms: 0, end_ms: 1_000 }],
        words,
        mode,
        audio_ms: 1_000,
        inference_ms: 10,
    }
}

fn word(text: &str, start_ms: i64) -> Word {
    Word { text: text.to_string(), start_ms, end_ms: start_ms + 10 }
}

#[test]
fn pcm_is_cut_into_probe_chunks() {
    let mut s = session();
    let chunks = s.push_pcm(&[1i16; 100]);
    assert_eq!(chunks.len(), 1);
    assert_eq!(chunks[0].len(), 80);
    let chunks = s.push_pcm(&[2i16; 70]);
    assert_eq!(chunks.len(), 1);
    assert_eq!(&chunks[0][..20], &[1i16; 20]);
    assert_eq!(&chunks[0][20..], &[2i16; 60]);
    assert!(s.push_pcm(&[]).is_empty());
}

#[test]
fn probe_backlog_drops_the_oldest_samples() {
    let mut c = config();
    c.max_probe_backlog_samples = 100;
    let mut s: Session<i16> = Session::new(c, 10, 32, 0);
    // 200 samples queued, only the newest 100 kept: one chunk out, 20 wait.
    let pcm: Vec<i16> = (0..200).collect();
    let chunks = s.push_pcm(&pcm);
    assert_eq!(chunks.len(), 1);
    let expected: Vec<i16> = (100..180).collect();
    assert_eq!(chunks[0], expected);
    let chunks = s.push_pcm(&[7i16; 60]);
    assert_eq!(chunks.len(), 1);
    let waiting: Vec<i16> = (180..200).collect();
    assert_eq!(&chunks[0][..20], &waiting[..]);
    assert_eq!(&chunks[0][20..], &[7i16; 60]);
}

#[test]
fn an_utterance_goes_through_partial_and_final() {
    let mut s = session();
    s.push_pcm(&[5i16; 160]);
    // Two speech frames open the utterance; the buffer keeps the pre-roll.
    assert!(s.observe_frame(true, 10).is_none());
    assert!(s.observe_frame(true, 20).is_none());
    s.push_pcm(&[6i16; 100]);
    // Too early for a partial.
    assert!(s.observe_frame(true, 50).is_none());
    // Interval elapsed: a partial of the whole (short) utterance, starting
    // where the buffer starts (110 samples were cut before the pre-roll: 6 ms).
    let partial = s.observe_frame(true, 120).expect("partial due");
    assert_eq!(partial.mode, DecodeMode::Partial);
    assert_eq!(partial.utterance, 0);
    assert_eq!(partial.window_start_ms, 6);
    assert_eq!(partial.pcm.len(), 150);
    assert_eq!(partial.language.as_deref(), Some("vi"));
    // While it runs, no other partial is started.
    assert!(s.observe_frame(true, 500).is_none());
    let event = s.on_decode_done(
        DecodeMode::Partial,
        0,
        partial.window_start_ms,
        Ok(result("xin chào", vec![word("xin", 0), word("chào", 5)], DecodeMode::Partial)),
    );
    match event {
        Some(SessionEvent::Partial(update)) => {
            // First pass: nothing agreed yet, everything pending.
            assert_eq!(update.text, "xin chào");
            assert_eq!(update.stable_text, "");
            assert_eq!(update.full_text, "xin chào");
            assert_eq!(update.utterance, 0);
        }
        other => panic!("unexpected {other:?}"),
    }
    // A short pause is still speech, and a partial is due again.
    assert!(s.observe_frame(false, 600).is_some());
    // The second silent frame closes the utterance: a final of the whole buffer.
    let last = s.observe_frame(false, 610).expect("final due");
    assert_eq!(last.mode, DecodeMode::Final);
    assert_eq!(last.utterance, 0);
    assert_eq!(last.pcm.len(), 150);
    assert_eq!(last.prompt, None);
    let event = s.on_decode_done(
        DecodeMode::Final,
        0,
        0,
        Ok(result(" xin chào ", vec![], DecodeMode::Final)),
    );
    match event {
        Some(SessionEvent::Final(update)) => {
            assert_eq!(update.text, "xin chào");
            assert_eq!(update.full_text, "xin chào");
            assert_eq!(update.audio_ms, 1_000);
        }
        other => panic!("unexpected {other:?}"),
    }
    assert_eq!(s.committed_text(), "xin chào");
    // The next utterance is primed with the last five committed characters.
    s.push_pcm(&[1i16; 80]);
    let next = s.finish().expect("audio left");
    assert_eq!(next.utterance, 1);
    assert_eq!(next.prompt.as_deref(), Some(" chào"));
}

#[test]
fn agreement_commits_what_two_partials_share() {
    let mut s = session();
    s.push_pcm(&[1i16; 300]);
    s.observe_frame(true, 0);
    s.observe_frame(true, 0);
    let first = s.observe_frame(true, 100).expect("partial");
    s.on_decode_done(
        DecodeMode::Partial,
        0,
        first.window_start_ms,
        Ok(result("", vec![word("một", 0), word("hai", 5)], DecodeMode::Partial)),
    );
    let second = s.observe_frame(true, 200).expect("partial");
    let event = s.on_decode_done(
        DecodeMode::Partial,
        0,
        second.window_start_ms,
        Ok(result("", vec![word("một", 0), word("ba", 5)], DecodeMode::Partial)),
    );
    match event {
        Some(SessionEvent::Partial(update)) => {
            assert_eq!(update.stable_text, "một");
            assert_eq!(update.text, "một ba");
        }
        other => panic!("unexpected {other:?}"),
    }
}

#[test]
fn decode_failures() {
    let mut s = session();
    s.push_pcm(&[1i16; 100]);
    s.observe_frame(true, 0);
    s.observe_frame(true, 0);
    let partial = s.observe_frame(true, 100).expect("partial");
    let short = Err(EngineError::Asr(AsrError::AudioTooShort { got_ms: 5, min_ms: 1_000 }));
    assert!(s.on_decode_done(DecodeMode::Partial, 0, partial.window_start_ms, short).is_none());
    // The partial slot is free again.
    assert!(s.observe_frame(true, 300).is_some());
    let failed = s.on_decode_done(DecodeMode::Partial, 0, 0, Err(EngineError::Shutdown));
    assert!(matches!(failed, Some(SessionEvent::Failed(EngineError::Shutdown))));
}

#[test]
fn blank_and_repeated_finals_are_not_sent() {
    let mut s = session();
    let blank = s.on_decode_done(DecodeMode::Final, 0, 0, Ok(result("   ", vec![], DecodeMode::Final)));
    assert!(blank.is_none());
    assert!(s.on_decode_done(DecodeMode::Final, 1, 0, Ok(result("a", vec![], DecodeMode::Final))).is_some());
    assert!(s.on_decode_done(DecodeMode::Final, 2, 0, Ok(result("a", vec![], DecodeMode::Final))).is_none());
    assert_eq!(s.committed_text(), "a");
}

#[test]
fn length_cap_closes_a_long_utterance() {
    let mut s = session();
    s.observe_frame(true, 0);
    s.observe_frame(true, 0);
    s.push_pcm(&[3i16; 999]);
    assert!(s.enforce_length_cap().is_none());
    s.push_pcm(&[3i16; 1]);
    let request = s.enforce_length_cap().expect("cap reached");
    assert_eq!(request.mode, DecodeMode::Final);
    assert_eq!(request.pcm.len(), 1_000);
    // Closed: the next speech frames must open a new utterance.
    assert!(s.finish().is_none());
}

#[test]
fn finish_on_an_empty_buffer_sends_nothing() {
    let mut s = session();
    assert!(s.finish().is_none());
}
