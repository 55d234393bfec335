use whisper_rt::asr::{
    audio_ms_of, check_whisper_length, min_samples, AsrError, DecodeMode,
    Segment, TranscriptResult,
};
use whisper_rt::budget::{
    auto_budget, budget_total, max_concurrent, model_threads, permits_for, standalone_budget,
};
use whisper_rt::config::{
    beam_setting, default_channels, default_partial_concurrency, default_sample_rate, default_true,
    opt, partial_language, pool_size,
};
use whisper_rt::errors::{vad_frame_count, AudioError};
use whisper_rt::pcm::{frame_ms, pcm_i16_le_samples};
use whisper_rt::text::{trim_str, join_with_space};
use whisper_rt::zipformer::short_audio_result;
use whisper_rt::asr::decode_plan;

fn segment(text: &str) -> Segment {
    Segment { text: text.to_string(), start_ms: 0, end_ms: 0 }
}

#[test]
fn transcript_text_skips_blank_segments() {
    let result = TranscriptResult {
        segments: vec![segment("  "), segment(" xin "), segment(""), segment("chào\n")],
        words: vec![],
        mode: DecodeMode::Final,
        audio_ms: 0,
        inference_ms: 0,
    };
    assert_eq!(result.text(), "xin chào");
}

#[test]
fn whisper_refuses_audio_below_the_minimum() {
    assert_eq!(min_samples(1_000), 16_000);
    assert_eq!(audio_ms_of(8_000), 500);
    match check_whisper_length(8_000, 1_000) {
        Err(AsrError::AudioTooShort { got_ms, min_ms }) => {
            assert_eq!(got_ms, 500);
            assert_eq!(min_ms, 1_000);
        }
        other => panic!("unexpected {other:?}"),
    }
    assert_eq!(check_whisper_length(16_000, 1_000).unwrap(), 1_000);
}

#[test]
fn zipformer_answers_short_audio_with_an_empty_result() {
    let empty = short_audio_result(1_900, DecodeMode::Partial).expect("empty result");
    assert!(empty.segments.is_empty());
    assert!(empty.words.is_empty());
    assert_eq!(empty.audio_ms, 118);
    assert_eq!(empty.inference_ms, 0);
    assert_eq!(empty.mode, DecodeMode::Partial);
    assert_eq!(empty.text(), "");
    assert!(short_audio_result(1_920, DecodeMode::Final).is_none());
}

#[test]
fn decodes_i16_little_endian() {
    assert_eq!(pcm_i16_le_samples(&[0x00, 0x00, 0xff, 0x7f, 0x00, 0x80, 0xff, 0xff, 0x12]), vec![
        0, 32_767, -32_768, -1,
    ]);
}

#[test]
fn silero_frames_last_32_ms() {
    assert_eq!(frame_ms(512), 32);
    assert_eq!(frame_ms(0), 0);
}

#[test]
fn vad_frames_must_be_whole() {
    assert!(matches!(
        vad_frame_count(16, 512),
        Err(AudioError::VadFrameSize { got: 16, expected: 512 })
    ));
    assert_eq!(vad_frame_count(1_100, 512).unwrap(), 2);
}

#[test]
fn thread_budget_rules() {
    assert_eq!(budget_total(0), 1);
    assert_eq!(budget_total(12), 12);
    assert_eq!(auto_budget(Some(16)), 14);
    assert_eq!(auto_budget(Some(2)), 1);
    assert_eq!(auto_budget(None), 2);
    assert_eq!(permits_for(0, 8), 1);
    assert_eq!(permits_for(12, 8), 8);
    assert_eq!(permits_for(4, 8), 4);
    assert_eq!(model_threads(-3), 1);
    assert_eq!(model_threads(6), 6);
    assert_eq!(max_concurrent(14, 4), 3);
    assert_eq!(max_concurrent(2, 4), 1);
    assert_eq!(standalone_budget(0, 4), 4);
    assert_eq!(standalone_budget(3, 4), 12);
}

#[test]
fn settings_helpers() {
    assert_eq!(opt("  vi "), Some("vi".to_string()));
    assert_eq!(opt(" \t "), None);
    assert_eq!(beam_setting(5), Some(5));
    assert_eq!(beam_setting(1), None);
    assert_eq!(pool_size(0), 1);
    assert_eq!(partial_language(" ", " en "), Some("en".to_string()));
    assert_eq!(partial_language("vi", "en"), Some("vi".to_string()));
    assert_eq!(partial_language("", ""), None);
    assert_eq!(default_partial_concurrency(), 1);
    assert!(default_true());
    assert_eq!(default_sample_rate(), 16_000);
    assert_eq!(default_channels(), 1);
}

#[test]
fn trimming_and_joining() {
    assert_eq!(trim_str("\u{3000} a b \u{2003}"), "a b");
    assert_eq!(join_with_space(&["a".to_string(), String::new(), "b".to_string()]), "a  b");
}

#[test]
fn decode_plans_of_partials_and_finals() {
    let some = |t: &str| Some(t.to_string());
    let p = decode_plan(DecodeMode::Final, Some(5), None, some("vi"), some("xin"), some("tên riêng"));
    assert_eq!(p.beam_size, Some(5));
    assert!(!p.single_segment);
    assert_eq!(p.language, some("vi"));
    assert_eq!(p.prompt, some("xin"));
    let p = decode_plan(DecodeMode::Partial, Some(5), some("en"), some("vi"), None, some("tên riêng"));
    assert_eq!(p.beam_size, None);
    assert!(p.single_segment);
    assert_eq!(p.language, some("en"));
    assert_eq!(p.prompt, some("tên riêng"));
    let p = decode_plan(DecodeMode::Final, None, None, None, None, None);
    assert_eq!(p.beam_size, None);
    assert_eq!(p.language, None);
    assert_eq!(p.prompt, None);
}
