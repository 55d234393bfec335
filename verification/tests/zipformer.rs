use whisper_rt::asr::DecodeMode;
use whisper_rt::zipformer::{select_model_file, words_from_tokens, zipformer_result};

fn strings(items: &[&str]) -> Vec<String> {
    items.iter().map(|s| s.to_string()).collect()
}

#[test]
fn bpe_tokens_become_words_with_timestamps() {
    let tokens = strings(&["▁XIN", "▁CH", "ÀO", "▁BẠN"]);
    let timestamps: Vec<f32> = vec![0.0, 0.4, 0.56, 0.8];
    // Token start times in ms, as the engine runner converts them.
    let timestamps_ms: Vec<i64> = timestamps.iter().map(|t| (t * 1_000.0) as i64).collect();
    let words = words_from_tokens(&tokens, &timestamps_ms);
    assert_eq!(
        words.iter().map(|w| w.text.as_str()).collect::<Vec<_>>(),
        vec!["xin", "chào", "bạn"]
    );
    assert_eq!(words[0].start_ms, 0);
    assert_eq!(words[0].end_ms, 400); // ends where the next word starts
    assert_eq!(words[1].start_ms, 400);
}

#[test]
fn continuation_tokens_extend_the_last_word() {
    let tokens = strings(&["▁HEL", "LO", "▁", "▁WORLD"]);
    let words = words_from_tokens(&tokens, &[100, 900]);
    assert_eq!(words.len(), 2);
    assert_eq!(words[0].text, "hello");
    assert_eq!(words[0].start_ms, 100);
    // The continuation at 900 ms pushed the end to 1100; the next word has no
    // timestamp (0), which is not later, so the end stays.
    assert_eq!(words[0].end_ms, 1_100);
    assert_eq!(words[1].text, "world");
    assert_eq!(words[1].start_ms, 0);
    assert_eq!(words[1].end_ms, 200);
}

#[test]
fn first_token_opens_a_word_without_a_mark() {
    let words = words_from_tokens(&strings(&["AB", "CD"]), &[10, 20]);
    assert_eq!(words.len(), 1);
    assert_eq!(words[0].text, "abcd");
    assert_eq!(words[0].end_ms, 220);
}

#[test]
fn result_has_one_lowercased_segment() {
    let tokens = strings(&["▁XIN", "▁CHÀO"]);
    let result = zipformer_result("  XIN CHÀO ", &tokens, &[0, 500], DecodeMode::Final, 1_200, 7);
    assert_eq!(result.segments.len(), 1);
    assert_eq!(result.segments[0].text, "xin chào");
    assert_eq!(result.segments[0].start_ms, 0);
    assert_eq!(result.segments[0].end_ms, 700);
    assert_eq!(result.text(), "xin chào");
    assert_eq!(result.audio_ms, 1_200);
    assert_eq!(result.inference_ms, 7);
    assert_eq!(result.mode, DecodeMode::Final);
}

#[test]
fn empty_text_gives_no_segment() {
    let result = zipformer_result("   ", &[], &[], DecodeMode::Partial, 300, 1);
    assert!(result.segments.is_empty());
    assert!(result.words.is_empty());
    assert_eq!(result.text(), "");
}

#[test]
fn model_file_is_the_smallest_matching_name() {
    let names = strings(&[
        "tokens.txt",
        "joiner-epoch-20.onnx",
        "encoder-epoch-20.int8.onnx",
        "encoder-epoch-12.onnx",
        "encoder-epoch-20.onnx",
        "decoder-epoch-20.onnx.bak",
    ]);
    assert_eq!(select_model_file(&names, "encoder", false), Some(3));
    assert_eq!(select_model_file(&names, "encoder", true), Some(2));
    assert_eq!(select_model_file(&names, "joiner", false), Some(1));
    assert_eq!(select_model_file(&names, "joiner", true), None);
    assert_eq!(select_model_file(&names, "decoder", false), None);
}
