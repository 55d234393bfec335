use whisper_rt::wer::{compare, manifest_entry, normalize, Totals, WerReport};

fn wer(report: &WerReport) -> f32 {
    let (num, den) = report.wer_fraction();
    num as f32 / den as f32
}

#[test]
fn identical_text_has_no_errors() {
    let report = compare("Xin chào, thế giới!", "xin chào thế giới");
    assert_eq!(report.errors(), 0);
    assert_eq!(wer(&report), 0.0);
}

#[test]
fn counts_each_error_type() {
    // ref: a b c d | hyp: a x c d e  -> one substitution (b->x), one insertion (e)
    let report = compare("a b c d", "a x c d e");
    assert_eq!(report.substitutions, 1);
    assert_eq!(report.insertions, 1);
    assert_eq!(report.deletions, 0);
    assert_eq!(report.reference_words, 4);
    assert!((wer(&report) - 0.5).abs() < 1e-6);
}

#[test]
fn missing_words_count_as_deletions() {
    let report = compare("một hai ba bốn", "một ba bốn");
    assert_eq!(report.deletions, 1);
    assert_eq!(report.substitutions, 0);
}

#[test]
fn diacritics_are_significant() {
    // "hao" and "hào" must count as different.
    assert_eq!(compare("mỹ hào", "my hao").errors(), 2);
}

#[test]
fn normalize_folds_case_and_drops_punctuation() {
    assert_eq!(normalize("  Xin  CHÀO, thế-giới! ... 42 "), vec!["xin", "chào", "thếgiới", "42"]);
    assert!(normalize(" , . ! ").is_empty());
}

#[test]
fn empty_reference_rate_depends_on_insertions() {
    let none = compare("", "");
    assert_eq!(none.wer_fraction(), (0, 1));
    let inserted = compare("", "một hai");
    assert_eq!(inserted.insertions, 2);
    assert_eq!(inserted.wer_fraction(), (1, 1));
}

#[test]
fn empty_hypothesis_deletes_everything() {
    let report = compare("a b c", "");
    assert_eq!(report.deletions, 3);
    assert_eq!(report.errors(), 3);
    assert_eq!(report.wer_fraction(), (3, 3));
}

#[test]
fn errors_are_the_edit_distance() {
    // kitten -> sitting at word level: two substitutions and one insertion.
    let report = compare("k i t t e n", "s i t t i n g");
    assert_eq!(report.substitutions, 2);
    assert_eq!(report.insertions, 1);
    assert_eq!(report.deletions, 0);
    assert_eq!(report.errors(), 3);
}

#[test]
fn corpus_totals_weigh_clips_by_length() {
    let mut totals = Totals::default();
    totals.add_clip(&compare("a b c d", "a b c d"), 1_000, 100);
    totals.add_clip(&compare("x", "y"), 500, 50);
    totals.add_failure();
    assert_eq!(totals.clips, 2);
    assert_eq!(totals.failed, 1);
    assert_eq!(totals.ref_words, 5);
    assert_eq!(totals.errors(), 1);
    assert_eq!(totals.wer_fraction(), (1, 5));
    assert_eq!(totals.audio_ms, 1_500);
    assert_eq!(totals.inference_ms, 150);
    assert_eq!(Totals::default().wer_fraction(), (0, 1));
}

#[test]
fn manifest_lines_split_at_the_first_tab() {
    assert_eq!(
        manifest_entry("clips/a.wav\txin chào\tbạn"),
        Some(("clips/a.wav".to_string(), "xin chào\tbạn".to_string()))
    );
    assert_eq!(manifest_entry("\t"), Some((String::new(), String::new())));
    assert_eq!(manifest_entry("no tab here"), None);
}
