use whisper_rt::asr::Word;
use whisper_rt::local_agreement::LocalAgreement;

fn word(text: &str, start_ms: i64) -> Word {
    Word { text: text.to_string(), start_ms, end_ms: start_ms + 300 }
}

#[test]
fn nothing_is_committed_from_the_first_hypothesis() {
    let mut agreement = LocalAgreement::new();
    let committed = agreement.insert(vec![word("xin", 0), word("chào", 400)]);
    assert!(committed.is_empty());
    assert_eq!(agreement.pending_text(), "xin chào");
    assert_eq!(agreement.committed_text(), "");
}

#[test]
fn common_prefix_of_two_hypotheses_is_committed() {
    let mut agreement = LocalAgreement::new();
    agreement.insert(vec![word("xin", 0), word("chào", 400), word("bạm", 800)]);
    // The next pass agrees on the first two words and corrects the third.
    let committed = agreement.insert(vec![word("xin", 0), word("chào", 400), word("bạn", 800)]);
    assert_eq!(committed.len(), 2);
    assert_eq!(agreement.committed_text(), "xin chào");
    assert_eq!(agreement.pending_text(), "bạn");
    assert_eq!(agreement.committed_end_ms(), 700);
}

#[test]
fn words_before_the_committed_boundary_are_ignored() {
    let mut agreement = LocalAgreement::new();
    agreement.insert(vec![word("một", 1_000), word("hai", 1_400)]);
    agreement.insert(vec![word("một", 1_000), word("hai", 1_400)]);
    assert_eq!(agreement.committed_text(), "một hai");
    // The new hypothesis repeats what is committed -> dropped, only what follows the boundary stays.
    agreement.insert(vec![word("một", 1_000), word("hai", 1_400), word("ba", 1_800)]);
    assert_eq!(agreement.pending_text(), "ba");
}

#[test]
fn punctuation_and_case_do_not_block_agreement() {
    let mut agreement = LocalAgreement::new();
    agreement.insert(vec![word("Hưng", 0), word("Yên,", 400)]);
    let committed = agreement.insert(vec![word("hưng", 0), word("yên", 400)]);
    assert_eq!(committed.len(), 2);
}

#[test]
fn slide_keeps_committed_text() {
    let mut agreement = LocalAgreement::new();
    agreement.insert(vec![word("một", 0), word("hai", 400)]);
    agreement.insert(vec![word("một", 0), word("hai", 400)]);
    assert_eq!(agreement.committed_text(), "một hai");
    agreement.slide();
    // The committed part stays, only the pending hypothesis is dropped.
    assert_eq!(agreement.committed_text(), "một hai");
    assert_eq!(agreement.pending_text(), "");
}

#[test]
fn reset_clears_everything() {
    let mut agreement = LocalAgreement::new();
    agreement.insert(vec![word("a", 0)]);
    agreement.insert(vec![word("a", 0)]);
    agreement.reset();
    assert!(agreement.is_empty());
    assert_eq!(agreement.committed_end_ms(), 0);
}

#[test]
fn words_too_far_apart_in_time_do_not_agree() {
    let mut agreement = LocalAgreement::new();
    agreement.insert(vec![word("một", 0)]);
    // 501 ms apart: beyond five tolerances.
    let committed = agreement.insert(vec![word("một", 501)]);
    assert!(committed.is_empty());
    assert_eq!(agreement.pending_text(), "một");
    // 500 ms apart still agrees.
    let committed = agreement.insert(vec![word("một", 1_001)]);
    assert_eq!(committed.len(), 1);
}

#[test]
fn committed_text_is_never_taken_back() {
    let mut agreement = LocalAgreement::new();
    let passes = vec![
        vec![word("a", 0), word("b", 400)],
        vec![word("a", 0), word("b", 400), word("c", 800)],
        vec![word("x", 0), word("c", 800), word("d", 1_200)],
        vec![word("c", 800), word("d", 1_200)],
    ];
    let mut before = agreement.committed_text();
    for hypothesis in passes {
        agreement.insert(hypothesis);
        let now = agreement.committed_text();
        assert!(now.starts_with(&before), "{before:?} -> {now:?}");
        before = now;
    }
    assert_eq!(before, "a b c d");
}
