use whisper_rt::transcript::Transcript;

#[test]
fn commit_then_partial_reads_as_one_stream() {
    let mut transcript = Transcript::new();
    let outcome = transcript.commit(" xin chào ");
    assert!(outcome.accepted);
    assert_eq!(outcome.full_text, "xin chào");
    assert_eq!(transcript.with_partial("hôm nay"), "xin chào hôm nay");
    assert_eq!(transcript.with_partial("   "), "xin chào");
    assert_eq!(transcript.utterances(), 1);
}

#[test]
fn empty_final_is_not_committed() {
    let mut transcript = Transcript::new();
    let outcome = transcript.commit("  ");
    assert!(!outcome.accepted);
    assert_eq!(outcome.full_text, "");
    assert_eq!(transcript.utterances(), 0);
}

#[test]
fn identical_consecutive_utterance_is_dropped() {
    let mut transcript = Transcript::new();
    assert!(transcript.commit("hãy đăng ký kênh").accepted);
    // The second, identical one is a hallucinated repeat: not committed.
    assert!(!transcript.commit("hãy đăng ký kênh").accepted);
    assert_eq!(transcript.utterances(), 1);
    assert_eq!(transcript.duplicates_dropped(), 1);
    // Different text is accepted as usual.
    assert!(transcript.commit("một câu khác").accepted);
    assert_eq!(transcript.utterances(), 2);
}

#[test]
fn committed_text_joins_utterances_with_spaces() {
    let mut transcript = Transcript::new();
    assert!(transcript.commit("một").accepted);
    assert!(transcript.commit("\thai  ba\n").accepted);
    assert_eq!(transcript.committed_text(), "một hai  ba");
    let outcome = transcript.commit("bốn");
    assert_eq!(outcome.full_text, "một hai  ba bốn");
}

#[test]
fn repeat_after_another_utterance_is_accepted() {
    let mut transcript = Transcript::new();
    assert!(transcript.commit("a").accepted);
    assert!(transcript.commit("b").accepted);
    assert!(transcript.commit("a").accepted);
    assert_eq!(transcript.utterances(), 3);
    assert_eq!(transcript.duplicates_dropped(), 0);
}

#[test]
fn refused_commit_reports_current_text() {
    let mut transcript = Transcript::new();
    transcript.commit("xin chào");
    let outcome = transcript.commit("  xin chào  ");
    assert!(!outcome.accepted);
    assert_eq!(outcome.full_text, "xin chào");
}

#[test]
fn partial_alone_when_nothing_committed() {
    let transcript = Transcript::new();
    assert_eq!(transcript.with_partial("  đuôi  "), "đuôi");
    assert_eq!(transcript.with_partial(""), "");
}

#[test]
fn committed_text_only_grows() {
    let mut transcript = Transcript::new();
    let mut previous = transcript.committed_text();
    for text in ["một", "", "một", "hai", "  ", "ba"] {
        transcript.commit(text);
        let now = transcript.committed_text();
        assert!(now.starts_with(&previous));
        previous = now;
    }
    assert_eq!(previous, "một hai ba");
}

#[test]
fn a_run_of_commits_counts_what_was_accepted_and_refused() {
    let mut t = Transcript::new();
    let accepted: Vec<bool> = ["xin chào", " xin chào ", "  ", "bạn", "xin chào", "bạn", ""]
        .iter()
        .map(|text| t.commit(text).accepted)
        .collect();
    assert_eq!(accepted, vec![true, false, false, true, true, true, false]);
    assert_eq!(t.utterances(), 4);
    assert_eq!(t.duplicates_dropped(), 1);
    assert_eq!(t.committed_text(), "xin chào bạn xin chào bạn");
}
