//! The text of one session.
//!
//! A partial result only decodes the last few seconds, so on its own it is not
//! the whole talk. A client that wants one continuous line needs "what is
//! committed + the running tail" — that is what this type assembles.
use vstd::prelude::*;
use crate::text::{join_with_space, joined_with_space, string_views, trim_str, trimmed};

verus! {

/// What a transcript holds: the committed utterances and how many identical
/// repeats were refused.
pub struct TranscriptModel {
    pub utterances: Seq<Seq<char>>,
    pub duplicates_dropped: nat,
}

/// Committed utterances are non-empty, carry no surrounding white space, and
/// no utterance repeats the one right before it.
pub open spec fn utterances_wf(u: Seq<Seq<char>>) -> bool {
    &&& forall|i: int| 0 <= i < u.len() ==> (#[trigger] u[i]).len() > 0
    &&& forall|i: int| 0 <= i < u.len() ==> trimmed(#[trigger] u[i]) == u[i]
    &&& forall|i: int| 0 < i < u.len() ==> #[trigger] u[i] != u[i - 1]
}

/// The effect of committing `text`: the new model and whether it was accepted.
/// Empty text (after trimming) and text identical to the previous utterance
/// are refused; a refused repeat is counted.
pub open spec fn commit_step(m: TranscriptModel, text: Seq<char>) -> (TranscriptModel, bool) {
    let t = trimmed(text);
    if t.len() == 0 {
        (m, false)
    } else if m.utterances.len() > 0 && m.utterances.last() == t {
        (
            TranscriptModel {
                utterances: m.utterances,
                duplicates_dropped: if m.duplicates_dropped < usize::MAX {
                    m.duplicates_dropped + 1
                } else {
                    m.duplicates_dropped
                },
            },
            false,
        )
    } else {
        (TranscriptModel { utterances: m.utterances.push(t), ..m }, true)
    }
}

/// The committed text followed by the trimmed `partial`, separated by one
/// space when both are non-empty.
pub open spec fn text_with_partial(utterances: Seq<Seq<char>>, partial: Seq<char>) -> Seq<char> {
    let p = trimmed(partial);
    if p.len() == 0 {
        joined_with_space(utterances)
    } else if utterances.len() == 0 {
        p
    } else {
        joined_with_space(utterances).push(' ') + p
    }
}

/// Result of one commit: `accepted == false` means the text was refused and
/// the caller should not send an event to the client.
#[derive(Debug, Clone)]
pub struct CommitOutcome {
    pub full_text: String,
    pub accepted: bool,
}

#[derive(Debug, Default)]
pub struct Transcript {
    committed: Vec<String>,
    duplicates_dropped: usize,
}

impl View for Transcript {
    type V = TranscriptModel;

    closed spec fn view(&self) -> TranscriptModel {
        TranscriptModel {
            utterances: string_views(self.committed@),
            duplicates_dropped: self.duplicates_dropped as nat,
        }
    }
}

impl Transcript {
    #[verifier::type_invariant]
    spec fn inv(self) -> bool {
        utterances_wf(string_views(self.committed@))
    }

    pub fn new() -> (t: Self)
        ensures
            t@.utterances == Seq::<Seq<char>>::empty(),
            t@.duplicates_dropped == 0,
    {
        let t = Transcript { committed: Vec::new(), duplicates_dropped: 0 };
        assert(string_views(t.committed@) =~= Seq::<Seq<char>>::empty());
        t
    }

    /// Commits the text of one utterance.
    ///
    /// Empty text and text **identical to the previous utterance** are refused:
    /// whisper hallucinating on silence tends to repeat the same sentence learnt
    /// from its training data, while two real utterances in a row that are
    /// exactly alike almost never happen. The count of refused repeats stops at
    /// `usize::MAX`.
    pub fn commit(&mut self, text: &str) -> (outcome: CommitOutcome)
        ensures
            (final(self)@, outcome.accepted) == commit_step(old(self)@, text@),
            outcome.full_text@ == joined_with_space(final(self)@.utterances),
            utterances_wf(final(self)@.utterances),
    {
        proof {
            use_type_invariant(&*self);
        }
        let t = trim_str(text);
        if t.as_str().is_empty() {
            assert(t@.len() == 0);
            return CommitOutcome { full_text: self.committed_text(), accepted: false };
        }
        assert(t@.len() > 0);
        let n = self.committed.len();
        if n > 0 && self.committed[n - 1] == t {
            self.duplicates_dropped = self.duplicates_dropped.saturating_add(1);
            return CommitOutcome { full_text: self.committed_text(), accepted: false };
        }
        proof {
            crate::text::lemma_trimmed_idempotent(text@);
            let u = string_views(self.committed@);
            let v = u.push(t@);
            assert(utterances_wf(v));
        }
        let mut committed = Vec::new();
        std::mem::swap(&mut committed, &mut self.committed);
        committed.push(t);
        assert(string_views(committed@) =~= string_views(old(self).committed@).push(trimmed(text@)));
        self.committed = committed;
        CommitOutcome { full_text: self.committed_text(), accepted: true }
    }

    /// How many identical repeats were refused.
    pub fn duplicates_dropped(&self) -> (r: usize)
        ensures
            r == self@.duplicates_dropped,
    {
        self.duplicates_dropped
    }

    /// The committed text followed by the trimmed partial tail (the partial is
    /// not stored).
    pub fn with_partial(&self, partial: &str) -> (r: String)
        ensures
            r@ == text_with_partial(self@.utterances, partial@),
            joined_with_space(self@.utterances).is_prefix_of(r@),
            (trimmed(partial@).len() > 0 && self@.utterances.len() > 0) ==> r@ == joined_with_space(
                self@.utterances,
            ) + seq![' '] + trimmed(partial@),
    {
        proof {
            lemma_partial_follows_committed(self@.utterances, partial@);
        }
        let partial = trim_str(partial);
        if partial.as_str().is_empty() {
            return self.committed_text();
        }
        if self.committed.len() == 0 {
            return partial;
        }
        let mut out = self.committed_text();
        proof {
            reveal_strlit(" ");
        }
        out.append(" ");
        out.append(partial.as_str());
        out
    }

    /// The committed utterances joined with single spaces.
    pub fn committed_text(&self) -> (r: String)
        ensures
            r@ == joined_with_space(self@.utterances),
    {
        join_with_space(self.committed.as_slice())
    }

    /// The number of committed utterances.
    pub fn utterances(&self) -> (r: usize)
        ensures
            r == self@.utterances.len(),
    {
        self.committed.len()
    }
}

/// Law: committing never rewrites what was committed — the committed text
/// before a commit is a prefix of the committed text after it.
pub proof fn lemma_commit_only_appends(m: TranscriptModel, text: Seq<char>)
    ensures
        joined_with_space(m.utterances).is_prefix_of(
            joined_with_space(commit_step(m, text).0.utterances),
        ),
{
    let u = m.utterances;
    let (m2, accepted) = commit_step(m, text);
    if accepted {
        let v = u.push(trimmed(text));
        assert(v.drop_last() =~= u);
        if u.len() == 0 {
            assert(joined_with_space(u) =~= Seq::<char>::empty());
        } else {
            let j = joined_with_space(u);
            assert(joined_with_space(v) == j.push(' ') + trimmed(text));
            assert(forall|i: int| 0 <= i < j.len() ==> joined_with_space(v)[i] == j[i]);
        }
    }
}

/// Law: the same text committed twice in a row is kept once — the second
/// commit is refused and leaves the utterances as they were.
pub proof fn lemma_repeat_is_refused(m: TranscriptModel, text: Seq<char>)
    requires
        trimmed(text).len() > 0,
    ensures
        !commit_step(commit_step(m, text).0, text).1,
        commit_step(commit_step(m, text).0, text).0.utterances == commit_step(m, text).0.utterances,
{
}

/// Law: committing keeps the utterances well formed.
pub proof fn lemma_commit_keeps_wf(m: TranscriptModel, text: Seq<char>)
    requires
        utterances_wf(m.utterances),
    ensures
        utterances_wf(commit_step(m, text).0.utterances),
{
    crate::text::lemma_trimmed_idempotent(text);
}

/// Law: the full text with a partial is the whole committed text, then the
/// trimmed partial: with a non-blank partial and something committed it is
/// the committed text, one space and the partial; with a blank partial it is
/// the committed text; with nothing committed it is the trimmed partial. So
/// the committed text is always a prefix of it.
pub proof fn lemma_partial_follows_committed(utterances: Seq<Seq<char>>, partial: Seq<char>)
    ensures
        (trimmed(partial).len() > 0 && utterances.len() > 0) ==> text_with_partial(
            utterances,
            partial,
        ) == joined_with_space(utterances) + seq![' '] + trimmed(partial),
        trimmed(partial).len() == 0 ==> text_with_partial(utterances, partial) == joined_with_space(
            utterances,
        ),
        utterances.len() == 0 ==> text_with_partial(utterances, partial) == trimmed(partial),
        joined_with_space(utterances).is_prefix_of(text_with_partial(utterances, partial)),
{
    let j = joined_with_space(utterances);
    let p = trimmed(partial);
    let t = text_with_partial(utterances, partial);
    if utterances.len() == 0 {
        assert(j =~= Seq::<char>::empty());
    }
    if p.len() > 0 && utterances.len() > 0 {
        assert(j.push(' ') + p =~= j + seq![' '] + p);
        assert(forall|i: int| 0 <= i < j.len() ==> t[i] == j[i]);
    }
}

/// A transcript with nothing committed, as [`Transcript::new`] makes it.
pub open spec fn empty_transcript() -> TranscriptModel {
    TranscriptModel { utterances: Seq::empty(), duplicates_dropped: 0 }
}

/// The transcript after committing `texts` in order, starting from `m`.
pub open spec fn commit_all(m: TranscriptModel, texts: Seq<Seq<char>>) -> TranscriptModel
    decreases texts.len(),
{
    if texts.len() == 0 {
        m
    } else {
        commit_step(commit_all(m, texts.drop_last()), texts.last()).0
    }
}

/// Whether the last of `texts` is accepted, once the ones before it were
/// committed starting from `m`.
pub open spec fn last_accepted(m: TranscriptModel, texts: Seq<Seq<char>>) -> bool
    recommends
        texts.len() > 0,
{
    commit_step(commit_all(m, texts.drop_last()), texts.last()).1
}

/// The trimmed texts of the accepted commits among `texts`, in order.
pub open spec fn accepted_texts(m: TranscriptModel, texts: Seq<Seq<char>>) -> Seq<Seq<char>>
    decreases texts.len(),
{
    if texts.len() == 0 {
        Seq::empty()
    } else if last_accepted(m, texts) {
        accepted_texts(m, texts.drop_last()).push(trimmed(texts.last()))
    } else {
        accepted_texts(m, texts.drop_last())
    }
}

/// How many of the commits of `texts` were accepted.
pub open spec fn accepted_count(m: TranscriptModel, texts: Seq<Seq<char>>) -> nat
    decreases texts.len(),
{
    if texts.len() == 0 {
        0
    } else if last_accepted(m, texts) {
        accepted_count(m, texts.drop_last()) + 1
    } else {
        accepted_count(m, texts.drop_last())
    }
}

/// How many of the commits of `texts` were refused although their text was
/// not blank (exact repeats of the utterance before).
pub open spec fn refused_repeats(m: TranscriptModel, texts: Seq<Seq<char>>) -> nat
    decreases texts.len(),
{
    if texts.len() == 0 {
        0
    } else if !last_accepted(m, texts) && trimmed(texts.last()).len() > 0 {
        refused_repeats(m, texts.drop_last()) + 1
    } else {
        refused_repeats(m, texts.drop_last())
    }
}

proof fn lemma_commit_all_counts(m: TranscriptModel, texts: Seq<Seq<char>>)
    requires
        m.duplicates_dropped <= usize::MAX,
    ensures
        commit_all(m, texts).utterances == m.utterances + accepted_texts(m, texts),
        accepted_texts(m, texts).len() == accepted_count(m, texts),
        forall|i: int|
            0 <= i < accepted_texts(m, texts).len() ==> (#[trigger] accepted_texts(m, texts)[i]).len()
                > 0,
        commit_all(m, texts).duplicates_dropped == (if m.duplicates_dropped + refused_repeats(
            m,
            texts,
        ) <= usize::MAX {
            m.duplicates_dropped + refused_repeats(m, texts)
        } else {
            usize::MAX as nat
        }),
    decreases texts.len(),
{
    if texts.len() == 0 {
        assert(m.utterances + Seq::<Seq<char>>::empty() =~= m.utterances);
    } else {
        lemma_commit_all_counts(m, texts.drop_last());
        let prev = accepted_texts(m, texts.drop_last());
        assert(m.utterances + prev.push(trimmed(texts.last())) =~= (m.utterances + prev).push(
            trimmed(texts.last()),
        ));
    }
}

/// Law: from a new transcript, after any sequence of commits, the committed
/// utterances are the trimmed texts of the accepted commits in order (so the
/// committed text is them joined with single spaces, and it is empty exactly
/// when none was accepted), their number is the number of accepted commits,
/// and the refused-repeat count is the number of refused non-blank commits
/// (stopping at `usize::MAX`).
pub proof fn lemma_commits_accumulate(texts: Seq<Seq<char>>)
    ensures
        commit_all(empty_transcript(), texts).utterances == accepted_texts(
            empty_transcript(),
            texts,
        ),
        joined_with_space(commit_all(empty_transcript(), texts).utterances) == joined_with_space(
            accepted_texts(empty_transcript(), texts),
        ),
        (joined_with_space(commit_all(empty_transcript(), texts).utterances).len() == 0)
            <==> accepted_count(empty_transcript(), texts) == 0,
        commit_all(empty_transcript(), texts).utterances.len() == accepted_count(
            empty_transcript(),
            texts,
        ),
        commit_all(empty_transcript(), texts).duplicates_dropped == (if refused_repeats(
            empty_transcript(),
            texts,
        ) <= usize::MAX {
            refused_repeats(empty_transcript(), texts)
        } else {
            usize::MAX as nat
        }),
{
    let m = empty_transcript();
    lemma_commit_all_counts(m, texts);
    assert(m.utterances + accepted_texts(m, texts) =~= accepted_texts(m, texts));
    let a = accepted_texts(m, texts);
    if a.len() == 1 {
        assert(a[0].len() > 0);
    } else if a.len() > 1 {
        assert(joined_with_space(a) == joined_with_space(a.drop_last()).push(' ') + a.last());
    }
}

} // verus!
