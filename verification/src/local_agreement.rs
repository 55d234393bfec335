//! The LocalAgreement-2 streaming policy (Liu et al. 2020, as used in
//! whisper_streaming by Macháček et al.): **commit the longest common prefix of
//! two consecutive decodes**.
//!
//! Why: the simple approach decodes the tail window on every partial and shows
//! the raw result — the text jumps around because the model changes its mind
//! where it lacks context. LocalAgreement only commits what two consecutive
//! passes agree on, so what has been shown is never rewritten, and the
//! committed audio is cut from the next decode window.
use vstd::prelude::*;
use crate::asr::Word;
use crate::text::{chars_of, fold_chars, folded, same_chars, trimmed, trim_chars, string_from_chars};

verus! {

/// Tolerance when comparing timestamps between two decodes.
pub const TIME_TOLERANCE_MS: i64 = 100;

/// Two words agree when their folded texts (alphanumerics, lowercased) are
/// equal and their starts lie within five tolerances of each other.
pub open spec fn same_word(left: Word, right: Word) -> bool {
    &&& folded(left.text@) == folded(right.text@)
    &&& -(TIME_TOLERANCE_MS * 5) <= left.start_ms - right.start_ms <= TIME_TOLERANCE_MS * 5
}

/// The words of `hyp` that start no earlier than `boundary` minus the
/// tolerance, in order.
pub open spec fn after_boundary(hyp: Seq<Word>, boundary: int) -> Seq<Word>
    decreases hyp.len(),
{
    if hyp.len() == 0 {
        seq![]
    } else {
        let prev = after_boundary(hyp.drop_last(), boundary);
        if hyp.last().start_ms + TIME_TOLERANCE_MS >= boundary {
            prev.push(hyp.last())
        } else {
            prev
        }
    }
}

/// End of the committed words: the end of the last one, or 0.
pub open spec fn committed_end(committed: Seq<Word>) -> int {
    if committed.len() == 0 {
        0
    } else {
        committed.last().end_ms as int
    }
}

/// The trimmed texts of `words`, one space before each word but the first
/// (a word whose text trims to nothing still takes its separator once
/// something precedes it).
pub open spec fn words_line(words: Seq<Word>) -> Seq<char>
    decreases words.len(),
{
    if words.len() == 0 {
        seq![]
    } else {
        let prev = words_line(words.drop_last());
        (if prev.len() > 0 {
            prev.push(' ')
        } else {
            prev
        }) + trimmed(words.last().text@)
    }
}

/// What the policy holds: the committed words and the unconfirmed rest of
/// the previous hypothesis.
pub struct AgreementModel {
    pub committed: Seq<Word>,
    pub pending: Seq<Word>,
}

/// The effect of inserting hypothesis `hyp`: the words that start after the
/// committed boundary are compared with the pending ones from the front; the
/// agreeing prefix, of length `k`, is committed and the rest becomes pending.
pub open spec fn insert_step(m: AgreementModel, hyp: Seq<Word>, k: int) -> bool {
    let fresh = after_boundary(hyp, committed_end(m.committed));
    &&& 0 <= k <= fresh.len()
    &&& k <= m.pending.len()
    &&& forall|i: int| 0 <= i < k ==> same_word(#[trigger] fresh[i], m.pending[i])
    &&& (k == fresh.len() || k == m.pending.len() || !same_word(fresh[k], m.pending[k]))
}

#[derive(Debug, Default)]
pub struct LocalAgreement {
    committed: Vec<Word>,
    /// The previous hypothesis, its unconfirmed part.
    previous: Vec<Word>,
}

impl View for LocalAgreement {
    type V = AgreementModel;

    closed spec fn view(&self) -> AgreementModel {
        AgreementModel { committed: self.committed@, pending: self.previous@ }
    }
}

fn copy_words(words: &[Word], from: usize) -> (r: Vec<Word>)
    requires
        from <= words@.len(),
    ensures
        r@ == words@.skip(from as int),
{
    let mut r: Vec<Word> = Vec::new();
    let mut k = from;
    while k < words.len()
        invariant
            from <= k <= words@.len(),
            r@ == words@.subrange(from as int, k as int),
        decreases words.len() - k,
    {
        r.push(words[k].duplicate());
        k += 1;
        assert(r@ =~= words@.subrange(from as int, k as int));
    }
    assert(words@.skip(from as int) =~= words@.subrange(from as int, words@.len() as int));
    r
}

/// The folded text of `w` (alphanumerics, lowercased).
fn folded_text(w: &Word) -> (r: Vec<char>)
    ensures
        r@ == folded(w.text@),
{
    fold_chars(chars_of(w.text.as_str()).as_slice())
}

fn same_word_exec(left: &Word, right: &Word) -> (r: bool)
    ensures
        r == same_word(*left, *right),
{
    let a = folded_text(left);
    let b = folded_text(right);
    if !same_chars(a.as_slice(), b.as_slice()) {
        return false;
    }
    let diff: i128 = left.start_ms as i128 - right.start_ms as i128;
    let limit: i128 = (TIME_TOLERANCE_MS * 5) as i128;
    -limit <= diff && diff <= limit
}

fn words_line_exec(words: &[Word]) -> (r: String)
    ensures
        r@ == words_line(words@),
{
    let mut out: Vec<char> = Vec::new();
    let mut k: usize = 0;
    while k < words.len()
        invariant
            k <= words.len(),
            out@ == words_line(words@.take(k as int)),
        decreases words.len() - k,
    {
        assert(words@.take(k + 1).drop_last() =~= words@.take(k as int));
        if out.len() > 0 {
            out.push(' ');
        }
        let piece = trim_chars(chars_of(words[k].text.as_str()).as_slice());
        crate::text::append_chars(&mut out, piece.as_slice());
        k += 1;
    }
    assert(words@.take(words.len() as int) =~= words@);
    string_from_chars(out.as_slice())
}

impl LocalAgreement {
    pub fn new() -> (r: Self)
        ensures
            r@.committed == Seq::<Word>::empty(),
            r@.pending == Seq::<Word>::empty(),
    {
        LocalAgreement { committed: Vec::new(), previous: Vec::new() }
    }

    /// Feeds a new hypothesis (timestamps absolute within the utterance) and
    /// returns the words that this pass committed.
    pub fn insert(&mut self, hypothesis: Vec<Word>) -> (newly: Vec<Word>)
        ensures
            insert_step(old(self)@, hypothesis@, newly@.len() as int),
            newly@ == after_boundary(hypothesis@, committed_end(old(self)@.committed)).take(
                newly@.len() as int,
            ),
            final(self)@.committed == old(self)@.committed + newly@,
            final(self)@.pending == after_boundary(
                hypothesis@,
                committed_end(old(self)@.committed),
            ).skip(newly@.len() as int),
    {
        let boundary = self.committed_end_ms();
        let ghost fresh_spec = after_boundary(hypothesis@, boundary as int);
        let mut fresh: Vec<Word> = Vec::new();
        let mut h: usize = 0;
        while h < hypothesis.len()
            invariant
                h <= hypothesis@.len(),
                fresh@ == after_boundary(hypothesis@.take(h as int), boundary as int),
            decreases hypothesis.len() - h,
        {
            assert(hypothesis@.take(h + 1).drop_last() =~= hypothesis@.take(h as int));
            if hypothesis[h].start_ms as i128 + TIME_TOLERANCE_MS as i128 >= boundary as i128 {
                fresh.push(hypothesis[h].duplicate());
            }
            h += 1;
        }
        assert(hypothesis@.take(hypothesis.len() as int) =~= hypothesis@);
        let mut newly: Vec<Word> = Vec::new();
        let mut index: usize = 0;
        while index < fresh.len() && index < self.previous.len()
            invariant
                index <= fresh@.len(),
                index <= self.previous@.len(),
                self.previous@ == old(self).previous@,
                self.committed@ == old(self).committed@,
                fresh@ == fresh_spec,
                newly@ == fresh@.take(index as int),
                forall|i: int| 0 <= i < index ==> same_word(#[trigger] fresh@[i], self.previous@[i]),
            ensures
                index <= fresh@.len(),
                index <= self.previous@.len(),
                self.previous@ == old(self).previous@,
                self.committed@ == old(self).committed@,
                fresh@ == fresh_spec,
                newly@ == fresh@.take(index as int),
                forall|i: int| 0 <= i < index ==> same_word(#[trigger] fresh@[i], self.previous@[i]),
                index == fresh@.len() || index == self.previous@.len() || !same_word(
                    fresh@[index as int],
                    self.previous@[index as int],
                ),
            decreases fresh.len() - index,
        {
            if !same_word_exec(&fresh[index], &self.previous[index]) {
                break;
            }
            newly.push(fresh[index].duplicate());
            index += 1;
            assert(newly@ =~= fresh@.take(index as int));
        }
        let mut k: usize = 0;
        while k < newly.len()
            invariant
                k <= newly@.len(),
                self.committed@ == old(self).committed@ + newly@.take(k as int),
                self.previous@ == old(self).previous@,
            decreases newly.len() - k,
        {
            self.committed.push(newly[k].duplicate());
            k += 1;
            assert(self.committed@ =~= old(self).committed@ + newly@.take(k as int));
        }
        assert(newly@.take(newly.len() as int) =~= newly@);
        self.previous = copy_words(fresh.as_slice(), index);
        newly
    }

    /// End of the committed part — the next decode window starts here.
    pub fn committed_end_ms(&self) -> (r: i64)
        ensures
            r as int == committed_end(self@.committed),
    {
        let n = self.committed.len();
        if n == 0 {
            0
        } else {
            self.committed[n - 1].end_ms
        }
    }

    /// The committed words as one line.
    pub fn committed_text(&self) -> (r: String)
        ensures
            r@ == words_line(self@.committed),
    {
        words_line_exec(self.committed.as_slice())
    }

    /// The unconfirmed part of the latest pass — may be shown, may still change.
    pub fn pending_text(&self) -> (r: String)
        ensures
            r@ == words_line(self@.pending),
    {
        words_line_exec(self.previous.as_slice())
    }

    pub fn is_empty(&self) -> (r: bool)
        ensures
            r == (self@.committed.len() == 0 && self@.pending.len() == 0),
    {
        self.committed.len() == 0 && self.previous.len() == 0
    }

    /// Slides the decode window **without** dropping what was committed: only
    /// the pending hypothesis loses its anchor; text already shown to the user
    /// is never taken back.
    pub fn slide(&mut self)
        ensures
            final(self)@.committed == old(self)@.committed,
            final(self)@.pending == Seq::<Word>::empty(),
    {
        self.previous.clear();
    }

    /// Clears everything when an utterance closes.
    pub fn reset(&mut self)
        ensures
            final(self)@.committed == Seq::<Word>::empty(),
            final(self)@.pending == Seq::<Word>::empty(),
    {
        self.committed.clear();
        self.previous.clear();
    }
}

/// Law: committed text is never taken back — whatever words are appended to
/// the committed ones, the old committed line is a prefix of the new one.
pub proof fn lemma_committed_line_only_grows(committed: Seq<Word>, newly: Seq<Word>)
    ensures
        words_line(committed).is_prefix_of(words_line(committed + newly)),
    decreases newly.len(),
{
    if newly.len() == 0 {
        assert(committed + newly =~= committed);
    } else {
        let shorter = newly.drop_last();
        lemma_committed_line_only_grows(committed, shorter);
        let all = committed + newly;
        assert(all.drop_last() =~= committed + shorter);
        let prev = words_line(committed + shorter);
        let line = words_line(committed);
        assert(words_line(all) == (if prev.len() > 0 {
            prev.push(' ')
        } else {
            prev
        }) + trimmed(all.last().text@));
        assert(forall|i: int| 0 <= i < line.len() ==> words_line(all)[i] == prev[i]);
    }
}

/// Law: a pass commits only words on which it and the previous pass agree,
/// and an identical repeat of the pending words (all after the boundary)
/// commits all of them.
pub proof fn lemma_repeat_commits_pending(m: AgreementModel, hyp: Seq<Word>, k: int)
    requires
        insert_step(m, hyp, k),
        after_boundary(hyp, committed_end(m.committed)) == m.pending,
    ensures
        k == m.pending.len(),
{
    let fresh = after_boundary(hyp, committed_end(m.committed));
    if k < m.pending.len() {
        assert(same_word(fresh[k], m.pending[k]));
    }
}

} // verus!
