//! Word error rate: the objective yardstick for comparing decode settings.
//!
//! Both texts are normalised first: lower case, punctuation dropped, white
//! space collapsed. Vietnamese diacritics are kept — dropping them would hide
//! exactly the kind of error that has to be measured.
use vstd::prelude::*;
use crate::text::{
    chars_of, fold_chars, folded, split_words, string_from_chars, string_views, words, words_from,
};

verus! {

/// Result of comparing a transcript with its reference.
#[derive(Debug, Clone, PartialEq, Eq)]
pub struct WerReport {
    pub reference_words: usize,
    pub substitutions: usize,
    pub deletions: usize,
    pub insertions: usize,
}

impl WerReport {
    /// Total number of word errors.
    pub fn errors(&self) -> (r: usize)
        requires
            self.substitutions + self.deletions + self.insertions <= usize::MAX,
        ensures
            r == self.substitutions + self.deletions + self.insertions,
    {
        self.substitutions + self.deletions + self.insertions
    }

    /// The word error rate as a fraction `(numerator, denominator)`: errors
    /// over reference words; with no reference word it is 0 when nothing was
    /// inserted and 1 otherwise.
    pub fn wer_fraction(&self) -> (r: (usize, usize))
        requires
            self.substitutions + self.deletions + self.insertions <= usize::MAX,
        ensures
            r.1 > 0,
            self.reference_words == 0 ==> r == (if self.insertions == 0 {
                (0usize, 1usize)
            } else {
                (1usize, 1usize)
            }),
            self.reference_words > 0 ==> r == (
                (self.substitutions + self.deletions + self.insertions) as usize,
                self.reference_words,
            ),
    {
        if self.reference_words == 0 {
            return if self.insertions == 0 {
                (0, 1)
            } else {
                (1, 1)
            };
        }
        (self.errors(), self.reference_words)
    }
}

/// Totals over an evaluation corpus. The corpus WER is total errors over
/// total reference words, not the mean of the clips' WERs — a short clip does
/// not weigh as much as a long one. Every count stops at its type's maximum.
#[derive(Debug, Default)]
pub struct Totals {
    pub clips: usize,
    pub failed: usize,
    pub ref_words: usize,
    pub substitutions: usize,
    pub deletions: usize,
    pub insertions: usize,
    pub audio_ms: u64,
    pub inference_ms: u64,
}

pub open spec fn sat_usize(a: usize, b: usize) -> usize {
    if a + b <= usize::MAX {
        (a + b) as usize
    } else {
        usize::MAX
    }
}

pub open spec fn sat_u64(a: u64, b: u64) -> u64 {
    if a + b <= u64::MAX {
        (a + b) as u64
    } else {
        u64::MAX
    }
}

impl Totals {
    /// Adds one decoded clip.
    pub fn add_clip(&mut self, report: &WerReport, audio_ms: u32, inference_ms: u64)
        ensures
            final(self).clips == sat_usize(old(self).clips, 1),
            final(self).failed == old(self).failed,
            final(self).ref_words == sat_usize(old(self).ref_words, report.reference_words),
            final(self).substitutions == sat_usize(old(self).substitutions, report.substitutions),
            final(self).deletions == sat_usize(old(self).deletions, report.deletions),
            final(self).insertions == sat_usize(old(self).insertions, report.insertions),
            final(self).audio_ms == sat_u64(old(self).audio_ms, audio_ms as u64),
            final(self).inference_ms == sat_u64(old(self).inference_ms, inference_ms),
    {
        self.clips = self.clips.saturating_add(1);
        self.ref_words = self.ref_words.saturating_add(report.reference_words);
        self.substitutions = self.substitutions.saturating_add(report.substitutions);
        self.deletions = self.deletions.saturating_add(report.deletions);
        self.insertions = self.insertions.saturating_add(report.insertions);
        self.audio_ms = self.audio_ms.saturating_add(audio_ms as u64);
        self.inference_ms = self.inference_ms.saturating_add(inference_ms);
    }

    /// Counts a clip that could not be decoded.
    pub fn add_failure(&mut self)
        ensures
            final(self).failed == sat_usize(old(self).failed, 1),
            final(self).clips == old(self).clips,
            final(self).ref_words == old(self).ref_words,
            final(self).substitutions == old(self).substitutions,
            final(self).deletions == old(self).deletions,
            final(self).insertions == old(self).insertions,
            final(self).audio_ms == old(self).audio_ms,
            final(self).inference_ms == old(self).inference_ms,
    {
        self.failed = self.failed.saturating_add(1);
    }

    /// Total word errors.
    pub fn errors(&self) -> (r: usize)
        requires
            self.substitutions + self.deletions + self.insertions <= usize::MAX,
        ensures
            r == self.substitutions + self.deletions + self.insertions,
    {
        self.substitutions + self.deletions + self.insertions
    }

    /// The corpus WER as a fraction: total errors over total reference words,
    /// or 0 when there is no reference word.
    pub fn wer_fraction(&self) -> (r: (usize, usize))
        requires
            self.substitutions + self.deletions + self.insertions <= usize::MAX,
        ensures
            r.1 > 0,
            self.ref_words == 0 ==> r == (0usize, 1usize),
            self.ref_words > 0 ==> r == (
                (self.substitutions + self.deletions + self.insertions) as usize,
                self.ref_words,
            ),
    {
        if self.ref_words == 0 {
            return (0, 1);
        }
        (self.errors(), self.ref_words)
    }
}

/// The normalised words of `ws`: each word folded (alphanumerics only,
/// lowercased), and words that fold to nothing dropped.
pub open spec fn kept_folded(ws: Seq<Seq<char>>) -> Seq<Seq<char>>
    decreases ws.len(),
{
    if ws.len() == 0 {
        seq![]
    } else {
        let f = folded(ws.last());
        kept_folded(ws.drop_last()) + (if f.len() > 0 {
            seq![f]
        } else {
            seq![]
        })
    }
}

/// The words that the word error rate compares for `text`.
pub open spec fn normalized(text: Seq<char>) -> Seq<Seq<char>> {
    kept_folded(words(text))
}

/// Levenshtein distance between two word sequences: the least number of
/// substitutions, deletions and insertions that turn `a` into `b`.
pub open spec fn edit_distance(a: Seq<Seq<char>>, b: Seq<Seq<char>>) -> nat
    decreases a.len() + b.len(),
{
    if a.len() == 0 {
        b.len()
    } else if b.len() == 0 {
        a.len()
    } else {
        let sub = edit_distance(a.drop_last(), b.drop_last()) + if a.last() == b.last() {
            0nat
        } else {
            1nat
        };
        let del = edit_distance(a.drop_last(), b) + 1;
        let ins = edit_distance(a, b.drop_last()) + 1;
        if sub <= del && sub <= ins {
            sub
        } else if del <= ins {
            del
        } else {
            ins
        }
    }
}

/// Distance between the first `i` words of `a` and the first `j` of `b`.
pub open spec fn dist(a: Seq<Seq<char>>, b: Seq<Seq<char>>, i: int, j: int) -> nat {
    edit_distance(a.take(i), b.take(j))
}

/// The `(substitutions, deletions, insertions)` of the alignment that walks
/// back from `(i, j)` preferring, in turn, a match, a substitution, a deletion
/// and an insertion, each only where it stays on an optimal path.
pub open spec fn alignment(a: Seq<Seq<char>>, b: Seq<Seq<char>>, i: nat, j: nat) -> (nat, nat, nat)
    decreases i + j,
{
    if i == 0 && j == 0 {
        (0, 0, 0)
    } else if i > 0 && j > 0 && a[i - 1] == b[j - 1] && dist(a, b, i as int, j as int) == dist(
        a,
        b,
        i - 1,
        j - 1,
    ) {
        alignment(a, b, (i - 1) as nat, (j - 1) as nat)
    } else if i > 0 && j > 0 && dist(a, b, i as int, j as int) == dist(a, b, i - 1, j - 1) + 1 {
        let t = alignment(a, b, (i - 1) as nat, (j - 1) as nat);
        (t.0 + 1, t.1, t.2)
    } else if i > 0 && dist(a, b, i as int, j as int) == dist(a, b, i - 1, j as int) + 1 {
        let t = alignment(a, b, (i - 1) as nat, j);
        (t.0, t.1 + 1, t.2)
    } else if j > 0 {
        let t = alignment(a, b, i, (j - 1) as nat);
        (t.0, t.1, t.2 + 1)
    } else {
        (0, 0, 0)
    }
}

/// The counts that [`compare`] reports for reference `a` and hypothesis `b`.
pub open spec fn preferred_alignment(a: Seq<Seq<char>>, b: Seq<Seq<char>>) -> (nat, nat, nat) {
    alignment(a, b, a.len(), b.len())
}

/// The recurrence that the table of [`compare`] follows.
proof fn lemma_dist_step(a: Seq<Seq<char>>, b: Seq<Seq<char>>, i: int, j: int)
    requires
        0 <= i <= a.len(),
        0 <= j <= b.len(),
    ensures
        i == 0 ==> dist(a, b, i, j) == j,
        i > 0 && j == 0 ==> dist(a, b, i, j) == i,
        i > 0 && j > 0 ==> ({
            let sub = dist(a, b, i - 1, j - 1) + if a[i - 1] == b[j - 1] {
                0nat
            } else {
                1nat
            };
            let del = dist(a, b, i - 1, j) + 1;
            let ins = dist(a, b, i, j - 1) + 1;
            &&& dist(a, b, i, j) <= sub
            &&& dist(a, b, i, j) <= del
            &&& dist(a, b, i, j) <= ins
            &&& (dist(a, b, i, j) == sub || dist(a, b, i, j) == del || dist(a, b, i, j) == ins)
        }),
{
    let ai = a.take(i);
    let bj = b.take(j);
    if i > 0 {
        assert(ai.drop_last() =~= a.take(i - 1));
    }
    if j > 0 {
        assert(bj.drop_last() =~= b.take(j - 1));
    }
}

/// No cell of the table exceeds the larger of its two prefix lengths.
proof fn lemma_dist_bound(a: Seq<Seq<char>>, b: Seq<Seq<char>>, i: int, j: int)
    requires
        0 <= i <= a.len(),
        0 <= j <= b.len(),
    ensures
        dist(a, b, i, j) <= if i >= j {
            i
        } else {
            j
        },
    decreases i + j,
{
    lemma_dist_step(a, b, i, j);
    if i > 0 && j > 0 {
        lemma_dist_bound(a, b, i - 1, j - 1);
    }
}

/// The alignment's three counts add up to the edit distance of the prefixes,
/// and every word of both prefixes is accounted for: `i` reference words are
/// matched, substituted or deleted, `j` hypothesis words are matched,
/// substituted or inserted, and both sides have the same number of matches.
pub proof fn lemma_alignment_accounts(a: Seq<Seq<char>>, b: Seq<Seq<char>>, i: nat, j: nat)
    requires
        i <= a.len(),
        j <= b.len(),
    ensures
        ({
            let t = alignment(a, b, i, j);
            &&& t.0 + t.1 + t.2 == dist(a, b, i as int, j as int)
            &&& t.0 + t.1 <= i
            &&& t.0 + t.2 <= j
            &&& i - t.0 - t.1 == j - t.0 - t.2
        }),
    decreases i + j,
{
    lemma_dist_step(a, b, i as int, j as int);
    if i == 0 && j == 0 {
    } else if i > 0 && j > 0 && a[i - 1] == b[j - 1] && dist(a, b, i as int, j as int) == dist(
        a,
        b,
        i - 1,
        j - 1,
    ) {
        lemma_alignment_accounts(a, b, (i - 1) as nat, (j - 1) as nat);
    } else if i > 0 && j > 0 && dist(a, b, i as int, j as int) == dist(a, b, i - 1, j - 1) + 1 {
        lemma_alignment_accounts(a, b, (i - 1) as nat, (j - 1) as nat);
    } else if i > 0 && dist(a, b, i as int, j as int) == dist(a, b, i - 1, j as int) + 1 {
        lemma_alignment_accounts(a, b, (i - 1) as nat, j);
    } else {
        lemma_dist_step(a, b, i as int, (j - 1) as int);
        lemma_alignment_accounts(a, b, i, (j - 1) as nat);
    }
}

/// Law: the errors that [`compare`] reports are the fewest possible — they add
/// up to the Levenshtein distance between the normalised word sequences — and
/// every reference and hypothesis word is counted exactly once.
pub proof fn lemma_compare_counts_minimal_errors(a: Seq<Seq<char>>, b: Seq<Seq<char>>)
    ensures
        ({
            let t = preferred_alignment(a, b);
            &&& t.0 + t.1 + t.2 == edit_distance(a, b)
            &&& t.0 + t.1 <= a.len()
            &&& t.0 + t.2 <= b.len()
            &&& a.len() - t.1 == b.len() - t.2
        }),
{
    lemma_alignment_accounts(a, b, a.len(), b.len());
    assert(a.take(a.len() as int) =~= a);
    assert(b.take(b.len() as int) =~= b);
}

/// Law: a text compared with itself has no error.
pub proof fn lemma_identical_texts_have_no_errors(a: Seq<Seq<char>>)
    ensures
        preferred_alignment(a, a) == (0nat, 0nat, 0nat),
{
    lemma_dist_zero_on_diagonal(a, a.len() as int);
    lemma_compare_counts_minimal_errors(a, a);
    assert(a.take(a.len() as int) =~= a);
}

proof fn lemma_dist_zero_on_diagonal(a: Seq<Seq<char>>, i: int)
    requires
        0 <= i <= a.len(),
    ensures
        dist(a, a, i, i) == 0,
    decreases i,
{
    lemma_dist_step(a, a, i, i);
    if i > 0 {
        lemma_dist_zero_on_diagonal(a, i - 1);
    }
}

/// At most one word per two characters: a word is a non-empty run and words
/// are separated by white space.
proof fn lemma_words_from_count(s: Seq<char>, cur: Seq<char>)
    ensures
        2 * words_from(s, cur).len() <= s.len() + 1 + if cur.len() > 0 {
            1int
        } else {
            0int
        },
    decreases s.len(),
{
    if s.len() > 0 {
        if crate::text::is_white_space(s[0]) {
            lemma_words_from_count(s.drop_first(), seq![]);
        } else {
            lemma_words_from_count(s.drop_first(), cur.push(s[0]));
        }
    }
}

proof fn lemma_kept_folded_count(ws: Seq<Seq<char>>)
    ensures
        kept_folded(ws).len() <= ws.len(),
    decreases ws.len(),
{
    if ws.len() > 0 {
        lemma_kept_folded_count(ws.drop_last());
    }
}

proof fn lemma_normalized_count(text: Seq<char>)
    ensures
        2 * normalized(text).len() <= text.len() + 1,
{
    lemma_words_from_count(text, seq![]);
    lemma_kept_folded_count(words(text));
}

/// The words of `text` that the word error rate compares: split on white space,
/// each folded to its lowercased alphanumeric characters, empty ones dropped.
pub fn normalize(text: &str) -> (out: Vec<String>)
    ensures
        string_views(out@) == normalized(text@),
        2 * out@.len() <= text@.len() + 1,
        out@.len() < usize::MAX,
{
    let chars = chars_of(text);
    let n_chars = chars.len();
    proof {
        lemma_normalized_count(text@);
        assert(n_chars == text@.len());
    }
    let split = split_words(chars.as_slice());
    let ghost ws = words(text@);
    let mut out: Vec<String> = Vec::new();
    let mut k: usize = 0;
    while k < split.len()
        invariant
            k <= split.len(),
            split@.len() == ws.len(),
            forall|q: int| 0 <= q < split@.len() ==> #[trigger] split@[q]@ == ws[q],
            string_views(out@) == kept_folded(ws.take(k as int)),
        decreases split.len() - k,
    {
        assert(ws.take(k + 1).drop_last() =~= ws.take(k as int));
        assert(ws.take(k + 1).last() == split@[k as int]@);
        let f = fold_chars(split[k].as_slice());
        if f.len() > 0 {
            let w = string_from_chars(f.as_slice());
            out.push(w);
            assert(string_views(out@) =~= kept_folded(ws.take(k + 1)));
        } else {
            assert(string_views(out@) =~= kept_folded(ws.take(k + 1)));
        }
        k += 1;
    }
    assert(ws.take(split.len() as int) =~= ws);
    out
}

/// Compares `hypothesis` with `reference` word by word (Levenshtein over the
/// normalised words) and walks the cost table back to tell substitutions,
/// deletions and insertions apart.
pub fn compare(reference: &str, hypothesis: &str) -> (report: WerReport)
    ensures
        report.reference_words == normalized(reference@).len(),
        (report.substitutions as nat, report.deletions as nat, report.insertions as nat)
            == preferred_alignment(normalized(reference@), normalized(hypothesis@)),
{
    let a = normalize(reference);
    let b = normalize(hypothesis);
    let n = a.len();
    let m = b.len();
    let ghost av = normalized(reference@);
    let ghost bv = normalized(hypothesis@);
    proof {
        assert(av.len() == n);
        assert(bv.len() == m);
        assert(forall|q: int| 0 <= q < n ==> #[trigger] a@[q]@ == av[q]);
        assert(forall|q: int| 0 <= q < m ==> #[trigger] b@[q]@ == bv[q]);
    }
    // cost[i][j] = fewest errors turning the first i reference words into the
    // first j hypothesis words.
    let mut cost: Vec<Vec<usize>> = Vec::new();
    let mut row0: Vec<usize> = Vec::new();
    let mut j: usize = 0;
    while j <= m
        invariant
            j <= m + 1,
            m < usize::MAX,
            row0@.len() == j,
            forall|c: int| 0 <= c < j ==> #[trigger] row0@[c] == dist(av, bv, 0, c),
            bv.len() == m,
        decreases m + 1 - j,
    {
        proof {
            lemma_dist_step(av, bv, 0, j as int);
        }
        row0.push(j);
        j += 1;
    }
    cost.push(row0);
    let mut i: usize = 1;
    while i <= n
        invariant
            1 <= i <= n + 1,
            n < usize::MAX,
            m < usize::MAX,
            av.len() == n,
            bv.len() == m,
            a@.len() == n,
            b@.len() == m,
            forall|q: int| 0 <= q < n ==> #[trigger] a@[q]@ == av[q],
            forall|q: int| 0 <= q < m ==> #[trigger] b@[q]@ == bv[q],
            cost@.len() == i,
            forall|r: int| 0 <= r < i ==> (#[trigger] cost@[r])@.len() == m + 1,
            forall|r: int, c: int|
                0 <= r < i && 0 <= c <= m ==> #[trigger] cost@[r]@[c] == dist(av, bv, r, c),
        decreases n + 1 - i,
    {
        let mut row: Vec<usize> = Vec::new();
        proof {
            lemma_dist_step(av, bv, i as int, 0);
        }
        row.push(i);
        let mut j: usize = 1;
        while j <= m
            invariant
                1 <= i <= n,
                1 <= j <= m + 1,
                n < usize::MAX,
                m < usize::MAX,
                av.len() == n,
                bv.len() == m,
                a@.len() == n,
                b@.len() == m,
                forall|q: int| 0 <= q < n ==> #[trigger] a@[q]@ == av[q],
                forall|q: int| 0 <= q < m ==> #[trigger] b@[q]@ == bv[q],
                cost@.len() == i,
                forall|r: int| 0 <= r < i ==> (#[trigger] cost@[r])@.len() == m + 1,
                forall|r: int, c: int|
                    0 <= r < i && 0 <= c <= m ==> #[trigger] cost@[r]@[c] == dist(av, bv, r, c),
                row@.len() == j,
                forall|c: int| 0 <= c < j ==> #[trigger] row@[c] == dist(av, bv, i as int, c),
            decreases m + 1 - j,
        {
            proof {
                lemma_dist_step(av, bv, i as int, j as int);
                lemma_dist_bound(av, bv, i - 1, j - 1);
                lemma_dist_bound(av, bv, i - 1, j as int);
                lemma_dist_bound(av, bv, i as int, j - 1);
            }
            let same = a[i - 1] == b[j - 1];
            let diff: usize = if same {
                0
            } else {
                1
            };
            let sub = cost[i - 1][j - 1] + diff;
            let del = cost[i - 1][j] + 1;
            let ins = row[j - 1] + 1;
            let best = if sub <= del && sub <= ins {
                sub
            } else if del <= ins {
                del
            } else {
                ins
            };
            row.push(best);
            j += 1;
        }
        cost.push(row);
        i += 1;
    }
    let mut report = WerReport { reference_words: n, substitutions: 0, deletions: 0, insertions: 0 };
    let mut i: usize = n;
    let mut j: usize = m;
    proof {
        lemma_alignment_accounts(av, bv, n as nat, m as nat);
    }
    while i > 0 || j > 0
        invariant
            i <= n,
            j <= m,
            n < usize::MAX,
            m < usize::MAX,
            av.len() == n,
            bv.len() == m,
            a@.len() == n,
            b@.len() == m,
            forall|q: int| 0 <= q < n ==> #[trigger] a@[q]@ == av[q],
            forall|q: int| 0 <= q < m ==> #[trigger] b@[q]@ == bv[q],
            cost@.len() == n + 1,
            forall|r: int| 0 <= r <= n ==> (#[trigger] cost@[r])@.len() == m + 1,
            forall|r: int, c: int|
                0 <= r <= n && 0 <= c <= m ==> #[trigger] cost@[r]@[c] == dist(av, bv, r, c),
            report.reference_words == n,
            ({
                let rest = alignment(av, bv, i as nat, j as nat);
                let total = alignment(av, bv, n as nat, m as nat);
                &&& report.substitutions + rest.0 == total.0
                &&& report.deletions + rest.1 == total.1
                &&& report.insertions + rest.2 == total.2
                &&& total.0 + total.1 <= n
                &&& total.0 + total.2 <= m
            }),
        decreases i + j,
    {
        proof {
            lemma_dist_step(av, bv, i as int, j as int);
            if i > 0 {
                lemma_dist_bound(av, bv, i - 1, j as int);
            }
            if i > 0 && j > 0 {
                lemma_dist_bound(av, bv, i - 1, j - 1);
            }
            if j > 0 {
                lemma_dist_step(av, bv, i as int, j - 1);
            }
        }
        if i > 0 && j > 0 && a[i - 1] == b[j - 1] && cost[i][j] == cost[i - 1][j - 1] {
            i -= 1;
            j -= 1;
        } else if i > 0 && j > 0 && cost[i][j] == cost[i - 1][j - 1] + 1 {
            report.substitutions += 1;
            i -= 1;
            j -= 1;
        } else if i > 0 && cost[i][j] == cost[i - 1][j] + 1 {
            report.deletions += 1;
            i -= 1;
        } else {
            report.insertions += 1;
            j -= 1;
        }
    }
    report
}

/// One line of an evaluation manifest, `audio path<TAB>reference text`: the
/// text before the first tab and the text after it, or `None` when the line
/// has no tab (such lines are skipped).
pub fn manifest_entry(line: &str) -> (r: Option<(String, String)>)
    ensures
        r is None <==> !line@.contains('\t'),
        r matches Some((path, reference)) ==> line@ == path@ + seq!['\t'] + reference@
            && !path@.contains('\t'),
{
    let chars = chars_of(line);
    let n = chars.len();
    let mut k: usize = 0;
    while k < n
        invariant
            k <= n,
            n == chars@.len(),
            chars@ == line@,
            forall|i: int| 0 <= i < k ==> chars@[i] != '\t',
        decreases n - k,
    {
        if chars[k] == '\t' {
            let mut head: Vec<char> = Vec::new();
            let mut i: usize = 0;
            while i < k
                invariant
                    i <= k < n,
                    n == chars@.len(),
                    head@ == chars@.take(i as int),
                decreases k - i,
            {
                head.push(chars[i]);
                i += 1;
                assert(head@ =~= chars@.take(i as int));
            }
            let mut tail: Vec<char> = Vec::new();
            let mut j: usize = k + 1;
            while j < n
                invariant
                    k < j <= n,
                    n == chars@.len(),
                    tail@ == chars@.subrange(k + 1, j as int),
                decreases n - j,
            {
                tail.push(chars[j]);
                j += 1;
                assert(tail@ =~= chars@.subrange(k + 1, j as int));
            }
            proof {
                assert(chars@ =~= chars@.take(k as int) + seq!['\t'] + chars@.subrange(
                    k + 1,
                    n as int,
                ));
                assert forall|x: int| 0 <= x < head@.len() implies head@[x] != '\t' by {}
            }
            return Some((string_from_chars(head.as_slice()), string_from_chars(tail.as_slice())));
        }
        k += 1;
    }
    proof {
        assert forall|x: int| 0 <= x < line@.len() implies line@[x] != '\t' by {}
    }
    None
}

} // verus!
