//! The Zipformer RNN-T engine (k2/icefall models exported to ONNX and run by
//! sherpa-onnx): choosing the model files in a model directory, and turning
//! what the recognizer reports (text, BPE tokens and their start times) into
//! a transcript result.
//!
//! It differs from whisper in every operational respect: no 1 s minimum, no
//! padding to 30 s, a CPU real-time factor a hundred times smaller — but one
//! language only and no punctuation or casing.
use vstd::prelude::*;
use std::path::PathBuf;
use crate::asr::{audio_ms_of, audio_ms_spec, DecodeMode, Segment, TranscriptResult, Word};
use crate::text::{chars_of, string_from_chars, trim_str, trimmed};

verus! {

/// Below this the engine returns an empty result instead of calling the
/// model: RNN-T decodes very short audio, but a few dozen ms are only noise.
pub const MIN_AUDIO_MS: u32 = 120;

/// The answer of the engine to audio shorter than [`MIN_AUDIO_MS`]: an empty
/// result (no segment, no word, no inference time) for the audio's length, so
/// the model is not called; `None` when the audio is long enough to decode.
pub fn short_audio_result(n_samples: usize, mode: DecodeMode) -> (r: Option<TranscriptResult>)
    ensures
        audio_ms_spec(n_samples as nat) < MIN_AUDIO_MS ==> (r matches Some(t) && t.segments@.len()
            == 0 && t.words@.len() == 0 && t.mode == mode && t.audio_ms == audio_ms_spec(
            n_samples as nat,
        ) && t.inference_ms == 0),
        audio_ms_spec(n_samples as nat) >= MIN_AUDIO_MS ==> r is None,
{
    let audio_ms = audio_ms_of(n_samples);
    if audio_ms < MIN_AUDIO_MS {
        Some(
            TranscriptResult {
                segments: Vec::new(),
                words: Vec::new(),
                mode,
                audio_ms,
                inference_ms: 0,
            },
        )
    } else {
        None
    }
}

/// Settings of the zipformer engine.
pub struct ZipformerConfig {
    /// Directory holding the encoder/decoder/joiner `.onnx` files and
    /// `tokens.txt`.
    pub dir: PathBuf,
    /// Use the int8 files (faster, lighter; a little less accurate).
    pub quantized: bool,
    pub n_threads: i32,
}

/// The lowercase form of `s`, as `str::to_lowercase` returns it.
pub uninterp spec fn str_lowercase(s: Seq<char>) -> Seq<char>;

/// Calls `str::to_lowercase`. The contract claims only that the result is a
/// function of the text alone (named [`str_lowercase`]); the Unicode case
/// tables (and the context rule for final sigma) are not restated.
#[verifier::external_body]
fn lowercase_str(s: &str) -> (r: String)
    ensures
        r@ == str_lowercase(s@),
{
    s.to_lowercase()
}

/// Whether `pat` occurs in `s`.
pub open spec fn contains_seq(s: Seq<char>, pat: Seq<char>) -> bool {
    exists|i: int| 0 <= i && i + pat.len() <= s.len() && #[trigger] s.subrange(i, i + pat.len()) == pat
}

/// Whether `s` ends with `pat`.
pub open spec fn ends_with_seq(s: Seq<char>, pat: Seq<char>) -> bool {
    pat.len() <= s.len() && s.skip(s.len() - pat.len()) == pat
}

/// Strict lexicographic order of character sequences by code point (the
/// order of file names, and of paths in one directory).
pub open spec fn lex_lt(a: Seq<char>, b: Seq<char>) -> bool
    decreases a.len(),
{
    if a.len() == 0 {
        b.len() > 0
    } else if b.len() == 0 {
        false
    } else if a[0] != b[0] {
        a[0] < b[0]
    } else {
        lex_lt(a.drop_first(), b.drop_first())
    }
}

/// A file name fits a role (`encoder`, `decoder`, `joiner`): it contains the
/// role, ends in `.onnx`, and is the int8 variant exactly when `quantized`.
pub open spec fn fits_role(name: Seq<char>, role: Seq<char>, quantized: bool) -> bool {
    &&& contains_seq(name, role)
    &&& ends_with_seq(name, ".onnx"@)
    &&& contains_seq(name, ".int8."@) == quantized
}

fn contains_chars(s: &[char], pat: &[char]) -> (r: bool)
    ensures
        r == contains_seq(s@, pat@),
{
    if pat.len() > s.len() {
        return false;
    }
    if pat.len() == 0 {
        assert(s@.subrange(0int, 0int + pat@.len()) =~= pat@);
        return true;
    }
    let m = pat.len();
    let last = s.len() - m;
    let mut i: usize = 0;
    while i <= last
        invariant
            m == pat@.len(),
            1 <= m,
            last + m == s@.len(),
            last + m <= usize::MAX,
            i <= last + 1,
            forall|j: int| 0 <= j < i ==> #[trigger] s@.subrange(j, j + m) != pat@,
        decreases last + 1 - i,
    {
        let mut k: usize = 0;
        let mut same = true;
        while k < m
            invariant
                m == pat@.len(),
                k <= m,
                i <= last,
                last + m == s@.len(),
                last + m <= usize::MAX,
                same == (forall|q: int| 0 <= q < k ==> s@[i + q] == pat@[q]),
            decreases m - k,
        {
            if s[i + k] != pat[k] {
                same = false;
            }
            k += 1;
        }
        if same {
            assert(s@.subrange(i as int, i + m) =~= pat@);
            return true;
        }
        assert(s@.subrange(i as int, i + m) != pat@) by {
            let q = choose|q: int| 0 <= q < m && s@[i + q] != pat@[q];
            assert(s@.subrange(i as int, i + m)[q] == s@[i + q]);
        }
        i += 1;
    }
    false
}

fn ends_with_chars(s: &[char], pat: &[char]) -> (r: bool)
    ensures
        r == ends_with_seq(s@, pat@),
{
    if pat.len() > s.len() {
        return false;
    }
    let off = s.len() - pat.len();
    let mut k: usize = 0;
    while k < pat.len()
        invariant
            off + pat@.len() == s@.len(),
            off + pat@.len() <= usize::MAX,
            k <= pat@.len(),
            forall|q: int| 0 <= q < k ==> s@[off + q] == pat@[q],
        decreases pat.len() - k,
    {
        if s[off + k] != pat[k] {
            assert(s@.skip(off as int)[k as int] != pat@[k as int]);
            return false;
        }
        k += 1;
    }
    assert(s@.skip(off as int) =~= pat@);
    true
}

fn lex_less(a: &[char], b: &[char]) -> (r: bool)
    ensures
        r == lex_lt(a@, b@),
{
    let mut i: usize = 0;
    assert(a@.skip(0) =~= a@);
    assert(b@.skip(0) =~= b@);
    while i < a.len() && i < b.len() && a[i] == b[i]
        invariant
            i <= a@.len(),
            i <= b@.len(),
            lex_lt(a@, b@) == lex_lt(a@.skip(i as int), b@.skip(i as int)),
        decreases a.len() - i,
    {
        assert(a@.skip(i as int).drop_first() =~= a@.skip(i + 1));
        assert(b@.skip(i as int).drop_first() =~= b@.skip(i + 1));
        i += 1;
    }
    if i == a.len() {
        i < b.len()
    } else if i == b.len() {
        false
    } else {
        assert(a@.skip(i as int)[0] == a@[i as int]);
        assert(b@.skip(i as int)[0] == b@[i as int]);
        a[i] < b[i]
    }
}

fn fits_role_exec(name: &[char], role: &[char], quantized: bool) -> (r: bool)
    ensures
        r == fits_role(name@, role@, quantized),
{
    let onnx = chars_of(".onnx");
    let int8 = chars_of(".int8.");
    contains_chars(name, role) && ends_with_chars(name, onnx.as_slice()) && contains_chars(
        name,
        int8.as_slice(),
    ) == quantized
}

/// Law: a name fits a role exactly when it holds `role`, ends in `.onnx`,
/// and holds `.int8.` exactly when the quantized files are asked for — so
/// with `quantized` false no int8 file is ever chosen, and with it true only
/// an int8 file is.
pub proof fn lemma_model_file_variant(name: Seq<char>, role: Seq<char>, quantized: bool)
    ensures
        fits_role(name, role, quantized) <==> {
            &&& exists|i: int|
                0 <= i && i + role.len() <= name.len() && #[trigger] name.subrange(
                    i,
                    i + role.len(),
                ) == role
            &&& name.len() >= 5 && name.subrange(name.len() - 5, name.len() as int) == seq![
                '.',
                'o',
                'n',
                'n',
                'x',
            ]
            &&& (exists|i: int|
                0 <= i && i + 6 <= name.len() && #[trigger] name.subrange(i, i + 6) == seq![
                    '.',
                    'i',
                    'n',
                    't',
                    '8',
                    '.',
                ]) == quantized
        },
{
    reveal_strlit(".onnx");
    reveal_strlit(".int8.");
    assert(".onnx"@ =~= seq!['.', 'o', 'n', 'n', 'x']);
    assert(".int8."@ =~= seq!['.', 'i', 'n', 't', '8', '.']);
    if name.len() >= 5 {
        assert(name.skip(name.len() - 5) =~= name.subrange(name.len() - 5, name.len() as int));
    }
}

/// Picks the model file for `role` among the file names of a model
/// directory: the smallest (in path order) of the names that fit the role,
/// or `None` when none does.
pub fn select_model_file(names: &[String], role: &str, quantized: bool) -> (r: Option<usize>)
    ensures
        r is None <==> forall|i: int| 0 <= i < names@.len() ==> !fits_role(
            #[trigger] names@[i]@,
            role@,
            quantized,
        ),
        r matches Some(k) ==> k < names@.len() && contains_seq(names@[k as int]@, ".int8."@)
            == quantized && contains_seq(names@[k as int]@, role@) && ends_with_seq(
            names@[k as int]@,
            ".onnx"@,
        ),
        r matches Some(k) ==> k < names@.len() && fits_role(names@[k as int]@, role@, quantized)
            && forall|j: int|
            0 <= j < names@.len() && fits_role(#[trigger] names@[j]@, role@, quantized) ==> !lex_lt(
                names@[j]@,
                names@[k as int]@,
            ),
{
    let role_chars = chars_of(role);
    let mut best: Option<usize> = None;
    let mut best_chars: Vec<char> = Vec::new();
    let mut i: usize = 0;
    while i < names.len()
        invariant
            i <= names@.len(),
            role_chars@ == role@,
            best is None <==> forall|q: int| 0 <= q < i ==> !fits_role(
                #[trigger] names@[q]@,
                role@,
                quantized,
            ),
            best matches Some(k) ==> k < i && best_chars@ == names@[k as int]@ && fits_role(
                names@[k as int]@,
                role@,
                quantized,
            ) && forall|j: int|
                0 <= j < i && fits_role(#[trigger] names@[j]@, role@, quantized) ==> !lex_lt(
                    names@[j]@,
                    names@[k as int]@,
                ),
        decreases names.len() - i,
    {
        let name = chars_of(names[i].as_str());
        if fits_role_exec(name.as_slice(), role_chars.as_slice(), quantized) {
            let better = match best {
                None => true,
                Some(_) => lex_less(name.as_slice(), best_chars.as_slice()),
            };
            if better {
                proof {
                    lemma_lex_irreflexive(names@[i as int]@);
                    if best is Some {
                        lemma_lex_lt_trans_not(names@, i as int, best->0 as int, role@, quantized);
                    }
                }
                best = Some(i);
                best_chars = name;
            }
        }
        i += 1;
    }
    best
}

proof fn lemma_lex_irreflexive(a: Seq<char>)
    ensures
        !lex_lt(a, a),
    decreases a.len(),
{
    if a.len() > 0 {
        lemma_lex_irreflexive(a.drop_first());
    }
}

proof fn lemma_lex_transitive(a: Seq<char>, b: Seq<char>, c: Seq<char>)
    ensures
        lex_lt(a, b) && lex_lt(b, c) ==> lex_lt(a, c),
    decreases a.len(),
{
    if a.len() > 0 && b.len() > 0 && c.len() > 0 {
        lemma_lex_transitive(a.drop_first(), b.drop_first(), c.drop_first());
    }
}

proof fn lemma_lex_lt_trans_not(
    names: Seq<String>,
    i: int,
    k: int,
    role: Seq<char>,
    quantized: bool,
)
    requires
        0 <= k < i < names.len(),
        lex_lt(names[i]@, names[k]@),
        forall|j: int|
            0 <= j < i && fits_role(#[trigger] names[j]@, role, quantized) ==> !lex_lt(
                names[j]@,
                names[k]@,
            ),
    ensures
        forall|j: int|
            0 <= j < i && fits_role(#[trigger] names[j]@, role, quantized) ==> !lex_lt(
                names[j]@,
                names[i]@,
            ),
        !lex_lt(names[i]@, names[i]@),
{
    assert forall|j: int|
        0 <= j < i && fits_role(#[trigger] names[j]@, role, quantized) implies !lex_lt(
        names[j]@,
        names[i]@,
    ) by {
        lemma_lex_transitive(names[j]@, names[i]@, names[k]@);
    }
    lemma_lex_irreflexive(names[i]@);
}

/// A word as values.
pub struct WordModel {
    pub text: Seq<char>,
    pub start_ms: int,
    pub end_ms: int,
}

pub open spec fn word_model(w: Word) -> WordModel {
    WordModel { text: w.text@, start_ms: w.start_ms as int, end_ms: w.end_ms as int }
}

/// The words as values.
pub open spec fn word_models(ws: Seq<Word>) -> Seq<WordModel> {
    ws.map_values(|w: Word| word_model(w))
}

/// Whether `c` marks the start of a word in a BPE token (`▁`, or a space).
pub open spec fn is_word_mark(c: char) -> bool {
    c == '\u{2581}' || c == ' '
}

/// `s` without its leading word marks.
pub open spec fn strip_marks(s: Seq<char>) -> Seq<char>
    decreases s.len(),
{
    if s.len() > 0 && is_word_mark(s[0]) {
        strip_marks(s.drop_first())
    } else {
        s
    }
}

/// Start (ms) of the token at `i`: its timestamp, or 0 when there is none.
pub open spec fn token_start(ts: Seq<i64>, i: int) -> int {
    if 0 <= i < ts.len() {
        ts[i] as int
    } else {
        0
    }
}

/// Tokens gathered into words: a token that starts with a word mark (or the
/// first non-empty one) opens a word starting at the token's time, with a
/// provisional end 200 ms later; any other token is appended to the last
/// word and pushes its end to at least its own time + 200 ms. Tokens that
/// are empty once marks are stripped are skipped. Text is lowercased.
pub open spec fn gather_words(tokens: Seq<Seq<char>>, ts: Seq<i64>) -> Seq<WordModel>
    decreases tokens.len(),
{
    if tokens.len() == 0 {
        seq![]
    } else {
        let prev = gather_words(tokens.drop_last(), ts);
        let i = tokens.len() - 1;
        let tok = tokens.last();
        let t = token_start(ts, i);
        let piece = str_lowercase(strip_marks(tok));
        let starts = (tok.len() > 0 && is_word_mark(tok[0])) || prev.len() == 0;
        if piece.len() == 0 {
            prev
        } else if starts {
            prev.push(WordModel { text: piece, start_ms: t, end_ms: t + 200 })
        } else {
            let last = prev.last();
            prev.update(
                prev.len() - 1,
                WordModel {
                    text: last.text + piece,
                    end_ms: if last.end_ms >= t + 200 {
                        last.end_ms
                    } else {
                        t + 200
                    },
                    ..last
                },
            )
        }
    }
}

/// RNN-T reports only when a token starts: a word ends where the next one
/// starts (when that is later than its own start); the last word keeps its
/// provisional end.
pub open spec fn close_word_ends(ws: Seq<WordModel>) -> Seq<WordModel> {
    Seq::new(
        ws.len(),
        |i: int|
            if i + 1 < ws.len() && ws[i + 1].start_ms > ws[i].start_ms {
                WordModel { end_ms: ws[i + 1].start_ms, ..ws[i] }
            } else {
                ws[i]
            },
    )
}

/// Gathers BPE tokens into words with timestamps; `timestamps_ms[i]` is the
/// start (ms) of token `i`.
pub fn words_from_tokens(tokens: &[String], timestamps_ms: &[i64]) -> (words: Vec<Word>)
    requires
        forall|i: int| 0 <= i < timestamps_ms@.len() ==> #[trigger] timestamps_ms@[i] <= i64::MAX - 200,
    ensures
        word_models(words@) == close_word_ends(
            gather_words(tokens@.map_values(|s: String| s@), timestamps_ms@),
        ),
{
    let ghost toks = tokens@.map_values(|s: String| s@);
    let mut words: Vec<Word> = Vec::new();
    let mut index: usize = 0;
    while index < tokens.len()
        invariant
            index <= tokens@.len(),
            toks == tokens@.map_values(|s: String| s@),
            forall|i: int| 0 <= i < timestamps_ms@.len() ==> #[trigger] timestamps_ms@[i] <= i64::MAX - 200,
            word_models(words@) == gather_words(toks.take(index as int), timestamps_ms@),
            forall|i: int| 0 <= i < words@.len() ==> (#[trigger] words@[i]).end_ms >= words@[i].start_ms,
        decreases tokens.len() - index,
    {
        assert(toks.take(index + 1).drop_last() =~= toks.take(index as int));
        let ts: i64 = if index < timestamps_ms.len() {
            timestamps_ms[index]
        } else {
            0
        };
        let tok = chars_of(tokens[index].as_str());
        let starts_word = (tok.len() > 0 && (tok[0] == '\u{2581}' || tok[0] == ' ')) || words.len() == 0;
        let stripped = strip_marks_exec(tok.as_slice());
        let piece = lowercase_str(string_from_chars(stripped.as_slice()).as_str());
        let ghost before = word_models(words@);
        if !piece.as_str().is_empty() {
            if starts_word {
                words.push(Word { text: piece, start_ms: ts, end_ms: ts + 200 });
                assert(word_models(words@) =~= before.push(
                    WordModel { text: piece@, start_ms: ts as int, end_ms: ts + 200 },
                ));
            } else {
                let mut last = words.pop().unwrap();
                last.text.append(piece.as_str());
                if last.end_ms < ts + 200 {
                    last.end_ms = ts + 200;
                }
                words.push(last);
                assert(word_models(words@) =~= before.update(
                    before.len() - 1,
                    word_model(last),
                ));
            }
        }
        index += 1;
    }
    assert(toks.take(tokens@.len() as int) =~= toks);
    let ghost gathered = word_models(words@);
    let n = words.len();
    let mut out: Vec<Word> = Vec::new();
    let mut i: usize = 0;
    while i < n
        invariant
            i <= n,
            n == words@.len(),
            gathered.len() == n,
            gathered == word_models(words@),
            out@.len() == i,
            word_models(out@) == close_word_ends(gathered).take(i as int),
        decreases n - i,
    {
        assert(gathered[i as int] == word_model(words@[i as int]));
        assert(i + 1 < n ==> gathered[i + 1] == word_model(words@[i + 1]));
        let mut w = words[i].duplicate();
        if i + 1 < n {
            let next_start = words[i + 1].start_ms;
            if next_start > w.start_ms {
                w.end_ms = next_start;
            }
        }
        assert(word_model(w) == close_word_ends(gathered)[i as int]);
        let ghost prev = out@;
        let ghost w_copy = w;
        out.push(w);
        i += 1;
        assert forall|j: int| 0 <= j < i implies #[trigger] word_models(out@)[j]
            == close_word_ends(gathered).take(i as int)[j] by {
            assert(out@[j] == if j < i - 1 { prev[j] } else { w_copy });
            if j < i - 1 {
                assert(word_models(prev)[j] == close_word_ends(gathered).take(
                    i - 1,
                )[j]);
            }
        }
        assert(word_models(out@) =~= close_word_ends(gathered).take(i as int));
    }
    assert(close_word_ends(gathered).take(n as int) =~= close_word_ends(gathered));
    out
}

fn strip_marks_exec(s: &[char]) -> (r: Vec<char>)
    ensures
        r@ == strip_marks(s@),
{
    let mut i: usize = 0;
    assert(s@.skip(0) =~= s@);
    while i < s.len() && (s[i] == '\u{2581}' || s[i] == ' ')
        invariant
            i <= s@.len(),
            strip_marks(s@) == strip_marks(s@.skip(i as int)),
        decreases s.len() - i,
    {
        assert(s@.skip(i as int).drop_first() =~= s@.skip(i + 1));
        i += 1;
    }
    let mut r: Vec<char> = Vec::new();
    let mut k = i;
    while k < s.len()
        invariant
            i <= k <= s@.len(),
            r@ == s@.subrange(i as int, k as int),
        decreases s.len() - k,
    {
        r.push(s[k]);
        k += 1;
        assert(r@ =~= s@.subrange(i as int, k as int));
    }
    assert(r@ =~= s@.skip(i as int));
    r
}

/// The result of one zipformer decode, from what the recognizer reported:
/// the text trimmed and lowercased becomes the single segment (none when it
/// is empty), spanning from the first word's start (or 0) to the last
/// word's end (or the end of the audio).
pub fn zipformer_result(
    text: &str,
    tokens: &[String],
    timestamps_ms: &[i64],
    mode: DecodeMode,
    audio_ms: u32,
    inference_ms: u64,
) -> (r: TranscriptResult)
    requires
        forall|i: int| 0 <= i < timestamps_ms@.len() ==> #[trigger] timestamps_ms@[i] <= i64::MAX - 200,
    ensures
        word_models(r.words@) == close_word_ends(
            gather_words(tokens@.map_values(|s: String| s@), timestamps_ms@),
        ),
        r.mode == mode,
        r.audio_ms == audio_ms,
        r.inference_ms == inference_ms,
        str_lowercase(trimmed(text@)).len() == 0 ==> r.segments@.len() == 0,
        str_lowercase(trimmed(text@)).len() > 0 ==> r.segments@.len() == 1
            && r.segments@[0].text@ == str_lowercase(trimmed(text@))
            && r.segments@[0].start_ms == (if r.words@.len() > 0 {
                r.words@[0].start_ms
            } else {
                0
            }) && r.segments@[0].end_ms == (if r.words@.len() > 0 {
                r.words@.last().end_ms
            } else {
                audio_ms as i64
            }),
{
    let lowered = lowercase_str(trim_str(text).as_str());
    let words = words_from_tokens(tokens, timestamps_ms);
    let n = words.len();
    let end_ms: i64 = if n > 0 {
        words[n - 1].end_ms
    } else {
        audio_ms as i64
    };
    let start_ms: i64 = if n > 0 {
        words[0].start_ms
    } else {
        0
    };
    let mut segments: Vec<Segment> = Vec::new();
    if !lowered.as_str().is_empty() {
        segments.push(Segment { text: lowered, start_ms, end_ms });
    }
    TranscriptResult { segments, words, mode, audio_ms, inference_ms }
}

} // verus!
