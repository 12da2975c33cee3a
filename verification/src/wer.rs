//! Word error rate and timing drift.
//!
//! An alignment of two word sequences comes from outside, as operations on
//! tokens; here stand the words that a token covers, the й/и folding that the
//! dataset calls for, and the timing statistics of the matched operations.
use crate::number::Number;
use crate::order;
use crate::pretty;
use std::ops::Range;
use vstd::prelude::*;

verus! {

/// A word with the time, in seconds, at which it starts and ends.
#[derive(Debug)]
pub struct Word {
    pub text: String,
    pub start: Number,
    pub end: Number,
}

/// What a word stands for.
#[verifier::ext_equal]
pub struct WordView {
    pub text: Seq<char>,
    pub start: Number,
    pub end: Number,
}

impl View for Word {
    type V = WordView;

    open spec fn view(&self) -> WordView {
        WordView { text: self.text@, start: self.start, end: self.end }
    }
}

/// What the words `words` stand for.
pub open spec fn views(words: Seq<Word>) -> Seq<WordView> {
    words.map_values(|w: Word| w@)
}

impl Word {
    /// The word `text` from `start` to `end`.
    pub fn new(text: String, start: Number, end: Number) -> (w: Word)
        ensures
            w.text == text,
            w.start == start,
            w.end == end,
    {
        Word { text, start, end }
    }
}

/// A stretch of time, in seconds.
#[derive(Clone, Copy, Debug)]
pub struct TimeSpan {
    pub start: Number,
    pub end: Number,
}

/// How far the hypothesis lies from the reference, in seconds: the midpoints
/// by absolute value, the starts and the ends with their sign.
#[derive(Clone, Copy, Debug)]
pub struct SpanDelta {
    pub mid_abs: Number,
    pub start_signed: Number,
    pub end_signed: Number,
}

/// The time that an operation covers on each side that has one.
#[derive(Clone, Copy, Debug)]
pub enum OpTiming {
    Untimed,
    Ref(TimeSpan),
    Hyp(TimeSpan),
    Both { ref_span: TimeSpan, hyp_span: TimeSpan, delta: SpanDelta },
}

/// One step of an alignment, over positions in the two token lists.
#[derive(Debug)]
pub enum Op {
    Match { ref_range: Range<usize>, hyp_range: Range<usize> },
    Sub { ref_idx: usize, hyp_idx: usize },
    Del { ref_idx: usize },
    Ins { hyp_idx: usize },
}

/// A step of an alignment with its timing.
#[derive(Debug)]
pub struct AlignedOp {
    pub op: Op,
    pub timing: OpTiming,
}

/// What the aligner compares; it comes from the input words at
/// `word_indices`, ascending and without a gap.
#[derive(Debug)]
pub struct Token {
    pub word_indices: Vec<usize>,
}

/// An alignment of a reference with a hypothesis, and its error counts.
#[derive(Debug)]
pub struct AlignmentResult {
    pub ops: Vec<AlignedOp>,
    pub ref_tokens: Vec<Token>,
    pub hyp_tokens: Vec<Token>,
    pub wer: Number,
    pub substitutions: usize,
    pub deletions: usize,
    pub insertions: usize,
    pub ref_token_count: usize,
}

impl AlignmentResult {
    /// Substitutions, deletions and insertions together.
    pub open spec fn error_count(&self) -> nat {
        (self.substitutions + self.deletions + self.insertions) as nat
    }

    /// Substitutions, deletions and insertions together.
    pub fn errors(&self) -> (n: usize)
        requires
            self.error_count() <= usize::MAX,
        ensures
            n == self.error_count(),
            n == self.substitutions + self.deletions + self.insertions,
    {
        self.substitutions + self.deletions + self.insertions
    }
}

/// `и` for `й`, in both cases.
pub open spec fn folded_char(c: char) -> char {
    if c == 'й' {
        'и'
    } else if c == 'Й' {
        'И'
    } else {
        c
    }
}

/// `s` with `и` for every `й`, in both cases.
pub open spec fn folded(s: Seq<char>) -> Seq<char> {
    s.map_values(|c: char| folded_char(c))
}

/// Fold `й` to `и`, in both cases. Words of the dataset and of the model are
/// folded when they are made.
pub fn fold_short_i(s: &str) -> (r: String)
    ensures
        r@ == folded(s@),
        r@.len() == s@.len(),
        forall|i: int|
            0 <= i < s@.len() ==> #[trigger] r@[i] == (if s@[i] == 'й' {
                'и'
            } else if s@[i] == 'Й' {
                'И'
            } else {
                s@[i]
            }),
{
    let mut r = String::new();
    for c in it: s.chars()
        invariant
            it.seq() == s@,
            r@ == folded(s@.take(it.index() as int)),
    {
        let ghost k = it.index() as int;
        assert(folded(s@.take(k + 1)) == folded(s@.take(k)).push(folded_char(s@[k])));
        if c == 'й' {
            r.push('и');
        } else if c == 'Й' {
            r.push('И');
        } else {
            r.push(c);
        }
    }
    assert(s@.take(s@.len() as int) == s@);
    r
}

/// The first input word of a token; 0 if it has none.
pub open spec fn token_first(tok: Token) -> nat {
    if tok.word_indices@.len() == 0 {
        0
    } else {
        tok.word_indices@[0] as nat
    }
}

/// The last input word of a token; 0 if it has none.
pub open spec fn token_last(tok: Token) -> nat {
    if tok.word_indices@.len() == 0 {
        0
    } else {
        tok.word_indices@.last() as nat
    }
}

/// The input words that one token covers.
pub fn token_word_range(tok: &Token) -> (r: Range<usize>)
    requires
        token_last(*tok) < usize::MAX,
    ensures
        r.start == token_first(*tok),
        r.end == token_last(*tok) + 1,
        tok.word_indices@.len() == 0 ==> r.start == 0 && r.end == 1,
        tok.word_indices@.len() > 0 ==> r.start == tok.word_indices@[0] && r.end
            == tok.word_indices@.last() + 1,
{
    let n: usize = tok.word_indices.len();
    if n == 0 {
        0..1
    } else {
        tok.word_indices[0]..tok.word_indices[n - 1] + 1
    }
}

/// The lowest first word of the tokens that have a word.
pub open spec fn lowest_first(tokens: Seq<Token>) -> Option<nat>
    decreases tokens.len(),
{
    if tokens.len() == 0 {
        None
    } else {
        let tok = tokens.last();
        let rest = lowest_first(tokens.drop_last());
        if tok.word_indices@.len() == 0 {
            rest
        } else if rest is Some && rest->0 <= token_first(tok) {
            rest
        } else {
            Some(token_first(tok))
        }
    }
}

/// The highest last word of the tokens that have a word.
pub open spec fn highest_last(tokens: Seq<Token>) -> Option<nat>
    decreases tokens.len(),
{
    if tokens.len() == 0 {
        None
    } else {
        let tok = tokens.last();
        let rest = highest_last(tokens.drop_last());
        if tok.word_indices@.len() == 0 {
            rest
        } else if rest is Some && rest->0 >= token_last(tok) {
            rest
        } else {
            Some(token_last(tok))
        }
    }
}

/// More tokens reach at least as far.
pub proof fn lemma_last_grows(tokens: Seq<Token>, n: int)
    requires
        0 <= n <= tokens.len(),
    ensures
        tokens_last(tokens.take(n)) <= tokens_last(tokens),
    decreases tokens.len() - n,
{
    if n < tokens.len() {
        lemma_last_grows(tokens, n + 1);
        assert(tokens.take(n + 1).drop_last() == tokens.take(n));
    } else {
        assert(tokens.take(n) == tokens);
    }
}

/// Where the words that several tokens cover begin; 0 if they have none.
pub open spec fn tokens_first(tokens: Seq<Token>) -> nat {
    match lowest_first(tokens) {
        Some(i) => i,
        None => 0,
    }
}

/// The last of the words that several tokens cover; 0 if they have none.
pub open spec fn tokens_last(tokens: Seq<Token>) -> nat {
    match highest_last(tokens) {
        Some(i) => i,
        None => 0,
    }
}

/// The input words that several tokens cover, from the first of any to the
/// last of any.
pub fn tokens_word_range(tokens: &[Token]) -> (r: Range<usize>)
    requires
        tokens_last(tokens@) < usize::MAX,
    ensures
        r.start == tokens_first(tokens@),
        r.end == tokens_last(tokens@) + 1,
{
    let mut first: Option<usize> = None;
    let mut last: Option<usize> = None;
    for i in 0..tokens.len()
        invariant
            lowest_first(tokens@.take(i as int)) == (match first {
                Some(n) => Some(n as nat),
                None => None,
            }),
            highest_last(tokens@.take(i as int)) == (match last {
                Some(n) => Some(n as nat),
                None => None,
            }),
    {
        assert(tokens@.take(i + 1).drop_last() == tokens@.take(i as int));
        let indices = &tokens[i].word_indices;
        if indices.len() > 0 {
            let lo: usize = indices[0];
            let hi: usize = indices[indices.len() - 1];
            first =
            match first {
                Some(n) if n <= lo => Some(n),
                _ => Some(lo),
            };
            last =
            match last {
                Some(n) if n >= hi => Some(n),
                _ => Some(hi),
            };
        }
    }
    assert(tokens@.take(tokens@.len() as int) == tokens@);
    let start: usize = match first {
        Some(n) => n,
        None => 0,
    };
    let end: usize = match last {
        Some(n) => n,
        None => 0,
    };
    start..end + 1
}

/// Whether an operation is a match whose two sides are timed.
pub open spec fn is_timed_match(op: AlignedOp) -> bool {
    op.op is Match && op.timing is Both
}

/// The deltas of the matches of `ops` that are timed on both sides, in order.
pub open spec fn matched_deltas(ops: Seq<AlignedOp>) -> Seq<SpanDelta> {
    ops.filter(timed_match()).map_values(delta_of())
}

/// The number of deltas whose midpoints lie further apart than `threshold`.
pub open spec fn count_above(deltas: Seq<SpanDelta>, threshold: Number) -> nat {
    deltas.filter(further_than(threshold)).len()
}

pub open spec fn timed_match() -> spec_fn(AlignedOp) -> bool {
    |op: AlignedOp| is_timed_match(op)
}

pub open spec fn delta_of() -> spec_fn(AlignedOp) -> SpanDelta {
    |op: AlignedOp| op.timing->Both_delta
}

pub open spec fn further_than(threshold: Number) -> spec_fn(SpanDelta) -> bool {
    |d: SpanDelta| d.mid_abs.is_above(threshold)
}

/// One more operation adds its delta if it is a match timed on both sides.
pub proof fn lemma_deltas_push(ops: Seq<AlignedOp>, op: AlignedOp)
    ensures
        is_timed_match(op) ==> matched_deltas(ops.push(op)) == matched_deltas(ops).push(
            op.timing->Both_delta,
        ),
        !is_timed_match(op) ==> matched_deltas(ops.push(op)) == matched_deltas(ops),
{
    ops.lemma_filter_push(op, timed_match());
    let before = ops.filter(timed_match());
    if is_timed_match(op) {
        assert(before.push(op).map_values(delta_of()) == before.map_values(delta_of()).push(
            op.timing->Both_delta,
        ));
    }
}

/// One more delta is counted if it lies above the threshold.
pub proof fn lemma_count_push(deltas: Seq<SpanDelta>, d: SpanDelta, threshold: Number)
    ensures
        count_above(deltas.push(d), threshold) == count_above(deltas, threshold) + (
        if d.mid_abs.is_above(threshold) {
            1nat
        } else {
            0nat
        }),
{
    deltas.lemma_filter_push(d, further_than(threshold));
}

/// Timing drift over a file or a corpus.
#[derive(Debug)]
pub struct TimingStats {
    pub matched_pairs: usize,
    /// The distance of the midpoints, for each matched pair.
    pub mid_abs_deltas: Vec<Number>,
    pub start_signed_deltas: Vec<Number>,
    pub end_signed_deltas: Vec<Number>,
    /// Matched pairs whose midpoints lie further apart than the threshold.
    pub high_drift_pairs: usize,
}

impl TimingStats {
    /// Whether these are the statistics of `deltas` under `threshold`.
    pub open spec fn records(&self, deltas: Seq<SpanDelta>, threshold: Number) -> bool {
        &&& self.matched_pairs == deltas.len()
        &&& self.mid_abs_deltas@ =~= deltas.map_values(|d: SpanDelta| d.mid_abs)
        &&& self.start_signed_deltas@ =~= deltas.map_values(|d: SpanDelta| d.start_signed)
        &&& self.end_signed_deltas@ =~= deltas.map_values(|d: SpanDelta| d.end_signed)
        &&& self.high_drift_pairs == count_above(deltas, threshold)
    }

    /// Whether `self` is `a` followed by `b`.
    pub open spec fn is_merge_of(&self, a: TimingStats, b: TimingStats) -> bool {
        &&& self.matched_pairs == a.matched_pairs + b.matched_pairs
        &&& self.mid_abs_deltas@ =~= a.mid_abs_deltas@ + b.mid_abs_deltas@
        &&& self.start_signed_deltas@ =~= a.start_signed_deltas@ + b.start_signed_deltas@
        &&& self.end_signed_deltas@ =~= a.end_signed_deltas@ + b.end_signed_deltas@
        &&& self.high_drift_pairs == a.high_drift_pairs + b.high_drift_pairs
    }

    /// Whether nothing has been recorded.
    pub open spec fn is_fresh(&self) -> bool {
        &&& self.matched_pairs == 0
        &&& self.mid_abs_deltas@.len() == 0
        &&& self.start_signed_deltas@.len() == 0
        &&& self.end_signed_deltas@.len() == 0
        &&& self.high_drift_pairs == 0
    }

    /// Take over what `other` has recorded, behind what `self` has.
    pub fn merge(&mut self, other: &TimingStats)
        requires
            old(self).matched_pairs + other.matched_pairs <= usize::MAX,
            old(self).high_drift_pairs + other.high_drift_pairs <= usize::MAX,
        ensures
            final(self).is_merge_of(*old(self), *other),
            final(self).matched_pairs == old(self).matched_pairs + other.matched_pairs,
            final(self).mid_abs_deltas@ == old(self).mid_abs_deltas@ + other.mid_abs_deltas@,
            final(self).start_signed_deltas@ == old(self).start_signed_deltas@
                + other.start_signed_deltas@,
            final(self).end_signed_deltas@ == old(self).end_signed_deltas@
                + other.end_signed_deltas@,
            final(self).high_drift_pairs == old(self).high_drift_pairs + other.high_drift_pairs,
    {
        self.matched_pairs += other.matched_pairs;
        self.mid_abs_deltas.extend_from_slice(other.mid_abs_deltas.as_slice());
        self.start_signed_deltas.extend_from_slice(other.start_signed_deltas.as_slice());
        self.end_signed_deltas.extend_from_slice(other.end_signed_deltas.as_slice());
        self.high_drift_pairs += other.high_drift_pairs;
    }

    /// The midpoint distance at the quantile `num / den`, zero if there is
    /// none.
    pub fn percentile_abs_mid(&self, num: u32, den: u32) -> (r: Number)
        requires
            den > 0,
        ensures
            r == pretty::percentile_of(
                order::ascending(self.mid_abs_deltas@),
                num as nat,
                den as nat,
            ),
    {
        let sorted = order::sort_ascending(self.mid_abs_deltas.as_slice());
        pretty::percentile(sorted.as_slice(), num, den)
    }

    /// The median midpoint distance.
    pub fn median_abs_mid(&self) -> (r: Number)
        ensures
            r == pretty::percentile_of(order::ascending(self.mid_abs_deltas@), 1, 2),
    {
        self.percentile_abs_mid(1, 2)
    }

    /// The midpoint distance at 95 percent.
    pub fn p95_abs_mid(&self) -> (r: Number)
        ensures
            r == pretty::percentile_of(order::ascending(self.mid_abs_deltas@), 19, 20),
    {
        self.percentile_abs_mid(19, 20)
    }

    /// The median and the 95 percent midpoint distance, with a single sort.
    pub fn percentiles_abs_mid(&self) -> (r: (Number, Number))
        ensures
            r.0 == pretty::percentile_of(order::ascending(self.mid_abs_deltas@), 1, 2),
            r.1 == pretty::percentile_of(order::ascending(self.mid_abs_deltas@), 19, 20),
    {
        let sorted = order::sort_ascending(self.mid_abs_deltas.as_slice());
        (
            pretty::percentile(sorted.as_slice(), 1, 2),
            pretty::percentile(sorted.as_slice(), 19, 20),
        )
    }
}

impl Default for TimingStats {
    fn default() -> (r: TimingStats)
        ensures
            r.is_fresh(),
            r.matched_pairs == 0,
            r.mid_abs_deltas@.len() == 0,
            r.start_signed_deltas@.len() == 0,
            r.end_signed_deltas@.len() == 0,
            r.high_drift_pairs == 0,
    {
        TimingStats {
            matched_pairs: 0,
            mid_abs_deltas: Vec::new(),
            start_signed_deltas: Vec::new(),
            end_signed_deltas: Vec::new(),
            high_drift_pairs: 0,
        }
    }
}

/// Record the deltas of every match that is timed on both sides, and count
/// those whose midpoints lie further apart than the threshold.
pub fn timing_stats(result: &AlignmentResult, drift_threshold_s: Number) -> (stats: TimingStats)
    ensures
        stats.records(matched_deltas(result.ops@), drift_threshold_s),
        stats.matched_pairs == stats.mid_abs_deltas@.len(),
        stats.high_drift_pairs == stats.mid_abs_deltas@.filter(
            |x: Number| x.is_above(drift_threshold_s),
        ).len(),
{
    let mut stats = TimingStats::default();
    assert(result.ops@.take(0).filter(timed_match()).len() == 0) by {
        result.ops@.take(0).lemma_filter_len(timed_match());
    }
    assert(count_above(matched_deltas(result.ops@.take(0)), drift_threshold_s) == 0) by {
        matched_deltas(result.ops@.take(0)).lemma_filter_len(further_than(drift_threshold_s));
    }
    for i in 0..result.ops.len()
        invariant
            stats.records(matched_deltas(result.ops@.take(i as int)), drift_threshold_s),
            stats.matched_pairs <= i,
            stats.high_drift_pairs <= stats.matched_pairs,
    {
        proof {
            let ops = result.ops@.take(i as int);
            let op = result.ops@[i as int];
            assert(result.ops@.take(i + 1) == ops.push(op));
            lemma_deltas_push(ops, op);
            lemma_count_push(matched_deltas(ops), op.timing->Both_delta, drift_threshold_s);
        }
        let aligned = &result.ops[i];
        if let Op::Match { .. } = aligned.op {
            if let OpTiming::Both { delta, .. } = aligned.timing {
                stats.mid_abs_deltas.push(delta.mid_abs);
                stats.start_signed_deltas.push(delta.start_signed);
                stats.end_signed_deltas.push(delta.end_signed);
                stats.matched_pairs += 1;
                if delta.mid_abs.exceeds(drift_threshold_s) {
                    stats.high_drift_pairs += 1;
                }
            }
        }
    }
    assert(result.ops@.take(result.ops@.len() as int) == result.ops@);
    proof {
        law_drift_is_counted_on_the_fields(
            stats,
            matched_deltas(result.ops@),
            drift_threshold_s,
        );
    }
    stats
}

/// Folding twice does no more than folding once.
pub proof fn law_fold_is_idempotent(s: Seq<char>)
    ensures
        folded(folded(s)) == folded(s),
{
    assert(folded(folded(s)) =~= folded(s));
}

/// A folded text has as many characters as before, no `й` of either case, and
/// is otherwise unchanged.
pub proof fn law_fold_leaves_no_short_i(s: Seq<char>)
    ensures
        folded(s).len() == s.len(),
        !folded(s).contains('й'),
        !folded(s).contains('Й'),
        forall|i: int|
            0 <= i < s.len() && s[i] != 'й' && s[i] != 'Й' ==> #[trigger] folded(s)[i] == s[i],
        !s.contains('й') && !s.contains('Й') ==> folded(s) == s,
{
    if !s.contains('й') && !s.contains('Й') {
        assert forall|i: int| 0 <= i < s.len() implies folded(s)[i] == s[i] by {
            assert(s.contains(s[i]));
        }
        assert(folded(s) =~= s);
    }
}

/// Texts that differ only in `й` and `и` fold to the same text.
pub proof fn law_fold_conflates(a: Seq<char>, b: Seq<char>)
    requires
        a.len() == b.len(),
        forall|i: int|
            0 <= i < a.len() ==> folded_char(#[trigger] a[i]) == folded_char(#[trigger] b[i]),
    ensures
        folded(a) == folded(b),
{
    assert(folded(a) =~= folded(b));
}

/// Folding words apart is folding them together.
pub proof fn law_fold_by_parts(a: Seq<char>, b: Seq<char>)
    ensures
        folded(a + b) == folded(a) + folded(b),
{
    assert(folded(a + b) =~= folded(a) + folded(b));
}

/// One token covers as a list of one what it covers by itself.
pub proof fn law_single_token_range(tok: Token)
    ensures
        tokens_first(seq![tok]) == token_first(tok),
        tokens_last(seq![tok]) == token_last(tok),
{
    assert(seq![tok].drop_last() =~= Seq::empty());
    assert(lowest_first(seq![tok].drop_last()) is None);
    assert(highest_last(seq![tok].drop_last()) is None);
}

/// Whether the words of a token ascend without a gap.
pub open spec fn is_contiguous(tok: Token) -> bool {
    forall|i: int|
        0 <= i < tok.word_indices@.len() ==> #[trigger] tok.word_indices@[i] == token_first(tok)
            + i
}

/// The range of a token whose words ascend without a gap holds its words and
/// no other.
pub proof fn law_token_range_is_exact(tok: Token, word: usize)
    requires
        tok.word_indices@.len() > 0,
        is_contiguous(tok),
    ensures
        tok.word_indices@.contains(word) <==> token_first(tok) <= word < token_last(tok) + 1,
{
    let n = tok.word_indices@.len();
    assert(tok.word_indices@[n - 1] == token_first(tok) + (n - 1));
    if token_first(tok) <= word < token_last(tok) + 1 {
        assert(tok.word_indices@[word - token_first(tok)] == word);
    }
}

/// The range of several tokens holds the words of each of them, if these
/// ascend without a gap.
pub proof fn law_tokens_range_covers(tokens: Seq<Token>, k: int, word: usize)
    requires
        0 <= k < tokens.len(),
        is_contiguous(tokens[k]),
        tokens[k].word_indices@.contains(word),
    ensures
        tokens_first(tokens) <= word < tokens_last(tokens) + 1,
    decreases tokens.len(),
{
    law_token_range_is_exact(tokens[k], word);
    if k < tokens.len() - 1 {
        let init = tokens.drop_last();
        law_tokens_range_covers(init, k, word);
        lemma_some_word(init, k);
    }
}

/// The range of several tokens is no wider than it has to be: if one of them
/// has a word, it begins with the first word of a token and ends with the last
/// word of a token.
pub proof fn law_tokens_range_is_tight(tokens: Seq<Token>)
    requires
        exists|k: int| 0 <= k < tokens.len() && (#[trigger] tokens[k]).word_indices@.len() > 0,
    ensures
        exists|k: int|
            0 <= k < tokens.len() && (#[trigger] tokens[k]).word_indices@.len() > 0 && token_first(
                tokens[k],
            ) == tokens_first(tokens),
        exists|k: int|
            0 <= k < tokens.len() && (#[trigger] tokens[k]).word_indices@.len() > 0 && token_last(
                tokens[k],
            ) == tokens_last(tokens),
    decreases tokens.len(),
{
    let init = tokens.drop_last();
    let last = tokens.len() - 1;
    assert(tokens[last] == tokens.last());
    if exists|k: int| 0 <= k < init.len() && (#[trigger] init[k]).word_indices@.len() > 0 {
        let some = choose|k: int|
            0 <= k < init.len() && (#[trigger] init[k]).word_indices@.len() > 0;
        lemma_some_word(init, some);
        law_tokens_range_is_tight(init);
        let lo = choose|k: int|
            0 <= k < init.len() && (#[trigger] init[k]).word_indices@.len() > 0 && token_first(
                init[k],
            ) == tokens_first(init);
        let hi = choose|k: int|
            0 <= k < init.len() && (#[trigger] init[k]).word_indices@.len() > 0 && token_last(
                init[k],
            ) == tokens_last(init);
        assert(tokens[lo] == init[lo]);
        assert(tokens[hi] == init[hi]);
    } else {
        let k = choose|k: int|
            0 <= k < tokens.len() && (#[trigger] tokens[k]).word_indices@.len() > 0;
        if k < last {
            assert(init[k] == tokens[k]);
        }
        lemma_no_word(init);
    }
}

proof fn lemma_no_word(tokens: Seq<Token>)
    requires
        forall|k: int| 0 <= k < tokens.len() ==> (#[trigger] tokens[k]).word_indices@.len() == 0,
    ensures
        lowest_first(tokens) is None,
        highest_last(tokens) is None,
    decreases tokens.len(),
{
    if tokens.len() > 0 {
        assert(tokens[tokens.len() - 1].word_indices@.len() == 0);
        let init = tokens.drop_last();
        assert forall|k: int| 0 <= k < init.len() implies (
        #[trigger] init[k]).word_indices@.len() == 0 by {
            assert(init[k] == tokens[k]);
        }
        lemma_no_word(init);
    }
}

proof fn lemma_some_word(tokens: Seq<Token>, k: int)
    requires
        0 <= k < tokens.len(),
        tokens[k].word_indices@.len() > 0,
    ensures
        lowest_first(tokens) is Some,
        highest_last(tokens) is Some,
    decreases tokens.len(),
{
    if k < tokens.len() - 1 {
        lemma_some_word(tokens.drop_last(), k);
    }
}

/// The matches of two stretches of an alignment are those of the first and
/// then those of the second.
pub proof fn law_deltas_by_parts(a: Seq<AlignedOp>, b: Seq<AlignedOp>)
    ensures
        matched_deltas(a + b) == matched_deltas(a) + matched_deltas(b),
{
    Seq::filter_distributes_over_add(a, b, timed_match());
    assert(matched_deltas(a + b) =~= matched_deltas(a) + matched_deltas(b));
}

/// Merging the statistics of two files gives the statistics of both: what a
/// corpus reports is what one file with all their pairs would.
pub proof fn law_merge_is_of_all_pairs(
    m: TimingStats,
    a: TimingStats,
    b: TimingStats,
    in_a: Seq<SpanDelta>,
    in_b: Seq<SpanDelta>,
    threshold: Number,
)
    requires
        a.records(in_a, threshold),
        b.records(in_b, threshold),
        m.is_merge_of(a, b),
    ensures
        m.records(in_a + in_b, threshold),
{
    Seq::filter_distributes_over_add(in_a, in_b, further_than(threshold));
}

/// Merging into fresh statistics, or merging fresh ones in, changes nothing.
pub proof fn law_merge_with_fresh(m: TimingStats, a: TimingStats, fresh: TimingStats)
    requires
        fresh.is_fresh(),
        m.is_merge_of(fresh, a) || m.is_merge_of(a, fresh),
    ensures
        m.matched_pairs == a.matched_pairs,
        m.mid_abs_deltas@ == a.mid_abs_deltas@,
        m.start_signed_deltas@ == a.start_signed_deltas@,
        m.end_signed_deltas@ == a.end_signed_deltas@,
        m.high_drift_pairs == a.high_drift_pairs,
{
    assert(m.mid_abs_deltas@ =~= a.mid_abs_deltas@);
    assert(m.start_signed_deltas@ =~= a.start_signed_deltas@);
    assert(m.end_signed_deltas@ =~= a.end_signed_deltas@);
}

/// It does not matter in which grouping files are merged.
pub proof fn law_merge_is_associative(
    a: TimingStats,
    b: TimingStats,
    c: TimingStats,
    ab: TimingStats,
    bc: TimingStats,
    all: TimingStats,
)
    requires
        ab.is_merge_of(a, b),
        bc.is_merge_of(b, c),
    ensures
        all.is_merge_of(ab, c) <==> all.is_merge_of(a, bc),
{
    assert(ab.mid_abs_deltas@ + c.mid_abs_deltas@ =~= a.mid_abs_deltas@ + bc.mid_abs_deltas@);
    assert(ab.start_signed_deltas@ + c.start_signed_deltas@ =~= a.start_signed_deltas@
        + bc.start_signed_deltas@);
    assert(ab.end_signed_deltas@ + c.end_signed_deltas@ =~= a.end_signed_deltas@
        + bc.end_signed_deltas@);
}

/// No more pairs drift than are matched, and a higher threshold flags no more
/// pairs.
pub proof fn law_threshold_bounds_drift(deltas: Seq<SpanDelta>, low: Number, high: Number)
    requires
        !low.is_nan(),
        low.key() <= high.key(),
    ensures
        count_above(deltas, high) <= count_above(deltas, low) <= deltas.len(),
    decreases deltas.len(),
{
    deltas.lemma_filter_len(further_than(low));
    if deltas.len() > 0 {
        let init = deltas.drop_last();
        law_threshold_bounds_drift(init, low, high);
        assert(init.push(deltas.last()) =~= deltas);
        lemma_count_push(init, deltas.last(), low);
        lemma_count_push(init, deltas.last(), high);
    } else {
        deltas.lemma_filter_len(further_than(high));
    }
}

/// Whether every word is folded already: folding it again changes nothing.
pub open spec fn all_folded(words: Seq<WordView>) -> bool {
    forall|i: int| 0 <= i < words.len() ==> folded((#[trigger] words[i]).text) == words[i].text
}

/// Folding changes `й` to `и` and `Й` to `И`, each in its place, and nothing
/// else.
pub proof fn law_fold_by_characters(s: Seq<char>, i: int)
    requires
        0 <= i < s.len(),
    ensures
        folded(s).len() == s.len(),
        s[i] == 'й' ==> folded(s)[i] == 'и',
        s[i] == 'Й' ==> folded(s)[i] == 'И',
        s[i] != 'й' && s[i] != 'Й' ==> folded(s)[i] == s[i],
{
}

/// What a word stands for is its text and its two times.
pub proof fn law_views_keep_the_fields(words: Seq<Word>, i: int)
    requires
        0 <= i < words.len(),
    ensures
        views(words).len() == words.len(),
        views(words)[i].text == words[i].text@,
        views(words)[i].start == words[i].start,
        views(words)[i].end == words[i].end,
{
}

/// The range of several tokens reaches from the lowest first word to the highest
/// last word: no token starts in front of it or ends behind it. Tokens without a
/// word stand for the first word.
pub proof fn law_tokens_range_bounds(tokens: Seq<Token>, k: int)
    requires
        0 <= k < tokens.len(),
    ensures
        tokens[k].word_indices@.len() > 0 ==> tokens_first(tokens) <= tokens[k].word_indices@[0]
            && tokens_last(tokens) >= tokens[k].word_indices@.last(),
        (forall|j: int| 0 <= j < tokens.len() ==> (#[trigger] tokens[j]).word_indices@.len() == 0)
            ==> tokens_first(tokens) == 0 && tokens_last(tokens) == 0,
    decreases tokens.len(),
{
    if forall|j: int| 0 <= j < tokens.len() ==> (#[trigger] tokens[j]).word_indices@.len() == 0 {
        lemma_no_word(tokens);
    }
    if k < tokens.len() - 1 {
        let init = tokens.drop_last();
        law_tokens_range_bounds(init, k);
        assert(init[k] == tokens[k]);
        if tokens[k].word_indices@.len() > 0 {
            lemma_some_word(init, k);
        }
    }
}

/// No tokens at all stand for the first word.
pub proof fn law_no_tokens()
    ensures
        tokens_first(Seq::<Token>::empty()) == 0,
        tokens_last(Seq::<Token>::empty()) == 0,
{
}

/// The first and the last word of a token are its first and its last index.
pub proof fn law_token_ends(tok: Token)
    ensures
        tok.word_indices@.len() > 0 ==> token_first(tok) == tok.word_indices@[0] && token_last(tok)
            == tok.word_indices@.last(),
        tok.word_indices@.len() == 0 ==> token_first(tok) == 0 && token_last(tok) == 0,
{
}

/// Pairs are counted on what is recorded: the number of recorded midpoint
/// distances is the number of matched pairs, and those of them that lie above
/// the threshold are the ones that drift.
pub proof fn law_drift_is_counted_on_the_fields(
    stats: TimingStats,
    deltas: Seq<SpanDelta>,
    threshold: Number,
)
    requires
        stats.records(deltas, threshold),
    ensures
        stats.matched_pairs == stats.mid_abs_deltas@.len(),
        stats.matched_pairs == stats.start_signed_deltas@.len(),
        stats.matched_pairs == stats.end_signed_deltas@.len(),
        stats.high_drift_pairs == stats.mid_abs_deltas@.filter(
            |x: Number| x.is_above(threshold),
        ).len(),
{
    lemma_count_on_mids(deltas, threshold);
    let mids = deltas.map_values(|d: SpanDelta| d.mid_abs);
    assert(stats.mid_abs_deltas@ =~= mids);
}

proof fn lemma_count_on_mids(deltas: Seq<SpanDelta>, threshold: Number)
    ensures
        deltas.map_values(|d: SpanDelta| d.mid_abs).filter(|x: Number| x.is_above(threshold)).len()
            == count_above(deltas, threshold),
    decreases deltas.len(),
{
    let pred = |x: Number| x.is_above(threshold);
    let mids = deltas.map_values(|d: SpanDelta| d.mid_abs);
    if deltas.len() == 0 {
        mids.lemma_filter_len(pred);
        deltas.lemma_filter_len(further_than(threshold));
    } else {
        let init = deltas.drop_last();
        let d = deltas.last();
        lemma_count_on_mids(init, threshold);
        assert(init.push(d) =~= deltas);
        lemma_count_push(init, d, threshold);
        let before = init.map_values(|d: SpanDelta| d.mid_abs);
        assert(mids =~= before.push(d.mid_abs));
        before.lemma_filter_push(d.mid_abs, pred);
    }
}

/// Statistics grow operation by operation: a match that is timed on both sides
/// adds its three distances at the end and counts as a pair, and as a drifting
/// one if its midpoints lie further apart than the threshold; any other
/// operation adds nothing; and without operations there is nothing.
pub proof fn law_stats_by_operations(
    before: TimingStats,
    after: TimingStats,
    ops: Seq<AlignedOp>,
    op: AlignedOp,
    threshold: Number,
)
    requires
        before.records(matched_deltas(ops), threshold),
        after.records(matched_deltas(ops.push(op)), threshold),
    ensures
        ops.len() == 0 ==> before.matched_pairs == 0 && before.high_drift_pairs == 0
            && before.mid_abs_deltas@.len() == 0,
        op.op is Match && op.timing is Both ==> ({
            let delta = op.timing->Both_delta;
            &&& after.matched_pairs == before.matched_pairs + 1
            &&& after.mid_abs_deltas@ == before.mid_abs_deltas@.push(delta.mid_abs)
            &&& after.start_signed_deltas@ == before.start_signed_deltas@.push(delta.start_signed)
            &&& after.end_signed_deltas@ == before.end_signed_deltas@.push(delta.end_signed)
            &&& after.high_drift_pairs == before.high_drift_pairs + (if delta.mid_abs.is_above(
                threshold,
            ) {
                1int
            } else {
                0int
            })
        }),
        !(op.op is Match) || !(op.timing is Both) ==> {
            &&& after.matched_pairs == before.matched_pairs
            &&& after.mid_abs_deltas@ == before.mid_abs_deltas@
            &&& after.start_signed_deltas@ == before.start_signed_deltas@
            &&& after.end_signed_deltas@ == before.end_signed_deltas@
            &&& after.high_drift_pairs == before.high_drift_pairs
        },
{
    lemma_deltas_push(ops, op);
    lemma_count_push(matched_deltas(ops), op.timing->Both_delta, threshold);
    if ops.len() == 0 {
        ops.lemma_filter_len(timed_match());
        matched_deltas(ops).lemma_filter_len(further_than(threshold));
    }
}

} // verus!
