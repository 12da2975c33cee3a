//! Human-readable terminal output: the panel of one file and the summary of a
//! corpus.
//!
//! The panels use ANSI escapes and Unicode box-drawing characters. Each
//! function gives the text; writing it out is left to the caller. A decimal
//! fraction comes in as text, already rounded to the places that the layout
//! shows; here it is only put in its field.
use crate::bench;
use crate::bench::{CorpusTotals, FileScore};
use crate::number::Number;
use crate::order;
use crate::text;
use crate::wer;
use crate::wer::{
    AlignedOp, AlignmentResult, Op, OpTiming, TimingStats, Token, Word, token_word_range,
    tokens_word_range,
};
use std::ops::Range;
use vstd::prelude::*;

verus! {

pub const RESET: &'static str = "\x1b[0m";

pub const BOLD: &'static str = "\x1b[1m";

pub const DIM: &'static str = "\x1b[2m";

pub const RED: &'static str = "\x1b[31m";

pub const GREEN: &'static str = "\x1b[32m";

pub const YELLOW: &'static str = "\x1b[33m";

pub const CYAN: &'static str = "\x1b[36m";

/// The width of a panel, in characters.
pub const BOX_WIDTH: usize = 78;

/// Which side of the alignment is being rendered.
#[derive(Clone, Copy, Debug, PartialEq, Eq, Structural)]
pub enum Side {
    Ref,
    Hyp,
}

/// The texts of `words`, in order.
pub open spec fn texts(words: Seq<Word>) -> Seq<Seq<char>> {
    words.map_values(|w: Word| w.text@)
}

/// The texts of the words from `start` up to `end`, with a space between each
/// two.
pub open spec fn words_text(words: Seq<Word>, start: int, end: int) -> Seq<char> {
    text::joined(texts(words.subrange(start, end)), " "@)
}

/// The texts of the words in `range`, with a space between each two.
pub fn join_text(words: &[Word], range: Range<usize>) -> (r: String)
    requires
        range.start <= range.end <= words@.len(),
    ensures
        r@ == words_text(words@, range.start as int, range.end as int),
{
    let mut r = String::new();
    let ghost from = range.start as int;
    for i in range.start..range.end
        invariant
            range.start <= range.end <= words@.len(),
            from == range.start,
            r@ == words_text(words@, from, i as int),
    {
        proof {
            let part = texts(words@.subrange(from, i + 1));
            assert(part.drop_last() == texts(words@.subrange(from, i as int)));
            assert(part.last() == words@[i as int].text@);
            assert(i == from ==> part =~= seq![words@[i as int].text@]);
            assert(Seq::<char>::empty() + words@[i as int].text@ == words@[i as int].text@);
        }
        if i > range.start {
            r = r.concat(" ");
        }
        r = r.concat(words[i].text.as_str());
    }
    r
}

/// Whether the words from the first of `tokens` to their last are words of
/// `words`.
pub open spec fn tokens_lie_in(tokens: Seq<Token>, words: Seq<Word>) -> bool {
    wer::tokens_first(tokens) <= wer::tokens_last(tokens) + 1 <= words.len()
}

/// Whether the words of `token` are words of `words`.
pub open spec fn token_lies_in(token: Token, words: Seq<Word>) -> bool {
    wer::token_first(token) <= wer::token_last(token) + 1 <= words.len()
}

/// The words that the tokens in `range` cover.
pub open spec fn tokens_text(
    tokens: Seq<Token>,
    range: Range<usize>,
    words: Seq<Word>,
) -> Seq<char> {
    let covered = tokens.subrange(range.start as int, range.end as int);
    words_text(
        words,
        wer::tokens_first(covered) as int,
        wer::tokens_last(covered) as int + 1,
    )
}

/// The words that one token covers.
pub open spec fn token_text(tokens: Seq<Token>, idx: usize, words: Seq<Word>) -> Seq<char> {
    let token = tokens[idx as int];
    words_text(words, wer::token_first(token) as int, wer::token_last(token) as int + 1)
}

/// Whether `range` names tokens, and these name words.
pub open spec fn range_fits(tokens: Seq<Token>, range: Range<usize>, words: Seq<Word>) -> bool {
    range.start <= range.end <= tokens.len() && tokens_lie_in(
        tokens.subrange(range.start as int, range.end as int),
        words,
    )
}

/// Whether `idx` names a token, and that names words.
pub open spec fn index_fits(tokens: Seq<Token>, idx: usize, words: Seq<Word>) -> bool {
    idx < tokens.len() && token_lies_in(tokens[idx as int], words)
}

fn text_of_tokens(tokens: &Vec<Token>, range: &Range<usize>, words: &[Word]) -> (r: String)
    requires
        range_fits(tokens@, *range, words@),
    ensures
        r@ == tokens_text(tokens@, *range, words@),
{
    let covered = vstd::slice::slice_subrange(tokens.as_slice(), range.start, range.end);
    assert(words.len() == words@.len());
    join_text(words, tokens_word_range(covered))
}

fn text_of_token(tokens: &Vec<Token>, idx: usize, words: &[Word]) -> (r: String)
    requires
        index_fits(tokens@, idx, words@),
    ensures
        r@ == token_text(tokens@, idx, words@),
{
    assert(words.len() == words@.len());
    join_text(words, token_word_range(&tokens[idx]))
}

/// Whether the operation names words of the reference, where it has a
/// reference side.
pub open spec fn ref_fits(op: Op, result: AlignmentResult, reference: Seq<Word>) -> bool {
    match op {
        Op::Match { ref_range, .. } => range_fits(result.ref_tokens@, ref_range, reference),
        Op::Sub { ref_idx, .. } => index_fits(result.ref_tokens@, ref_idx, reference),
        Op::Del { ref_idx } => index_fits(result.ref_tokens@, ref_idx, reference),
        Op::Ins { .. } => true,
    }
}

/// Whether the operation names words of the hypothesis, where it has a
/// hypothesis side.
pub open spec fn hyp_fits(op: Op, result: AlignmentResult, hypothesis: Seq<Word>) -> bool {
    match op {
        Op::Match { hyp_range, .. } => range_fits(result.hyp_tokens@, hyp_range, hypothesis),
        Op::Sub { hyp_idx, .. } => index_fits(result.hyp_tokens@, hyp_idx, hypothesis),
        Op::Del { .. } => true,
        Op::Ins { hyp_idx } => index_fits(result.hyp_tokens@, hyp_idx, hypothesis),
    }
}

/// Whether every operation of `result` names words of the side `side`.
pub open spec fn side_fits(
    side: Side,
    result: AlignmentResult,
    reference: Seq<Word>,
    hypothesis: Seq<Word>,
) -> bool {
    forall|i: int|
        0 <= i < result.ops@.len() ==> match side {
            Side::Ref => ref_fits((#[trigger] result.ops@[i]).op, result, reference),
            Side::Hyp => hyp_fits(result.ops@[i].op, result, hypothesis),
        }
}

/// What one operation shows on one side: a match as it is, a substitution,
/// deletion or insertion in its color, and a dash for the side that lacks it.
pub open spec fn cell_text(
    side: Side,
    op: Op,
    result: AlignmentResult,
    reference: Seq<Word>,
    hypothesis: Seq<Word>,
) -> Seq<char> {
    match side {
        Side::Ref => match op {
            Op::Match { ref_range, .. } => tokens_text(result.ref_tokens@, ref_range, reference)
                + " "@,
            Op::Sub { ref_idx, .. } => RED@ + token_text(result.ref_tokens@, ref_idx, reference)
                + RESET@ + " "@,
            Op::Del { ref_idx } => BOLD@ + RED@ + token_text(
                result.ref_tokens@,
                ref_idx,
                reference,
            ) + RESET@ + " "@,
            Op::Ins { .. } => DIM@ + "—"@ + RESET@ + " "@,
        },
        Side::Hyp => match op {
            Op::Match { hyp_range, .. } => tokens_text(result.hyp_tokens@, hyp_range, hypothesis)
                + " "@,
            Op::Sub { hyp_idx, .. } => YELLOW@ + token_text(
                result.hyp_tokens@,
                hyp_idx,
                hypothesis,
            ) + RESET@ + " "@,
            Op::Del { .. } => DIM@ + "—"@ + RESET@ + " "@,
            Op::Ins { hyp_idx } => GREEN@ + token_text(result.hyp_tokens@, hyp_idx, hypothesis)
                + RESET@ + " "@,
        },
    }
}

/// One side of the operations `ops`, as a line.
pub open spec fn side_text(
    side: Side,
    ops: Seq<AlignedOp>,
    result: AlignmentResult,
    reference: Seq<Word>,
    hypothesis: Seq<Word>,
) -> Seq<char>
    decreases ops.len(),
{
    if ops.len() == 0 {
        Seq::empty()
    } else {
        side_text(side, ops.drop_last(), result, reference, hypothesis) + cell_text(
            side,
            ops.last().op,
            result,
            reference,
            hypothesis,
        )
    }
}

fn dash_cell() -> (r: String)
    ensures
        r@ == DIM@ + "—"@ + RESET@ + " "@,
{
    DIM.to_owned().concat("—").concat(RESET).concat(" ")
}

fn colored_cell(color: &str, body: &str) -> (r: String)
    ensures
        r@ == color@ + body@ + RESET@ + " "@,
{
    color.to_owned().concat(body).concat(RESET).concat(" ")
}

fn ref_cell(op: &Op, result: &AlignmentResult, reference: &[Word]) -> (r: String)
    requires
        ref_fits(*op, *result, reference@),
    ensures
        forall|h: Seq<Word>| r@ == #[trigger] cell_text(Side::Ref, *op, *result, reference@, h),
{
    match op {
        Op::Match { ref_range, .. } => text_of_tokens(
            &result.ref_tokens,
            ref_range,
            reference,
        ).concat(" "),
        Op::Sub { ref_idx, .. } => colored_cell(
            RED,
            text_of_token(&result.ref_tokens, *ref_idx, reference).as_str(),
        ),
        Op::Del { ref_idx } => BOLD.to_owned().concat(RED).concat(
            text_of_token(&result.ref_tokens, *ref_idx, reference).as_str(),
        ).concat(RESET).concat(" "),
        Op::Ins { .. } => dash_cell(),
    }
}

fn hyp_cell(op: &Op, result: &AlignmentResult, hypothesis: &[Word]) -> (r: String)
    requires
        hyp_fits(*op, *result, hypothesis@),
    ensures
        forall|w: Seq<Word>| r@ == #[trigger] cell_text(Side::Hyp, *op, *result, w, hypothesis@),
{
    match op {
        Op::Match { hyp_range, .. } => text_of_tokens(
            &result.hyp_tokens,
            hyp_range,
            hypothesis,
        ).concat(" "),
        Op::Sub { hyp_idx, .. } => colored_cell(
            YELLOW,
            text_of_token(&result.hyp_tokens, *hyp_idx, hypothesis).as_str(),
        ),
        Op::Del { .. } => dash_cell(),
        Op::Ins { hyp_idx } => colored_cell(
            GREEN,
            text_of_token(&result.hyp_tokens, *hyp_idx, hypothesis).as_str(),
        ),
    }
}

/// Render one side of the alignment as a single colored line.
pub fn fmt_words_colored(
    side: Side,
    result: &AlignmentResult,
    reference: &[Word],
    hypothesis: &[Word],
) -> (r: String)
    requires
        side_fits(side, *result, reference@, hypothesis@),
    ensures
        r@ == side_text(side, result.ops@, *result, reference@, hypothesis@),
{
    let mut out = String::new();
    for i in 0..result.ops.len()
        invariant
            side_fits(side, *result, reference@, hypothesis@),
            out@ == side_text(
                side,
                result.ops@.take(i as int),
                *result,
                reference@,
                hypothesis@,
            ),
    {
        assert(result.ops@.take(i + 1).drop_last() == result.ops@.take(i as int));
        let op = &result.ops[i].op;
        let cell = match side {
            Side::Ref => ref_cell(op, result, reference),
            Side::Hyp => hyp_cell(op, result, hypothesis),
        };
        out = out.concat(cell.as_str());
    }
    assert(result.ops@.take(result.ops@.len() as int) == result.ops@);
    out
}

/// The place of the quantile `num / den` among `n` ranked items: the whole
/// number nearest to `(n - 1) * num / den`, of two equally near ones the
/// greater. A quantile above one counts as one.
pub open spec fn nearest_rank(n: nat, num: nat, den: nat) -> int {
    if num >= den {
        n - 1
    } else {
        (2 * ((n - 1) * num) + den) / (2 * den as int)
    }
}

/// The item at the quantile `num / den` of a ranked sequence, or zero if it is
/// empty.
pub open spec fn percentile_of(ranked: Seq<Number>, num: nat, den: nat) -> Number {
    if ranked.len() == 0 {
        Number::spec_zero()
    } else {
        ranked[nearest_rank(ranked.len(), num, den)]
    }
}

/// A rank lies among the items.
pub proof fn lemma_rank_bounds(n: nat, num: nat, den: nat)
    requires
        n > 0,
        den > 0,
    ensures
        0 <= nearest_rank(n, num, den) < n,
{
    if num < den {
        let m = n - 1;
        assert(0 <= m * num <= m * den) by (nonlinear_arith)
            requires
                0 <= m,
                0 <= num < den,
        ;
        let top = 2 * (m * num) + den;
        assert(0 <= top / (2 * den as int) <= m) by (nonlinear_arith)
            requires
                0 <= top <= 2 * (m * den) + den,
                den > 0,
                m >= 0,
        ;
    }
}

/// Nearest-rank percentile of a slice that is ranked from the lowest up; the
/// quantile is `num / den`.
pub fn percentile(sorted_asc: &[Number], num: u32, den: u32) -> (r: Number)
    requires
        den > 0,
    ensures
        r == percentile_of(sorted_asc@, num as nat, den as nat),
{
    if sorted_asc.len() == 0 {
        return Number::zero();
    }
    let last: u128 = (sorted_asc.len() - 1) as u128;
    proof {
        lemma_rank_bounds(sorted_asc@.len(), num as nat, den as nat);
        assert(0 <= last * num <= u64::MAX * u32::MAX) by (nonlinear_arith)
            requires
                0 <= last <= u64::MAX,
                0 <= num <= u32::MAX,
        ;
    }
    let rank: u128 = if num >= den {
        last
    } else {
        (2 * (last * num as u128) + den as u128) / (2 * den as u128)
    };
    sorted_asc[rank as usize]
}

/// The left border of a panel.
pub open spec fn bar() -> Seq<char> {
    CYAN@ + "│"@ + RESET@
}

fn bar_of() -> (r: String)
    ensures
        r@ == bar(),
{
    CYAN.to_owned().concat("│").concat(RESET)
}

/// What fills the top border behind a title of `len` characters.
pub open spec fn top_fill(len: nat) -> nat {
    if len + 4 < BOX_WIDTH {
        (BOX_WIDTH - (len + 4)) as nat
    } else {
        0
    }
}

/// The top border with its title.
pub open spec fn box_top_text(title: Seq<char>) -> Seq<char> {
    "\n"@ + CYAN@ + "┌─ "@ + title + " "@ + text::fill('─', top_fill(title.len())) + RESET@
        + "\n"@
}

/// The line between two parts of a panel.
pub open spec fn box_mid_text() -> Seq<char> {
    CYAN@ + "├"@ + text::fill('─', BOX_WIDTH as nat) + RESET@ + "\n"@
}

/// The bottom border and an empty line.
pub open spec fn box_bottom_text() -> Seq<char> {
    CYAN@ + "└"@ + text::fill('─', BOX_WIDTH as nat) + RESET@ + "\n\n"@
}

fn box_top(title: &str) -> (r: String)
    ensures
        r@ == box_top_text(title@),
{
    let len: usize = title.unicode_len();
    let fill: usize = if len < BOX_WIDTH - 4 {
        BOX_WIDTH - 4 - len
    } else {
        0
    };
    "\n".to_owned().concat(CYAN).concat("┌─ ").concat(title).concat(" ").concat(
        text::filled('─', fill).as_str(),
    ).concat(RESET).concat("\n")
}

fn box_mid() -> (r: String)
    ensures
        r@ == box_mid_text(),
{
    CYAN.to_owned().concat("├").concat(text::filled('─', BOX_WIDTH).as_str()).concat(
        RESET,
    ).concat("\n")
}

fn box_bottom() -> (r: String)
    ensures
        r@ == box_bottom_text(),
{
    CYAN.to_owned().concat("└").concat(text::filled('─', BOX_WIDTH).as_str()).concat(
        RESET,
    ).concat("\n\n")
}

/// The title of a panel: what was scored and, if it is a row of the dataset,
/// its index.
pub open spec fn title_text(label: Seq<char>, idx: Option<i32>) -> Seq<char> {
    match idx {
        Some(i) => label + " (idx="@ + text::signed(i as int) + ")"@,
        None => label,
    }
}

fn title_of(label: &str, idx: Option<i32>) -> (r: String)
    ensures
        r@ == title_text(label@, idx),
{
    match idx {
        Some(i) => label.to_owned().concat(" (idx=").concat(text::signed_of(i).as_str()).concat(
            ")",
        ),
        None => label.to_owned(),
    }
}

/// The line with the error rate (a percentage to two places) and the counts
/// behind it.
pub open spec fn wer_line_text(wer: Seq<char>, result: AlignmentResult) -> Seq<char> {
    bar() + " WER:       "@ + text::right_aligned(wer, 6) + " %   "@ + bar() + " S="@
        + text::decimal(result.substitutions as nat) + " D="@ + text::decimal(
        result.deletions as nat,
    ) + " I="@ + text::decimal(result.insertions as nat) + "  N="@ + text::decimal(
        result.ref_token_count as nat,
    ) + "\n"@
}

fn wer_line(wer: &str, result: &AlignmentResult) -> (r: String)
    ensures
        r@ == wer_line_text(wer@, *result),
{
    bar_of().concat(" WER:       ").concat(text::align_right(wer, 6).as_str()).concat(
        " %   ",
    ).concat(bar_of().as_str()).concat(" S=").concat(
        text::decimal_of(result.substitutions as u64).as_str(),
    ).concat(" D=").concat(text::decimal_of(result.deletions as u64).as_str()).concat(
        " I=",
    ).concat(text::decimal_of(result.insertions as u64).as_str()).concat("  N=").concat(
        text::decimal_of(result.ref_token_count as u64).as_str(),
    ).concat("\n")
}

/// The two sides of the alignment, a line each.
pub open spec fn ref_hyp_text(
    result: AlignmentResult,
    reference: Seq<Word>,
    hypothesis: Seq<Word>,
) -> Seq<char> {
    bar() + " "@ + BOLD@ + "REF"@ + RESET@ + ": "@ + side_text(
        Side::Ref,
        result.ops@,
        result,
        reference,
        hypothesis,
    ) + "\n"@ + bar() + " "@ + BOLD@ + "HYP"@ + RESET@ + ": "@ + side_text(
        Side::Hyp,
        result.ops@,
        result,
        reference,
        hypothesis,
    ) + "\n"@
}

/// Whether every operation of `result` names words of both sides.
pub open spec fn both_fit(
    result: AlignmentResult,
    reference: Seq<Word>,
    hypothesis: Seq<Word>,
) -> bool {
    side_fits(Side::Ref, result, reference, hypothesis) && side_fits(
        Side::Hyp,
        result,
        reference,
        hypothesis,
    )
}

fn ref_hyp(result: &AlignmentResult, reference: &[Word], hypothesis: &[Word]) -> (r: String)
    requires
        both_fit(*result, reference@, hypothesis@),
    ensures
        r@ == ref_hyp_text(*result, reference@, hypothesis@),
{
    bar_of().concat(" ").concat(BOLD).concat("REF").concat(RESET).concat(": ").concat(
        fmt_words_colored(Side::Ref, result, reference, hypothesis).as_str(),
    ).concat("\n").concat(bar_of().as_str()).concat(" ").concat(BOLD).concat("HYP").concat(
        RESET,
    ).concat(": ").concat(fmt_words_colored(Side::Hyp, result, reference, hypothesis).as_str()).concat(
        "\n",
    )
}

/// A stretch of time, its two ends in seconds to two places.
#[derive(Debug)]
pub struct SpanText {
    pub start: String,
    pub end: String,
}

/// The times of an operation, in seconds to two places: what it covers on each
/// side that it has, and for a match the distance of the midpoints.
#[derive(Debug)]
pub struct RowTimes {
    pub ref_span: SpanText,
    pub hyp_span: SpanText,
    pub mid: String,
}

/// A stretch of time behind its label.
pub open spec fn span_text(label: Seq<char>, s: SpanText) -> Seq<char> {
    label + "["@ + text::right_aligned(s.start@, 5) + "-"@ + text::right_aligned(s.end@, 5)
        + "]"@
}

/// A stretch of time behind its label.
pub fn fmt_span(label: &str, s: &SpanText) -> (r: String)
    ensures
        r@ == span_text(label@, *s),
{
    label.to_owned().concat("[").concat(text::align_right(s.start.as_str(), 5).as_str()).concat(
        "-",
    ).concat(text::align_right(s.end.as_str(), 5).as_str()).concat("]")
}

/// Whether an operation is timed on each side that it has.
pub open spec fn is_timed(op: AlignedOp) -> bool {
    match op.op {
        Op::Match { .. } => op.timing is Both,
        Op::Sub { .. } => op.timing is Both,
        Op::Del { .. } => op.timing is Ref || op.timing is Both,
        Op::Ins { .. } => op.timing is Hyp || op.timing is Both,
    }
}

/// Whether the table flags an operation: a match whose midpoints lie further
/// apart than the threshold.
pub open spec fn is_flagged(op: AlignedOp, threshold: Number) -> bool {
    wer::is_timed_match(op) && op.timing->Both_delta.mid_abs.is_above(threshold)
}

/// The mark in front of a match.
pub open spec fn flag_text(op: AlignedOp, threshold: Number) -> Seq<char> {
    if is_flagged(op, threshold) {
        YELLOW@ + "⚠"@ + RESET@ + " "@
    } else {
        "  "@
    }
}

/// One operation in the alignment table, with its times.
pub open spec fn row_text(
    op: AlignedOp,
    times: RowTimes,
    result: AlignmentResult,
    reference: Seq<Word>,
    hypothesis: Seq<Word>,
    threshold: Number,
) -> Seq<char> {
    match op.op {
        Op::Match { ref_range, .. } => bar() + "   "@ + flag_text(op, threshold) + GREEN@ + "OK "@
            + RESET@ + "  "@ + text::left_aligned(
            tokens_text(result.ref_tokens@, ref_range, reference),
            24,
        ) + "  "@ + span_text("ref"@, times.ref_span) + "  "@ + span_text("hyp"@, times.hyp_span)
            + "  Δmid="@ + times.mid@ + "s\n"@,
        Op::Sub { ref_idx, hyp_idx } => bar() + "     "@ + RED@ + "SUB"@ + RESET@ + " "@
            + text::left_aligned(token_text(result.ref_tokens@, ref_idx, reference), 24)
            + "  →  "@ + text::left_aligned(
            token_text(result.hyp_tokens@, hyp_idx, hypothesis),
            24,
        ) + "  "@ + span_text("ref"@, times.ref_span) + "  "@ + span_text("hyp"@, times.hyp_span)
            + "\n"@,
        Op::Del { ref_idx } => bar() + "     "@ + BOLD@ + RED@ + "DEL"@ + RESET@ + " "@
            + text::left_aligned(token_text(result.ref_tokens@, ref_idx, reference), 24)
            + "  →  "@ + DIM@ + "<missing>"@ + RESET@ + "                  "@ + span_text(
            "ref"@,
            times.ref_span,
        ) + "\n"@,
        Op::Ins { hyp_idx } => bar() + "     "@ + GREEN@ + "INS"@ + RESET@ + " "@ + DIM@
            + "<missing>"@ + RESET@ + "                  →  "@ + text::left_aligned(
            token_text(result.hyp_tokens@, hyp_idx, hypothesis),
            24,
        ) + "  "@ + span_text("hyp"@, times.hyp_span) + "\n"@,
    }
}

/// One operation in the alignment table, without times.
pub open spec fn plain_row_text(
    op: Op,
    result: AlignmentResult,
    reference: Seq<Word>,
    hypothesis: Seq<Word>,
) -> Seq<char> {
    match op {
        Op::Match { ref_range, .. } => bar() + "     "@ + GREEN@ + "OK "@ + RESET@ + "  "@
            + tokens_text(result.ref_tokens@, ref_range, reference) + "\n"@,
        Op::Sub { ref_idx, hyp_idx } => bar() + "     "@ + RED@ + "SUB"@ + RESET@ + " "@
            + text::left_aligned(token_text(result.ref_tokens@, ref_idx, reference), 24)
            + "  →  "@ + token_text(result.hyp_tokens@, hyp_idx, hypothesis) + "\n"@,
        Op::Del { ref_idx } => bar() + "     "@ + BOLD@ + RED@ + "DEL"@ + RESET@ + " "@
            + text::left_aligned(token_text(result.ref_tokens@, ref_idx, reference), 24)
            + "  →  "@ + DIM@ + "<missing>"@ + RESET@ + "\n"@,
        Op::Ins { hyp_idx } => bar() + "     "@ + GREEN@ + "INS"@ + RESET@ + " "@ + DIM@
            + "<missing>"@ + RESET@ + "                  →  "@ + token_text(
            result.hyp_tokens@,
            hyp_idx,
            hypothesis,
        ) + "\n"@,
    }
}

/// Whether the words that the table shows of an operation are there: of a
/// match it shows the reference side.
pub open spec fn row_fits(
    op: Op,
    result: AlignmentResult,
    reference: Seq<Word>,
    hypothesis: Seq<Word>,
) -> bool {
    ref_fits(op, result, reference) && (op is Sub || op is Ins ==> hyp_fits(
        op,
        result,
        hypothesis,
    ))
}

/// One operation in the alignment table, with its times.
pub fn alignment_row(
    op: &AlignedOp,
    times: &RowTimes,
    result: &AlignmentResult,
    reference: &[Word],
    hypothesis: &[Word],
    drift_threshold_s: Number,
) -> (r: String)
    requires
        row_fits(op.op, *result, reference@, hypothesis@),
        is_timed(*op),
    ensures
        r@ == row_text(*op, *times, *result, reference@, hypothesis@, drift_threshold_s),
{
    match &op.op {
        Op::Match { ref_range, .. } => {
            let far = match op.timing {
                OpTiming::Both { delta, .. } => delta.mid_abs.exceeds(drift_threshold_s),
                _ => false,
            };
            let flag = if far {
                YELLOW.to_owned().concat("⚠").concat(RESET).concat(" ")
            } else {
                "  ".to_owned()
            };
            let words = text_of_tokens(&result.ref_tokens, ref_range, reference);
            bar_of().concat("   ").concat(flag.as_str()).concat(GREEN).concat("OK ").concat(
                RESET,
            ).concat("  ").concat(text::align_left(words.as_str(), 24).as_str()).concat(
                "  ",
            ).concat(fmt_span("ref", &times.ref_span).as_str()).concat("  ").concat(
                fmt_span("hyp", &times.hyp_span).as_str(),
            ).concat("  Δmid=").concat(times.mid.as_str()).concat("s\n")
        },
        Op::Sub { ref_idx, hyp_idx } => {
            let ref_words = text_of_token(&result.ref_tokens, *ref_idx, reference);
            let hyp_words = text_of_token(&result.hyp_tokens, *hyp_idx, hypothesis);
            bar_of().concat("     ").concat(RED).concat("SUB").concat(RESET).concat(" ").concat(
                text::align_left(ref_words.as_str(), 24).as_str(),
            ).concat("  →  ").concat(text::align_left(hyp_words.as_str(), 24).as_str()).concat(
                "  ",
            ).concat(fmt_span("ref", &times.ref_span).as_str()).concat("  ").concat(
                fmt_span("hyp", &times.hyp_span).as_str(),
            ).concat("\n")
        },
        Op::Del { ref_idx } => {
            let ref_words = text_of_token(&result.ref_tokens, *ref_idx, reference);
            bar_of().concat("     ").concat(BOLD).concat(RED).concat("DEL").concat(RESET).concat(
                " ",
            ).concat(text::align_left(ref_words.as_str(), 24).as_str()).concat("  →  ").concat(
                DIM,
            ).concat("<missing>").concat(RESET).concat("                  ").concat(
                fmt_span("ref", &times.ref_span).as_str(),
            ).concat("\n")
        },
        Op::Ins { hyp_idx } => {
            let hyp_words = text_of_token(&result.hyp_tokens, *hyp_idx, hypothesis);
            bar_of().concat("     ").concat(GREEN).concat("INS").concat(RESET).concat(" ").concat(
                DIM,
            ).concat("<missing>").concat(RESET).concat("                  →  ").concat(
                text::align_left(hyp_words.as_str(), 24).as_str(),
            ).concat("  ").concat(fmt_span("hyp", &times.hyp_span).as_str()).concat("\n")
        },
    }
}

/// One operation in the alignment table, without times.
pub fn alignment_row_no_timing(
    op: &Op,
    result: &AlignmentResult,
    reference: &[Word],
    hypothesis: &[Word],
) -> (r: String)
    requires
        row_fits(*op, *result, reference@, hypothesis@),
    ensures
        r@ == plain_row_text(*op, *result, reference@, hypothesis@),
{
    match op {
        Op::Match { ref_range, .. } => {
            let words = text_of_tokens(&result.ref_tokens, ref_range, reference);
            bar_of().concat("     ").concat(GREEN).concat("OK ").concat(RESET).concat("  ").concat(
                words.as_str(),
            ).concat("\n")
        },
        Op::Sub { ref_idx, hyp_idx } => {
            let ref_words = text_of_token(&result.ref_tokens, *ref_idx, reference);
            let hyp_words = text_of_token(&result.hyp_tokens, *hyp_idx, hypothesis);
            bar_of().concat("     ").concat(RED).concat("SUB").concat(RESET).concat(" ").concat(
                text::align_left(ref_words.as_str(), 24).as_str(),
            ).concat("  →  ").concat(hyp_words.as_str()).concat("\n")
        },
        Op::Del { ref_idx } => {
            let ref_words = text_of_token(&result.ref_tokens, *ref_idx, reference);
            bar_of().concat("     ").concat(BOLD).concat(RED).concat("DEL").concat(RESET).concat(
                " ",
            ).concat(text::align_left(ref_words.as_str(), 24).as_str()).concat("  →  ").concat(
                DIM,
            ).concat("<missing>").concat(RESET).concat("\n")
        },
        Op::Ins { hyp_idx } => {
            let hyp_words = text_of_token(&result.hyp_tokens, *hyp_idx, hypothesis);
            bar_of().concat("     ").concat(GREEN).concat("INS").concat(RESET).concat(" ").concat(
                DIM,
            ).concat("<missing>").concat(RESET).concat("                  →  ").concat(
                hyp_words.as_str(),
            ).concat("\n")
        },
    }
}

/// The numbers of a panel: the times in seconds to two places, the ratio of
/// the two to three, the error rate in percent and the distances of the
/// midpoints to two, and the threshold to one.
#[derive(Debug)]
pub struct PanelNumbers {
    pub duration: String,
    pub inference: String,
    pub rtf: String,
    pub wer: String,
    pub mean: String,
    pub median: String,
    pub p95: String,
    pub threshold: String,
}

/// The alignment table of `ops`, with times.
pub open spec fn rows_text(
    ops: Seq<AlignedOp>,
    times: Seq<RowTimes>,
    result: AlignmentResult,
    reference: Seq<Word>,
    hypothesis: Seq<Word>,
    threshold: Number,
) -> Seq<char>
    decreases ops.len(),
{
    if ops.len() == 0 {
        Seq::empty()
    } else {
        rows_text(
            ops.drop_last(),
            times,
            result,
            reference,
            hypothesis,
            threshold,
        ) + row_text(
            ops.last(),
            times[ops.len() - 1],
            result,
            reference,
            hypothesis,
            threshold,
        )
    }
}

/// The alignment table of `ops`, without times.
pub open spec fn plain_rows_text(
    ops: Seq<AlignedOp>,
    result: AlignmentResult,
    reference: Seq<Word>,
    hypothesis: Seq<Word>,
) -> Seq<char>
    decreases ops.len(),
{
    if ops.len() == 0 {
        Seq::empty()
    } else {
        plain_rows_text(ops.drop_last(), result, reference, hypothesis) + plain_row_text(
            ops.last().op,
            result,
            reference,
            hypothesis,
        )
    }
}

fn alignment_rows(
    times: &Vec<RowTimes>,
    result: &AlignmentResult,
    reference: &[Word],
    hypothesis: &[Word],
    drift_threshold_s: Number,
) -> (r: String)
    requires
        both_fit(*result, reference@, hypothesis@),
        forall|i: int| 0 <= i < result.ops@.len() ==> is_timed(#[trigger] result.ops@[i]),
        times@.len() == result.ops@.len(),
    ensures
        r@ == rows_text(
            result.ops@,
            times@,
            *result,
            reference@,
            hypothesis@,
            drift_threshold_s,
        ),
{
    let mut out = String::new();
    for i in 0..result.ops.len()
        invariant
            both_fit(*result, reference@, hypothesis@),
            forall|i: int| 0 <= i < result.ops@.len() ==> is_timed(#[trigger] result.ops@[i]),
            times@.len() == result.ops@.len(),
            out@ == rows_text(
                result.ops@.take(i as int),
                times@,
                *result,
                reference@,
                hypothesis@,
                drift_threshold_s,
            ),
    {
        assert(result.ops@.take(i + 1).drop_last() == result.ops@.take(i as int));
        let row = alignment_row(
            &result.ops[i],
            &times[i],
            result,
            reference,
            hypothesis,
            drift_threshold_s,
        );
        out = out.concat(row.as_str());
    }
    assert(result.ops@.take(result.ops@.len() as int) == result.ops@);
    out
}

fn alignment_rows_no_timing(
    result: &AlignmentResult,
    reference: &[Word],
    hypothesis: &[Word],
) -> (r: String)
    requires
        both_fit(*result, reference@, hypothesis@),
    ensures
        r@ == plain_rows_text(result.ops@, *result, reference@, hypothesis@),
{
    let mut out = String::new();
    for i in 0..result.ops.len()
        invariant
            both_fit(*result, reference@, hypothesis@),
            out@ == plain_rows_text(
                result.ops@.take(i as int),
                *result,
                reference@,
                hypothesis@,
            ),
    {
        assert(result.ops@.take(i + 1).drop_last() == result.ops@.take(i as int));
        let row = alignment_row_no_timing(&result.ops[i].op, result, reference, hypothesis);
        out = out.concat(row.as_str());
    }
    assert(result.ops@.take(result.ops@.len() as int) == result.ops@);
    out
}

/// The line with the length of the audio and the time that it took.
pub open spec fn header_text(numbers: PanelNumbers) -> Seq<char> {
    bar() + " Duration:   "@ + text::right_aligned(numbers.duration@, 6) + " s   "@ + bar()
        + " Inference: "@ + text::right_aligned(numbers.inference@, 5) + " s   "@ + bar()
        + " RTF: "@ + numbers.rtf@ + "x\n"@
}

fn header(numbers: &PanelNumbers) -> (r: String)
    ensures
        r@ == header_text(*numbers),
{
    bar_of().concat(" Duration:   ").concat(
        text::align_right(numbers.duration.as_str(), 6).as_str(),
    ).concat(" s   ").concat(bar_of().as_str()).concat(" Inference: ").concat(
        text::align_right(numbers.inference.as_str(), 5).as_str(),
    ).concat(" s   ").concat(bar_of().as_str()).concat(" RTF: ").concat(
        numbers.rtf.as_str(),
    ).concat("x\n")
}

/// The line with the timing drift; there is none without a matched pair.
pub open spec fn timing_line_text(numbers: PanelNumbers, t: TimingStats) -> Seq<char> {
    if t.matched_pairs > 0 {
        bar() + " Timing:    matched="@ + text::decimal(t.matched_pairs as nat)
            + "  drift mean/median/p95 = "@ + numbers.mean@ + "/"@ + numbers.median@ + "/"@
            + numbers.p95@ + "s   high-drift(>"@ + numbers.threshold@ + "s)="@ + text::decimal(
            t.high_drift_pairs as nat,
        ) + "\n"@
    } else {
        Seq::empty()
    }
}

fn timing_line(numbers: &PanelNumbers, t: &TimingStats) -> (r: String)
    ensures
        r@ == timing_line_text(*numbers, *t),
{
    if t.matched_pairs > 0 {
        bar_of().concat(" Timing:    matched=").concat(
            text::decimal_of(t.matched_pairs as u64).as_str(),
        ).concat("  drift mean/median/p95 = ").concat(numbers.mean.as_str()).concat("/").concat(
            numbers.median.as_str(),
        ).concat("/").concat(numbers.p95.as_str()).concat("s   high-drift(>").concat(
            numbers.threshold.as_str(),
        ).concat("s)=").concat(text::decimal_of(t.high_drift_pairs as u64).as_str()).concat("\n")
    } else {
        String::new()
    }
}

/// The heading of the alignment table, up to the closing bracket.
pub open spec fn legend_text() -> Seq<char> {
    bar() + " "@ + BOLD@ + "Alignment"@ + RESET@ + "  ("@ + GREEN@ + "match"@ + RESET@ + ", "@
        + RED@ + "sub"@ + RESET@ + ", "@ + BOLD@ + RED@ + "del"@ + RESET@ + ", "@ + GREEN@
        + "ins"@ + RESET@
}

fn legend() -> (r: String)
    ensures
        r@ == legend_text(),
{
    bar_of().concat(" ").concat(BOLD).concat("Alignment").concat(RESET).concat("  (").concat(
        GREEN,
    ).concat("match").concat(RESET).concat(", ").concat(RED).concat("sub").concat(RESET).concat(
        ", ",
    ).concat(BOLD).concat(RED).concat("del").concat(RESET).concat(", ").concat(GREEN).concat(
        "ins",
    ).concat(RESET)
}

/// The panel of a file with its ground truth.
pub open spec fn scored_panel_text(
    label: Seq<char>,
    idx: Option<i32>,
    numbers: PanelNumbers,
    times: Seq<RowTimes>,
    reference: Seq<Word>,
    hypothesis: Seq<Word>,
    result: AlignmentResult,
    t: TimingStats,
    threshold: Number,
) -> Seq<char> {
    box_top_text(title_text(label, idx)) + header_text(numbers) + wer_line_text(
        numbers.wer@,
        result,
    ) + timing_line_text(numbers, t) + box_mid_text() + ref_hyp_text(
        result,
        reference,
        hypothesis,
    ) + box_mid_text() + legend_text() + "; ⚠ = drift>"@ + numbers.threshold@ + "s):\n"@
        + rows_text(result.ops@, times, result, reference, hypothesis, threshold)
        + box_bottom_text()
}

/// The panel of a file without ground truth: what was heard, and no score.
pub open spec fn unscored_panel_text(
    label: Seq<char>,
    idx: Option<i32>,
    numbers: PanelNumbers,
    hypothesis: Seq<Word>,
) -> Seq<char> {
    box_top_text(title_text(label, idx)) + header_text(numbers) + bar() + " "@ + YELLOW@
        + "WER:       (no ground truth for this idx)"@ + RESET@ + "\n"@ + box_mid_text() + bar()
        + " "@ + BOLD@ + "HYP"@ + RESET@ + ": "@ + words_text(
        hypothesis,
        0,
        hypothesis.len() as int,
    ) + "\n"@ + box_bottom_text()
}

/// The panel of one file: header, the two sides colored, alignment table.
/// `times` holds the times of each operation. Without ground truth only the
/// hypothesis is shown.
pub fn print_single(
    label: &str,
    idx: Option<i32>,
    numbers: &PanelNumbers,
    times: &Vec<RowTimes>,
    reference: &[Word],
    hypothesis: &[Word],
    have_truth: bool,
    result: &AlignmentResult,
    t: &TimingStats,
    drift_threshold_s: Number,
) -> (r: String)
    requires
        have_truth ==> both_fit(*result, reference@, hypothesis@),
        have_truth ==> forall|i: int|
            0 <= i < result.ops@.len() ==> is_timed(#[trigger] result.ops@[i]),
        have_truth ==> times@.len() == result.ops@.len(),
    ensures
        r@ == (if have_truth {
            scored_panel_text(
                label@,
                idx,
                *numbers,
                times@,
                reference@,
                hypothesis@,
                *result,
                *t,
                drift_threshold_s,
            )
        } else {
            unscored_panel_text(label@, idx, *numbers, hypothesis@)
        }),
{
    let top = box_top(title_of(label, idx).as_str()).concat(header(numbers).as_str());
    if have_truth {
        top.concat(wer_line(numbers.wer.as_str(), result).as_str()).concat(
            timing_line(numbers, t).as_str(),
        ).concat(box_mid().as_str()).concat(ref_hyp(result, reference, hypothesis).as_str()).concat(
            box_mid().as_str(),
        ).concat(legend().as_str()).concat("; ⚠ = drift>").concat(
            numbers.threshold.as_str(),
        ).concat("s):\n").concat(
            alignment_rows(times, result, reference, hypothesis, drift_threshold_s).as_str(),
        ).concat(box_bottom().as_str())
    } else {
        top.concat(bar_of().as_str()).concat(" ").concat(YELLOW).concat(
            "WER:       (no ground truth for this idx)",
        ).concat(RESET).concat("\n").concat(box_mid().as_str()).concat(bar_of().as_str()).concat(
            " ",
        ).concat(BOLD).concat("HYP").concat(RESET).concat(": ").concat(
            join_text(hypothesis, 0..hypothesis.len()).as_str(),
        ).concat("\n").concat(box_bottom().as_str())
    }
}

/// The panel of a file whose hypothesis has no times.
pub open spec fn plain_panel_text(
    label: Seq<char>,
    idx: Option<i32>,
    duration: Seq<char>,
    inference: Seq<char>,
    rtf: Seq<char>,
    wer: Seq<char>,
    reference: Seq<Word>,
    hypothesis: Seq<Word>,
    result: AlignmentResult,
) -> Seq<char> {
    box_top_text(title_text(label, idx)) + bar() + " Duration:   "@ + text::right_aligned(
        duration,
        6,
    ) + " s   "@ + bar() + " Inference:  "@ + text::right_aligned(inference, 6) + " s   "@ + bar()
        + " RTF: "@ + rtf + "x\n"@ + wer_line_text(wer, result) + box_mid_text() + ref_hyp_text(
        result,
        reference,
        hypothesis,
    ) + box_mid_text() + legend_text() + "):\n"@ + plain_rows_text(
        result.ops@,
        result,
        reference,
        hypothesis,
    ) + box_bottom_text()
}

/// The panel of one file whose hypothesis has no times: as [`print_single`],
/// without the timing line and without times in the table. The numbers come as
/// in [`PanelNumbers`].
pub fn print_single_wer_only(
    label: &str,
    idx: Option<i32>,
    duration: &str,
    inference: &str,
    rtf: &str,
    wer: &str,
    reference: &[Word],
    hypothesis: &[Word],
    result: &AlignmentResult,
) -> (r: String)
    requires
        both_fit(*result, reference@, hypothesis@),
    ensures
        r@ == plain_panel_text(
            label@,
            idx,
            duration@,
            inference@,
            rtf@,
            wer@,
            reference@,
            hypothesis@,
            *result,
        ),
{
    box_top(title_of(label, idx).as_str()).concat(bar_of().as_str()).concat(
        " Duration:   ",
    ).concat(text::align_right(duration, 6).as_str()).concat(" s   ").concat(
        bar_of().as_str(),
    ).concat(" Inference:  ").concat(text::align_right(inference, 6).as_str()).concat(
        " s   ",
    ).concat(bar_of().as_str()).concat(" RTF: ").concat(rtf).concat("x\n").concat(
        wer_line(wer, result).as_str(),
    ).concat(box_mid().as_str()).concat(ref_hyp(result, reference, hypothesis).as_str()).concat(
        box_mid().as_str(),
    ).concat(legend().as_str()).concat("):\n").concat(
        alignment_rows_no_timing(result, reference, hypothesis).as_str(),
    ).concat(box_bottom().as_str())
}

fn tokens_fit(tokens: &Vec<Token>, range: &Range<usize>, words: &[Word]) -> (b: bool)
    ensures
        b == range_fits(tokens@, *range, words@),
{
    if range.start > range.end || range.end > tokens.len() {
        return false;
    }
    let covered = vstd::slice::slice_subrange(tokens.as_slice(), range.start, range.end);
    let mut i: usize = 0;
    while i < covered.len()
        invariant
            i <= covered@.len(),
            range.start <= range.end <= tokens@.len(),
            covered@ == tokens@.subrange(range.start as int, range.end as int),
            wer::tokens_last(covered@.take(i as int)) < usize::MAX,
        decreases covered.len() - i,
    {
        let n: usize = covered[i].word_indices.len();
        assert(covered@.take(i + 1).drop_last() == covered@.take(i as int));
        if n > 0 && covered[i].word_indices[n - 1] == usize::MAX {
            proof {
                wer::lemma_last_grows(covered@, i + 1);
            }
            assert(words.len() == words@.len());
            return false;
        }
        i += 1;
    }
    assert(covered@.take(covered@.len() as int) == covered@);
    let r = tokens_word_range(covered);
    r.start <= r.end && r.end <= words.len()
}

fn token_fits(tokens: &Vec<Token>, idx: usize, words: &[Word]) -> (b: bool)
    ensures
        b == index_fits(tokens@, idx, words@),
{
    if idx >= tokens.len() {
        return false;
    }
    assert(words.len() == words@.len());
    let n: usize = tokens[idx].word_indices.len();
    if n > 0 && tokens[idx].word_indices[n - 1] == usize::MAX {
        return false;
    }
    let r = token_word_range(&tokens[idx]);
    r.start <= r.end && r.end <= words.len()
}

/// Whether every operation of `result` names words of `reference` and of
/// `hypothesis` on the sides that it has.
pub fn fits(result: &AlignmentResult, reference: &[Word], hypothesis: &[Word]) -> (b: bool)
    ensures
        b == both_fit(*result, reference@, hypothesis@),
{
    for i in 0..result.ops.len()
        invariant
            forall|j: int|
                0 <= j < i ==> ref_fits((#[trigger] result.ops@[j]).op, *result, reference@)
                    && hyp_fits(result.ops@[j].op, *result, hypothesis@),
    {
        let ok = match &result.ops[i].op {
            Op::Match { ref_range, hyp_range } => tokens_fit(
                &result.ref_tokens,
                ref_range,
                reference,
            ) && tokens_fit(&result.hyp_tokens, hyp_range, hypothesis),
            Op::Sub { ref_idx, hyp_idx } => token_fits(&result.ref_tokens, *ref_idx, reference)
                && token_fits(&result.hyp_tokens, *hyp_idx, hypothesis),
            Op::Del { ref_idx } => token_fits(&result.ref_tokens, *ref_idx, reference),
            Op::Ins { hyp_idx } => token_fits(&result.hyp_tokens, *hyp_idx, hypothesis),
        };
        assert(ok == (ref_fits(result.ops@[i as int].op, *result, reference@) && hyp_fits(
            result.ops@[i as int].op,
            *result,
            hypothesis@,
        )));
        if !ok {
            return false;
        }
    }
    true
}

/// Whether every operation of `result` is timed on each side that it has.
pub fn timed(result: &AlignmentResult) -> (b: bool)
    ensures
        b == forall|i: int| 0 <= i < result.ops@.len() ==> is_timed(#[trigger] result.ops@[i]),
        b == forall|i: int|
            0 <= i < result.ops@.len() ==> (#[trigger] result.ops@[i]).timing is Both
                || result.ops@[i].op is Del && result.ops@[i].timing is Ref || result.ops@[i].op
                is Ins && result.ops@[i].timing is Hyp,
{
    for i in 0..result.ops.len()
        invariant
            forall|j: int| 0 <= j < i ==> is_timed(#[trigger] result.ops@[j]),
    {
        let ok = match (&result.ops[i].op, &result.ops[i].timing) {
            (_, OpTiming::Both { .. }) => true,
            (Op::Del { .. }, OpTiming::Ref(_)) => true,
            (Op::Ins { .. }, OpTiming::Hyp(_)) => true,
            _ => false,
        };
        assert(ok == is_timed(result.ops@[i as int]));
        if !ok {
            return false;
        }
    }
    proof {
        assert forall|i: int| 0 <= i < result.ops@.len() implies (#[trigger] result.ops@[i]).timing
            is Both || result.ops@[i].op is Del && result.ops@[i].timing is Ref
            || result.ops@[i].op is Ins && result.ops@[i].timing is Hyp by {
            assert(is_timed(result.ops@[i]));
        }
    }
    true
}

/// Ranked error rates at a glance.
#[derive(Clone, Copy, Debug, PartialEq, Eq, Structural)]
pub struct Quantiles {
    pub min: Number,
    pub p25: Number,
    pub median: Number,
    pub p75: Number,
    pub p95: Number,
    pub max: Number,
}

/// The quantiles of a ranked sequence; all zero if it is empty.
pub open spec fn quantiles_of(ranked: Seq<Number>) -> Quantiles {
    Quantiles {
        min: if ranked.len() == 0 {
            Number::spec_zero()
        } else {
            ranked[0]
        },
        p25: percentile_of(ranked, 1, 4),
        median: percentile_of(ranked, 1, 2),
        p75: percentile_of(ranked, 3, 4),
        p95: percentile_of(ranked, 19, 20),
        max: if ranked.len() == 0 {
            Number::spec_zero()
        } else {
            ranked.last()
        },
    }
}

/// The quantiles of a slice that is ranked from the lowest up.
pub fn quantiles(sorted_asc: &[Number]) -> (q: Quantiles)
    ensures
        q == quantiles_of(sorted_asc@),
        sorted_asc@.len() > 0 ==> q.min == sorted_asc@[0] && q.max == sorted_asc@.last(),
        sorted_asc@.len() == 0 ==> q.min.bits == 0 && q.max.bits == 0,
        q.p25 == percentile_of(sorted_asc@, 1, 4),
        q.median == percentile_of(sorted_asc@, 1, 2),
        q.p75 == percentile_of(sorted_asc@, 3, 4),
        q.p95 == percentile_of(sorted_asc@, 19, 20),
{
    let n: usize = sorted_asc.len();
    let (min, max) = if n == 0 {
        (Number::zero(), Number::zero())
    } else {
        (sorted_asc[0], sorted_asc[n - 1])
    };
    Quantiles {
        min,
        p25: percentile(sorted_asc, 1, 4),
        median: percentile(sorted_asc, 1, 2),
        p75: percentile(sorted_asc, 3, 4),
        p95: percentile(sorted_asc, 19, 20),
        max,
    }
}

/// The places of `files` from the highest error rate down, equal ones in the
/// order in which they were scored.
pub open spec fn worst_first(files: Seq<FileScore>) -> Seq<usize> {
    order::stable_order(order::falling_keys(bench::wers_of(files)))
}

/// The places of the `n` files with the highest error rates, the worst first.
pub open spec fn worst_places(files: Seq<FileScore>, n: nat) -> Seq<usize> {
    if n < files.len() {
        worst_first(files).take(n as int)
    } else {
        worst_first(files)
    }
}

/// The places of the `n` files with the highest error rates, the worst first;
/// all files if there are fewer.
pub fn worst(files: &[FileScore], n: usize) -> (places: Vec<usize>)
    ensures
        places@ == worst_places(files@, n as nat),
        order::is_stable_order(order::falling_keys(bench::wers_of(files@)), worst_first(files@)),
{
    let mut wers: Vec<Number> = Vec::new();
    for i in 0..files.len()
        invariant
            wers@ =~= bench::wers_of(files@.take(i as int)),
    {
        wers.push(files[i].wer);
    }
    assert(files@.take(files@.len() as int) == files@);
    let mut places = order::order_descending(wers.as_slice());
    places.truncate(n);
    assert(places@ =~= worst_places(files@, n as nat));
    places
}

/// The numbers of a summary: total times in seconds to one place, hours and
/// the mean time per file to two, the ratio to three, error rates in percent
/// and drift in seconds to two, and the threshold and the share of drifting
/// pairs to one.
#[derive(Debug)]
pub struct SummaryNumbers {
    pub audio: String,
    pub audio_hours: String,
    pub inference: String,
    pub inference_mean: String,
    pub rtf: String,
    pub overall_wer: String,
    pub wer_min: String,
    pub wer_p25: String,
    pub wer_median: String,
    pub wer_p75: String,
    pub wer_p95: String,
    pub wer_max: String,
    pub drift_mean: String,
    pub drift_median: String,
    pub drift_p95: String,
    pub threshold: String,
    pub drift_share: String,
}

/// The numbers of one file: the error rate in percent to two places, the
/// length of the audio to one, the time that it took and the mean drift to
/// two, and the share of drifting pairs in percent to one.
#[derive(Debug)]
pub struct FileNumbers {
    pub wer: String,
    pub duration: String,
    pub transcribe: String,
    pub mean_mid: String,
    pub drift_share: String,
}

/// The border of a summary.
pub open spec fn double_line() -> Seq<char> {
    CYAN@ + text::fill('═', BOX_WIDTH as nat) + RESET@
}

fn double_line_of() -> (r: String)
    ensures
        r@ == double_line(),
{
    CYAN.to_owned().concat(text::filled('═', BOX_WIDTH).as_str()).concat(RESET)
}

/// The times and error rates of a corpus.
pub open spec fn summary_head_text(numbers: SummaryNumbers, totals: CorpusTotals) -> Seq<char> {
    "\n"@ + double_line() + "\n "@ + BOLD@ + "Summary over "@ + text::decimal(
        totals.files as nat,
    ) + " files"@ + RESET@ + "\n   Audio total:          "@ + numbers.audio@ + "s   ("@
        + numbers.audio_hours@ + "h)\n   Inference total:      "@ + numbers.inference@
        + "s   (mean "@ + numbers.inference_mean@ + "s/file)\n   Mean RTF:             "@
        + numbers.rtf@ + "x\n   "@ + BOLD@ + "Overall WER:          "@ + numbers.overall_wer@
        + "%"@ + RESET@ + "   (S="@ + text::decimal(totals.subs as nat) + " D="@ + text::decimal(
        totals.dels as nat,
    ) + " I="@ + text::decimal(totals.ins as nat) + "  N="@ + text::decimal(
        totals.ref_total as nat,
    ) + ")\n   Per-file WER:         min "@ + numbers.wer_min@ + "%  p25 "@ + numbers.wer_p25@
        + "%  median "@ + numbers.wer_median@ + "%  p75 "@ + numbers.wer_p75@ + "%  p95 "@
        + numbers.wer_p95@ + "%  max "@ + numbers.wer_max@ + "%\n"@
}

fn summary_head(numbers: &SummaryNumbers, totals: &CorpusTotals) -> (r: String)
    ensures
        r@ == summary_head_text(*numbers, *totals),
{
    "\n".to_owned().concat(double_line_of().as_str()).concat("\n ").concat(BOLD).concat(
        "Summary over ",
    ).concat(text::decimal_of(totals.files as u64).as_str()).concat(" files").concat(
        RESET,
    ).concat("\n   Audio total:          ").concat(numbers.audio.as_str()).concat(
        "s   (",
    ).concat(numbers.audio_hours.as_str()).concat("h)\n   Inference total:      ").concat(
        numbers.inference.as_str(),
    ).concat("s   (mean ").concat(numbers.inference_mean.as_str()).concat(
        "s/file)\n   Mean RTF:             ",
    ).concat(numbers.rtf.as_str()).concat("x\n   ").concat(BOLD).concat(
        "Overall WER:          ",
    ).concat(numbers.overall_wer.as_str()).concat("%").concat(RESET).concat("   (S=").concat(
        text::decimal_of(totals.subs as u64).as_str(),
    ).concat(" D=").concat(text::decimal_of(totals.dels as u64).as_str()).concat(" I=").concat(
        text::decimal_of(totals.ins as u64).as_str(),
    ).concat("  N=").concat(text::decimal_of(totals.ref_total as u64).as_str()).concat(
        ")\n   Per-file WER:         min ",
    ).concat(numbers.wer_min.as_str()).concat("%  p25 ").concat(numbers.wer_p25.as_str()).concat(
        "%  median ",
    ).concat(numbers.wer_median.as_str()).concat("%  p75 ").concat(
        numbers.wer_p75.as_str(),
    ).concat("%  p95 ").concat(numbers.wer_p95.as_str()).concat("%  max ").concat(
        numbers.wer_max.as_str(),
    ).concat("%\n")
}

/// The timing drift of a corpus.
pub open spec fn summary_timing_text(numbers: SummaryNumbers, t: TimingStats) -> Seq<char> {
    if t.matched_pairs > 0 {
        "   Timing (matched="@ + text::decimal(t.matched_pairs as nat)
            + "):  drift mean/median/p95 = "@ + numbers.drift_mean@ + "/"@
            + numbers.drift_median@ + "/"@ + numbers.drift_p95@ + "s   high-drift(>"@
            + numbers.threshold@ + "s)="@ + text::decimal(t.high_drift_pairs as nat) + " ("@
            + numbers.drift_share@ + "%)\n"@
    } else {
        "   "@ + YELLOW@ + "Timing: no matched pairs (no ground truth aligned)"@ + RESET@ + "\n"@
    }
}

fn summary_timing(numbers: &SummaryNumbers, t: &TimingStats) -> (r: String)
    ensures
        r@ == summary_timing_text(*numbers, *t),
{
    if t.matched_pairs > 0 {
        "   Timing (matched=".to_owned().concat(
            text::decimal_of(t.matched_pairs as u64).as_str(),
        ).concat("):  drift mean/median/p95 = ").concat(numbers.drift_mean.as_str()).concat(
            "/",
        ).concat(numbers.drift_median.as_str()).concat("/").concat(
            numbers.drift_p95.as_str(),
        ).concat("s   high-drift(>").concat(numbers.threshold.as_str()).concat("s)=").concat(
            text::decimal_of(t.high_drift_pairs as u64).as_str(),
        ).concat(" (").concat(numbers.drift_share.as_str()).concat("%)\n")
    } else {
        "   ".to_owned().concat(YELLOW).concat(
            "Timing: no matched pairs (no ground truth aligned)",
        ).concat(RESET).concat("\n")
    }
}

/// The index of a file, or a question mark.
pub open spec fn idx_text(idx: Option<i32>) -> Seq<char> {
    match idx {
        Some(i) => text::signed(i as int),
        None => "?"@,
    }
}

/// The heading of the table of the worst files.
pub open spec fn worst_heading_text() -> Seq<char> {
    "     "@ + text::right_aligned("idx"@, 6) + "  "@ + text::right_aligned("WER%"@, 6) + "  "@
        + text::right_aligned("S"@, 4) + " "@ + text::right_aligned("D"@, 4) + " "@
        + text::right_aligned("I"@, 4) + " "@ + text::right_aligned("N"@, 5) + "  "@
        + text::right_aligned("dur_s"@, 6) + "  "@ + text::right_aligned("xt_s"@, 6) + "   "@
        + text::right_aligned("drift"@, 5) + "  "@ + text::right_aligned("hd_pct"@, 6) + "  "@
        + text::right_aligned("matchN"@, 6) + "   path\n"@
}

fn worst_heading() -> (r: String)
    ensures
        r@ == worst_heading_text(),
{
    "     ".to_owned().concat(text::align_right("idx", 6).as_str()).concat("  ").concat(
        text::align_right("WER%", 6).as_str(),
    ).concat("  ").concat(text::align_right("S", 4).as_str()).concat(" ").concat(
        text::align_right("D", 4).as_str(),
    ).concat(" ").concat(text::align_right("I", 4).as_str()).concat(" ").concat(
        text::align_right("N", 5).as_str(),
    ).concat("  ").concat(text::align_right("dur_s", 6).as_str()).concat("  ").concat(
        text::align_right("xt_s", 6).as_str(),
    ).concat("   ").concat(text::align_right("drift", 5).as_str()).concat("  ").concat(
        text::align_right("hd_pct", 6).as_str(),
    ).concat("  ").concat(text::align_right("matchN", 6).as_str()).concat("   path\n")
}

/// One of the worst files.
pub open spec fn worst_row_text(f: FileScore, numbers: FileNumbers) -> Seq<char> {
    "     "@ + text::right_aligned(idx_text(f.idx), 6) + "  "@ + text::right_aligned(
        numbers.wer@,
        6,
    ) + "  "@ + text::right_aligned(text::decimal(f.subs as nat), 4) + " "@
        + text::right_aligned(text::decimal(f.dels as nat), 4) + " "@ + text::right_aligned(
        text::decimal(f.ins as nat),
        4,
    ) + " "@ + text::right_aligned(text::decimal(f.ref_len as nat), 5) + "  "@
        + text::right_aligned(numbers.duration@, 6) + "  "@ + text::right_aligned(
        numbers.transcribe@,
        6,
    ) + "   "@ + text::right_aligned(numbers.mean_mid@, 5) + "  "@ + text::right_aligned(
        numbers.drift_share@,
        5,
    ) + "%  "@ + text::right_aligned(text::decimal(f.matched_pairs as nat), 6) + "   "@ + f.path@
        + "\n"@
}

fn count_field(n: usize, width: usize) -> (r: String)
    ensures
        r@ == text::right_aligned(text::decimal(n as nat), width as nat),
{
    text::align_right(text::decimal_of(n as u64).as_str(), width)
}

fn worst_row(f: &FileScore, numbers: &FileNumbers) -> (r: String)
    ensures
        r@ == worst_row_text(*f, *numbers),
{
    let idx = match f.idx {
        Some(i) => text::signed_of(i),
        None => "?".to_owned(),
    };
    "     ".to_owned().concat(text::align_right(idx.as_str(), 6).as_str()).concat("  ").concat(
        text::align_right(numbers.wer.as_str(), 6).as_str(),
    ).concat("  ").concat(count_field(f.subs, 4).as_str()).concat(" ").concat(
        count_field(f.dels, 4).as_str(),
    ).concat(" ").concat(count_field(f.ins, 4).as_str()).concat(" ").concat(
        count_field(f.ref_len, 5).as_str(),
    ).concat("  ").concat(text::align_right(numbers.duration.as_str(), 6).as_str()).concat(
        "  ",
    ).concat(text::align_right(numbers.transcribe.as_str(), 6).as_str()).concat("   ").concat(
        text::align_right(numbers.mean_mid.as_str(), 5).as_str(),
    ).concat("  ").concat(text::align_right(numbers.drift_share.as_str(), 5).as_str()).concat(
        "%  ",
    ).concat(count_field(f.matched_pairs, 6).as_str()).concat("   ").concat(
        f.path.as_str(),
    ).concat("\n")
}

/// The files at `places`, a row each.
pub open spec fn worst_rows_text(
    files: Seq<FileScore>,
    numbers: Seq<FileNumbers>,
    places: Seq<usize>,
) -> Seq<char>
    decreases places.len(),
{
    if places.len() == 0 {
        Seq::empty()
    } else {
        worst_rows_text(files, numbers, places.drop_last()) + worst_row_text(
            files[places.last() as int],
            numbers[places.last() as int],
        )
    }
}

/// The table of the worst files; there is none without a file.
pub open spec fn worst_table_text(
    files: Seq<FileScore>,
    numbers: Seq<FileNumbers>,
    worst_n: nat,
) -> Seq<char> {
    let places = worst_places(files, worst_n);
    if places.len() > 0 {
        "\n   "@ + BOLD@ + "Worst "@ + text::decimal(places.len()) + " by WER:"@ + RESET@ + "\n"@
            + worst_heading_text() + worst_rows_text(files, numbers, places)
    } else {
        Seq::empty()
    }
}

fn worst_table(files: &[FileScore], numbers: &[FileNumbers], worst_n: usize) -> (r: String)
    requires
        numbers@.len() == files@.len(),
    ensures
        r@ == worst_table_text(files@, numbers@, worst_n as nat),
{
    let places = worst(files, worst_n);
    if places.len() == 0 {
        return String::new();
    }
    let mut rows = String::new();
    for i in 0..places.len()
        invariant
            numbers@.len() == files@.len(),
            places@ == worst_places(files@, worst_n as nat),
            order::is_stable_order(
                order::falling_keys(bench::wers_of(files@)),
                worst_first(files@),
            ),
            rows@ == worst_rows_text(files@, numbers@, places@.take(i as int)),
    {
        assert(places@.take(i + 1).drop_last() == places@.take(i as int));
        assert(places@[i as int] == worst_first(files@)[i as int]);
        let place: usize = places[i];
        rows = rows.concat(worst_row(&files[place], &numbers[place]).as_str());
    }
    assert(places@.take(places@.len() as int) == places@);
    "\n   ".to_owned().concat(BOLD).concat("Worst ").concat(
        text::decimal_of(places.len() as u64).as_str(),
    ).concat(" by WER:").concat(RESET).concat("\n").concat(worst_heading().as_str()).concat(
        rows.as_str(),
    )
}

/// The summary of a corpus: overall error rate, quantiles over the files,
/// timing drift, and the worst files. `per_file_numbers` holds the numbers of
/// each file.
pub open spec fn summary_text(
    files: Seq<FileScore>,
    per_file_numbers: Seq<FileNumbers>,
    totals: CorpusTotals,
    total_timing: TimingStats,
    numbers: SummaryNumbers,
    worst_n: nat,
) -> Seq<char> {
    summary_head_text(numbers, totals) + summary_timing_text(numbers, total_timing)
        + worst_table_text(files, per_file_numbers, worst_n) + double_line() + "\n\n"@
}

/// The summary of a corpus. `totals` holds the sums over `per_file`, and
/// `per_file_numbers` the numbers of each file.
pub fn print_summary(
    per_file: &[FileScore],
    per_file_numbers: &[FileNumbers],
    totals: &CorpusTotals,
    total_timing: &TimingStats,
    numbers: &SummaryNumbers,
    worst_n: usize,
) -> (r: String)
    requires
        per_file_numbers@.len() == per_file@.len(),
        totals.sums(per_file@),
    ensures
        r@ == summary_text(
            per_file@,
            per_file_numbers@,
            *totals,
            *total_timing,
            *numbers,
            worst_n as nat,
        ),
{
    summary_head(numbers, totals).concat(summary_timing(numbers, total_timing).as_str()).concat(
        worst_table(per_file, per_file_numbers, worst_n).as_str(),
    ).concat(double_line_of().as_str()).concat("\n\n")
}

/// The rank of a quantile is the whole number nearest to its place: no further
/// from it than one half.
pub proof fn law_rank_is_nearest(n: nat, num: nat, den: nat)
    requires
        n > 0,
        0 < den,
        num <= den,
    ensures
        ({
            let off = nearest_rank(n, num, den) * den - (n - 1) * num;
            -(den as int) < 2 * off <= den
        }),
{
    let m = n - 1;
    if num < den {
        let top = 2 * (m * num) + den;
        let r = top / (2 * den as int);
        assert(r * (2 * den) <= top < r * (2 * den) + 2 * den) by (nonlinear_arith)
            requires
                den > 0,
                r == top / (2 * den as int),
        ;
        assert(r * (2 * den) == 2 * (r * den)) by (nonlinear_arith);
    }
}

/// The lowest quantile is the first item, one is the last, and the median of
/// `n` items is the one at `n / 2`.
pub proof fn law_rank_ends_and_middle(n: nat, den: nat)
    requires
        n > 0,
        den > 0,
    ensures
        nearest_rank(n, 0, den) == 0,
        nearest_rank(n, den, den) == n - 1,
        nearest_rank(n, 1, 2) == n / 2,
{
    let m = n - 1;
    assert(m * 0 == 0) by (nonlinear_arith);
    assert(m * 1 == m) by (nonlinear_arith);
    assert(2 * (m * 1) + 2 == 2 * n);
    assert((2 * n) / 4 == n / 2);
    assert(nearest_rank(n, 1, 2) == (2 * (m * 1) + 2) / 4);
    assert(den as int / (2 * den as int) == 0) by (nonlinear_arith)
        requires
            den > 0,
    ;
}

/// A higher quantile has no lower rank.
pub proof fn law_rank_is_monotone(n: nat, num: nat, den: nat, num2: nat, den2: nat)
    requires
        n > 0,
        den > 0,
        den2 > 0,
        num * den2 <= num2 * den,
    ensures
        nearest_rank(n, num, den) <= nearest_rank(n, num2, den2),
{
    lemma_rank_bounds(n, num, den);
    lemma_rank_bounds(n, num2, den2);
    if num >= den && num2 < den2 {
        assert(num * den2 > num2 * den) by (nonlinear_arith)
            requires
                num >= den,
                num2 < den2,
                den > 0,
        ;
    }
    if num < den && num2 < den2 {
        let m = n - 1;
        let a = 2 * (m * num) + den;
        let b = 2 * den as int;
        let c = 2 * (m * num2) + den2;
        let d = 2 * den2 as int;
        assert(a * d <= c * b) by (nonlinear_arith)
            requires
                a == 2 * (m * num) + den,
                b == 2 * den,
                c == 2 * (m * num2) + den2,
                d == 2 * den2,
                m >= 0,
                num * den2 <= num2 * den,
        {
            assert(m * (num * den2) <= m * (num2 * den)) by (nonlinear_arith)
                requires
                    m >= 0,
                    num * den2 <= num2 * den,
            ;
        }
        let q = a / b;
        assert(q * b <= a) by (nonlinear_arith)
            requires
                b > 0,
                q == a / b,
        ;
        assert(q * d <= c) by (nonlinear_arith)
            requires
                q * b <= a,
                a * d <= c * b,
                b > 0,
                d > 0,
        {
            assert((q * d) * b <= c * b) by (nonlinear_arith)
                requires
                    q * b <= a,
                    a * d <= c * b,
                    d > 0,
            ;
        }
        assert(q <= c / d) by (nonlinear_arith)
            requires
                q * d <= c,
                d > 0,
        ;
    }
}

/// Of the same numbers a higher quantile is no lower number: the median is not
/// above the 95 percent mark.
pub proof fn law_percentile_is_monotone(
    s: Seq<Number>,
    num: nat,
    den: nat,
    num2: nat,
    den2: nat,
)
    requires
        s.len() <= usize::MAX,
        den > 0,
        den2 > 0,
        num * den2 <= num2 * den,
    ensures
        percentile_of(order::ascending(s), num, den).key() <= percentile_of(
            order::ascending(s),
            num2,
            den2,
        ).key(),
{
    order::law_ascending_is_sorted(s);
    if s.len() > 0 {
        law_rank_is_monotone(s.len(), num, den, num2, den2);
        lemma_rank_bounds(s.len(), num, den);
        lemma_rank_bounds(s.len(), num2, den2);
    }
}

/// A line is rendered operation by operation: the line of two stretches is the
/// line of the first and then the line of the second.
pub proof fn law_side_by_parts(
    side: Side,
    a: Seq<AlignedOp>,
    b: Seq<AlignedOp>,
    result: AlignmentResult,
    reference: Seq<Word>,
    hypothesis: Seq<Word>,
)
    ensures
        side_text(side, a + b, result, reference, hypothesis) == side_text(
            side,
            a,
            result,
            reference,
            hypothesis,
        ) + side_text(side, b, result, reference, hypothesis),
    decreases b.len(),
{
    if b.len() == 0 {
        assert(a + b =~= a);
        assert(side_text(side, a, result, reference, hypothesis) + Seq::<char>::empty()
            =~= side_text(side, a, result, reference, hypothesis));
    } else {
        law_side_by_parts(side, a, b.drop_last(), result, reference, hypothesis);
        assert((a + b).drop_last() =~= a + b.drop_last());
        let left = side_text(side, a, result, reference, hypothesis);
        let mid = side_text(side, b.drop_last(), result, reference, hypothesis);
        let cell = cell_text(side, b.last().op, result, reference, hypothesis);
        assert((left + mid) + cell =~= left + (mid + cell));
    }
}

/// The worst files are listed from the highest error rate down, equal ones in
/// the order in which they were scored, none twice, and no file that is left out
/// has a higher rate than one that is listed.
pub proof fn law_worst_are_worst(files: Seq<FileScore>, n: nat)
    requires
        files.len() <= usize::MAX,
    ensures
        worst_places(files, n).len() == if n < files.len() {
            n
        } else {
            files.len()
        },
        forall|i: int|
            0 <= i < worst_places(files, n).len() ==> (#[trigger] worst_places(files, n)[i])
                < files.len(),
        forall|i: int, j: int|
            0 <= i < j < worst_places(files, n).len() ==> {
                let a = #[trigger] worst_places(files, n)[i];
                let b = #[trigger] worst_places(files, n)[j];
                &&& a != b
                &&& files[a as int].wer.key() >= files[b as int].wer.key()
                &&& files[a as int].wer.key() == files[b as int].wer.key() ==> a < b
            },
        forall|i: int, other: usize|
            #![trigger worst_places(files, n)[i], files[other as int]]
            0 <= i < worst_places(files, n).len() && other < files.len() && !worst_places(
                files,
                n,
            ).contains(other) ==> files[worst_places(files, n)[i] as int].wer.key()
                >= files[other as int].wer.key(),
{
    let rates = bench::wers_of(files);
    let places = worst_places(files, n);
    order::law_highest_are_highest(rates, n);
    assert(places == order::highest_places(rates, n));
    assert forall|i: int, other: usize|
        #![trigger places[i], files[other as int]]
        0 <= i < places.len() && other < files.len() && !places.contains(
            other,
        ) implies files[places[i] as int].wer.key() >= files[other as int].wer.key() by {
        assert(rates[other as int] == files[other as int].wer);
        assert(rates[places[i] as int] == files[places[i] as int].wer);
    }
}

/// The operations that the table flags.
pub open spec fn flagged(ops: Seq<AlignedOp>, threshold: Number) -> Seq<AlignedOp> {
    ops.filter(|op: AlignedOp| is_flagged(op, threshold))
}

/// The table flags as many rows as the statistics count as drifting.
pub proof fn law_flags_are_counted(ops: Seq<AlignedOp>, threshold: Number)
    ensures
        flagged(ops, threshold).len() == wer::count_above(wer::matched_deltas(ops), threshold),
    decreases ops.len(),
{
    let pred = |op: AlignedOp| is_flagged(op, threshold);
    if ops.len() == 0 {
        ops.lemma_filter_len(pred);
        ops.lemma_filter_len(wer::timed_match());
        wer::matched_deltas(ops).lemma_filter_len(wer::further_than(threshold));
    } else {
        let init = ops.drop_last();
        let op = ops.last();
        law_flags_are_counted(init, threshold);
        assert(init.push(op) =~= ops);
        init.lemma_filter_push(op, pred);
        wer::lemma_deltas_push(init, op);
        wer::lemma_count_push(wer::matched_deltas(init), op.timing->Both_delta, threshold);
    }
}

/// The percentile is the item whose place is nearest to that of the quantile, of
/// two equally near ones the later; a quantile of one or more is the last item,
/// and of nothing the percentile is zero.
pub proof fn law_percentile_is_nearest(ranked: Seq<Number>, num: nat, den: nat, k: int)
    requires
        den > 0,
    ensures
        ranked.len() == 0 ==> percentile_of(ranked, num, den).bits == 0,
        ranked.len() > 0 && num >= den ==> percentile_of(ranked, num, den) == ranked.last(),
        0 <= k < ranked.len() && num <= den && -(den as int) < 2 * (k * den - (ranked.len() - 1)
            * num) <= den ==> percentile_of(ranked, num, den) == ranked[k],
{
    let n = ranked.len();
    if 0 <= k < n && num <= den && -(den as int) < 2 * (k * den - (n - 1) * num) <= den {
        law_rank_is_nearest(n, num, den);
        let r = nearest_rank(n, num, den);
        let x = r * den;
        let y = k * den;
        assert(-(den as int) < x - y < den);
        assert(r == k) by (nonlinear_arith)
            requires
                x == r * den,
                y == k * den,
                -(den as int) < x - y < den,
                den > 0,
        ;
    }
}

/// A row is flagged exactly if it is a match, timed on both sides, whose
/// midpoints lie further apart than the threshold.
pub proof fn law_flags(op: AlignedOp, threshold: Number)
    ensures
        is_flagged(op, threshold) <==> op.op is Match && op.timing is Both
            && op.timing->Both_delta.mid_abs.is_above(threshold),
        is_timed(op) <==> op.timing is Both || op.op is Del && op.timing is Ref || op.op is Ins
            && op.timing is Hyp,
{
}

/// An alignment fits its words exactly if every operation names tokens that
/// there are, on the sides that it has, and the words from the first to the last
/// of these are there.
pub proof fn law_fits_by_operations(
    result: AlignmentResult,
    reference: Seq<Word>,
    hypothesis: Seq<Word>,
)
    ensures
        both_fit(result, reference, hypothesis) <==> forall|i: int|
            0 <= i < result.ops@.len() ==> match (#[trigger] result.ops@[i]).op {
                Op::Match { ref_range, hyp_range } => range_fits(
                    result.ref_tokens@,
                    ref_range,
                    reference,
                ) && range_fits(result.hyp_tokens@, hyp_range, hypothesis),
                Op::Sub { ref_idx, hyp_idx } => index_fits(result.ref_tokens@, ref_idx, reference)
                    && index_fits(result.hyp_tokens@, hyp_idx, hypothesis),
                Op::Del { ref_idx } => index_fits(result.ref_tokens@, ref_idx, reference),
                Op::Ins { hyp_idx } => index_fits(result.hyp_tokens@, hyp_idx, hypothesis),
            },
{
    if both_fit(result, reference, hypothesis) {
        assert forall|i: int| 0 <= i < result.ops@.len() implies ref_fits(
            (#[trigger] result.ops@[i]).op,
            result,
            reference,
        ) && hyp_fits(result.ops@[i].op, result, hypothesis) by {}
    }
}

/// A place names a token that fits exactly if there is such a token and its
/// words are there; a range, if there are such tokens and the words from the
/// first of any to the last of any are there.
pub proof fn law_fits_by_tokens(
    tokens: Seq<Token>,
    idx: usize,
    range: Range<usize>,
    words: Seq<Word>,
)
    ensures
        index_fits(tokens, idx, words) <==> idx < tokens.len() && wer::token_first(
            tokens[idx as int],
        ) <= wer::token_last(tokens[idx as int]) + 1 && wer::token_last(tokens[idx as int])
            < words.len(),
        range_fits(tokens, range, words) <==> range.start <= range.end && range.end <= tokens.len()
            && wer::tokens_first(tokens.subrange(range.start as int, range.end as int))
            <= wer::tokens_last(tokens.subrange(range.start as int, range.end as int)) + 1
            && wer::tokens_last(tokens.subrange(range.start as int, range.end as int))
            < words.len(),
{
}

} // verus!
