//! What can be read back from the panels, the summary and the report.
use crate::bench::{CorpusTotals, FileScore};
use crate::number::Number;
use crate::pretty;
use crate::pretty::{FileNumbers, PanelNumbers, RowTimes, Side, SpanText, SummaryNumbers};
use crate::py_bench;
use crate::py_bench::{ReportNumbers, RowScore, ScriptRun};
use crate::text;
use crate::wer;
use crate::wer::{AlignedOp, AlignmentResult, Op, TimingStats, Token, Word};
use std::ops::Range;
use vstd::prelude::*;

verus! {

/// The counts can be read back from the line with the error rate: behind their
/// labels stand the substitutions, the deletions, the insertions and the
/// reference tokens. The line is made of these, the rate and the labels, and of
/// nothing else.
pub proof fn law_wer_line_reads_back(wer: Seq<char>, result: AlignmentResult)
    ensures
        text::shows(pretty::wer_line_text(wer, result), " S="@, result.substitutions as nat),
        text::shows(pretty::wer_line_text(wer, result), " D="@, result.deletions as nat),
        text::shows(pretty::wer_line_text(wer, result), " I="@, result.insertions as nat),
        text::shows(pretty::wer_line_text(wer, result), "  N="@, result.ref_token_count as nat),
        pretty::wer_line_text(wer, result) == text::flat(
            text::no_fields()
                .push(pretty::bar())
                .push(" WER:       "@)
                .push(text::right_aligned(wer, 6))
                .push(" %   "@)
                .push(pretty::bar())
                .push(" S="@)
                .push(text::decimal(result.substitutions as nat))
                .push(" D="@)
                .push(text::decimal(result.deletions as nat))
                .push(" I="@)
                .push(text::decimal(result.insertions as nat))
                .push("  N="@)
                .push(text::decimal(result.ref_token_count as nat))
                .push("\n"@),
        ),
{
    broadcast use text::lemma_flat_push, text::lemma_flat_one;

    reveal_strlit(" D=");
    reveal_strlit(" I=");
    reveal_strlit("  N=");
    reveal_strlit("\n");
    let parts = text::no_fields()
        .push(pretty::bar())
        .push(" WER:       "@)
        .push(text::right_aligned(wer, 6))
        .push(" %   "@)
        .push(pretty::bar())
        .push(" S="@)
        .push(text::decimal(result.substitutions as nat))
        .push(" D="@)
        .push(text::decimal(result.deletions as nat))
        .push(" I="@)
        .push(text::decimal(result.insertions as nat))
        .push("  N="@)
        .push(text::decimal(result.ref_token_count as nat))
        .push("\n"@);
    assert(pretty::wer_line_text(wer, result) == text::flat(parts));
    text::lemma_row_shows(parts, 5, result.substitutions as nat);
    text::lemma_row_shows(parts, 7, result.deletions as nat);
    text::lemma_row_shows(parts, 9, result.insertions as nat);
    text::lemma_row_shows(parts, 11, result.ref_token_count as nat);
}

/// With a matched pair, the timing line shows how many pairs matched and how
/// many drift, the mean, the median and the 95 percent mark in this order, and
/// the threshold.
pub proof fn law_timing_line_reads_back(numbers: PanelNumbers, t: TimingStats)
    requires
        t.matched_pairs > 0,
    ensures
        text::shows(pretty::timing_line_text(numbers, t), " Timing:    matched="@, t.matched_pairs as nat),
        text::shows(pretty::timing_line_text(numbers, t), "s)="@, t.high_drift_pairs as nat),
        pretty::timing_line_text(numbers, t) == text::flat(
            text::no_fields()
                .push(pretty::bar())
                .push(" Timing:    matched="@)
                .push(text::decimal(t.matched_pairs as nat))
                .push("  drift mean/median/p95 = "@)
                .push(numbers.mean@)
                .push("/"@)
                .push(numbers.median@)
                .push("/"@)
                .push(numbers.p95@)
                .push("s   high-drift(>"@)
                .push(numbers.threshold@)
                .push("s)="@)
                .push(text::decimal(t.high_drift_pairs as nat))
                .push("\n"@),
        ),
{
    broadcast use text::lemma_flat_push, text::lemma_flat_one;

    reveal_strlit("  drift mean/median/p95 = ");
    reveal_strlit("\n");
    let parts = text::no_fields()
        .push(pretty::bar())
        .push(" Timing:    matched="@)
        .push(text::decimal(t.matched_pairs as nat))
        .push("  drift mean/median/p95 = "@)
        .push(numbers.mean@)
        .push("/"@)
        .push(numbers.median@)
        .push("/"@)
        .push(numbers.p95@)
        .push("s   high-drift(>"@)
        .push(numbers.threshold@)
        .push("s)="@)
        .push(text::decimal(t.high_drift_pairs as nat))
        .push("\n"@);
    assert(pretty::timing_line_text(numbers, t) == text::flat(parts));
    text::lemma_row_shows(parts, 1, t.matched_pairs as nat);
    text::lemma_row_shows(parts, 11, t.high_drift_pairs as nat);
}

/// Without a matched pair there is no timing line.
pub proof fn law_no_timing_line(numbers: PanelNumbers, t: TimingStats)
    ensures
        t.matched_pairs == 0 <==> pretty::timing_line_text(numbers, t).len() == 0,
{
    reveal_strlit("\n");
}

/// The header shows the length of the audio, the time that it took and their
/// ratio, each behind its label.
pub proof fn law_header_fields(numbers: PanelNumbers)
    ensures
        pretty::header_text(numbers) == text::flat(
            text::no_fields()
                .push(pretty::bar())
                .push(" Duration:   "@)
                .push(text::right_aligned(numbers.duration@, 6))
                .push(" s   "@)
                .push(pretty::bar())
                .push(" Inference: "@)
                .push(text::right_aligned(numbers.inference@, 5))
                .push(" s   "@)
                .push(pretty::bar())
                .push(" RTF: "@)
                .push(numbers.rtf@)
                .push("x\n"@),
        ),
{
    broadcast use text::lemma_flat_push, text::lemma_flat_one;

}

/// The title names what was scored and, for a row, its index.
pub proof fn law_title_fields(label: Seq<char>, i: i32)
    ensures
        pretty::title_text(label, None) == label,
        pretty::title_text(label, Some(i)) == text::flat(
            text::no_fields()
                .push(label)
                .push(" (idx="@)
                .push(text::signed(i as int))
                .push(")"@),
        ),
{
    broadcast use text::lemma_flat_push, text::lemma_flat_one;

}

/// The top border holds the title; a title of up to 74 characters is filled up
/// so that all top borders are equally long.
pub proof fn law_top_border(title: Seq<char>)
    ensures
        forall|other: Seq<char>| title.len() <= 74 && other.len() <= 74 ==> #[trigger] pretty::box_top_text(other).len() == pretty::box_top_text(title).len(),
        pretty::box_top_text(title) == text::flat(
            text::no_fields()
                .push("\n"@)
                .push(pretty::CYAN@)
                .push("┌─ "@)
                .push(title)
                .push(" "@)
                .push(text::fill('─', if title.len() < 74 { (74 - title.len()) as nat } else { 0 }))
                .push(pretty::RESET@)
                .push("\n"@),
        ),
{
    broadcast use text::lemma_flat_push, text::lemma_flat_one;

}

/// A stretch of time shows its start and then its end, behind its label.
pub proof fn law_span_fields(label: Seq<char>, s: SpanText)
    ensures
        pretty::span_text(label, s) == text::flat(
            text::no_fields()
                .push(label)
                .push("["@)
                .push(text::right_aligned(s.start@, 5))
                .push("-"@)
                .push(text::right_aligned(s.end@, 5))
                .push("]"@),
        ),
{
    broadcast use text::lemma_flat_push, text::lemma_flat_one;

}

/// The two sides stand under their names, the reference first.
pub proof fn law_sides_fields(result: AlignmentResult, reference: Seq<Word>, hypothesis: Seq<Word>)
    ensures
        pretty::ref_hyp_text(result, reference, hypothesis) == text::flat(
            text::no_fields()
                .push(pretty::bar())
                .push(" "@)
                .push(pretty::BOLD@)
                .push("REF"@)
                .push(pretty::RESET@)
                .push(": "@)
                .push(pretty::side_text(Side::Ref, result.ops@, result, reference, hypothesis))
                .push("\n"@)
                .push(pretty::bar())
                .push(" "@)
                .push(pretty::BOLD@)
                .push("HYP"@)
                .push(pretty::RESET@)
                .push(": "@)
                .push(pretty::side_text(Side::Hyp, result.ops@, result, reference, hypothesis))
                .push("\n"@),
        ),
{
    broadcast use text::lemma_flat_push, text::lemma_flat_one;

}

/// A match shows, on each side, the words of that side as they are.
pub proof fn law_match_cells(
    op: Op,
    result: AlignmentResult,
    reference: Seq<Word>,
    hypothesis: Seq<Word>,
)
    requires
        op is Match,
    ensures
        pretty::cell_text(Side::Hyp, op, result, reference, hypothesis) == text::flat(
            text::no_fields()
                .push(pretty::tokens_text(result.hyp_tokens@, op->hyp_range, hypothesis))
                .push(" "@),
        ),
        pretty::cell_text(Side::Ref, op, result, reference, hypothesis) == text::flat(
            text::no_fields()
                .push(pretty::tokens_text(result.ref_tokens@, op->ref_range, reference))
                .push(" "@),
        ),
{
    broadcast use text::lemma_flat_push, text::lemma_flat_one;

}

/// A substitution shows the word that was meant in red, and the word that was
/// heard in yellow.
pub proof fn law_sub_cells(
    op: Op,
    result: AlignmentResult,
    reference: Seq<Word>,
    hypothesis: Seq<Word>,
)
    requires
        op is Sub,
    ensures
        pretty::cell_text(Side::Hyp, op, result, reference, hypothesis) == text::flat(
            text::no_fields()
                .push(pretty::YELLOW@)
                .push(pretty::token_text(result.hyp_tokens@, op->Sub_hyp_idx, hypothesis))
                .push(pretty::RESET@)
                .push(" "@),
        ),
        pretty::cell_text(Side::Ref, op, result, reference, hypothesis) == text::flat(
            text::no_fields()
                .push(pretty::RED@)
                .push(pretty::token_text(result.ref_tokens@, op->Sub_ref_idx, reference))
                .push(pretty::RESET@)
                .push(" "@),
        ),
{
    broadcast use text::lemma_flat_push, text::lemma_flat_one;

}

/// A deletion shows the word that was meant in bold red, and a dash for what
/// was heard.
pub proof fn law_del_cells(
    op: Op,
    result: AlignmentResult,
    reference: Seq<Word>,
    hypothesis: Seq<Word>,
)
    requires
        op is Del,
    ensures
        pretty::cell_text(Side::Hyp, op, result, reference, hypothesis) == text::flat(
            text::no_fields()
                .push(pretty::DIM@)
                .push("—"@)
                .push(pretty::RESET@)
                .push(" "@),
        ),
        pretty::cell_text(Side::Ref, op, result, reference, hypothesis) == text::flat(
            text::no_fields()
                .push(pretty::BOLD@)
                .push(pretty::RED@)
                .push(pretty::token_text(result.ref_tokens@, op->Del_ref_idx, reference))
                .push(pretty::RESET@)
                .push(" "@),
        ),
{
    broadcast use text::lemma_flat_push, text::lemma_flat_one;

}

/// An insertion shows a dash for what was meant, and the word that was heard in
/// green.
pub proof fn law_ins_cells(
    op: Op,
    result: AlignmentResult,
    reference: Seq<Word>,
    hypothesis: Seq<Word>,
)
    requires
        op is Ins,
    ensures
        pretty::cell_text(Side::Ref, op, result, reference, hypothesis) == text::flat(
            text::no_fields()
                .push(pretty::DIM@)
                .push("—"@)
                .push(pretty::RESET@)
                .push(" "@),
        ),
        pretty::cell_text(Side::Hyp, op, result, reference, hypothesis) == text::flat(
            text::no_fields()
                .push(pretty::GREEN@)
                .push(pretty::token_text(result.hyp_tokens@, op->Ins_hyp_idx, hypothesis))
                .push(pretty::RESET@)
                .push(" "@),
        ),
{
    broadcast use text::lemma_flat_push, text::lemma_flat_one;

}

/// The row of a match shows its mark, the words of the reference, the times of
/// both sides, and the distance of the midpoints. The mark is a warning exactly
/// if that distance is above the threshold.
pub proof fn law_match_row(
    op: AlignedOp,
    times: RowTimes,
    result: AlignmentResult,
    reference: Seq<Word>,
    hypothesis: Seq<Word>,
    threshold: Number,
)
    requires
        op.op is Match,
    ensures
        pretty::row_text(op, times, result, reference, hypothesis, threshold) == text::flat(
            text::no_fields()
                .push(pretty::bar())
                .push("   "@)
                .push(if op.timing is Both && op.timing->Both_delta.mid_abs.is_above(threshold) { pretty::YELLOW@ + "⚠"@ + pretty::RESET@ + " "@ } else { "  "@ })
                .push(pretty::GREEN@)
                .push("OK "@)
                .push(pretty::RESET@)
                .push("  "@)
                .push(text::left_aligned(pretty::tokens_text(result.ref_tokens@, op.op->ref_range, reference), 24))
                .push("  "@)
                .push(pretty::span_text("ref"@, times.ref_span))
                .push("  "@)
                .push(pretty::span_text("hyp"@, times.hyp_span))
                .push("  Δmid="@)
                .push(times.mid@)
                .push("s\n"@),
        ),
{
    broadcast use text::lemma_flat_push, text::lemma_flat_one;

}

/// The row of a substitution shows the word that was meant and the word that
/// was heard, and then their times.
pub proof fn law_sub_row(
    op: AlignedOp,
    times: RowTimes,
    result: AlignmentResult,
    reference: Seq<Word>,
    hypothesis: Seq<Word>,
    threshold: Number,
)
    requires
        op.op is Sub,
    ensures
        pretty::row_text(op, times, result, reference, hypothesis, threshold) == text::flat(
            text::no_fields()
                .push(pretty::bar())
                .push("     "@)
                .push(pretty::RED@)
                .push("SUB"@)
                .push(pretty::RESET@)
                .push(" "@)
                .push(text::left_aligned(pretty::token_text(result.ref_tokens@, op.op->Sub_ref_idx, reference), 24))
                .push("  →  "@)
                .push(text::left_aligned(pretty::token_text(result.hyp_tokens@, op.op->Sub_hyp_idx, hypothesis), 24))
                .push("  "@)
                .push(pretty::span_text("ref"@, times.ref_span))
                .push("  "@)
                .push(pretty::span_text("hyp"@, times.hyp_span))
                .push("\n"@),
        ),
{
    broadcast use text::lemma_flat_push, text::lemma_flat_one;

}

/// The row of a deletion shows the word that was meant, and its time.
pub proof fn law_del_row(
    op: AlignedOp,
    times: RowTimes,
    result: AlignmentResult,
    reference: Seq<Word>,
    hypothesis: Seq<Word>,
    threshold: Number,
)
    requires
        op.op is Del,
    ensures
        pretty::row_text(op, times, result, reference, hypothesis, threshold) == text::flat(
            text::no_fields()
                .push(pretty::bar())
                .push("     "@)
                .push(pretty::BOLD@)
                .push(pretty::RED@)
                .push("DEL"@)
                .push(pretty::RESET@)
                .push(" "@)
                .push(text::left_aligned(pretty::token_text(result.ref_tokens@, op.op->Del_ref_idx, reference), 24))
                .push("  →  "@)
                .push(pretty::DIM@)
                .push("<missing>"@)
                .push(pretty::RESET@)
                .push("                  "@)
                .push(pretty::span_text("ref"@, times.ref_span))
                .push("\n"@),
        ),
{
    broadcast use text::lemma_flat_push, text::lemma_flat_one;

}

/// The row of an insertion shows the word that was heard, and its time.
pub proof fn law_ins_row(
    op: AlignedOp,
    times: RowTimes,
    result: AlignmentResult,
    reference: Seq<Word>,
    hypothesis: Seq<Word>,
    threshold: Number,
)
    requires
        op.op is Ins,
    ensures
        pretty::row_text(op, times, result, reference, hypothesis, threshold) == text::flat(
            text::no_fields()
                .push(pretty::bar())
                .push("     "@)
                .push(pretty::GREEN@)
                .push("INS"@)
                .push(pretty::RESET@)
                .push(" "@)
                .push(pretty::DIM@)
                .push("<missing>"@)
                .push(pretty::RESET@)
                .push("                  →  "@)
                .push(text::left_aligned(pretty::token_text(result.hyp_tokens@, op.op->Ins_hyp_idx, hypothesis), 24))
                .push("  "@)
                .push(pretty::span_text("hyp"@, times.hyp_span))
                .push("\n"@),
        ),
{
    broadcast use text::lemma_flat_push, text::lemma_flat_one;

}

/// Without times, the row of a match shows the words of the reference.
pub proof fn law_plain_match_row(
    op: Op,
    result: AlignmentResult,
    reference: Seq<Word>,
    hypothesis: Seq<Word>,
)
    requires
        op is Match,
    ensures
        pretty::plain_row_text(op, result, reference, hypothesis) == text::flat(
            text::no_fields()
                .push(pretty::bar())
                .push("     "@)
                .push(pretty::GREEN@)
                .push("OK "@)
                .push(pretty::RESET@)
                .push("  "@)
                .push(pretty::tokens_text(result.ref_tokens@, op->ref_range, reference))
                .push("\n"@),
        ),
{
    broadcast use text::lemma_flat_push, text::lemma_flat_one;

}

/// Without times, the row of a substitution shows the word that was meant and
/// then the word that was heard.
pub proof fn law_plain_sub_row(
    op: Op,
    result: AlignmentResult,
    reference: Seq<Word>,
    hypothesis: Seq<Word>,
)
    requires
        op is Sub,
    ensures
        pretty::plain_row_text(op, result, reference, hypothesis) == text::flat(
            text::no_fields()
                .push(pretty::bar())
                .push("     "@)
                .push(pretty::RED@)
                .push("SUB"@)
                .push(pretty::RESET@)
                .push(" "@)
                .push(text::left_aligned(pretty::token_text(result.ref_tokens@, op->Sub_ref_idx, reference), 24))
                .push("  →  "@)
                .push(pretty::token_text(result.hyp_tokens@, op->Sub_hyp_idx, hypothesis))
                .push("\n"@),
        ),
{
    broadcast use text::lemma_flat_push, text::lemma_flat_one;

}

/// Without times, the row of a deletion shows the word that was meant.
pub proof fn law_plain_del_row(
    op: Op,
    result: AlignmentResult,
    reference: Seq<Word>,
    hypothesis: Seq<Word>,
)
    requires
        op is Del,
    ensures
        pretty::plain_row_text(op, result, reference, hypothesis) == text::flat(
            text::no_fields()
                .push(pretty::bar())
                .push("     "@)
                .push(pretty::BOLD@)
                .push(pretty::RED@)
                .push("DEL"@)
                .push(pretty::RESET@)
                .push(" "@)
                .push(text::left_aligned(pretty::token_text(result.ref_tokens@, op->Del_ref_idx, reference), 24))
                .push("  →  "@)
                .push(pretty::DIM@)
                .push("<missing>"@)
                .push(pretty::RESET@)
                .push("\n"@),
        ),
{
    broadcast use text::lemma_flat_push, text::lemma_flat_one;

}

/// Without times, the row of an insertion shows the word that was heard.
pub proof fn law_plain_ins_row(
    op: Op,
    result: AlignmentResult,
    reference: Seq<Word>,
    hypothesis: Seq<Word>,
)
    requires
        op is Ins,
    ensures
        pretty::plain_row_text(op, result, reference, hypothesis) == text::flat(
            text::no_fields()
                .push(pretty::bar())
                .push("     "@)
                .push(pretty::GREEN@)
                .push("INS"@)
                .push(pretty::RESET@)
                .push(" "@)
                .push(pretty::DIM@)
                .push("<missing>"@)
                .push(pretty::RESET@)
                .push("                  →  "@)
                .push(pretty::token_text(result.hyp_tokens@, op->Ins_hyp_idx, hypothesis))
                .push("\n"@),
        ),
{
    broadcast use text::lemma_flat_push, text::lemma_flat_one;

}

/// The panel of a file with its ground truth: title, header, error rate, drift,
/// the two sides, and a row for each operation.
pub proof fn law_scored_panel(
    label: Seq<char>,
    idx: Option<i32>,
    numbers: PanelNumbers,
    times: Seq<RowTimes>,
    reference: Seq<Word>,
    hypothesis: Seq<Word>,
    result: AlignmentResult,
    t: TimingStats,
    threshold: Number,
)
    ensures
        pretty::scored_panel_text(label, idx, numbers, times, reference, hypothesis, result, t, threshold) == text::flat(
            text::no_fields()
                .push(pretty::box_top_text(pretty::title_text(label, idx)))
                .push(pretty::header_text(numbers))
                .push(pretty::wer_line_text(numbers.wer@, result))
                .push(pretty::timing_line_text(numbers, t))
                .push(pretty::box_mid_text())
                .push(pretty::ref_hyp_text(result, reference, hypothesis))
                .push(pretty::box_mid_text())
                .push(pretty::legend_text())
                .push("; ⚠ = drift>"@)
                .push(numbers.threshold@)
                .push("s):\n"@)
                .push(pretty::rows_text(result.ops@, times, result, reference, hypothesis, threshold))
                .push(pretty::box_bottom_text()),
        ),
{
    broadcast use text::lemma_flat_push, text::lemma_flat_one;

}

/// The panel of a file without ground truth: title, header, no score, and all
/// words that were heard.
pub proof fn law_unscored_panel(
    label: Seq<char>,
    idx: Option<i32>,
    numbers: PanelNumbers,
    hypothesis: Seq<Word>,
)
    ensures
        pretty::unscored_panel_text(label, idx, numbers, hypothesis) == text::flat(
            text::no_fields()
                .push(pretty::box_top_text(pretty::title_text(label, idx)))
                .push(pretty::header_text(numbers))
                .push(pretty::bar())
                .push(" "@)
                .push(pretty::YELLOW@)
                .push("WER:       (no ground truth for this idx)"@)
                .push(pretty::RESET@)
                .push("\n"@)
                .push(pretty::box_mid_text())
                .push(pretty::bar())
                .push(" "@)
                .push(pretty::BOLD@)
                .push("HYP"@)
                .push(pretty::RESET@)
                .push(": "@)
                .push(pretty::words_text(hypothesis, 0, hypothesis.len() as int))
                .push("\n"@)
                .push(pretty::box_bottom_text()),
        ),
{
    broadcast use text::lemma_flat_push, text::lemma_flat_one;

}

/// The panel of a file whose hypothesis has no times: title, length and time,
/// error rate, the two sides, and a row for each operation.
pub proof fn law_plain_panel(
    label: Seq<char>,
    idx: Option<i32>,
    duration: Seq<char>,
    inference: Seq<char>,
    rtf: Seq<char>,
    wer: Seq<char>,
    reference: Seq<Word>,
    hypothesis: Seq<Word>,
    result: AlignmentResult,
)
    ensures
        pretty::plain_panel_text(label, idx, duration, inference, rtf, wer, reference, hypothesis, result) == text::flat(
            text::no_fields()
                .push(pretty::box_top_text(pretty::title_text(label, idx)))
                .push(pretty::bar())
                .push(" Duration:   "@)
                .push(text::right_aligned(duration, 6))
                .push(" s   "@)
                .push(pretty::bar())
                .push(" Inference:  "@)
                .push(text::right_aligned(inference, 6))
                .push(" s   "@)
                .push(pretty::bar())
                .push(" RTF: "@)
                .push(rtf)
                .push("x\n"@)
                .push(pretty::wer_line_text(wer, result))
                .push(pretty::box_mid_text())
                .push(pretty::ref_hyp_text(result, reference, hypothesis))
                .push(pretty::box_mid_text())
                .push(pretty::legend_text())
                .push("):\n"@)
                .push(pretty::plain_rows_text(result.ops@, result, reference, hypothesis))
                .push(pretty::box_bottom_text()),
        ),
{
    broadcast use text::lemma_flat_push, text::lemma_flat_one;

}

/// The summary shows the number of files, the substitutions, deletions,
/// insertions and reference tokens of all of them, each behind its label, and
/// the times and rates in their order.
pub proof fn law_summary_head_reads_back(numbers: SummaryNumbers, totals: CorpusTotals)
    ensures
        text::shows(pretty::summary_head_text(numbers, totals), "Summary over "@, totals.files as nat),
        text::shows(pretty::summary_head_text(numbers, totals), "   (S="@, totals.subs as nat),
        text::shows(pretty::summary_head_text(numbers, totals), " D="@, totals.dels as nat),
        text::shows(pretty::summary_head_text(numbers, totals), " I="@, totals.ins as nat),
        text::shows(pretty::summary_head_text(numbers, totals), "  N="@, totals.ref_total as nat),
        pretty::summary_head_text(numbers, totals) == text::flat(
            text::no_fields()
                .push("\n"@)
                .push(pretty::double_line())
                .push("\n "@)
                .push(pretty::BOLD@)
                .push("Summary over "@)
                .push(text::decimal(totals.files as nat))
                .push(" files"@)
                .push(pretty::RESET@)
                .push("\n   Audio total:          "@)
                .push(numbers.audio@)
                .push("s   ("@)
                .push(numbers.audio_hours@)
                .push("h)\n   Inference total:      "@)
                .push(numbers.inference@)
                .push("s   (mean "@)
                .push(numbers.inference_mean@)
                .push("s/file)\n   Mean RTF:             "@)
                .push(numbers.rtf@)
                .push("x\n   "@)
                .push(pretty::BOLD@)
                .push("Overall WER:          "@)
                .push(numbers.overall_wer@)
                .push("%"@)
                .push(pretty::RESET@)
                .push("   (S="@)
                .push(text::decimal(totals.subs as nat))
                .push(" D="@)
                .push(text::decimal(totals.dels as nat))
                .push(" I="@)
                .push(text::decimal(totals.ins as nat))
                .push("  N="@)
                .push(text::decimal(totals.ref_total as nat))
                .push(")\n   Per-file WER:         min "@)
                .push(numbers.wer_min@)
                .push("%  p25 "@)
                .push(numbers.wer_p25@)
                .push("%  median "@)
                .push(numbers.wer_median@)
                .push("%  p75 "@)
                .push(numbers.wer_p75@)
                .push("%  p95 "@)
                .push(numbers.wer_p95@)
                .push("%  max "@)
                .push(numbers.wer_max@)
                .push("%\n"@),
        ),
{
    broadcast use text::lemma_flat_push, text::lemma_flat_one;

    reveal_strlit(" files");
    reveal_strlit(" D=");
    reveal_strlit(" I=");
    reveal_strlit("  N=");
    reveal_strlit(")\n   Per-file WER:         min ");
    let parts = text::no_fields()
        .push("\n"@)
        .push(pretty::double_line())
        .push("\n "@)
        .push(pretty::BOLD@)
        .push("Summary over "@)
        .push(text::decimal(totals.files as nat))
        .push(" files"@)
        .push(pretty::RESET@)
        .push("\n   Audio total:          "@)
        .push(numbers.audio@)
        .push("s   ("@)
        .push(numbers.audio_hours@)
        .push("h)\n   Inference total:      "@)
        .push(numbers.inference@)
        .push("s   (mean "@)
        .push(numbers.inference_mean@)
        .push("s/file)\n   Mean RTF:             "@)
        .push(numbers.rtf@)
        .push("x\n   "@)
        .push(pretty::BOLD@)
        .push("Overall WER:          "@)
        .push(numbers.overall_wer@)
        .push("%"@)
        .push(pretty::RESET@)
        .push("   (S="@)
        .push(text::decimal(totals.subs as nat))
        .push(" D="@)
        .push(text::decimal(totals.dels as nat))
        .push(" I="@)
        .push(text::decimal(totals.ins as nat))
        .push("  N="@)
        .push(text::decimal(totals.ref_total as nat))
        .push(")\n   Per-file WER:         min "@)
        .push(numbers.wer_min@)
        .push("%  p25 "@)
        .push(numbers.wer_p25@)
        .push("%  median "@)
        .push(numbers.wer_median@)
        .push("%  p75 "@)
        .push(numbers.wer_p75@)
        .push("%  p95 "@)
        .push(numbers.wer_p95@)
        .push("%  max "@)
        .push(numbers.wer_max@)
        .push("%\n"@);
    assert(pretty::summary_head_text(numbers, totals) == text::flat(parts));
    text::lemma_row_shows(parts, 4, totals.files as nat);
    text::lemma_row_shows(parts, 24, totals.subs as nat);
    text::lemma_row_shows(parts, 26, totals.dels as nat);
    text::lemma_row_shows(parts, 28, totals.ins as nat);
    text::lemma_row_shows(parts, 30, totals.ref_total as nat);
}

/// With a matched pair, the summary shows how many pairs matched and how many
/// drift, the mean, the median and the 95 percent mark in this order, the
/// threshold and the share.
pub proof fn law_summary_timing_reads_back(numbers: SummaryNumbers, t: TimingStats)
    requires
        t.matched_pairs > 0,
    ensures
        text::shows(pretty::summary_timing_text(numbers, t), "   Timing (matched="@, t.matched_pairs as nat),
        text::shows(pretty::summary_timing_text(numbers, t), "s)="@, t.high_drift_pairs as nat),
        pretty::summary_timing_text(numbers, t) == text::flat(
            text::no_fields()
                .push("   Timing (matched="@)
                .push(text::decimal(t.matched_pairs as nat))
                .push("):  drift mean/median/p95 = "@)
                .push(numbers.drift_mean@)
                .push("/"@)
                .push(numbers.drift_median@)
                .push("/"@)
                .push(numbers.drift_p95@)
                .push("s   high-drift(>"@)
                .push(numbers.threshold@)
                .push("s)="@)
                .push(text::decimal(t.high_drift_pairs as nat))
                .push(" ("@)
                .push(numbers.drift_share@)
                .push("%)\n"@),
        ),
{
    broadcast use text::lemma_flat_push, text::lemma_flat_one;

    reveal_strlit("):  drift mean/median/p95 = ");
    reveal_strlit(" (");
    let parts = text::no_fields()
        .push("   Timing (matched="@)
        .push(text::decimal(t.matched_pairs as nat))
        .push("):  drift mean/median/p95 = "@)
        .push(numbers.drift_mean@)
        .push("/"@)
        .push(numbers.drift_median@)
        .push("/"@)
        .push(numbers.drift_p95@)
        .push("s   high-drift(>"@)
        .push(numbers.threshold@)
        .push("s)="@)
        .push(text::decimal(t.high_drift_pairs as nat))
        .push(" ("@)
        .push(numbers.drift_share@)
        .push("%)\n"@);
    assert(pretty::summary_timing_text(numbers, t) == text::flat(parts));
    text::lemma_row_shows(parts, 0, t.matched_pairs as nat);
    text::lemma_row_shows(parts, 10, t.high_drift_pairs as nat);
}

/// Without a matched pair, the summary says so.
pub proof fn law_summary_without_pairs(numbers: SummaryNumbers, t: TimingStats)
    requires
        t.matched_pairs == 0,
    ensures
        pretty::summary_timing_text(numbers, t) == text::flat(
            text::no_fields()
                .push("   "@)
                .push(pretty::YELLOW@)
                .push("Timing: no matched pairs (no ground truth aligned)"@)
                .push(pretty::RESET@)
                .push("\n"@),
        ),
{
    broadcast use text::lemma_flat_push, text::lemma_flat_one;

}

/// A summary is its head, the drift, the table of the worst files, and a
/// border.
pub proof fn law_summary_parts(
    files: Seq<FileScore>,
    per_file_numbers: Seq<FileNumbers>,
    totals: CorpusTotals,
    t: TimingStats,
    numbers: SummaryNumbers,
    worst_n: nat,
)
    ensures
        pretty::summary_text(files, per_file_numbers, totals, t, numbers, worst_n) == text::flat(
            text::no_fields()
                .push(pretty::summary_head_text(numbers, totals))
                .push(pretty::summary_timing_text(numbers, t))
                .push(pretty::worst_table_text(files, per_file_numbers, worst_n))
                .push(pretty::double_line())
                .push("\n\n"@),
        ),
{
    broadcast use text::lemma_flat_push, text::lemma_flat_one;

}

/// The row of a file shows its index, its rate, its four counts, the length of
/// the audio, the time that it took, its drift, the share and the number of its
/// matched pairs, and its path, in this order.
pub proof fn law_worst_file_fields(f: FileScore, numbers: FileNumbers)
    ensures
        pretty::worst_row_text(f, numbers) == text::flat(
            text::no_fields()
                .push("     "@)
                .push(text::right_aligned(match f.idx { Some(i) => text::signed(i as int), None => "?"@ }, 6))
                .push("  "@)
                .push(text::right_aligned(numbers.wer@, 6))
                .push("  "@)
                .push(text::right_aligned(text::decimal(f.subs as nat), 4))
                .push(" "@)
                .push(text::right_aligned(text::decimal(f.dels as nat), 4))
                .push(" "@)
                .push(text::right_aligned(text::decimal(f.ins as nat), 4))
                .push(" "@)
                .push(text::right_aligned(text::decimal(f.ref_len as nat), 5))
                .push("  "@)
                .push(text::right_aligned(numbers.duration@, 6))
                .push("  "@)
                .push(text::right_aligned(numbers.transcribe@, 6))
                .push("   "@)
                .push(text::right_aligned(numbers.mean_mid@, 5))
                .push("  "@)
                .push(text::right_aligned(numbers.drift_share@, 5))
                .push("%  "@)
                .push(text::right_aligned(text::decimal(f.matched_pairs as nat), 6))
                .push("   "@)
                .push(f.path@)
                .push("\n"@),
        ),
{
    broadcast use text::lemma_flat_push, text::lemma_flat_one;

}

/// The table of the worst files says how many it has, and has a row for each of
/// them, the worst first.
pub proof fn law_worst_table_fields(files: Seq<FileScore>, numbers: Seq<FileNumbers>, worst_n: nat)
    requires
        files.len() <= usize::MAX,
        files.len() > 0,
        worst_n > 0,
    ensures
        pretty::worst_table_text(files, numbers, worst_n) == text::flat(
            text::no_fields()
                .push("\n   "@)
                .push(pretty::BOLD@)
                .push("Worst "@)
                .push(text::decimal(if worst_n < files.len() { worst_n } else { files.len() }))
                .push(" by WER:"@)
                .push(pretty::RESET@)
                .push("\n"@)
                .push(pretty::worst_heading_text())
                .push(pretty::worst_rows_text(files, numbers, pretty::worst_places(files, worst_n))),
        ),
{
    broadcast use text::lemma_flat_push, text::lemma_flat_one;

    pretty::law_worst_are_worst(files, worst_n);
}

/// The report shows the number of rows, the reference tokens, and the
/// substitutions, deletions and insertions, each behind its label, and the rate
/// and the times in their order.
pub proof fn law_report_head_reads_back(run: ScriptRun, numbers: ReportNumbers)
    ensures
        text::shows(py_bench::report_head_text(run, numbers), "\n=== gigaam_rnnt.py vs ground truth ===\nrows scored : "@, run.scored@.len() as nat),
        text::shows(py_bench::report_head_text(run, numbers), "\nref tokens  : "@, run.total_ref as nat),
        text::shows(py_bench::report_head_text(run, numbers), "\nS / D / I   : "@, run.total_subs as nat),
        text::shows(py_bench::report_head_text(run, numbers), " / "@, run.total_dels as nat),
        text::shows(py_bench::report_head_text(run, numbers), " / "@, run.total_ins as nat),
        py_bench::report_head_text(run, numbers) == text::flat(
            text::no_fields()
                .push("\n=== gigaam_rnnt.py vs ground truth ===\nrows scored : "@)
                .push(text::decimal(run.scored@.len()))
                .push("\nref tokens  : "@)
                .push(text::decimal(run.total_ref as nat))
                .push("\nS / D / I   : "@)
                .push(text::decimal(run.total_subs as nat))
                .push(" / "@)
                .push(text::decimal(run.total_dels as nat))
                .push(" / "@)
                .push(text::decimal(run.total_ins as nat))
                .push("\ncorpus WER  : "@)
                .push(numbers.corpus_wer@)
                .push("%\naudio total : "@)
                .push(numbers.audio@)
                .push("s ("@)
                .push(numbers.audio_hours@)
                .push("h)\nsubprocess  : "@)
                .push(numbers.subprocess@)
                .push("s  (wall-clock, incl. startup + model load)\ninference   : "@)
                .push(numbers.inference@)
                .push("s  (sum of per-row Python timings)\nRTF         : "@)
                .push(numbers.rtf@)
                .push("x  (inference / audio, comparable to gigaam_svod_bench)\n"@),
        ),
{
    broadcast use text::lemma_flat_push, text::lemma_flat_one;

    reveal_strlit("\nref tokens  : ");
    reveal_strlit("\nS / D / I   : ");
    reveal_strlit(" / ");
    reveal_strlit("\ncorpus WER  : ");
    let parts = text::no_fields()
        .push("\n=== gigaam_rnnt.py vs ground truth ===\nrows scored : "@)
        .push(text::decimal(run.scored@.len()))
        .push("\nref tokens  : "@)
        .push(text::decimal(run.total_ref as nat))
        .push("\nS / D / I   : "@)
        .push(text::decimal(run.total_subs as nat))
        .push(" / "@)
        .push(text::decimal(run.total_dels as nat))
        .push(" / "@)
        .push(text::decimal(run.total_ins as nat))
        .push("\ncorpus WER  : "@)
        .push(numbers.corpus_wer@)
        .push("%\naudio total : "@)
        .push(numbers.audio@)
        .push("s ("@)
        .push(numbers.audio_hours@)
        .push("h)\nsubprocess  : "@)
        .push(numbers.subprocess@)
        .push("s  (wall-clock, incl. startup + model load)\ninference   : "@)
        .push(numbers.inference@)
        .push("s  (sum of per-row Python timings)\nRTF         : "@)
        .push(numbers.rtf@)
        .push("x  (inference / audio, comparable to gigaam_svod_bench)\n"@);
    assert(py_bench::report_head_text(run, numbers) == text::flat(parts));
    text::lemma_row_shows(parts, 0, run.scored@.len() as nat);
    text::lemma_row_shows(parts, 2, run.total_ref as nat);
    text::lemma_row_shows(parts, 4, run.total_subs as nat);
    text::lemma_row_shows(parts, 6, run.total_dels as nat);
    text::lemma_row_shows(parts, 8, run.total_ins as nat);
}

/// The row of a scored row shows its index, its reference tokens, its
/// substitutions, deletions and insertions, and its rate, in this order.
pub proof fn law_worst_row_fields(r: RowScore, wer: Seq<char>)
    ensures
        py_bench::worst_row_text(r, wer) == text::flat(
            text::no_fields()
                .push("  "@)
                .push(text::right_aligned(text::signed(r.idx as int), 6))
                .push("  "@)
                .push(text::right_aligned(text::decimal(r.ref_len as nat), 7))
                .push("  "@)
                .push(text::right_aligned(text::decimal(r.subs as nat), 4))
                .push("  "@)
                .push(text::right_aligned(text::decimal(r.dels as nat), 4))
                .push("  "@)
                .push(text::right_aligned(text::decimal(r.ins as nat), 4))
                .push("  "@)
                .push(text::right_aligned(wer, 6))
                .push("%\n"@),
        ),
{
    broadcast use text::lemma_flat_push, text::lemma_flat_one;

}

/// The table of the worst rows says how many it has, and has a line for each of
/// them, the worst first.
pub proof fn law_report_table_fields(rows: Seq<RowScore>, wers: Seq<String>, worst_n: nat)
    requires
        rows.len() <= usize::MAX,
        worst_n > 0,
    ensures
        py_bench::worst_table_text(rows, wers, worst_n) == text::flat(
            text::no_fields()
                .push("\nworst "@)
                .push(text::decimal(if worst_n < rows.len() { worst_n } else { rows.len() }))
                .push(" rows by WER:\n"@)
                .push(py_bench::worst_heading_text())
                .push(py_bench::worst_rows_text(rows, wers, py_bench::worst_places(rows, worst_n))),
        ),
{
    broadcast use text::lemma_flat_push, text::lemma_flat_one;

    py_bench::law_worst_are_worst(rows, worst_n);
}

/// A panel holds the line with the error rate of its result, in either form.
pub proof fn law_panels_hold_the_wer_line(
    label: Seq<char>,
    idx: Option<i32>,
    numbers: PanelNumbers,
    times: Seq<RowTimes>,
    reference: Seq<Word>,
    hypothesis: Seq<Word>,
    result: AlignmentResult,
    t: TimingStats,
    threshold: Number,
)
    ensures
        text::holds(
            pretty::scored_panel_text(
                label,
                idx,
                numbers,
                times,
                reference,
                hypothesis,
                result,
                t,
                threshold,
            ),
            pretty::wer_line_text(numbers.wer@, result),
        ),
        text::holds(
            pretty::plain_panel_text(
                label,
                idx,
                numbers.duration@,
                numbers.inference@,
                numbers.rtf@,
                numbers.wer@,
                reference,
                hypothesis,
                result,
            ),
            pretty::wer_line_text(numbers.wer@, result),
        ),
{
    broadcast use lemma_behind_push;

    let line = pretty::wer_line_text(numbers.wer@, result);
    let front = pretty::box_top_text(pretty::title_text(label, idx)) + pretty::header_text(numbers);
    let rest = text::no_fields()
        .push(pretty::timing_line_text(numbers, t))
        .push(pretty::box_mid_text())
        .push(pretty::ref_hyp_text(result, reference, hypothesis))
        .push(pretty::box_mid_text())
        .push(pretty::legend_text())
        .push("; ⚠ = drift>"@)
        .push(numbers.threshold@)
        .push("s):\n"@)
        .push(
            pretty::rows_text(result.ops@, times, result, reference, hypothesis, threshold),
        )
        .push(pretty::box_bottom_text());
    lemma_behind(front + line, rest);
    text::lemma_holds(front, line, text::flat(rest));
    let plain_front = pretty::box_top_text(pretty::title_text(label, idx)) + pretty::bar()
        + " Duration:   "@ + text::right_aligned(numbers.duration@, 6) + " s   "@ + pretty::bar()
        + " Inference:  "@ + text::right_aligned(numbers.inference@, 6) + " s   "@ + pretty::bar()
        + " RTF: "@ + numbers.rtf@ + "x\n"@;
    let plain_rest = text::no_fields()
        .push(pretty::box_mid_text())
        .push(pretty::ref_hyp_text(result, reference, hypothesis))
        .push(pretty::box_mid_text())
        .push(pretty::legend_text())
        .push("):\n"@)
        .push(pretty::plain_rows_text(result.ops@, result, reference, hypothesis))
        .push(pretty::box_bottom_text());
    lemma_behind(plain_front + line, plain_rest);
    text::lemma_holds(plain_front, line, text::flat(plain_rest));
}

/// `s` with `parts` behind it, one after the other.
spec fn with_behind(s: Seq<char>, parts: Seq<Seq<char>>) -> Seq<char>
    decreases parts.len(),
{
    if parts.len() == 0 {
        s
    } else {
        with_behind(s, parts.drop_last()) + parts.last()
    }
}

broadcast proof fn lemma_behind_push(s: Seq<char>, parts: Seq<Seq<char>>, x: Seq<char>)
    ensures
        #[trigger] with_behind(s, parts.push(x)) == with_behind(s, parts) + x,
{
    assert(parts.push(x).drop_last() =~= parts);
}

proof fn lemma_behind(s: Seq<char>, parts: Seq<Seq<char>>)
    ensures
        with_behind(s, parts) == s + text::flat(parts),
    decreases parts.len(),
{
    if parts.len() == 0 {
        assert(s + text::flat(parts) =~= s);
    } else {
        let init = parts.drop_last();
        lemma_behind(s, init);
        text::lemma_flat_push(init, parts.last());
        assert(init.push(parts.last()) =~= parts);
        assert((s + text::flat(init)) + parts.last() =~= s + (text::flat(init) + parts.last()));
    }
}

/// The alignment table has a row for each operation, in their order, each with
/// its own times.
pub proof fn law_rows_by_operations(
    ops: Seq<AlignedOp>,
    op: AlignedOp,
    times: Seq<RowTimes>,
    result: AlignmentResult,
    reference: Seq<Word>,
    hypothesis: Seq<Word>,
    threshold: Number,
)
    ensures
        ops.len() == 0 ==> pretty::rows_text(
            ops,
            times,
            result,
            reference,
            hypothesis,
            threshold,
        ).len() == 0,
        pretty::rows_text(ops.push(op), times, result, reference, hypothesis, threshold)
            == pretty::rows_text(ops, times, result, reference, hypothesis, threshold)
            + pretty::row_text(
            op,
            times[ops.len() as int],
            result,
            reference,
            hypothesis,
            threshold,
        ),
        ops.len() == 0 ==> pretty::plain_rows_text(ops, result, reference, hypothesis).len() == 0,
        pretty::plain_rows_text(ops.push(op), result, reference, hypothesis)
            == pretty::plain_rows_text(ops, result, reference, hypothesis) + pretty::plain_row_text(
            op.op,
            result,
            reference,
            hypothesis,
        ),
{
    assert(ops.push(op).drop_last() =~= ops);
}

/// A side has a cell for each operation, in their order.
pub proof fn law_side_by_operations(
    side: Side,
    ops: Seq<AlignedOp>,
    op: AlignedOp,
    result: AlignmentResult,
    reference: Seq<Word>,
    hypothesis: Seq<Word>,
)
    ensures
        ops.len() == 0 ==> pretty::side_text(side, ops, result, reference, hypothesis).len() == 0,
        pretty::side_text(side, ops.push(op), result, reference, hypothesis) == pretty::side_text(
            side,
            ops,
            result,
            reference,
            hypothesis,
        ) + pretty::cell_text(side, op.op, result, reference, hypothesis),
{
    assert(ops.push(op).drop_last() =~= ops);
}

/// Words are shown with one space between each two: one word by itself, none as
/// nothing, and two stretches as the one, a space and the other.
pub proof fn law_words_text_by_parts(words: Seq<Word>, a: int, b: int, c: int)
    requires
        0 <= a < b < c <= words.len(),
    ensures
        pretty::words_text(words, a, a).len() == 0,
        pretty::words_text(words, a, a + 1) == words[a].text@,
        pretty::words_text(words, a, c) == pretty::words_text(words, a, b) + " "@
            + pretty::words_text(words, b, c),
{
    let x = pretty::texts(words.subrange(a, b));
    let y = pretty::texts(words.subrange(b, c));
    assert(pretty::texts(words.subrange(a, c)) =~= x + y);
    assert(pretty::texts(words.subrange(a, a)) =~= Seq::empty());
    assert(pretty::texts(words.subrange(a, a + 1)) =~= seq![words[a].text@]);
    text::law_joined_by_parts(words[a].text@, x, y, " "@);
}

/// The text of tokens is the text of the words from the first to the last that
/// they cover; that of one token is that of a list of one.
pub proof fn law_token_texts(
    tokens: Seq<Token>,
    range: Range<usize>,
    idx: usize,
    words: Seq<Word>,
    one: Range<usize>,
)
    requires
        idx < tokens.len(),
        idx < usize::MAX,
        one.start == idx,
        one.end == idx + 1,
    ensures
        ({
            let covered = tokens.subrange(range.start as int, range.end as int);
            pretty::tokens_text(tokens, range, words) == pretty::words_text(
                words,
                wer::tokens_first(covered) as int,
                wer::tokens_last(covered) as int + 1,
            )
        }),
        pretty::token_text(tokens, idx, words) == pretty::tokens_text(tokens, one, words),
        tokens[idx as int].word_indices@.len() > 0 ==> pretty::token_text(tokens, idx, words)
            == pretty::words_text(
            words,
            tokens[idx as int].word_indices@[0] as int,
            tokens[idx as int].word_indices@.last() + 1,
        ),
{
    let tok = tokens[idx as int];
    assert(tokens.subrange(idx as int, idx + 1) =~= seq![tok]);
    wer::law_single_token_range(tok);
    wer::law_token_ends(tok);
}

/// The row of the file at a place.
pub open spec fn file_row(
    files: Seq<FileScore>,
    numbers: Seq<FileNumbers>,
) -> spec_fn(usize) -> Seq<char> {
    |p: usize| pretty::worst_row_text(files[p as int], numbers[p as int])
}

/// The line of the scored row at a place.
pub open spec fn score_line(rows: Seq<RowScore>, wers: Seq<String>) -> spec_fn(usize) -> Seq<char> {
    |p: usize| py_bench::worst_row_text(rows[p as int], wers[p as int]@)
}

/// One more item maps to one more result.
proof fn lemma_map_last(places: Seq<usize>, row: spec_fn(usize) -> Seq<char>)
    requires
        places.len() > 0,
    ensures
        places.map_values(row) == places.drop_last().map_values(row).push(row(places.last())),
{
    assert(places.map_values(row) =~= places.drop_last().map_values(row).push(row(places.last())));
}

/// The rows of the table of a summary are the rows of the files at the places
/// given, in their order.
pub proof fn law_file_rows(
    files: Seq<FileScore>,
    numbers: Seq<FileNumbers>,
    places: Seq<usize>,
)
    ensures
        pretty::worst_rows_text(files, numbers, places) == text::flat(
            places.map_values(file_row(files, numbers)),
        ),
    decreases places.len(),
{
    let row = file_row(files, numbers);
    if places.len() > 0 {
        let init = places.drop_last();
        law_file_rows(files, numbers, init);
        lemma_map_last(places, row);
        text::lemma_flat_push(init.map_values(row), row(places.last()));
    } else {
        assert(places.map_values(row).len() == 0);
    }
}

/// The lines of the table of a report are the lines of the rows at the places
/// given, in their order.
pub proof fn law_score_lines(rows: Seq<RowScore>, wers: Seq<String>, places: Seq<usize>)
    ensures
        py_bench::worst_rows_text(rows, wers, places) == text::flat(
            places.map_values(score_line(rows, wers)),
        ),
    decreases places.len(),
{
    let line = score_line(rows, wers);
    if places.len() > 0 {
        let init = places.drop_last();
        law_score_lines(rows, wers, init);
        lemma_map_last(places, line);
        text::lemma_flat_push(init.map_values(line), line(places.last()));
    } else {
        assert(places.map_values(line).len() == 0);
    }
}

/// Whether `s` holds the table with the rows of the files at `places`, in their
/// order.
pub open spec fn lists(
    s: Seq<char>,
    files: Seq<FileScore>,
    numbers: Seq<FileNumbers>,
    places: Seq<usize>,
) -> bool {
    text::holds(
        s,
        pretty::worst_heading_text() + text::flat(places.map_values(file_row(files, numbers))),
    )
}

/// What a summary prints as its table are the worst files: as many as asked for
/// or all, none twice, the error rate never rising from a row to the next, files
/// with equal rates in the order in which they were scored, and no file without
/// a row above one that has a row.
pub proof fn law_summary_prints_the_worst(
    files: Seq<FileScore>,
    per_file_numbers: Seq<FileNumbers>,
    totals: CorpusTotals,
    t: TimingStats,
    numbers: SummaryNumbers,
    worst_n: nat,
)
    requires
        files.len() <= usize::MAX,
        files.len() > 0,
        worst_n > 0,
    ensures
        exists|places: Seq<usize>|
            {
                &&& #[trigger] lists(
                    pretty::summary_text(files, per_file_numbers, totals, t, numbers, worst_n),
                    files,
                    per_file_numbers,
                    places,
                )
                &&& places.len() == (if worst_n < files.len() {
                    worst_n
                } else {
                    files.len()
                })
                &&& forall|i: int| 0 <= i < places.len() ==> (#[trigger] places[i]) < files.len()
                &&& forall|i: int, j: int|
                    0 <= i < j < places.len() ==> {
                        let a = #[trigger] places[i];
                        let b = #[trigger] places[j];
                        &&& a != b
                        &&& files[a as int].wer.key() >= files[b as int].wer.key()
                        &&& files[a as int].wer.key() == files[b as int].wer.key() ==> a < b
                    }
                &&& forall|i: int, other: usize|
                    #![trigger places[i], files[other as int]]
                    0 <= i < places.len() && other < files.len() && !places.contains(other)
                        ==> files[places[i] as int].wer.key() >= files[other as int].wer.key()
            },
{
    pretty::law_worst_are_worst(files, worst_n);
    lemma_summary_lists(files, per_file_numbers, totals, t, numbers, worst_n);
    let places = pretty::worst_places(files, worst_n);
    assert(lists(
        pretty::summary_text(files, per_file_numbers, totals, t, numbers, worst_n),
        files,
        per_file_numbers,
        places,
    ));
}

proof fn lemma_summary_lists(
    files: Seq<FileScore>,
    per_file_numbers: Seq<FileNumbers>,
    totals: CorpusTotals,
    t: TimingStats,
    numbers: SummaryNumbers,
    worst_n: nat,
)
    requires
        pretty::worst_places(files, worst_n).len() > 0,
    ensures
        lists(
            pretty::summary_text(files, per_file_numbers, totals, t, numbers, worst_n),
            files,
            per_file_numbers,
            pretty::worst_places(files, worst_n),
        ),
{
    let places = pretty::worst_places(files, worst_n);
    law_file_rows(files, per_file_numbers, places);
    let rows = pretty::worst_rows_text(files, per_file_numbers, places);
    let head = pretty::worst_heading_text();
    let intro = "\n   "@ + pretty::BOLD@ + "Worst "@ + text::decimal(places.len()) + " by WER:"@
        + pretty::RESET@ + "\n"@;
    let before = pretty::summary_head_text(numbers, totals) + pretty::summary_timing_text(
        numbers,
        t,
    );
    lemma_regroup(before, intro, head, rows, pretty::double_line(), "\n\n"@);
    text::lemma_holds(before + intro, head + rows, pretty::double_line() + "\n\n"@);
}

proof fn lemma_regroup(
    before: Seq<char>,
    intro: Seq<char>,
    head: Seq<char>,
    rows: Seq<char>,
    line: Seq<char>,
    end: Seq<char>,
)
    ensures
        before + (intro + head + rows) + line + end == (before + intro) + (head + rows) + (line
            + end),
{
    assert(before + (intro + head + rows) + line + end =~= (before + intro) + (head + rows) + (line
        + end));
}

/// Whether `s` holds the table with the lines of the rows at `places`, in their
/// order.
pub open spec fn lists_rows(
    s: Seq<char>,
    rows: Seq<RowScore>,
    wers: Seq<String>,
    places: Seq<usize>,
) -> bool {
    text::holds(
        s,
        py_bench::worst_heading_text() + text::flat(places.map_values(score_line(rows, wers))),
    )
}

/// What a report prints as its table are the worst rows: as many as asked for or
/// all, none twice, the error rate never rising from a line to the next, rows
/// with equal rates in the order in which they were scored, and no row without a
/// line above one that has a line.
pub proof fn law_report_prints_the_worst(rows: Seq<RowScore>, wers: Seq<String>, worst_n: nat)
    requires
        rows.len() <= usize::MAX,
        worst_n > 0,
    ensures
        exists|places: Seq<usize>|
            {
                &&& #[trigger] lists_rows(
                    py_bench::worst_table_text(rows, wers, worst_n),
                    rows,
                    wers,
                    places,
                )
                &&& places.len() == (if worst_n < rows.len() {
                    worst_n
                } else {
                    rows.len()
                })
                &&& forall|i: int| 0 <= i < places.len() ==> (#[trigger] places[i]) < rows.len()
                &&& forall|i: int, j: int|
                    0 <= i < j < places.len() ==> {
                        let a = #[trigger] places[i];
                        let b = #[trigger] places[j];
                        &&& a != b
                        &&& rows[a as int].wer.key() >= rows[b as int].wer.key()
                        &&& rows[a as int].wer.key() == rows[b as int].wer.key() ==> a < b
                    }
                &&& forall|i: int, other: usize|
                    #![trigger places[i], rows[other as int]]
                    0 <= i < places.len() && other < rows.len() && !places.contains(other)
                        ==> rows[places[i] as int].wer.key() >= rows[other as int].wer.key()
            },
{
    let places = py_bench::worst_places(rows, worst_n);
    let table = py_bench::worst_table_text(rows, wers, worst_n);
    py_bench::law_worst_are_worst(rows, worst_n);
    law_score_lines(rows, wers, places);
    let lines = py_bench::worst_rows_text(rows, wers, places);
    let head = py_bench::worst_heading_text();
    let intro = "\nworst "@ + text::decimal(places.len()) + " rows by WER:\n"@;
    assert(table == (intro + head) + lines);
    assert(table =~= (intro + (head + lines)) + Seq::<char>::empty());
    text::lemma_holds(intro, head + lines, Seq::empty());
    assert(lists_rows(table, rows, wers, places));
}

/// There is no table if none is asked for, nor, in a summary, without files.
pub proof fn law_no_table(
    files: Seq<FileScore>,
    numbers: Seq<FileNumbers>,
    rows: Seq<RowScore>,
    wers: Seq<String>,
    worst_n: nat,
)
    requires
        files.len() <= usize::MAX,
    ensures
        worst_n == 0 || files.len() == 0 ==> pretty::worst_table_text(files, numbers, worst_n).len()
            == 0,
        worst_n == 0 ==> py_bench::worst_table_text(rows, wers, worst_n).len() == 0,
{
    pretty::law_worst_are_worst(files, worst_n);
}

proof fn lemma_gap(s: Seq<char>, gap: Seq<char>, w: Seq<char>)
    requires
        gap.len() > 0,
        text::is_blank(gap),
    ensures
        text::words_of(s + gap + w) == text::words_of(s) + text::words_of(w),
    decreases gap.len(),
{
    let rest = gap.drop_first();
    assert(text::is_white_space(gap[0]));
    text::law_words_are_separated(s, gap[0], rest + w);
    assert((s + gap) + w =~= s.push(gap[0]) + (rest + w));
    if rest.len() > 0 {
        assert forall|i: int| 0 <= i < rest.len() implies text::is_white_space(
            #[trigger] rest[i],
        ) by {
            assert(rest[i] == gap[i + 1]);
        }
        let none = Seq::<char>::empty();
        lemma_gap(none, rest, w);
        text::law_one_word(none);
        assert((none + rest) + w =~= rest + w);
        assert(text::words_of(none) + text::words_of(w) =~= text::words_of(w));
    } else {
        assert(rest + w =~= w);
    }
}

/// A field behind a gap adds its word.
proof fn lemma_field(s: Seq<char>, gap: Seq<char>, w: Seq<char>, width: nat)
    requires
        gap.len() > 0,
        text::is_blank(gap),
        text::is_word(w),
    ensures
        text::words_of(s + gap + text::right_aligned(w, width)) == text::words_of(s).push(w),
{
    let pad = text::fill(
        ' ',
        if w.len() < width {
            (width - w.len()) as nat
        } else {
            0
        },
    );
    assert(text::right_aligned(w, width) =~= pad + w);
    assert((s + gap) + (pad + w) =~= (s + (gap + pad)) + w);
    assert(text::is_white_space(' '));
    assert forall|i: int| 0 <= i < (gap + pad).len() implies text::is_white_space(
        #[trigger] (gap + pad)[i],
    ) by {
        if i < gap.len() {
            assert((gap + pad)[i] == gap[i]);
        }
    }
    lemma_gap(s, gap + pad, w);
    text::law_one_word(w);
    assert(text::words_of(s) + seq![w] =~= text::words_of(s).push(w));
}

proof fn lemma_number_words(n: nat, i: int)
    ensures
        text::is_word(text::decimal(n)),
        text::is_word(text::signed(i)),
{
    lemma_decimal_word(n);
    lemma_decimal_word(
        if i < 0 {
            (-i) as nat
        } else {
            i as nat
        },
    );
    text::law_signed_form(i);
    let s = text::signed(i);
    let digits = text::decimal(
        if i < 0 {
            (-i) as nat
        } else {
            i as nat
        },
    );
    assert forall|k: int| 0 <= k < s.len() implies !text::is_white_space(#[trigger] s[k]) by {
        if i < 0 && k > 0 {
            assert(s[k] == digits[k - 1]);
        }
    }
}

proof fn lemma_decimal_word(n: nat)
    ensures
        text::is_word(text::decimal(n)),
{
    text::law_decimal_reads_back(n);
    let d = text::decimal(n);
    assert forall|k: int| 0 <= k < d.len() implies !text::is_white_space(#[trigger] d[k]) by {
        text::law_all_digits(d, k);
    }
}

/// The columns of a row of the report can be read back: the words of the row are
/// the index, the reference tokens, the substitutions, the deletions, the
/// insertions and the rate.
pub proof fn law_report_row_reads_back(r: RowScore, wer: Seq<char>)
    requires
        text::is_word(wer),
    ensures
        text::words_of(py_bench::worst_row_text(r, wer)) == seq![
            text::signed(r.idx as int),
            text::decimal(r.ref_len as nat),
            text::decimal(r.subs as nat),
            text::decimal(r.dels as nat),
            text::decimal(r.ins as nat),
            wer.push('%'),
        ],
{
    reveal_strlit("  ");
    reveal_strlit("%\n");
    let none = Seq::<char>::empty();
    let gap = "  "@;
    lemma_number_words(r.ref_len as nat, r.idx as int);
    lemma_number_words(r.subs as nat, 0);
    lemma_number_words(r.dels as nat, 0);
    lemma_number_words(r.ins as nat, 0);
    text::law_one_word(none);
    let a = none + gap + text::right_aligned(text::signed(r.idx as int), 6);
    let b = a + gap + text::right_aligned(text::decimal(r.ref_len as nat), 7);
    let c = b + gap + text::right_aligned(text::decimal(r.subs as nat), 4);
    let d = c + gap + text::right_aligned(text::decimal(r.dels as nat), 4);
    let e = d + gap + text::right_aligned(text::decimal(r.ins as nat), 4);
    lemma_field(none, gap, text::signed(r.idx as int), 6);
    lemma_field(a, gap, text::decimal(r.ref_len as nat), 7);
    lemma_field(b, gap, text::decimal(r.subs as nat), 4);
    lemma_field(c, gap, text::decimal(r.dels as nat), 4);
    lemma_field(d, gap, text::decimal(r.ins as nat), 4);
    let rate = wer.push('%');
    assert(none + gap =~= gap);
    lemma_percent(e, gap, wer, 6);
    assert(py_bench::worst_row_text(r, wer) == e + gap + text::right_aligned(wer, 6) + "%\n"@);
    assert("%\n"@ =~= seq!['%', '\n']);
    let line = e + gap + text::right_aligned(wer, 6).push('%');
    text::law_words_are_separated(line, '\n', none);
    assert((line.push('\n') + none) =~= e + gap + text::right_aligned(wer, 6) + "%\n"@);
    assert(text::words_of(line) + text::words_of(none) =~= text::words_of(line));
}

/// A field with a percent sign behind it adds one word.
proof fn lemma_percent(s: Seq<char>, gap: Seq<char>, w: Seq<char>, width: nat)
    requires
        gap.len() > 0,
        text::is_blank(gap),
        text::is_word(w),
    ensures
        text::words_of(s + gap + text::right_aligned(w, width).push('%')) == text::words_of(s).push(
            w.push('%'),
        ),
{
    let rate = w.push('%');
    assert forall|k: int| 0 <= k < rate.len() implies !text::is_white_space(#[trigger] rate[k]) by {
        if k < w.len() {
            assert(rate[k] == w[k]);
        }
    }
    lemma_field(s, gap, rate, width + 1);
    assert(text::right_aligned(w, width).push('%') =~= text::right_aligned(rate, width + 1));
}

/// The columns of a row of the summary can be read back: the words of the row
/// are the index, the rate, the substitutions, the deletions, the insertions,
/// the reference tokens, the length of the audio, the time that it took, the
/// drift, the share, the number of matched pairs, and the path.
pub proof fn law_summary_row_reads_back(f: FileScore, numbers: FileNumbers, idx: i32)
    requires
        f.idx == Some(idx),
        text::is_word(numbers.wer@),
        text::is_word(numbers.duration@),
        text::is_word(numbers.transcribe@),
        text::is_word(numbers.mean_mid@),
        text::is_word(numbers.drift_share@),
        text::is_word(f.path@),
    ensures
        text::words_of(pretty::worst_row_text(f, numbers)) == seq![
            text::signed(idx as int),
            numbers.wer@,
            text::decimal(f.subs as nat),
            text::decimal(f.dels as nat),
            text::decimal(f.ins as nat),
            text::decimal(f.ref_len as nat),
            numbers.duration@,
            numbers.transcribe@,
            numbers.mean_mid@,
            numbers.drift_share@.push('%'),
            text::decimal(f.matched_pairs as nat),
            f.path@,
        ],
{
    reveal_strlit("     ");
    reveal_strlit("  ");
    reveal_strlit(" ");
    reveal_strlit("   ");
    reveal_strlit("%  ");
    reveal_strlit("\n");
    let none = Seq::<char>::empty();
    lemma_number_words(f.ref_len as nat, idx as int);
    lemma_number_words(f.subs as nat, 0);
    lemma_number_words(f.dels as nat, 0);
    lemma_number_words(f.ins as nat, 0);
    lemma_number_words(f.matched_pairs as nat, 0);
    text::law_one_word(none);
    let a = none + "     "@ + text::right_aligned(text::signed(idx as int), 6);
    let b = a + "  "@ + text::right_aligned(numbers.wer@, 6);
    let c = b + "  "@ + text::right_aligned(text::decimal(f.subs as nat), 4);
    let d = c + " "@ + text::right_aligned(text::decimal(f.dels as nat), 4);
    let e = d + " "@ + text::right_aligned(text::decimal(f.ins as nat), 4);
    let g = e + " "@ + text::right_aligned(text::decimal(f.ref_len as nat), 5);
    let h = g + "  "@ + text::right_aligned(numbers.duration@, 6);
    let i = h + "  "@ + text::right_aligned(numbers.transcribe@, 6);
    let j = i + "   "@ + text::right_aligned(numbers.mean_mid@, 5);
    let k = j + "  "@ + text::right_aligned(numbers.drift_share@, 5).push('%');
    let l = k + "  "@ + text::right_aligned(text::decimal(f.matched_pairs as nat), 6);
    let m = l + "   "@ + text::right_aligned(f.path@, 0);
    lemma_field(none, "     "@, text::signed(idx as int), 6);
    lemma_field(a, "  "@, numbers.wer@, 6);
    lemma_field(b, "  "@, text::decimal(f.subs as nat), 4);
    lemma_field(c, " "@, text::decimal(f.dels as nat), 4);
    lemma_field(d, " "@, text::decimal(f.ins as nat), 4);
    lemma_field(e, " "@, text::decimal(f.ref_len as nat), 5);
    lemma_field(g, "  "@, numbers.duration@, 6);
    lemma_field(h, "  "@, numbers.transcribe@, 6);
    lemma_field(i, "   "@, numbers.mean_mid@, 5);
    lemma_percent(j, "  "@, numbers.drift_share@, 5);
    lemma_field(k, "  "@, text::decimal(f.matched_pairs as nat), 6);
    lemma_field(l, "   "@, f.path@, 0);
    assert(none + "     "@ =~= "     "@);
    let share = text::right_aligned(numbers.drift_share@, 5);
    assert(((j + "  "@) + share) + "%  "@ =~= k + "  "@);
    text::law_words_are_separated(m, '\n', none);
    assert(m.push('\n') + none =~= m + "\n"@);
    assert(text::words_of(m) + text::words_of(none) =~= text::words_of(m));
    assert(pretty::worst_row_text(f, numbers) == m + "\n"@);
}

/// The row and the line at a place are those of the item that stands there.
pub proof fn law_rows_at_places(
    files: Seq<FileScore>,
    numbers: Seq<FileNumbers>,
    rows: Seq<RowScore>,
    wers: Seq<String>,
    p: usize,
)
    ensures
        file_row(files, numbers)(p) == pretty::worst_row_text(files[p as int], numbers[p as int]),
        score_line(rows, wers)(p) == py_bench::worst_row_text(rows[p as int], wers[p as int]@),
{
}

/// The ANSI codes of the styles.
pub proof fn law_styles()
    ensures
        pretty::RESET@ == "\x1b[0m"@,
        pretty::BOLD@ == "\x1b[1m"@,
        pretty::DIM@ == "\x1b[2m"@,
        pretty::RED@ == "\x1b[31m"@,
        pretty::GREEN@ == "\x1b[32m"@,
        pretty::YELLOW@ == "\x1b[33m"@,
        pretty::CYAN@ == "\x1b[36m"@,
        pretty::bar() == pretty::CYAN@ + "│"@ + pretty::RESET@,
{
}

} // verus!
