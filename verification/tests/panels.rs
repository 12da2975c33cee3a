//! The panels and the summary, held against formatting by `format!`.
use stt_bench::bench::{corpus_totals, FileScore, Ratio};
use stt_bench::number::Number;
use stt_bench::pretty::{
    alignment_row, alignment_row_no_timing, fits, fmt_span, fmt_words_colored, join_text,
    percentile, print_single, print_single_wer_only, print_summary, quantiles, timed, worst,
    FileNumbers, PanelNumbers, RowTimes, Side, SpanText, SummaryNumbers, BOLD, CYAN, DIM, GREEN,
    RED, RESET, YELLOW,
};
use stt_bench::wer::{
    timing_stats, AlignedOp, AlignmentResult, Op, OpTiming, SpanDelta, TimeSpan, TimingStats, Token, Word,
};

fn num(x: f64) -> Number {
    Number { bits: x.to_bits() }
}

fn words(texts: &[&str]) -> Vec<Word> {
    texts
        .iter()
        .enumerate()
        .map(|(i, t)| Word::new(t.to_string(), num(i as f64), num(i as f64 + 0.5)))
        .collect()
}

fn token(indices: &[usize]) -> Token {
    Token {
        word_indices: indices.to_vec(),
    }
}

fn timing(mid: f64) -> OpTiming {
    let s = TimeSpan {
        start: num(1.0),
        end: num(2.0),
    };
    OpTiming::Both {
        ref_span: s,
        hyp_span: s,
        delta: SpanDelta {
            mid_abs: num(mid),
            start_signed: num(mid),
            end_signed: num(mid),
        },
    }
}

fn op(op: Op, mid: f64) -> AlignedOp {
    AlignedOp {
        op,
        timing: timing(mid),
    }
}

/// Four operations: a match of two words with one, a substitution, a deletion
/// and an insertion.
fn sample() -> (AlignmentResult, Vec<Word>, Vec<Word>) {
    let reference = words(&["вице", "президент", "сказал", "нет"]);
    let hypothesis = words(&["вицепрезидент", "сказали", "да"]);
    let result = AlignmentResult {
        ops: vec![
            op(
                Op::Match {
                    ref_range: 0..2,
                    hyp_range: 0..1,
                },
                1.5,
            ),
            op(
                Op::Sub {
                    ref_idx: 2,
                    hyp_idx: 1,
                },
                0.0,
            ),
            op(Op::Del { ref_idx: 3 }, 0.0),
            op(Op::Ins { hyp_idx: 2 }, 0.0),
        ],
        ref_tokens: vec![token(&[0]), token(&[1]), token(&[2]), token(&[3])],
        hyp_tokens: vec![token(&[0]), token(&[1]), token(&[2])],
        wer: num(0.75),
        substitutions: 1,
        deletions: 1,
        insertions: 1,
        ref_token_count: 4,
    };
    (result, reference, hypothesis)
}

fn row_times() -> RowTimes {
    RowTimes {
        ref_span: SpanText {
            start: "0.00".to_string(),
            end: "12.50".to_string(),
        },
        hyp_span: SpanText {
            start: "1.25".to_string(),
            end: "101.75".to_string(),
        },
        mid: "1.50".to_string(),
    }
}

fn times4() -> Vec<RowTimes> {
    (0..4).map(|_| row_times()).collect()
}

fn panel_numbers() -> PanelNumbers {
    PanelNumbers {
        duration: "60.00".to_string(),
        inference: "1.25".to_string(),
        rtf: "0.021".to_string(),
        wer: "75.00".to_string(),
        mean: "1.50".to_string(),
        median: "1.50".to_string(),
        p95: "1.50".to_string(),
        threshold: "1.0".to_string(),
    }
}

fn stats(matched: usize, high: usize) -> TimingStats {
    TimingStats {
        matched_pairs: matched,
        mid_abs_deltas: Vec::new(),
        start_signed_deltas: Vec::new(),
        end_signed_deltas: Vec::new(),
        high_drift_pairs: high,
    }
}

const REF_LINE: &str = "вице президент \x1b[31mсказал\x1b[0m \x1b[1m\x1b[31mнет\x1b[0m \x1b[2m—\x1b[0m ";
const HYP_LINE: &str =
    "вицепрезидент \x1b[33mсказали\x1b[0m \x1b[2m—\x1b[0m \x1b[32mда\x1b[0m ";

#[test]
fn words_are_joined_by_spaces() {
    let w = words(&["а", "б", "в"]);
    assert_eq!(join_text(&w, 0..3), "а б в");
    assert_eq!(join_text(&w, 1..2), "б");
    assert_eq!(join_text(&w, 2..2), "");
}

#[test]
fn sides_are_colored() {
    let (result, r, h) = sample();
    assert!(fits(&result, &r, &h));
    assert_eq!(fmt_words_colored(Side::Ref, &result, &r, &h), REF_LINE);
    assert_eq!(fmt_words_colored(Side::Hyp, &result, &r, &h), HYP_LINE);
}

#[test]
fn rendering_goes_operation_by_operation() {
    let (mut result, r, h) = sample();
    let tail = result.ops.split_off(2);
    let front = fmt_words_colored(Side::Hyp, &result, &r, &h);
    result.ops = tail;
    let back = fmt_words_colored(Side::Hyp, &result, &r, &h);
    assert_eq!(front + &back, HYP_LINE);
}

#[test]
fn misfits_are_noticed() {
    let (mut result, r, h) = sample();
    assert!(!fits(&result, &r[..3], &h));
    assert!(!fits(&result, &r, &h[..2]));
    result.ref_tokens[3] = token(&[usize::MAX]);
    assert!(!fits(&result, &r, &h));
    result.ref_tokens.pop();
    assert!(!fits(&result, &r, &h));
    let (mut result, r, h) = sample();
    result.ref_tokens[1] = token(&[usize::MAX]);
    assert!(!fits(&result, &r, &h));
    let (mut result, r, h) = sample();
    assert!(timed(&result));
    let s = TimeSpan {
        start: num(1.0),
        end: num(2.0),
    };
    result.ops[2].timing = OpTiming::Ref(s);
    result.ops[3].timing = OpTiming::Hyp(s);
    assert!(timed(&result));
    result.ops[0].timing = OpTiming::Ref(s);
    assert!(!timed(&result));
    assert!(fits(&result, &r, &h));
}

#[test]
fn percentile_is_the_nearest_rank() {
    let sorted: Vec<Number> = (0..11).map(|i| num(i as f64)).collect();
    assert_eq!(percentile(&sorted, 1, 2), num(5.0));
    assert_eq!(percentile(&sorted, 19, 20), num(10.0));
    assert_eq!(percentile(&sorted, 1, 4), num(3.0));
    assert_eq!(percentile(&sorted, 0, 7), num(0.0));
    assert_eq!(percentile(&sorted, 3, 2), num(10.0));
    assert_eq!(percentile(&[], 1, 2), num(0.0));
    let q = quantiles(&sorted);
    assert_eq!((q.min, q.max), (num(0.0), num(10.0)));
    assert_eq!((q.p25, q.median, q.p75, q.p95), (num(3.0), num(5.0), num(8.0), num(10.0)));
    assert_eq!(quantiles(&[]).max, num(0.0));
}

#[test]
fn percentile_agrees_with_doubles() {
    for n in 1..3000usize {
        let sorted: Vec<Number> = (0..n).map(|i| num(i as f64)).collect();
        for (num_, den, q) in [(1, 4, 0.25), (1, 2, 0.5), (3, 4, 0.75), (19, 20, 0.95f64)] {
            let idx = ((n as f64 - 1.0) * q).round();
            assert_eq!(percentile(&sorted, num_, den), num(idx));
        }
    }
}

#[test]
fn spans() {
    let t = row_times();
    assert_eq!(fmt_span("ref", &t.ref_span), format!("ref[{:>5.2}-{:>5.2}]", 0.0, 12.5));
    assert_eq!(fmt_span("hyp", &t.hyp_span), format!("hyp[{:>5.2}-{:>5.2}]", 1.25, 101.75));
}

#[test]
fn rows_with_times() {
    let (result, r, h) = sample();
    let t = row_times();
    let r_lo = fmt_span("ref", &t.ref_span);
    let h_lo = fmt_span("hyp", &t.hyp_span);
    let row = |i: usize, threshold: f64| {
        alignment_row(&result.ops[i], &t, &result, &r, &h, num(threshold))
    };
    let dmid = 1.5;
    let tx = "вице президент";
    let flag = format!("{YELLOW}⚠{RESET} ");
    assert_eq!(
        row(0, 1.0),
        format!("{CYAN}│{RESET}   {flag}{GREEN}OK {RESET}  {tx:<24}  {r_lo}  {h_lo}  Δmid={dmid:.2}s\n"),
    );
    let flag = "  ";
    assert_eq!(
        row(0, 1.5),
        format!("{CYAN}│{RESET}   {flag}{GREEN}OK {RESET}  {tx:<24}  {r_lo}  {h_lo}  Δmid={dmid:.2}s\n"),
    );
    let (rtxt, htxt) = ("сказал", "сказали");
    assert_eq!(
        row(1, 1.0),
        format!("{CYAN}│{RESET}     {RED}SUB{RESET} {rtxt:<24}  →  {htxt:<24}  {r_lo}  {h_lo}\n"),
    );
    let rtxt = "нет";
    assert_eq!(
        row(2, 1.0),
        format!("{CYAN}│{RESET}     {BOLD}{RED}DEL{RESET} {rtxt:<24}  →  {DIM}<missing>{RESET}                  {r_lo}\n"),
    );
    let htxt = "да";
    assert_eq!(
        row(3, 1.0),
        format!("{CYAN}│{RESET}     {GREEN}INS{RESET} {DIM}<missing>{RESET}                  →  {htxt:<24}  {h_lo}\n"),
    );
}

#[test]
fn rows_without_times() {
    let (result, r, h) = sample();
    let row = |i: usize| alignment_row_no_timing(&result.ops[i].op, &result, &r, &h);
    assert_eq!(
        row(0),
        format!("{CYAN}│{RESET}     {GREEN}OK {RESET}  {tx}\n", tx = "вице президент")
    );
    assert_eq!(
        row(1),
        format!(
            "{CYAN}│{RESET}     {RED}SUB{RESET} {rtxt:<24}  →  {htxt}\n",
            rtxt = "сказал",
            htxt = "сказали"
        )
    );
    assert_eq!(
        row(2),
        format!(
            "{CYAN}│{RESET}     {BOLD}{RED}DEL{RESET} {rtxt:<24}  →  {DIM}<missing>{RESET}\n",
            rtxt = "нет"
        )
    );
    assert_eq!(
        row(3),
        format!(
            "{CYAN}│{RESET}     {GREEN}INS{RESET} {DIM}<missing>{RESET}                  →  {htxt}\n",
            htxt = "да"
        )
    );
}

fn top(title: &str) -> String {
    format!(
        "\n{CYAN}┌─ {title} {}{RESET}\n",
        "─".repeat(78usize.saturating_sub(title.chars().count() + 4)),
    )
}

#[test]
fn panel_with_truth() {
    let (result, r, h) = sample();
    let times = times4();
    let got = print_single(
        "dataset[idx=7]",
        Some(7),
        &panel_numbers(),
        &times,
        &r,
        &h,
        true,
        &result,
        &stats(1, 1),
        num(1.0),
    );
    let (duration_s, transcribe_s, rtf) = (60.0, 1.25, 0.021);
    let mut want = top("dataset[idx=7] (idx=7)");
    want += &format!("{CYAN}│{RESET} Duration:   {duration_s:6.2} s   {CYAN}│{RESET} Inference: {transcribe_s:5.2} s   {CYAN}│{RESET} RTF: {rtf:.3}x\n");
    want += &format!(
        "{CYAN}│{RESET} WER:       {wer:6.2} %   {CYAN}│{RESET} S={s} D={d} I={i}  N={n}\n",
        wer = 75.0,
        s = 1,
        d = 1,
        i = 1,
        n = 4
    );
    want += &format!(
        "{CYAN}│{RESET} Timing:    matched={mp}  drift mean/median/p95 = {mean:.2}/{med:.2}/{p95:.2}s   high-drift(>{dt:.1}s)={hd}\n",
        mp = 1,
        mean = 1.5,
        med = 1.5,
        p95 = 1.5,
        dt = 1.0,
        hd = 1
    );
    let mid = format!("{CYAN}├{}{RESET}\n", "─".repeat(78));
    want += &mid;
    want += &format!("{CYAN}│{RESET} {BOLD}REF{RESET}: {REF_LINE}\n");
    want += &format!("{CYAN}│{RESET} {BOLD}HYP{RESET}: {HYP_LINE}\n");
    want += &mid;
    want += &format!(
        "{CYAN}│{RESET} {BOLD}Alignment{RESET}  ({GREEN}match{RESET}, {RED}sub{RESET}, {BOLD}{RED}del{RESET}, {GREEN}ins{RESET}; ⚠ = drift>{:.1}s):\n",
        1.0
    );
    for o in &result.ops {
        want += &alignment_row(o, &row_times(), &result, &r, &h, num(1.0));
    }
    want += &format!("{CYAN}└{}{RESET}\n\n", "─".repeat(78));
    assert_eq!(got, want);
}

#[test]
fn flags_are_those_that_the_statistics_count() {
    let (result, r, h) = sample();
    for (threshold, flags) in [(1.0, 1), (1.5, 0), (2.0, 0)] {
        let table: String = result
            .ops
            .iter()
            .map(|o| alignment_row(o, &row_times(), &result, &r, &h, num(threshold)))
            .collect();
        assert_eq!(table.matches('⚠').count(), flags);
        assert_eq!(timing_stats(&result, num(threshold)).high_drift_pairs, flags);
    }
}

#[test]
fn panel_without_truth() {
    let (result, _, h) = sample();
    let got = print_single(
        "/tmp/test.wav",
        None,
        &panel_numbers(),
        &Vec::new(),
        &[],
        &h,
        false,
        &result,
        &stats(0, 0),
        num(1.0),
    );
    let (duration_s, transcribe_s, rtf) = (60.0, 1.25, 0.021);
    let mut want = top("/tmp/test.wav");
    want += &format!("{CYAN}│{RESET} Duration:   {duration_s:6.2} s   {CYAN}│{RESET} Inference: {transcribe_s:5.2} s   {CYAN}│{RESET} RTF: {rtf:.3}x\n");
    want += &format!("{CYAN}│{RESET} {YELLOW}WER:       (no ground truth for this idx){RESET}\n");
    want += &format!("{CYAN}├{}{RESET}\n", "─".repeat(78));
    want += &format!("{CYAN}│{RESET} {BOLD}HYP{RESET}: вицепрезидент сказали да\n");
    want += &format!("{CYAN}└{}{RESET}\n\n", "─".repeat(78));
    assert_eq!(got, want);
}

#[test]
fn no_timing_line_without_a_matched_pair() {
    let (result, r, h) = sample();
    let got = print_single(
        "x",
        Some(-3),
        &panel_numbers(),
        &times4(),
        &r,
        &h,
        true,
        &result,
        &stats(0, 0),
        num(1.0),
    );
    assert!(!got.contains("Timing:"));
    assert!(got.contains("x (idx=-3) ─"));
}

#[test]
fn long_titles_get_no_fill() {
    let (result, r, h) = sample();
    let title = "я".repeat(80);
    let got = print_single_wer_only(&title, None, "1", "2", "3", "4", &r, &h, &result);
    assert!(got.starts_with(&top(&title)));
    assert!(got.starts_with(&format!("\n{CYAN}┌─ {title} {RESET}\n")));
}

#[test]
fn panel_without_times() {
    let (result, r, h) = sample();
    let got = print_single_wer_only(
        "gigaam_rnnt.py[idx=7]",
        Some(7),
        "60.00",
        "1.25",
        "0.021",
        "75.00",
        &r,
        &h,
        &result,
    );
    let (duration_s, inference_s, rtf) = (60.0, 1.25, 0.021);
    let mut want = top("gigaam_rnnt.py[idx=7] (idx=7)");
    want += &format!("{CYAN}│{RESET} Duration:   {duration_s:6.2} s   {CYAN}│{RESET} Inference:  {inference_s:6.2} s   {CYAN}│{RESET} RTF: {rtf:.3}x\n");
    want += &format!(
        "{CYAN}│{RESET} WER:       {wer:6.2} %   {CYAN}│{RESET} S=1 D=1 I=1  N=4\n",
        wer = 75.0
    );
    let mid = format!("{CYAN}├{}{RESET}\n", "─".repeat(78));
    want += &mid;
    want += &format!("{CYAN}│{RESET} {BOLD}REF{RESET}: {REF_LINE}\n");
    want += &format!("{CYAN}│{RESET} {BOLD}HYP{RESET}: {HYP_LINE}\n");
    want += &mid;
    want += &format!(
        "{CYAN}│{RESET} {BOLD}Alignment{RESET}  ({GREEN}match{RESET}, {RED}sub{RESET}, {BOLD}{RED}del{RESET}, {GREEN}ins{RESET}):\n"
    );
    for o in &result.ops {
        want += &alignment_row_no_timing(&o.op, &result, &r, &h);
    }
    want += &format!("{CYAN}└{}{RESET}\n\n", "─".repeat(78));
    assert_eq!(got, want);
}

fn file(idx: Option<i32>, wer: f64, subs: usize, ref_len: usize) -> FileScore {
    FileScore {
        idx,
        path: format!("idx{:05}", idx.unwrap_or(0)),
        duration_s: num(60.0),
        transcribe_s: num(1.5),
        wer: num(wer),
        subs,
        dels: 2,
        ins: 3,
        ref_len,
        matched_pairs: 8,
        high_drift_pairs: 2,
        mean_abs_mid_s: num(0.25),
    }
}

fn summary_numbers() -> SummaryNumbers {
    let s = |t: &str| t.to_string();
    SummaryNumbers {
        audio: s("180.0"),
        audio_hours: s("0.05"),
        inference: s("4.5"),
        inference_mean: s("1.50"),
        rtf: s("0.025"),
        overall_wer: s("6.00"),
        wer_min: s("1.00"),
        wer_p25: s("2.00"),
        wer_median: s("3.00"),
        wer_p75: s("4.00"),
        wer_p95: s("5.00"),
        wer_max: s("6.00"),
        drift_mean: s("0.10"),
        drift_median: s("0.20"),
        drift_p95: s("0.30"),
        threshold: s("1.0"),
        drift_share: s("25.0"),
    }
}

fn file_numbers(wer: &str) -> FileNumbers {
    FileNumbers {
        wer: wer.to_string(),
        duration: "60.0".to_string(),
        transcribe: "1.50".to_string(),
        mean_mid: "0.25".to_string(),
        drift_share: "25.0".to_string(),
    }
}

#[test]
fn totals_are_sums() {
    let files = vec![
        file(Some(1), 0.5, 1, 10),
        file(Some(2), 0.25, 4, 20),
        file(None, 0.5, 0, 0),
    ];
    let t = corpus_totals(&files).unwrap();
    assert_eq!((t.files, t.subs, t.dels, t.ins, t.ref_total), (3, 5, 6, 9, 30));
    assert_eq!(t.overall, Ratio { num: 20, den: 30 });
    assert_eq!(t.wers, vec![num(0.25), num(0.5), num(0.5)]);
    let empty = corpus_totals(&[]).unwrap();
    assert_eq!(empty.overall, Ratio { num: 0, den: 1 });
    assert!(corpus_totals(&[file(None, 0.0, usize::MAX, 1)]).is_none());
    assert!(corpus_totals(&[file(None, 0.0, 1, usize::MAX), file(None, 0.0, 1, 1)]).is_none());
}

#[test]
fn totals_of_parts_add_up() {
    let files = vec![
        file(Some(1), 0.5, 1, 10),
        file(Some(2), 0.25, 4, 20),
        file(None, 0.5, 0, 5),
    ];
    let whole = corpus_totals(&files).unwrap();
    let a = corpus_totals(&files[..1]).unwrap();
    let b = corpus_totals(&files[1..]).unwrap();
    assert_eq!(whole.overall.num, a.overall.num + b.overall.num);
    assert_eq!(whole.overall.den, a.overall.den + b.overall.den);
    let turned: Vec<FileScore> = files.into_iter().rev().collect();
    let other = corpus_totals(&turned).unwrap();
    assert_eq!((other.overall, other.subs), (whole.overall, whole.subs));
}

#[test]
fn worst_files_come_first() {
    let files: Vec<FileScore> = [0.1, 0.4, 0.2, 0.4, 0.3]
        .iter()
        .map(|w| file(None, *w, 0, 1))
        .collect();
    assert_eq!(worst(&files, 3), vec![1, 3, 4]);
    assert_eq!(worst(&files, 9), vec![1, 3, 4, 2, 0]);
    assert_eq!(worst(&files, 0), Vec::<usize>::new());
}

#[test]
fn summary() {
    let files = vec![
        file(Some(1), 0.01, 1, 10),
        file(None, 0.06, 4, 20),
        file(Some(-3), 0.03, 0, 0),
    ];
    let numbers = vec![file_numbers("1.00"), file_numbers("6.00"), file_numbers("3.00")];
    let totals = corpus_totals(&files).unwrap();
    let got = print_summary(&files, &numbers, &totals, &stats(24, 6), &summary_numbers(), 2);
    let hline = "═".repeat(78);
    let mut want = format!("\n{CYAN}{hline}{RESET}\n");
    want += &format!(" {BOLD}Summary over {n} files{RESET}\n", n = 3);
    want += &format!("   Audio total:          {:.1}s   ({:.2}h)\n", 180.0, 0.05);
    want += &format!("   Inference total:      {:.1}s   (mean {:.2}s/file)\n", 4.5, 1.5);
    want += &format!("   Mean RTF:             {rtf:.3}x\n", rtf = 0.025);
    want += &format!(
        "   {BOLD}Overall WER:          {overall_wer:.2}%{RESET}   (S={subs} D={dels} I={ins}  N={ref_total})\n",
        overall_wer = 6.0,
        subs = 5,
        dels = 6,
        ins = 9,
        ref_total = 30
    );
    want += &format!(
        "   Per-file WER:         min {:.2}%  p25 {:.2}%  median {:.2}%  p75 {:.2}%  p95 {:.2}%  max {:.2}%\n",
        1.0, 2.0, 3.0, 4.0, 5.0, 6.0
    );
    want += &format!(
        "   Timing (matched={mp}):  drift mean/median/p95 = {mean:.2}/{med:.2}/{p95:.2}s   high-drift(>{dt:.1}s)={hd} ({share:.1}%)\n",
        mp = 24,
        mean = 0.1,
        med = 0.2,
        p95 = 0.3,
        dt = 1.0,
        hd = 6,
        share = 25.0
    );
    want += &format!("\n   {BOLD}Worst {k} by WER:{RESET}\n", k = 2);
    want += &format!(
        "     {:>6}  {:>6}  {:>4} {:>4} {:>4} {:>5}  {:>6}  {:>6}   {:>5}  {:>6}  {:>6}   path\n",
        "idx", "WER%", "S", "D", "I", "N", "dur_s", "xt_s", "drift", "hd_pct", "matchN"
    );
    for (idx, wer, s, n, p) in [("?", 6.0, 4, 20, "idx00000"), ("-3", 3.0, 0, 0, "idx-0003")] {
        want += &format!(
            "     {idx:>6}  {wer:>6.2}  {s:>4} {d:>4} {i:>4} {n:>5}  {dur:>6.1}  {xt:>6.2}   {mid:>5.2}  {hd:>5.1}%  {mp:>6}   {p}\n",
            d = 2,
            i = 3,
            dur = 60.0,
            xt = 1.5,
            mid = 0.25,
            hd = 25.0,
            mp = 8
        );
    }
    want += &format!("{CYAN}{hline}{RESET}\n\n");
    assert_eq!(got, want);
}

#[test]
fn summary_without_matches_or_worst_rows() {
    let files = vec![file(Some(1), 0.01, 1, 10)];
    let numbers = vec![file_numbers("1.00")];
    let totals = corpus_totals(&files).unwrap();
    let got = print_summary(&files, &numbers, &totals, &stats(0, 0), &summary_numbers(), 0);
    assert!(got.contains(&format!(
        "   {YELLOW}Timing: no matched pairs (no ground truth aligned){RESET}\n"
    )));
    assert!(!got.contains("Worst"));
}
