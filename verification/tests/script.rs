//! The benchmark of a transcription script.
use stt_bench::bench::Ratio;
use stt_bench::number::Number;
use stt_bench::py_bench::{
    finish_single, malformed_line, not_found, parse_line, parse_single_output, report,
    single_label, temp_name, tokenize_hyp, GroundTruth, LineError, ReportNumbers, ScriptRun,
};
use stt_bench::truth::{load_truth, TruthRow};
use stt_bench::wer::AlignmentResult;

fn num(x: f64) -> Number {
    Number { bits: x.to_bits() }
}

fn result(subs: usize, dels: usize, ins: usize, refs: usize, wer: f64) -> AlignmentResult {
    AlignmentResult {
        ops: Vec::new(),
        ref_tokens: Vec::new(),
        hyp_tokens: Vec::new(),
        wer: num(wer),
        substitutions: subs,
        deletions: dels,
        insertions: ins,
        ref_token_count: refs,
    }
}

#[test]
fn transcripts_are_split_and_folded() {
    let words = tokenize_hyp("  Майский \tдень\n");
    let texts: Vec<&str> = words.iter().map(|w| w.text.as_str()).collect();
    assert_eq!(texts, vec!["Маискии", "день"]);
    assert_eq!((words[0].start, words[0].end), (num(0.0), num(0.0)));
    assert!(tokenize_hyp(" ").is_empty());
}

#[test]
fn lines_have_three_columns() {
    let ok = parse_line("42\t1.25\tпривет\tмир").unwrap();
    assert_eq!(ok.idx, 42);
    assert_eq!(ok.inference, "1.25");
    assert_eq!(ok.transcript, "привет\tмир");
    let empty = parse_line("-7\t\t").unwrap();
    assert_eq!((empty.idx, empty.inference.as_str(), empty.transcript.as_str()), (-7, "", ""));
    assert!(matches!(parse_line("42"), Err(LineError::Malformed)));
    assert!(matches!(parse_line("x\t1.0"), Err(LineError::Malformed)));
    match parse_line("4x\t1.0\tтекст") {
        Err(LineError::BadIdx(s)) => assert_eq!(s, "4x"),
        other => panic!("{other:?}"),
    }
    assert!(matches!(parse_line("2147483648\t1\tx"), Err(LineError::BadIdx(_))));
}

#[test]
fn single_output_is_trimmed() {
    assert_eq!(
        parse_single_output(" \n0.75\tпривет мир\r\n"),
        Some(("0.75".to_string(), "привет мир".to_string()))
    );
    assert_eq!(
        parse_single_output("привет\t \n"),
        Some(("привет".to_string(), "".to_string()))
    );
    assert_eq!(
        parse_single_output("0.5\t\n"),
        Some(("0.5".to_string(), "".to_string()))
    );
    assert_eq!(
        parse_single_output("0.5 \t a\tb \t\n"),
        Some(("0.5 ".to_string(), " a\tb".to_string()))
    );
    assert_eq!(parse_single_output("\tпривет\n"), None);
    assert_eq!(parse_single_output("0.5\n"), None);
    assert_eq!(parse_single_output(""), None);
}

#[test]
fn single_runs_end_in_columns_or_a_complaint() {
    assert_eq!(
        finish_single(true, "exit status: 0", "0.5\t\n", ""),
        Ok(("0.5".to_string(), "".to_string()))
    );
    assert_eq!(
        finish_single(true, "exit status: 0", " 0.5 да\n", "\"0.5 да\""),
        Err("python single-mode output missing timing column: \"0.5 да\"".to_string())
    );
    assert_eq!(
        finish_single(false, "exit status: 3", "0.5\tда\n", "\"0.5\\tда\""),
        Err("python subprocess exited with exit status: 3".to_string())
    );
}

#[test]
fn malformed_lines_are_reported_by_number() {
    assert_eq!(malformed_line(1), "malformed TSV at line 1: ");
    assert_eq!(malformed_line(120), "malformed TSV at line 120: ");
}

#[test]
fn names() {
    assert_eq!(single_label(5), "gigaam_rnnt.py[idx=5]");
    assert_eq!(temp_name(-5, 4321), "gigaam_py_idx_-5_pid4321.wav");
    assert_eq!(not_found(5, "data/x.parquet"), "idx 5 not found in data/x.parquet");
}

#[test]
fn ground_truth_keeps_the_first_rows() {
    let row = |idx: i32, d: f64| TruthRow {
        idx,
        duration: num(d),
        words: Vec::new(),
    };
    let mut truth = GroundTruth::new(2);
    assert!(truth.wants_row());
    truth.insert(row(10, 1.0));
    assert!(truth.wants_row());
    truth.insert(row(10, 2.0));
    assert!(truth.wants_row());
    truth.insert(row(11, 3.0));
    assert!(!truth.wants_row());
    assert_eq!(truth.lookup(10).unwrap().duration, num(2.0));
    assert_eq!(
        truth.lookup(12).unwrap_err(),
        "idx 12 from python not in first 2 dataset rows"
    );
    let mut all = GroundTruth::new(0);
    for i in 0..50 {
        assert!(all.wants_row());
        all.insert(row(i, 1.0));
    }
    assert!(all.wants_row());
}

#[test]
fn script_run_sums_up() {
    let mut run = ScriptRun::new();
    assert_eq!(run.finish(true, "").unwrap_err(), "python emitted no rows");
    for i in 0..10 {
        let r = result(1, 0, 2, 10, 0.3);
        assert!(run.has_room(&r));
        let rolling = run.record(i, &r);
        if i == 9 {
            assert_eq!(rolling, Some(Ratio { num: 30, den: 100 }));
        } else {
            assert_eq!(rolling, None);
        }
    }
    assert_eq!(run.finish(true, ""), Ok(Ratio { num: 30, den: 100 }));
    assert_eq!(
        run.finish(false, "exit status: 1").unwrap_err(),
        "python subprocess exited with exit status: 1"
    );
    assert_eq!(run.scored[3].idx, 3);
    assert_eq!(run.scored[3].wer, num(0.3));
    assert!(!run.has_room(&result(usize::MAX - 29, 0, 0, 0, 0.0)));
    assert!(run.has_room(&result(usize::MAX - 30, 0, 0, 0, 0.0)));
}

#[test]
fn reports() {
    let mut run = ScriptRun::new();
    run.record(7, &result(1, 2, 3, 40, 0.15));
    run.record(8, &result(10, 0, 0, 20, 0.5));
    let s = |t: &str| t.to_string();
    let numbers = ReportNumbers {
        corpus_wer: s("26.67"),
        audio: s("120.0"),
        audio_hours: s("0.03"),
        subprocess: s("9.5"),
        inference: s("3.5"),
        rtf: s("0.029"),
    };
    let wers = [s("15.00"), s("50.00")];
    let mut want = s("\n=== gigaam_rnnt.py vs ground truth ===\n");
    want += &format!("rows scored : {}\n", 2);
    want += &format!("ref tokens  : {total_ref}\n", total_ref = 60);
    want += &format!("S / D / I   : {} / {} / {}\n", 11, 2, 3);
    want += &format!("corpus WER  : {:.2}%\n", 26.67);
    want += &format!("audio total : {:.1}s ({:.2}h)\n", 120.0, 0.03);
    want += &format!(
        "subprocess  : {:.1}s  (wall-clock, incl. startup + model load)\n",
        9.5
    );
    want += &format!("inference   : {:.1}s  (sum of per-row Python timings)\n", 3.5);
    want += &format!(
        "RTF         : {:.3}x  (inference / audio, comparable to gigaam_svod_bench)\n",
        0.029
    );
    assert_eq!(report(&run, &numbers, &wers, 0), want);
    want += &format!("\nworst {} rows by WER:\n", 1);
    want += &format!(
        "  {:>6}  {:>7}  {:>4}  {:>4}  {:>4}  {:>7}\n",
        "idx", "ref_len", "S", "D", "I", "WER"
    );
    want += &format!(
        "  {:>6}  {:>7}  {:>4}  {:>4}  {:>4}  {:>6.2}%\n",
        8, 20, 10, 0, 0, 50.0
    );
    assert_eq!(report(&run, &numbers, &wers, 1), want);
}

#[test]
fn ground_truth_without_a_limit_is_all() {
    let rows = |at: usize| -> TruthRow {
        let (idx, d) = [(3, 1.0), (4, 2.0), (3, 3.0)][at];
        TruthRow {
            idx,
            duration: num(d),
            words: Vec::new(),
        }
    };
    let mut truth = GroundTruth::new(0);
    for at in 0..3 {
        assert!(truth.wants_row());
        truth.insert(rows(at));
    }
    let all = load_truth((0..3).map(rows).collect());
    assert_eq!((truth.rows.len(), all.len()), (2, 2));
    for idx in [3, 4] {
        assert_eq!(truth.lookup(idx).unwrap().duration, all[&idx].duration);
    }
    assert_eq!(all[&3].duration, num(3.0));
}

#[test]
fn rows_in_another_order_give_the_same_totals() {
    let rows = [(1, 0, 2, 10, 0.3), (4, 1, 0, 20, 0.25), (0, 3, 0, 7, 0.3)];
    let mut a = ScriptRun::new();
    let mut b = ScriptRun::new();
    for (s, d, i, n, w) in rows {
        a.record(1, &result(s, d, i, n, w));
    }
    for (s, d, i, n, w) in rows.into_iter().rev() {
        b.record(1, &result(s, d, i, n, w));
    }
    assert_eq!(a.finish(true, ""), Ok(Ratio { num: 11, den: 37 }));
    assert_eq!(a.finish(true, ""), b.finish(true, ""));
    assert_eq!(
        (a.total_subs, a.total_dels, a.total_ins),
        (b.total_subs, b.total_dels, b.total_ins)
    );
}

#[test]
fn worst_rows_come_first_and_ties_keep_their_order() {
    let mut run = ScriptRun::new();
    for (idx, w) in [(10, 0.1), (11, 0.4), (12, 0.2), (13, 0.4)] {
        run.record(idx, &result(0, 0, 0, 1, w));
    }
    let none = String::new;
    let numbers = ReportNumbers {
        corpus_wer: none(),
        audio: none(),
        audio_hours: none(),
        subprocess: none(),
        inference: none(),
        rtf: none(),
    };
    let wers = vec![none(); 4];
    let text = report(&run, &numbers, &wers, 3);
    let listed: Vec<&str> = text
        .lines()
        .rev()
        .take(3)
        .map(|l| l.split_whitespace().next().unwrap())
        .collect();
    assert_eq!(listed, vec!["12", "13", "11"]);
}
