//! Runs over the dataset: reading, scoring, options.
use stt_bench::bench::{
    corpus_totals, dataset_label, error_rate, hyp_words, not_found, CorpusRun, Progress, Ratio,
};
use stt_bench::cli::{dispatch, Args, Mode, SplitterChoice};
use stt_bench::dataset::{
    check_column, decode_row, find_row, DatasetIter, RowEvent, Step, Verdict, WordColumns,
};
use stt_bench::model::check_head;
use stt_bench::number::Number;
use stt_bench::truth::{kept_columns, load_truth, TruthRow};
use stt_bench::wer::{AlignmentResult, TimingStats, Word};

fn num(x: f64) -> Number {
    Number { bits: x.to_bits() }
}

fn result(subs: usize, dels: usize, ins: usize, refs: usize, wer: f64) -> AlignmentResult {
    AlignmentResult {
        ops: Vec::new(),
        ref_tokens: Vec::new(),
        hyp_tokens: Vec::new(),
        wer: num(wer),
        substitutions: subs,
        deletions: dels,
        insertions: ins,
        ref_token_count: refs,
    }
}

fn stats(matched: usize, high: usize) -> TimingStats {
    TimingStats {
        matched_pairs: matched,
        mid_abs_deltas: vec![num(0.5); matched],
        start_signed_deltas: vec![num(0.5); matched],
        end_signed_deltas: vec![num(0.5); matched],
        high_drift_pairs: high,
    }
}

#[test]
fn hypothesis_words_are_folded_and_not_blank() {
    let raw = vec![
        Word::new("йод".to_string(), num(1.0), num(2.0)),
        Word::new(" \u{a0}".to_string(), num(2.0), num(3.0)),
        Word::new("".to_string(), num(2.0), num(3.0)),
        Word::new(" Май".to_string(), num(3.0), num(4.0)),
    ];
    let got = hyp_words(&raw);
    assert_eq!(got.len(), 2);
    assert_eq!(got[0].text, "иод");
    assert_eq!((got[0].start, got[0].end), (num(1.0), num(2.0)));
    assert_eq!(got[1].text, " Маи");
    assert_eq!((got[1].start, got[1].end), (num(3.0), num(4.0)));
}

#[test]
fn corpus_run_counts_and_reports() {
    let mut run = CorpusRun::new(0);
    assert_eq!(run.finish(), Err("dataset is empty"));
    for i in 0..25 {
        assert!(run.wants_row());
        let r = result(1, 2, 3, 60, 0.1);
        let t = stats(4, 1);
        assert!(run.has_room(&r, &t));
        let progress = run.record(i, num(60.0), num(1.5), &r, &t, num(0.5));
        if i == 9 || i == 19 {
            let n = i as usize + 1;
            let rolling = Ratio {
                num: 6 * n,
                den: 60 * n,
            };
            assert_eq!(progress, Some(Progress { processed: n, rolling }));
        } else {
            assert_eq!(progress, None);
        }
    }
    assert_eq!(run.finish(), Ok(()));
    assert_eq!((run.total_errors, run.total_ref_len), (150, 1500));
    assert_eq!(run.total_timing.matched_pairs, 100);
    assert_eq!(run.total_timing.high_drift_pairs, 25);
    assert_eq!(run.total_timing.mid_abs_deltas.len(), 100);
    let f = &run.per_file[7];
    assert_eq!((f.idx, f.path.as_str()), (Some(7), "idx00007"));
    assert_eq!((f.subs, f.dels, f.ins, f.ref_len), (1, 2, 3, 60));
    assert_eq!((f.matched_pairs, f.high_drift_pairs), (4, 1));
    assert_eq!((f.wer, f.mean_abs_mid_s), (num(0.1), num(0.5)));
    assert_eq!((f.duration_s, f.transcribe_s), (num(60.0), num(1.5)));
    let totals = corpus_totals(&run.per_file).unwrap();
    assert_eq!(totals.files, run.processed);
    assert_eq!(totals.subs + totals.dels + totals.ins, run.total_errors);
    assert_eq!(totals.ref_total, run.total_ref_len);
    assert_eq!(totals.overall, Ratio { num: 150, den: 1500 });
    let matched: usize = run.per_file.iter().map(|f| f.matched_pairs).sum();
    assert_eq!(matched, run.total_timing.matched_pairs);
}

#[test]
fn corpus_run_stops_at_the_limit() {
    let mut run = CorpusRun::new(2);
    let t = stats(0, 0);
    for i in 0..2 {
        assert!(run.wants_row());
        run.record(i, num(1.0), num(1.0), &result(0, 0, 0, 0, 0.0), &t, num(0.0));
    }
    assert!(!run.wants_row());
    assert!(!run.has_room(&result(usize::MAX, 1, 0, 0, 0.0), &t));
    assert!(!run.has_room(&result(usize::MAX - 1, 1, 1, 0, 0.0), &t));
    assert!(run.has_room(&result(usize::MAX - 1, 1, 0, usize::MAX, 0.0), &t));
}

#[test]
fn rates() {
    assert_eq!(error_rate(3, 0), Ratio { num: 0, den: 1 });
    assert_eq!(error_rate(3, 4), Ratio { num: 3, den: 4 });
}

#[test]
fn labels() {
    assert_eq!(dataset_label(42), "dataset[idx=42]");
    assert_eq!(not_found(-1), "idx -1 not found in dataset");
}

#[test]
fn rows_come_once_and_in_order() {
    let batches = [2usize, 0, 3, 1, 0];
    let mut it = DatasetIter::new();
    let mut loaded = 0;
    let mut got = Vec::new();
    loop {
        match it.next() {
            Step::Row(row) => got.push((loaded - 1, row)),
            Step::NeedBatch => {
                if loaded == batches.len() {
                    break;
                }
                it.load(batches[loaded]);
                loaded += 1;
            }
        }
    }
    assert_eq!(got, vec![(0, 0), (0, 1), (2, 0), (2, 1), (2, 2), (3, 0)]);
    assert_eq!(it.next(), Step::NeedBatch);
}

#[test]
fn search_stops_at_the_first_hit() {
    let events = [RowEvent::Row(1), RowEvent::Row(7), RowEvent::Row(7), RowEvent::Failed];
    let stop = events.iter().position(|e| find_row(*e, 7) != Verdict::Next);
    assert_eq!(stop, Some(1));
    assert_eq!(find_row(RowEvent::Row(7), 7), Verdict::Found);
    assert_eq!(find_row(RowEvent::Failed, 7), Verdict::Fail);
    assert_eq!(find_row(RowEvent::End, 7), Verdict::Missing);
}

#[test]
fn columns_make_a_row() {
    let columns = WordColumns {
        texts: vec!["Май".to_string(), "день".to_string()],
        starts: vec![num(0.0), num(1.0)],
        ends: vec![num(0.5), num(1.5)],
    };
    let row = decode_row(9, num(60.5), vec![1, 2, 3], &columns);
    assert_eq!((row.idx, row.duration), (9, num(60.5)));
    assert_eq!(row.audio_bytes, vec![1, 2, 3]);
    assert_eq!(row.words.len(), 2);
    assert_eq!(row.words[0].text, "Маи");
    assert_eq!(row.words[1].text, "день");
    assert_eq!((row.words[1].start, row.words[1].end), (num(1.0), num(1.5)));
}

#[test]
fn columns_are_checked() {
    assert_eq!(check_column("idx", true, true), Ok(()));
    assert_eq!(
        check_column("idx", false, false),
        Err("missing column `idx`".to_string())
    );
    assert_eq!(
        check_column("audio", true, false),
        Err("column `audio` has unexpected arrow type".to_string())
    );
}

#[test]
fn truth_is_keyed_by_index() {
    let row = |idx: i32, d: f64| TruthRow {
        idx,
        duration: num(d),
        words: Vec::new(),
    };
    let map = load_truth(vec![row(1, 1.0), row(2, 2.0), row(1, 3.0)]);
    assert_eq!(map.len(), 2);
    assert_eq!(map[&1].duration, num(3.0));
    assert_eq!(map[&2].duration, num(2.0));
    let names: Vec<String> = ["idx", "audio", "words", "x", "duration", "Idx"]
        .iter()
        .map(|s| s.to_string())
        .collect();
    assert_eq!(kept_columns(&names), vec![0, 2, 4]);
}

#[test]
fn options_choose_the_mode() {
    let mut args = Args::default();
    assert_eq!(args.dataset, "data/golos_long.parquet");
    assert_eq!((args.limit, args.worst), (0, 5));
    assert_eq!(args.drift_threshold, num(1.0));
    assert_eq!(args.splitter, SplitterChoice::Silero);
    assert_eq!(args.repo, "vpermilp/GigaAM-v3");
    assert_eq!(args.revision, "e2e_rnnt");
    assert_eq!(dispatch(&args), Mode::Corpus);
    args.idx = Some(42);
    assert_eq!(dispatch(&args), Mode::Row(42));
    args.audio = Some("/tmp/test.wav".to_string());
    assert_eq!(dispatch(&args), Mode::CustomWav);
}

#[test]
fn models_need_an_rnnt_head() {
    assert_eq!(check_head("r", "v", true), Ok(()));
    assert_eq!(
        check_head("r", "v", false),
        Err("r@v has a CTC head, not RN-T. \
             Set svod_RNNT_REVISION to an RN-T revision."
            .to_string())
    );
}
