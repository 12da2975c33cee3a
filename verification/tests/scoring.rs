//! Folding, token ranges and timing statistics.
use stt_bench::number::Number;
use stt_bench::wer::{
    fold_short_i, timing_stats, token_word_range, tokens_word_range, AlignedOp, AlignmentResult,
    Op, OpTiming, SpanDelta, TimeSpan, TimingStats, Token, Word,
};

fn num(x: f64) -> Number {
    Number { bits: x.to_bits() }
}

fn val(n: Number) -> f64 {
    f64::from_bits(n.bits)
}

fn ws(words: &[&str]) -> Vec<Word> {
    words
        .iter()
        .enumerate()
        .map(|(i, t)| Word::new(fold_short_i(t), num(i as f64), num(i as f64 + 0.5)))
        .collect()
}

fn token(indices: &[usize]) -> Token {
    Token {
        word_indices: indices.to_vec(),
    }
}

fn span(tokens: &[Token], words: &[Word]) -> TimeSpan {
    let range = tokens_word_range(tokens);
    TimeSpan {
        start: words[range.start].start,
        end: words[range.end - 1].end,
    }
}

fn both(r: TimeSpan, h: TimeSpan) -> OpTiming {
    let mid = |s: &TimeSpan| 0.5 * (val(s.start) + val(s.end));
    OpTiming::Both {
        ref_span: r,
        hyp_span: h,
        delta: SpanDelta {
            mid_abs: num((mid(&h) - mid(&r)).abs()),
            start_signed: num(val(h.start) - val(r.start)),
            end_signed: num(val(h.end) - val(r.end)),
        },
    }
}

/// An alignment in which token `i` of one side matches token `i` of the other.
fn all_match(
    ref_tokens: Vec<Token>,
    hyp_tokens: Vec<Token>,
    reference: &[Word],
    hypothesis: &[Word],
) -> AlignmentResult {
    let ops = (0..ref_tokens.len())
        .map(|i| AlignedOp {
            op: Op::Match {
                ref_range: i..i + 1,
                hyp_range: i..i + 1,
            },
            timing: both(
                span(&ref_tokens[i..i + 1], reference),
                span(&hyp_tokens[i..i + 1], hypothesis),
            ),
        })
        .collect();
    let ref_token_count = ref_tokens.len();
    AlignmentResult {
        ops,
        ref_tokens,
        hyp_tokens,
        wer: num(0.0),
        substitutions: 0,
        deletions: 0,
        insertions: 0,
        ref_token_count,
    }
}

fn deltas(mids: &[f64]) -> TimingStats {
    TimingStats {
        matched_pairs: mids.len(),
        mid_abs_deltas: mids.iter().map(|x| num(*x)).collect(),
        start_signed_deltas: mids.iter().map(|x| num(-*x)).collect(),
        end_signed_deltas: mids.iter().map(|x| num(*x)).collect(),
        high_drift_pairs: 0,
    }
}

#[test]
fn exact_match_has_no_errors_and_three_matched_pairs() {
    let r = ws(&["а", "б", "в"]);
    let tokens = || vec![token(&[0]), token(&[1]), token(&[2])];
    let res = all_match(tokens(), tokens(), &r, &r);
    assert_eq!(res.errors(), 0);
    let t = timing_stats(&res, num(1.0));
    assert_eq!(t.matched_pairs, 3);
    assert_eq!(t.high_drift_pairs, 0);
}

#[test]
fn numeral_run_matches_digit_form() {
    let r = ws(&["сто", "двадцать", "три", "рубля"]);
    let h = vec![
        Word::new("123".to_string(), num(0.0), num(2.5)),
        Word::new("рубля".to_string(), num(3.0), num(3.5)),
    ];
    let res = all_match(
        vec![token(&[0, 1, 2]), token(&[3])],
        vec![token(&[0]), token(&[1])],
        &r,
        &h,
    );
    assert_eq!(res.errors(), 0);
    assert_eq!(res.ops.len(), 2);
    let t = timing_stats(&res, num(10.0));
    assert_eq!(t.matched_pairs, 2);
    assert_eq!(t.high_drift_pairs, 0);
}

#[test]
fn drift_flagged_above_threshold() {
    let r = vec![Word::new("слово".to_string(), num(1.0), num(1.5))];
    let h = vec![Word::new("Слово".to_string(), num(5.0), num(5.5))];
    let res = all_match(vec![token(&[0])], vec![token(&[0])], &r, &h);
    let t = timing_stats(&res, num(1.0));
    assert_eq!(t.matched_pairs, 1);
    assert_eq!(t.high_drift_pairs, 1);
    assert_eq!(t.mid_abs_deltas, vec![num(4.0)]);
    assert_eq!(t.start_signed_deltas, vec![num(4.0)]);
    assert_eq!(t.end_signed_deltas, vec![num(4.0)]);
}

#[test]
fn drift_at_the_threshold_is_not_flagged() {
    let r = vec![Word::new("слово".to_string(), num(1.0), num(1.5))];
    let h = vec![Word::new("слово".to_string(), num(2.0), num(2.5))];
    let res = all_match(vec![token(&[0])], vec![token(&[0])], &r, &h);
    assert_eq!(timing_stats(&res, num(1.0)).high_drift_pairs, 0);
    assert_eq!(timing_stats(&res, num(0.5)).high_drift_pairs, 1);
    assert_eq!(timing_stats(&res, num(f64::NAN)).high_drift_pairs, 0);
}

#[test]
fn only_matches_timed_on_both_sides_count() {
    let r = ws(&["а", "б", "в", "г"]);
    let tokens = || vec![token(&[0]), token(&[1]), token(&[2]), token(&[3])];
    let mut res = all_match(tokens(), tokens(), &r, &r);
    res.ops[0].op = Op::Sub {
        ref_idx: 0,
        hyp_idx: 0,
    };
    res.ops[1].timing = OpTiming::Untimed;
    let one_side = TimeSpan {
        start: num(2.0),
        end: num(2.5),
    };
    res.ops[2].timing = OpTiming::Ref(one_side);
    let t = timing_stats(&res, num(1.0));
    assert_eq!(t.matched_pairs, 1);
    assert_eq!(t.mid_abs_deltas, vec![num(0.0)]);
}

#[test]
fn errors_are_summed() {
    let r = ws(&["а"]);
    let mut res = all_match(vec![token(&[0])], vec![token(&[0])], &r, &r);
    res.substitutions = 1;
    res.deletions = 2;
    res.insertions = 4;
    assert_eq!(res.errors(), 7);
}

#[test]
fn short_i_is_folded_in_both_cases() {
    assert_eq!(fold_short_i("саратовский"), "саратовскии");
    assert_eq!(fold_short_i("Йод и йогурт"), "Иод и иогурт");
    assert_eq!(fold_short_i("ёлка"), "ёлка");
    assert_eq!(fold_short_i(""), "");
}

#[test]
fn folding_is_idempotent_and_conflates() {
    for s in ["саратовский", "ЙЙйй", "plain", "й и Й"] {
        let once = fold_short_i(s);
        assert_eq!(fold_short_i(&once), once);
        assert!(!once.contains(['й', 'Й']));
        assert_eq!(once.chars().count(), s.chars().count());
    }
    assert_eq!(fold_short_i("саратовскии"), fold_short_i("саратовский"));
}

#[test]
fn token_ranges() {
    assert_eq!(token_word_range(&token(&[3, 4, 5])), 3..6);
    assert_eq!(token_word_range(&token(&[])), 0..1);
    assert_eq!(tokens_word_range(&[token(&[3, 4]), token(&[1]), token(&[])]), 1..5);
    assert_eq!(tokens_word_range(&[]), 0..1);
    for t in [token(&[3, 4, 5]), token(&[7]), token(&[])] {
        let alone = token_word_range(&t);
        assert_eq!(tokens_word_range(&[t]), alone);
    }
}

#[test]
fn merging_appends() {
    let mut a = deltas(&[0.5, 2.0]);
    a.high_drift_pairs = 1;
    let mut b = deltas(&[3.0]);
    b.high_drift_pairs = 1;
    a.merge(&b);
    assert_eq!(a.matched_pairs, 3);
    assert_eq!(a.mid_abs_deltas, vec![num(0.5), num(2.0), num(3.0)]);
    assert_eq!(a.start_signed_deltas, vec![num(-0.5), num(-2.0), num(-3.0)]);
    assert_eq!(a.end_signed_deltas, vec![num(0.5), num(2.0), num(3.0)]);
    assert_eq!(a.high_drift_pairs, 2);
    a.merge(&TimingStats::default());
    assert_eq!(a.matched_pairs, 3);
}

#[test]
fn merging_files_is_scoring_them_together() {
    let r = ws(&["а", "б", "в"]);
    let h: Vec<Word> = [0.0, 4.0, 9.0]
        .iter()
        .map(|s| Word::new("x".to_string(), num(*s), num(*s + 0.5)))
        .collect();
    let tokens = || vec![token(&[0]), token(&[1]), token(&[2])];
    let whole = timing_stats(&all_match(tokens(), tokens(), &r, &h), num(1.0));
    let mut parts = TimingStats::default();
    for i in 0..3 {
        let one = all_match(vec![token(&[i])], vec![token(&[i])], &r, &h);
        parts.merge(&timing_stats(&one, num(1.0)));
    }
    assert_eq!(parts.matched_pairs, whole.matched_pairs);
    assert_eq!(parts.high_drift_pairs, whole.high_drift_pairs);
    assert_eq!(parts.mid_abs_deltas, whole.mid_abs_deltas);
    assert_eq!(whole.high_drift_pairs, 2);
}

#[test]
fn percentiles_follow_the_nearest_rank() {
    for n in 1..200usize {
        let mut mids: Vec<f64> = (0..n).map(|i| ((i * 37) % n) as f64 * 0.25).collect();
        let t = deltas(&mids);
        mids.sort_by(|a, b| a.partial_cmp(b).unwrap());
        let pick = |q: f64| mids[((n as f64 - 1.0) * q).round() as usize];
        assert_eq!(val(t.median_abs_mid()), pick(0.5));
        assert_eq!(val(t.p95_abs_mid()), pick(0.95));
        assert_eq!(t.percentiles_abs_mid(), (t.median_abs_mid(), t.p95_abs_mid()));
        assert!(val(t.median_abs_mid()) <= val(t.p95_abs_mid()));
        assert_eq!(val(t.percentile_abs_mid(1, 4)), pick(0.25));
        assert_eq!(val(t.percentile_abs_mid(7, 5)), mids[n - 1]);
    }
    let none = TimingStats::default();
    assert_eq!(none.median_abs_mid(), num(0.0));
    assert_eq!(none.percentiles_abs_mid(), (num(0.0), num(0.0)));
}
