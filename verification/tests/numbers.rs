//! Comparing and ranking numbers.
use stt_bench::number::Number;
use stt_bench::order::{order_descending, sort_ascending, sort_order};

fn num(x: f64) -> Number {
    Number { bits: x.to_bits() }
}

const VALUES: [f64; 14] = [
    0.0,
    -0.0,
    1.0,
    -1.0,
    0.1,
    1.5,
    -2.25,
    f64::MAX,
    f64::MIN,
    f64::MIN_POSITIVE,
    5e-324,
    f64::INFINITY,
    f64::NEG_INFINITY,
    f64::NAN,
];

#[test]
fn exceeds_is_the_comparison_of_doubles() {
    for a in VALUES {
        for b in VALUES {
            assert_eq!(num(a).exceeds(num(b)), a > b, "{a} > {b}");
        }
    }
    assert_eq!(Number::zero(), num(0.0));
}

#[test]
fn keys_order_as_doubles_do() {
    for a in VALUES {
        for b in VALUES {
            if !a.is_nan() && !b.is_nan() {
                assert_eq!(num(a).order_key() < num(b).order_key(), a < b);
                assert_eq!(num(a).order_key() == num(b).order_key(), a == b);
            }
        }
    }
}

#[test]
fn sorting_is_stable() {
    assert_eq!(sort_order(&[3, 1, 3, 2, 1]), vec![1, 4, 3, 0, 2]);
    assert_eq!(sort_order(&[]), Vec::<usize>::new());
    let zeros = [num(0.0), num(-1.0), num(-0.0), num(0.0)];
    assert_eq!(
        sort_ascending(&zeros),
        vec![num(-1.0), num(0.0), num(-0.0), num(0.0)]
    );
    let rates = [num(0.5), num(1.0), num(0.5), num(2.0)];
    assert_eq!(order_descending(&rates), vec![3, 1, 0, 2]);
}

#[test]
fn sorting_many() {
    let mut state = 12345u64;
    let mut values: Vec<f64> = Vec::new();
    for _ in 0..5000 {
        state = state.wrapping_mul(6364136223846793005).wrapping_add(1442695040888963407);
        values.push(((state >> 40) as f64 - 8_000_000.0) / 1000.0);
    }
    let got: Vec<f64> = sort_ascending(&values.iter().map(|x| num(*x)).collect::<Vec<_>>())
        .iter()
        .map(|n| f64::from_bits(n.bits))
        .collect();
    values.sort_by(|a, b| a.partial_cmp(b).unwrap());
    assert_eq!(got, values);
}
