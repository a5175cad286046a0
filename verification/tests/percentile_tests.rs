use manifestation_core::network::utils::{calculate_percentile, sort_scores};
use manifestation_core::score::{
    nan, percentile_index, rank, within, MAX_CATEGORY_SCORE_BITS, MAX_SCORE_BITS,
    NINETIETH_PERCENTILE_BITS, ZERO_BITS,
};

fn to_bits(scores: &[f64]) -> Vec<u64> {
    scores.iter().map(|x| x.to_bits()).collect()
}

fn percentile_of(scores: &[f64], p: f64) -> Option<f64> {
    calculate_percentile(&to_bits(scores), p.to_bits()).map(f64::from_bits)
}

/// The percentile as floating-point arithmetic computes it.
fn reference_percentile(scores: &[f64], p: f64) -> Option<f64> {
    if scores.is_empty() {
        return None;
    }
    let mut sorted = scores.to_vec();
    sorted.sort_by(|a, b| a.partial_cmp(b).unwrap());
    let idx = (sorted.len() as f64 * p) as usize;
    if idx < sorted.len() {
        Some(sorted[idx])
    } else {
        Some(*sorted.last().unwrap())
    }
}

fn next_random(state: &mut u64) -> u64 {
    *state = state
        .wrapping_mul(6364136223846793005)
        .wrapping_add(1442695040888963407);
    let mut x = *state;
    x ^= x >> 33;
    x = x.wrapping_mul(0xff51afd7ed558ccd);
    x ^= x >> 33;
    x
}

#[test]
fn utils_test_percentile_calculation() {
    let scores = vec![10.0, 20.0, 30.0, 40.0, 50.0, 60.0, 70.0, 80.0, 90.0, 100.0];
    assert_eq!(percentile_of(&scores, 0.9), Some(100.0));

    let scores2 = vec![1.0, 2.0, 3.0, 4.0, 5.0];
    assert_eq!(percentile_of(&scores2, 0.9), Some(5.0));

    let scores3 = vec![1.0, 3.0, 5.0];
    assert_eq!(percentile_of(&scores3, 0.5), Some(3.0));
}

#[test]
fn utils_test_empty_scores() {
    let scores: Vec<f64> = vec![];
    assert_eq!(percentile_of(&scores, 0.9), None);
}

#[test]
fn utils_test_unsorted_input() {
    let scores = vec![50.0, 10.0, 30.0];
    assert_eq!(percentile_of(&scores, 0.9), Some(50.0));
}

#[test]
fn test_ordering_resilience() {
    let ordered = vec![10.0, 20.0, 30.0, 40.0, 50.0];
    let reversed = vec![50.0, 40.0, 30.0, 20.0, 10.0];
    let shuffled = vec![30.0, 10.0, 50.0, 40.0, 20.0];

    let p50_ord = percentile_of(&ordered, 0.5);
    let p50_rev = percentile_of(&reversed, 0.5);
    let p50_shu = percentile_of(&shuffled, 0.5);

    assert_eq!(p50_ord, p50_rev);
    assert_eq!(p50_ord, p50_shu);
}

#[test]
fn network_test_percentile_calculation() {
    let scores = vec![10.0, 20.0, 30.0, 40.0, 50.0, 60.0, 70.0, 80.0, 90.0, 100.0];
    // 10 * 0.9 = 9.0 -> index 9 -> 100.0.
    assert_eq!(percentile_of(&scores, 0.9), Some(100.0));

    let scores2 = vec![1.0, 2.0, 3.0, 4.0, 5.0];
    // 5 * 0.9 = 4.5 -> index 4 -> 5.0
    assert_eq!(percentile_of(&scores2, 0.9), Some(5.0));

    let scores3 = vec![1.0, 3.0, 5.0];
    // 3 * 0.5 = 1.5 -> index 1 -> 3.0
    assert_eq!(percentile_of(&scores3, 0.5), Some(3.0));
}

#[test]
fn network_test_empty_scores() {
    let scores: Vec<f64> = vec![];
    assert_eq!(percentile_of(&scores, 0.9), None);
}

#[test]
fn network_test_unsorted_input() {
    let scores = vec![50.0, 10.0, 30.0];
    // Sorted: 10, 30, 50. 3 * 0.9 = 2.7 -> index 2 -> 50.0
    assert_eq!(percentile_of(&scores, 0.9), Some(50.0));
}

#[test]
fn percentile_survives_reordering() {
    let lists: Vec<(Vec<f64>, f64, f64)> = vec![
        (
            vec![10.0, 20.0, 30.0, 40.0, 50.0, 60.0, 70.0, 80.0, 90.0, 100.0],
            0.9,
            100.0,
        ),
        (vec![1.0, 2.0, 3.0, 4.0, 5.0], 0.9, 5.0),
        (vec![1.0, 3.0, 5.0], 0.5, 3.0),
    ];
    let mut state = 7u64;
    for (list, p, expected) in lists {
        let mut reversed = list.clone();
        reversed.reverse();
        assert_eq!(percentile_of(&reversed, p), Some(expected));
        let mut shuffled = list.clone();
        for _ in 0..20 {
            for i in (1..shuffled.len()).rev() {
                let j = (next_random(&mut state) % (i as u64 + 1)) as usize;
                shuffled.swap(i, j);
            }
            assert_eq!(percentile_of(&shuffled, p), Some(expected));
        }
    }
}

#[test]
fn percentile_of_extreme_percentiles() {
    let scores = vec![4.0, 1.0, 3.0, 2.0];
    assert_eq!(percentile_of(&scores, 0.0), Some(1.0));
    assert_eq!(percentile_of(&scores, -0.0), Some(1.0));
    assert_eq!(percentile_of(&scores, -1.0), Some(1.0));
    assert_eq!(percentile_of(&scores, f64::NAN), Some(1.0));
    assert_eq!(percentile_of(&scores, f64::NEG_INFINITY), Some(1.0));
    assert_eq!(percentile_of(&scores, 0.24), Some(1.0));
    assert_eq!(percentile_of(&scores, 0.25), Some(2.0));
    assert_eq!(percentile_of(&scores, 0.75), Some(4.0));
    // An index that equals the length selects the last score.
    assert_eq!(percentile_of(&scores, 1.0), Some(4.0));
    assert_eq!(percentile_of(&scores, 7.5), Some(4.0));
    assert_eq!(percentile_of(&scores, f64::INFINITY), Some(4.0));
    assert_eq!(percentile_of(&scores, f64::MAX), Some(4.0));
}

#[test]
fn percentile_matches_floating_point_arithmetic() {
    let mut state = 11u64;
    for round in 0..300 {
        let n = 1 + (next_random(&mut state) % 60) as usize;
        let scores: Vec<f64> = (0..n)
            .map(|_| match next_random(&mut state) % 5 {
                0 => (next_random(&mut state) % 7) as f64,
                1 => -((next_random(&mut state) % 1000) as f64) / 8.0,
                2 => f64::from_bits(next_random(&mut state) >> 2),
                _ => (next_random(&mut state) % 100_000) as f64 / 10.0,
            })
            .collect();
        let p = match round % 4 {
            0 => 0.9,
            1 => 0.5,
            2 => (next_random(&mut state) % 1000) as f64 / 1000.0,
            _ => f64::from_bits(0x3fe0_0000_0000_0000 + (next_random(&mut state) >> 12)),
        };
        assert_eq!(percentile_of(&scores, p), reference_percentile(&scores, p));
    }
}

#[test]
fn sort_is_stable_and_total() {
    let pz = 0.0f64.to_bits();
    let nz = (-0.0f64).to_bits();
    // The two zeros are one number: they keep the order they came in.
    assert_eq!(
        sort_scores(&[1.0f64.to_bits(), pz, nz, (-1.0f64).to_bits()]),
        vec![(-1.0f64).to_bits(), pz, nz, 1.0f64.to_bits()]
    );
    assert_eq!(
        sort_scores(&[nz, 1.0f64.to_bits(), pz]),
        vec![nz, pz, 1.0f64.to_bits()]
    );
    // Every NaN stands behind every number, infinity included.
    let nan_a = f64::NAN.to_bits();
    let nan_b = nan_a | 1 | (1 << 63);
    assert_eq!(
        sort_scores(&[
            nan_b,
            f64::INFINITY.to_bits(),
            nan_a,
            f64::NEG_INFINITY.to_bits(),
            5e-324f64.to_bits()
        ]),
        vec![
            f64::NEG_INFINITY.to_bits(),
            5e-324f64.to_bits(),
            f64::INFINITY.to_bits(),
            nan_b,
            nan_a
        ]
    );
    assert_eq!(sort_scores(&[]), Vec::<u64>::new());
    let mut state = 3u64;
    for _ in 0..50 {
        let n = (next_random(&mut state) % 40) as usize;
        let scores: Vec<f64> = (0..n)
            .map(|_| ((next_random(&mut state) % 41) as f64 - 20.0) / 4.0)
            .collect();
        let mut expected = scores.clone();
        expected.sort_by(|a, b| a.partial_cmp(b).unwrap());
        assert_eq!(sort_scores(&to_bits(&scores)), to_bits(&expected));
    }
}

#[test]
fn constants_are_the_patterns_they_name() {
    assert_eq!(ZERO_BITS, 0.0f64.to_bits());
    assert_eq!(MAX_CATEGORY_SCORE_BITS, 10.0f64.to_bits());
    assert_eq!(MAX_SCORE_BITS, 10_000.0f64.to_bits());
    assert_eq!(NINETIETH_PERCENTILE_BITS, 0.9f64.to_bits());
}

#[test]
fn rank_orders_as_the_numbers_do() {
    let samples = [
        f64::NEG_INFINITY,
        f64::MIN,
        -10_000.0,
        -1.5,
        -f64::MIN_POSITIVE,
        -5e-324,
        -0.0,
        0.0,
        5e-324,
        f64::MIN_POSITIVE,
        0.1,
        0.9,
        1.0,
        10.0,
        10.000000000000002,
        9_999.999999999998,
        10_000.0,
        10_000.000000000002,
        f64::MAX,
        f64::INFINITY,
    ];
    for a in samples {
        assert!(!nan(a.to_bits()));
        for b in samples {
            assert_eq!(rank(a.to_bits()) < rank(b.to_bits()), a < b, "{} {}", a, b);
            assert_eq!(rank(a.to_bits()) == rank(b.to_bits()), a == b, "{} {}", a, b);
            for x in samples {
                assert_eq!(
                    within(x.to_bits(), a.to_bits(), b.to_bits()),
                    a <= x && x <= b
                );
            }
        }
        assert!(rank(a.to_bits()) < rank(f64::NAN.to_bits()));
        assert!(!within(f64::NAN.to_bits(), a.to_bits(), f64::INFINITY.to_bits()));
        assert!(!within(a.to_bits(), a.to_bits(), f64::NAN.to_bits()));
        assert!(!within(a.to_bits(), f64::NAN.to_bits(), a.to_bits()));
    }
    assert!(nan(f64::NAN.to_bits()));
    assert!(nan(0x7ff0_0000_0000_0001));
    assert!(nan(0xffff_ffff_ffff_ffff));
    assert!(!nan(0x7ff0_0000_0000_0000));
    assert_eq!(rank(f64::NAN.to_bits()), u64::MAX);
    let mut state = 5u64;
    for _ in 0..20_000 {
        let a = f64::from_bits(next_random(&mut state));
        let b = f64::from_bits(next_random(&mut state));
        if a.is_nan() || b.is_nan() {
            assert_eq!(nan(a.to_bits()), a.is_nan());
            continue;
        }
        assert_eq!(rank(a.to_bits()) < rank(b.to_bits()), a < b);
        assert_eq!(rank(a.to_bits()) == rank(b.to_bits()), a == b);
        assert_eq!(
            within(a.to_bits(), ZERO_BITS, MAX_SCORE_BITS),
            (0.0..=10_000.0).contains(&a)
        );
    }
}

#[test]
fn percentile_index_is_the_truncated_product() {
    let reference = |len: usize, p: f64| -> usize {
        let idx = (len as f64 * p) as usize;
        if idx < len {
            idx
        } else {
            len
        }
    };
    assert_eq!(percentile_index(10, 0.9f64.to_bits()), 9);
    assert_eq!(percentile_index(5, 0.9f64.to_bits()), 4);
    assert_eq!(percentile_index(3, 0.5f64.to_bits()), 1);
    assert_eq!(percentile_index(10, 0.7f64.to_bits()), 7);
    assert_eq!(percentile_index(0, 0.9f64.to_bits()), 0);
    assert_eq!(percentile_index(0, f64::INFINITY.to_bits()), 0);
    for len in 0..=10_000usize {
        assert_eq!(percentile_index(len, NINETIETH_PERCENTILE_BITS), len * 9 / 10);
    }
    let lengths = [
        0usize,
        1,
        2,
        3,
        7,
        10,
        1000,
        9_999,
        10_000,
        (1 << 53) - 1,
        1 << 53,
        (1 << 53) + 1,
        (1 << 53) + 3,
        (1 << 60) + 12_345,
        usize::MAX - 1,
        usize::MAX,
    ];
    let percentiles = [
        0.0,
        -0.0,
        5e-324,
        1e-300,
        f64::MIN_POSITIVE,
        0.1,
        0.25,
        0.3,
        0.5,
        0.7,
        0.9,
        0.99,
        0.9999999999999999,
        1.0,
        1.0000000000000002,
        1.5,
        2.0,
        3.0,
        1e300,
        f64::MAX,
        f64::INFINITY,
        f64::NEG_INFINITY,
        f64::NAN,
        -1.0,
        -1e-300,
    ];
    for len in lengths {
        for p in percentiles {
            assert_eq!(
                percentile_index(len, p.to_bits()),
                reference(len, p),
                "{} {}",
                len,
                p
            );
        }
    }
    let mut state = 9u64;
    for i in 0..200_000 {
        let len = match i % 3 {
            0 => (next_random(&mut state) % 20_000) as usize,
            1 => (next_random(&mut state) >> 10) as usize,
            _ => next_random(&mut state) as usize,
        };
        let p = match i % 4 {
            0 => f64::from_bits(next_random(&mut state)),
            1 => (next_random(&mut state) >> 11) as f64 / (1u64 << 53) as f64,
            2 => 0.999 + (next_random(&mut state) % 2001) as f64 / 1_000_000.0,
            _ => f64::from_bits(next_random(&mut state) >> 1),
        };
        assert_eq!(
            percentile_index(len, p.to_bits()),
            reference(len, p),
            "{} {}",
            len,
            p
        );
    }
}
