use manifestation_core::binary64::{add_two, divide_by_count, mean, sum, QUIET_NAN_BITS};

fn next_bits(state: &mut u64) -> u64 {
    *state = state
        .wrapping_mul(6364136223846793005)
        .wrapping_add(1442695040888963407);
    let mut x = *state;
    x ^= x >> 33;
    x = x.wrapping_mul(0xff51afd7ed558ccd);
    x ^= x >> 33;
    x
}

/// A pattern drawn so that pairs often have exponents near each other.
fn next_number(state: &mut u64) -> f64 {
    let r = next_bits(state);
    let sign = r & (1 << 63);
    let fraction = next_bits(state) & ((1 << 52) - 1);
    let field = match r % 8 {
        0 => 0,
        1 => next_bits(state) % 4,
        2 => 2046 - next_bits(state) % 3,
        3 => 1023 + next_bits(state) % 4,
        4 => 1000 + next_bits(state) % 120,
        5 => next_bits(state) % 2047,
        6 => 1023,
        _ => 1020 + next_bits(state) % 8,
    };
    let fraction = match (r >> 8) % 4 {
        0 => 0,
        1 => fraction & !((1 << (next_bits(state) % 52)) - 1),
        2 => fraction | ((1 << (next_bits(state) % 52)) - 1),
        _ => fraction,
    };
    f64::from_bits(sign | (field << 52) | fraction)
}

fn same(ours: u64, theirs: f64) -> bool {
    if theirs.is_nan() {
        ours == QUIET_NAN_BITS
    } else {
        ours == theirs.to_bits()
    }
}

#[test]
fn sums_are_those_of_the_machine() {
    let special = [
        0.0,
        -0.0,
        1.0,
        -1.0,
        0.1,
        0.2,
        0.3,
        5e-324,
        -5e-324,
        f64::MIN_POSITIVE,
        -f64::MIN_POSITIVE,
        2.2250738585072009e-308,
        f64::MAX,
        -f64::MAX,
        f64::INFINITY,
        f64::NEG_INFINITY,
        f64::NAN,
        1e16,
        9007199254740992.0,
        9007199254740993.0,
        4503599627370496.5,
        1.0000000000000002,
        0.9999999999999999,
        1.7976931348623155e308,
        8.98846567431158e307,
    ];
    for a in special {
        for b in special {
            assert!(
                same(add_two(a.to_bits(), b.to_bits()), a + b),
                "{:e} + {:e}",
                a,
                b
            );
        }
    }
    assert_eq!(add_two(0.1f64.to_bits(), 0.2f64.to_bits()), 0.30000000000000004f64.to_bits());
    assert_eq!(add_two((-0.0f64).to_bits(), (-0.0f64).to_bits()), (-0.0f64).to_bits());
    assert_eq!(add_two((-0.0f64).to_bits(), 0.0f64.to_bits()), 0.0f64.to_bits());
    assert_eq!(add_two(1.5f64.to_bits(), (-1.5f64).to_bits()), 0.0f64.to_bits());
    assert_eq!(
        add_two(f64::MAX.to_bits(), f64::MAX.to_bits()),
        f64::INFINITY.to_bits()
    );
    assert_eq!(
        add_two(f64::INFINITY.to_bits(), f64::NEG_INFINITY.to_bits()),
        QUIET_NAN_BITS
    );
    let mut state = 17u64;
    for _ in 0..400_000 {
        let a = next_number(&mut state);
        let b = next_number(&mut state);
        assert!(
            same(add_two(a.to_bits(), b.to_bits()), a + b),
            "{:e} + {:e}",
            a,
            b
        );
    }
    // Neighbours: sums that cancel, and ties between two numbers.
    for _ in 0..100_000 {
        let a = next_number(&mut state);
        if !a.is_finite() {
            continue;
        }
        let step = (next_bits(&mut state) % 5) as i64 - 2;
        let near = f64::from_bits((a.to_bits() as i64 + step) as u64);
        for b in [-near, near, near / 2.0, -near * 2.0] {
            if b.is_nan() {
                continue;
            }
            assert!(
                same(add_two(a.to_bits(), b.to_bits()), a + b),
                "{:e} + {:e}",
                a,
                b
            );
        }
    }
}

#[test]
fn quotients_are_those_of_the_machine() {
    assert_eq!(divide_by_count(1.0f64.to_bits(), 3), (1.0f64 / 3.0).to_bits());
    assert_eq!(divide_by_count(10.0f64.to_bits(), 4), 2.5f64.to_bits());
    assert_eq!(divide_by_count((-0.0f64).to_bits(), 7), (-0.0f64).to_bits());
    assert_eq!(divide_by_count(5e-324f64.to_bits(), 2), 0.0f64.to_bits());
    assert_eq!(divide_by_count(5e-324f64.to_bits(), 1), 5e-324f64.to_bits());
    assert_eq!(divide_by_count(1.5e-323f64.to_bits(), 2), 1e-323f64.to_bits());
    assert_eq!(
        divide_by_count(f64::NEG_INFINITY.to_bits(), 9),
        f64::NEG_INFINITY.to_bits()
    );
    assert_eq!(divide_by_count(f64::NAN.to_bits(), 9), QUIET_NAN_BITS);
    for a in [0.0f64, -0.0, 1.0, -2.5, f64::INFINITY, f64::NEG_INFINITY, f64::NAN] {
        assert!(same(divide_by_count(a.to_bits(), 0), a / 0.0), "{:e} / 0", a);
    }
    let counts = [
        1usize,
        2,
        3,
        5,
        7,
        10,
        1000,
        9_999,
        10_000,
        65_536,
        (1 << 53) - 1,
        (1 << 53) + 1,
        (1 << 60) + 12_345,
        usize::MAX,
    ];
    let mut state = 23u64;
    for i in 0..300_000 {
        let a = next_number(&mut state);
        let count = match i % 3 {
            0 => counts[(next_bits(&mut state) % counts.len() as u64) as usize],
            1 => 1 + (next_bits(&mut state) % 20_000) as usize,
            _ => 1 + (next_bits(&mut state) >> (next_bits(&mut state) % 64)) as usize,
        };
        if count == 0 {
            continue;
        }
        assert!(
            same(divide_by_count(a.to_bits(), count), a / count as f64),
            "{:e} / {}",
            a,
            count
        );
    }
}

#[test]
fn means_are_those_of_the_machine() {
    let reference = |numbers: &[f64]| -> Option<f64> {
        if numbers.is_empty() {
            return None;
        }
        let total: f64 = numbers.iter().sum();
        Some(total / numbers.len() as f64)
    };
    let ours = |numbers: &[f64]| -> Option<f64> {
        let bits: Vec<u64> = numbers.iter().map(|x| x.to_bits()).collect();
        mean(&bits).map(f64::from_bits)
    };
    assert_eq!(ours(&[]), None);
    assert_eq!(ours(&[1.0, 2.0, 3.0, 4.0]), Some(2.5));
    assert_eq!(ours(&[0.1, 0.2, 0.3]), reference(&[0.1, 0.2, 0.3]));
    assert_eq!(ours(&[75.0]), Some(75.0));
    let window: Vec<f64> = (2..=10_001u32).map(|i| i as f64).collect();
    assert_eq!(ours(&window), Some(5_001.5));
    let nothing: [f64; 0] = [];
    assert_eq!(sum(&[]), nothing.iter().sum::<f64>().to_bits());
    assert_eq!(sum(&[]), (-0.0f64).to_bits());
    for zeros in [vec![-0.0f64], vec![0.0], vec![-0.0, -0.0], vec![-0.0, 0.0], vec![0.0, -0.0]] {
        let bits: Vec<u64> = zeros.iter().map(|x| x.to_bits()).collect();
        assert_eq!(sum(&bits), zeros.iter().sum::<f64>().to_bits(), "{:?}", zeros);
        assert_eq!(
            mean(&bits).unwrap(),
            (zeros.iter().sum::<f64>() / zeros.len() as f64).to_bits(),
            "{:?}",
            zeros
        );
    }
    let mut state = 29u64;
    for round in 0..2_000 {
        let n = 1 + (next_bits(&mut state) % 50) as usize;
        let numbers: Vec<f64> = (0..n)
            .map(|_| match round % 3 {
                0 => (next_bits(&mut state) % 100_000) as f64 / 10.0,
                1 => (next_bits(&mut state) % 1_000) as f64 / 100.0,
                _ => next_number(&mut state),
            })
            .collect();
        let bits: Vec<u64> = numbers.iter().map(|x| x.to_bits()).collect();
        let expected = reference(&numbers).unwrap();
        assert!(same(mean(&bits).unwrap(), expected), "{:?}", numbers);
        let total: f64 = numbers.iter().sum();
        assert!(same(sum(&bits), total), "{:?}", numbers);
    }
}
