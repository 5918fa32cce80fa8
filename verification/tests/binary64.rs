use bee::binary64::{percent, percent_in_hundredths, Binary64};
use bee::decimal::write_hundredths;

fn native(part: u64, whole: u64) -> f64 {
    (part as f64 / whole as f64) * 100.0
}

fn text_of(chars: Vec<char>) -> String {
    let mut s = String::new();
    for c in chars {
        s.push(c);
    }
    s
}

fn next(state: &mut u64) -> u64 {
    *state ^= *state << 13;
    *state ^= *state >> 7;
    *state ^= *state << 17;
    *state
}

#[test]
fn percent_matches_hardware_on_small_values() {
    for whole in 1u64..200 {
        for part in 0u64..=whole {
            assert_eq!(percent(part, whole).to_bits(), native(part, whole).to_bits());
        }
    }
}

#[test]
fn percent_matches_hardware_on_scattered_values() {
    let mut state: u64 = 0x9E37_79B9_7F4A_7C15;
    for round in 0..200_000u32 {
        let shift_a = (next(&mut state) % 64) as u32;
        let shift_b = (next(&mut state) % 64) as u32;
        let part = next(&mut state) >> shift_a;
        let whole = (next(&mut state) >> shift_b).max(1);
        assert_eq!(
            percent(part, whole).to_bits(),
            native(part, whole).to_bits(),
            "round {} part {} whole {}",
            round,
            part,
            whole
        );
    }
}

#[test]
fn percent_matches_hardware_at_the_edges() {
    let edges: Vec<u64> = vec![
        1,
        2,
        3,
        (1 << 53) - 1,
        1 << 53,
        (1 << 53) + 1,
        (1 << 53) + 2,
        (1 << 53) + 3,
        (1 << 54) + 2,
        (1 << 54) + 6,
        u64::MAX - 1024,
        u64::MAX - 1023,
        u64::MAX,
    ];
    for part in edges.iter() {
        for whole in edges.iter() {
            assert_eq!(percent(*part, *whole).to_bits(), native(*part, *whole).to_bits());
        }
    }
}

#[test]
fn fifty_seven_of_a_hundred_is_just_below_fifty_seven() {
    let p = percent(57, 100);
    assert_eq!(p.to_bits(), (0.57f64 * 100.0).to_bits());
    assert!(!p.at_least(&Binary64::from_bits(57.0f64.to_bits())));
    assert_eq!(percent(70, 100).to_bits(), 70.0f64.to_bits());
}

#[test]
fn at_least_matches_hardware() {
    let samples: Vec<f64> = vec![
        0.0,
        -0.0,
        5e-324,
        -5e-324,
        1.0,
        -1.0,
        69.999,
        70.0,
        70.00000000000001,
        100.0,
        1e300,
        -1e300,
        f64::MAX,
        f64::MIN,
        f64::MIN_POSITIVE,
        f64::INFINITY,
        f64::NEG_INFINITY,
        f64::NAN,
        -f64::NAN,
    ];
    for a in samples.iter() {
        for b in samples.iter() {
            let x = Binary64::from_bits(a.to_bits());
            let y = Binary64::from_bits(b.to_bits());
            assert_eq!(x.at_least(&y), a >= b, "{} >= {}", a, b);
        }
    }
}

#[test]
fn not_a_number_matches_hardware() {
    assert!(Binary64::from_bits(f64::NAN.to_bits()).not_a_number());
    assert!(!Binary64::from_bits(f64::INFINITY.to_bits()).not_a_number());
    assert!(!Binary64::from_bits(1.5f64.to_bits()).not_a_number());
}

#[test]
fn two_decimals_match_the_formatter() {
    for whole in 1u64..300 {
        for part in 0u64..=whole {
            let ours = text_of(write_hundredths(percent_in_hundredths(part, whole)));
            assert_eq!(ours, format!("{:.2}", native(part, whole)), "{} of {}", part, whole);
        }
    }
    let mut state: u64 = 0x1234_5678_9ABC_DEF1;
    for _ in 0..100_000u32 {
        let shift_a = (next(&mut state) % 64) as u32;
        let shift_b = (next(&mut state) % 64) as u32;
        let part = next(&mut state) >> shift_a;
        let whole = (next(&mut state) >> shift_b).max(1);
        let ours = text_of(write_hundredths(percent_in_hundredths(part, whole)));
        assert_eq!(ours, format!("{:.2}", native(part, whole)), "{} of {}", part, whole);
    }
}

#[test]
fn ties_at_the_third_decimal_go_to_the_even_digit() {
    assert_eq!(text_of(write_hundredths(percent_in_hundredths(1, 800))), "0.12");
    assert_eq!(format!("{:.2}", native(1, 800)), "0.12");
    assert_eq!(text_of(write_hundredths(percent_in_hundredths(3, 800))), "0.38");
    assert_eq!(text_of(write_hundredths(percent_in_hundredths(1, 1))), "100.00");
    assert_eq!(text_of(write_hundredths(percent_in_hundredths(0, 7))), "0.00");
}
