use euclidean_sequencer::maths::modulo;
use euclidean_sequencer::patterns::euclidean;

#[test]
fn modulo_of_negative_dividends_is_non_negative() {
    assert_eq!(modulo(-1, 8), 7);
    assert_eq!(modulo(-8, 8), 0);
    assert_eq!(modulo(-9, 8), 7);
    assert_eq!(modulo(13, 8), 5);
    assert_eq!(modulo(0, 3), 0);
    assert_eq!(modulo(i64::MIN, 3), 1);
    assert_eq!(modulo(-5, u64::MAX), u64::MAX - 5);
    assert_eq!(modulo(i64::MAX, u64::MAX), i64::MAX as u64);
}

#[test]
fn tresillo_reference_sequence() {
    let expected = [true, false, false, true, false, false, true, false];
    for s in 0..8u64 {
        assert_eq!(euclidean(8, 3, 0, s), expected[s as usize], "step {}", s);
    }
}

#[test]
fn silent_and_full_patterns() {
    for steps in 1..=16u64 {
        for s in 0..steps {
            for r in [-3i64, 0, 1, 7] {
                assert!(!euclidean(steps, 0, r, s));
                assert!(euclidean(steps, steps, r, s));
                assert!(euclidean(steps, steps + 1, r, s));
            }
        }
    }
    for onsets in 0..5u64 {
        assert!(!euclidean(0, onsets, 0, 0));
        assert!(!euclidean(0, onsets, 2, 3));
    }
}

#[test]
fn density_over_one_period() {
    for steps in 1..=16u64 {
        for onsets in 0..=steps {
            for r in [-17i64, -1, 0, 1, 5, 16] {
                let count = (0..steps).filter(|&s| euclidean(steps, onsets, r, s)).count();
                assert_eq!(count as u64, onsets, "steps {} onsets {} rotation {}", steps, onsets, r);
            }
        }
    }
}

#[test]
fn pattern_repeats_every_period() {
    for steps in 1..=12u64 {
        for onsets in 0..=steps {
            for s in 0..steps {
                let first = euclidean(steps, onsets, 2, s);
                assert_eq!(first, euclidean(steps, onsets, 2, s + steps));
                assert_eq!(first, euclidean(steps, onsets, 2, s + 3 * steps));
            }
        }
    }
}

#[test]
fn rotation_is_an_index_offset() {
    for r in -20i64..20 {
        for s in 0..8u64 {
            let shifted = modulo(s as i64 - r, 8);
            assert_eq!(euclidean(8, 3, r, s), euclidean(8, 3, 0, shifted));
        }
    }
    // rotations that are a multiple of half the period shift either way
    for r in [0i64, 4, 8, -4] {
        for s in 0..8u64 {
            let shifted = modulo(s as i64 + r, 8);
            assert_eq!(euclidean(8, 3, r, s), euclidean(8, 3, 0, shifted));
        }
    }
}

#[test]
fn rotation_by_one_moves_the_tresillo() {
    let expected = [false, true, false, false, true, false, false, true];
    for s in 0..8u64 {
        assert_eq!(euclidean(8, 3, 1, s), expected[s as usize]);
    }
}

#[test]
fn extreme_rotations_do_not_overflow() {
    let shifted = modulo(i64::MIN, 8);
    assert_eq!(euclidean(8, 3, i64::MIN, 0), euclidean(8, 3, 0, (8 - shifted) % 8));
    assert_eq!(euclidean(8, 3, i64::MAX, u64::MAX), euclidean(8, 3, 0, (u64::MAX % 8 + 8 - modulo(i64::MAX, 8)) % 8));
}
