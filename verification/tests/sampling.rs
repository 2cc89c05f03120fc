use floyd_sampler::index::gen_index;
use floyd_sampler::index::sample_array;
use floyd_sampler::source::TapeSource;

/// A small 64-bit linear congruential generator; the high bits feed the tape.
fn lcg_tape(seed: u64, n: usize) -> Vec<u64> {
    let mut state = seed;
    let mut tape = Vec::with_capacity(n);
    for _ in 0..n {
        state = state
            .wrapping_mul(6364136223846793005)
            .wrapping_add(1442695040888963407);
        tape.push(state >> 33);
    }
    tape
}

#[test]
fn trace_len5_n3() {
    // Hand trace of Floyd's algorithm: draws 1, 1, 2 against bounds 3, 4, 5.
    // Candidate 2 draws 1 -> slot 0 holds 1.
    // Candidate 3 draws 1, collides with slot 0 -> slot 0 demoted to 3, slot 1 holds 1.
    // Candidate 4 draws 2, no collision -> slot 2 holds 2.
    let mut src = TapeSource::from_values(vec![1, 1, 2]);
    let out: Option<[usize; 3]> = sample_array(&mut src, 5);
    assert_eq!(out, Some([3, 1, 2]));
    assert_eq!(src.draw_count(), 3);
}

#[test]
fn infeasible_returns_none_without_draws() {
    let mut src = TapeSource::from_values(vec![9, 9, 9]);
    let out: Option<[usize; 5]> = sample_array(&mut src, 3);
    assert_eq!(out, None);
    assert_eq!(src.draw_count(), 0);
}

#[test]
fn none_exactly_when_size_exceeds_length() {
    let mut src = TapeSource::from_values(lcg_tape(7, 32));
    let five: Option<[usize; 5]> = sample_array(&mut src, 5);
    assert!(five.is_some());
    let six: Option<[usize; 6]> = sample_array(&mut src, 5);
    assert!(six.is_none());
}

#[test]
fn empty_sample_any_length() {
    let mut src = TapeSource::from_values(vec![1, 2, 3]);
    let at_zero: Option<[usize; 0]> = sample_array(&mut src, 0);
    assert_eq!(at_zero, Some([]));
    let at_seven: Option<[usize; 0]> = sample_array(&mut src, 7);
    assert_eq!(at_seven, Some([]));
    assert_eq!(src.draw_count(), 0);
}

#[test]
fn zero_length_rejects_nonzero_size() {
    let mut src = TapeSource::from_values(vec![1]);
    let out: Option<[usize; 1]> = sample_array(&mut src, 0);
    assert_eq!(out, None);
    assert_eq!(src.draw_count(), 0);
}

#[test]
fn distinct_and_in_range() {
    for seed in 1..50u64 {
        let mut src = TapeSource::from_values(lcg_tape(seed, 4));
        let out: Option<[usize; 4]> = sample_array(&mut src, 10);
        let arr = out.expect("4 <= 10 must succeed");
        for &v in arr.iter() {
            assert!(v < 10);
        }
        for a in 0..4 {
            for b in 0..4 {
                if a != b {
                    assert_ne!(arr[a], arr[b]);
                }
            }
        }
        assert_eq!(src.draw_count(), 4);
    }
}

#[test]
fn full_sample_is_permutation() {
    for seed in 1..50u64 {
        let mut src = TapeSource::from_values(lcg_tape(seed, 4));
        let out: Option<[usize; 4]> = sample_array(&mut src, 4);
        let mut arr = out.expect("4 <= 4 must succeed");
        arr.sort();
        assert_eq!(arr, [0, 1, 2, 3]);
    }
    let mut src = TapeSource::from_values(lcg_tape(3, 1));
    let out: Option<[usize; 1]> = sample_array(&mut src, 1);
    assert_eq!(out, Some([0]));
}

#[test]
fn gen_index_replays_tape_modulo_bound() {
    let mut src = TapeSource::from_values(vec![7, 12, 3]);
    assert_eq!(gen_index(&mut src, 5), 2);
    assert_eq!(gen_index(&mut src, 5), 2);
    assert_eq!(gen_index(&mut src, 4), 3);
    assert_eq!(src.draw_count(), 3);
}

#[test]
fn exhausted_tape_draws_zero() {
    // An empty tape serves zeros: candidate 3 draws 0; candidate 4 draws 0,
    // collides with slot 0, which is demoted to 4.
    let mut src = TapeSource::from_values(vec![]);
    let out: Option<[usize; 2]> = sample_array(&mut src, 5);
    assert_eq!(out, Some([4, 0]));
    assert_eq!(src.draw_count(), 0);
}

#[test]
fn reproducible_for_fixed_source() {
    let tape = lcg_tape(99, 6);
    let mut a = TapeSource::from_values(tape.clone());
    let mut b = TapeSource::from_values(tape);
    let out_a: Option<[usize; 6]> = sample_array(&mut a, 1000);
    let out_b: Option<[usize; 6]> = sample_array(&mut b, 1000);
    assert_eq!(out_a, out_b);
    assert_eq!(a.draw_count(), 6);
    assert_eq!(b.draw_count(), 6);
}

#[test]
fn chi_square_uniform_pairs() {
    // With length 4 and size 2 there are 12 equally likely ordered pairs.
    // 12000 samples, expected count 1000 each; chi-square threshold 35
    // corresponds to p < 0.0003 at 11 degrees of freedom.
    let rounds = 12000usize;
    let mut src = TapeSource::from_values(lcg_tape(0x853c49e6748fea9b, 2 * rounds));
    let mut counts = [[0usize; 4]; 4];
    for _ in 0..rounds {
        let out: Option<[usize; 2]> = sample_array(&mut src, 4);
        let arr = out.expect("2 <= 4 must succeed");
        counts[arr[0]][arr[1]] += 1;
    }
    let expected = rounds as f64 / 12.0;
    let mut chi2 = 0.0f64;
    for a in 0..4 {
        for b in 0..4 {
            if a == b {
                assert_eq!(counts[a][b], 0, "equal pair must never appear");
            } else {
                assert!(counts[a][b] > 0, "every ordered pair must appear");
                let diff = counts[a][b] as f64 - expected;
                chi2 += diff * diff / expected;
            }
        }
    }
    assert!(chi2 < 35.0, "chi-square too large: {chi2}");
}
