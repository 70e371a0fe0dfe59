use rrlang_core::nulls::{
    generate_bool_null, markov1_bool_sequence, markov1_fractions_of, markov2_bool_sequence,
    markov2_fractions_of, null_fractions_of, shuffle_bool_preserving_count, BoolNullKind,
    XorShift64,
};

/// The threshold below which the top 53 bits of a draw make `draw / 2^53 < p`
/// true, for `p = numerator / denominator`.
fn cut_for(fraction: (usize, usize)) -> u64 {
    let p = fraction.0 as f64 / fraction.1 as f64;
    (p * 9007199254740992.0).ceil() as u64
}

fn cuts_for(fractions: &[(usize, usize)]) -> Vec<u64> {
    fractions.iter().map(|f| cut_for(*f)).collect()
}

struct ReferenceRng {
    state: u64,
}

impl ReferenceRng {
    fn new(seed: u64) -> Self {
        let state = if seed == 0 { 0x9E37_79B9_7F4A_7C15 } else { seed };
        ReferenceRng { state }
    }

    fn next_u64(&mut self) -> u64 {
        let mut x = self.state;
        x ^= x << 13;
        x ^= x >> 7;
        x ^= x << 17;
        self.state = x;
        x
    }

    fn gen_range(&mut self, upper: usize) -> usize {
        if upper <= 1 {
            return 0;
        }
        (self.next_u64() as usize) % upper
    }

    fn gen_f64(&mut self) -> f64 {
        let raw = self.next_u64() >> 11;
        raw as f64 / ((1u64 << 53) as f64)
    }
}

fn reference_markov1(values: &[bool], rng: &mut ReferenceRng) -> Vec<bool> {
    if values.len() < 2 {
        return values.to_vec();
    }
    let mut transition_true = [[0usize; 2]; 2];
    let mut transition_total = [0usize; 2];
    for pair in values.windows(2) {
        let from = pair[0] as usize;
        let to = pair[1] as usize;
        transition_total[from] += 1;
        transition_true[from][to] += 1;
    }
    let true_density = values.iter().filter(|v| **v).count() as f64 / values.len() as f64;
    let mut out = Vec::new();
    out.push(rng.gen_f64() < true_density);
    for idx in 1..values.len() {
        let prev = out[idx - 1] as usize;
        let p_true = if transition_total[prev] == 0 {
            true_density
        } else {
            transition_true[prev][1] as f64 / transition_total[prev] as f64
        };
        out.push(rng.gen_f64() < p_true);
    }
    out
}

fn reference_markov2(values: &[bool], rng: &mut ReferenceRng) -> Vec<bool> {
    if values.len() < 3 {
        return reference_markov1(values, rng);
    }
    let mut next_true = [[0usize; 2]; 4];
    let mut total = [0usize; 4];
    for triple in values.windows(3) {
        let state = (triple[0] as usize) * 2 + triple[1] as usize;
        let to = triple[2] as usize;
        total[state] += 1;
        next_true[state][to] += 1;
    }
    let true_density = values.iter().filter(|v| **v).count() as f64 / values.len() as f64;
    let starts = values.windows(2).map(|pair| [pair[0], pair[1]]).collect::<Vec<_>>();
    let start = starts[rng.gen_range(starts.len())];
    let mut out = vec![start[0], start[1]];
    for idx in 2..values.len() {
        let state = (out[idx - 2] as usize) * 2 + out[idx - 1] as usize;
        let p_true = if total[state] == 0 {
            true_density
        } else {
            next_true[state][1] as f64 / total[state] as f64
        };
        out.push(rng.gen_f64() < p_true);
    }
    out
}

fn positions(values: &[bool]) -> Vec<usize> {
    values
        .iter()
        .enumerate()
        .filter(|(_, v)| **v)
        .map(|(i, _)| i)
        .collect()
}

fn sorted_gaps(values: &[bool]) -> Vec<usize> {
    let p = positions(values);
    let mut g = p.windows(2).map(|w| w[1] - w[0]).collect::<Vec<_>>();
    g.sort();
    g
}

#[test]
fn density_shuffle_preserves_count() {
    let values = [true, false, true, false, false, true];
    let mut rng = XorShift64::new(7);
    let shuffled = shuffle_bool_preserving_count(&values, &mut rng);
    assert_eq!(
        values.iter().filter(|v| **v).count(),
        shuffled.iter().filter(|v| **v).count()
    );
}

#[test]
fn markov_generators_preserve_length() {
    let values = [true, false, true, true, false, false, true, false];
    let mut rng = XorShift64::new(11);
    let cuts1 = cuts_for(&null_fractions_of(&values, BoolNullKind::Markov1));
    let cuts2 = cuts_for(&null_fractions_of(&values, BoolNullKind::Markov2));
    assert_eq!(markov1_bool_sequence(&values, &cuts1, &mut rng).len(), values.len());
    assert_eq!(markov2_bool_sequence(&values, &cuts2, &mut rng).len(), values.len());
}

#[test]
fn xorshift_follows_the_reference_steps() {
    for seed in [0u64, 1, 7, 11, 18427, u64::MAX] {
        let mut rng = XorShift64::new(seed);
        let mut reference = ReferenceRng::new(seed);
        for _ in 0..20 {
            let v = rng.next_u64();
            assert_ne!(v, 0);
            assert_eq!(v, reference.next_u64());
        }
    }
}

#[test]
fn xorshift_seed_zero_is_replaced() {
    let mut a = XorShift64::new(0);
    let mut b = XorShift64::new(0x9E37_79B9_7F4A_7C15);
    assert_eq!(a.next_u64(), b.next_u64());
}

#[test]
fn gen_range_stays_below_its_bound() {
    let mut rng = XorShift64::new(99);
    let mut reference = ReferenceRng::new(99);
    assert_eq!(rng.gen_range(0), 0);
    assert_eq!(rng.gen_range(1), 0);
    assert_eq!(reference.gen_range(0), 0);
    assert_eq!(reference.gen_range(1), 0);
    for upper in 2..200usize {
        let v = rng.gen_range(upper);
        assert!(v < upper);
        assert_eq!(v, reference.gen_range(upper));
    }
}

#[test]
fn markov_generators_match_the_floating_point_draws() {
    let samples: [&[bool]; 4] = [
        &[true, false, true, true, false, false, true, false],
        &[false, false, false, true],
        &[true, true, true, true, true, true],
        &[false, true, false, true, false, true, false, true, true, false, false, false],
    ];
    for values in samples {
        for seed in [1u64, 5, 11, 18427, 123456789] {
            let cuts1 = cuts_for(&markov1_fractions_of(values));
            let mut rng = XorShift64::new(seed);
            let mut reference = ReferenceRng::new(seed);
            assert_eq!(
                markov1_bool_sequence(values, &cuts1, &mut rng),
                reference_markov1(values, &mut reference)
            );
            let cuts2 = cuts_for(&null_fractions_of(values, BoolNullKind::Markov2));
            let mut rng = XorShift64::new(seed);
            let mut reference = ReferenceRng::new(seed);
            assert_eq!(
                markov2_bool_sequence(values, &cuts2, &mut rng),
                reference_markov2(values, &mut reference)
            );
        }
    }
}

#[test]
fn markov1_fractions_count_the_transitions() {
    let values = [true, false, true, true, false, false, true, false];
    let f = markov1_fractions_of(&values);
    // density 4/8; after false: true twice of 3 pairs; after true: true once of 4 pairs.
    assert_eq!(f, vec![(4, 8), (2, 3), (1, 4)]);
}

#[test]
fn markov1_fraction_falls_back_on_density() {
    let values = [false, false, false, true];
    let f = markov1_fractions_of(&values);
    assert_eq!(f, vec![(1, 4), (1, 3), (1, 4)]);
}

#[test]
fn markov2_fractions_count_the_triples() {
    let values = [true, false, true, true, false, false, true, false];
    let f = markov2_fractions_of(&values);
    // states: ff -> t once of 1; ft -> t once, f once (2); tf -> t once, f once (2); tt -> f once (1)
    assert_eq!(f, vec![(4, 8), (1, 1), (1, 2), (1, 2), (0, 1)]);
}

#[test]
fn shuffles_need_no_cuts() {
    let values = [true, false, true];
    assert!(null_fractions_of(&values, BoolNullKind::DensityShuffle).is_empty());
    assert!(null_fractions_of(&values, BoolNullKind::GapOrderShuffle).is_empty());
    assert_eq!(null_fractions_of(&[true, false], BoolNullKind::Markov2).len(), 3);
}

#[test]
fn gap_order_shuffle_keeps_first_event_and_gaps() {
    let values = [
        false, false, true, false, true, false, false, false, true, true, false, false, false,
        false, false, true, false, false, false, false,
    ];
    for seed in [3u64, 17, 18427, 987654321] {
        let mut rng = XorShift64::new(seed);
        let out = generate_bool_null(&values, BoolNullKind::GapOrderShuffle, &Vec::new(), &mut rng);
        assert_eq!(out.len(), values.len());
        assert_eq!(positions(&out)[0], positions(&values)[0]);
        assert_eq!(sorted_gaps(&out), sorted_gaps(&values));
        assert_eq!(
            out.iter().filter(|v| **v).count(),
            values.iter().filter(|v| **v).count()
        );
    }
}

#[test]
fn gap_order_shuffle_with_few_events_is_a_plain_shuffle() {
    let values = [false, true, false, false, true];
    let mut a = XorShift64::new(5);
    let mut b = XorShift64::new(5);
    let out = generate_bool_null(&values, BoolNullKind::GapOrderShuffle, &Vec::new(), &mut a);
    let plain = shuffle_bool_preserving_count(&values, &mut b);
    assert_eq!(out, plain);
}

#[test]
fn every_null_keeps_the_length() {
    let values = [true, false, false, true, true, false, true, false, false, false, true];
    for kind in [
        BoolNullKind::DensityShuffle,
        BoolNullKind::Markov1,
        BoolNullKind::Markov2,
        BoolNullKind::GapOrderShuffle,
    ] {
        let cuts = cuts_for(&null_fractions_of(&values, kind));
        let mut rng = XorShift64::new(42);
        assert_eq!(generate_bool_null(&values, kind, &cuts, &mut rng).len(), values.len());
    }
}

#[test]
fn same_seed_gives_the_same_null() {
    let values = [true, false, false, true, true, false, true, false, false, false, true];
    for kind in [
        BoolNullKind::DensityShuffle,
        BoolNullKind::Markov1,
        BoolNullKind::Markov2,
        BoolNullKind::GapOrderShuffle,
    ] {
        let cuts = cuts_for(&null_fractions_of(&values, kind));
        let mut a = XorShift64::new(2024);
        let mut b = XorShift64::new(2024);
        assert_eq!(
            generate_bool_null(&values, kind, &cuts, &mut a),
            generate_bool_null(&values, kind, &cuts, &mut b)
        );
    }
}

#[test]
fn null_kind_names_and_strengths() {
    assert_eq!(BoolNullKind::DensityShuffle.as_str(), "density_shuffle");
    assert_eq!(BoolNullKind::Markov1.as_str(), "markov_1");
    assert_eq!(BoolNullKind::Markov2.as_str(), "markov_2");
    assert_eq!(BoolNullKind::GapOrderShuffle.as_str(), "gap_order_shuffle");
    assert_eq!(BoolNullKind::DensityShuffle.interpretation_strength(), 1);
    assert_eq!(BoolNullKind::Markov1.interpretation_strength(), 2);
    assert_eq!(BoolNullKind::Markov2.interpretation_strength(), 3);
    assert_eq!(BoolNullKind::GapOrderShuffle.interpretation_strength(), 2);
}

#[test]
fn constant_maps_come_out_unchanged() {
    for values in [vec![true; 9], vec![false; 9], vec![true, true], vec![false], vec![]] {
        for kind in [
            BoolNullKind::DensityShuffle,
            BoolNullKind::Markov1,
            BoolNullKind::Markov2,
            BoolNullKind::GapOrderShuffle,
        ] {
            let cuts = cuts_for(&null_fractions_of(&values, kind));
            let mut rng = XorShift64::new(77);
            assert_eq!(generate_bool_null(&values, kind, &cuts, &mut rng), values);
        }
    }
}
