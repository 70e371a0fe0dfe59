//! The integer side of the event-map metrics: event positions, gaps, runs,
//! symbol counts and prime-index tallies, plus the choice of null models and
//! the alert rules read from deviation signals.
use vstd::prelude::*;

use crate::nulls::{count_of, count_true, differences, true_positions, BoolNullKind};
use crate::primes::{is_prime, is_prime_number, prime_sieve};
use crate::text::{concat3, decimal, owned, str_equal, usize_decimal};
use crate::types::{alert_view, Alert, AlertView, EncodingKind, EventMap};

verus! {

// ---------------------------------------------------------------------------
// Positions, gaps and runs
// ---------------------------------------------------------------------------

/// The 1-based positions of the true entries, in increasing order.
pub open spec fn event_position_seq(values: Seq<bool>) -> Seq<usize> {
    true_positions(values).map_values(|p: usize| (p + 1) as usize)
}

proof fn lemma_true_positions_facts(s: Seq<bool>)
    requires
        s.len() <= usize::MAX,
    ensures
        forall|k: int| 0 <= k < true_positions(s).len() ==> #[trigger] true_positions(s)[k] < s.len(),
        forall|k: int, l: int|
            0 <= k < l < true_positions(s).len() ==> #[trigger] true_positions(s)[k]
                < #[trigger] true_positions(s)[l],
        true_positions(s).len() == count_true(s),
    decreases s.len(),
{
    if s.len() > 0 {
        lemma_true_positions_facts(s.drop_last());
        let p = true_positions(s.drop_last());
        let q = true_positions(s);
        assert forall|k: int| 0 <= k < p.len() implies #[trigger] p[k] < s.len() - 1 by {}
        assert forall|k: int, l: int| 0 <= k < l < q.len() implies #[trigger] q[k] < #[trigger] q[l] by {
            if s.last() {
                assert(q == p.push((s.len() - 1) as usize));
                if l < p.len() {
                    assert(q[k] == p[k] && q[l] == p[l]);
                } else {
                    assert(q[k] == p[k]);
                    assert(q[l] == s.len() - 1);
                }
            } else {
                assert(q == p);
            }
        }
    }
}

/// The 1-based positions where `values` is true.
pub fn event_positions(values: &[bool]) -> (r: Vec<usize>)
    ensures
        r@ == event_position_seq(values@),
        r.len() == count_true(values@),
        forall|k: int, l: int| 0 <= k < l < r.len() ==> #[trigger] r@[k] < #[trigger] r@[l],
        forall|k: int| 0 <= k < r.len() ==> 1 <= #[trigger] r@[k] <= values.len(),
{
    let n = values.len();
    proof {
        lemma_true_positions_facts(values@);
    }
    let mut r: Vec<usize> = Vec::new();
    let mut k: usize = 0;
    while k < values.len()
        invariant
            k <= values.len(),
            r@ == event_position_seq(values@.take(k as int)),
        decreases values.len() - k,
    {
        assert(values@.take(k + 1).drop_last() =~= values@.take(k as int));
        if values[k] {
            r.push(k + 1);
        }
        assert(r@ =~= event_position_seq(values@.take(k + 1)));
        k = k + 1;
    }
    assert(values@.take(values.len() as int) =~= values@);
    r
}

/// The number of true entries.
pub fn event_count(values: &[bool]) -> (r: usize)
    ensures
        r == count_true(values@),
{
    let mut c: usize = 0;
    let mut k: usize = 0;
    while k < values.len()
        invariant
            k <= values.len(),
            c <= k,
            c == count_true(values@.take(k as int)),
        decreases values.len() - k,
    {
        assert(values@.take(k + 1).drop_last() =~= values@.take(k as int));
        if values[k] {
            c = c + 1;
        }
        k = k + 1;
    }
    assert(values@.take(values.len() as int) =~= values@);
    c
}

/// The gaps between consecutive events (differences of consecutive positions).
pub open spec fn event_gap_seq(values: Seq<bool>) -> Seq<usize> {
    if true_positions(values).len() < 2 {
        Seq::empty()
    } else {
        differences(true_positions(values))
    }
}

/// The gaps between consecutive true entries; empty with fewer than two.
pub fn event_gaps(values: &[bool]) -> (r: Vec<usize>)
    ensures
        r@ == event_gap_seq(values@),
        forall|k: int| 0 <= k < r.len() ==> #[trigger] r@[k] >= 1,
{
    let positions = event_positions(values);
    let n = values.len();
    proof {
        lemma_true_positions_facts(values@);
    }
    let mut r: Vec<usize> = Vec::new();
    if positions.len() < 2 {
        return r;
    }
    let mut k: usize = 1;
    while k < positions.len()
        invariant
            1 <= k <= positions.len(),
            r.len() == k - 1,
            positions@ == event_position_seq(values@),
            positions.len() == true_positions(values@).len(),
            forall|k: int, l: int| 0 <= k < l < positions.len() ==> #[trigger] positions@[k] < #[trigger] positions@[l],
            forall|t: int| 0 <= t < k - 1 ==> #[trigger] r@[t] == (positions@[t + 1] - positions@[t]) as usize,
            forall|t: int| 0 <= t < k - 1 ==> #[trigger] r@[t] >= 1,
        decreases positions.len() - k,
    {
        assert(positions@[k - 1] < positions@[k as int]);
        r.push(positions[k] - positions[k - 1]);
        k = k + 1;
    }
    assert forall|t: int| 0 <= t < r.len() implies #[trigger] r@[t] == event_gap_seq(values@)[t] by {
        assert(positions@[t] == true_positions(values@)[t] + 1);
        assert(positions@[t + 1] == true_positions(values@)[t + 1] + 1);
    }
    assert(r@ =~= event_gap_seq(values@));
    r
}

/// The lengths of the maximal runs of equal entries, in order.
pub open spec fn run_length_seq(values: Seq<bool>) -> Seq<usize>
    decreases values.len(),
{
    if values.len() == 0 {
        Seq::empty()
    } else if values.len() == 1 {
        seq![1usize]
    } else {
        let r = run_length_seq(values.drop_last());
        if values.last() == values[values.len() - 2] {
            r.update(r.len() - 1, (r.last() + 1) as usize)
        } else {
            r.push(1usize)
        }
    }
}

/// The lengths of the maximal runs of equal entries.
pub fn run_lengths(values: &[bool]) -> (r: Vec<usize>)
    ensures
        r@ == run_length_seq(values@),
{
    let mut runs: Vec<usize> = Vec::new();
    if values.len() == 0 {
        return runs;
    }
    let mut current = values[0];
    let mut length: usize = 1;
    let mut k: usize = 1;
    assert(values@.take(1).drop_last() =~= Seq::<bool>::empty());
    while k < values.len()
        invariant
            1 <= k <= values.len(),
            1 <= length <= k,
            current == values@[k - 1],
            runs@.push(length) == run_length_seq(values@.take(k as int)),
        decreases values.len() - k,
    {
        let ghost t = values@.take(k + 1);
        assert(t.drop_last() =~= values@.take(k as int));
        assert(t[t.len() - 2] == values@[k - 1]);
        if values[k] == current {
            assert(runs@.push(length).update(runs.len() as int, (length + 1) as usize) =~= runs@.push(
                (length + 1) as usize,
            ));
            length = length + 1;
        } else {
            runs.push(length);
            current = values[k];
            length = 1;
        }
        k = k + 1;
    }
    assert(values@.take(values.len() as int) =~= values@);
    runs.push(length);
    runs
}

// ---------------------------------------------------------------------------
// Symbol counts
// ---------------------------------------------------------------------------

/// The distinct items of `s` in order of first occurrence.
pub open spec fn distinct_in_order<T>(s: Seq<T>) -> Seq<T>
    decreases s.len(),
{
    if s.len() == 0 {
        Seq::empty()
    } else {
        let d = distinct_in_order(s.drop_last());
        if d.contains(s.last()) {
            d
        } else {
            d.push(s.last())
        }
    }
}

/// How often each distinct item occurs, in order of first occurrence.
pub open spec fn occurrence_counts<T>(s: Seq<T>) -> Seq<nat> {
    distinct_in_order(s).map_values(|x: T| count_of(s, x))
}

pub proof fn lemma_distinct_in_order_facts<T>(s: Seq<T>)
    ensures
        forall|x: T| #[trigger] distinct_in_order(s).contains(x) <==> s.contains(x),
        distinct_in_order(s).no_duplicates(),
        distinct_in_order(s).len() <= s.len(),
    decreases s.len(),
{
    if s.len() > 0 {
        lemma_distinct_in_order_facts(s.drop_last());
        let d = distinct_in_order(s.drop_last());
        assert forall|x: T| #[trigger] distinct_in_order(s).contains(x) <==> s.contains(x) by {
            if s.contains(x) {
                let i = choose|i: int| 0 <= i < s.len() && s[i] == x;
                if i < s.len() - 1 {
                    assert(s.drop_last()[i] == x);
                }
            }
            if s.drop_last().contains(x) {
                let i = choose|i: int| 0 <= i < s.drop_last().len() && s.drop_last()[i] == x;
                assert(s[i] == x);
            }
            if !d.contains(s.last()) {
                if distinct_in_order(s).contains(x) {
                    let i = choose|i: int| 0 <= i < d.len() + 1 && d.push(s.last())[i] == x;
                    if i < d.len() {
                        assert(d[i] == x);
                    }
                }
                if d.contains(x) {
                    let i = choose|i: int| 0 <= i < d.len() && d[i] == x;
                    assert(d.push(s.last())[i] == x);
                }
                assert(d.push(s.last())[d.len() as int] == s.last());
            }
        }
    }
}

proof fn lemma_count_of_positive_iff_contains<T>(s: Seq<T>, x: T)
    ensures
        count_of(s, x) > 0 <==> s.contains(x),
    decreases s.len(),
{
    if s.len() > 0 {
        lemma_count_of_positive_iff_contains(s.drop_last(), x);
        if s.contains(x) && !s.drop_last().contains(x) {
            let i = choose|i: int| 0 <= i < s.len() && s[i] == x;
            if i < s.len() - 1 {
                assert(s.drop_last()[i] == x);
            }
        }
        if s.drop_last().contains(x) {
            let i = choose|i: int| 0 <= i < s.drop_last().len() && s.drop_last()[i] == x;
            assert(s[i] == x);
        }
    }
}

/// How often each distinct value of `values` occurs, in order of first occurrence.
pub fn value_counts(values: &[usize]) -> (r: Vec<usize>)
    ensures
        r@.map_values(|c: usize| c as nat) == occurrence_counts(values@),
{
    let mut distinct: Vec<usize> = Vec::new();
    let mut counts: Vec<usize> = Vec::new();
    let mut k: usize = 0;
    while k < values.len()
        invariant
            k <= values.len(),
            distinct@ == distinct_in_order(values@.take(k as int)),
            counts.len() == distinct.len(),
            forall|j: int|
                0 <= j < counts.len() ==> #[trigger] counts@[j] == count_of(
                    values@.take(k as int),
                    distinct@[j],
                ) && counts@[j] <= k,
        decreases values.len() - k,
    {
        let ghost pre = values@.take(k as int);
        let ghost post = values@.take(k + 1);
        assert(post.drop_last() =~= pre);
        let v = values[k];
        assert(post.last() == v);
        proof {
            lemma_distinct_in_order_facts(pre);
        }
        let mut j: usize = 0;
        while j < distinct.len() && distinct[j] != v
            invariant
                j <= distinct.len(),
                forall|t: int| 0 <= t < j ==> distinct@[t] != v,
            decreases distinct.len() - j,
        {
            j = j + 1;
        }
        let ghost dv = distinct@;
        if j < distinct.len() {
            assert(dv.contains(v));
            let c = counts[j];
            counts.set(j, c + 1);
            assert forall|t: int| 0 <= t < counts.len() implies #[trigger] counts@[t] == count_of(
                post,
                distinct@[t],
            ) && counts@[t] <= k + 1 by {
                if t != j {
                    assert(dv[t] != dv[j as int]);
                }
            }
        } else {
            assert(!dv.contains(v));
            proof {
                lemma_count_of_positive_iff_contains(pre, v);
            }
            distinct.push(v);
            counts.push(1);
            assert forall|t: int| 0 <= t < counts.len() implies #[trigger] counts@[t] == count_of(
                post,
                distinct@[t],
            ) && counts@[t] <= k + 1 by {
                if t < dv.len() {
                    assert(distinct@[t] == dv[t]);
                    assert(dv[t] != v);
                }
            }
        }
        k = k + 1;
    }
    assert(values@.take(values.len() as int) =~= values@);
    assert(counts@.map_values(|c: usize| c as nat) =~= occurrence_counts(values@));
    counts
}

/// How often each distinct label occurs, in order of first occurrence.
pub fn label_counts(labels: &Vec<String>) -> (r: Vec<usize>)
    ensures
        r@.map_values(|c: usize| c as nat) == occurrence_counts(labels.deep_view()),
{
    let ghost lv = labels.deep_view();
    let mut distinct: Vec<String> = Vec::new();
    let mut counts: Vec<usize> = Vec::new();
    let mut k: usize = 0;
    while k < labels.len()
        invariant
            k <= labels.len(),
            lv == labels.deep_view(),
            distinct.deep_view() == distinct_in_order(lv.take(k as int)),
            counts.len() == distinct.len(),
            forall|j: int|
                0 <= j < counts.len() ==> #[trigger] counts@[j] == count_of(
                    lv.take(k as int),
                    distinct.deep_view()[j],
                ) && counts@[j] <= k,
        decreases labels.len() - k,
    {
        let ghost pre = lv.take(k as int);
        let ghost post = lv.take(k + 1);
        assert(post.drop_last() =~= pre);
        let ghost v = lv[k as int];
        assert(post.last() == v);
        proof {
            lemma_distinct_in_order_facts(pre);
        }
        let mut j: usize = 0;
        while j < distinct.len() && !str_equal(distinct[j].as_str(), labels[k].as_str())
            invariant
                j <= distinct.len(),
                v == labels.deep_view()[k as int],
                k < labels.len(),
                forall|t: int| 0 <= t < j ==> distinct.deep_view()[t] != v,
            decreases distinct.len() - j,
        {
            j = j + 1;
        }
        let ghost dv = distinct.deep_view();
        if j < distinct.len() {
            assert(dv[j as int] == v);
            assert(dv.contains(v));
            let c = counts[j];
            counts.set(j, c + 1);
            assert forall|t: int| 0 <= t < counts.len() implies #[trigger] counts@[t] == count_of(
                post,
                distinct.deep_view()[t],
            ) && counts@[t] <= k + 1 by {
                if t != j {
                    assert(dv[t] != dv[j as int]);
                }
            }
        } else {
            assert(!dv.contains(v));
            proof {
                lemma_count_of_positive_iff_contains(pre, v);
            }
            distinct.push(owned(labels[k].as_str()));
            counts.push(1);
            assert(distinct.deep_view() =~= dv.push(v));
            assert forall|t: int| 0 <= t < counts.len() implies #[trigger] counts@[t] == count_of(
                post,
                distinct.deep_view()[t],
            ) && counts@[t] <= k + 1 by {
                if t < dv.len() {
                    assert(distinct.deep_view()[t] == dv[t]);
                    assert(dv[t] != v);
                }
            }
        }
        k = k + 1;
    }
    assert(lv.take(labels.len() as int) =~= lv);
    assert(counts@.map_values(|c: usize| c as nat) =~= occurrence_counts(lv));
    counts
}

/// The number of distinct labels.
pub fn unique_label_count(labels: &Vec<String>) -> (r: usize)
    ensures
        r == labels.deep_view().to_set().len(),
{
    let counts = label_counts(labels);
    proof {
        let lv = labels.deep_view();
        let d = distinct_in_order(lv);
        lemma_distinct_in_order_facts(lv);
        d.unique_seq_to_set();
        assert(d.to_set() =~= lv.to_set());
        assert(counts@.map_values(|c: usize| c as nat).len() == counts.len());
    }
    counts.len()
}

// ---------------------------------------------------------------------------
// Prime-index and prime-gap tallies
// ---------------------------------------------------------------------------

/// Tallies of events at prime and at composite 1-based indices (index 1 is in neither).
#[derive(Debug, Clone, Copy, PartialEq, Eq, Structural)]
pub struct PrimeIndexCounts {
    pub prime_true: usize,
    pub prime_total: usize,
    pub nonprime_true: usize,
    pub nonprime_total: usize,
}

/// The number of 1-based indices from 2 to `n` that are (or are not) prime.
pub open spec fn index_total(n: nat, prime: bool) -> nat
    decreases n,
{
    if n < 2 {
        0
    } else {
        index_total((n - 1) as nat, prime) + (if is_prime(n) == prime {
            1nat
        } else {
            0nat
        })
    }
}

/// The number of true entries among the first `n` whose 1-based index, from 2
/// on, is (or is not) prime.
pub open spec fn index_true(values: Seq<bool>, n: nat, prime: bool) -> nat
    decreases n,
{
    if n < 2 {
        0
    } else {
        index_true(values, (n - 1) as nat, prime) + (if is_prime(n) == prime && values[n - 1] {
            1nat
        } else {
            0nat
        })
    }
}

/// The tallies for the whole map.
pub open spec fn prime_index_tally(values: Seq<bool>) -> PrimeIndexCounts {
    PrimeIndexCounts {
        prime_true: index_true(values, values.len(), true) as usize,
        prime_total: index_total(values.len(), true) as usize,
        nonprime_true: index_true(values, values.len(), false) as usize,
        nonprime_total: index_total(values.len(), false) as usize,
    }
}

/// Events at prime and at composite 1-based indices, and how many such indices
/// there are; index 1 counts as neither.
pub fn prime_index_counts(values: &[bool]) -> (r: PrimeIndexCounts)
    ensures
        r == prime_index_tally(values@),
{
    let primes = prime_sieve(values.len());
    let mut prime_true: usize = 0;
    let mut prime_total: usize = 0;
    let mut nonprime_true: usize = 0;
    let mut nonprime_total: usize = 0;
    let mut k: usize = 0;
    while k < values.len()
        invariant
            k <= values.len(),
            primes.len() == values.len() + 1,
            forall|i: int| 0 <= i < primes.len() ==> #[trigger] primes@[i] == is_prime(i as nat),
            prime_true <= prime_total,
            nonprime_true <= nonprime_total,
            prime_total + nonprime_total <= k,
            prime_true == index_true(values@, k as nat, true),
            prime_total == index_total(k as nat, true),
            nonprime_true == index_true(values@, k as nat, false),
            nonprime_total == index_total(k as nat, false),
        decreases values.len() - k,
    {
        let one_index = k + 1;
        if one_index != 1 {
            if primes[one_index] {
                prime_total = prime_total + 1;
                if values[k] {
                    prime_true = prime_true + 1;
                }
            } else {
                nonprime_total = nonprime_total + 1;
                if values[k] {
                    nonprime_true = nonprime_true + 1;
                }
            }
        }
        k = k + 1;
    }
    PrimeIndexCounts { prime_true, prime_total, nonprime_true, nonprime_total }
}

/// The number of gaps between consecutive events that are prime, and the
/// number of gaps.
pub fn prime_gap_counts(values: &[bool]) -> (r: (usize, usize))
    ensures
        r.1 == event_gap_seq(values@).len(),
        r.0 == event_gap_seq(values@).filter(|g: usize| is_prime(g as nat)).len(),
{
    let gaps = event_gaps(values);
    let mut prime_gaps: usize = 0;
    let mut k: usize = 0;
    while k < gaps.len()
        invariant
            k <= gaps.len(),
            prime_gaps <= k,
            prime_gaps == gaps@.take(k as int).filter(|g: usize| is_prime(g as nat)).len(),
        decreases gaps.len() - k,
    {
        proof {
            reveal_with_fuel(Seq::filter, 1);
            assert(gaps@.take(k + 1).drop_last() =~= gaps@.take(k as int));
        }
        if is_prime_number(gaps[k]) {
            prime_gaps = prime_gaps + 1;
        }
        k = k + 1;
    }
    assert(gaps@.take(gaps.len() as int) =~= gaps@);
    (prime_gaps, gaps.len())
}

/// The number of events whose 1-based position leaves remainder `r` modulo `m`.
pub open spec fn residue_count(values: Seq<bool>, m: nat, r: nat) -> nat {
    event_position_seq(values).filter(|p: usize| (p as nat) % m == r).len()
}

/// The largest number of events sharing one remainder of their position modulo
/// `modulus`, and the number of events; `(0, 0)` when `modulus` is 0 or there
/// are no events.
pub fn modular_residue_counts(values: &[bool], modulus: usize) -> (r: (usize, usize))
    ensures
        modulus == 0 || count_true(values@) == 0 ==> r == (0usize, 0usize),
        modulus > 0 && count_true(values@) > 0 ==> {
            &&& r.1 == count_true(values@)
            &&& exists|res: nat| res < modulus && r.0 == residue_count(values@, modulus as nat, res)
            &&& forall|res: nat| res < modulus ==> residue_count(values@, modulus as nat, res) <= r.0
        },
{
    if modulus == 0 {
        return (0, 0);
    }
    let positions = event_positions(values);
    if positions.len() == 0 {
        return (0, 0);
    }
    let mut buckets: Vec<usize> = Vec::new();
    let mut b: usize = 0;
    while b < modulus
        invariant
            b <= modulus,
            buckets.len() == b,
            forall|t: int| 0 <= t < b ==> #[trigger] buckets@[t] == 0,
        decreases modulus - b,
    {
        buckets.push(0);
        b = b + 1;
    }
    let ghost pv = positions@;
    let mut k: usize = 0;
    while k < positions.len()
        invariant
            k <= positions.len(),
            pv == positions@,
            buckets.len() == modulus,
            modulus > 0,
            forall|t: int|
                0 <= t < modulus ==> #[trigger] buckets@[t] == pv.take(k as int).filter(
                    |p: usize| (p as nat) % (modulus as nat) == t,
                ).len() && buckets@[t] <= k,
        decreases positions.len() - k,
    {
        let residue = positions[k] % modulus;
        let c = buckets[residue];
        buckets.set(residue, c + 1);
        proof {
            reveal_with_fuel(Seq::filter, 1);
            assert(pv.take(k + 1).drop_last() =~= pv.take(k as int));
        }
        k = k + 1;
    }
    assert(pv.take(pv.len() as int) =~= pv);
    let mut peak: usize = buckets[0];
    let mut arg: usize = 0;
    let mut t: usize = 1;
    while t < modulus
        invariant
            1 <= t <= modulus,
            buckets.len() == modulus,
            arg < t,
            peak == buckets@[arg as int],
            forall|u: int| 0 <= u < t ==> #[trigger] buckets@[u] <= peak,
        decreases modulus - t,
    {
        if buckets[t] > peak {
            peak = buckets[t];
            arg = t;
        }
        t = t + 1;
    }
    proof {
        assert(residue_count(values@, modulus as nat, arg as nat) == peak);
        assert forall|res: nat| res < modulus implies residue_count(values@, modulus as nat, res)
            <= peak by {
            assert(buckets@[res as int] <= peak);
        }
    }
    (peak, positions.len())
}

// ---------------------------------------------------------------------------
// Null models and alerts
// ---------------------------------------------------------------------------

/// The null models an event map is compared against: the density shuffle and
/// both Markov models always, and the gap-order shuffle when the map has at
/// least 16 positions, at least 3 events and at least 3 non-events.
pub open spec fn null_models_for(len: nat, event_count: nat) -> Seq<BoolNullKind> {
    let base = seq![BoolNullKind::DensityShuffle, BoolNullKind::Markov1, BoolNullKind::Markov2];
    if len >= 16 && event_count >= 3 && event_count + 3 <= len {
        base.push(BoolNullKind::GapOrderShuffle)
    } else {
        base
    }
}

/// The null models to compare `values` (the values of `event_map`, with
/// `event_count` events) against.
pub fn select_null_models(event_map: &EventMap, values: &[bool], event_count: usize) -> (r: Vec<BoolNullKind>)
    ensures
        r@ == null_models_for(values@.len(), event_count as nat),
{
    let mut models: Vec<BoolNullKind> = Vec::new();
    models.push(BoolNullKind::DensityShuffle);
    models.push(BoolNullKind::Markov1);
    models.push(BoolNullKind::Markov2);
    if values.len() >= 16 && event_count >= 3 && event_count <= values.len() - 3 {
        models.push(BoolNullKind::GapOrderShuffle);
    }
    let _ = event_map;
    assert(models@ =~= null_models_for(values@.len(), event_count as nat));
    models
}

/// The interpretation level a deviation from the named null model supports.
pub open spec fn null_level(null_model: Seq<char>) -> u8 {
    if null_model == "density_shuffle"@ {
        1
    } else if null_model == "markov_1"@ {
        2
    } else if null_model == "markov_2"@ {
        3
    } else if null_model == "gap_order_shuffle"@ {
        2
    } else {
        1
    }
}

/// The interpretation level a deviation from `null_model` supports (1 for an
/// unknown name).
pub fn null_interpretation_level(null_model: &str) -> (r: u8)
    ensures
        r == null_level(null_model@),
{
    if str_equal(null_model, "density_shuffle") {
        1
    } else if str_equal(null_model, "markov_1") {
        2
    } else if str_equal(null_model, "markov_2") {
        3
    } else if str_equal(null_model, "gap_order_shuffle") {
        2
    } else {
        1
    }
}

/// What the alert rules read of one comparison with a null model: the metric
/// and null-model names, whether the deviation is strong (`|z| >= 3` with a
/// positive null spread), whether it is strongly low (`z <= -3` with a positive
/// null spread), and `z` printed with three decimals.
#[derive(Debug, Clone)]
pub struct DeviationSignal {
    pub name: String,
    pub null_model: String,
    pub strong: bool,
    pub strongly_low: bool,
    pub z_text: String,
}

/// The model of a deviation signal.
pub struct SignalView {
    pub name: Seq<char>,
    pub null_model: Seq<char>,
    pub strong: bool,
    pub strongly_low: bool,
    pub z_text: Seq<char>,
}

impl View for DeviationSignal {
    type V = SignalView;

    open spec fn view(&self) -> SignalView {
        SignalView {
            name: self.name@,
            null_model: self.null_model@,
            strong: self.strong,
            strongly_low: self.strongly_low,
            z_text: self.z_text@,
        }
    }
}

impl DeepView for DeviationSignal {
    type V = SignalView;

    open spec fn deep_view(&self) -> SignalView {
        self@
    }
}

/// The alert for a strong deviation.
pub open spec fn deviation_alert(c: SignalView) -> AlertView {
    alert_view(
        "STATISTICAL_DEVIATION"@,
        "info"@,
        null_level(c.null_model),
        "Metric '"@ + c.name + "' deviates from '"@ + c.null_model + "' null with z="@ + c.z_text
            + ". This is a tripwire, not a conclusion."@,
    )
}

/// The alert that a deviation lies in the raw UTF-8 layer.
pub open spec fn raw_layer_alert() -> AlertView {
    alert_view(
        "RAW_LAYER_FINDING_NOT_LINGUISTIC"@,
        "warning"@,
        0,
        "This deviation occurred in raw UTF-8 bits. Treat it as encoding-level unless it survives linguistic encodings."@,
    )
}

/// The alert for a strongly low run entropy.
pub open spec fn over_regularity_alert(c: SignalView) -> AlertView {
    alert_view(
        "OVER_REGULARITY_WARNING"@,
        "warning"@,
        null_level(c.null_model),
        "Run entropy is substantially lower than the '"@ + c.null_model
            + "' null expectation. Possible causes include genuine structure, repeated boilerplate, encoding artefact, formal constraint, or local transition structure not captured by this null."@,
    )
}

/// The alert for a strongly low gap entropy.
pub open spec fn periodicity_alert(c: SignalView) -> AlertView {
    alert_view(
        "PERIODICITY_OR_CLUSTERING_WARNING"@,
        "warning"@,
        null_level(c.null_model),
        "Gap entropy is substantially lower than the '"@ + c.null_model
            + "' null expectation. Inspect for periodicity, clustering, repeated material, genre constraints, or local phonotactic regularity."@,
    )
}

/// The alerts one comparison raises, in order.
pub open spec fn signal_alerts(enc: EncodingKind, c: SignalView) -> Seq<AlertView> {
    let a = if c.strong {
        if enc == EncodingKind::Utf8Bits {
            seq![deviation_alert(c), raw_layer_alert()]
        } else {
            seq![deviation_alert(c)]
        }
    } else {
        Seq::empty()
    };
    let b = if c.name == "run_entropy"@ && c.strongly_low {
        a.push(over_regularity_alert(c))
    } else {
        a
    };
    if c.name == "gap_entropy"@ && c.strongly_low {
        b.push(periodicity_alert(c))
    } else {
        b
    }
}

/// The alerts of all comparisons, in order.
pub open spec fn signals_alerts(enc: EncodingKind, cs: Seq<SignalView>) -> Seq<AlertView>
    decreases cs.len(),
{
    if cs.len() == 0 {
        Seq::empty()
    } else {
        signals_alerts(enc, cs.drop_last()) + signal_alerts(enc, cs.last())
    }
}

/// Some comparison with the Markov-2 null deviates strongly.
pub open spec fn survives_markov2(cs: Seq<SignalView>) -> bool {
    exists|i: int| 0 <= i < cs.len() && (#[trigger] cs[i]).strong && cs[i].null_model == "markov_2"@
}

/// The alert that a deviation survives the Markov-2 null.
pub open spec fn markov2_alert() -> AlertView {
    alert_view(
        "SURVIVES_MARKOV_2_NULL"@,
        "info"@,
        3,
        "At least one metric remains deviant under the Markov-2 null. This is stronger than density-only evidence, but still requires corpus and encoding replication."@,
    )
}

/// The alerts on the size and balance of an event map.
pub open spec fn shape_alerts(len: nat, event_count: nat) -> Seq<AlertView> {
    let a = if len < 128 {
        seq![
            alert_view(
                "WINDOW_TOO_SMALL"@,
                "warning"@,
                0,
                "The event map has fewer than 128 positions; positional and spectral metrics may be unstable."@,
            ),
        ]
    } else {
        Seq::empty()
    };
    let b = if event_count < 5 {
        a.push(
            alert_view(
                "LOW_EVENT_COUNT"@,
                "warning"@,
                0,
                "The event occurs fewer than five times; gap and prime-position metrics are weak evidence."@,
            ),
        )
    } else {
        a
    };
    if event_count == 0 || event_count == len {
        b.push(
            alert_view(
                "DEGENERATE_EVENT_MAP"@,
                "warning"@,
                0,
                "The event map is all false or all true; many metrics collapse to trivial values."@,
            ),
        )
    } else {
        b
    }
}

/// All alerts of an event map: shape alerts, the alerts of each comparison,
/// then the Markov-2 survival alert when it applies.
pub open spec fn event_alerts(enc: EncodingKind, len: nat, event_count: nat, cs: Seq<SignalView>) -> Seq<AlertView> {
    let a = shape_alerts(len, event_count) + signals_alerts(enc, cs);
    if survives_markov2(cs) {
        a.push(markov2_alert())
    } else {
        a
    }
}

fn push_signal_alerts(alerts: &mut Vec<Alert>, encoding: EncodingKind, c: &DeviationSignal)
    ensures
        final(alerts).deep_view() == old(alerts).deep_view() + signal_alerts(encoding, c@),
{
    let ghost start = alerts.deep_view();
    let level = null_interpretation_level(c.null_model.as_str());
    if c.strong {
        let mut m = owned("Metric '");
        m.append(c.name.as_str());
        m.append("' deviates from '");
        m.append(c.null_model.as_str());
        m.append("' null with z=");
        m.append(c.z_text.as_str());
        m.append(". This is a tripwire, not a conclusion.");
        alerts.push(Alert::new("STATISTICAL_DEVIATION", "info", level, m));
        if encoding == EncodingKind::Utf8Bits {
            alerts.push(
                Alert::new(
                    "RAW_LAYER_FINDING_NOT_LINGUISTIC",
                    "warning",
                    0,
                    owned(
                        "This deviation occurred in raw UTF-8 bits. Treat it as encoding-level unless it survives linguistic encodings.",
                    ),
                ),
            );
        }
    }
    let ghost mid = alerts.deep_view();
    if str_equal(c.name.as_str(), "run_entropy") && c.strongly_low {
        let m = concat3(
            "Run entropy is substantially lower than the '",
            c.null_model.as_str(),
            "' null expectation. Possible causes include genuine structure, repeated boilerplate, encoding artefact, formal constraint, or local transition structure not captured by this null.",
        );
        alerts.push(Alert::new("OVER_REGULARITY_WARNING", "warning", level, m));
    }
    let ghost mid2 = alerts.deep_view();
    if str_equal(c.name.as_str(), "gap_entropy") && c.strongly_low {
        let m = concat3(
            "Gap entropy is substantially lower than the '",
            c.null_model.as_str(),
            "' null expectation. Inspect for periodicity, clustering, repeated material, genre constraints, or local phonotactic regularity.",
        );
        alerts.push(Alert::new("PERIODICITY_OR_CLUSTERING_WARNING", "warning", level, m));
    }
    assert(alerts.deep_view() =~= start + signal_alerts(encoding, c@));
}

/// The alerts for an event map of `len` positions and `event_count` events in
/// the layer `encoding`, given what its null-model comparisons showed.
pub fn build_event_alerts(encoding: EncodingKind, len: usize, event_count: usize, comparisons: &Vec<DeviationSignal>) -> (r: Vec<Alert>)
    ensures
        r.deep_view() == event_alerts(encoding, len as nat, event_count as nat, comparisons.deep_view()),
{
    let mut alerts: Vec<Alert> = Vec::new();
    if len < 128 {
        alerts.push(Alert::new("WINDOW_TOO_SMALL", "warning", 0, owned("The event map has fewer than 128 positions; positional and spectral metrics may be unstable.")));
    }
    if event_count < 5 {
        alerts.push(Alert::new("LOW_EVENT_COUNT", "warning", 0, owned("The event occurs fewer than five times; gap and prime-position metrics are weak evidence.")));
    }
    if event_count == 0 || event_count == len {
        alerts.push(Alert::new("DEGENERATE_EVENT_MAP", "warning", 0, owned("The event map is all false or all true; many metrics collapse to trivial values.")));
    }
    let ghost base = alerts.deep_view();
    assert(base =~= shape_alerts(len as nat, event_count as nat));
    let ghost cv = comparisons.deep_view();
    let mut survived_markov2 = false;
    let mut i: usize = 0;
    while i < comparisons.len()
        invariant
            i <= comparisons.len(),
            cv == comparisons.deep_view(),
            alerts.deep_view() == base + signals_alerts(encoding, cv.take(i as int)),
            survived_markov2 == survives_markov2(cv.take(i as int)),
        decreases comparisons.len() - i,
    {
        let c = &comparisons[i];
        let ghost pre = cv.take(i as int);
        let ghost post = cv.take(i + 1);
        assert(post.drop_last() =~= pre);
        assert(post.last() == c@);
        push_signal_alerts(&mut alerts, encoding, c);
        assert(base + signals_alerts(encoding, pre) + signal_alerts(encoding, c@) =~= base
            + signals_alerts(encoding, post));
        if c.strong && str_equal(c.null_model.as_str(), "markov_2") {
            survived_markov2 = true;
            assert(post[i as int] == c@);
        }
        proof {
            if survives_markov2(post) {
                let j = choose|j: int| 0 <= j < post.len() && (#[trigger] post[j]).strong && post[j].null_model == "markov_2"@;
                if j < i {
                    assert(pre[j] == post[j]);
                }
            }
            if survives_markov2(pre) {
                let j = choose|j: int| 0 <= j < pre.len() && (#[trigger] pre[j]).strong && pre[j].null_model == "markov_2"@;
                assert(post[j] == pre[j]);
            }
        }
        i = i + 1;
    }
    assert(cv.take(comparisons.len() as int) =~= cv);
    if survived_markov2 {
        alerts.push(Alert::new("SURVIVES_MARKOV_2_NULL", "info", 3, owned("At least one metric remains deviant under the Markov-2 null. This is stronger than density-only evidence, but still requires corpus and encoding replication.")));
    }
    alerts
}

/// The warning raised when fewer than 100 null samples were drawn.
pub open spec fn low_null_samples_alert(null_samples: nat) -> AlertView {
    alert_view(
        "LOW_NULL_SAMPLE_COUNT"@,
        "warning"@,
        1,
        "Only "@ + decimal(null_samples)
            + " null samples were used. Treat p-values and z-scores as exploratory."@,
    )
}

/// The alert on a small null sample: `Some` exactly when fewer than 100
/// samples were drawn.
pub fn low_null_sample_alert(null_samples: usize) -> (r: Option<Alert>)
    ensures
        null_samples < 100 ==> (r matches Some(a) && a@ == low_null_samples_alert(null_samples as nat)),
        null_samples >= 100 ==> r is None,
{
    if null_samples < 100 {
        let n = usize_decimal(null_samples);
        let m = concat3("Only ", n.as_str(), " null samples were used. Treat p-values and z-scores as exploratory.");
        Some(Alert::new("LOW_NULL_SAMPLE_COUNT", "warning", 1, m))
    } else {
        None
    }
}

/// A code raised for a comparison with a null model.
pub open spec fn is_signal_code(code: Seq<char>) -> bool {
    code == "STATISTICAL_DEVIATION"@ || code == "RAW_LAYER_FINDING_NOT_LINGUISTIC"@ || code
        == "OVER_REGULARITY_WARNING"@ || code == "PERIODICITY_OR_CLUSTERING_WARNING"@
}

/// A code raised for the size and balance of an event map.
pub open spec fn is_shape_code(code: Seq<char>) -> bool {
    code == "WINDOW_TOO_SMALL"@ || code == "LOW_EVENT_COUNT"@ || code == "DEGENERATE_EVENT_MAP"@
}

proof fn lemma_signals_alert_codes(enc: EncodingKind, cs: Seq<SignalView>)
    ensures
        forall|k: int|
            0 <= k < signals_alerts(enc, cs).len() ==> is_signal_code(
                #[trigger] signals_alerts(enc, cs)[k].code,
            ),
        (forall|i: int| 0 <= i < cs.len() ==> !(#[trigger] cs[i]).strong && !cs[i].strongly_low)
            ==> signals_alerts(enc, cs).len() == 0,
    decreases cs.len(),
{
    if cs.len() > 0 {
        let prev = signals_alerts(enc, cs.drop_last());
        lemma_signals_alert_codes(enc, cs.drop_last());
        let one = signal_alerts(enc, cs.last());
        let all = signals_alerts(enc, cs);
        assert(all == prev + one);
        assert forall|k: int| 0 <= k < one.len() implies is_signal_code(#[trigger] one[k].code) by {
        }
        assert forall|k: int| 0 <= k < all.len() implies is_signal_code(#[trigger] all[k].code) by {
            if k < prev.len() {
                assert(all[k] == prev[k]);
            } else {
                assert(all[k] == one[k - prev.len()]);
            }
        }
        if forall|i: int| 0 <= i < cs.len() ==> !(#[trigger] cs[i]).strong && !cs[i].strongly_low {
            assert forall|i: int| 0 <= i < cs.drop_last().len() implies !(
            #[trigger] cs.drop_last()[i]).strong && !cs.drop_last()[i].strongly_low by {
                assert(cs.drop_last()[i] == cs[i]);
            }
            assert(!cs[cs.len() - 1].strong && !cs[cs.len() - 1].strongly_low);
        }
    }
}

/// The Markov-2 survival alert is raised exactly when some comparison with the
/// `markov_2` null deviates strongly. When no comparison deviates strongly or
/// strongly low, only alerts on the size and balance of the map remain, and a
/// map of at least 128 positions with at least five events and at least one
/// non-event gets no alert at all.
pub proof fn lemma_event_alert_rules(enc: EncodingKind, len: nat, event_count: nat, cs: Seq<SignalView>)
    ensures
        (exists|k: int|
            0 <= k < event_alerts(enc, len, event_count, cs).len() && (#[trigger] event_alerts(
                enc,
                len,
                event_count,
                cs,
            )[k]).code == "SURVIVES_MARKOV_2_NULL"@) <==> (exists|i: int|
            0 <= i < cs.len() && (#[trigger] cs[i]).strong && cs[i].null_model == "markov_2"@),
        (forall|i: int| 0 <= i < cs.len() ==> !(#[trigger] cs[i]).strong && !cs[i].strongly_low)
            ==> forall|k: int|
            0 <= k < event_alerts(enc, len, event_count, cs).len() ==> is_shape_code(
                #[trigger] event_alerts(enc, len, event_count, cs)[k].code,
            ),
        (forall|i: int| 0 <= i < cs.len() ==> !(#[trigger] cs[i]).strong && !cs[i].strongly_low)
            && len >= 128 && 5 <= event_count < len ==> event_alerts(enc, len, event_count, cs).len()
            == 0,
{
    reveal_strlit("SURVIVES_MARKOV_2_NULL");
    reveal_strlit("STATISTICAL_DEVIATION");
    reveal_strlit("RAW_LAYER_FINDING_NOT_LINGUISTIC");
    reveal_strlit("OVER_REGULARITY_WARNING");
    reveal_strlit("PERIODICITY_OR_CLUSTERING_WARNING");
    reveal_strlit("WINDOW_TOO_SMALL");
    reveal_strlit("LOW_EVENT_COUNT");
    reveal_strlit("DEGENERATE_EVENT_MAP");
    reveal_strlit("markov_2");
    lemma_signals_alert_codes(enc, cs);
    let shape = shape_alerts(len, event_count);
    let sig = signals_alerts(enc, cs);
    let a = shape + sig;
    let all = event_alerts(enc, len, event_count, cs);
    assert forall|k: int| 0 <= k < shape.len() implies is_shape_code(#[trigger] shape[k].code) by {
    }
    let m2 = "SURVIVES_MARKOV_2_NULL"@;
    assert(m2.len() == 22);
    assert(forall|c: Seq<char>| is_shape_code(c) ==> c.len() != 22);
    assert(forall|c: Seq<char>| is_signal_code(c) ==> c.len() != 22);
    assert forall|k: int| 0 <= k < a.len() implies (#[trigger] a[k]).code != m2 by {
        if k < shape.len() {
            assert(a[k] == shape[k]);
            assert(is_shape_code(shape[k].code));
        } else {
            assert(a[k] == sig[k - shape.len()]);
            assert(is_signal_code(sig[k - shape.len()].code));
        }
    }
    if survives_markov2(cs) {
        assert(all[a.len() as int] == markov2_alert());
        assert(all[a.len() as int].code == m2);
    } else {
        assert(all == a);
    }
    if forall|i: int| 0 <= i < cs.len() ==> !(#[trigger] cs[i]).strong && !cs[i].strongly_low {
        assert(!survives_markov2(cs));
        assert(all =~= shape);
    }
}

/// Some alert of `alerts` carries `code`.
pub open spec fn has_code(alerts: Seq<AlertView>, code: Seq<char>) -> bool {
    exists|k: int| 0 <= k < alerts.len() && (#[trigger] alerts[k]).code == code
}

proof fn lemma_has_code_concat(a: Seq<AlertView>, b: Seq<AlertView>, code: Seq<char>)
    ensures
        has_code(a + b, code) <==> has_code(a, code) || has_code(b, code),
{
    let c = a + b;
    if has_code(c, code) {
        let k = choose|k: int| 0 <= k < c.len() && (#[trigger] c[k]).code == code;
        if k < a.len() {
            assert(a[k] == c[k]);
        } else {
            assert(b[k - a.len()] == c[k]);
        }
    }
    if has_code(a, code) {
        let k = choose|k: int| 0 <= k < a.len() && (#[trigger] a[k]).code == code;
        assert(c[k] == a[k]);
    }
    if has_code(b, code) {
        let k = choose|k: int| 0 <= k < b.len() && (#[trigger] b[k]).code == code;
        assert(c[k + a.len()] == b[k]);
    }
}

proof fn lemma_has_code_push(a: Seq<AlertView>, x: AlertView, code: Seq<char>)
    ensures
        has_code(a.push(x), code) <==> has_code(a, code) || x.code == code,
        has_code(seq![x], code) <==> x.code == code,
        !has_code(Seq::<AlertView>::empty(), code),
{
    let c = a.push(x);
    if has_code(c, code) {
        let k = choose|k: int| 0 <= k < c.len() && (#[trigger] c[k]).code == code;
        if k < a.len() {
            assert(a[k] == c[k]);
        }
    }
    if has_code(a, code) {
        let k = choose|k: int| 0 <= k < a.len() && (#[trigger] a[k]).code == code;
        assert(c[k] == a[k]);
    }
    if x.code == code {
        assert(c[a.len() as int] == x);
    }
    if x.code == code {
        assert(seq![x][0] == x);
    }
}

/// The lengths of the alert codes, which tell them apart.
proof fn lemma_code_lengths()
    ensures
        "WINDOW_TOO_SMALL"@.len() == 16,
        "LOW_EVENT_COUNT"@.len() == 15,
        "DEGENERATE_EVENT_MAP"@.len() == 20,
        "STATISTICAL_DEVIATION"@.len() == 21,
        "SURVIVES_MARKOV_2_NULL"@.len() == 22,
        "OVER_REGULARITY_WARNING"@.len() == 23,
        "RAW_LAYER_FINDING_NOT_LINGUISTIC"@.len() == 32,
        "PERIODICITY_OR_CLUSTERING_WARNING"@.len() == 33,
{
    reveal_strlit("WINDOW_TOO_SMALL");
    reveal_strlit("LOW_EVENT_COUNT");
    reveal_strlit("DEGENERATE_EVENT_MAP");
    reveal_strlit("STATISTICAL_DEVIATION");
    reveal_strlit("SURVIVES_MARKOV_2_NULL");
    reveal_strlit("OVER_REGULARITY_WARNING");
    reveal_strlit("RAW_LAYER_FINDING_NOT_LINGUISTIC");
    reveal_strlit("PERIODICITY_OR_CLUSTERING_WARNING");
}

/// Some comparison deviates strongly.
pub open spec fn some_strong(cs: Seq<SignalView>) -> bool {
    exists|i: int| 0 <= i < cs.len() && (#[trigger] cs[i]).strong
}

/// Some comparison of the metric `name` is strongly low.
pub open spec fn some_strongly_low(cs: Seq<SignalView>, name: Seq<char>) -> bool {
    exists|i: int| 0 <= i < cs.len() && (#[trigger] cs[i]).name == name && cs[i].strongly_low
}

proof fn lemma_exists_split(cs: Seq<SignalView>, name: Seq<char>)
    requires
        cs.len() > 0,
    ensures
        some_strong(cs) <==> some_strong(cs.drop_last()) || cs.last().strong,
        some_strongly_low(cs, name) <==> some_strongly_low(cs.drop_last(), name) || (
        cs.last().name == name && cs.last().strongly_low),
{
    let d = cs.drop_last();
    if some_strong(cs) {
        let i = choose|i: int| 0 <= i < cs.len() && (#[trigger] cs[i]).strong;
        if i < d.len() {
            assert(d[i] == cs[i]);
        }
    }
    if some_strong(d) {
        let i = choose|i: int| 0 <= i < d.len() && (#[trigger] d[i]).strong;
        assert(cs[i] == d[i]);
    }
    if cs.last().strong {
        assert(cs[cs.len() - 1].strong);
    }
    if some_strongly_low(cs, name) {
        let i = choose|i: int| 0 <= i < cs.len() && (#[trigger] cs[i]).name == name && cs[i].strongly_low;
        if i < d.len() {
            assert(d[i] == cs[i]);
        }
    }
    if some_strongly_low(d, name) {
        let i = choose|i: int| 0 <= i < d.len() && (#[trigger] d[i]).name == name && d[i].strongly_low;
        assert(cs[i] == d[i]);
    }
    if cs.last().name == name && cs.last().strongly_low {
        assert(cs[cs.len() - 1] == cs.last());
    }
}

proof fn lemma_signals_codes(enc: EncodingKind, cs: Seq<SignalView>)
    ensures
        has_code(signals_alerts(enc, cs), "STATISTICAL_DEVIATION"@) <==> some_strong(cs),
        has_code(signals_alerts(enc, cs), "RAW_LAYER_FINDING_NOT_LINGUISTIC"@) <==> (enc
            == EncodingKind::Utf8Bits && some_strong(cs)),
        has_code(signals_alerts(enc, cs), "OVER_REGULARITY_WARNING"@) <==> some_strongly_low(
            cs,
            "run_entropy"@,
        ),
        has_code(signals_alerts(enc, cs), "PERIODICITY_OR_CLUSTERING_WARNING"@)
            <==> some_strongly_low(cs, "gap_entropy"@),
    decreases cs.len(),
{
    let dev = "STATISTICAL_DEVIATION"@;
    let raw = "RAW_LAYER_FINDING_NOT_LINGUISTIC"@;
    let over = "OVER_REGULARITY_WARNING"@;
    let per = "PERIODICITY_OR_CLUSTERING_WARNING"@;
    lemma_code_lengths();
    if cs.len() == 0 {
        lemma_has_code_push(Seq::empty(), raw_layer_alert(), dev);
        lemma_has_code_push(Seq::empty(), raw_layer_alert(), raw);
        lemma_has_code_push(Seq::empty(), raw_layer_alert(), over);
        lemma_has_code_push(Seq::empty(), raw_layer_alert(), per);
    } else {
        let d = cs.drop_last();
        let c = cs.last();
        lemma_signals_codes(enc, d);
        lemma_exists_split(cs, "run_entropy"@);
        lemma_exists_split(cs, "gap_entropy"@);
        let prev = signals_alerts(enc, d);
        let one = signal_alerts(enc, c);
        assert(signals_alerts(enc, cs) == prev + one);
        let a = if c.strong {
            if enc == EncodingKind::Utf8Bits {
                seq![deviation_alert(c), raw_layer_alert()]
            } else {
                seq![deviation_alert(c)]
            }
        } else {
            Seq::<AlertView>::empty()
        };
        let b = if c.name == "run_entropy"@ && c.strongly_low {
            a.push(over_regularity_alert(c))
        } else {
            a
        };
        assert(seq![deviation_alert(c), raw_layer_alert()] == seq![deviation_alert(c)].push(
            raw_layer_alert(),
        ));
        let codes = seq![dev, raw, over, per];
        assert forall|j: int| 0 <= j < 4 implies (has_code(one, #[trigger] codes[j]) <==> (
            has_code(a, codes[j]) || (c.name == "run_entropy"@ && c.strongly_low && codes[j]
                == over) || (c.name == "gap_entropy"@ && c.strongly_low && codes[j] == per))) by {
            lemma_has_code_push(a, over_regularity_alert(c), codes[j]);
            lemma_has_code_push(b, periodicity_alert(c), codes[j]);
        }
        assert forall|j: int| 0 <= j < 4 implies (has_code(a, #[trigger] codes[j]) <==> (c.strong
            && (codes[j] == dev || (enc == EncodingKind::Utf8Bits && codes[j] == raw)))) by {
            lemma_has_code_push(seq![deviation_alert(c)], raw_layer_alert(), codes[j]);
            lemma_has_code_push(Seq::empty(), deviation_alert(c), codes[j]);
        }
        assert forall|j: int| 0 <= j < 4 implies (has_code(prev + one, #[trigger] codes[j]) <==> (
            has_code(prev, codes[j]) || has_code(one, codes[j]))) by {
            lemma_has_code_concat(prev, one, codes[j]);
        }
        assert(codes[0] == dev && codes[1] == raw && codes[2] == over && codes[3] == per);
    }
}

/// Each alert an event map gets names its cause, and each cause raises its
/// alert: a window under 128 positions, fewer than five events, a map all false
/// or all true, a strong deviation (and, in the raw UTF-8 layer only, the raw
/// layer warning), a strongly low run entropy or gap entropy, and a strong
/// deviation from the Markov-2 null.
pub proof fn lemma_alert_causes(enc: EncodingKind, len: nat, event_count: nat, cs: Seq<SignalView>)
    ensures
        ({
            let all = event_alerts(enc, len, event_count, cs);
            &&& has_code(all, "WINDOW_TOO_SMALL"@) <==> len < 128
            &&& has_code(all, "LOW_EVENT_COUNT"@) <==> event_count < 5
            &&& has_code(all, "DEGENERATE_EVENT_MAP"@) <==> (event_count == 0 || event_count == len)
            &&& has_code(all, "STATISTICAL_DEVIATION"@) <==> (exists|i: int|
                0 <= i < cs.len() && (#[trigger] cs[i]).strong)
            &&& has_code(all, "RAW_LAYER_FINDING_NOT_LINGUISTIC"@) <==> (enc
                == EncodingKind::Utf8Bits && exists|i: int| 0 <= i < cs.len() && (#[trigger] cs[i]).strong)
            &&& has_code(all, "OVER_REGULARITY_WARNING"@) <==> (exists|i: int|
                0 <= i < cs.len() && (#[trigger] cs[i]).name == "run_entropy"@ && cs[i].strongly_low)
            &&& has_code(all, "PERIODICITY_OR_CLUSTERING_WARNING"@) <==> (exists|i: int|
                0 <= i < cs.len() && (#[trigger] cs[i]).name == "gap_entropy"@ && cs[i].strongly_low)
            &&& has_code(all, "SURVIVES_MARKOV_2_NULL"@) <==> (exists|i: int|
                0 <= i < cs.len() && (#[trigger] cs[i]).strong && cs[i].null_model == "markov_2"@)
        }),
{
    lemma_code_lengths();
    lemma_signals_codes(enc, cs);
    lemma_signals_alert_codes(enc, cs);
    let shape = shape_alerts(len, event_count);
    let sig = signals_alerts(enc, cs);
    let a = shape + sig;
    let all = event_alerts(enc, len, event_count, cs);
    let w = "WINDOW_TOO_SMALL"@;
    let l = "LOW_EVENT_COUNT"@;
    let g = "DEGENERATE_EVENT_MAP"@;
    let m2 = "SURVIVES_MARKOV_2_NULL"@;
    let codes = seq![
        w,
        l,
        g,
        "STATISTICAL_DEVIATION"@,
        "RAW_LAYER_FINDING_NOT_LINGUISTIC"@,
        "OVER_REGULARITY_WARNING"@,
        "PERIODICITY_OR_CLUSTERING_WARNING"@,
        m2,
    ];
    let sa = if len < 128 {
        seq![
            alert_view(
                "WINDOW_TOO_SMALL"@,
                "warning"@,
                0,
                "The event map has fewer than 128 positions; positional and spectral metrics may be unstable."@,
            ),
        ]
    } else {
        Seq::<AlertView>::empty()
    };
    let sb = if event_count < 5 {
        sa.push(
            alert_view(
                "LOW_EVENT_COUNT"@,
                "warning"@,
                0,
                "The event occurs fewer than five times; gap and prime-position metrics are weak evidence."@,
            ),
        )
    } else {
        sa
    };
    assert forall|j: int| 0 <= j < 8 implies (has_code(all, #[trigger] codes[j]) <==> (
        has_code(shape, codes[j]) || has_code(sig, codes[j]) || (survives_markov2(cs) && codes[j]
            == m2))) by {
        lemma_has_code_concat(shape, sig, codes[j]);
        lemma_has_code_push(a, markov2_alert(), codes[j]);
    }
    assert forall|j: int| 0 <= j < 8 implies (has_code(shape, #[trigger] codes[j]) <==> (
        (len < 128 && codes[j] == w) || (event_count < 5 && codes[j] == l) || ((event_count == 0
            || event_count == len) && codes[j] == g))) by {
        lemma_has_code_push(Seq::empty(), shape_alerts(0, 0)[0], codes[j]);
        lemma_has_code_push(sa, sb.last(), codes[j]);
        lemma_has_code_push(sb, shape.last(), codes[j]);
        if len < 128 {
            lemma_has_code_push(Seq::empty(), sa[0], codes[j]);
            assert(sa == seq![sa[0]]);
        }
    }
    assert forall|j: int| 0 <= j < 8 && has_code(sig, #[trigger] codes[j]) implies is_signal_code(
        codes[j],
    ) by {
        let k = choose|k: int| 0 <= k < sig.len() && (#[trigger] sig[k]).code == codes[j];
        assert(is_signal_code(sig[k].code));
    }
    assert(codes[0] == w && codes[1] == l && codes[2] == g && codes[7] == m2);
    assert(codes[3] == "STATISTICAL_DEVIATION"@ && codes[4] == "RAW_LAYER_FINDING_NOT_LINGUISTIC"@
        && codes[5] == "OVER_REGULARITY_WARNING"@ && codes[6] == "PERIODICITY_OR_CLUSTERING_WARNING"@);
}

/// Every event map is compared with the density shuffle and both Markov
/// models, in that order, and with the gap-order shuffle exactly when it has at
/// least 16 positions, at least 3 events and at least 3 non-events.
pub proof fn lemma_null_model_choice(len: nat, event_count: nat)
    ensures
        null_models_for(len, event_count).take(3) == seq![
            BoolNullKind::DensityShuffle,
            BoolNullKind::Markov1,
            BoolNullKind::Markov2,
        ],
        null_models_for(len, event_count).contains(BoolNullKind::GapOrderShuffle) <==> (len >= 16
            && event_count >= 3 && len >= event_count + 3),
        null_models_for(len, event_count).len() <= 4,
{
    let m = null_models_for(len, event_count);
    assert(m.take(3) =~= seq![
        BoolNullKind::DensityShuffle,
        BoolNullKind::Markov1,
        BoolNullKind::Markov2,
    ]);
    if len >= 16 && event_count >= 3 && len >= event_count + 3 {
        assert(m[3] == BoolNullKind::GapOrderShuffle);
    } else {
        assert(m.len() == 3);
        if m.contains(BoolNullKind::GapOrderShuffle) {
            let k = choose|k: int| 0 <= k < m.len() && m[k] == BoolNullKind::GapOrderShuffle;
            assert(k < 3);
        }
    }
}

proof fn lemma_true_positions_mark(s: Seq<bool>)
    requires
        s.len() <= usize::MAX,
    ensures
        forall|k: int| 0 <= k < true_positions(s).len() ==> s[#[trigger] true_positions(s)[k] as int],
        forall|i: int| 0 <= i < s.len() && #[trigger] s[i] ==> exists|k: int|
            0 <= k < true_positions(s).len() && true_positions(s)[k] == i,
    decreases s.len(),
{
    if s.len() > 0 {
        let d = s.drop_last();
        lemma_true_positions_mark(d);
        lemma_true_positions_facts(d);
        let p = true_positions(d);
        let q = true_positions(s);
        assert forall|k: int| 0 <= k < q.len() implies s[#[trigger] q[k] as int] by {
            if k < p.len() {
                assert(q[k] == p[k]);
                assert(d[p[k] as int] == s[p[k] as int]);
            }
        }
        assert forall|i: int| 0 <= i < s.len() && #[trigger] s[i] implies exists|k: int|
            0 <= k < q.len() && q[k] == i by {
            if i < d.len() {
                assert(d[i] == s[i]);
                let k = choose|k: int| 0 <= k < p.len() && p[k] == i;
                assert(q[k] == p[k]);
            } else {
                assert(q[q.len() - 1] == i);
            }
        }
    }
}

/// The event positions are exactly the 1-based indices of the true entries, in
/// increasing order.
pub proof fn lemma_event_positions_mark_events(values: Seq<bool>)
    requires
        values.len() <= usize::MAX,
    ensures
        forall|k: int|
            0 <= k < event_position_seq(values).len() ==> 1 <= #[trigger] event_position_seq(values)[k]
                <= values.len() && values[event_position_seq(values)[k] - 1],
        forall|i: int| 0 <= i < values.len() && #[trigger] values[i] ==> exists|k: int|
            0 <= k < event_position_seq(values).len() && event_position_seq(values)[k] == i + 1,
        forall|k: int, l: int|
            0 <= k < l < event_position_seq(values).len() ==> #[trigger] event_position_seq(values)[k]
                < #[trigger] event_position_seq(values)[l],
{
    lemma_true_positions_mark(values);
    lemma_true_positions_facts(values);
    let p = true_positions(values);
    let e = event_position_seq(values);
    assert forall|k: int| 0 <= k < e.len() implies 1 <= #[trigger] e[k] <= values.len() && values[e[k]
        - 1] by {
        assert(e[k] == p[k] + 1);
        assert(values[p[k] as int]);
    }
    assert forall|i: int| 0 <= i < values.len() && #[trigger] values[i] implies exists|k: int|
        0 <= k < e.len() && e[k] == i + 1 by {
        let k = choose|k: int| 0 <= k < p.len() && p[k] == i;
        assert(e[k] == i + 1);
    }
    assert forall|k: int, l: int| 0 <= k < l < e.len() implies #[trigger] e[k] < #[trigger] e[l] by {
        assert(p[k] < p[l]);
    }
}

} // verus!
