//! Prime tests: a sieve over an index range and trial division.
use vstd::prelude::*;

verus! {

/// `n` is prime: at least 2 and divisible by no number strictly between 1 and `n`.
pub open spec fn is_prime(n: nat) -> bool {
    n >= 2 && forall|d: nat| 2 <= d < n ==> #[trigger] (n % d) != 0
}

/// `i` is at least 2 and has no divisor `d` with `2 <= d < bound` and `d * d <= i`.
pub open spec fn no_small_divisor(i: nat, bound: nat) -> bool {
    i >= 2 && forall|d: nat| 2 <= d < bound && d * d <= i ==> #[trigger] (i % d) != 0
}

proof fn lemma_divides_trans(a: nat, b: nat, c: nat)
    requires
        a > 0,
        b > 0,
        b % a == 0,
        c % b == 0,
    ensures
        c % a == 0,
{
    let k = b / a;
    let m = c / b;
    assert(b == a * k) by (nonlinear_arith)
        requires
            a > 0,
            b % a == 0,
            k == b / a,
    ;
    assert(c == b * m) by (nonlinear_arith)
        requires
            b > 0,
            c % b == 0,
            m == c / b,
    ;
    assert(c == a * (k * m)) by (nonlinear_arith)
        requires
            b == a * k,
            c == b * m,
    ;
    vstd::arithmetic::div_mod::lemma_mod_multiples_basic((k * m) as int, a as int);
    assert((k * m) * a == a * (k * m)) by (nonlinear_arith);
}

/// A number with a proper divisor has one whose square does not exceed it.
proof fn lemma_small_divisor(i: nat, d: nat) -> (e: nat)
    requires
        2 <= d < i,
        i % d == 0,
    ensures
        2 <= e,
        e * e <= i,
        i % e == 0,
        e <= d,
{
    if d * d <= i {
        d
    } else {
        let e = i / d;
        assert(i == d * e) by (nonlinear_arith)
            requires
                d > 0,
                i % d == 0,
                e == i / d,
        ;
        assert(e >= 2) by (nonlinear_arith)
            requires
                i == d * e,
                d < i,
                d > 0,
        ;
        assert(e < d) by (nonlinear_arith)
            requires
                i == d * e,
                d * d > i,
                d > 0,
        ;
        assert(e * e <= i) by (nonlinear_arith)
            requires
                i == d * e,
                e < d,
        ;
        vstd::arithmetic::div_mod::lemma_mod_multiples_basic(d as int, e as int);
        assert(d * e == i);
        assert(i % e == 0);
        e
    }
}

/// Once `bound * bound > i`, having no small divisor below `bound` is primality.
proof fn lemma_no_small_divisor_is_prime(i: nat, bound: nat)
    requires
        bound * bound > i,
    ensures
        no_small_divisor(i, bound) == is_prime(i),
{
    if no_small_divisor(i, bound) && !is_prime(i) {
        let d = choose|d: nat| 2 <= d < i && #[trigger] (i % d) == 0;
        let e = lemma_small_divisor(i, d);
        assert(e < bound) by (nonlinear_arith)
            requires
                e * e <= i,
                bound * bound > i,
                e >= 2,
        ;
        assert(i % e != 0);
    }
    if is_prime(i) {
        assert forall|d: nat| 2 <= d < bound && d * d <= i implies #[trigger] (i % d) != 0 by {
            assert(d < i) by (nonlinear_arith)
                requires
                    2 <= d,
                    d * d <= i,
            ;
        }
    }
}

proof fn lemma_no_small_divisor_step(i: nat, p: nat)
    requires
        p >= 2,
    ensures
        no_small_divisor(i, p + 1) == (no_small_divisor(i, p) && !(p * p <= i && i % p == 0)),
{
    if no_small_divisor(i, p) && !(p * p <= i && i % p == 0) {
        assert forall|d: nat| 2 <= d < p + 1 && d * d <= i implies #[trigger] (i % d) != 0 by {
            if d < p {
            } else {
                assert(d == p);
            }
        }
    }
}

/// `is_prime[i]` for every index from 0 to `max_index_inclusive` (the sieve of
/// Eratosthenes); for 0 the table is `[false]`.
pub fn prime_sieve(max_index_inclusive: usize) -> (r: Vec<bool>)
    ensures
        r.len() == max_index_inclusive + 1,
        forall|i: int| 0 <= i < r.len() ==> #[trigger] r@[i] == is_prime(i as nat),
{
    let max = max_index_inclusive;
    if max == 0 {
        let mut r: Vec<bool> = Vec::new();
        r.push(false);
        assert(!is_prime(0));
        return r;
    }
    let mut sieve: Vec<bool> = Vec::new();
    for k in 0..max
        invariant
            sieve.len() == k,
            forall|i: int| 0 <= i < k ==> #[trigger] sieve@[i] == (i >= 2),
    {
        sieve.push(k >= 2);
    }
    sieve.push(max >= 2);
    // With no divisor yet excluded, every index from 2 on is a candidate.
    assert forall|i: int| 0 <= i <= max implies #[trigger] sieve@[i] == no_small_divisor(
        i as nat,
        2,
    ) by {}
    let mut p: usize = 2;
    while p <= max / p
        invariant
            2 <= p,
            sieve.len() == max + 1,
            forall|i: int| 0 <= i <= max ==> #[trigger] sieve@[i] == no_small_divisor(i as nat, p as nat),
        decreases max + 1 - p,
    {
        assert(p * p <= max) by (nonlinear_arith)
            requires
                p <= max / p,
                p >= 2,
        ;
        assert(p < max) by (nonlinear_arith)
            requires
                p * p <= max,
                p >= 2,
        ;
        if sieve[p] {
            let mut multiple: usize = p * p;
            let mut done = false;
            let ghost pp = (p * p) as nat;
            proof {
                vstd::arithmetic::div_mod::lemma_mod_multiples_basic(p as int, p as int);
            }
            while !done
                invariant
                    2 <= p,
                    pp == p * p,
                    pp <= max,
                    sieve.len() == max + 1,
                    pp <= multiple <= max,
                    multiple % p == 0,
                    forall|i: int|
                        0 <= i <= max ==> #[trigger] sieve@[i] == (no_small_divisor(i as nat, p as nat)
                            && !(pp <= i && i % (p as int) == 0 && i < (if done {
                            multiple + p
                        } else {
                            multiple as int
                        }))),
                    done ==> multiple + p > max,
                decreases (if done {
                    0
                } else {
                    max + 1 - multiple
                }),
            {
                let ghost before = sieve@;
                sieve.set(multiple, false);
                proof {
                    assert forall|i: int| 0 <= i <= max implies #[trigger] sieve@[i] == (
                    no_small_divisor(i as nat, p as nat) && !(pp <= i && i % (p as int) == 0 && i
                        < multiple + p)) by {
                        if i != multiple && multiple < i < multiple + p {
                            assert(i % (p as int) != 0) by (nonlinear_arith)
                                requires
                                    (multiple as int) % (p as int) == 0,
                                    multiple < i < multiple + p,
                                    p >= 2,
                            ;
                        }
                        if i == multiple {
                            assert(before[i] == no_small_divisor(i as nat, p as nat) && !(pp <= i
                                && i % (p as int) == 0 && i < multiple));
                        }
                    }
                }
                if max - multiple < p {
                    done = true;
                } else {
                    proof {
                        assert((multiple + p) % (p as int) == 0) by (nonlinear_arith)
                            requires
                                (multiple as int) % (p as int) == 0,
                                p >= 2,
                        ;
                    }
                    multiple = multiple + p;
                }
            }
            proof {
                assert forall|i: int| 0 <= i <= max implies #[trigger] sieve@[i] == no_small_divisor(
                    i as nat,
                    (p + 1) as nat,
                ) by {
                    lemma_no_small_divisor_step(i as nat, p as nat);
                }
            }
        } else {
            proof {
                assert(!no_small_divisor(p as nat, p as nat));
                let q = choose|d: nat| 2 <= d < p && d * d <= p && #[trigger] ((p as nat) % d) == 0;
                assert forall|i: int| 0 <= i <= max implies #[trigger] sieve@[i] == no_small_divisor(
                    i as nat,
                    (p + 1) as nat,
                ) by {
                    lemma_no_small_divisor_step(i as nat, p as nat);
                    if pp_divides(i as nat, p as nat) {
                        lemma_divides_trans(q, p as nat, i as nat);
                        assert(q * q <= i) by (nonlinear_arith)
                            requires
                                q * q <= p,
                                p * p <= i,
                                p >= 2,
                        ;
                        assert((i as nat) % q == 0);
                    }
                }
            }
        }
        p = p + 1;
    }
    proof {
        assert((p as nat) * (p as nat) > max) by (nonlinear_arith)
            requires
                p > max / p,
                p >= 2,
        ;
        assert forall|i: int| 0 <= i < sieve.len() implies #[trigger] sieve@[i] == is_prime(
            i as nat,
        ) by {
            lemma_no_small_divisor_is_prime(i as nat, p as nat);
        }
    }
    sieve
}

spec fn pp_divides(i: nat, p: nat) -> bool {
    p * p <= i && i % p == 0
}

/// Whether `value` is prime, by trial division with 2 and the odd numbers whose
/// square does not exceed `value`.
pub fn is_prime_number(value: usize) -> (r: bool)
    ensures
        r == is_prime(value as nat),
{
    if value < 2 {
        return false;
    }
    if value == 2 {
        return true;
    }
    if value % 2 == 0 {
        assert(!is_prime(value as nat)) by {
            assert((value as nat) % 2 == 0);
        }
        return false;
    }
    let mut candidate: usize = 3;
    while candidate <= value / candidate
        invariant
            3 <= candidate,
            candidate % 2 == 1,
            value % 2 == 1,
            value >= 3,
            no_small_divisor(value as nat, candidate as nat),
        decreases value - candidate,
    {
        assert(candidate * candidate <= value) by (nonlinear_arith)
            requires
                candidate <= value / candidate,
                candidate >= 3,
        ;
        assert(candidate < value) by (nonlinear_arith)
            requires
                candidate * candidate <= value,
                candidate >= 3,
        ;
        if value % candidate == 0 {
            proof {
                assert(2 <= candidate < value && (value as nat) % (candidate as nat) == 0);
            }
            return false;
        }
        proof {
            assert forall|d: nat| 2 <= d < candidate + 2 && d * d <= value implies #[trigger] ((
            value as nat) % d) != 0 by {
                if d == candidate + 1 {
                    // An even divisor would make `value` even.
                    if (value as nat) % d == 0 {
                        assert(d % 2 == 0);
                        lemma_divides_trans(2, d, value as nat);
                    }
                } else if d == candidate {
                } else {
                    assert(d < candidate);
                }
            }
        }
        candidate = candidate + 2;
    }
    proof {
        assert((candidate as nat) * (candidate as nat) > value) by (nonlinear_arith)
            requires
                candidate > value / candidate,
                candidate >= 3,
        ;
        lemma_no_small_divisor_is_prime(value as nat, candidate as nat);
    }
    true
}

/// The sieve and trial division agree on every index the sieve covers.
pub proof fn lemma_sieve_agrees_with_trial_division(table: Seq<bool>, i: int, trial: bool)
    requires
        0 <= i < table.len(),
        forall|j: int| 0 <= j < table.len() ==> #[trigger] table[j] == is_prime(j as nat),
        trial == is_prime(i as nat),
    ensures
        table[i] == trial,
{
}

} // verus!
