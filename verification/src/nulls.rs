//! Null-model generators for boolean event maps, driven by a deterministic
//! xorshift generator.
use vstd::prelude::*;

verus! {

// ---------------------------------------------------------------------------
// Null-model kinds
// ---------------------------------------------------------------------------

/// A randomisation that keeps some structure of an event map.
#[derive(Debug, Clone, Copy, PartialEq, Eq, Hash, Structural)]
pub enum BoolNullKind {
    DensityShuffle,
    Markov1,
    Markov2,
    GapOrderShuffle,
}

/// Canonical name of a null model.
pub open spec fn null_kind_name(k: BoolNullKind) -> Seq<char> {
    match k {
        BoolNullKind::DensityShuffle => "density_shuffle"@,
        BoolNullKind::Markov1 => "markov_1"@,
        BoolNullKind::Markov2 => "markov_2"@,
        BoolNullKind::GapOrderShuffle => "gap_order_shuffle"@,
    }
}

/// How strong a deviation that survives this null model may be read.
pub open spec fn null_kind_strength(k: BoolNullKind) -> u8 {
    match k {
        BoolNullKind::DensityShuffle => 1,
        BoolNullKind::Markov1 => 2,
        BoolNullKind::Markov2 => 3,
        BoolNullKind::GapOrderShuffle => 2,
    }
}

/// Position of a null model in its declaration order, counted from 0.
pub open spec fn null_kind_ordinal(k: BoolNullKind) -> u64 {
    match k {
        BoolNullKind::DensityShuffle => 0,
        BoolNullKind::Markov1 => 1,
        BoolNullKind::Markov2 => 2,
        BoolNullKind::GapOrderShuffle => 3,
    }
}

impl BoolNullKind {
    /// The canonical name.
    pub fn as_str(self) -> (r: &'static str)
        ensures
            r@ == null_kind_name(self),
    {
        match self {
            BoolNullKind::DensityShuffle => "density_shuffle",
            BoolNullKind::Markov1 => "markov_1",
            BoolNullKind::Markov2 => "markov_2",
            BoolNullKind::GapOrderShuffle => "gap_order_shuffle",
        }
    }

    /// The interpretation level a deviation from this null model supports.
    pub fn interpretation_strength(self) -> (r: u8)
        ensures
            r == null_kind_strength(self),
    {
        match self {
            BoolNullKind::DensityShuffle => 1,
            BoolNullKind::Markov1 => 2,
            BoolNullKind::Markov2 => 3,
            BoolNullKind::GapOrderShuffle => 2,
        }
    }

    /// Position of the null model in its declaration order, counted from 0.
    pub fn ordinal(self) -> (r: u64)
        ensures
            r == null_kind_ordinal(self),
    {
        match self {
            BoolNullKind::DensityShuffle => 0,
            BoolNullKind::Markov1 => 1,
            BoolNullKind::Markov2 => 2,
            BoolNullKind::GapOrderShuffle => 3,
        }
    }
}

// ---------------------------------------------------------------------------
// Xorshift generator
// ---------------------------------------------------------------------------

/// The state a zero seed is replaced by.
pub open spec fn zero_seed_replacement() -> u64 {
    0x9E37_79B9_7F4A_7C15
}

/// One xorshift-64 step (shifts 13, 7, 17).
pub open spec fn xorshift_step(x: u64) -> u64 {
    let a = x ^ (x << 13u64);
    let b = a ^ (a >> 7u64);
    b ^ (b << 17u64)
}

/// A step never turns a non-zero state into zero.
pub proof fn lemma_xorshift_step_nonzero(x: u64)
    requires
        x != 0,
    ensures
        xorshift_step(x) != 0,
{
    let a = x ^ (x << 13u64);
    let b = a ^ (a >> 7u64);
    assert(x != 0 ==> x ^ (x << 13u64) != 0) by (bit_vector);
    assert(a != 0 ==> a ^ (a >> 7u64) != 0) by (bit_vector);
    assert(b != 0 ==> b ^ (b << 17u64) != 0) by (bit_vector);
}

/// A deterministic 64-bit xorshift pseudo-random generator.
#[derive(Debug)]
pub struct XorShift64 {
    state: u64,
}

impl View for XorShift64 {
    type V = u64;

    closed spec fn view(&self) -> u64 {
        self.state
    }
}

impl Clone for XorShift64 {
    fn clone(&self) -> (r: Self)
        ensures
            r@ == self@,
    {
        proof {
            use_type_invariant(self);
        }
        XorShift64 { state: self.state }
    }
}

/// The draw `gen_range(upper)` makes from the state `x`, before stepping it.
pub open spec fn range_draw(x: u64, upper: nat) -> nat {
    if upper <= 1 {
        0
    } else {
        ((xorshift_step(x) as usize) as nat) % upper
    }
}

/// The state after `gen_range(upper)` from `x`.
pub open spec fn range_state(x: u64, upper: nat) -> u64 {
    if upper <= 1 {
        x
    } else {
        xorshift_step(x)
    }
}

impl XorShift64 {
    #[verifier::type_invariant]
    closed spec fn state_nonzero(self) -> bool {
        self.state != 0
    }

    /// A generator seeded with `seed`; a zero seed is replaced by a fixed constant.
    pub fn new(seed: u64) -> (r: Self)
        ensures
            r@ == (if seed == 0 {
                zero_seed_replacement()
            } else {
                seed
            }),
            r@ != 0,
    {
        let state = if seed == 0 {
            0x9E37_79B9_7F4A_7C15
        } else {
            seed
        };
        XorShift64 { state }
    }

    /// Steps the generator and returns the new state.
    pub fn next_u64(&mut self) -> (r: u64)
        ensures
            final(self)@ == xorshift_step(old(self)@),
            r == final(self)@,
            old(self)@ != 0,
            final(self)@ != 0,
    {
        proof {
            use_type_invariant(&*self);
            lemma_xorshift_step_nonzero(self.state);
        }
        let mut x = self.state;
        x = x ^ (x << 13u64);
        x = x ^ (x >> 7u64);
        x = x ^ (x << 17u64);
        self.state = x;
        x
    }

    /// A number below `upper_exclusive` (0 when it is at most 1, without stepping).
    pub fn gen_range(&mut self, upper_exclusive: usize) -> (r: usize)
        ensures
            r == range_draw(old(self)@, upper_exclusive as nat),
            final(self)@ == range_state(old(self)@, upper_exclusive as nat),
            upper_exclusive > 1 ==> r < upper_exclusive,
            upper_exclusive <= 1 ==> r == 0,
    {
        if upper_exclusive <= 1 {
            return 0;
        }
        (self.next_u64() as usize) % upper_exclusive
    }

    /// The top 53 bits of the next state: the numerator of a uniform draw in
    /// `[0, 1)` with denominator `2^53`.
    pub fn next_unit_numerator(&mut self) -> (r: u64)
        ensures
            final(self)@ == xorshift_step(old(self)@),
            r == final(self)@ >> 11u64,
            r < 0x20_0000_0000_0000,
    {
        let x = self.next_u64();
        assert(x >> 11u64 < 0x20_0000_0000_0000) by (bit_vector);
        x >> 11u64
    }
}

// ---------------------------------------------------------------------------
// Counting and shuffling
// ---------------------------------------------------------------------------

/// How many times `x` occurs in `s`.
pub open spec fn count_of<T>(s: Seq<T>, x: T) -> nat
    decreases s.len(),
{
    if s.len() == 0 {
        0
    } else {
        count_of(s.drop_last(), x) + (if s.last() == x {
            1nat
        } else {
            0nat
        })
    }
}

/// How many positions of `s` are true.
pub open spec fn count_true(s: Seq<bool>) -> nat {
    count_of(s, true)
}

proof fn lemma_count_of_update<T>(s: Seq<T>, i: int, v: T, x: T)
    requires
        0 <= i < s.len(),
    ensures
        count_of(s.update(i, v), x) + (if s[i] == x {
            1int
        } else {
            0int
        }) == count_of(s, x) + (if v == x {
            1int
        } else {
            0int
        }),
    decreases s.len(),
{
    if i == s.len() - 1 {
        assert(s.update(i, v).drop_last() =~= s.drop_last());
    } else {
        assert(s.update(i, v).drop_last() =~= s.drop_last().update(i, v));
        lemma_count_of_update(s.drop_last(), i, v, x);
    }
}

/// Exchanging two positions keeps every count.
pub proof fn lemma_count_of_swap<T>(s: Seq<T>, i: int, j: int, x: T)
    requires
        0 <= i < s.len(),
        0 <= j < s.len(),
    ensures
        count_of(s.update(i, s[j]).update(j, s[i]), x) == count_of(s, x),
{
    lemma_count_of_update(s, i, s[j], x);
    lemma_count_of_update(s.update(i, s[j]), j, s[i], x);
}

/// Two sequences hold the same items the same number of times.
pub open spec fn is_permutation<T>(a: Seq<T>, b: Seq<T>) -> bool {
    a.len() == b.len() && forall|x: T| #[trigger] count_of(a, x) == count_of(b, x)
}

/// Fisher-Yates from position `i` down to 1: swap `i` with a draw below `i + 1`.
/// Gives the shuffled sequence and the generator state after the draws.
pub open spec fn fisher_yates<T>(s: Seq<T>, i: int, state: u64) -> (Seq<T>, u64)
    decreases i,
{
    if i <= 0 {
        (s, state)
    } else {
        let next = xorshift_step(state);
        let j = range_draw(state, (i + 1) as nat) as int;
        fisher_yates(s.update(i, s[j]).update(j, s[i]), i - 1, next)
    }
}

proof fn lemma_fisher_yates_permutes<T>(s: Seq<T>, i: int, state: u64)
    requires
        i < s.len(),
    ensures
        is_permutation(fisher_yates(s, i, state).0, s),
    decreases i,
{
    if i > 0 {
        let j = range_draw(state, (i + 1) as nat) as int;
        let t = s.update(i, s[j]).update(j, s[i]);
        lemma_fisher_yates_permutes(t, i - 1, xorshift_step(state));
        assert forall|x: T| #[trigger] count_of(fisher_yates(s, i, state).0, x) == count_of(s, x) by {
            lemma_count_of_swap(s, i, j, x);
        }
    }
}

/// Shuffles `v` in place by Fisher-Yates.
fn shuffle_in_place<T: Copy>(v: &mut Vec<T>, rng: &mut XorShift64)
    ensures
        (final(v)@, final(rng)@) == fisher_yates(old(v)@, old(v).len() - 1, old(rng)@),
{
    let n = v.len();
    if n < 2 {
        return;
    }
    let mut i = n - 1;
    while i >= 1
        invariant
            1 <= n,
            i < n,
            v.len() == n,
            fisher_yates(old(v)@, n - 1, old(rng)@) == fisher_yates(v@, i as int, rng@),
        decreases i,
    {
        let j = rng.gen_range(i + 1);
        let a = v[i];
        let b = v[j];
        v.set(i, b);
        v.set(j, a);
        i = i - 1;
    }
}

/// The values in an order drawn by Fisher-Yates; the number of true positions
/// (indeed the count of each value) is kept.
pub fn shuffle_bool_preserving_count(values: &[bool], rng: &mut XorShift64) -> (r: Vec<bool>)
    ensures
        (r@, final(rng)@) == fisher_yates(values@, values@.len() - 1, old(rng)@),
        is_permutation(r@, values@),
        count_true(r@) == count_true(values@),
{
    let mut shuffled: Vec<bool> = vstd::slice::slice_to_vec(values);
    shuffle_in_place(&mut shuffled, rng);
    proof {
        lemma_fisher_yates_permutes(values@, values@.len() - 1, old(rng)@);
    }
    shuffled
}

// ---------------------------------------------------------------------------
// Markov generators
// ---------------------------------------------------------------------------

/// 1 for true, 0 for false.
pub open spec fn bool_index(b: bool) -> nat {
    if b {
        1
    } else {
        0
    }
}

/// The number of adjacent pairs whose first item is `from`.
pub open spec fn pair_total(s: Seq<bool>, from: bool) -> nat
    decreases s.len(),
{
    if s.len() < 2 {
        0
    } else {
        pair_total(s.drop_last(), from) + (if s[s.len() - 2] == from {
            1nat
        } else {
            0nat
        })
    }
}

/// The number of adjacent pairs whose first item is `from` and second is true.
pub open spec fn pair_true(s: Seq<bool>, from: bool) -> nat
    decreases s.len(),
{
    if s.len() < 2 {
        0
    } else {
        pair_true(s.drop_last(), from) + (if s[s.len() - 2] == from && s.last() {
            1nat
        } else {
            0nat
        })
    }
}

/// The second-order state of two consecutive items: `2 * first + second`.
pub open spec fn pair_state(a: bool, b: bool) -> nat {
    2 * bool_index(a) + bool_index(b)
}

/// The number of consecutive triples whose first two items are in `state`.
pub open spec fn triple_total(s: Seq<bool>, state: nat) -> nat
    decreases s.len(),
{
    if s.len() < 3 {
        0
    } else {
        triple_total(s.drop_last(), state) + (if pair_state(s[s.len() - 3], s[s.len() - 2])
            == state {
            1nat
        } else {
            0nat
        })
    }
}

/// The number of consecutive triples whose first two items are in `state` and
/// whose third is true.
pub open spec fn triple_true(s: Seq<bool>, state: nat) -> nat
    decreases s.len(),
{
    if s.len() < 3 {
        0
    } else {
        triple_true(s.drop_last(), state) + (if pair_state(s[s.len() - 3], s[s.len() - 2])
            == state && s.last() {
            1nat
        } else {
            0nat
        })
    }
}

/// The share of true positions, as numerator and denominator.
pub open spec fn density_fraction(s: Seq<bool>) -> (nat, nat) {
    (count_true(s), s.len())
}

/// The chance of a true item after `from`, falling back on the density when
/// `from` is never followed by anything.
pub open spec fn markov1_fraction(s: Seq<bool>, from: bool) -> (nat, nat) {
    if pair_total(s, from) == 0 {
        density_fraction(s)
    } else {
        (pair_true(s, from), pair_total(s, from))
    }
}

/// The chance of a true item after two items in `state`, falling back on the
/// density when that state is never followed by anything.
pub open spec fn markov2_fraction(s: Seq<bool>, state: nat) -> (nat, nat) {
    if triple_total(s, state) == 0 {
        density_fraction(s)
    } else {
        (triple_true(s, state), triple_total(s, state))
    }
}

/// The draw chances the first-order generator uses, by slot: the density (first
/// item), after false, after true.
pub open spec fn markov1_fractions(s: Seq<bool>) -> Seq<(nat, nat)> {
    seq![density_fraction(s), markov1_fraction(s, false), markov1_fraction(s, true)]
}

/// The draw chances the second-order generator uses, by slot: the density, then
/// one per state `2 * first + second`.
pub open spec fn markov2_fractions(s: Seq<bool>) -> Seq<(nat, nat)> {
    seq![
        density_fraction(s),
        markov2_fraction(s, 0),
        markov2_fraction(s, 1),
        markov2_fraction(s, 2),
        markov2_fraction(s, 3),
    ]
}

/// The draw chances a null model uses: none for the shuffles, the first-order
/// ones for Markov-1 and for Markov-2 on fewer than three items.
pub open spec fn null_fractions(s: Seq<bool>, kind: BoolNullKind) -> Seq<(nat, nat)> {
    match kind {
        BoolNullKind::Markov1 => markov1_fractions(s),
        BoolNullKind::Markov2 => if s.len() < 3 {
            markov1_fractions(s)
        } else {
            markov2_fractions(s)
        },
        _ => Seq::empty(),
    }
}

/// A vector of machine fractions holds the given fractions.
pub open spec fn fractions_match(v: Seq<(usize, usize)>, f: Seq<(nat, nat)>) -> bool {
    &&& v.len() == f.len()
    &&& forall|i: int| 0 <= i < v.len() ==> (#[trigger] v[i]).0 == f[i].0 && v[i].1 == f[i].1
}

/// The number of equally likely 53-bit draws.
pub open spec fn draw_count() -> nat {
    0x20_0000_0000_0000
}

/// `cut` stands for the chance `f.0 / f.1`: no draw for a zero chance, every
/// draw for a certain one, and otherwise within one draw below or two above
/// `f.0 / f.1` of the `2^53` draws (so that rounding the chance to a machine
/// number and up to a whole draw is allowed for).
pub open spec fn cut_fits(cut: u64, f: (nat, nat)) -> bool {
    &&& f.0 == 0 ==> cut == 0
    &&& f.0 == f.1 && f.1 > 0 ==> cut == draw_count()
    &&& f.1 > 0 ==> cut * f.1 + f.1 >= f.0 * draw_count() && cut * f.1 <= f.0 * draw_count() + 2
        * f.1
}

/// Each cut stands for the chance of its slot.
pub open spec fn cuts_fit(cuts: Seq<u64>, f: Seq<(nat, nat)>) -> bool {
    &&& cuts.len() == f.len()
    &&& forall|i: int| 0 <= i < cuts.len() ==> cut_fits(#[trigger] cuts[i], f[i])
}

/// A draw from state `next`: its top 53 bits fall below `cut`.
pub open spec fn draw_below(next: u64, cut: u64) -> bool {
    (next >> 11u64) < cut
}

/// The first `n` items of the first-order generator and the state after them.
/// Item 0 uses cut slot 0; item `k > 0` uses slot `1 + item[k - 1]`.
pub open spec fn markov1_run(cuts: Seq<u64>, state: u64, n: nat) -> (Seq<bool>, u64)
    decreases n,
{
    if n == 0 {
        (Seq::empty(), state)
    } else {
        let prev = markov1_run(cuts, state, (n - 1) as nat);
        let next = xorshift_step(prev.1);
        let cut = if n == 1 {
            cuts[0]
        } else {
            cuts[(1 + bool_index(prev.0.last())) as int]
        };
        (prev.0.push(draw_below(next, cut)), next)
    }
}

/// What the first-order generator gives for `values` from state `state`:
/// fewer than two items are returned as they are.
pub open spec fn markov1_sequence(values: Seq<bool>, cuts: Seq<u64>, state: u64) -> (Seq<bool>, u64) {
    if values.len() < 2 {
        (values, state)
    } else {
        markov1_run(cuts, state, values.len())
    }
}

/// The first `n >= 2` items of the second-order generator from the start pair
/// `(a, b)`; item `k >= 2` uses cut slot `1 + pair_state(item[k - 2], item[k - 1])`.
pub open spec fn markov2_run(a: bool, b: bool, cuts: Seq<u64>, state: u64, n: nat) -> (Seq<bool>, u64)
    decreases n,
{
    if n <= 2 {
        (seq![a, b], state)
    } else {
        let prev = markov2_run(a, b, cuts, state, (n - 1) as nat);
        let next = xorshift_step(prev.1);
        let cut = cuts[(1 + pair_state(prev.0[n - 3], prev.0[n - 2])) as int];
        (prev.0.push(draw_below(next, cut)), next)
    }
}

/// What the second-order generator gives for `values` from state `state`: the
/// start pair is the adjacent pair at a drawn index; fewer than three items go
/// to the first-order generator.
pub open spec fn markov2_sequence(values: Seq<bool>, cuts: Seq<u64>, state: u64) -> (Seq<bool>, u64) {
    if values.len() < 3 {
        markov1_sequence(values, cuts, state)
    } else {
        let i = range_draw(state, (values.len() - 1) as nat) as int;
        markov2_run(
            values[i],
            values[i + 1],
            cuts,
            range_state(state, (values.len() - 1) as nat),
            values.len(),
        )
    }
}

proof fn lemma_markov1_run_len(cuts: Seq<u64>, state: u64, n: nat)
    ensures
        markov1_run(cuts, state, n).0.len() == n,
    decreases n,
{
    if n > 0 {
        lemma_markov1_run_len(cuts, state, (n - 1) as nat);
    }
}

proof fn lemma_markov2_run_len(a: bool, b: bool, cuts: Seq<u64>, state: u64, n: nat)
    requires
        n >= 2,
    ensures
        markov2_run(a, b, cuts, state, n).0.len() == n,
    decreases n,
{
    if n > 2 {
        lemma_markov2_run_len(a, b, cuts, state, (n - 1) as nat);
    }
}

/// Both Markov generators keep the length of the map.
pub proof fn lemma_markov_sequences_keep_length(values: Seq<bool>, cuts: Seq<u64>, state: u64)
    ensures
        markov1_sequence(values, cuts, state).0.len() == values.len(),
        markov2_sequence(values, cuts, state).0.len() == values.len(),
{
    lemma_markov1_run_len(cuts, state, values.len());
    if values.len() >= 3 {
        let i = range_draw(state, (values.len() - 1) as nat) as int;
        lemma_markov2_run_len(
            values[i],
            values[i + 1],
            cuts,
            range_state(state, (values.len() - 1) as nat),
            values.len(),
        );
    }
}

fn bool_idx(b: bool) -> (r: usize)
    ensures
        r == bool_index(b),
{
    if b {
        1
    } else {
        0
    }
}

fn count_true_exec(values: &[bool]) -> (r: usize)
    ensures
        r == count_true(values@),
{
    let mut c: usize = 0;
    let mut k: usize = 0;
    while k < values.len()
        invariant
            k <= values.len(),
            c <= k,
            c == count_true(values@.take(k as int)),
        decreases values.len() - k,
    {
        assert(values@.take(k + 1).drop_last() =~= values@.take(k as int));
        if values[k] {
            c = c + 1;
        }
        k = k + 1;
    }
    assert(values@.take(values.len() as int) =~= values@);
    c
}

/// The first-order draw chances of `values`: density, after false, after true.
pub fn markov1_fractions_of(values: &[bool]) -> (r: Vec<(usize, usize)>)
    ensures
        fractions_match(r@, markov1_fractions(values@)),
{
    let density = (count_true_exec(values), values.len());
    let mut total_false: usize = 0;
    let mut total_true: usize = 0;
    let mut true_false: usize = 0;
    let mut true_true: usize = 0;
    let mut k: usize = 1;
    while values.len() >= 2 && k < values.len()
        invariant
            1 <= k,
            values.len() >= 2 ==> k <= values.len(),
            values.len() < 2 ==> k == 1 && total_false == 0 && total_true == 0,
            total_false + total_true < k,
            values.len() >= 2 ==> total_false == pair_total(values@.take(k as int), false),
            values.len() >= 2 ==> total_true == pair_total(values@.take(k as int), true),
            values.len() >= 2 ==> true_false == pair_true(values@.take(k as int), false),
            values.len() >= 2 ==> true_true == pair_true(values@.take(k as int), true),
            true_false <= total_false,
            true_true <= total_true,
        decreases values.len() - k,
    {
        assert(values@.take(k + 1).drop_last() =~= values@.take(k as int));
        if values[k - 1] {
            total_true = total_true + 1;
            if values[k] {
                true_true = true_true + 1;
            }
        } else {
            total_false = total_false + 1;
            if values[k] {
                true_false = true_false + 1;
            }
        }
        k = k + 1;
    }
    if values.len() >= 2 {
        assert(values@.take(values.len() as int) =~= values@);
    }
    let mut r: Vec<(usize, usize)> = Vec::new();
    r.push(density);
    r.push(
        if total_false == 0 {
            density
        } else {
            (true_false, total_false)
        },
    );
    r.push(
        if total_true == 0 {
            density
        } else {
            (true_true, total_true)
        },
    );
    r
}

/// The second-order draw chances of `values`: density, then one per state.
pub fn markov2_fractions_of(values: &[bool]) -> (r: Vec<(usize, usize)>)
    ensures
        fractions_match(r@, markov2_fractions(values@)),
{
    let density = (count_true_exec(values), values.len());
    let mut total: Vec<usize> = Vec::new();
    let mut next_true: Vec<usize> = Vec::new();
    let mut s: usize = 0;
    while s < 4
        invariant
            s <= 4,
            total.len() == s,
            next_true.len() == s,
            forall|t: int| 0 <= t < s ==> total@[t] == 0 && next_true@[t] == 0,
        decreases 4 - s,
    {
        total.push(0);
        next_true.push(0);
        s = s + 1;
    }
    let mut k: usize = 2;
    while values.len() >= 3 && k < values.len()
        invariant
            2 <= k,
            values.len() >= 3 ==> k <= values.len(),
            values.len() < 3 ==> k == 2,
            total.len() == 4,
            next_true.len() == 4,
            values.len() < 3 ==> forall|t: int| 0 <= t < 4 ==> #[trigger] total@[t] == 0 && next_true@[t] == 0,
            values.len() >= 3 ==> forall|t: int|
                0 <= t < 4 ==> #[trigger] total@[t] == triple_total(values@.take(k as int), t as nat)
                    && next_true@[t] == triple_true(values@.take(k as int), t as nat)
                    && next_true@[t] <= total@[t] && total@[t] < k,
        decreases values.len() - k,
    {
        let ghost pre = values@.take(k as int);
        let ghost post = values@.take(k + 1);
        assert(post.drop_last() =~= pre);
        assert(post[post.len() - 3] == values@[k - 2]);
        assert(post[post.len() - 2] == values@[k - 1]);
        assert(post.last() == values@[k as int]);
        let state = 2 * bool_idx(values[k - 2]) + bool_idx(values[k - 1]);
        let ghost old_total = total@;
        let ghost old_next = next_true@;
        let t = total[state];
        total.set(state, t + 1);
        if values[k] {
            let n = next_true[state];
            next_true.set(state, n + 1);
        }
        assert forall|t: int| 0 <= t < 4 implies #[trigger] total@[t] == triple_total(post, t as nat)
            && next_true@[t] == triple_true(post, t as nat) && next_true@[t] <= total@[t]
            && total@[t] < k + 1 by {
            assert(old_total[t] == triple_total(pre, t as nat));
            assert(old_next[t] == triple_true(pre, t as nat));
            assert(old_next[t] <= old_total[t] && old_total[t] < k);
            assert(triple_true(post, t as nat) == triple_true(pre, t as nat) + (if pair_state(
                values@[k - 2],
                values@[k - 1],
            ) == t && values@[k as int] {
                1nat
            } else {
                0nat
            }));
            assert(triple_total(post, t as nat) == triple_total(pre, t as nat) + (if pair_state(
                values@[k - 2],
                values@[k - 1],
            ) == t {
                1nat
            } else {
                0nat
            }));
        }
        k = k + 1;
    }
    if values.len() >= 3 {
        assert(values@.take(values.len() as int) =~= values@);
    } else {
        assert forall|t: int| 0 <= t < 4 implies #[trigger] total@[t] == triple_total(values@, t as nat)
            && next_true@[t] == triple_true(values@, t as nat) by {}
    }
    let mut r: Vec<(usize, usize)> = Vec::new();
    r.push(density);
    let mut s: usize = 0;
    while s < 4
        invariant
            s <= 4,
            r.len() == s + 1,
            r@[0] == density,
            total.len() == 4,
            next_true.len() == 4,
            forall|t: int|
                0 <= t < 4 ==> #[trigger] total@[t] == triple_total(values@, t as nat)
                    && next_true@[t] == triple_true(values@, t as nat),
            forall|t: int|
                1 <= t < s + 1 ==> (#[trigger] r@[t]).0 == markov2_fraction(values@, (t - 1) as nat).0
                    && r@[t].1 == markov2_fraction(values@, (t - 1) as nat).1,
            density.0 == count_true(values@),
            density.1 == values@.len(),
        decreases 4 - s,
    {
        r.push(
            if total[s] == 0 {
                density
            } else {
                (next_true[s], total[s])
            },
        );
        s = s + 1;
    }
    r
}

/// The first-order Markov generator: item 0 is true when the first draw falls
/// below `cuts[0]`, item `k` when its draw falls below `cuts[1 + item[k - 1]]`.
/// The cuts stand for the chances `markov1_fractions_of` gives: a draw is true
/// with the chance its cut covers of the 2^53 equally likely draws.
pub fn markov1_bool_sequence(values: &[bool], cuts: &Vec<u64>, rng: &mut XorShift64) -> (r: Vec<bool>)
    requires
        cuts_fit(cuts@, markov1_fractions(values@)),
    ensures
        (r@, final(rng)@) == markov1_sequence(values@, cuts@, old(rng)@),
        r.len() == values.len(),
{
    proof {
        lemma_markov_sequences_keep_length(values@, cuts@, old(rng)@);
    }
    if values.len() < 2 {
        return vstd::slice::slice_to_vec(values);
    }
    let mut out: Vec<bool> = Vec::new();
    let first = rng.next_u64();
    out.push((first >> 11u64) < cuts[0]);
    assert(markov1_run(cuts@, old(rng)@, 0) == (Seq::<bool>::empty(), old(rng)@));
    assert(out@ =~= seq![draw_below(rng@, cuts@[0])]);
    assert((out@, rng@) == markov1_run(cuts@, old(rng)@, 1));
    let mut idx: usize = 1;
    while idx < values.len()
        invariant
            1 <= idx <= values.len(),
            out.len() == idx,
            cuts.len() == 3,
            (out@, rng@) == markov1_run(cuts@, old(rng)@, idx as nat),
        decreases values.len() - idx,
    {
        let prev = bool_idx(out[idx - 1]);
        let next = rng.next_u64();
        out.push((next >> 11u64) < cuts[1 + prev]);
        idx = idx + 1;
    }
    out
}

/// The second-order Markov generator: the first two items are the adjacent pair
/// of `values` at a drawn index; item `k >= 2` is true when its draw falls below
/// `cuts[1 + 2 * item[k - 2] + item[k - 1]]`. On fewer than three items it is
/// the first-order generator, and `cuts` are then the first-order ones.
pub fn markov2_bool_sequence(values: &[bool], cuts: &Vec<u64>, rng: &mut XorShift64) -> (r: Vec<bool>)
    requires
        cuts_fit(cuts@, null_fractions(values@, BoolNullKind::Markov2)),
    ensures
        (r@, final(rng)@) == markov2_sequence(values@, cuts@, old(rng)@),
        r.len() == values.len(),
{
    proof {
        lemma_markov_sequences_keep_length(values@, cuts@, old(rng)@);
    }
    if values.len() < 3 {
        return markov1_bool_sequence(values, cuts, rng);
    }
    let start_index = rng.gen_range(values.len() - 1);
    let mut out: Vec<bool> = Vec::new();
    out.push(values[start_index]);
    out.push(values[start_index + 1]);
    let ghost st = rng@;
    assert(out@ =~= seq![values@[start_index as int], values@[start_index + 1]]);
    let mut idx: usize = 2;
    while idx < values.len()
        invariant
            2 <= idx <= values.len(),
            out.len() == idx,
            cuts.len() == 5,
            start_index + 1 < values.len(),
            (out@, rng@) == markov2_run(
                values@[start_index as int],
                values@[start_index + 1],
                cuts@,
                st,
                idx as nat,
            ),
        decreases values.len() - idx,
    {
        let state = 2 * bool_idx(out[idx - 2]) + bool_idx(out[idx - 1]);
        let next = rng.next_u64();
        out.push((next >> 11u64) < cuts[1 + state]);
        idx = idx + 1;
    }
    out
}

// ---------------------------------------------------------------------------
// Gap-order shuffle
// ---------------------------------------------------------------------------

/// The indices of the true positions, in increasing order.
pub open spec fn true_positions(s: Seq<bool>) -> Seq<usize>
    decreases s.len(),
{
    if s.len() == 0 {
        Seq::empty()
    } else {
        let p = true_positions(s.drop_last());
        if s.last() {
            p.push((s.len() - 1) as usize)
        } else {
            p
        }
    }
}

/// The differences between consecutive items.
pub open spec fn differences(p: Seq<usize>) -> Seq<usize> {
    Seq::new((p.len() - 1) as nat, |k: int| (p[k + 1] - p[k]) as usize)
}

/// The sum of the first `k` gaps.
pub open spec fn gap_sum(g: Seq<usize>, k: int) -> int
    decreases k,
{
    if k <= 0 {
        0
    } else {
        gap_sum(g, k - 1) + g[k - 1]
    }
}

/// A map of length `len` that is true at `first` and at `first` plus each
/// running sum of the gaps.
pub open spec fn gap_layout(len: nat, first: int, g: Seq<usize>) -> Seq<bool> {
    Seq::new(len, |q: int| exists|k: int| 0 <= k <= g.len() && first + #[trigger] gap_sum(g, k) == q)
}

/// What the gap-order shuffle gives: with fewer than three events a plain
/// shuffle; otherwise the gaps between events are shuffled and laid out again
/// from the first event, falling back on a plain shuffle (with the generator as
/// the gap shuffle left it) when the layout would not fit.
pub open spec fn gap_order_sequence(values: Seq<bool>, state: u64) -> (Seq<bool>, u64) {
    let p = true_positions(values);
    if p.len() < 3 {
        fisher_yates(values, values.len() - 1, state)
    } else {
        let g0 = differences(p);
        let shuffled = fisher_yates(g0, g0.len() - 1, state);
        let first = p[0] as int;
        if first < values.len() && first + gap_sum(shuffled.0, shuffled.0.len() as int)
            < values.len() {
            (gap_layout(values.len(), first, shuffled.0), shuffled.1)
        } else {
            fisher_yates(values, values.len() - 1, shuffled.1)
        }
    }
}

proof fn lemma_true_positions_bounded(s: Seq<bool>)
    requires
        s.len() <= usize::MAX,
    ensures
        forall|k: int| 0 <= k < true_positions(s).len() ==> #[trigger] true_positions(s)[k] < s.len(),
        forall|k: int, l: int|
            0 <= k < l < true_positions(s).len() ==> #[trigger] true_positions(s)[k]
                < #[trigger] true_positions(s)[l],
        true_positions(s).len() <= s.len(),
    decreases s.len(),
{
    if s.len() > 0 {
        lemma_true_positions_bounded(s.drop_last());
        let p = true_positions(s.drop_last());
        assert forall|k: int| 0 <= k < p.len() implies #[trigger] p[k] < s.len() - 1 by {}
        let q = true_positions(s);
        assert forall|k: int, l: int| 0 <= k < l < q.len() implies #[trigger] q[k] < #[trigger] q[l] by {
            if s.last() {
                assert(q == p.push((s.len() - 1) as usize));
                if l < p.len() {
                    assert(q[k] == p[k] && q[l] == p[l]);
                } else {
                    assert(q[k] == p[k]);
                    assert(q[l] == s.len() - 1);
                }
            } else {
                assert(q == p);
            }
        }
    }
}

proof fn lemma_gap_sum_monotone(g: Seq<usize>, k: int, l: int)
    requires
        0 <= k <= l <= g.len(),
    ensures
        gap_sum(g, k) <= gap_sum(g, l),
    decreases l - k,
{
    if k < l {
        lemma_gap_sum_monotone(g, k, l - 1);
    }
}

proof fn lemma_fisher_yates_len<T>(s: Seq<T>, i: int, state: u64)
    requires
        i < s.len(),
    ensures
        fisher_yates(s, i, state).0.len() == s.len(),
{
    lemma_fisher_yates_permutes(s, i, state);
}

/// The gap-order shuffle keeps the length of the map.
pub proof fn lemma_gap_order_keeps_length(values: Seq<bool>, state: u64)
    ensures
        gap_order_sequence(values, state).0.len() == values.len(),
{
    let p = true_positions(values);
    lemma_fisher_yates_len(values, values.len() - 1, state);
    if p.len() >= 3 {
        let g0 = differences(p);
        let shuffled = fisher_yates(g0, g0.len() - 1, state);
        lemma_fisher_yates_len(values, values.len() - 1, shuffled.1);
    }
}

proof fn lemma_count_true_positions(s: Seq<bool>)
    ensures
        count_true(s) == true_positions(s).len(),
    decreases s.len(),
{
    if s.len() > 0 {
        lemma_count_true_positions(s.drop_last());
    }
}

/// The true positions of `s` are the increasing sequence `p` whose items are
/// exactly the indices where `s` is true.
proof fn lemma_true_positions_unique(s: Seq<bool>, p: Seq<usize>)
    requires
        forall|k: int| 0 <= k < p.len() ==> #[trigger] p[k] < s.len(),
        forall|k: int, l: int| 0 <= k < l < p.len() ==> #[trigger] p[k] < #[trigger] p[l],
        forall|q: int| 0 <= q < s.len() ==> (#[trigger] s[q] <==> exists|k: int| 0 <= k < p.len() && p[k] == q),
    ensures
        true_positions(s) == p,
    decreases s.len(),
{
    if s.len() == 0 {
        if p.len() > 0 {
            assert(p[0] < s.len());
        }
        assert(p =~= Seq::<usize>::empty());
    } else {
        let n = s.len() - 1;
        let t = s.drop_last();
        if s[n] {
            let k0 = choose|k: int| 0 <= k < p.len() && p[k] == n;
            if k0 < p.len() - 1 {
                assert(p[k0] < p[p.len() - 1]);
                assert(false);
            }
            let pd = p.drop_last();
            assert forall|q: int| 0 <= q < t.len() implies (#[trigger] t[q] <==> exists|k: int|
                0 <= k < pd.len() && pd[k] == q) by {
                assert(t[q] == s[q]);
                if s[q] {
                    let k = choose|k: int| 0 <= k < p.len() && p[k] == q;
                    assert(k != p.len() - 1);
                    assert(pd[k] == q);
                }
                if exists|k: int| 0 <= k < pd.len() && pd[k] == q {
                    let k = choose|k: int| 0 <= k < pd.len() && pd[k] == q;
                    assert(p[k] == q);
                }
            }
            assert forall|k: int| 0 <= k < pd.len() implies #[trigger] pd[k] < t.len() by {
                assert(p[k] < p[p.len() - 1]);
            }
            assert forall|k: int, l: int| 0 <= k < l < pd.len() implies #[trigger] pd[k]
                < #[trigger] pd[l] by {
                assert(p[k] < p[l]);
            }
            lemma_true_positions_unique(t, pd);
            assert(p =~= pd.push(n as usize));
        } else {
            assert forall|k: int| 0 <= k < p.len() implies #[trigger] p[k] < t.len() by {
                if p[k] == n {
                    assert(exists|j: int| 0 <= j < p.len() && p[j] == n);
                    assert(s[n]);
                }
            }
            assert forall|q: int| 0 <= q < t.len() implies (#[trigger] t[q] <==> exists|k: int|
                0 <= k < p.len() && p[k] == q) by {
                assert(t[q] == s[q]);
            }
            lemma_true_positions_unique(t, p);
        }
    }
}

/// Every gap between consecutive true positions is at least one, and the
/// gaps add up to the distance from the first true position to the last.
proof fn lemma_gaps_of_positions(s: Seq<bool>, k: int)
    requires
        s.len() <= usize::MAX,
        true_positions(s).len() >= 1,
        0 <= k < true_positions(s).len(),
    ensures
        forall|i: int| 0 <= i < differences(true_positions(s)).len() ==> #[trigger] differences(
            true_positions(s),
        )[i] >= 1,
        gap_sum(differences(true_positions(s)), k) == true_positions(s)[k] - true_positions(s)[0],
    decreases k,
{
    lemma_true_positions_bounded(s);
    let p = true_positions(s);
    let g = differences(p);
    assert forall|i: int| 0 <= i < g.len() implies #[trigger] g[i] >= 1 by {
        assert(p[i] < p[i + 1]);
    }
    if k > 0 {
        lemma_gaps_of_positions(s, k - 1);
        assert(p[k - 1] < p[k]);
        assert(g[k - 1] == p[k] - p[k - 1]);
    }
}

proof fn lemma_gap_sum_update(g: Seq<usize>, i: int, v: usize, n: int)
    requires
        0 <= i < g.len(),
        0 <= n <= g.len(),
    ensures
        gap_sum(g.update(i, v), n) == gap_sum(g, n) + (if i < n {
            v - g[i]
        } else {
            0
        }),
    decreases n,
{
    if n > 0 {
        lemma_gap_sum_update(g, i, v, n - 1);
    }
}

/// Fisher-Yates keeps the total of the gaps and keeps every gap at least one.
proof fn lemma_fisher_yates_gaps(g: Seq<usize>, i: int, state: u64)
    requires
        i < g.len(),
        forall|k: int| 0 <= k < g.len() ==> #[trigger] g[k] >= 1,
    ensures
        gap_sum(fisher_yates(g, i, state).0, g.len() as int) == gap_sum(g, g.len() as int),
        fisher_yates(g, i, state).0.len() == g.len(),
        forall|k: int| 0 <= k < g.len() ==> #[trigger] fisher_yates(g, i, state).0[k] >= 1,
    decreases i,
{
    lemma_fisher_yates_len(g, i, state);
    if i > 0 {
        let j = range_draw(state, (i + 1) as nat) as int;
        let u = g.update(i, g[j]);
        let t = u.update(j, g[i]);
        lemma_gap_sum_update(g, i, g[j], g.len() as int);
        lemma_gap_sum_update(u, j, g[i], g.len() as int);
        assert(u[j] == g[j]);
        lemma_fisher_yates_gaps(t, i - 1, xorshift_step(state));
    }
}

proof fn lemma_gap_sum_strict(g: Seq<usize>, k: int, l: int)
    requires
        0 <= k < l <= g.len(),
        forall|i: int| 0 <= i < g.len() ==> #[trigger] g[i] >= 1,
    ensures
        gap_sum(g, k) < gap_sum(g, l),
    decreases l - k,
{
    if k < l - 1 {
        lemma_gap_sum_strict(g, k, l - 1);
    }
    assert(g[l - 1] >= 1);
}

/// Laid out from `first`, gaps of at least one that fit in the map give back
/// `first` as the first true position and the gaps themselves, in order.
proof fn lemma_gap_layout_positions(len: nat, first: int, g: Seq<usize>)
    requires
        len <= usize::MAX,
        0 <= first,
        first + gap_sum(g, g.len() as int) < len,
        forall|i: int| 0 <= i < g.len() ==> #[trigger] g[i] >= 1,
    ensures
        true_positions(gap_layout(len, first, g)).len() == g.len() + 1,
        true_positions(gap_layout(len, first, g))[0] == first,
        differences(true_positions(gap_layout(len, first, g))) == g,
{
    let s = gap_layout(len, first, g);
    let p = Seq::new(g.len() + 1, |k: int| (first + gap_sum(g, k)) as usize);
    assert forall|k: int| 0 <= k < p.len() implies #[trigger] p[k] < s.len() && p[k] == first + gap_sum(g, k) by {
        lemma_gap_sum_monotone(g, 0, k);
        lemma_gap_sum_monotone(g, k, g.len() as int);
    }
    assert forall|k: int, l: int| 0 <= k < l < p.len() implies #[trigger] p[k] < #[trigger] p[l] by {
        lemma_gap_sum_strict(g, k, l);
    }
    assert forall|q: int| 0 <= q < s.len() implies (#[trigger] s[q] <==> exists|k: int|
        0 <= k < p.len() && p[k] == q) by {
        if s[q] {
            let k = choose|k: int| 0 <= k <= g.len() && first + #[trigger] gap_sum(g, k) == q;
            assert(p[k] == q);
        }
        if exists|k: int| 0 <= k < p.len() && p[k] == q {
            let k = choose|k: int| 0 <= k < p.len() && p[k] == q;
            assert(first + gap_sum(g, k) == q);
        }
    }
    lemma_true_positions_unique(s, p);
    assert(gap_sum(g, 0) == 0);
    assert(differences(p) =~= g);
}

/// The gap-order shuffle keeps the number of events. With at least three
/// events it also keeps the first event in place, and the gaps between
/// consecutive events come out as a reordering of the input's gaps.
pub proof fn lemma_gap_order_keeps_gaps(values: Seq<bool>, state: u64)
    requires
        values.len() <= usize::MAX,
    ensures
        count_true(gap_order_sequence(values, state).0) == count_true(values),
        true_positions(values).len() >= 3 ==> {
            let out = true_positions(gap_order_sequence(values, state).0);
            &&& out[0] == true_positions(values)[0]
            &&& is_permutation(differences(out), differences(true_positions(values)))
        },
{
    let p = true_positions(values);
    lemma_count_true_positions(values);
    if p.len() < 3 {
        lemma_fisher_yates_permutes(values, values.len() - 1, state);
        assert(count_of(gap_order_sequence(values, state).0, true) == count_of(values, true));
    } else {
        lemma_true_positions_bounded(values);
        let g0 = differences(p);
        let shuffled = fisher_yates(g0, g0.len() - 1, state);
        let first = p[0] as int;
        lemma_gaps_of_positions(values, p.len() - 1);
        assert(gap_sum(g0, g0.len() as int) == p[p.len() - 1] - p[0]);
        lemma_fisher_yates_gaps(g0, g0.len() - 1, state);
        lemma_fisher_yates_permutes(g0, g0.len() - 1, state);
        assert(first + gap_sum(shuffled.0, shuffled.0.len() as int) < values.len());
        let out = gap_layout(values.len(), first, shuffled.0);
        assert(gap_order_sequence(values, state).0 == out);
        lemma_gap_layout_positions(values.len(), first, shuffled.0);
        lemma_count_true_positions(out);
    }
}

/// The state after `n` steps of the generator from `x`.
pub open spec fn xorshift_steps(x: u64, n: nat) -> u64
    decreases n,
{
    if n == 0 {
        x
    } else {
        xorshift_steps(xorshift_step(x), (n - 1) as nat)
    }
}

proof fn lemma_fisher_yates_steps<T>(s: Seq<T>, i: int, state: u64)
    requires
        i < s.len(),
    ensures
        fisher_yates(s, i, state).1 == xorshift_steps(state, if i > 0 {
            i as nat
        } else {
            0
        }),
    decreases i,
{
    if i > 0 {
        let j = range_draw(state, (i + 1) as nat) as int;
        lemma_fisher_yates_steps(s.update(i, s[j]).update(j, s[i]), i - 1, xorshift_step(state));
    }
}

/// With at least three events, a gap-order sample keeps the first event and
/// lays out the input's gaps in the order the Fisher-Yates shuffle driven by
/// the generator gives them; the generator has then made one draw per gap
/// after the first, that is two fewer draws than there are events.
pub proof fn lemma_gap_order_draws(values: Seq<bool>, state: u64)
    requires
        values.len() <= usize::MAX,
        true_positions(values).len() >= 3,
    ensures
        ({
            let g0 = differences(true_positions(values));
            let out = gap_order_sequence(values, state);
            &&& true_positions(out.0)[0] == true_positions(values)[0]
            &&& differences(true_positions(out.0)) == fisher_yates(g0, g0.len() - 1, state).0
            &&& out.1 == fisher_yates(g0, g0.len() - 1, state).1
            &&& out.1 == xorshift_steps(state, (true_positions(values).len() - 2) as nat)
        }),
{
    let p = true_positions(values);
    lemma_true_positions_bounded(values);
    let g0 = differences(p);
    let shuffled = fisher_yates(g0, g0.len() - 1, state);
    let first = p[0] as int;
    lemma_gaps_of_positions(values, p.len() - 1);
    lemma_fisher_yates_gaps(g0, g0.len() - 1, state);
    lemma_fisher_yates_steps(g0, g0.len() - 1, state);
    assert(first + gap_sum(shuffled.0, shuffled.0.len() as int) < values.len());
    lemma_gap_layout_positions(values.len(), first, shuffled.0);
}

fn true_positions_of(values: &[bool]) -> (r: Vec<usize>)
    ensures
        r@ == true_positions(values@),
{
    let mut r: Vec<usize> = Vec::new();
    let mut k: usize = 0;
    while k < values.len()
        invariant
            k <= values.len(),
            r@ == true_positions(values@.take(k as int)),
        decreases values.len() - k,
    {
        assert(values@.take(k + 1).drop_last() =~= values@.take(k as int));
        if values[k] {
            r.push(k);
        }
        k = k + 1;
    }
    assert(values@.take(values.len() as int) =~= values@);
    r
}

fn differences_of(p: &Vec<usize>) -> (r: Vec<usize>)
    requires
        p.len() >= 1,
        forall|k: int, l: int| 0 <= k < l < p.len() ==> #[trigger] p@[k] < #[trigger] p@[l],
    ensures
        r@ == differences(p@),
{
    let mut r: Vec<usize> = Vec::new();
    let mut k: usize = 1;
    while k < p.len()
        invariant
            1 <= k <= p.len(),
            r.len() == k - 1,
            forall|k: int, l: int| 0 <= k < l < p.len() ==> #[trigger] p@[k] < #[trigger] p@[l],
            forall|t: int| 0 <= t < k - 1 ==> #[trigger] r@[t] == (p@[t + 1] - p@[t]) as usize,
        decreases p.len() - k,
    {
        assert(p@[k - 1] < p@[k as int]);
        r.push(p[k] - p[k - 1]);
        k = k + 1;
    }
    assert(r@ =~= differences(p@));
    r
}

/// The gap-order null: keeps the first event and the multiset of gaps between
/// events, and draws their order by Fisher-Yates.
fn gap_order_shuffle(values: &[bool], rng: &mut XorShift64) -> (r: Vec<bool>)
    ensures
        (r@, final(rng)@) == gap_order_sequence(values@, old(rng)@),
{
    let positions = true_positions_of(values);
    let n = values.len();
    proof {
        lemma_true_positions_bounded(values@);
    }
    if positions.len() < 3 {
        return shuffle_bool_preserving_count(values, rng);
    }
    let first = positions[0];
    let mut gaps = differences_of(&positions);
    shuffle_in_place(&mut gaps, rng);
    let len = values.len();
    let mut out: Vec<bool> = Vec::new();
    let mut k: usize = 0;
    while k < len
        invariant
            k <= len,
            out.len() == k,
            forall|t: int| 0 <= t < k ==> !(#[trigger] out@[t]),
        decreases len - k,
    {
        out.push(false);
        k = k + 1;
    }
    if first >= len {
        return shuffle_bool_preserving_count(values, rng);
    }
    let mut pos = first;
    out.set(pos, true);
    assert(gap_sum(gaps@, 0) == 0);
    assert(out@ =~= gap_layout(len as nat, first as int, gaps@.take(0))) by {
        assert forall|q: int| 0 <= q < len implies out@[q] == (exists|k: int|
            0 <= k <= 0 && first + #[trigger] gap_sum(gaps@.take(0), k) == q) by {
            if q == first {
                assert(gap_sum(gaps@.take(0), 0) == 0);
            }
        }
    }
    let mut t: usize = 0;
    while t < gaps.len()
        invariant
            t <= gaps.len(),
            out.len() == len,
            first < len,
            pos < len,
            pos == first + gap_sum(gaps@, t as int),
            len == values.len(),
            true_positions(values@).len() >= 3,
            first == true_positions(values@)[0],
            (gaps@, rng@) == fisher_yates(
                differences(true_positions(values@)),
                differences(true_positions(values@)).len() - 1,
                old(rng)@,
            ),
            forall|q: int|
                0 <= q < len ==> #[trigger] out@[q] == (exists|k: int|
                    0 <= k <= t && first + #[trigger] gap_sum(gaps@, k) == q),
        decreases gaps.len() - t,
    {
        pos = pos.saturating_add(gaps[t]);
        if pos >= len {
            proof {
                assert(first + gap_sum(gaps@, t + 1) >= len);
                lemma_gap_sum_monotone(gaps@, t + 1, gaps@.len() as int);
            }
            return shuffle_bool_preserving_count(values, rng);
        }
        let ghost before = out@;
        out.set(pos, true);
        proof {
            assert forall|q: int| 0 <= q < len implies #[trigger] out@[q] == (exists|k: int|
                0 <= k <= t + 1 && first + #[trigger] gap_sum(gaps@, k) == q) by {
                if q == pos {
                    assert(first + gap_sum(gaps@, t + 1) == q);
                } else {
                    if exists|k: int| 0 <= k <= t + 1 && first + #[trigger] gap_sum(gaps@, k) == q {
                        let k = choose|k: int| 0 <= k <= t + 1 && first + #[trigger] gap_sum(gaps@, k) == q;
                        assert(k <= t);
                    }
                }
            }
        }
        t = t + 1;
    }
    assert(out@ =~= gap_layout(len as nat, first as int, gaps@));
    out
}

// ---------------------------------------------------------------------------
// Dispatch
// ---------------------------------------------------------------------------

/// What `generate_bool_null` gives for `values` and generator state `state`.
pub open spec fn bool_null_sequence(values: Seq<bool>, kind: BoolNullKind, cuts: Seq<u64>, state: u64) -> (Seq<bool>, u64) {
    match kind {
        BoolNullKind::DensityShuffle => fisher_yates(values, values.len() - 1, state),
        BoolNullKind::Markov1 => markov1_sequence(values, cuts, state),
        BoolNullKind::Markov2 => markov2_sequence(values, cuts, state),
        BoolNullKind::GapOrderShuffle => gap_order_sequence(values, state),
    }
}

/// Every null model keeps the length of the map.
pub proof fn lemma_bool_null_keeps_length(values: Seq<bool>, kind: BoolNullKind, cuts: Seq<u64>, state: u64)
    ensures
        bool_null_sequence(values, kind, cuts, state).0.len() == values.len(),
{
    lemma_fisher_yates_len(values, values.len() - 1, state);
    lemma_markov_sequences_keep_length(values, cuts, state);
    lemma_gap_order_keeps_length(values, state);
}

/// The draw chances the null model `kind` uses on `values`, one per cut it
/// needs; the shuffles need none.
pub fn null_fractions_of(values: &[bool], kind: BoolNullKind) -> (r: Vec<(usize, usize)>)
    ensures
        fractions_match(r@, null_fractions(values@, kind)),
{
    match kind {
        BoolNullKind::Markov1 => markov1_fractions_of(values),
        BoolNullKind::Markov2 => {
            if values.len() < 3 {
                markov1_fractions_of(values)
            } else {
                markov2_fractions_of(values)
            }
        },
        _ => Vec::new(),
    }
}

// ---------------------------------------------------------------------------
// Constant maps
// ---------------------------------------------------------------------------

/// Every item of `s` is `b`.
pub open spec fn all_equal_to(s: Seq<bool>, b: bool) -> bool {
    forall|i: int| 0 <= i < s.len() ==> #[trigger] s[i] == b
}

/// All items of `s` are equal.
pub open spec fn is_constant_map(s: Seq<bool>) -> bool {
    s.len() > 0 ==> all_equal_to(s, s[0])
}

proof fn lemma_count_true_const(s: Seq<bool>, b: bool)
    requires
        all_equal_to(s, b),
    ensures
        count_true(s) == (if b {
            s.len()
        } else {
            0
        }),
    decreases s.len(),
{
    if s.len() > 0 {
        lemma_count_true_const(s.drop_last(), b);
    }
}

proof fn lemma_count_true_bounds(s: Seq<bool>)
    ensures
        count_true(s) <= s.len(),
        count_true(s) == s.len() ==> all_equal_to(s, true),
        count_true(s) == 0 ==> all_equal_to(s, false),
    decreases s.len(),
{
    if s.len() > 0 {
        let t = s.drop_last();
        lemma_count_true_bounds(t);
        if count_true(s) == s.len() {
            assert forall|i: int| 0 <= i < s.len() implies #[trigger] s[i] == true by {
                if i < t.len() {
                    assert(t[i] == s[i]);
                }
            }
        }
        if count_true(s) == 0 {
            assert forall|i: int| 0 <= i < s.len() implies #[trigger] s[i] == false by {
                if i < t.len() {
                    assert(t[i] == s[i]);
                }
            }
        }
    }
}

proof fn lemma_pairs_const(s: Seq<bool>, b: bool)
    requires
        all_equal_to(s, b),
    ensures
        pair_true(s, b) == (if b {
            pair_total(s, b)
        } else {
            0
        }),
        pair_true(s, !b) == 0,
        pair_total(s, !b) == 0,
        s.len() >= 2 ==> pair_total(s, b) > 0,
    decreases s.len(),
{
    if s.len() >= 2 {
        let t = s.drop_last();
        lemma_pairs_const(t, b);
        assert(s[s.len() - 2] == b);
    }
}

proof fn lemma_triples_const(s: Seq<bool>, b: bool, st: nat)
    requires
        all_equal_to(s, b),
    ensures
        triple_true(s, st) == (if b && st == pair_state(b, b) {
            triple_total(s, st)
        } else {
            0
        }),
        st != pair_state(b, b) ==> triple_total(s, st) == 0,
        s.len() >= 3 && st == pair_state(b, b) ==> triple_total(s, st) > 0,
    decreases s.len(),
{
    if s.len() >= 3 {
        let t = s.drop_last();
        lemma_triples_const(t, b, st);
        assert(s[s.len() - 3] == b && s[s.len() - 2] == b);
    }
}

/// The cut every draw of a constant map uses: all draws, or none.
pub open spec fn constant_cut(b: bool) -> u64 {
    if b {
        draw_count() as u64
    } else {
        0
    }
}

proof fn lemma_fraction_cut(cut: u64, f: (nat, nat), b: bool)
    requires
        cut_fits(cut, f),
        b ==> f.0 == f.1 && f.1 > 0,
        !b ==> f.0 == 0,
    ensures
        cut == constant_cut(b),
{
}

proof fn lemma_draw_extremes(next: u64)
    ensures
        draw_below(next, constant_cut(true)),
        !draw_below(next, constant_cut(false)),
{
    assert((next >> 11u64) < 0x20_0000_0000_0000u64) by (bit_vector);
}

proof fn lemma_markov1_run_const(cuts: Seq<u64>, state: u64, n: nat, b: bool)
    requires
        cuts.len() == 3,
        forall|i: int| 0 <= i < 3 ==> #[trigger] cuts[i] == constant_cut(b),
    ensures
        all_equal_to(markov1_run(cuts, state, n).0, b),
        markov1_run(cuts, state, n).0.len() == n,
    decreases n,
{
    if n > 0 {
        let prev = markov1_run(cuts, state, (n - 1) as nat);
        lemma_markov1_run_const(cuts, state, (n - 1) as nat, b);
        lemma_draw_extremes(xorshift_step(prev.1));
        if n > 1 {
            assert(prev.0.last() == b);
            assert(cuts[(1 + bool_index(prev.0.last())) as int] == constant_cut(b));
        }
        let out = markov1_run(cuts, state, n).0;
        assert forall|i: int| 0 <= i < out.len() implies #[trigger] out[i] == b by {
            if i < prev.0.len() {
                assert(out[i] == prev.0[i]);
            }
        }
    }
}

proof fn lemma_markov2_run_const(cuts: Seq<u64>, state: u64, n: nat, b: bool)
    requires
        n >= 2,
        cuts.len() == 5,
        forall|i: int| 0 <= i < 5 ==> #[trigger] cuts[i] == constant_cut(b),
    ensures
        all_equal_to(markov2_run(b, b, cuts, state, n).0, b),
        markov2_run(b, b, cuts, state, n).0.len() == n,
    decreases n,
{
    if n > 2 {
        let prev = markov2_run(b, b, cuts, state, (n - 1) as nat);
        lemma_markov2_run_const(cuts, state, (n - 1) as nat, b);
        lemma_draw_extremes(xorshift_step(prev.1));
        assert(prev.0[n - 3] == b && prev.0[n - 2] == b);
        let slot = (1 + pair_state(prev.0[n - 3], prev.0[n - 2])) as int;
        assert(0 <= slot < 5);
        assert(cuts[slot] == constant_cut(b));
        let out = markov2_run(b, b, cuts, state, n).0;
        assert forall|i: int| 0 <= i < out.len() implies #[trigger] out[i] == b by {
            if i < prev.0.len() {
                assert(out[i] == prev.0[i]);
            }
        }
    } else {
        assert(markov2_run(b, b, cuts, state, n).0 == seq![b, b]);
    }
}

proof fn lemma_markov1_cuts_const(values: Seq<bool>, cuts: Seq<u64>, b: bool)
    requires
        values.len() >= 2,
        all_equal_to(values, b),
        cuts_fit(cuts, markov1_fractions(values)),
    ensures
        cuts.len() == 3,
        forall|i: int| 0 <= i < 3 ==> #[trigger] cuts[i] == constant_cut(b),
{
    lemma_count_true_const(values, b);
    lemma_pairs_const(values, b);
    let f = markov1_fractions(values);
    assert forall|i: int| 0 <= i < 3 implies #[trigger] cuts[i] == constant_cut(b) by {
        assert(cut_fits(cuts[i], f[i]));
        lemma_fraction_cut(cuts[i], f[i], b);
    }
}

proof fn lemma_markov2_cuts_const(values: Seq<bool>, cuts: Seq<u64>, b: bool)
    requires
        values.len() >= 3,
        all_equal_to(values, b),
        cuts_fit(cuts, markov2_fractions(values)),
    ensures
        cuts.len() == 5,
        forall|i: int| 0 <= i < 5 ==> #[trigger] cuts[i] == constant_cut(b),
{
    lemma_count_true_const(values, b);
    lemma_triples_const(values, b, 0);
    lemma_triples_const(values, b, 1);
    lemma_triples_const(values, b, 2);
    lemma_triples_const(values, b, 3);
    let f = markov2_fractions(values);
    assert forall|i: int| 0 <= i < 5 implies #[trigger] cuts[i] == constant_cut(b) by {
        assert(cut_fits(cuts[i], f[i]));
        lemma_fraction_cut(cuts[i], f[i], b);
    }
}

/// A map whose items are all equal comes out of every null model unchanged,
/// when each cut stands for its chance: the shuffles only reorder equal items,
/// and the Markov chances of such a map are exactly 0 or 1.
pub proof fn lemma_constant_map_unchanged(values: Seq<bool>, kind: BoolNullKind, cuts: Seq<u64>, state: u64)
    requires
        values.len() <= usize::MAX,
        is_constant_map(values),
        cuts_fit(cuts, null_fractions(values, kind)),
    ensures
        bool_null_sequence(values, kind, cuts, state).0 == values,
{
    let out = bool_null_sequence(values, kind, cuts, state).0;
    lemma_bool_null_keeps_length(values, kind, cuts, state);
    if values.len() == 0 {
        assert(out =~= values);
    } else {
        let b = values[0];
        lemma_count_true_const(values, b);
        match kind {
            BoolNullKind::DensityShuffle => {
                lemma_fisher_yates_permutes(values, values.len() - 1, state);
                assert(count_of(out, true) == count_of(values, true));
                lemma_count_true_bounds(out);
            },
            BoolNullKind::GapOrderShuffle => {
                lemma_gap_order_keeps_gaps(values, state);
                lemma_count_true_bounds(out);
            },
            BoolNullKind::Markov1 => {
                if values.len() >= 2 {
                    lemma_markov1_cuts_const(values, cuts, b);
                    lemma_markov1_run_const(cuts, state, values.len(), b);
                }
            },
            BoolNullKind::Markov2 => {
                if values.len() >= 3 {
                    lemma_markov2_cuts_const(values, cuts, b);
                    let i = range_draw(state, (values.len() - 1) as nat) as int;
                    assert(values[i] == b && values[i + 1] == b);
                    lemma_markov2_run_const(
                        cuts,
                        range_state(state, (values.len() - 1) as nat),
                        values.len(),
                        b,
                    );
                } else if values.len() == 2 {
                    lemma_markov1_cuts_const(values, cuts, b);
                    lemma_markov1_run_const(cuts, state, values.len(), b);
                }
            },
        }
        assert(out =~= values);
    }
}

/// One sample of the null model `kind` for `values`. `cuts[i]` is the draw
/// threshold for the chance `null_fractions_of(values, kind)[i]`.
pub fn generate_bool_null(values: &[bool], kind: BoolNullKind, cuts: &Vec<u64>, rng: &mut XorShift64) -> (r: Vec<bool>)
    requires
        cuts_fit(cuts@, null_fractions(values@, kind)),
    ensures
        (r@, final(rng)@) == bool_null_sequence(values@, kind, cuts@, old(rng)@),
        r.len() == values.len(),
        kind == BoolNullKind::DensityShuffle || kind == BoolNullKind::GapOrderShuffle ==> count_true(
            r@,
        ) == count_true(values@),
        is_constant_map(values@) ==> r@ == values@,
{
    let _len = values.len();
    proof {
        if is_constant_map(values@) {
            lemma_constant_map_unchanged(values@, kind, cuts@, old(rng)@);
        }
        lemma_bool_null_keeps_length(values@, kind, cuts@, old(rng)@);
        lemma_gap_order_keeps_gaps(values@, old(rng)@);
        lemma_fisher_yates_permutes(values@, values@.len() - 1, old(rng)@);
        assert(count_of(fisher_yates(values@, values@.len() - 1, old(rng)@).0, true) == count_of(
            values@,
            true,
        ));
    }
    match kind {
        BoolNullKind::DensityShuffle => shuffle_bool_preserving_count(values, rng),
        BoolNullKind::Markov1 => markov1_bool_sequence(values, cuts, rng),
        BoolNullKind::Markov2 => markov2_bool_sequence(values, cuts, rng),
        BoolNullKind::GapOrderShuffle => gap_order_shuffle(values, rng),
    }
}

} // verus!
