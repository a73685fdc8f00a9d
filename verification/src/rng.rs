//! The deterministic xorshift generator that seeds test vectors.

use vstd::prelude::*;

use crate::ids::{is_v4_id, new_id};

verus! {

/// The fixed starting state of every generator.
pub const SEED: u64 = 0x1234_5678_9ABC_DEF0u64;

/// One xorshift step: the state after `s` (and the value the generator returns).
pub open spec fn xorshift(s: u64) -> u64 {
    let a = s ^ (s << 13u64);
    let b = a ^ (a >> 7u64);
    b ^ (b << 17u64)
}

/// The state after `n` steps from `s`.
pub open spec fn iterate(s: u64, n: nat) -> u64
    decreases n,
{
    if n == 0 {
        s
    } else {
        xorshift(iterate(s, (n - 1) as nat))
    }
}

/// The first `n` values that a fresh generator returns.
pub open spec fn draws(n: nat) -> Seq<u64> {
    Seq::new(n, |i: int| iterate(SEED, (i + 1) as nat))
}

/// A xorshift generator; every generator starts from [`SEED`].
pub struct SimpleRng {
    state: u64,
}

impl SimpleRng {
    /// The current state of the generator.
    pub closed spec fn state(&self) -> u64 {
        self.state
    }

    /// Advances the generator by one step and returns the new state.
    pub fn next(&mut self) -> (r: u64)
        ensures
            r == xorshift(old(self).state()),
            final(self).state() == r,
    {
        let s = self.state;
        let a = s ^ (s << 13u64);
        let b = a ^ (a >> 7u64);
        let c = b ^ (b << 17u64);
        self.state = c;
        c
    }
}

/// A fresh generator, in state [`SEED`].
pub fn simple_rng() -> (r: SimpleRng)
    ensures
        r.state() == SEED,
{
    SimpleRng { state: SEED }
}

/// The first `n` values of a fresh generator.
pub fn random_draws(n: usize) -> (v: Vec<u64>)
    ensures
        v@ == draws(n as nat),
{
    let mut rng = simple_rng();
    let mut v: Vec<u64> = Vec::new();
    let mut i: usize = 0;
    while i < n
        invariant
            i <= n,
            rng.state() == iterate(SEED, i as nat),
            v@ == draws(i as nat),
        decreases n - i,
    {
        let x = rng.next();
        v.push(x);
        i = i + 1;
        assert(v@ =~= draws(i as nat));
    }
    v
}

/// The parts of a random test vector that are not floating point: a fresh
/// id and the `dim` raw generator values from which the components are made.
/// Every call yields the same raw values for the same `dim`.
pub fn random_vector_parts(dim: usize) -> (r: (u128, Vec<u64>))
    ensures
        is_v4_id(r.0),
        r.1@ == draws(dim as nat),
{
    let id = new_id();
    let raw = random_draws(dim);
    (id, raw)
}

/// A xorshift step never maps a non-zero state to zero.
pub proof fn lemma_xorshift_nonzero(s: u64)
    requires
        s != 0,
    ensures
        xorshift(s) != 0,
{
    assert(s != 0 ==> ((s ^ (s << 13u64)) ^ ((s ^ (s << 13u64)) >> 7u64)) ^ (((s ^ (s
        << 13u64)) ^ ((s ^ (s << 13u64)) >> 7u64)) << 17u64) != 0) by (bit_vector);
}

/// Distinct states step to distinct states: the step is injective.
pub proof fn lemma_xorshift_injective(s: u64, t: u64)
    requires
        xorshift(s) == xorshift(t),
    ensures
        s == t,
{
    let a = s ^ (s << 13u64);
    let b = a ^ (a >> 7u64);
    let c = t ^ (t << 13u64);
    let d = c ^ (c >> 7u64);
    assert(b ^ (b << 17u64) == d ^ (d << 17u64) ==> b == d) by (bit_vector);
    assert(a ^ (a >> 7u64) == c ^ (c >> 7u64) ==> a == c) by (bit_vector);
    assert(s ^ (s << 13u64) == t ^ (t << 13u64) ==> s == t) by (bit_vector);
}

/// Every state reached from a non-zero state is non-zero.
pub proof fn lemma_iterate_nonzero(s: u64, n: nat)
    requires
        s != 0,
    ensures
        iterate(s, n) != 0,
    decreases n,
{
    if n > 0 {
        lemma_iterate_nonzero(s, (n - 1) as nat);
        lemma_xorshift_nonzero(iterate(s, (n - 1) as nat));
    }
}

/// A fresh generator never returns zero.
pub proof fn lemma_draws_nonzero(n: nat)
    ensures
        forall|i: int| 0 <= i < n ==> #[trigger] draws(n)[i] != 0,
{
    assert forall|i: int| 0 <= i < n implies #[trigger] draws(n)[i] != 0 by {
        lemma_iterate_nonzero(SEED, (i + 1) as nat);
    }
}

/// Drawing fewer values gives a prefix of drawing more: the generator is
/// deterministic.
pub proof fn lemma_draws_prefix(m: nat, n: nat)
    requires
        m <= n,
    ensures
        draws(m) == draws(n).take(m as int),
{
    assert(draws(m) =~= draws(n).take(m as int));
}

/// Each draw is one generator step after the one before it; the first is
/// one step after the seed.
pub proof fn law_draws_successive(n: nat)
    ensures
        draws(n).len() == n,
        n > 0 ==> draws(n)[0] == xorshift(SEED),
        forall|i: int| 0 <= i < n - 1 ==> #[trigger] draws(n)[i + 1] == xorshift(draws(n)[i]),
{
    assert(iterate(SEED, 0) == SEED);
    assert forall|i: int| 0 <= i < n - 1 implies #[trigger] draws(n)[i + 1] == xorshift(draws(n)[i]) by {
        assert(iterate(SEED, (i + 2) as nat) == xorshift(iterate(SEED, (i + 1) as nat)));
    }
}

} // verus!
