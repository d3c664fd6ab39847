//! Deterministic expansion of one hash value into several bit positions.
use vstd::prelude::*;

verus! {

/// Multiplier of the 128-bit linear congruential generator.
pub const LCG_MULTIPLIER: u128 = 47026247687942121848144207491837418733;

/// One step of the generator: `state * LCG_MULTIPLIER + 1`, wrapping at 2^128.
pub open spec fn lcg_step(state: u128) -> u128 {
    state.wrapping_mul(LCG_MULTIPLIER).wrapping_add(1)
}

/// The generator state after `n` steps from `seed`.
pub open spec fn lcg_state(seed: u128, n: nat) -> u128
    decreases n,
{
    if n == 0 {
        seed
    } else {
        lcg_step(lcg_state(seed, (n - 1) as nat))
    }
}

/// The raw output of step `n` (counting from 0): bits 32 to 95 of the state
/// reached by that step.
pub open spec fn lcg_output(seed: u128, n: nat) -> u64 {
    (lcg_state(seed, n + 1) >> 32u128) as u64
}

/// The `k` bit positions that `hash` selects in a bit array of `len` bits.
pub open spec fn index_seq(hash: i128, k: nat, len: u64) -> Seq<u64> {
    Seq::new(k, |j: int| (lcg_output(hash as u128, j as nat) % len) as u64)
}

/// A linear congruential generator over 128-bit states.
pub struct Random {
    state: u128,
}

impl View for Random {
    type V = u128;

    closed spec fn view(&self) -> u128 {
        self.state
    }
}

impl Random {
    /// Advances the state by one step and returns bits 32 to 95 of the new state.
    pub fn next(&mut self) -> (r: u64)
        ensures
            final(self)@ == lcg_step(old(self)@),
            r == (lcg_step(old(self)@) >> 32u128) as u64,
    {
        self.state = self.state.wrapping_mul(LCG_MULTIPLIER).wrapping_add(1);
        (self.state >> 32u32) as u64
    }
}

/// A generator seeded with the bits of `hash`.
pub fn distribute_entropy(hash: i128) -> (r: Random)
    ensures
        r@ == hash as u128,
{
    Random { state: hash as u128 }
}

/// The `k` positions in `0..len` derived from `hash`; equal arguments always
/// give equal positions.
pub fn generate_indexes(hash: i128, k: u64, len: u64) -> (r: Vec<u64>)
    requires
        k == 0 || len > 0,
    ensures
        r@ == index_seq(hash, k as nat, len),
        forall|j: int| 0 <= j < k ==> #[trigger] r@[j] < len,
{
    let mut rng = distribute_entropy(hash);
    let mut out: Vec<u64> = Vec::new();
    let mut j: u64 = 0;
    while j < k
        invariant
            j <= k,
            k == 0 || len > 0,
            rng@ == lcg_state(hash as u128, j as nat),
            out@ == index_seq(hash, k as nat, len).take(j as int),
        decreases k - j,
    {
        let x = rng.next();
        out.push(x % len);
        j = j + 1;
        assert(out@ =~= index_seq(hash, k as nat, len).take(j as int));
    }
    assert(out@ =~= index_seq(hash, k as nat, len));
    out
}

} // verus!
