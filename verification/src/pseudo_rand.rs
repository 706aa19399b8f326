//! A small linear congruential generator, used to fill synthetic payloads.

use vstd::prelude::*;
use vstd::arithmetic::div_mod::{lemma_fundamental_div_mod, lemma_mod_multiples_vanish};

verus! {

/// The generator's multiplier.
pub const LCG_MULTIPLIER: u64 = 1664525;

/// The generator's increment.
pub const LCG_INCREMENT: u64 = 1013904223;

/// The generator's modulus, 2^32.
pub const LCG_MODULUS: u64 = 0x1_0000_0000;

/// One step of the generator: `(a * state + c) mod 2^32`.
pub open spec fn lcg_next(state: u64) -> u64 {
    ((LCG_MULTIPLIER * state + LCG_INCREMENT) % (LCG_MODULUS as int)) as u64
}

/// The state of a fresh generator after `n` steps.
pub open spec fn lcg_state(n: nat) -> u64
    decreases n,
{
    if n == 0 {
        0
    } else {
        lcg_next(lcg_state((n - 1) as nat))
    }
}

/// The generator. Its view is its current state.
pub struct PseudoRand {
    state: u64,
}

impl View for PseudoRand {
    type V = u64;

    closed spec fn view(&self) -> u64 {
        self.state
    }
}

impl PseudoRand {
    /// A generator in its initial state, zero.
    pub fn new() -> (rng: Self)
        ensures
            rng@ == lcg_state(0),
    {
        PseudoRand { state: 0 }
    }

    fn internal_next(&mut self) -> (value: u32)
        ensures
            final(self)@ == lcg_next(old(self)@),
            value == final(self)@,
    {
        let product = LCG_MULTIPLIER.wrapping_mul(self.state);
        let sum = product.wrapping_add(LCG_INCREMENT);
        proof {
            lemma_wrapped_step(self.state, product, sum);
        }
        self.state = sum % LCG_MODULUS;
        let state = self.state;
        assert(state & 0xFFFF_FFFF == state) by (bit_vector)
            requires
                state < 0x1_0000_0000,
        ;
        (self.state & 0xFFFF_FFFF) as u32
    }

    /// Advances the generator and returns the low byte of the new state.
    pub fn next_u8(&mut self) -> (byte: u8)
        ensures
            final(self)@ == lcg_next(old(self)@),
            byte == final(self)@ % 256,
    {
        let value = self.internal_next();
        assert(value & 0xFF == value % 256) by (bit_vector);
        (value & 0xFF) as u8
    }

    /// Advances the generator and maps the new state into `min..=max`.
    pub fn next_int(&mut self, min: u32, max: u32) -> (value: u32)
        requires
            min <= max,
            max - min < u32::MAX,
        ensures
            final(self)@ == lcg_next(old(self)@),
            value == min + final(self)@ % ((max - min + 1) as u64),
            min <= value <= max,
    {
        min + self.internal_next() % (max - min + 1)
    }
}

/// Reducing modulo 2^32 hides the wrap-around of the 64-bit multiply and add.
proof fn lemma_wrapped_step(state: u64, product: u64, sum: u64)
    requires
        product == vstd::wrapping::u64_specs::wrapping_mul(LCG_MULTIPLIER, state),
        sum == vstd::wrapping::u64_specs::wrapping_add(product, LCG_INCREMENT),
    ensures
        sum % LCG_MODULUS == lcg_next(state),
{
    let m = LCG_MODULUS as int;
    let full = LCG_MULTIPLIER as int * state as int;
    let wide = 0x1_0000_0000_0000_0000int;
    lemma_fundamental_div_mod(full, wide);
    let q = full / wide;
    let carry: int = if product + LCG_INCREMENT > u64::MAX { 1 } else { 0 };
    assert(full + LCG_INCREMENT == m * (m * (q + carry)) + sum) by (nonlinear_arith)
        requires
            full == wide * q + product,
            sum == product + LCG_INCREMENT - wide * carry,
            wide == m * m,
    ;
    lemma_mod_multiples_vanish(m * (q + carry), sum as int, m);
}

} // verus!
