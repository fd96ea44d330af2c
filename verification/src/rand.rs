//! A small random number generator.

use vstd::prelude::*;

verus! {

pub const K1: u64 = 0xa0761d6478bd642f;

pub const K2: u64 = 0xe7037ed1a0b428db;

/// The state; zero before it is seeded.
pub struct Rand {
    pub state: u64,
}

/// The seed that a reading of the processor's clock gives; never zero.
pub open spec fn seed_of(ticks: u64) -> u64 {
    if ticks.wrapping_mul(K1) ^ K2 == 0 {
        K1 ^ K2
    } else {
        ticks.wrapping_mul(K1) ^ K2
    }
}

/// Seeds the generator, unless it has a state already.
pub fn init(r: &mut Rand, ticks: u64)
    ensures
        final(r).state == (if old(r).state == 0 {
            seed_of(ticks)
        } else {
            old(r).state
        }),
{
    let s: u64 = ticks.wrapping_mul(K1) ^ K2;
    let s: u64 = if s == 0 {
        K1 ^ K2
    } else {
        s
    };
    if r.state == 0 {
        r.state = s;
    }
}

/// A seeded generator stays seeded as it is, and a new one gets a state other
/// than zero.
pub proof fn law_seed_is_not_zero(ticks: u64)
    ensures
        seed_of(ticks) != 0,
{
    assert(0xa0761d6478bd642fu64 ^ 0xe7037ed1a0b428dbu64 != 0) by (bit_vector);
}

/// The high and the low half of the product of a state and itself, mixed, cut
/// to 32 bits.
pub open spec fn mix(state: u64) -> u32 {
    let prod = (state as u128 * ((state ^ K2) as u128)) as u128;
    (((prod >> 64) as u64) ^ (prod as u64)) as u32
}

/// The next number.
pub fn cheaprand(r: &mut Rand) -> (n: u32)
    ensures
        final(r).state == old(r).state.wrapping_add(K1),
        n == mix(final(r).state),
{
    let new: u64 = r.state.wrapping_add(K1);
    r.state = new;
    let other: u64 = new ^ K2;
    proof {
        assert(new as int * other as int <= 0xffff_ffff_ffff_ffff * 0xffff_ffff_ffff_ffff)
            by (nonlinear_arith)
            requires
                new <= 0xffff_ffff_ffff_ffff,
                other <= 0xffff_ffff_ffff_ffff,
        ;
    }
    let prod: u128 = (new as u128) * (other as u128);
    let hi: u64 = #[verifier::truncate] ((prod >> 64) as u64);
    let lo: u64 = #[verifier::truncate] (prod as u64);
    #[verifier::truncate]
    ((hi ^ lo) as u32)
}

/// The number scaled to a bound.
pub open spec fn scaled(x: u32, n: u32) -> u32 {
    (x as int * n as int / 0x1_0000_0000) as u32
}

/// The next number below `n`; zero when `n` is zero.
pub fn cheaprandn(r: &mut Rand, n: u32) -> (x: u32)
    ensures
        final(r).state == old(r).state.wrapping_add(K1),
        x == scaled(mix(final(r).state), n),
        n > 0 ==> x < n,
        n == 0 ==> x == 0,
{
    let v: u32 = cheaprand(r);
    proof {
        law_scaled_is_below(v, n);
        assert(v as int * n as int <= 0xffff_ffff * 0xffff_ffff) by (nonlinear_arith)
            requires
                v <= 0xffff_ffff,
                n <= 0xffff_ffff,
        ;
    }
    let p: u64 = (v as u64) * (n as u64);
    (p / 0x1_0000_0000) as u32
}

/// Scaling to a bound stays below the bound, whatever number is scaled.
pub proof fn law_scaled_is_below(x: u32, n: u32)
    ensures
        n > 0 ==> scaled(x, n) < n,
        n == 0 ==> scaled(x, n) == 0,
        scaled(x, n) == x as int * n as int / 0x1_0000_0000,
{
    let p = x as int * n as int;
    if n > 0 {
        assert(0 <= p < 0x1_0000_0000 * n as int) by (nonlinear_arith)
            requires
                0 <= x < 0x1_0000_0000,
                n > 0,
                p == x as int * n as int,
        ;
    } else {
        assert(p == 0) by (nonlinear_arith)
            requires
                n == 0,
                p == x as int * n as int,
        ;
    }
}

/// The number is made of the two halves of the product of the state and the
/// state with some of its bits turned.
pub proof fn law_halves_are_mixed(state: u64, hi: u64, lo: u64)
    requires
        hi as int * 0x1_0000_0000_0000_0000 + lo as int == state as int * (state
            ^ 0xe7037ed1a0b428db) as int,
    ensures
        mix(state) == (hi ^ lo) as u32,
{
    let other = state ^ 0xe7037ed1a0b428db;
    let p = state as int * other as int;
    assert(0 <= p <= 0xffff_ffff_ffff_ffff * 0xffff_ffff_ffff_ffff) by (nonlinear_arith)
        requires
            p == state as int * other as int,
            0 <= state <= 0xffff_ffff_ffff_ffff,
            0 <= other <= 0xffff_ffff_ffff_ffff,
    ;
    let prod = p as u128;
    assert(prod == hi as u128 * 0x1_0000_0000_0000_0000u128 + lo as u128);
    assert((prod >> 64) as u64 == hi && prod as u64 == lo) by (bit_vector)
        requires
            prod == hi as u128 * 0x1_0000_0000_0000_0000u128 + lo as u128,
    ;
}

/// The first states: a new generator's seed is made from the clock.
pub proof fn law_seed_is_made_from_the_clock(ticks: u64)
    ensures
        ({
            let s = ticks.wrapping_mul(0xa0761d6478bd642f) ^ 0xe7037ed1a0b428db;
            s != 0 ==> seed_of(ticks) == s
        }),
{
}

/// Scaling keeps the order and spreads over the whole range: the least number
/// gives zero, the greatest the bound's predecessor.
pub proof fn law_scaling_spreads(x: u32, y: u32, n: u32)
    requires
        n > 0,
    ensures
        x <= y ==> scaled(x, n) <= scaled(y, n),
        scaled(0, n) == 0,
        scaled(0xffff_ffff, n) == n - 1,
{
    law_scaled_is_below(x, n);
    law_scaled_is_below(y, n);
    law_scaled_is_below(0, n);
    law_scaled_is_below(0xffff_ffff, n);
    if x <= y {
        assert(x as int * n as int <= y as int * n as int) by (nonlinear_arith)
            requires
                x <= y,
                n > 0,
        ;
    }
    assert(0xffff_ffff * (n as int) == 0x1_0000_0000 * (n as int) - n as int) by (nonlinear_arith);
}

} // verus!
