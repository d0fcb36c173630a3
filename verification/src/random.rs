//! The `Random` class: a xorshift generator seeded from a 64-bit seed, and
//! integer draws below a bound.
use vstd::prelude::*;
use crate::error::Error;
use crate::pack::le_bytes;
use rand_core::{Rng, SeedableRng};
use rand_xorshift::XorShiftRng;

verus! {

#[verifier::external_type_specification]
#[verifier::external_body]
pub struct ExXorShiftRng(XorShiftRng);

/// The generator `rand_xorshift::XorShiftRng::from_seed` builds from a
/// 16-byte seed; it depends on the seed alone.
pub uninterp spec fn seeded_generator(seed: Seq<u8>) -> XorShiftRng;

/// Builds a generator from a 16-byte seed with
/// `rand_xorshift::XorShiftRng::from_seed`, which depends on the seed alone:
/// the result is named `seeded_generator(seed@)`. The numbers it will
/// produce are not claimed.
#[verifier::external_body]
fn xorshift_from_seed(seed: [u8; 16]) -> (r: XorShiftRng)
    ensures
        r == seeded_generator(seed@),
{
    XorShiftRng::from_seed(seed)
}

/// Draws the next 64 random bits with `rand_core::Rng::next_u64` on the
/// xorshift generator; any value may come back.
#[verifier::external_body]
fn xorshift_next_u64(rng: &mut XorShiftRng) -> u64 {
    rng.next_u64()
}

/// Draws the next 32 random bits with `rand_core::Rng::next_u32` on the
/// xorshift generator; any value may come back.
#[verifier::external_body]
fn xorshift_next_u32(rng: &mut XorShiftRng) -> u32 {
    rng.next_u32()
}

/// The 16-byte generator seed of a 64-bit seed: its eight little-endian bytes
/// followed by the bytes 1 to 8.
pub open spec fn spec_seed_bytes(seed: u64) -> Seq<u8> {
    le_bytes(seed as nat, 8) + seq![1u8, 2u8, 3u8, 4u8, 5u8, 6u8, 7u8, 8u8]
}

/// The 16-byte generator seed of a 64-bit seed.
pub fn seed_bytes(seed: u64) -> (r: [u8; 16])
    ensures
        r@ == spec_seed_bytes(seed),
{
    let r = [
        (seed % 256) as u8,
        ((seed / 0x100) % 256) as u8,
        ((seed / 0x10000) % 256) as u8,
        ((seed / 0x1000000) % 256) as u8,
        ((seed / 0x100000000) % 256) as u8,
        ((seed / 0x10000000000) % 256) as u8,
        ((seed / 0x1000000000000) % 256) as u8,
        ((seed / 0x100000000000000) % 256) as u8,
        1,
        2,
        3,
        4,
        5,
        6,
        7,
        8,
    ];
    proof {
        reveal_with_fuel(le_bytes, 9);
        let x = seed as nat;
        assert(x / 256 / 256 == x / 0x10000) by {
            vstd::arithmetic::div_mod::lemma_div_denominator(x as int, 256, 256);
        }
        assert(x / 0x10000 / 256 == x / 0x1000000) by {
            vstd::arithmetic::div_mod::lemma_div_denominator(x as int, 0x10000, 256);
        }
        assert(x / 0x1000000 / 256 == x / 0x100000000) by {
            vstd::arithmetic::div_mod::lemma_div_denominator(x as int, 0x1000000, 256);
        }
        assert(x / 0x100000000 / 256 == x / 0x10000000000) by {
            vstd::arithmetic::div_mod::lemma_div_denominator(x as int, 0x100000000, 256);
        }
        assert(x / 0x10000000000 / 256 == x / 0x1000000000000) by {
            vstd::arithmetic::div_mod::lemma_div_denominator(x as int, 0x10000000000, 256);
        }
        assert(x / 0x1000000000000 / 256 == x / 0x100000000000000) by {
            vstd::arithmetic::div_mod::lemma_div_denominator(x as int, 0x1000000000000, 256);
        }
        assert(r@ =~= spec_seed_bytes(seed));
    }
    r
}

/// A xorshift generator seeded from `seed` through `seed_bytes`.
pub fn create_seeded_rng(seed: u64) -> (r: XorShiftRng)
    ensures
        r == seeded_generator(spec_seed_bytes(seed)),
{
    xorshift_from_seed(seed_bytes(seed))
}

/// A random number generator together with the seed it was made from.
pub struct Random {
    pub rng_state: XorShiftRng,
    pub seed: u64,
}

impl Random {
    /// A generator seeded from `seed`.
    pub fn new(seed: u64) -> (r: Self)
        ensures
            r.seed == seed,
            r.rng_state == seeded_generator(spec_seed_bytes(seed)),
    {
        Random { rng_state: create_seeded_rng(seed), seed }
    }

    /// The seed the generator was made from.
    pub fn seed(&self) -> (r: u64)
        ensures
            r == self.seed,
    {
        self.seed
    }

    /// A random integer in `0..max`; a bound that is not positive is refused.
    pub fn rand_int(&mut self, max: i64) -> (r: Result<i64, Error>)
        ensures
            final(self).seed == old(self).seed,
            max <= 0 ==> (r matches Err(Error::ArgumentError(m)) && m@ == "max must be positive"@),
            max > 0 ==> (r matches Ok(v) && 0 <= v < max),
    {
        if max <= 0 {
            return Err(Error::ArgumentError(String::from_str("max must be positive")));
        }
        let bits = xorshift_next_u64(&mut self.rng_state);
        Ok(reduce_below(bits, max))
    }

    /// The next 32 random bits, from which a fraction is drawn. Any `u32`
    /// may come back: no clause states which bits the generator draws.
    pub fn next_u32(&mut self) -> (r: u32)
        ensures
            final(self).seed == old(self).seed,
    {
        xorshift_next_u32(&mut self.rng_state)
    }
}

/// `bits % max`: how 64 random bits are brought below a positive bound.
pub fn reduce_below(bits: u64, max: i64) -> (r: i64)
    requires
        max > 0,
    ensures
        r == (bits as int) % (max as int),
        0 <= r < max,
{
    (bits % (max as u64)) as i64
}

} // verus!
