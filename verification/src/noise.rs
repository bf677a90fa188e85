//! Deterministic randomness for effects, stateless by construction: a value is a hash of
//! its coordinates (pixel, seed), never the next draw of a stream, so rendering the same
//! time twice gives the same frame.

use vstd::prelude::*;

verus! {

/// One xor-shift-multiply round pair of the SplitMix64 finaliser, as a spec.
pub open spec fn spec_mix64(x: u64) -> u64 {
    let z1 = ((x ^ (x >> 30u64)) as u64);
    let z2 = (z1 as int * 0xbf58476d1ce4e5b9int) % 0x1_0000_0000_0000_0000int;
    let z3 = ((z2 as u64) ^ ((z2 as u64) >> 27u64)) as u64;
    let z4 = (z3 as int * 0x94d049bb133111ebint) % 0x1_0000_0000_0000_0000int;
    ((z4 as u64) ^ ((z4 as u64) >> 31u64)) as u64
}

/// Stateless 64-bit mixer: the SplitMix64 finaliser.
pub fn mix64(x: u64) -> (r: u64)
    ensures
        r == spec_mix64(x),
{
    let mut z = x;
    z = (z ^ (z >> 30)).wrapping_mul(0xbf58476d1ce4e5b9);
    z = (z ^ (z >> 27)).wrapping_mul(0x94d049bb133111eb);
    z ^ (z >> 31)
}

/// The 24 high bits of `key` mixed with the mixed `seed`: a deterministic value per
/// `(key, seed)` pair below `2^24`, which scales exactly into `[0, 1)` as an `f32`.
pub fn hash24(key: u64, seed: u64) -> (r: u32)
    ensures
        r == spec_mix64(key ^ spec_mix64(seed)) >> 40u64,
        r < 0x100_0000,
{
    let h = mix64(key ^ mix64(seed));
    let top = h >> 40;
    assert(h >> 40u64 < 0x100_0000u64) by (bit_vector);
    top as u32
}

/// `x ^ (x >> s)` for a shift of at least half the width determines `x`.
proof fn lemma_xorshift_injective(a: u64, b: u64)
    ensures
        (a ^ (a >> 30u64)) == (b ^ (b >> 30u64)) ==> a == b,
        (a ^ (a >> 27u64)) == (b ^ (b >> 27u64)) ==> a == b,
        (a ^ (a >> 31u64)) == (b ^ (b >> 31u64)) ==> a == b,
{
    assert((a ^ (a >> 30u64)) == (b ^ (b >> 30u64)) ==> a == b) by (bit_vector);
    assert((a ^ (a >> 27u64)) == (b ^ (b >> 27u64)) ==> a == b) by (bit_vector);
    assert((a ^ (a >> 31u64)) == (b ^ (b >> 31u64)) ==> a == b) by (bit_vector);
}

/// Multiplying by a constant that has an inverse modulo `2^64` determines the factor.
proof fn lemma_mul_invertible_injective(a: u64, b: u64, c: int, cinv: int)
    requires
        (c * cinv) % 0x1_0000_0000_0000_0000int == 1,
        (a * c) % 0x1_0000_0000_0000_0000int == (b * c) % 0x1_0000_0000_0000_0000int,
    ensures
        a == b,
{
    let m = 0x1_0000_0000_0000_0000int;
    vstd::arithmetic::div_mod::lemma_mul_mod_noop_left(a * c, cinv, m);
    vstd::arithmetic::div_mod::lemma_mul_mod_noop_left(b * c, cinv, m);
    vstd::arithmetic::mul::lemma_mul_is_associative(a as int, c, cinv);
    vstd::arithmetic::mul::lemma_mul_is_associative(b as int, c, cinv);
    vstd::arithmetic::div_mod::lemma_mul_mod_noop_right(a as int, c * cinv, m);
    vstd::arithmetic::div_mod::lemma_mul_mod_noop_right(b as int, c * cinv, m);
    vstd::arithmetic::div_mod::lemma_small_mod(a as nat, m as nat);
    vstd::arithmetic::div_mod::lemma_small_mod(b as nat, m as nat);
}

/// Law: the mixer is a bijection on `u64`: different keys never mix to the same value, so
/// sequential pixel indices never collide. Zero is its fixed point.
pub proof fn lemma_mix64_is_injective(x: u64, y: u64)
    ensures
        x != y ==> spec_mix64(x) != spec_mix64(y),
        spec_mix64(0) == 0,
{
    let m = 0x1_0000_0000_0000_0000int;
    let c1 = 0xbf58476d1ce4e5b9int;
    let c2 = 0x94d049bb133111ebint;
    assert((c1 * 0x96de1b173f119089int) % m == 1);
    assert((c2 * 0x319642b2d24d8ec3int) % m == 1);
    let xa = ((x ^ (x >> 30u64)) as u64);
    let ya = ((y ^ (y >> 30u64)) as u64);
    let xb = ((xa as int * c1) % m) as u64;
    let yb = ((ya as int * c1) % m) as u64;
    let xc = ((xb ^ (xb >> 27u64)) as u64);
    let yc = ((yb ^ (yb >> 27u64)) as u64);
    let xd = ((xc as int * c2) % m) as u64;
    let yd = ((yc as int * c2) % m) as u64;
    if spec_mix64(x) == spec_mix64(y) {
        lemma_xorshift_injective(xd, yd);
        assert(xd == yd);
        lemma_mul_invertible_injective(xc, yc, c2, 0x319642b2d24d8ec3int);
        lemma_xorshift_injective(xb, yb);
        lemma_mul_invertible_injective(xa, ya, c1, 0x96de1b173f119089int);
        lemma_xorshift_injective(x, y);
    }
    let z: u64 = 0;
    assert(z ^ (z >> 30u64) == 0 && z ^ (z >> 27u64) == 0 && z ^ (z >> 31u64) == 0)
        by (bit_vector)
        requires
            z == 0,
    ;
    assert(spec_mix64(0) == 0);
}

} // verus!
