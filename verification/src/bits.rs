//! Bit fields of 32-bit registers.
use vstd::arithmetic::power2::pow2;
use vstd::prelude::*;

verus! {

/// The field of `x` that starts at bit `lo` and is as wide as `mask`.
pub open spec fn field(x: u32, lo: u32, mask: u32) -> u32 {
    (x >> lo) & mask
}

/// `x` with that field replaced by the low bits of `v`.
pub open spec fn with_field(x: u32, lo: u32, mask: u32, v: u32) -> u32 {
    (x & !(mask << lo)) | ((v & mask) << lo)
}

/// Replaces the field of `x` that starts at bit `lo` by the low bits of `v`.
pub fn set_field(x: u32, lo: u32, mask: u32, v: u32) -> (r: u32)
    requires
        lo < 32,
    ensures
        r == with_field(x, lo, mask, v),
{
    (x & !(mask << lo)) | ((v & mask) << lo)
}

/// The replaced field holds the new value and every other bit is kept.
pub proof fn law_with_field(x: u32, lo: u32, mask: u32, v: u32)
    requires
        lo < 32,
        (mask << lo) >> lo == mask,
    ensures
        field(with_field(x, lo, mask, v), lo, mask) == v & mask,
        with_field(x, lo, mask, v) & !(mask << lo) == x & !(mask << lo),
{
    assert((((x & !(mask << lo)) | ((v & mask) << lo)) >> lo) & mask == v & mask) by (bit_vector)
        requires
            lo < 32,
            (mask << lo) >> lo == mask,
    ;
    assert(((x & !(mask << lo)) | ((v & mask) << lo)) & !(mask << lo) == x & !(mask << lo))
        by (bit_vector)
        requires
            lo < 32,
    ;
}

/// Replacing a field twice is replacing it once, with the later value.
pub proof fn law_with_field_twice(x: u32, lo: u32, mask: u32, v: u32, w: u32)
    requires
        lo < 32,
    ensures
        with_field(with_field(x, lo, mask, v), lo, mask, w) == with_field(x, lo, mask, w),
{
    assert((((x & !(mask << lo)) | ((v & mask) << lo)) & !(mask << lo)) | ((w & mask) << lo) == (x
        & !(mask << lo)) | ((w & mask) << lo)) by (bit_vector)
        requires
            lo < 32,
    ;
}

/// Fields that do not meet can be replaced in either order.
pub proof fn law_with_field_commutes(x: u32, a: u32, m: u32, v: u32, b: u32, n: u32, w: u32)
    requires
        a < 32,
        b < 32,
        (m << a) & (n << b) == 0,
    ensures
        with_field(with_field(x, a, m, v), b, n, w) == with_field(
            with_field(x, b, n, w),
            a,
            m,
            v,
        ),
{
    assert((((x & !(m << a)) | ((v & m) << a)) & !(n << b)) | ((w & n) << b) == (((x & !(n << b))
        | ((w & n) << b)) & !(m << a)) | ((v & m) << a)) by (bit_vector)
        requires
            a < 32,
            b < 32,
            (m << a) & (n << b) == 0,
    ;
}

/// The number of bits it takes to write `n`.
pub open spec fn bit_length(n: nat) -> nat
    decreases n,
{
    if n == 0 {
        0
    } else {
        1 + bit_length(n / 2)
    }
}

/// `n` lies below the power of two of its bit length and not below the one before.
pub proof fn law_bit_length(n: nat)
    ensures
        n < pow2(bit_length(n)),
        n > 0 ==> pow2((bit_length(n) - 1) as nat) <= n,
    decreases n,
{
    vstd::arithmetic::power2::lemma2_to64();
    if n > 0 {
        law_bit_length(n / 2);
        let b: nat = bit_length(n / 2);
        vstd::arithmetic::power2::lemma_pow2_unfold(b + 1);
        if n / 2 > 0 {
            vstd::arithmetic::power2::lemma_pow2_unfold(b);
        }
    }
}

/// The bit length is the only exponent with that property.
proof fn lemma_bit_length_unique(n: nat, b: nat)
    requires
        n > 0,
        b > 0,
        n < pow2(b),
        pow2((b - 1) as nat) <= n,
    ensures
        b == bit_length(n),
{
    law_bit_length(n);
    let c: nat = bit_length(n);
    if b < c {
        if b < c - 1 {
            vstd::arithmetic::power2::lemma_pow2_strictly_increases(b, (c - 1) as nat);
        }
    } else if c < b {
        if c < b - 1 {
            vstd::arithmetic::power2::lemma_pow2_strictly_increases(c, (b - 1) as nat);
        }
    }
}

/// The number of bits it takes to write `n`.
pub fn bits_needed(n: u32) -> (r: u32)
    ensures
        r == bit_length(n as nat),
        r <= 32,
{
    let z: u32 = n.leading_zeros();
    proof {
        vstd::std_specs::bits::axiom_u32_leading_zeros(n);
        vstd::arithmetic::power2::lemma2_to64();
        let b: u32 = (32 - z) as u32;
        if n > 0 {
            let t: u32 = (31 - z) as u32;
            vstd::bits::lemma_u32_shr_is_div(n, t);
            vstd::arithmetic::power2::lemma_pow2_pos(t as nat);
            assert(n >> t != 0) by {
                assert((n >> t) & 1u32 != 0u32);
                assert(0u32 & 1u32 == 0u32) by (bit_vector);
            }
            vstd::arithmetic::div_mod::lemma_fundamental_div_mod(n as int, pow2(t as nat) as int);
            assert(pow2(t as nat) <= n) by (nonlinear_arith)
                requires
                    n as int / pow2(t as nat) as int >= 1,
                    n as int == pow2(t as nat) as int * (n as int / pow2(t as nat) as int) + (
                    n as int % pow2(t as nat) as int),
                    pow2(t as nat) > 0,
                    0 <= n as int % pow2(t as nat) as int,
            ;
            if b < 32 {
                vstd::bits::lemma_u32_shr_is_div(n, b);
                vstd::arithmetic::power2::lemma_pow2_pos(b as nat);
                vstd::arithmetic::div_mod::lemma_fundamental_div_mod(
                    n as int,
                    pow2(b as nat) as int,
                );
                assert(n < pow2(b as nat));
            }
            lemma_bit_length_unique(n as nat, b as nat);
        }
    }
    32u32.saturating_sub(z)
}

/// Clearing the one-bit field at bit 31 clears that bit and no other.
pub proof fn law_clearing_bit_31(x: u32)
    ensures
        with_field(x, 31, 1, 0) == x & 0x7FFF_FFFF,
{
    assert((x & !(1u32 << 31)) | ((0u32 & 1) << 31) == x & 0x7FFF_FFFF) by (bit_vector);
}

} // verus!
