//! Bit-level helpers over `u128`, the arithmetic domain of every field.
use vstd::prelude::*;

verus! {

/// `n` is the number of trailing zero bits of `x` (128 when `x` is zero).
pub open spec fn is_trailing_zeros(x: u128, n: u32) -> bool {
    &&& n <= 128
    &&& (x >> n) << n == x
    &&& n < 128 ==> (x >> n) & 1 == 1
}

/// `n` is the number of leading zero bits of `x` (128 when `x` is zero).
pub open spec fn is_leading_zeros(x: u128, n: u32) -> bool {
    &&& n <= 128
    &&& x >> (128 - n) == 0
    &&& n < 128 ==> (x >> (127 - n)) & 1 == 1
}

/// The value whose `len` lowest bits are set: `(1 << len) - 1`.
pub open spec fn low_mask_spec(len: u32) -> u128 {
    if len >= 128 {
        0xffff_ffff_ffff_ffff_ffff_ffff_ffff_ffffu128
    } else {
        ((1u128 << len) - 1) as u128
    }
}

/// Computes `(1 << len) - 1`, saturating at all 128 bits.
pub fn low_mask(len: u32) -> (r: u128)
    ensures
        r == low_mask_spec(len),
{
    if len >= 128 {
        u128::MAX
    } else {
        let one: u128 = 1;
        assert((one << len) >= 1) by (bit_vector)
            requires
                one == 1,
                len < 128,
        ;
        (one << len) - 1
    }
}

/// Counts the trailing zero bits of `x`.
pub fn trailing_zeros(x: u128) -> (r: u32)
    ensures
        is_trailing_zeros(x, r),
{
    let mut n: u32 = 0;
    assert((x >> 0u32) << 0u32 == x) by (bit_vector);
    while n < 128 && (x >> n) & 1 == 0
        invariant
            n <= 128,
            (x >> n) << n == x,
        decreases 128 - n,
    {
        assert((x >> (n + 1) as u32) << (n + 1) as u32 == x) by (bit_vector)
            requires
                n < 128,
                (x >> n) << n == x,
                (x >> n) & 1 == 0,
        ;
        n = n + 1;
    }
    if n < 128 {
        let b: u128 = (x >> n) & 1;
        assert(b != 0 ==> b == 1) by (bit_vector)
            requires
                b == (x >> n) & 1,
        ;
    }
    n
}

/// Counts the leading zero bits of `x`.
pub fn leading_zeros(x: u128) -> (r: u32)
    ensures
        is_leading_zeros(x, r),
{
    let mut n: u32 = 0;
    assert(x >> 128u32 == 0) by (bit_vector);
    while n < 128 && (x >> (127 - n)) & 1 == 0
        invariant
            n <= 128,
            x >> (128 - n) == 0,
        decreases 128 - n,
    {
        assert(x >> (128 - (n + 1)) as u32 == 0) by (bit_vector)
            requires
                n < 128,
                x >> (128 - n) as u32 == 0,
                (x >> (127 - n) as u32) & 1 == 0,
        ;
        n = n + 1;
    }
    if n < 128 {
        let b: u128 = (x >> (127 - n)) & 1;
        assert(b != 0 ==> b == 1) by (bit_vector)
            requires
                b == (x >> (127 - n) as u32) & 1,
        ;
    }
    n
}

} // verus!
