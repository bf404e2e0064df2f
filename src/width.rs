//! Width descriptors: how many low-order bits a domain trims, and how many it keeps.
use vstd::prelude::*;

use crate::bits::{leading_zeros, trailing_zeros};

verus! {

/// The bit range that a value domain occupies inside its raw `u128` form:
/// `bits_len` bits, starting `shift` bits above bit zero.
#[derive(Clone, Copy, Debug, PartialEq, Eq)]
pub struct WidthDescriptor {
    pub shift: u32,
    pub bits_len: u32,
}

/// `w` is the width descriptor derived from the OR of all tags of a domain:
/// trailing zeros as shift, the span between lowest and highest set bit as length,
/// and both zero when no bit is set.
pub open spec fn describes_mask(w: WidthDescriptor, mask: u128) -> bool {
    if mask == 0 {
        w.shift == 0 && w.bits_len == 0
    } else {
        &&& crate::bits::is_trailing_zeros(mask, w.shift)
        &&& w.shift + w.bits_len <= 128
        &&& crate::bits::is_leading_zeros(mask, (128 - w.shift - w.bits_len) as u32)
    }
}

/// `v` survives trimming to the range of `w` and placing back: the round-trip
/// condition `((v >> shift) & MASK) << shift == v`.
pub open spec fn in_range(v: u128, w: WidthDescriptor) -> bool {
    ((v >> w.shift) & crate::bits::low_mask_spec(w.bits_len)) << w.shift == v
}

/// Derives the width descriptor of a domain from the OR of its tags.
pub fn width_of_mask(mask: u128) -> (r: WidthDescriptor)
    ensures
        describes_mask(r, mask),
{
    if mask == 0 {
        WidthDescriptor { shift: 0, bits_len: 0 }
    } else {
        let tz = trailing_zeros(mask);
        let lz = leading_zeros(mask);
        proof {
            lemma_zeros_sum(mask, tz, lz);
        }
        WidthDescriptor { shift: tz, bits_len: 128 - tz - lz }
    }
}

proof fn lemma_zeros_sum(mask: u128, tz: u32, lz: u32)
    requires
        mask != 0,
        crate::bits::is_trailing_zeros(mask, tz),
        crate::bits::is_leading_zeros(mask, lz),
    ensures
        tz + lz < 128,
{
    assert(tz + lz < 128) by (bit_vector)
        requires
            mask != 0,
            tz <= 128,
            lz <= 128,
            (mask >> tz) << tz == mask,
            mask >> (128 - lz) as u32 == 0,
            tz < 128 ==> (mask >> tz) & 1 == 1,
            lz < 128 ==> (mask >> (127 - lz) as u32) & 1 == 1,
    ;
}

/// Every value whose set bits all belong to `mask` lies in the range that
/// `mask`'s width descriptor announces: trimming the shared trailing zeros loses
/// nothing.
pub proof fn lemma_submask_in_range(t: u128, mask: u128, w: WidthDescriptor)
    requires
        describes_mask(w, mask),
        t & mask == t,
    ensures
        in_range(t, w),
{
    let s = w.shift;
    let len = w.bits_len;
    if mask == 0 {
        assert(t & 0 == 0) by (bit_vector);
        assert(((0u128 >> 0u32) & crate::bits::low_mask_spec(0)) << 0u32 == 0) by (bit_vector);
    } else {
        let lz = (128 - s - len) as u32;
        let top = (s + len) as u32;
        assert((t >> s) << s == t) by (bit_vector)
            requires
                t & mask == t,
                (mask >> s) << s == mask,
        ;
        assert(t >> top == 0) by (bit_vector)
            requires
                t & mask == t,
                mask >> top == 0,
        ;
        let u = t >> s;
        assert(u >> len == 0) by (bit_vector)
            requires
                u == t >> s,
                t >> top == 0,
                top == s + len,
                top <= 128,
        ;
        assert(u & crate::bits::low_mask_spec(len) == u) by (bit_vector)
            requires
                u >> len == 0,
        ;
    }
}

} // verus!
