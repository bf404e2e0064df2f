//! Raw storage of a packed record in one primitive unsigned integer.
use vstd::prelude::*;

use crate::base::BaseType;
use crate::layout::Layout;

verus! {

/// The primitive unsigned integer types a packed record can be stored in. The set
/// is closed: the trait is not reachable from outside the library.
pub trait OnlyPrimitiveUnsignedIntegersAreAllowedAsBaseTypesForSuperbittyBitfields: Copy + Sized {
    /// Which primitive type this is.
    spec fn spec_base() -> BaseType;

    /// The value as a `u128`.
    spec fn spec_widen(self) -> u128;

    /// Lossless widening cast to `u128`.
    fn widen(self) -> (r: u128)
        ensures
            r == self.spec_widen(),
            r & crate::bits::low_mask_spec(Self::spec_base().spec_bits()) == r,
    ;

    /// The truncation of `v` to this type.
    spec fn spec_truncate(v: u128) -> Self;

    /// Truncating cast from `u128`: keeps the type's own number of low bits.
    fn truncate(v: u128) -> (r: Self)
        ensures
            r == Self::spec_truncate(v),
            r.spec_widen() == v & crate::bits::low_mask_spec(Self::spec_base().spec_bits()),
    ;

    /// Widening is lossless: it sets no bit beyond the type's width, truncation
    /// undoes it, and distinct values stay distinct.
    proof fn lemma_widen(a: Self, b: Self)
        ensures
            a.spec_widen() & crate::bits::low_mask_spec(Self::spec_base().spec_bits()) == a.spec_widen(),
            Self::spec_truncate(a.spec_widen()) == a,
            a.spec_widen() == b.spec_widen() ==> a == b,
    ;
}

/// The masks of the primitive widths.
proof fn lemma_low_masks()
    by (bit_vector)
    ensures
        crate::bits::low_mask_spec(8) == 0xffu128,
        crate::bits::low_mask_spec(16) == 0xffffu128,
        crate::bits::low_mask_spec(32) == 0xffff_ffffu128,
        crate::bits::low_mask_spec(64) == 0xffff_ffff_ffff_ffffu128,
        crate::bits::low_mask_spec(128) == u128::MAX,
{
}

/// Masking never gives more than the mask.
proof fn lemma_and_le(v: u128, m: u128)
    by (bit_vector)
    ensures
        v & m <= m,
{
}

/// A value no larger than a low mask is unchanged by it.
proof fn lemma_small_is_masked(x: u128, n: u32)
    by (bit_vector)
    requires
        x <= crate::bits::low_mask_spec(n),
    ensures
        x & crate::bits::low_mask_spec(n) == x,
{
}

impl OnlyPrimitiveUnsignedIntegersAreAllowedAsBaseTypesForSuperbittyBitfields for u8 {
    open spec fn spec_base() -> BaseType {
        BaseType::U8
    }

    open spec fn spec_widen(self) -> u128 {
        self as u128
    }

    open spec fn spec_truncate(v: u128) -> u8 {
        (v & 0xffu128) as u8
    }

    fn widen(self) -> (r: u128) {
        proof {
            lemma_low_masks();
            lemma_small_is_masked(self as u128, BaseType::U8.spec_bits());
        }
        self as u128
    }

    fn truncate(v: u128) -> (r: u8) {
        proof {
            lemma_low_masks();
            lemma_and_le(v, 0xffu128);
        }
        (v & 0xffu128) as u8
    }

    proof fn lemma_widen(a: u8, b: u8) {
        lemma_low_masks();
        lemma_small_is_masked(a as u128, BaseType::U8.spec_bits());
    }
}

impl OnlyPrimitiveUnsignedIntegersAreAllowedAsBaseTypesForSuperbittyBitfields for u16 {
    open spec fn spec_base() -> BaseType {
        BaseType::U16
    }

    open spec fn spec_widen(self) -> u128 {
        self as u128
    }

    open spec fn spec_truncate(v: u128) -> u16 {
        (v & 0xffffu128) as u16
    }

    fn widen(self) -> (r: u128) {
        proof {
            lemma_low_masks();
            lemma_small_is_masked(self as u128, BaseType::U16.spec_bits());
        }
        self as u128
    }

    fn truncate(v: u128) -> (r: u16) {
        proof {
            lemma_low_masks();
            lemma_and_le(v, 0xffffu128);
        }
        (v & 0xffffu128) as u16
    }

    proof fn lemma_widen(a: u16, b: u16) {
        lemma_low_masks();
        lemma_small_is_masked(a as u128, BaseType::U16.spec_bits());
    }
}

impl OnlyPrimitiveUnsignedIntegersAreAllowedAsBaseTypesForSuperbittyBitfields for u32 {
    open spec fn spec_base() -> BaseType {
        BaseType::U32
    }

    open spec fn spec_widen(self) -> u128 {
        self as u128
    }

    open spec fn spec_truncate(v: u128) -> u32 {
        (v & 0xffff_ffffu128) as u32
    }

    fn widen(self) -> (r: u128) {
        proof {
            lemma_low_masks();
            lemma_small_is_masked(self as u128, BaseType::U32.spec_bits());
        }
        self as u128
    }

    fn truncate(v: u128) -> (r: u32) {
        proof {
            lemma_low_masks();
            lemma_and_le(v, 0xffff_ffffu128);
        }
        (v & 0xffff_ffffu128) as u32
    }

    proof fn lemma_widen(a: u32, b: u32) {
        lemma_low_masks();
        lemma_small_is_masked(a as u128, BaseType::U32.spec_bits());
    }
}

impl OnlyPrimitiveUnsignedIntegersAreAllowedAsBaseTypesForSuperbittyBitfields for u64 {
    open spec fn spec_base() -> BaseType {
        BaseType::U64
    }

    open spec fn spec_widen(self) -> u128 {
        self as u128
    }

    open spec fn spec_truncate(v: u128) -> u64 {
        (v & 0xffff_ffff_ffff_ffffu128) as u64
    }

    fn widen(self) -> (r: u128) {
        proof {
            lemma_low_masks();
            lemma_small_is_masked(self as u128, BaseType::U64.spec_bits());
        }
        self as u128
    }

    fn truncate(v: u128) -> (r: u64) {
        proof {
            lemma_low_masks();
            lemma_and_le(v, 0xffff_ffff_ffff_ffffu128);
        }
        (v & 0xffff_ffff_ffff_ffffu128) as u64
    }

    proof fn lemma_widen(a: u64, b: u64) {
        lemma_low_masks();
        lemma_small_is_masked(a as u128, BaseType::U64.spec_bits());
    }
}

impl OnlyPrimitiveUnsignedIntegersAreAllowedAsBaseTypesForSuperbittyBitfields for u128 {
    open spec fn spec_base() -> BaseType {
        BaseType::U128
    }

    open spec fn spec_widen(self) -> u128 {
        self as u128
    }

    open spec fn spec_truncate(v: u128) -> u128 {
        v
    }

    fn widen(self) -> (r: u128) {
        proof {
            lemma_low_masks();
            lemma_small_is_masked(self as u128, BaseType::U128.spec_bits());
        }
        self as u128
    }

    fn truncate(v: u128) -> (r: u128) {
        proof {
            lemma_low_masks();
            lemma_small_is_masked(v, 128);
        }
        v
    }

    proof fn lemma_widen(a: u128, b: u128) {
        lemma_low_masks();
        lemma_small_is_masked(a as u128, BaseType::U128.spec_bits());
    }
}

impl OnlyPrimitiveUnsignedIntegersAreAllowedAsBaseTypesForSuperbittyBitfields for usize {
    open spec fn spec_base() -> BaseType {
        BaseType::Usize
    }

    open spec fn spec_widen(self) -> u128 {
        self as u128
    }

    open spec fn spec_truncate(v: u128) -> usize {
        (v & crate::bits::low_mask_spec(usize::BITS)) as usize
    }

    fn widen(self) -> (r: u128) {
        proof {
            lemma_low_masks();
            lemma_small_is_masked(self as u128, BaseType::Usize.spec_bits());
        }
        self as u128
    }

    fn truncate(v: u128) -> (r: usize) {
        let m = crate::bits::low_mask(usize::BITS);
        proof {
            lemma_low_masks();
            lemma_and_le(v, m);
        }
        (v & m) as usize
    }

    proof fn lemma_widen(a: usize, b: usize) {
        lemma_low_masks();
        lemma_small_is_masked(a as u128, BaseType::Usize.spec_bits());
    }
}

/// Truncating twice to the same width is truncating once.
proof fn lemma_truncate_twice(y: u128, w: u32)
    ensures
        (y & crate::bits::low_mask_spec(w)) & crate::bits::low_mask_spec(w) == y & crate::bits::low_mask_spec(w),
{
    assert((y & crate::bits::low_mask_spec(w)) & crate::bits::low_mask_spec(w) == y & crate::bits::low_mask_spec(w)) by (bit_vector);
}

/// The raw integer of a packed record with base type `T`. It is only built and
/// changed by the record operations below, which keep every field holding a value
/// of its domain.
#[derive(Clone, Copy, Debug, PartialEq, Eq)]
pub struct Raw<T: OnlyPrimitiveUnsignedIntegersAreAllowedAsBaseTypesForSuperbittyBitfields>(T);

impl<T: OnlyPrimitiveUnsignedIntegersAreAllowedAsBaseTypesForSuperbittyBitfields> Raw<T> {
    /// The stored integer, widened to `u128`.
    pub closed spec fn spec_raw(self) -> u128 {
        self.0.spec_widen()
    }

    /// A layout that describes records stored in `T`.
    pub open spec fn fits_layout(layout: &Layout) -> bool {
        layout.wf() && layout.spec_width() == T::spec_base().spec_bits()
    }

    /// Builds a record from the raw forms of one value per field, in declaration order.
    pub fn new(layout: &Layout, values: &Vec<u128>) -> (r: Self)
        requires
            Self::fits_layout(layout),
            values@.len() == layout.spec_slots().len(),
        ensures
            r.spec_raw() == crate::layout::packed(layout.spec_slots(), values@, values@.len() as int) & crate::bits::low_mask_spec(
                layout.spec_width(),
            ),
            (forall|k: int|
                0 <= k < values@.len() ==> crate::width::in_range(
                    #[trigger] values@[k],
                    layout.spec_slots()[k].descriptor(),
                )) ==> layout.spec_valid(r.spec_raw()) && layout.spec_fields(r.spec_raw()) == values@,
    {
        let v = layout.construct(values);
        proof {
            if forall|k: int|
                0 <= k < values@.len() ==> crate::width::in_range(
                    #[trigger] values@[k],
                    layout.spec_slots()[k].descriptor(),
                ) {
                layout.lemma_construct_get(values@);
            }
            lemma_truncate_twice(crate::layout::packed(layout.spec_slots(), values@, values@.len() as int), layout.spec_width());
        }
        Raw(T::truncate(v))
    }

    /// The raw value of this record.
    pub fn raw(self) -> (r: T)
        ensures
            r.spec_widen() == self.spec_raw(),
    {
        self.0
    }

    /// Reads field `i` back into its domain's raw form.
    pub fn get(self, layout: &Layout, i: usize) -> (r: u128)
        requires
            i < layout.spec_slots().len(),
        ensures
            r == crate::field::field_get(self.spec_raw(), layout.spec_slots()[i as int]),
    {
        layout.get(self.0.widen(), i)
    }

    /// Writes the raw form `v` of a value into field `i`.
    pub fn set(&mut self, layout: &Layout, i: usize, v: u128)
        requires
            Self::fits_layout(layout),
            i < layout.spec_slots().len(),
        ensures
            final(self).spec_raw() == crate::field::field_set(
                old(self).spec_raw(),
                layout.spec_slots()[i as int],
                v,
                layout.spec_width(),
            ),
            crate::width::in_range(v, layout.spec_slots()[i as int].descriptor()) ==> {
                &&& layout.spec_fields(final(self).spec_raw())[i as int] == v
                &&& forall|j: int|
                    0 <= j < layout.spec_slots().len() && j != i ==> layout.spec_fields(
                        final(self).spec_raw(),
                    )[j] == #[trigger] layout.spec_fields(old(self).spec_raw())[j]
                &&& layout.spec_valid(old(self).spec_raw()) ==> layout.spec_valid(
                    final(self).spec_raw(),
                )
            },
    {
        let mut x = self.0.widen();
        layout.set(&mut x, i, v);
        proof {
            let f = layout.spec_slots()[i as int];
            let y = (old(self).spec_raw() & !(crate::bits::low_mask_spec(f.bits_len) << f.offset)) | crate::field::field_place(v, f);
            lemma_truncate_twice(y, layout.spec_width());
            if crate::width::in_range(v, f.descriptor()) {
                let r0 = old(self).spec_raw();
                layout.lemma_round_trip(r0, i as int, v);
                if layout.spec_valid(r0) {
                    layout.lemma_set_keeps_valid(r0, i as int, v);
                }
                assert forall|j: int|
                    0 <= j < layout.spec_slots().len() && j != i implies layout.spec_fields(x)[j]
                    == #[trigger] layout.spec_fields(r0)[j] by {
                    layout.lemma_independence(r0, i as int, j, v);
                }
            }
        }
        self.0 = T::truncate(x);
    }

    /// Field-wise equality with `other`.
    pub fn eq_fields(self, layout: &Layout, other: Self) -> (r: bool)
        ensures
            r == (layout.spec_fields(self.spec_raw()) == layout.spec_fields(other.spec_raw())),
    {
        layout.fields_eq(self.0.widen(), other.0.widen())
    }

    /// Field-wise lexicographic comparison with `other`, in declaration order.
    pub fn cmp_fields(self, layout: &Layout, other: Self) -> (r: core::cmp::Ordering)
        ensures
            r == crate::layout::lex_cmp(layout.spec_fields(self.spec_raw()), layout.spec_fields(other.spec_raw())),
    {
        layout.fields_cmp(self.0.widen(), other.0.widen())
    }

    /// Equality of raw records is field-wise equality: two valid records are equal
    /// exactly when every field reads the same value.
    pub proof fn lemma_eq_iff_fields_eq(layout: &Layout, a: Self, b: Self)
        requires
            Raw::<T>::fits_layout(layout),
            layout.spec_valid(a.spec_raw()),
            layout.spec_valid(b.spec_raw()),
        ensures
            (a == b) <==> (layout.spec_fields(a.spec_raw()) == layout.spec_fields(b.spec_raw())),
    {
        if layout.spec_fields(a.spec_raw()) == layout.spec_fields(b.spec_raw()) {
            layout.lemma_fields_determine_raw(a.spec_raw(), b.spec_raw());
            T::lemma_widen(a.0, b.0);
        }
    }
}

} // verus!
