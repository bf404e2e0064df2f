//! Types usable as a field of a packed record, and typed access to such fields.
use vstd::prelude::*;

use crate::layout::Layout;
use crate::raw::{OnlyPrimitiveUnsignedIntegersAreAllowedAsBaseTypesForSuperbittyBitfields, Raw};
use crate::width::WidthDescriptor;

verus! {

/// A type that can be used as a field of a packed record: it converts to and from
/// a raw `u128`, and announces the bit range its raw forms occupy.
pub trait BitFieldCompatible: Copy + Sized {
    /// How many low bits every raw form has clear and that are trimmed before storage.
    spec fn spec_shift() -> u32;

    /// How many bits a trimmed raw form needs.
    spec fn spec_bits_len() -> u32;

    /// The raw form of a value.
    spec fn spec_into_raw(self) -> u128;

    /// The raw forms that `from_raw` accepts.
    spec fn spec_decodable(v: u128) -> bool;

    /// The value of an accepted raw form.
    spec fn spec_from_raw(v: u128) -> Self;

    fn shift() -> (r: u32)
        ensures
            r == Self::spec_shift(),
    ;

    fn bits_len() -> (r: u32)
        ensures
            r == Self::spec_bits_len(),
    ;

    /// The raw int representation of a value.
    fn into_raw(self) -> (r: u128)
        ensures
            r == self.spec_into_raw(),
    ;

    /// The value of a raw int representation.
    fn from_raw(v: u128) -> (r: Self)
        requires
            Self::spec_decodable(v),
        ensures
            r == Self::spec_from_raw(v),
    ;

    /// The round-trip contract: a value whose raw form lies in the announced range
    /// is recovered from that raw form.
    proof fn lemma_round_trip(v: Self)
        ensures
            crate::width::in_range(v.spec_into_raw(), WidthDescriptor { shift: Self::spec_shift(), bits_len: Self::spec_bits_len() }) ==> {
                &&& Self::spec_decodable(v.spec_into_raw())
                &&& Self::spec_from_raw(v.spec_into_raw()) == v
            },
    ;
}

/// The width descriptor that `F` announces.
pub open spec fn descriptor_of<F: BitFieldCompatible>() -> WidthDescriptor {
    WidthDescriptor { shift: F::spec_shift(), bits_len: F::spec_bits_len() }
}

/// A value whose raw form lies in the range its type announces, so that it
/// survives being stored in a field.
pub open spec fn storable<F: BitFieldCompatible>(v: F) -> bool {
    crate::width::in_range(v.spec_into_raw(), descriptor_of::<F>())
}

/// States that `T` can be a field of a packed record; every such type keeps the
/// round-trip contract for the values it can store.
pub fn assert_bitfield_compatible<T: BitFieldCompatible>()
    ensures
        forall|v: T|
            #[trigger] storable(v) ==> T::spec_decodable(v.spec_into_raw()) && T::spec_from_raw(
                v.spec_into_raw(),
            ) == v,
{
    proof {
        assert forall|v: T| #[trigger] storable(v) implies T::spec_decodable(v.spec_into_raw())
            && T::spec_from_raw(v.spec_into_raw()) == v by {
            T::lemma_round_trip(v);
        }
    }
}

impl<B: OnlyPrimitiveUnsignedIntegersAreAllowedAsBaseTypesForSuperbittyBitfields> Raw<B> {
    /// Field `i` of `layout` holds values of type `F`.
    pub open spec fn field_has_type<F: BitFieldCompatible>(layout: &Layout, i: int) -> bool {
        &&& 0 <= i < layout.spec_slots().len()
        &&& layout.spec_slots()[i].descriptor() == descriptor_of::<F>()
    }

    /// Reads field `i` as a value of its type.
    pub fn get_value<F: BitFieldCompatible>(self, layout: &Layout, i: usize) -> (r: F)
        requires
            Self::field_has_type::<F>(layout, i as int),
            F::spec_decodable(crate::field::field_get(self.spec_raw(), layout.spec_slots()[i as int])),
        ensures
            r == F::spec_from_raw(crate::field::field_get(self.spec_raw(), layout.spec_slots()[i as int])),
    {
        F::from_raw(self.get(layout, i))
    }

    /// Writes a value of its type into field `i`.
    pub fn set_value<F: BitFieldCompatible>(&mut self, layout: &Layout, i: usize, value: F)
        requires
            Self::fits_layout(layout),
            Self::field_has_type::<F>(layout, i as int),
        ensures
            final(self).spec_raw() == crate::field::field_set(
                old(self).spec_raw(),
                layout.spec_slots()[i as int],
                value.spec_into_raw(),
                layout.spec_width(),
            ),
    {
        self.set(layout, i, value.into_raw());
    }

    /// Round trip at the level of values: after setting a storable value into a
    /// field of its type, the field decodes, and decodes to that value.
    pub proof fn lemma_value_round_trip<F: BitFieldCompatible>(layout: &Layout, raw: u128, i: int, value: F)
        requires
            Self::fits_layout(layout),
            Self::field_has_type::<F>(layout, i),
            storable(value),
        ensures
            ({
                let back = crate::field::field_get(
                    crate::field::field_set(raw, layout.spec_slots()[i], value.spec_into_raw(), layout.spec_width()),
                    layout.spec_slots()[i],
                );
                F::spec_decodable(back) && F::spec_from_raw(back) == value
            }),
    {
        layout.lemma_round_trip(raw, i, value.spec_into_raw());
        F::lemma_round_trip(value);
    }
}

/// A primitive unsigned integer occupying a declared bit range: `SIZE` bits, of
/// which the lowest `OFFSET` are trimmed. The raw form is the widened integer and
/// the value of a raw form is its truncation, so an integer whose bits leave the
/// declared range loses them.
#[derive(Clone, Copy, Debug, PartialEq, Eq)]
pub struct Primitive<T: OnlyPrimitiveUnsignedIntegersAreAllowedAsBaseTypesForSuperbittyBitfields, const SIZE: u32, const OFFSET: u32>(pub T);

impl<
    T: OnlyPrimitiveUnsignedIntegersAreAllowedAsBaseTypesForSuperbittyBitfields,
    const SIZE: u32,
    const OFFSET: u32,
> BitFieldCompatible for Primitive<T, SIZE, OFFSET> {
    open spec fn spec_shift() -> u32 {
        OFFSET
    }

    open spec fn spec_bits_len() -> u32 {
        SIZE
    }

    open spec fn spec_into_raw(self) -> u128 {
        self.0.spec_widen()
    }

    open spec fn spec_decodable(v: u128) -> bool {
        true
    }

    open spec fn spec_from_raw(v: u128) -> Self {
        Primitive(T::spec_truncate(v))
    }

    fn shift() -> (r: u32) {
        OFFSET
    }

    fn bits_len() -> (r: u32) {
        SIZE
    }

    fn into_raw(self) -> (r: u128) {
        self.0.widen()
    }

    fn from_raw(v: u128) -> (r: Self) {
        Primitive(T::truncate(v))
    }

    proof fn lemma_round_trip(v: Self) {
        T::lemma_widen(v.0, v.0);
    }
}

} // verus!
