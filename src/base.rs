//! The closed set of unsigned integer types a packed record can be stored in.
use vstd::prelude::*;

verus! {

/// A primitive unsigned integer type that can hold a packed record.
#[derive(Clone, Copy, Debug, PartialEq, Eq)]
pub enum BaseType {
    U8,
    U16,
    U32,
    U64,
    U128,
    Usize,
}

impl BaseType {
    /// The number of bits of the type.
    pub open spec fn spec_bits(self) -> u32 {
        match self {
            BaseType::U8 => 8,
            BaseType::U16 => 16,
            BaseType::U32 => 32,
            BaseType::U64 => 64,
            BaseType::U128 => 128,
            BaseType::Usize => usize::BITS,
        }
    }

    /// The number of bits of the type.
    pub fn bits(self) -> (r: u32)
        ensures
            r == self.spec_bits(),
            r <= 128,
    {
        match self {
            BaseType::U8 => 8,
            BaseType::U16 => 16,
            BaseType::U32 => 32,
            BaseType::U64 => 64,
            BaseType::U128 => 128,
            BaseType::Usize => usize::BITS,
        }
    }
}

} // verus!
