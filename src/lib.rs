//! Bit-packed records: several small-domain values stored side by side in one
//! unsigned integer, with lossless per-field accessors.
//!
//! A value domain is analyzed into a width descriptor ([`domain`], [`wrapper`]);
//! the descriptors of a record's fields are composed into a field table
//! ([`layout`]); a record is a [`Raw`] integer read and written through that table.
pub mod base;
pub mod bits;
pub mod compat;
pub mod definition;
pub mod domain;
pub mod field;
pub mod layout;
mod raw;
pub mod width;
pub mod wrapper;

pub use crate::base::BaseType;
pub use crate::compat::{assert_bitfield_compatible, BitFieldCompatible, Primitive};
pub use crate::definition::{
    analyze_declaration, define_record, Attribute, Declaration, DeclarationError, Derive, FieldDomain, RecordDefinition,
    RecordError,
};
pub use crate::domain::{DomainError, Member, Tag, TagDomain};
pub use crate::field::FieldSlot;
pub use crate::layout::{CompositionError, Layout};
pub use crate::raw::Raw;
pub use crate::width::{width_of_mask, WidthDescriptor};
pub use crate::wrapper::{raw_field, range_properties, wrapper_domain, OptionKey, RangeOption, WrapperDomain, WrapperError};
