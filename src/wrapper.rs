//! Primitive-wrapper domains: one primitive unsigned integer with a declared bit
//! range, in place of a range derived from tags.
use vstd::prelude::*;

use crate::base::BaseType;
use crate::width::WidthDescriptor;

verus! {

/// The name of a range option.
#[derive(Clone, Copy, Debug, PartialEq, Eq)]
pub enum OptionKey {
    Size,
    Offset,
    Unknown,
}

/// One `name = value` range option; `value` is `None` when it is not an integer.
#[derive(Clone, Copy, Debug, PartialEq, Eq)]
pub struct RangeOption {
    pub key: OptionKey,
    pub value: Option<u32>,
}

/// Why a primitive-wrapper declaration is rejected; the index names the option.
#[derive(Clone, Copy, Debug, PartialEq, Eq)]
pub enum WrapperError {
    MissingRange,
    Malformed(usize),
    UnknownOption(usize),
    DuplicateOption(usize),
    MissingSize,
    NoField,
    TooManyFields,
    NotPrimitive,
}

/// Declared size, declared offset and errors after the first `n` options; a
/// repeated option is reported and its later value kept.
pub open spec fn options_state(opts: Seq<RangeOption>, n: int) -> (Option<u32>, Option<u32>, Seq<WrapperError>)
    decreases n,
{
    if n <= 0 {
        (None, None, Seq::empty())
    } else {
        let (size, offset, errs) = options_state(opts, n - 1);
        let i = (n - 1) as usize;
        match opts[n - 1].value {
            None => (size, offset, errs.push(WrapperError::Malformed(i))),
            Some(v) => match opts[n - 1].key {
                OptionKey::Size => (
                    Some(v),
                    offset,
                    if size is Some {
                        errs.push(WrapperError::DuplicateOption(i))
                    } else {
                        errs
                    },
                ),
                OptionKey::Offset => (
                    size,
                    Some(v),
                    if offset is Some {
                        errs.push(WrapperError::DuplicateOption(i))
                    } else {
                        errs
                    },
                ),
                OptionKey::Unknown => (size, offset, errs.push(WrapperError::UnknownOption(i))),
            },
        }
    }
}

/// All errors of a range declaration: those of the options, then a missing size.
pub open spec fn range_errors(opts: Seq<RangeOption>) -> Seq<WrapperError> {
    let (size, _, errs) = options_state(opts, opts.len() as int);
    if size is None {
        errs.push(WrapperError::MissingSize)
    } else {
        errs
    }
}

/// The declared range: `size` bits, `offset` (zero when not given) trimmed.
pub open spec fn declared_range(opts: Seq<RangeOption>) -> WidthDescriptor {
    let (size, offset, _) = options_state(opts, opts.len() as int);
    WidthDescriptor {
        shift: match offset {
            Some(o) => o,
            None => 0,
        },
        bits_len: match size {
            Some(s) => s,
            None => 0,
        },
    }
}

/// Reads a range declaration: the mandatory `size` and the optional `offset`. All
/// violations are reported together.
pub fn range_properties(opts: &Vec<RangeOption>) -> (r: Result<WidthDescriptor, Vec<WrapperError>>)
    ensures
        match r {
            Ok(w) => range_errors(opts@).len() == 0 && w == declared_range(opts@),
            Err(e) => e@ == range_errors(opts@) && e@.len() > 0,
        },
{
    let mut size: Option<u32> = None;
    let mut offset: Option<u32> = None;
    let mut errors: Vec<WrapperError> = Vec::new();
    let mut i: usize = 0;
    while i < opts.len()
        invariant
            i <= opts@.len(),
            (size, offset, errors@) == options_state(opts@, i as int),
        decreases opts@.len() - i,
    {
        let o = opts[i];
        match o.value {
            None => {
                errors.push(WrapperError::Malformed(i));
            },
            Some(v) => match o.key {
                OptionKey::Size => {
                    if size.is_some() {
                        errors.push(WrapperError::DuplicateOption(i));
                    }
                    size = Some(v);
                },
                OptionKey::Offset => {
                    if offset.is_some() {
                        errors.push(WrapperError::DuplicateOption(i));
                    }
                    offset = Some(v);
                },
                OptionKey::Unknown => {
                    errors.push(WrapperError::UnknownOption(i));
                },
            },
        }
        i = i + 1;
    }
    if size.is_none() {
        errors.push(WrapperError::MissingSize);
    }
    if errors.len() > 0 {
        return Err(errors);
    }
    let shift = match offset {
        Some(o) => o,
        None => 0,
    };
    let bits_len = match size {
        Some(s) => s,
        None => 0,
    };
    Ok(WidthDescriptor { shift, bits_len })
}

/// The single wrapped field's type: exactly one field, of a primitive unsigned
/// integer type (`None` stands for any other type).
pub fn raw_field(fields: &Vec<Option<BaseType>>) -> (r: Result<BaseType, WrapperError>)
    ensures
        fields@.len() == 0 ==> r == Err::<BaseType, WrapperError>(WrapperError::NoField),
        fields@.len() > 1 ==> r == Err::<BaseType, WrapperError>(WrapperError::TooManyFields),
        fields@.len() == 1 ==> match fields@[0] {
            Some(b) => r == Ok::<BaseType, WrapperError>(b),
            None => r == Err::<BaseType, WrapperError>(WrapperError::NotPrimitive),
        },
{
    if fields.len() == 0 {
        return Err(WrapperError::NoField);
    }
    if fields.len() > 1 {
        return Err(WrapperError::TooManyFields);
    }
    match fields[0] {
        Some(b) => Ok(b),
        None => Err(WrapperError::NotPrimitive),
    }
}

/// A primitive-wrapper domain: the wrapped type and the declared range.
#[derive(Clone, Copy, Debug, PartialEq, Eq)]
pub struct WrapperDomain {
    pub base: BaseType,
    pub width: WidthDescriptor,
}

/// All errors of a primitive-wrapper declaration: a missing range declaration; else
/// the errors of the range declaration; else the error of the fields.
pub open spec fn wrapper_errors(range: Option<Vec<RangeOption>>, fields: Seq<Option<BaseType>>) -> Seq<WrapperError> {
    match range {
        None => seq![WrapperError::MissingRange],
        Some(opts) => if range_errors(opts@).len() > 0 {
            range_errors(opts@)
        } else {
            match raw_field_error(fields) {
                Some(e) => seq![e],
                None => Seq::empty(),
            }
        },
    }
}

/// The domain an accepted primitive-wrapper declaration makes.
pub open spec fn wrapper_of(range: Option<Vec<RangeOption>>, fields: Seq<Option<BaseType>>) -> WrapperDomain {
    WrapperDomain {
        base: fields[0]->Some_0,
        width: match range {
            Some(opts) => declared_range(opts@),
            None => WidthDescriptor { shift: 0, bits_len: 0 },
        },
    }
}

/// Validates a primitive-wrapper declaration: its range declaration (`None` when
/// absent), then its fields.
pub fn wrapper_domain(range: &Option<Vec<RangeOption>>, fields: &Vec<Option<BaseType>>) -> (r: Result<
    WrapperDomain,
    Vec<WrapperError>,
>)
    ensures
        match r {
            Ok(w) => wrapper_errors(*range, fields@).len() == 0 && w == wrapper_of(*range, fields@),
            Err(e) => e@ == wrapper_errors(*range, fields@) && e@.len() > 0,
        },
{
    match range {
        None => {
            let mut e: Vec<WrapperError> = Vec::new();
            e.push(WrapperError::MissingRange);
            proof {
                assert(e@ =~= seq![WrapperError::MissingRange]);
            }
            Err(e)
        },
        Some(opts) => {
            let width = match range_properties(opts) {
                Ok(w) => w,
                Err(e) => {
                    return Err(e);
                },
            };
            match raw_field(fields) {
                Ok(base) => Ok(WrapperDomain { base, width }),
                Err(x) => {
                    let mut e: Vec<WrapperError> = Vec::new();
                    e.push(x);
                    proof {
                        assert(e@ =~= seq![x]);
                    }
                    Err(e)
                },
            }
        },
    }
}

/// The error that the wrapped fields give, if any.
pub open spec fn raw_field_error(fields: Seq<Option<BaseType>>) -> Option<WrapperError> {
    if fields.len() == 0 {
        Some(WrapperError::NoField)
    } else if fields.len() > 1 {
        Some(WrapperError::TooManyFields)
    } else if fields[0] is None {
        Some(WrapperError::NotPrimitive)
    } else {
        None
    }
}

} // verus!
