//! Definition-time checks of whole declarations: which kind of domain a declaration
//! makes, and whether a record definition is accepted.
use vstd::prelude::*;

use crate::base::BaseType;
use crate::domain::{DomainError, Member, TagDomain};
use crate::layout::{CompositionError, Layout};
use crate::wrapper::{wrapper_domain, RangeOption, WrapperDomain, WrapperError};
use crate::width::WidthDescriptor;

verus! {

/// A declaration of a value domain.
pub enum Declaration {
    /// An enumeration of members with tags.
    Enum(Vec<Member>),
    /// A struct wrapping one primitive integer, with its range declaration (`None`
    /// when absent) and the type of each of its fields (`None` for a type that is
    /// not a primitive unsigned integer).
    Struct { range: Option<Vec<RangeOption>>, fields: Vec<Option<BaseType>> },
    /// A union, which cannot be a domain.
    Union,
}

/// Why a domain declaration is rejected.
#[derive(Debug, PartialEq, Eq)]
pub enum DeclarationError {
    Domain(Vec<DomainError>),
    Wrapper(Vec<WrapperError>),
    Union,
}

/// A validated value domain of either kind.
pub enum FieldDomain {
    Tags(TagDomain),
    Wrapper(WrapperDomain),
}

impl FieldDomain {
    /// The width descriptor of the domain.
    pub open spec fn spec_width(&self) -> WidthDescriptor {
        match self {
            FieldDomain::Tags(d) => d.spec_width(),
            FieldDomain::Wrapper(w) => w.width,
        }
    }

    /// The width descriptor of the domain.
    pub fn width(&self) -> (r: WidthDescriptor)
        ensures
            r == self.spec_width(),
    {
        match self {
            FieldDomain::Tags(d) => d.width(),
            FieldDomain::Wrapper(w) => w.width,
        }
    }
}

/// Validates a domain declaration and derives or reads its width descriptor.
pub fn analyze_declaration(decl: &Declaration) -> (r: Result<FieldDomain, DeclarationError>)
    ensures
        match decl {
            Declaration::Enum(ms) => match r {
                Ok(FieldDomain::Tags(d)) => crate::domain::domain_errors(ms@).len() == 0 && d.wf() && d.spec_tags()
                    == crate::domain::resolved_tags(ms@),
                Err(DeclarationError::Domain(e)) => e@ == crate::domain::domain_errors(ms@) && e@.len() > 0,
                _ => false,
            },
            Declaration::Struct { range, fields } => match r {
                Ok(FieldDomain::Wrapper(w)) => crate::wrapper::wrapper_errors(*range, fields@).len() == 0
                    && w == crate::wrapper::wrapper_of(*range, fields@),
                Err(DeclarationError::Wrapper(e)) => e@ == crate::wrapper::wrapper_errors(*range, fields@)
                    && e@.len() > 0,
                _ => false,
            },
            Declaration::Union => r matches Err(DeclarationError::Union),
        },
{
    match decl {
        Declaration::Enum(ms) => match TagDomain::analyze(ms) {
            Ok(d) => Ok(FieldDomain::Tags(d)),
            Err(e) => Err(DeclarationError::Domain(e)),
        },
        Declaration::Struct { range, fields } => match wrapper_domain(range, fields) {
            Ok(w) => Ok(FieldDomain::Wrapper(w)),
            Err(e) => Err(DeclarationError::Wrapper(e)),
        },
        Declaration::Union => Err(DeclarationError::Union),
    }
}

/// A standard trait that a record definition may request.
#[derive(Clone, Copy, Debug, PartialEq, Eq)]
pub enum Derive {
    Debug,
    Clone,
    Copy,
    Default,
    PartialEq,
    Eq,
    PartialOrd,
    Ord,
    Hash,
}

/// An attribute on a record definition.
pub enum Attribute {
    /// Documentation.
    Doc,
    /// A list of requested traits; `None` stands for a name outside [`Derive`].
    Derive(Vec<Option<Derive>>),
    /// A derive attribute whose list could not be read; it is kept for the compiler.
    MalformedDerive,
    /// Anything else, which is not allowed.
    Other,
}

/// Why a record definition is rejected.
#[derive(Debug, PartialEq, Eq)]
pub enum RecordError {
    /// The positions of attributes other than documentation and derives.
    InvalidAttributes(Vec<usize>),
    /// Each unknown derive, as (attribute position, position in its list).
    UnknownDerives(Vec<(usize, usize)>),
    Composition(Vec<CompositionError>),
}

/// An accepted record definition: its field table and its requested traits.
pub struct RecordDefinition {
    pub layout: Layout,
    pub derives: Vec<Derive>,
}

/// Positions of the attributes among the first `n` that are not allowed.
pub open spec fn invalid_attributes(attrs: Seq<Attribute>, n: int) -> Seq<usize>
    decreases n,
{
    if n <= 0 {
        Seq::empty()
    } else if attrs[n - 1] is Other {
        invalid_attributes(attrs, n - 1).push((n - 1) as usize)
    } else {
        invalid_attributes(attrs, n - 1)
    }
}

/// The known traits among the first `m` entries of a derive list.
pub open spec fn known_in(list: Seq<Option<Derive>>, m: int) -> Seq<Derive>
    decreases m,
{
    if m <= 0 {
        Seq::empty()
    } else {
        match list[m - 1] {
            Some(d) => known_in(list, m - 1).push(d),
            None => known_in(list, m - 1),
        }
    }
}

/// The unknown entries among the first `m` of the derive list of attribute `a`.
pub open spec fn unknown_in(a: usize, list: Seq<Option<Derive>>, m: int) -> Seq<(usize, usize)>
    decreases m,
{
    if m <= 0 {
        Seq::empty()
    } else {
        match list[m - 1] {
            Some(_) => unknown_in(a, list, m - 1),
            None => unknown_in(a, list, m - 1).push((a, (m - 1) as usize)),
        }
    }
}

/// The derive list of an attribute (empty for other kinds).
pub open spec fn derive_list(attr: Attribute) -> Seq<Option<Derive>> {
    match attr {
        Attribute::Derive(l) => l@,
        _ => Seq::empty(),
    }
}

/// The requested traits of the first `n` attributes, in order.
pub open spec fn requested(attrs: Seq<Attribute>, n: int) -> Seq<Derive>
    decreases n,
{
    if n <= 0 {
        Seq::empty()
    } else {
        let l = derive_list(attrs[n - 1]);
        requested(attrs, n - 1) + known_in(l, l.len() as int)
    }
}

/// The unknown derives of the first `n` attributes, in order.
pub open spec fn unknown_derives(attrs: Seq<Attribute>, n: int) -> Seq<(usize, usize)>
    decreases n,
{
    if n <= 0 {
        Seq::empty()
    } else {
        let l = derive_list(attrs[n - 1]);
        unknown_derives(attrs, n - 1) + unknown_in((n - 1) as usize, l, l.len() as int)
    }
}

/// Checks a record definition in stages: its attributes, then its derive lists,
/// then the composition of its fields over `base`. Each stage reports all its
/// violations together, and a failing stage stops the check.
pub fn define_record(attrs: &Vec<Attribute>, widths: &Vec<WidthDescriptor>, base: BaseType) -> (r: Result<
    RecordDefinition,
    RecordError,
>)
    ensures
        ({
            let bad = invalid_attributes(attrs@, attrs@.len() as int);
            let unknown = unknown_derives(attrs@, attrs@.len() as int);
            let comp = crate::layout::composition_errors(widths@, base.spec_bits());
            if bad.len() > 0 {
                r matches Err(RecordError::InvalidAttributes(e)) && e@ == bad
            } else if unknown.len() > 0 {
                r matches Err(RecordError::UnknownDerives(e)) && e@ == unknown
            } else if comp.len() > 0 {
                r matches Err(RecordError::Composition(e)) && e@ == comp
            } else {
                r matches Ok(d) && {
                    &&& d.layout.wf()
                    &&& d.layout.spec_width() == base.spec_bits()
                    &&& crate::layout::slot_descriptors(d.layout.spec_slots()) == widths@
                    &&& d.derives@ == requested(attrs@, attrs@.len() as int)
                }
            }
        }),
{
    let n = attrs.len();
    let mut bad: Vec<usize> = Vec::new();
    let mut i: usize = 0;
    while i < n
        invariant
            n == attrs@.len(),
            i <= n,
            bad@ == invalid_attributes(attrs@, i as int),
        decreases n - i,
    {
        if let Attribute::Other = &attrs[i] {
            bad.push(i);
        }
        i = i + 1;
    }
    if bad.len() > 0 {
        return Err(RecordError::InvalidAttributes(bad));
    }
    let mut derives: Vec<Derive> = Vec::new();
    let mut unknown: Vec<(usize, usize)> = Vec::new();
    i = 0;
    while i < n
        invariant
            n == attrs@.len(),
            i <= n,
            derives@ == requested(attrs@, i as int),
            unknown@ == unknown_derives(attrs@, i as int),
        decreases n - i,
    {
        if let Attribute::Derive(list) = &attrs[i] {
            let ghost d0 = derives@;
            let ghost u0 = unknown@;
            let mut j: usize = 0;
            while j < list.len()
                invariant
                    j <= list@.len(),
                    derive_list(attrs@[i as int]) == list@,
                    derives@ == d0 + known_in(list@, j as int),
                    unknown@ == u0 + unknown_in(i, list@, j as int),
                decreases list@.len() - j,
            {
                match list[j] {
                    Some(d) => {
                        derives.push(d);
                    },
                    None => {
                        unknown.push((i, j));
                    },
                }
                j = j + 1;
                proof {
                    assert(derives@ =~= d0 + known_in(list@, j as int));
                    assert(unknown@ =~= u0 + unknown_in(i, list@, j as int));
                }
            }
        } else {
            proof {
                assert(derive_list(attrs@[i as int]) =~= Seq::<Option<Derive>>::empty());
                assert(derives@ =~= requested(attrs@, i + 1));
                assert(unknown@ =~= unknown_derives(attrs@, i + 1));
            }
        }
        i = i + 1;
    }
    if unknown.len() > 0 {
        return Err(RecordError::UnknownDerives(unknown));
    }
    match Layout::compose(widths, base) {
        Ok(layout) => Ok(RecordDefinition { layout, derives }),
        Err(e) => Err(RecordError::Composition(e)),
    }
}

/// Round trip for a tag-derived field: storing a member's tag into a field of its
/// domain and reading the field back gives that tag, and the member is the only
/// one with that tag.
pub proof fn lemma_member_round_trip(domain: &TagDomain, layout: &Layout, raw: u128, i: int, m: int)
    requires
        domain.wf(),
        layout.wf(),
        0 <= i < layout.spec_slots().len(),
        layout.spec_slots()[i].descriptor() == domain.spec_width(),
        0 <= m < domain.spec_tags().len(),
    ensures
        ({
            let slot = layout.spec_slots()[i];
            let back = crate::field::field_get(crate::field::field_set(raw, slot, domain.spec_tags()[m], layout.spec_width()), slot);
            &&& back == domain.spec_tags()[m]
            &&& forall|k: int| 0 <= k < domain.spec_tags().len() && domain.spec_tags()[k] == back ==> k == m
        }),
{
    domain.lemma_tags_in_range();
    assert(crate::width::in_range(domain.spec_tags()[m], domain.spec_width()));
    layout.lemma_round_trip(raw, i, domain.spec_tags()[m]);
    assert(crate::domain::unique_tags(domain.spec_tags()));
}

/// Lexicographic comparison from position `i` is `Equal` exactly when the two
/// sequences agree from `i` on.
proof fn lemma_lex_equal_from(a: Seq<u128>, b: Seq<u128>, i: int)
    requires
        a.len() == b.len(),
        0 <= i <= a.len(),
    ensures
        (crate::layout::lex_cmp_from(a, b, i) == core::cmp::Ordering::Equal) <==> (forall|k: int| i <= k < a.len() ==> a[k] == b[k]),
    decreases a.len() - i,
{
    if i < a.len() {
        lemma_lex_equal_from(a, b, i + 1);
    }
}

/// Lexicographic comparison with the operands swapped gives the reverse order.
proof fn lemma_lex_reverse_from(a: Seq<u128>, b: Seq<u128>, i: int)
    requires
        a.len() == b.len(),
        0 <= i <= a.len(),
    ensures
        crate::layout::lex_cmp_from(b, a, i) == match crate::layout::lex_cmp_from(a, b, i) {
            core::cmp::Ordering::Less => core::cmp::Ordering::Greater,
            core::cmp::Ordering::Equal => core::cmp::Ordering::Equal,
            core::cmp::Ordering::Greater => core::cmp::Ordering::Less,
        },
    decreases a.len() - i,
{
    if i < a.len() {
        lemma_lex_reverse_from(a, b, i + 1);
    }
}

/// The derived comparisons agree with each other: comparing two records gives
/// `Equal` exactly when all their fields are equal, and swapping them reverses the
/// order.
pub proof fn lemma_comparisons_agree(layout: &Layout, a: u128, b: u128)
    ensures
        (crate::layout::lex_cmp(layout.spec_fields(a), layout.spec_fields(b)) == core::cmp::Ordering::Equal) <==> (
        layout.spec_fields(a) == layout.spec_fields(b)),
        crate::layout::lex_cmp(layout.spec_fields(b), layout.spec_fields(a)) == match crate::layout::lex_cmp(
            layout.spec_fields(a),
            layout.spec_fields(b),
        ) {
            core::cmp::Ordering::Less => core::cmp::Ordering::Greater,
            core::cmp::Ordering::Equal => core::cmp::Ordering::Equal,
            core::cmp::Ordering::Greater => core::cmp::Ordering::Less,
        },
{
    let fa = layout.spec_fields(a);
    let fb = layout.spec_fields(b);
    lemma_lex_equal_from(fa, fb, 0);
    lemma_lex_reverse_from(fa, fb, 0);
    if forall|k: int| 0 <= k < fa.len() ==> fa[k] == fb[k] {
        assert(fa =~= fb);
    }
}

/// Default construction equals explicit construction: the record built from each
/// field's default value is every valid record whose fields read those values.
pub proof fn lemma_default_equals_explicit(layout: &Layout, defaults: Seq<u128>, explicit: u128)
    requires
        layout.wf(),
        defaults.len() == layout.spec_slots().len(),
        forall|k: int|
            0 <= k < defaults.len() ==> crate::width::in_range(
                #[trigger] defaults[k],
                layout.spec_slots()[k].descriptor(),
            ),
        layout.spec_valid(explicit),
        layout.spec_fields(explicit) == defaults,
    ensures
        crate::layout::packed(layout.spec_slots(), defaults, defaults.len() as int) & crate::bits::low_mask_spec(
            layout.spec_width(),
        ) == explicit,
{
    let built = crate::layout::packed(layout.spec_slots(), defaults, defaults.len() as int)
        & crate::bits::low_mask_spec(layout.spec_width());
    layout.lemma_construct_get(defaults);
    layout.lemma_fields_determine_raw(built, explicit);
}

/// A record with no fields: building it gives zero, every two raw values have the
/// same (empty) fields, and they compare `Equal`.
pub proof fn lemma_empty_record(layout: &Layout, a: u128, b: u128)
    requires
        layout.wf(),
        layout.spec_slots().len() == 0,
    ensures
        crate::layout::packed(layout.spec_slots(), Seq::empty(), 0) & crate::bits::low_mask_spec(layout.spec_width()) == 0,
        layout.spec_fields(a) == layout.spec_fields(b),
        crate::layout::lex_cmp(layout.spec_fields(a), layout.spec_fields(b)) == core::cmp::Ordering::Equal,
{
    assert(0u128 & crate::bits::low_mask_spec(layout.spec_width()) == 0) by (bit_vector);
    assert(layout.spec_fields(a) =~= layout.spec_fields(b));
}

} // verus!
