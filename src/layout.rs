//! The field compositor: sequential packing of analyzed domains into one base
//! integer, validated before any record exists.
use vstd::prelude::*;

use crate::base::BaseType;
use crate::field::{get_field, place_field, set_field, FieldSlot};
use crate::width::WidthDescriptor;

verus! {

/// Why a record definition is rejected.
#[derive(Clone, Copy, Debug, PartialEq, Eq)]
pub enum CompositionError {
    /// The domain of this field spans beyond the 128-bit arithmetic domain.
    DomainOutOfRange(usize),
    /// The fields together need more bits than the base type has.
    TooWide,
}

/// The sum of the lengths of the first `n` descriptors.
pub open spec fn prefix_bits(ws: Seq<WidthDescriptor>, n: int) -> int
    decreases n,
{
    if n <= 0 {
        0
    } else {
        prefix_bits(ws, n - 1) + ws[n - 1].bits_len
    }
}

/// A domain whose range does not fit the 128-bit arithmetic domain.
pub open spec fn out_of_range(w: WidthDescriptor) -> bool {
    w.shift + w.bits_len > 128
}

/// The range errors of the first `n` fields.
pub open spec fn range_errors(ws: Seq<WidthDescriptor>, n: int) -> Seq<CompositionError>
    decreases n,
{
    if n <= 0 {
        Seq::empty()
    } else if out_of_range(ws[n - 1]) {
        range_errors(ws, n - 1).push(CompositionError::DomainOutOfRange((n - 1) as usize))
    } else {
        range_errors(ws, n - 1)
    }
}

/// All errors of a record definition: each field whose domain is out of range, in
/// order, then the width error.
pub open spec fn composition_errors(ws: Seq<WidthDescriptor>, width: u32) -> Seq<CompositionError> {
    let r = range_errors(ws, ws.len() as int);
    if prefix_bits(ws, ws.len() as int) > width {
        r.push(CompositionError::TooWide)
    } else {
        r
    }
}

/// The descriptors of a field table.
pub open spec fn slot_descriptors(slots: Seq<FieldSlot>) -> Seq<WidthDescriptor> {
    Seq::new(slots.len(), |i: int| slots[i].descriptor())
}

/// OR of the first `n` values placed at their fields.
pub open spec fn packed(slots: Seq<FieldSlot>, values: Seq<u128>, n: int) -> u128
    decreases n,
{
    if n <= 0 {
        0
    } else {
        packed(slots, values, n - 1) | crate::field::field_place(values[n - 1], slots[n - 1])
    }
}

/// Field-wise lexicographic comparison of `a` and `b` from position `i` on.
pub open spec fn lex_cmp_from(a: Seq<u128>, b: Seq<u128>, i: int) -> core::cmp::Ordering
    decreases a.len() - i,
{
    if i >= a.len() || i >= b.len() {
        core::cmp::Ordering::Equal
    } else if a[i] < b[i] {
        core::cmp::Ordering::Less
    } else if a[i] > b[i] {
        core::cmp::Ordering::Greater
    } else {
        lex_cmp_from(a, b, i + 1)
    }
}

/// Field-wise lexicographic comparison in declaration order.
pub open spec fn lex_cmp(a: Seq<u128>, b: Seq<u128>) -> core::cmp::Ordering {
    lex_cmp_from(a, b, 0)
}

pub proof fn lemma_prefix_mono(ws: Seq<WidthDescriptor>, a: int, b: int)
    requires
        0 <= a <= b <= ws.len(),
    ensures
        prefix_bits(ws, a) <= prefix_bits(ws, b),
    decreases b - a,
{
    if a < b {
        lemma_prefix_mono(ws, a, b - 1);
    }
}

proof fn lemma_range_errors_empty(ws: Seq<WidthDescriptor>, n: int, i: int)
    requires
        0 <= i < n <= ws.len(),
        range_errors(ws, n).len() == 0,
    ensures
        !out_of_range(ws[i]),
    decreases n,
{
    if i < n - 1 {
        lemma_range_errors_empty(ws, n - 1, i);
    }
}

/// The field table of a record: the fields' slots in declaration order and the
/// width of the base integer.
pub struct Layout {
    slots: Vec<FieldSlot>,
    width: u32,
}

impl Layout {
    /// The field table.
    pub closed spec fn spec_slots(&self) -> Seq<FieldSlot> {
        self.slots@
    }

    /// The width of the base integer in bits.
    pub closed spec fn spec_width(&self) -> u32 {
        self.width
    }

    /// The number of bits the fields occupy together.
    pub open spec fn total_bits(&self) -> int {
        prefix_bits(slot_descriptors(self.spec_slots()), self.spec_slots().len() as int)
    }

    /// Sequential packing from bit zero, every domain within 128 bits, and all
    /// fields below the base width.
    pub open spec fn wf(&self) -> bool {
        let slots = self.spec_slots();
        &&& self.spec_width() <= 128
        &&& forall|i: int|
            0 <= i < slots.len() ==> (#[trigger] slots[i]).offset == prefix_bits(
                slot_descriptors(slots),
                i,
            )
        &&& forall|i: int| 0 <= i < slots.len() ==> !out_of_range((#[trigger] slots[i]).descriptor())
        &&& self.total_bits() <= self.spec_width()
    }

    /// The values of all fields of `raw`, in declaration order.
    pub open spec fn spec_fields(&self, raw: u128) -> Seq<u128> {
        Seq::new(self.spec_slots().len(), |i: int| crate::field::field_get(raw, self.spec_slots()[i]))
    }

    /// No bit of `raw` lies above the fields.
    pub open spec fn spec_valid(&self, raw: u128) -> bool {
        raw >> (self.total_bits() as u32) == 0
    }

    /// Composes a record from its fields' width descriptors, in declaration order,
    /// over `base`: each field starts where the previous one ends, the first at bit
    /// zero. All violations are reported together.
    pub fn compose(widths: &Vec<WidthDescriptor>, base: BaseType) -> (r: Result<Layout, Vec<CompositionError>>)
        ensures
            match r {
                Ok(l) => {
                    &&& composition_errors(widths@, base.spec_bits()).len() == 0
                    &&& l.wf()
                    &&& l.spec_width() == base.spec_bits()
                    &&& slot_descriptors(l.spec_slots()) == widths@
                },
                Err(e) => e@ == composition_errors(widths@, base.spec_bits()) && e@.len() > 0,
            },
    {
        let width = base.bits();
        let ghost ws = widths@;
        let n = widths.len();
        let mut slots: Vec<FieldSlot> = Vec::new();
        let mut errors: Vec<CompositionError> = Vec::new();
        let mut total: u128 = 0;
        let mut i: usize = 0;
        while i < n
            invariant
                n == ws.len(),
                ws == widths@,
                i <= n,
                slots@.len() == i,
                total == prefix_bits(ws, i as int),
                total <= i * 0xffff_ffffu128,
                errors@ == range_errors(ws, i as int),
                forall|k: int| 0 <= k < i ==> (#[trigger] slots@[k]).descriptor() == ws[k],
                forall|k: int|
                    0 <= k < i ==> (#[trigger] slots@[k]).offset == prefix_bits(ws, k) || total > 0xffff_ffffu128,
            decreases n - i,
        {
            let w = widths[i];
            if w.shift as u64 + w.bits_len as u64 > 128 {
                errors.push(CompositionError::DomainOutOfRange(i));
            }
            // An offset beyond `u32` only arises in a definition rejected as too wide.
            let offset: u32 = if total > 0xffff_ffff {
                0
            } else {
                total as u32
            };
            slots.push(FieldSlot { offset, shift: w.shift, bits_len: w.bits_len });
            proof {
                assert(i * 0xffff_ffffu128 + 0xffff_ffffu128 == (i + 1) * 0xffff_ffffu128) by (nonlinear_arith);
                assert(i < 0x1_0000_0000_0000_0000);
                assert((i + 1) * 0xffff_ffffu128 <= 0x1_0000_0000_0000_0000 * 0xffff_ffffu128) by (nonlinear_arith)
                    requires i < 0x1_0000_0000_0000_0000;
            }
            total = total + w.bits_len as u128;
            i = i + 1;
        }
        if total > width as u128 {
            errors.push(CompositionError::TooWide);
        }
        if errors.len() > 0 {
            return Err(errors);
        }
        let l = Layout { slots, width };
        proof {
            assert(slot_descriptors(slots@) =~= ws);
            assert forall|k: int| 0 <= k < slots@.len() implies !out_of_range((#[trigger] slots@[k]).descriptor()) by {
                lemma_range_errors_empty(ws, n as int, k);
            }
        }
        Ok(l)
    }

    /// The width of the base integer in bits.
    pub fn width(&self) -> (r: u32)
        ensures
            r == self.spec_width(),
    {
        self.width
    }

    /// The number of fields.
    pub fn len(&self) -> (r: usize)
        ensures
            r == self.spec_slots().len(),
    {
        self.slots.len()
    }

    /// The slot of field `i`.
    pub fn slot(&self, i: usize) -> (r: FieldSlot)
        requires
            i < self.spec_slots().len(),
        ensures
            r == self.spec_slots()[i as int],
    {
        self.slots[i]
    }

    /// Reads field `i` of `raw` back into its domain's raw form.
    pub fn get(&self, raw: u128, i: usize) -> (r: u128)
        requires
            i < self.spec_slots().len(),
        ensures
            r == crate::field::field_get(raw, self.spec_slots()[i as int]),
    {
        get_field(raw, self.slots[i])
    }

    /// Writes the raw form `v` of a value into field `i`, truncating to the base width.
    pub fn set(&self, raw: &mut u128, i: usize, v: u128)
        requires
            i < self.spec_slots().len(),
        ensures
            *final(raw) == crate::field::field_set(*old(raw), self.spec_slots()[i as int], v, self.spec_width()),
    {
        *raw = set_field(*raw, self.slots[i], v, self.width);
    }

    /// The values of all fields of `raw`, in declaration order.
    pub fn fields(&self, raw: u128) -> (r: Vec<u128>)
        ensures
            r@ == self.spec_fields(raw),
    {
        let mut out: Vec<u128> = Vec::new();
        let mut i: usize = 0;
        while i < self.slots.len()
            invariant
                i <= self.slots@.len(),
                out@ == self.spec_fields(raw).take(i as int),
            decreases self.slots@.len() - i,
        {
            out.push(get_field(raw, self.slots[i]));
            i = i + 1;
            assert(out@ =~= self.spec_fields(raw).take(i as int));
        }
        assert(out@ =~= self.spec_fields(raw));
        out
    }

    /// Field-wise equality: every field of `a` reads what the same field of `b` reads.
    pub fn fields_eq(&self, a: u128, b: u128) -> (r: bool)
        ensures
            r == (self.spec_fields(a) == self.spec_fields(b)),
    {
        let mut i: usize = 0;
        while i < self.slots.len()
            invariant
                i <= self.slots@.len(),
                forall|k: int| 0 <= k < i ==> self.spec_fields(a)[k] == self.spec_fields(b)[k],
            decreases self.slots@.len() - i,
        {
            if get_field(a, self.slots[i]) != get_field(b, self.slots[i]) {
                assert(self.spec_fields(a)[i as int] != self.spec_fields(b)[i as int]);
                return false;
            }
            i = i + 1;
        }
        assert(self.spec_fields(a) =~= self.spec_fields(b));
        true
    }

    /// Field-wise lexicographic comparison in declaration order.
    pub fn fields_cmp(&self, a: u128, b: u128) -> (r: core::cmp::Ordering)
        ensures
            r == lex_cmp(self.spec_fields(a), self.spec_fields(b)),
    {
        let ghost fa = self.spec_fields(a);
        let ghost fb = self.spec_fields(b);
        let mut i: usize = 0;
        while i < self.slots.len()
            invariant
                i <= self.slots@.len(),
                fa.len() == self.slots@.len(),
                fb.len() == self.slots@.len(),
                fa == self.spec_fields(a),
                fb == self.spec_fields(b),
                lex_cmp(fa, fb) == lex_cmp_from(fa, fb, i as int),
            decreases self.slots@.len() - i,
        {
            let x = get_field(a, self.slots[i]);
            let y = get_field(b, self.slots[i]);
            assert(x == fa[i as int] && y == fb[i as int]);
            if x < y {
                return core::cmp::Ordering::Less;
            }
            if x > y {
                return core::cmp::Ordering::Greater;
            }
            i = i + 1;
        }
        core::cmp::Ordering::Equal
    }

    /// Builds a raw record from the raw forms of one value per field, in
    /// declaration order: the OR of each trimmed value placed at its offset,
    /// truncated to the base width.
    pub fn construct(&self, values: &Vec<u128>) -> (r: u128)
        requires
            values@.len() == self.spec_slots().len(),
        ensures
            r == packed(self.spec_slots(), values@, values@.len() as int) & crate::bits::low_mask_spec(
                self.spec_width(),
            ),
    {
        let mut acc: u128 = 0;
        let mut i: usize = 0;
        while i < values.len()
            invariant
                values@.len() == self.spec_slots().len(),
                i <= values@.len(),
                acc == packed(self.spec_slots(), values@, i as int),
            decreases values@.len() - i,
        {
            acc = acc | place_field(values[i], self.slots[i]);
            i = i + 1;
        }
        acc & crate::bits::low_mask(self.width)
    }
}

impl Layout {
    /// Every field of a well-formed layout lies below the base width.
    pub proof fn lemma_slot_fits(&self, i: int)
        requires
            self.wf(),
            0 <= i < self.spec_slots().len(),
        ensures
            self.spec_slots()[i].fits(self.spec_width()),
    {
        let ws = slot_descriptors(self.spec_slots());
        lemma_prefix_mono(ws, i + 1, ws.len() as int);
    }

    /// Distinct fields of a well-formed layout share no bit.
    pub proof fn lemma_slots_disjoint(&self, i: int, j: int)
        requires
            self.wf(),
            0 <= i < self.spec_slots().len(),
            0 <= j < self.spec_slots().len(),
            i != j,
        ensures
            crate::field::disjoint(self.spec_slots()[i], self.spec_slots()[j]),
    {
        let ws = slot_descriptors(self.spec_slots());
        if i < j {
            lemma_prefix_mono(ws, i + 1, j);
        } else {
            lemma_prefix_mono(ws, j + 1, i);
        }
    }

    /// Round trip: for every field and every value in its domain's range, setting
    /// the field and then getting it returns the value.
    pub proof fn lemma_round_trip(&self, raw: u128, i: int, v: u128)
        requires
            self.wf(),
            0 <= i < self.spec_slots().len(),
            crate::width::in_range(v, self.spec_slots()[i].descriptor()),
        ensures
            crate::field::field_get(crate::field::field_set(raw, self.spec_slots()[i], v, self.spec_width()), self.spec_slots()[i])
                == v,
    {
        self.lemma_slot_fits(i);
        crate::field::lemma_set_get(raw, self.spec_slots()[i], v, self.spec_width());
    }

    /// Independence: setting one field to a value in its domain's range never
    /// changes what any other field reads.
    pub proof fn lemma_independence(&self, raw: u128, i: int, j: int, v: u128)
        requires
            self.wf(),
            0 <= i < self.spec_slots().len(),
            0 <= j < self.spec_slots().len(),
            i != j,
            crate::width::in_range(v, self.spec_slots()[i].descriptor()),
        ensures
            crate::field::field_get(crate::field::field_set(raw, self.spec_slots()[i], v, self.spec_width()), self.spec_slots()[j])
                == crate::field::field_get(raw, self.spec_slots()[j]),
    {
        self.lemma_slot_fits(i);
        self.lemma_slot_fits(j);
        self.lemma_slots_disjoint(i, j);
        crate::field::lemma_set_keeps_other(raw, self.spec_slots()[i], v, self.spec_slots()[j], self.spec_width());
    }

    /// Setting a field to a value in its domain's range keeps a valid raw record valid.
    pub proof fn lemma_set_keeps_valid(&self, raw: u128, i: int, v: u128)
        requires
            self.wf(),
            self.spec_valid(raw),
            0 <= i < self.spec_slots().len(),
            crate::width::in_range(v, self.spec_slots()[i].descriptor()),
        ensures
            self.spec_valid(crate::field::field_set(raw, self.spec_slots()[i], v, self.spec_width())),
    {
        let ws = slot_descriptors(self.spec_slots());
        self.lemma_slot_fits(i);
        lemma_prefix_mono(ws, i + 1, ws.len() as int);
        crate::field::lemma_set_stays_below(
            raw,
            self.spec_slots()[i],
            v,
            self.spec_width(),
            self.total_bits() as u32,
        );
    }

    proof fn lemma_packed_fields(&self, values: Seq<u128>, n: int)
        requires
            self.wf(),
            values.len() == self.spec_slots().len(),
            0 <= n <= values.len(),
            forall|k: int|
                0 <= k < values.len() ==> crate::width::in_range(
                    #[trigger] values[k],
                    self.spec_slots()[k].descriptor(),
                ),
        ensures
            packed(self.spec_slots(), values, n) >> (prefix_bits(
                slot_descriptors(self.spec_slots()),
                n,
            ) as u32) == 0,
            forall|k: int|
                0 <= k < n ==> (packed(self.spec_slots(), values, n) >> self.spec_slots()[k].offset)
                    & crate::bits::low_mask_spec(self.spec_slots()[k].bits_len) == #[trigger] values[k]
                    >> self.spec_slots()[k].shift,
        decreases n,
    {
        let slots = self.spec_slots();
        let ws = slot_descriptors(slots);
        lemma_prefix_mono(ws, n, ws.len() as int);
        if n == 0 {
            assert(0u128 >> 0u32 == 0) by (bit_vector);
        } else {
            self.lemma_packed_fields(values, n - 1);
            let p = packed(slots, values, n - 1);
            let f = slots[n - 1];
            let v = values[n - 1];
            self.lemma_slot_fits(n - 1);
            crate::field::lemma_in_range_trim(v, f.descriptor());
            let u = v >> f.shift;
            crate::field::lemma_or_on_top(p, u, f.offset, f.bits_len);
            assert forall|k: int| 0 <= k < n implies (packed(slots, values, n) >> slots[k].offset)
                & crate::bits::low_mask_spec(slots[k].bits_len) == #[trigger] values[k] >> slots[k].shift by {
                if k < n - 1 {
                    lemma_prefix_mono(ws, k + 1, n - 1);
                    crate::field::lemma_or_above_keeps_field(p, u << f.offset, f.offset, slots[k].offset, slots[k].bits_len);
                }
            }
        }
    }

    /// Constructing a record from values in their domains' ranges gives a valid raw
    /// record whose fields read those values.
    pub proof fn lemma_construct_get(&self, values: Seq<u128>)
        requires
            self.wf(),
            values.len() == self.spec_slots().len(),
            forall|k: int|
                0 <= k < values.len() ==> crate::width::in_range(
                    #[trigger] values[k],
                    self.spec_slots()[k].descriptor(),
                ),
        ensures
            ({
                let c = packed(self.spec_slots(), values, values.len() as int) & crate::bits::low_mask_spec(
                    self.spec_width(),
                );
                self.spec_valid(c) && self.spec_fields(c) == values
            }),
    {
        let slots = self.spec_slots();
        let n = values.len() as int;
        let p = packed(slots, values, n);
        self.lemma_packed_fields(values, n);
        crate::field::lemma_truncate_noop(p, self.total_bits() as u32, self.spec_width());
        assert forall|k: int| 0 <= k < n implies crate::field::field_get(p, slots[k]) == values[k] by {
            assert(values[k] == values[k]);
            crate::field::lemma_in_range_trim(values[k], slots[k].descriptor());
        }
        assert(self.spec_fields(p) =~= values);
    }

    proof fn lemma_agree_below(&self, a: u128, b: u128, n: int)
        requires
            self.wf(),
            0 <= n <= self.spec_slots().len(),
            self.spec_fields(a) == self.spec_fields(b),
        ensures
            a & crate::bits::low_mask_spec(prefix_bits(slot_descriptors(self.spec_slots()), n) as u32) == b
                & crate::bits::low_mask_spec(prefix_bits(slot_descriptors(self.spec_slots()), n) as u32),
        decreases n,
    {
        let slots = self.spec_slots();
        let ws = slot_descriptors(slots);
        lemma_prefix_mono(ws, n, ws.len() as int);
        if n == 0 {
            assert(a & crate::bits::low_mask_spec(0) == b & crate::bits::low_mask_spec(0)) by (bit_vector);
        } else {
            self.lemma_agree_below(a, b, n - 1);
            let f = slots[n - 1];
            self.lemma_slot_fits(n - 1);
            let m = crate::bits::low_mask_spec(f.bits_len);
            let o = f.offset;
            let sa = (a >> o) & m;
            let sb = (b >> o) & m;
            assert(sa & m == sa) by (bit_vector)
                requires
                    sa == (a >> o) & m,
            ;
            assert(sb & m == sb) by (bit_vector)
                requires
                    sb == (b >> o) & m,
            ;
            assert(self.spec_fields(a)[n - 1] == self.spec_fields(b)[n - 1]);
            assert(self.spec_fields(a)[n - 1] == crate::field::field_get(a, f));
            assert(self.spec_fields(b)[n - 1] == crate::field::field_get(b, f));
            assert(sa << f.shift == sb << f.shift);
            crate::field::lemma_shl_injective(sa, sb, f.shift, f.bits_len);
            crate::field::lemma_low_bits_extend(a, b, f.offset, f.bits_len);
        }
    }

    /// Two valid raw records with equal field values are the same integer.
    pub proof fn lemma_fields_determine_raw(&self, a: u128, b: u128)
        requires
            self.wf(),
            self.spec_valid(a),
            self.spec_valid(b),
            self.spec_fields(a) == self.spec_fields(b),
        ensures
            a == b,
    {
        let t = self.total_bits() as u32;
        self.lemma_agree_below(a, b, self.spec_slots().len() as int);
        crate::field::lemma_truncate_noop(a, t, t);
        crate::field::lemma_truncate_noop(b, t, t);
    }
}

} // verus!
