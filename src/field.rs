//! One field of a packed record: where its bits sit, and how a value is read from
//! and written into the raw integer.
use vstd::prelude::*;

use crate::bits::low_mask;
use crate::width::WidthDescriptor;

verus! {

/// A row of a record's field table: the field occupies `bits_len` bits starting at
/// `offset` in the raw integer, and its domain trims `shift` low bits.
#[derive(Clone, Copy, Debug, PartialEq, Eq)]
pub struct FieldSlot {
    pub offset: u32,
    pub shift: u32,
    pub bits_len: u32,
}

impl FieldSlot {
    /// The width descriptor of the field's domain.
    pub open spec fn descriptor(self) -> WidthDescriptor {
        WidthDescriptor { shift: self.shift, bits_len: self.bits_len }
    }

    /// The field fits below bit `width`, and its domain's range fits in 128 bits.
    pub open spec fn fits(self, width: u32) -> bool {
        &&& width <= 128
        &&& self.offset + self.bits_len <= width
        &&& self.shift + self.bits_len <= 128
    }
}

/// Two fields share no bit.
pub open spec fn disjoint(f: FieldSlot, g: FieldSlot) -> bool {
    f.offset + f.bits_len <= g.offset || g.offset + g.bits_len <= f.offset
}

/// Reads field `f` of `raw` back into its domain's raw form:
/// `((raw >> offset) & MASK) << shift`.
pub open spec fn field_get(raw: u128, f: FieldSlot) -> u128 {
    ((raw >> f.offset) & crate::bits::low_mask_spec(f.bits_len)) << f.shift
}

/// The trimmed value `v` placed at the field's offset: `(v >> shift) << offset`.
pub open spec fn field_place(v: u128, f: FieldSlot) -> u128 {
    (v >> f.shift) << f.offset
}

/// Writes `v` into field `f` of `raw`, truncating the result to `width` bits:
/// `((raw & !(MASK << offset)) | ((v >> shift) << offset))` truncated.
pub open spec fn field_set(raw: u128, f: FieldSlot, v: u128, width: u32) -> u128 {
    ((raw & !(crate::bits::low_mask_spec(f.bits_len) << f.offset)) | field_place(v, f)) & crate::bits::low_mask_spec(width)
}

/// `x >> n`, zero once `n` reaches 128.
pub fn shr(x: u128, n: u32) -> (r: u128)
    ensures
        r == x >> n,
{
    if n >= 128 {
        assert(x >> n == 0) by (bit_vector)
            requires
                n >= 128,
        ;
        0
    } else {
        x >> n
    }
}

/// `x << n` truncated to 128 bits, zero once `n` reaches 128.
pub fn shl(x: u128, n: u32) -> (r: u128)
    ensures
        r == x << n,
{
    if n >= 128 {
        assert(x << n == 0) by (bit_vector)
            requires
                n >= 128,
        ;
        0
    } else {
        x << n
    }
}

/// Reads field `f` of `raw`.
pub fn get_field(raw: u128, f: FieldSlot) -> (r: u128)
    ensures
        r == field_get(raw, f),
{
    shl(shr(raw, f.offset) & low_mask(f.bits_len), f.shift)
}

/// Writes `v` into field `f` of `raw`, keeping `width` bits.
pub fn set_field(raw: u128, f: FieldSlot, v: u128, width: u32) -> (r: u128)
    ensures
        r == field_set(raw, f, v, width),
{
    let cleared = raw & !shl(low_mask(f.bits_len), f.offset);
    let placed = shl(shr(v, f.shift), f.offset);
    (cleared | placed) & low_mask(width)
}

/// Places `v` at field `f`'s offset.
pub fn place_field(v: u128, f: FieldSlot) -> (r: u128)
    ensures
        r == field_place(v, f),
{
    shl(shr(v, f.shift), f.offset)
}

/// For a value in range, the trimmed value fits in the field and shifts back to
/// the value.
pub proof fn lemma_in_range_trim(v: u128, w: WidthDescriptor)
    requires
        w.shift + w.bits_len <= 128,
        crate::width::in_range(v, w),
    ensures
        (v >> w.shift) & crate::bits::low_mask_spec(w.bits_len) == v >> w.shift,
        (v >> w.shift) << w.shift == v,
{
    let s = w.shift;
    let len = w.bits_len;
    let q = (v >> s) & crate::bits::low_mask_spec(len);
    assert(q >> len == 0) by (bit_vector)
        requires
            q == (v >> s) & crate::bits::low_mask_spec(len),
    ;
    assert((q << s) >> s == q) by (bit_vector)
        requires
            q >> len == 0,
            s + len <= 128,
    ;
    assert(q & crate::bits::low_mask_spec(len) == q) by (bit_vector)
        requires
            q == (v >> s) & crate::bits::low_mask_spec(len),
    ;
}

/// Truncating to `width` bits does not change a field that lies below `width`.
#[verifier::rlimit(100)]
proof fn lemma_truncate_keeps_field(x: u128, o: u32, len: u32, width: u32)
    requires
        o + len <= width,
        width <= 128,
    ensures
        ((x & crate::bits::low_mask_spec(width)) >> o) & crate::bits::low_mask_spec(len) == (x >> o) & crate::bits::low_mask_spec(len),
{
    assert(((x & crate::bits::low_mask_spec(width)) >> o) & crate::bits::low_mask_spec(len) == (x >> o) & crate::bits::low_mask_spec(len))
        by (bit_vector)
        requires
            o + len <= width,
            width <= 128,
    ;
}

/// Clearing a field and OR-ing a fitting value into it makes the field read that value.
#[verifier::rlimit(100)]
proof fn lemma_write_reads_back(raw: u128, u: u128, o: u32, len: u32)
    requires
        o + len <= 128,
        u & crate::bits::low_mask_spec(len) == u,
    ensures
        (((raw & !(crate::bits::low_mask_spec(len) << o)) | (u << o)) >> o) & crate::bits::low_mask_spec(len) == u,
{
    assert((((raw & !(crate::bits::low_mask_spec(len) << o)) | (u << o)) >> o) & crate::bits::low_mask_spec(len) == u)
        by (bit_vector)
        requires
            o + len <= 128,
            u & crate::bits::low_mask_spec(len) == u,
    ;
}

/// Clearing a field and OR-ing a fitting value into it leaves a disjoint field alone.
#[verifier::rlimit(100)]
proof fn lemma_write_keeps_other(raw: u128, u: u128, o: u32, len: u32, og: u32, lg: u32)
    requires
        o + len <= 128,
        og + lg <= 128,
        o + len <= og || og + lg <= o,
        u & crate::bits::low_mask_spec(len) == u,
    ensures
        (((raw & !(crate::bits::low_mask_spec(len) << o)) | (u << o)) >> og) & crate::bits::low_mask_spec(lg) == (raw >> og)
            & crate::bits::low_mask_spec(lg),
{
    assert((((raw & !(crate::bits::low_mask_spec(len) << o)) | (u << o)) >> og) & crate::bits::low_mask_spec(lg) == (raw
        >> og) & crate::bits::low_mask_spec(lg)) by (bit_vector)
        requires
            o + len <= 128,
            og + lg <= 128,
            o + len <= og || og + lg <= o,
            u & crate::bits::low_mask_spec(len) == u,
    ;
}

/// Round trip: writing a value in its domain's range into a field and reading the
/// field back gives the value.
pub proof fn lemma_set_get(raw: u128, f: FieldSlot, v: u128, width: u32)
    requires
        f.fits(width),
        crate::width::in_range(v, f.descriptor()),
    ensures
        field_get(field_set(raw, f, v, width), f) == v,
{
    lemma_in_range_trim(v, f.descriptor());
    let u = v >> f.shift;
    let x = (raw & !(crate::bits::low_mask_spec(f.bits_len) << f.offset)) | (u << f.offset);
    lemma_truncate_keeps_field(x, f.offset, f.bits_len, width);
    lemma_write_reads_back(raw, u, f.offset, f.bits_len);
}

/// Independence: writing a value in range into one field leaves every disjoint
/// field reading what it read before.
pub proof fn lemma_set_keeps_other(raw: u128, f: FieldSlot, v: u128, g: FieldSlot, width: u32)
    requires
        f.fits(width),
        g.fits(width),
        disjoint(f, g),
        crate::width::in_range(v, f.descriptor()),
    ensures
        field_get(field_set(raw, f, v, width), g) == field_get(raw, g),
{
    lemma_in_range_trim(v, f.descriptor());
    let u = v >> f.shift;
    let x = (raw & !(crate::bits::low_mask_spec(f.bits_len) << f.offset)) | (u << f.offset);
    lemma_truncate_keeps_field(x, g.offset, g.bits_len, width);
    lemma_write_keeps_other(raw, u, f.offset, f.bits_len, g.offset, g.bits_len);
}

/// OR-ing a value placed at or above `o` leaves a field that ends by `o` alone.
#[verifier::rlimit(100)]
pub proof fn lemma_or_above_keeps_field(p: u128, x: u128, o: u32, ok: u32, lk: u32)
    requires
        ok + lk <= o,
        o <= 128,
        x == x >> o << o,
    ensures
        ((p | x) >> ok) & crate::bits::low_mask_spec(lk) == (p >> ok) & crate::bits::low_mask_spec(lk),
{
    assert(((p | x) >> ok) & crate::bits::low_mask_spec(lk) == (p >> ok) & crate::bits::low_mask_spec(lk)) by (bit_vector)
        requires
            ok + lk <= o,
            o <= 128,
            x == x >> o << o,
    ;
}

/// A value that fits in `len` bits, placed at `o` over bits that are all below `o`,
/// reads back and leaves nothing above `o + len`.
#[verifier::rlimit(100)]
pub proof fn lemma_or_on_top(p: u128, u: u128, o: u32, len: u32)
    requires
        o + len <= 128,
        p >> o == 0,
        u & crate::bits::low_mask_spec(len) == u,
    ensures
        ((p | (u << o)) >> o) & crate::bits::low_mask_spec(len) == u,
        (p | (u << o)) >> (o + len) as u32 == 0,
        (u << o) >> o << o == u << o,
{
    assert(((p | (u << o)) >> o) & crate::bits::low_mask_spec(len) == u) by (bit_vector)
        requires
            o + len <= 128,
            p >> o == 0,
            u & crate::bits::low_mask_spec(len) == u,
    ;
    assert((p | (u << o)) >> (o + len) as u32 == 0) by (bit_vector)
        requires
            o + len <= 128,
            p >> o == 0,
            u & crate::bits::low_mask_spec(len) == u,
    ;
    assert((u << o) >> o << o == u << o) by (bit_vector);
}

/// Left shift is injective on values that fit below bit 128 after shifting.
#[verifier::rlimit(100)]
pub proof fn lemma_shl_injective(a: u128, b: u128, s: u32, len: u32)
    requires
        s + len <= 128,
        a & crate::bits::low_mask_spec(len) == a,
        b & crate::bits::low_mask_spec(len) == b,
        a << s == b << s,
    ensures
        a == b,
{
    assert((a << s) >> s == a) by (bit_vector)
        requires
            s + len <= 128,
            a & crate::bits::low_mask_spec(len) == a,
    ;
    assert((b << s) >> s == b) by (bit_vector)
        requires
            s + len <= 128,
            b & crate::bits::low_mask_spec(len) == b,
    ;
}

/// Agreement on the bits below `p` and on the field at `p` extends to the bits
/// below `p + len`.
#[verifier::rlimit(100)]
pub proof fn lemma_low_bits_extend(a: u128, b: u128, p: u32, len: u32)
    requires
        p + len <= 128,
        a & crate::bits::low_mask_spec(p) == b & crate::bits::low_mask_spec(p),
        (a >> p) & crate::bits::low_mask_spec(len) == (b >> p) & crate::bits::low_mask_spec(len),
    ensures
        a & crate::bits::low_mask_spec((p + len) as u32) == b & crate::bits::low_mask_spec((p + len) as u32),
{
    assert(a & crate::bits::low_mask_spec((p + len) as u32) == b & crate::bits::low_mask_spec((p + len) as u32)) by (bit_vector)
        requires
            p + len <= 128,
            a & crate::bits::low_mask_spec(p) == b & crate::bits::low_mask_spec(p),
            (a >> p) & crate::bits::low_mask_spec(len) == (b >> p) & crate::bits::low_mask_spec(len),
    ;
}

/// A value with no bit at or above `t` is unchanged by truncation to `w >= t` bits.
pub proof fn lemma_truncate_noop(x: u128, t: u32, w: u32)
    requires
        t <= w,
        x >> t == 0,
    ensures
        x & crate::bits::low_mask_spec(w) == x,
{
    assert(x & crate::bits::low_mask_spec(w) == x) by (bit_vector)
        requires
            t <= w,
            x >> t == 0,
    ;
}

/// Writing a fitting value into a field below `t` keeps every bit at or above `t` clear.
#[verifier::rlimit(100)]
pub proof fn lemma_set_stays_below(raw: u128, f: FieldSlot, v: u128, width: u32, t: u32)
    requires
        f.fits(width),
        f.offset + f.bits_len <= t,
        raw >> t == 0,
        crate::width::in_range(v, f.descriptor()),
    ensures
        field_set(raw, f, v, width) >> t == 0,
{
    lemma_in_range_trim(v, f.descriptor());
    let u = v >> f.shift;
    let o = f.offset;
    let len = f.bits_len;
    let c = raw & !(crate::bits::low_mask_spec(len) << o);
    let x = c | (u << o);
    assert(c >> t == 0) by (bit_vector)
        requires
            c == raw & !(crate::bits::low_mask_spec(len) << o),
            raw >> t == 0,
    ;
    assert((u << o) >> t == 0) by (bit_vector)
        requires
            u & crate::bits::low_mask_spec(len) == u,
            o + len <= t,
    ;
    assert((x & crate::bits::low_mask_spec(width)) >> t == 0) by (bit_vector)
        requires
            x == c | (u << o),
            c >> t == 0,
            (u << o) >> t == 0,
    ;
}

} // verus!
