use std::cmp::Ordering;

use superbitty::bits::{leading_zeros, low_mask, trailing_zeros};
use superbitty::{
    assert_bitfield_compatible, width_of_mask, BaseType, BitFieldCompatible, CompositionError, Layout, Member,
    Primitive, Raw, Tag, TagDomain, WidthDescriptor,
};

fn wd(shift: u32, bits_len: u32) -> WidthDescriptor {
    WidthDescriptor { shift, bits_len }
}

fn explicit(values: &[u128]) -> Vec<Member> {
    values.iter().map(|&v| Member { has_payload: false, tag: Tag::Explicit(v) }).collect()
}

#[test]
fn zero_counts() {
    assert_eq!(trailing_zeros(0), 128);
    assert_eq!(trailing_zeros(8), 3);
    assert_eq!(trailing_zeros(1 << 127), 127);
    assert_eq!(leading_zeros(0), 128);
    assert_eq!(leading_zeros(1), 127);
    assert_eq!(leading_zeros(u128::MAX), 0);
}

#[test]
fn masks() {
    assert_eq!(low_mask(0), 0);
    assert_eq!(low_mask(3), 0b111);
    assert_eq!(low_mask(127), u128::MAX >> 1);
    assert_eq!(low_mask(128), u128::MAX);
}

#[test]
fn width_of_masks() {
    assert_eq!(width_of_mask(0), wd(0, 0));
    assert_eq!(width_of_mask(0b1100), wd(2, 2));
    assert_eq!(width_of_mask(1 << 127), wd(127, 1));
    assert_eq!(width_of_mask(u128::MAX), wd(0, 128));
}

#[test]
fn implicit_tags_follow_explicit() {
    let members = vec![
        Member { has_payload: false, tag: Tag::Explicit(5) },
        Member { has_payload: false, tag: Tag::Implicit },
    ];
    let d = TagDomain::analyze(&members).unwrap();
    assert_eq!(d.len(), 2);
    assert_eq!(d.into_raw(1), 6);
    assert_eq!(d.from_raw(6), Some(1));
    assert_eq!(d.from_raw(7), None);
    assert_eq!(d.width(), wd(0, 3));
}

#[test]
fn composition_rejected() {
    let widths = vec![wd(0, 1), wd(0, 2), wd(0, 3), wd(0, 2), wd(0, 1)];
    assert_eq!(Layout::compose(&widths, BaseType::U8).err(), Some(vec![CompositionError::TooWide]));
    let exact = vec![wd(0, 1), wd(0, 2), wd(0, 3), wd(0, 2)];
    assert!(Layout::compose(&exact, BaseType::U8).is_ok());
    assert!(Layout::compose(&widths, BaseType::U16).is_ok());
}

#[test]
fn composition_collects_errors() {
    let widths = vec![wd(0, 1), wd(120, 10), wd(0, 200)];
    assert_eq!(
        Layout::compose(&widths, BaseType::U128).err(),
        Some(vec![CompositionError::DomainOutOfRange(1), CompositionError::DomainOutOfRange(2), CompositionError::TooWide])
    );
}

#[test]
fn offsets_are_prefix_sums() {
    let layout = Layout::compose(&vec![wd(0, 1), wd(2, 3), wd(0, 0), wd(0, 2)], BaseType::U16).unwrap();
    assert_eq!(layout.len(), 4);
    assert_eq!(layout.width(), 16);
    let offsets: Vec<u32> = (0..4).map(|i| layout.slot(i).offset).collect();
    assert_eq!(offsets, vec![0, 1, 4, 4]);
    assert_eq!(layout.slot(1).shift, 2);
}

#[test]
fn construct_places_fields() {
    let layout = Layout::compose(&vec![wd(0, 2), wd(0, 3)], BaseType::U8).unwrap();
    let mut raw = layout.construct(&vec![1, 5]);
    assert_eq!(raw, 0b10101);
    layout.set(&mut raw, 0, 3);
    assert_eq!(raw, 0b10111);
    assert_eq!(layout.get(raw, 0), 3);
    assert_eq!(layout.get(raw, 1), 5);
    assert_eq!(layout.fields(raw), vec![3, 5]);
}

#[test]
fn three_field_example() {
    let e = TagDomain::analyze(&explicit(&[0, 1])).unwrap();
    let layout = Layout::compose(&vec![e.width(), e.width(), e.width()], BaseType::U8).unwrap();
    let instance = Raw::<u8>::new(&layout, &vec![1, 0, 1]);
    assert_eq!(instance.raw(), 0b101);
}

#[test]
fn shifted_domain_round_trip() {
    let spaced = TagDomain::analyze(&explicit(&[0, 4, 8])).unwrap();
    assert_eq!(spaced.width(), wd(2, 2));
    let flag = TagDomain::analyze(&explicit(&[0, 1])).unwrap();
    let layout = Layout::compose(&vec![flag.width(), spaced.width()], BaseType::U8).unwrap();
    let mut r = Raw::<u8>::new(&layout, &vec![1, 8]);
    assert_eq!(r.raw(), 0b101);
    assert_eq!(spaced.from_raw(r.get(&layout, 1)), Some(2));
    r.set(&layout, 1, 4);
    assert_eq!(r.raw(), 0b011);
    assert_eq!(r.get(&layout, 1), 4);
    assert_eq!(r.get(&layout, 0), 1);
}

#[test]
fn round_trip_every_value() {
    let a = TagDomain::analyze(&explicit(&[0, 2, 6])).unwrap();
    let b = TagDomain::analyze(&explicit(&[1, 3, 5, 7])).unwrap();
    let layout = Layout::compose(&vec![a.width(), b.width()], BaseType::U16).unwrap();
    for ia in 0..a.len() {
        for ib in 0..b.len() {
            let mut r = Raw::<u16>::new(&layout, &vec![a.into_raw(0), b.into_raw(0)]);
            r.set(&layout, 0, a.into_raw(ia));
            assert_eq!(a.from_raw(r.get(&layout, 0)), Some(ia));
            assert_eq!(b.from_raw(r.get(&layout, 1)), Some(0));
            r.set(&layout, 1, b.into_raw(ib));
            assert_eq!(a.from_raw(r.get(&layout, 0)), Some(ia));
            assert_eq!(b.from_raw(r.get(&layout, 1)), Some(ib));
        }
    }
}

#[test]
fn default_equals_explicit() {
    let a = TagDomain::analyze(&explicit(&[0, 1])).unwrap();
    let b = TagDomain::analyze(&explicit(&[0, 1, 2])).unwrap();
    let layout = Layout::compose(&vec![a.width(), b.width()], BaseType::U32).unwrap();
    let defaults = vec![a.into_raw(0), b.into_raw(2)];
    let default = Raw::<u32>::new(&layout, &defaults);
    let explicit = Raw::<u32>::new(&layout, &vec![0, 2]);
    assert_eq!(default, explicit);
    assert_eq!(default.cmp_fields(&layout, explicit), Ordering::Equal);
}

#[test]
fn comparison_is_lexicographic_not_numeric() {
    let layout = Layout::compose(&vec![wd(0, 2), wd(0, 2)], BaseType::U8).unwrap();
    let one = Raw::<u8>::new(&layout, &vec![1, 0]);
    let two = Raw::<u8>::new(&layout, &vec![0, 1]);
    assert!(one.raw() < two.raw());
    assert_eq!(one.cmp_fields(&layout, two), Ordering::Greater);
    assert_eq!(two.cmp_fields(&layout, one), Ordering::Less);
    assert!(!one.eq_fields(&layout, two));
}

#[test]
fn other_base_types() {
    let layout = Layout::compose(&vec![wd(0, 40), wd(0, 24)], BaseType::U64).unwrap();
    let mut r = Raw::<u64>::new(&layout, &vec![(1 << 40) - 1, 7]);
    assert_eq!(r.raw(), ((1u64 << 40) - 1) | (7 << 40));
    r.set(&layout, 1, (1 << 24) - 1);
    assert_eq!(r.raw(), u64::MAX);
    let wide = Layout::compose(&vec![wd(0, 100), wd(0, 28)], BaseType::U128).unwrap();
    let w = Raw::<u128>::new(&wide, &vec![3, 1 << 27]);
    assert_eq!(w.raw(), 3 | (1 << 127));
    let small = Layout::compose(&vec![wd(0, 16)], BaseType::Usize).unwrap();
    let s = Raw::<usize>::new(&small, &vec![0xabcd]);
    assert_eq!(s.raw(), 0xabcd);
    let half = Layout::compose(&vec![wd(0, 9)], BaseType::U16).unwrap();
    let h = Raw::<u16>::new(&half, &vec![0x1ff]);
    assert_eq!(h.raw(), 0x1ff);
    let word = Layout::compose(&vec![wd(0, 32)], BaseType::U32).unwrap();
    let x = Raw::<u32>::new(&word, &vec![0xdead_beef]);
    assert_eq!(x.raw(), 0xdead_beef);
}

#[test]
fn primitive_round_trip_and_truncation() {
    type Six = Primitive<u8, 6, 0>;
    type Four = Primitive<u8, 4, 0>;
    assert_bitfield_compatible::<Six>();
    assert_eq!(Six::shift(), 0);
    assert_eq!(Six::bits_len(), 6);
    assert_eq!(Primitive::<u16, 3, 2>(0x1234).into_raw(), 0x1234);
    assert_eq!(Primitive::<u16, 3, 2>::from_raw(0x1_0005).0, 5);
    let layout = Layout::compose(&vec![wd(0, 6), wd(0, 4)], BaseType::U16).unwrap();
    let mut r = Raw::<u16>::new(&layout, &vec![0, 0]);
    r.set_value(&layout, 0, Six { 0: 0b101 });
    assert_eq!(r.get_value::<Six>(&layout, 0).0, 0b101);
    r.set_value(&layout, 1, Four { 0: 0x0f });
    assert_eq!(r.get_value::<Four>(&layout, 1).0, 0x0f);
    assert_eq!(r.get_value::<Six>(&layout, 0).0, 0b101);
    // A size smaller than the value needs loses the high bits.
    r.set_value(&layout, 1, Four { 0: 0x1f });
    assert_eq!(r.raw(), 0b101 | (0x1f << 6));
    assert_eq!(r.get_value::<Four>(&layout, 1).0, 0x0f);
}

#[test]
fn offset_primitive_trims_low_bits() {
    type Quad = Primitive<u8, 3, 2>;
    let layout = Layout::compose(&vec![wd(0, 1), wd(2, 3)], BaseType::U8).unwrap();
    let mut r = Raw::<u8>::new(&layout, &vec![1, 0]);
    r.set_value(&layout, 1, Quad { 0: 0b10100 });
    assert_eq!(r.raw(), 0b1011);
    assert_eq!(r.get_value::<Quad>(&layout, 1).0, 0b10100);
}
