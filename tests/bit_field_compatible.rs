use superbitty::bits::low_mask;
use superbitty::{Member, Tag, TagDomain};

fn tags(values: &[u128]) -> Vec<Member> {
    values.iter().map(|&v| Member { has_payload: false, tag: Tag::Explicit(v) }).collect()
}

fn assert_values(members: Vec<Member>, shift: u32, bits_len: u32, bits_mask: u128) {
    let domain = TagDomain::analyze(&members).unwrap();
    let w = domain.width();
    assert_eq!(w.shift, shift);
    assert_eq!(w.bits_len, bits_len);
    assert_eq!(low_mask(w.bits_len), bits_mask);
}

#[test]
fn test() {
    assert_values(vec![Member { has_payload: false, tag: Tag::Implicit }], 0, 0, 0);
    assert_values(tags(&[0b10]), 1, 1, 0b1);
    assert_values(tags(&[0, 0b0000000000000100, 0b0010000000000000]), 2, 12, 0b00111111111111);
    assert_values(
        tags(&[0, 0b0000000100, 0b0000001000, 0b0000010000, 0b0000100000, 0b0001000000, 0b0010000000]),
        2,
        6,
        0b00111111,
    );
    assert_values(tags(&[0b1111111]), 0, 7, 0b1111111);
}
