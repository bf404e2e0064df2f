use std::cmp::Ordering;
use std::hash::{Hash, Hasher};

use superbitty::{BaseType, Layout, Member, Raw, Tag, TagDomain};

// EnumA { A, B } with default A; EnumB { A, B, C } with default C.
const A_A: usize = 0;
const A_B: usize = 1;
const B_A: usize = 0;
const B_B: usize = 1;
const B_C: usize = 2;

fn implicit(n: usize) -> Vec<Member> {
    (0..n).map(|_| Member { has_payload: false, tag: Tag::Implicit }).collect()
}

struct Bitfields {
    enum_a: TagDomain,
    enum_b: TagDomain,
    layout: Layout,
}

impl Bitfields {
    fn define() -> Bitfields {
        let enum_a = TagDomain::analyze(&implicit(2)).unwrap();
        let enum_b = TagDomain::analyze(&implicit(3)).unwrap();
        let layout = Layout::compose(&vec![enum_a.width(), enum_b.width()], BaseType::U8).unwrap();
        Bitfields { enum_a, enum_b, layout }
    }

    fn new(&self, a: usize, b: usize) -> Raw<u8> {
        Raw::new(&self.layout, &vec![self.enum_a.into_raw(a), self.enum_b.into_raw(b)])
    }

    fn default(&self) -> Raw<u8> {
        self.new(A_A, B_C)
    }

    fn enum_a(&self, r: Raw<u8>) -> usize {
        self.enum_a.from_raw(r.get(&self.layout, 0)).unwrap()
    }

    fn enum_b(&self, r: Raw<u8>) -> usize {
        self.enum_b.from_raw(r.get(&self.layout, 1)).unwrap()
    }

    fn set_enum_a(&self, r: &mut Raw<u8>, a: usize) {
        r.set(&self.layout, 0, self.enum_a.into_raw(a));
    }

    fn set_enum_b(&self, r: &mut Raw<u8>, b: usize) {
        r.set(&self.layout, 1, self.enum_b.into_raw(b));
    }
}

#[test]
fn new_and_set() {
    let def = Bitfields::define();
    let mut instance = def.new(A_B, B_A);
    assert_eq!(def.enum_a(instance), A_B);
    assert_eq!(def.enum_b(instance), B_A);

    def.set_enum_b(&mut instance, B_C);
    assert_eq!(def.enum_a(instance), A_B);
    assert_eq!(def.enum_b(instance), B_C);

    def.set_enum_a(&mut instance, A_A);
    assert_eq!(def.enum_a(instance), A_A);
    assert_eq!(def.enum_b(instance), B_C);
}

#[test]
fn default() {
    let def = Bitfields::define();
    let instance = def.default();
    assert_eq!(def.enum_a(instance), A_A);
    assert_eq!(def.enum_b(instance), B_C);
}

#[test]
fn clone_copy() {
    let def = Bitfields::define();
    let original = def.new(A_A, B_C);
    let clone = original.clone();
    assert_eq!(def.enum_a(original), def.enum_a(clone));
    assert_eq!(def.enum_b(original), def.enum_b(clone));
    let copy = original;
    assert_eq!(def.enum_a(original), def.enum_a(copy));
    assert_eq!(def.enum_b(original), def.enum_b(copy));
}

#[test]
fn equality() {
    let def = Bitfields::define();
    for a1 in [A_A, A_B] {
        for b1 in [B_A, B_B, B_C] {
            for a2 in [A_A, A_B] {
                for b2 in [B_A, B_B, B_C] {
                    let one = def.new(a1, b1);
                    let two = def.new(a2, b2);
                    assert_eq!(one.eq_fields(&def.layout, two), a1 == a2 && b1 == b2);
                    assert_eq!(one == two, a1 == a2 && b1 == b2);
                }
            }
        }
    }
}

fn lexicographic(first: Ordering, second: Ordering) -> Ordering {
    if first == Ordering::Equal {
        second
    } else {
        first
    }
}

#[test]
fn comparison() {
    let def = Bitfields::define();
    for a1 in [A_A, A_B] {
        for b1 in [B_A, B_B, B_C] {
            for a2 in [A_A, A_B] {
                for b2 in [B_A, B_B, B_C] {
                    let one = def.new(a1, b1);
                    let two = def.new(a2, b2);
                    let expected = lexicographic(a1.cmp(&a2), b1.cmp(&b2));
                    assert_eq!(one.cmp_fields(&def.layout, two), expected);
                    assert_eq!(Some(one.cmp_fields(&def.layout, two)), Some(expected));
                }
            }
        }
    }
}

#[derive(Debug, Default, PartialEq, Eq)]
struct VecHasher(Vec<u8>);

impl Hasher for VecHasher {
    fn finish(&self) -> u64 {
        0
    }
    fn write(&mut self, bytes: &[u8]) {
        self.0.extend_from_slice(bytes);
    }
}

#[test]
fn hash() {
    let def = Bitfields::define();
    for a in [A_A, A_B] {
        for b in [B_A, B_B, B_C] {
            let bitfields = def.new(a, b);

            let mut bitfields_hasher = VecHasher::default();
            for v in def.layout.fields(bitfields.raw() as u128) {
                v.hash(&mut bitfields_hasher);
            }
            let mut individual_hasher = VecHasher::default();
            def.enum_a.into_raw(a).hash(&mut individual_hasher);
            def.enum_b.into_raw(b).hash(&mut individual_hasher);

            assert_eq!(bitfields_hasher, individual_hasher);
        }
    }
}

#[test]
fn empty() {
    let layout = Layout::compose(&vec![], BaseType::U32).unwrap();
    let new = Raw::<u32>::new(&layout, &vec![]);
    let default = Raw::<u32>::new(&layout, &vec![]);
    let _ = new.clone();
    assert_eq!(default, new);
    assert!(!(default != new));
    assert!(default.eq_fields(&layout, new));
    assert_ne!(default.cmp_fields(&layout, new), Ordering::Less);
    assert_eq!(Some(new.cmp_fields(&layout, new)), Some(Ordering::Equal));
    assert_eq!(new.raw(), 0);
}
