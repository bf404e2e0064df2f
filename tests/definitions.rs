use superbitty::{
    analyze_declaration, define_record, raw_field, range_properties, wrapper_domain, Attribute, BaseType,
    CompositionError, Declaration, DeclarationError, Derive, DomainError, FieldDomain, Member, OptionKey,
    RangeOption, RecordError, Tag, TagDomain, WidthDescriptor, WrapperDomain, WrapperError,
};

fn m(has_payload: bool, tag: Tag) -> Member {
    Member { has_payload, tag }
}

fn opt(key: OptionKey, value: Option<u32>) -> RangeOption {
    RangeOption { key, value }
}

#[test]
fn empty_domain_rejected() {
    assert_eq!(TagDomain::analyze(&vec![]).err(), Some(vec![DomainError::Empty]));
}

#[test]
fn domain_errors_collected() {
    let members = vec![m(true, Tag::Negative), m(false, Tag::NotLiteral), m(true, Tag::Explicit(3))];
    assert_eq!(
        TagDomain::analyze(&members).err(),
        Some(vec![
            DomainError::Payload(0),
            DomainError::NegativeTag(0),
            DomainError::NonLiteralTag(1),
            DomainError::Payload(2),
        ])
    );
}

#[test]
fn implicit_tag_overflow() {
    let members = vec![m(false, Tag::Explicit(u128::MAX)), m(false, Tag::Implicit)];
    assert_eq!(TagDomain::analyze(&members).err(), Some(vec![DomainError::TagOverflow(1)]));
}

#[test]
fn duplicate_tag() {
    let members = vec![m(false, Tag::Implicit), m(false, Tag::Explicit(1)), m(false, Tag::Explicit(0))];
    assert_eq!(TagDomain::analyze(&members).err(), Some(vec![DomainError::DuplicateTag(2)]));
}

#[test]
fn range_options() {
    let ok = vec![opt(OptionKey::Size, Some(6))];
    assert_eq!(range_properties(&ok), Ok(WidthDescriptor { shift: 0, bits_len: 6 }));
    let both = vec![opt(OptionKey::Offset, Some(2)), opt(OptionKey::Size, Some(3))];
    assert_eq!(range_properties(&both), Ok(WidthDescriptor { shift: 2, bits_len: 3 }));
    let bad = vec![
        opt(OptionKey::Size, None),
        opt(OptionKey::Unknown, Some(1)),
        opt(OptionKey::Offset, Some(1)),
        opt(OptionKey::Offset, Some(2)),
    ];
    assert_eq!(
        range_properties(&bad),
        Err(vec![
            WrapperError::Malformed(0),
            WrapperError::UnknownOption(1),
            WrapperError::DuplicateOption(3),
            WrapperError::MissingSize,
        ])
    );
}

#[test]
fn wrapped_fields() {
    assert_eq!(raw_field(&vec![]), Err(WrapperError::NoField));
    assert_eq!(raw_field(&vec![Some(BaseType::U8), Some(BaseType::U8)]), Err(WrapperError::TooManyFields));
    assert_eq!(raw_field(&vec![None]), Err(WrapperError::NotPrimitive));
    assert_eq!(raw_field(&vec![Some(BaseType::U16)]), Ok(BaseType::U16));
}

#[test]
fn wrapper_declarations() {
    let fields = vec![Some(BaseType::U8)];
    assert_eq!(wrapper_domain(&None, &fields), Err(vec![WrapperError::MissingRange]));
    let range = Some(vec![opt(OptionKey::Size, Some(5))]);
    assert_eq!(
        wrapper_domain(&range, &fields),
        Ok(WrapperDomain { base: BaseType::U8, width: WidthDescriptor { shift: 0, bits_len: 5 } })
    );
    assert_eq!(wrapper_domain(&range, &vec![None]), Err(vec![WrapperError::NotPrimitive]));
}

#[test]
fn declarations() {
    assert!(matches!(analyze_declaration(&Declaration::Union), Err(DeclarationError::Union)));
    let e = analyze_declaration(&Declaration::Enum(vec![m(false, Tag::Implicit), m(false, Tag::Explicit(8))]));
    match e {
        Ok(FieldDomain::Tags(d)) => assert_eq!(d.width(), WidthDescriptor { shift: 3, bits_len: 1 }),
        _ => panic!("expected a tag domain"),
    }
    let s = analyze_declaration(&Declaration::Struct {
        range: Some(vec![opt(OptionKey::Size, Some(6))]),
        fields: vec![Some(BaseType::U8)],
    });
    match s {
        Ok(d) => assert_eq!(d.width(), WidthDescriptor { shift: 0, bits_len: 6 }),
        _ => panic!("expected a wrapper domain"),
    }
    let bad = analyze_declaration(&Declaration::Struct { range: None, fields: vec![] });
    assert!(matches!(bad, Err(DeclarationError::Wrapper(e)) if e == vec![WrapperError::MissingRange]));
    let empty = analyze_declaration(&Declaration::Enum(vec![]));
    assert!(matches!(empty, Err(DeclarationError::Domain(e)) if e == vec![DomainError::Empty]));
}

#[test]
fn record_definitions() {
    let widths = vec![WidthDescriptor { shift: 0, bits_len: 1 }, WidthDescriptor { shift: 0, bits_len: 2 }];
    let attrs = vec![Attribute::Doc, Attribute::Other, Attribute::Derive(vec![None])];
    assert_eq!(define_record(&attrs, &widths, BaseType::U8).err(), Some(RecordError::InvalidAttributes(vec![1])));
    let attrs = vec![Attribute::Derive(vec![Some(Derive::Clone), None]), Attribute::MalformedDerive];
    assert_eq!(
        define_record(&attrs, &widths, BaseType::U8).err(),
        Some(RecordError::UnknownDerives(vec![(0, 1)]))
    );
    let attrs = vec![
        Attribute::Doc,
        Attribute::Derive(vec![Some(Derive::Clone), Some(Derive::Copy)]),
        Attribute::Derive(vec![Some(Derive::Ord)]),
    ];
    let wide = vec![WidthDescriptor { shift: 0, bits_len: 9 }];
    assert_eq!(
        define_record(&attrs, &wide, BaseType::U8).err(),
        Some(RecordError::Composition(vec![CompositionError::TooWide]))
    );
    let def = define_record(&attrs, &widths, BaseType::U8).ok().unwrap();
    assert_eq!(def.derives, vec![Derive::Clone, Derive::Copy, Derive::Ord]);
    assert_eq!(def.layout.slot(1).offset, 1);
}
