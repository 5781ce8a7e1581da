use serde_short::codec::{decode, encode};
use serde_short::parse::{
    parse_attrs, ConstructError, DataShape, FieldsKind, Input, MetaItem, MetaKind, RawAttr,
    RawVariant, TypeDefinition,
};
use serde_short::repr::ReprChoice;

fn unit_variant(name: &str, disc: Option<i64>) -> RawVariant {
    RawVariant {
        ident: name.to_string(),
        fields: FieldsKind::Unit,
        attrs: Vec::new(),
        discriminant: disc,
    }
}

fn marker(ns: &str, name: &str) -> RawAttr {
    RawAttr {
        namespace: ns.to_string(),
        items: Some(vec![MetaItem { name: name.to_string(), kind: MetaKind::Marker }]),
    }
}

fn catch_all(mut v: RawVariant) -> RawVariant {
    v.attrs.push(marker("serde", "other"));
    v
}

fn enum_def(variants: Vec<RawVariant>, attrs: Vec<RawAttr>) -> TypeDefinition {
    TypeDefinition {
        ident: "Test".to_string(),
        shape: DataShape::Enumeration,
        is_generic: false,
        variants,
        attrs,
    }
}

fn resolved_of(input: &Input) -> Vec<i128> {
    input.variants.iter().map(|v| v.resolved).collect()
}

#[test]
fn gap_filling() {
    let def = enum_def(
        vec![
            unit_variant("A", None),
            unit_variant("B", Some(5)),
            unit_variant("C", None),
        ],
        vec![marker("repr", "C")],
    );
    let input = Input::parse(&def).unwrap();
    assert_eq!(resolved_of(&input), vec![0, 5, 6]);
    assert_eq!(input.repr, ReprChoice::U8);
    assert_eq!(input.ident, "Test");
    assert_eq!(input.variants[1].ident, "B");
    assert_eq!(input.variants[1].discriminant, Some(5));
    assert_eq!(input.default_variant, None);
}

#[test]
fn repr_names() {
    assert_eq!(ReprChoice::U8.name(), "u8");
    assert_eq!(ReprChoice::U16.name(), "u16");
    assert_eq!(ReprChoice::U32.name(), "u32");
    assert_eq!(ReprChoice::I8.name(), "i8");
    assert_eq!(ReprChoice::I16.name(), "i16");
    assert_eq!(ReprChoice::I32.name(), "i32");
}

#[test]
fn gap_filling_starts_at_zero() {
    let def = enum_def(
        vec![unit_variant("A", None), unit_variant("B", None)],
        vec![marker("repr", "C")],
    );
    let input = Input::parse(&def).unwrap();
    assert_eq!(resolved_of(&input), vec![0, 1]);
}

#[test]
fn infer_unsigned_u8() {
    let def = enum_def(
        vec![
            unit_variant("A", Some(0)),
            unit_variant("B", Some(1)),
            unit_variant("C", Some(5)),
            unit_variant("D", Some(7)),
        ],
        vec![marker("repr", "C")],
    );
    let input = Input::parse(&def).unwrap();
    assert_eq!(input.repr, ReprChoice::U8);
}

#[test]
fn infer_unsigned_u16() {
    let def = enum_def(
        vec![unit_variant("A", Some(0)), unit_variant("B", Some(300))],
        vec![marker("repr", "C")],
    );
    let input = Input::parse(&def).unwrap();
    assert_eq!(input.repr, ReprChoice::U16);
}

#[test]
fn infer_unsigned_u32() {
    let def = enum_def(
        vec![unit_variant("A", Some(0)), unit_variant("B", Some(70000))],
        vec![marker("repr", "C")],
    );
    let input = Input::parse(&def).unwrap();
    assert_eq!(input.repr, ReprChoice::U32);
}

#[test]
fn infer_signed_i8() {
    let def = enum_def(
        vec![
            unit_variant("A", Some(-1)),
            unit_variant("B", Some(0)),
            unit_variant("C", Some(5)),
        ],
        vec![marker("repr", "C")],
    );
    let input = Input::parse(&def).unwrap();
    assert_eq!(input.repr, ReprChoice::I8);
}

#[test]
fn infer_signed_i16() {
    let def = enum_def(
        vec![unit_variant("A", Some(-300)), unit_variant("B", Some(200))],
        vec![marker("repr", "C")],
    );
    let input = Input::parse(&def).unwrap();
    assert_eq!(input.repr, ReprChoice::I16);
}

#[test]
fn unsupported_range_unsigned() {
    let def = enum_def(
        vec![unit_variant("A", Some(0)), unit_variant("B", Some(5_000_000_000))],
        vec![marker("repr", "C")],
    );
    assert_eq!(Input::parse(&def).unwrap_err(), ConstructError::UnsupportedRange);
}

#[test]
fn unsupported_range_signed() {
    let def = enum_def(
        vec![unit_variant("A", Some(-1)), unit_variant("B", Some(3_000_000_000))],
        vec![marker("repr", "C")],
    );
    assert_eq!(Input::parse(&def).unwrap_err(), ConstructError::UnsupportedRange);
}

#[test]
fn fixed_repr_taken_verbatim() {
    let def = enum_def(
        vec![unit_variant("A", Some(0)), unit_variant("B", Some(1))],
        vec![marker("repr", "u16")],
    );
    let input = Input::parse(&def).unwrap();
    assert_eq!(input.repr, ReprChoice::U16);
    assert_eq!(input.repr.name(), "u16");
}

#[test]
fn last_repr_declaration_wins() {
    let def = enum_def(
        vec![unit_variant("A", Some(0)), unit_variant("B", Some(300))],
        vec![marker("repr", "u8"), marker("repr", "C")],
    );
    let input = Input::parse(&def).unwrap();
    assert_eq!(input.repr, ReprChoice::U16);
    let def = enum_def(
        vec![unit_variant("A", Some(0)), unit_variant("B", Some(300))],
        vec![marker("repr", "C"), marker("repr", "u8")],
    );
    let input = Input::parse(&def).unwrap();
    assert_eq!(input.repr, ReprChoice::U8);
}

#[test]
fn unknown_repr_name_is_rejected() {
    let def = enum_def(
        vec![unit_variant("A", Some(0))],
        vec![marker("repr", "usize")],
    );
    assert_eq!(Input::parse(&def).unwrap_err(), ConstructError::UnsupportedRange);
}

#[test]
fn missing_repr_is_rejected() {
    let def = enum_def(vec![unit_variant("A", Some(0))], Vec::new());
    let e = Input::parse(&def).unwrap_err();
    assert_eq!(e, ConstructError::MissingRepresentation);
    assert_eq!(e.message(), "missing #[repr(...)] attribute");
}

#[test]
fn catch_all_decode() {
    let def = enum_def(
        vec![
            unit_variant("Two", Some(2)),
            unit_variant("Three", Some(3)),
            catch_all(unit_variant("Unknown", None)),
        ],
        vec![marker("repr", "C")],
    );
    let input = Input::parse(&def).unwrap();
    assert_eq!(input.default_variant, Some(2));
    assert_eq!(decode(&input, 2).unwrap(), 0);
    assert_eq!(decode(&input, 3).unwrap(), 1);
    assert_eq!(decode(&input, 99).unwrap(), 2);
}

#[test]
fn no_catch_all_decode() {
    let def = enum_def(
        vec![unit_variant("Two", Some(2)), unit_variant("Three", Some(3))],
        vec![marker("repr", "C")],
    );
    let input = Input::parse(&def).unwrap();
    let e = decode(&input, 99).unwrap_err();
    assert_eq!(e.value, 99);
    assert_eq!(e.expected, vec![2, 3]);
    assert_eq!(e.message(), "invalid value: 99, expected 2 or 3");
}

#[test]
fn error_message_single() {
    let def = enum_def(vec![unit_variant("Two", Some(2))], vec![marker("repr", "C")]);
    let input = Input::parse(&def).unwrap();
    let e = decode(&input, 9).unwrap_err();
    assert_eq!(e.message(), "invalid value: 9, expected 2");
}

#[test]
fn error_message_many() {
    let def = enum_def(
        vec![
            unit_variant("Two", Some(2)),
            unit_variant("Three", Some(3)),
            unit_variant("Five", Some(5)),
            unit_variant("Seven", Some(7)),
        ],
        vec![marker("repr", "C")],
    );
    let input = Input::parse(&def).unwrap();
    let e = decode(&input, 9).unwrap_err();
    assert_eq!(e.message(), "invalid value: 9, expected one of: 2, 3, 5, 7");
}

#[test]
fn error_message_negative_values() {
    let def = enum_def(
        vec![
            unit_variant("M", Some(-1)),
            unit_variant("Z", Some(0)),
            unit_variant("F", Some(5)),
        ],
        vec![marker("repr", "C")],
    );
    let input = Input::parse(&def).unwrap();
    let e = decode(&input, 99).unwrap_err();
    assert_eq!(e.message(), "invalid value: 99, expected one of: -1, 0, 5");
}

#[test]
fn round_trip_all_variants() {
    let def = enum_def(
        vec![
            unit_variant("M", Some(-1)),
            unit_variant("Z", None),
            unit_variant("F", Some(5)),
            unit_variant("G", None),
        ],
        vec![marker("repr", "C")],
    );
    let input = Input::parse(&def).unwrap();
    assert_eq!(resolved_of(&input), vec![-1, 0, 5, 6]);
    for v in 0..input.variants.len() {
        let w = encode(&input, v);
        assert_eq!(decode(&input, w).unwrap(), v);
    }
}

#[test]
fn encode_is_the_resolved_discriminant() {
    let def = enum_def(
        vec![unit_variant("Two", Some(2)), unit_variant("Three", Some(3))],
        vec![marker("repr", "C")],
    );
    let input = Input::parse(&def).unwrap();
    assert_eq!(encode(&input, 0), 2);
    assert_eq!(encode(&input, 1), 3);
}

#[test]
fn first_match_shadows_duplicates() {
    let def = enum_def(
        vec![unit_variant("A", Some(1)), unit_variant("B", Some(1))],
        vec![marker("repr", "C")],
    );
    let input = Input::parse(&def).unwrap();
    assert_eq!(decode(&input, 1).unwrap(), 0);
}

#[test]
fn declaration_order_range_is_kept() {
    // Inference reads the first and last resolved discriminants, not the true
    // minimum and maximum, so a negative value after a nonnegative first one
    // still selects the unsigned family and is truncated on the wire.
    let def = enum_def(
        vec![unit_variant("A", Some(5)), unit_variant("B", Some(-3))],
        vec![marker("repr", "C")],
    );
    let input = Input::parse(&def).unwrap();
    assert_eq!(input.repr, ReprChoice::U8);
    assert_eq!(encode(&input, 1), 253);
    assert_eq!(decode(&input, 253).unwrap(), 1);
}

#[test]
fn validation_has_fields() {
    let mut v = unit_variant("A", None);
    v.fields = FieldsKind::Named;
    let def = enum_def(vec![unit_variant("Z", None), v], vec![marker("repr", "C")]);
    let e = Input::parse(&def).unwrap_err();
    assert_eq!(e, ConstructError::HasFields(1));
    assert_eq!(e.message(), "must be a unit variant to use serde_short derive");
}

#[test]
fn validation_multiple_catch_all() {
    let def = enum_def(
        vec![
            catch_all(unit_variant("A", None)),
            catch_all(unit_variant("B", None)),
        ],
        vec![marker("repr", "C")],
    );
    let e = Input::parse(&def).unwrap_err();
    assert_eq!(e, ConstructError::MultipleCatchAll);
    assert_eq!(e.message(), "only one variant can be #[serde(other)]");
}

#[test]
fn validation_generic() {
    let mut def = enum_def(vec![unit_variant("A", None)], vec![marker("repr", "C")]);
    def.is_generic = true;
    let e = Input::parse(&def).unwrap_err();
    assert_eq!(e, ConstructError::Generic);
    assert_eq!(e.message(), "generic enum is not supported");
}

#[test]
fn validation_not_an_enum() {
    let mut def = enum_def(Vec::new(), vec![marker("repr", "C")]);
    def.shape = DataShape::Record;
    let e = Input::parse(&def).unwrap_err();
    assert_eq!(e, ConstructError::NotAnEnum);
    assert_eq!(e.message(), "input must be an enum");
}

#[test]
fn validation_empty() {
    let def = enum_def(Vec::new(), vec![marker("repr", "C")]);
    let e = Input::parse(&def).unwrap_err();
    assert_eq!(e, ConstructError::Empty);
    assert_eq!(e.message(), "there must be at least one variant");
}

#[test]
fn attr_scan_recognizes_only_the_bare_marker() {
    let marked = catch_all(unit_variant("A", None));
    assert!(parse_attrs(&marked).is_default);

    let mut keyed = unit_variant("A", None);
    keyed.attrs.push(RawAttr {
        namespace: "serde".to_string(),
        items: Some(vec![MetaItem { name: "other".to_string(), kind: MetaKind::Value }]),
    });
    assert!(!parse_attrs(&keyed).is_default);

    let mut grouped = unit_variant("A", None);
    grouped.attrs.push(RawAttr {
        namespace: "serde".to_string(),
        items: Some(vec![MetaItem { name: "other".to_string(), kind: MetaKind::List }]),
    });
    assert!(!parse_attrs(&grouped).is_default);

    let mut foreign = unit_variant("A", None);
    foreign.attrs.push(marker("notserde", "other"));
    assert!(!parse_attrs(&foreign).is_default);

    let mut unrelated = unit_variant("A", None);
    unrelated.attrs.push(marker("serde", "rename"));
    assert!(!parse_attrs(&unrelated).is_default);

    let mut bare = unit_variant("A", None);
    bare.attrs.push(RawAttr { namespace: "serde".to_string(), items: None });
    assert!(!parse_attrs(&bare).is_default);
}

#[test]
fn unrelated_type_attrs_are_ignored() {
    let def = enum_def(
        vec![unit_variant("A", Some(0))],
        vec![
            marker("derive", "Debug"),
            RawAttr { namespace: "repr".to_string(), items: None },
            marker("repr", "C"),
        ],
    );
    let input = Input::parse(&def).unwrap();
    assert_eq!(input.repr, ReprChoice::U8);
}
