//! Round trips and decode behaviour of the symbol name codec.

use cppbind::symbol::{Name, Segment, Signature, Symbol, SymbolError, TemplateArg, Type};

fn ident(s: &str) -> Segment {
    Segment::Ident(s.as_bytes().to_vec())
}

fn targ(s: &str) -> Segment {
    Segment::TemplateArg(TemplateArg::Ident(s.as_bytes().to_vec()))
}

#[test]
fn encode_ctor_symbol() {
    let sym = Symbol::new(
        Name::Nested(vec![ident("Foo"), Segment::Ctor]),
        Some(Signature::new(vec![Type::Void])),
    );
    assert_eq!(sym.to_itanium(), b"_ZN3FooC1Ev".to_vec());
}

#[test]
fn encode_dtor_symbol() {
    let sym = Symbol::new(
        Name::Nested(vec![ident("Foo"), Segment::Dtor]),
        Some(Signature::new(vec![Type::Void])),
    );
    assert_eq!(sym.to_itanium(), b"_ZN3FooD1Ev".to_vec());
}

#[test]
fn encode_long_identifier_length() {
    let sym = Symbol::new(Name::Nested(vec![ident("Constructor")]), None);
    assert_eq!(sym.to_itanium(), b"_ZN11ConstructorE".to_vec());
}

#[test]
fn encode_operator_new_delete_with_types() {
    let sym = Symbol::new(
        Name::Nested(vec![ident("Foo"), Segment::New]),
        Some(Signature::new(vec![Type::Ulong])),
    );
    assert_eq!(sym.to_itanium(), b"_ZN3FoonwEm".to_vec());
    let sym = Symbol::new(
        Name::Nested(vec![ident("Foo"), Segment::Delete]),
        Some(Signature::new(vec![
            Type::Ptr { c: true, t: Box::new(Type::Void) },
            Type::Ulong,
        ])),
    );
    assert_eq!(sym.to_itanium(), b"_ZN3FoodlEPKvm".to_vec());
}

#[test]
fn encode_pointer_constness() {
    let sym = Symbol::new(
        Name::Nested(vec![ident("Foo")]),
        Some(Signature::new(vec![Type::Ptr {
            c: false,
            t: Box::new(Type::Ptr { c: true, t: Box::new(Type::Ulong) }),
        }])),
    );
    assert_eq!(sym.to_itanium(), b"_ZN3FooEPPKm".to_vec());
}

#[test]
fn round_trip_ctor_symbol() {
    let sym = Symbol::new(
        Name::Nested(vec![ident("Foo"), Segment::Ctor]),
        Some(Signature::new(vec![Type::Void])),
    );
    let encoded = sym.to_itanium();
    assert_eq!(Symbol::parse(&encoded).unwrap(), sym);
}

#[test]
fn round_trip_dtor_symbol() {
    let sym = Symbol::new(
        Name::Nested(vec![ident("some_class"), Segment::Dtor]),
        Some(Signature::new(vec![Type::Void])),
    );
    let encoded = sym.to_itanium();
    assert_eq!(Symbol::parse(&encoded).unwrap(), sym);
}

#[test]
fn round_trip_all_segment_kinds_and_types() {
    let sym = Symbol::new(
        Name::Nested(vec![
            ident("cppbind"),
            targ("Foo"),
            Segment::Ctor,
            Segment::Dtor,
            Segment::New,
            Segment::Delete,
        ]),
        Some(Signature::new(vec![
            Type::Void,
            Type::Ulong,
            Type::Ptr { c: true, t: Box::new(Type::Ulong) },
        ])),
    );
    let encoded = sym.to_itanium();
    assert_eq!(Symbol::parse(&encoded).unwrap(), sym);
}

#[test]
fn round_trip_metadata_symbol() {
    let sym = Symbol::new(
        Name::Nested(vec![ident("cppbind"), ident("type_info"), targ("Foo"), ident("size")]),
        None,
    );
    let encoded = sym.to_itanium();
    assert_eq!(encoded, b"_ZN7cppbind9type_infoI3FooE4sizeE".to_vec());
    assert_eq!(Symbol::parse(&encoded).unwrap(), sym);
}

#[test]
fn decode_metadata_symbol() {
    let sym = Symbol::parse(b"_ZN7cppbind9type_infoI3FooE5alignE").unwrap();
    let expected = Symbol::new(
        Name::Nested(vec![ident("cppbind"), ident("type_info"), targ("Foo"), ident("align")]),
        None,
    );
    assert_eq!(sym, expected);
}

#[test]
fn decode_underscore_prefixed_convention() {
    let a = Symbol::parse(b"_ZN3FooC1Ev").unwrap();
    let b = Symbol::parse(b"__ZN3FooC1Ev").unwrap();
    assert_eq!(a, b);
}

#[test]
fn decode_rejects_unrecognized_prefixes() {
    for input in [
        &b""[..],
        b"x",
        b"foo",
        b"Z_N3FooE",
        b"_Y3Foo",
        b"_",
        b"__",
        b"ZN3FooE",
        b"\x01_ZN3FooE",
    ] {
        assert_eq!(
            Symbol::parse(input).unwrap_err(),
            SymbolError::UnrecognizedPrefix,
            "input {:?}",
            input
        );
    }
}

#[test]
fn decode_rejects_unsupported_grammar() {
    for input in [
        &b"_Z3foo"[..],        // unscoped names are not supported
        b"_ZN",                // truncated
        b"_ZN3Fo",             // identifier shorter than its length
        b"_ZN0E",              // zero-length identifier
        b"_ZN2A.E",            // byte outside the identifier charset
        b"_ZN1AIX1BEE",        // expression template argument
        b"_ZN1AIL1BEE",        // literal template argument
        b"_ZN1AIJEE",          // argument pack
        b"_ZN3FooEx",          // unknown type code after the name
        b"_ZN3FooC2Ev",        // only the complete-object constructor code
        b"_ZN3FooE\x20",       // stray byte after the name
    ] {
        assert_eq!(
            Symbol::parse(input).unwrap_err(),
            SymbolError::UnknownSymbol,
            "input {:?}",
            input
        );
    }
}

#[test]
fn decode_splits_template_groups() {
    // One group with two arguments decodes to two segments.
    let sym = Symbol::parse(b"_ZN1AI1B1CEE").unwrap();
    let expected = Symbol::new(Name::Nested(vec![ident("A"), targ("B"), targ("C")]), None);
    assert_eq!(sym, expected);
}

#[test]
fn name_accessor_returns_segments() {
    let sym = Symbol::parse(b"_ZN3BarC1Ev").unwrap();
    match sym.name() {
        Name::Nested(segs) => {
            assert_eq!(segs.len(), 2);
            assert_eq!(segs[0], ident("Bar"));
            assert_eq!(segs[1], Segment::Ctor);
        }
        Name::Unscoped(_) => panic!("expected a nested name"),
    }
}
