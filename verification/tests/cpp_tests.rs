//! Parsing of the class-declaration grammar.

use cppbind::cpp::{Accessibility, Class, DeclErrorKind, Declarations};

#[test]
fn parse_single_default_constructor() {
    let class = Class::parse(b"class class1 {\npublic:\n    class1();\n};\n").unwrap();
    assert_eq!(class.name, b"class1".to_vec());
    assert_eq!(class.ctors.len(), 1);
    assert_eq!(class.ctors[0].access, Accessibility::Public);
    assert!(class.ctors[0].params.is_empty());
    assert!(class.members.is_empty());
}

#[test]
fn parse_records_parameter_text() {
    let class =
        Class::parse(b"class Foo { public: Foo(); Foo(unsigned long x, const char *p); };")
            .unwrap();
    assert_eq!(class.ctors.len(), 2);
    assert!(class.ctors[0].params.is_empty());
    assert_eq!(
        class.ctors[1].params,
        vec![b"unsigned long x".to_vec(), b"const char *p".to_vec()]
    );
}

#[test]
fn parse_allows_trailing_comma() {
    let class = Class::parse(b"class Foo { public: Foo(int a, ); };").unwrap();
    assert_eq!(class.ctors[0].params, vec![b"int a".to_vec()]);
}

#[test]
fn parse_defaults_to_private_accessibility() {
    let class = Class::parse(b"class Foo { Foo(); };").unwrap();
    assert_eq!(class.ctors[0].access, Accessibility::Private);
}

#[test]
fn parse_tracks_accessibility_sections() {
    let class =
        Class::parse(b"class Foo { public: Foo(); private: Foo(int x); public: Foo(int y); };")
            .unwrap();
    assert_eq!(class.ctors.len(), 3);
    assert_eq!(class.ctors[0].access, Accessibility::Public);
    assert_eq!(class.ctors[1].access, Accessibility::Private);
    assert_eq!(class.ctors[2].access, Accessibility::Public);
}

#[test]
fn parse_keeps_constructor_spans() {
    let src = b"class Foo { public: Foo(); };";
    let class = Class::parse(src).unwrap();
    let span = class.ctors[0].span;
    assert_eq!(&src[span..span + 3], b"Foo");
}

#[test]
fn parse_rejects_missing_class_keyword() {
    let err = Class::parse(b"struct Foo { };").unwrap_err();
    assert_eq!(err.kind, DeclErrorKind::ExpectedClass);
    assert_eq!(err.offset, 0);
}

#[test]
fn parse_rejects_missing_name() {
    let err = Class::parse(b"class { };").unwrap_err();
    assert_eq!(err.kind, DeclErrorKind::ExpectedName);
}

#[test]
fn parse_rejects_missing_body() {
    let err = Class::parse(b"class Foo;").unwrap_err();
    assert_eq!(err.kind, DeclErrorKind::ExpectedBody);
}

#[test]
fn parse_rejects_unsupported_members() {
    let src = b"class Foo { public: int x; };";
    let err = Class::parse(src).unwrap_err();
    assert_eq!(err.kind, DeclErrorKind::UnsupportedMember);
    assert_eq!(&src[err.offset..err.offset + 3], b"int");
}

#[test]
fn parse_rejects_function_members() {
    let src = b"class class1 { public: class1(); const char *value() const; };";
    let err = Class::parse(src).unwrap_err();
    assert_eq!(err.kind, DeclErrorKind::UnsupportedMember);
    assert_eq!(&src[err.offset..err.offset + 5], b"const");
}

#[test]
fn parse_rejects_non_member_tokens_in_body() {
    let err = Class::parse(b"class Foo { 42 };").unwrap_err();
    assert_eq!(err.kind, DeclErrorKind::ExpectedMember);
}

#[test]
fn parse_rejects_constructor_without_parentheses() {
    let err = Class::parse(b"class Foo { public: Foo; };").unwrap_err();
    assert_eq!(err.kind, DeclErrorKind::ExpectedParen);
}

#[test]
fn parse_rejects_missing_final_semicolon() {
    let err = Class::parse(b"class Foo { public: Foo(); }").unwrap_err();
    assert_eq!(err.kind, DeclErrorKind::ExpectedSemicolon);
}

#[test]
fn parse_rejects_missing_constructor_semicolon() {
    let err = Class::parse(b"class Foo { public: Foo() };").unwrap_err();
    assert_eq!(err.kind, DeclErrorKind::ExpectedSemicolon);
}

#[test]
fn parse_rejects_missing_colon_after_label() {
    let err = Class::parse(b"class Foo { public Foo(); };").unwrap_err();
    assert_eq!(err.kind, DeclErrorKind::ExpectedColon);
}

#[test]
fn parse_rejects_unterminated_parameters() {
    let err = Class::parse(b"class Foo { public: Foo(int a").unwrap_err();
    assert_eq!(err.kind, DeclErrorKind::ExpectedParen);
}

#[test]
fn parse_rejects_empty_parameter() {
    let err = Class::parse(b"class Foo { public: Foo(, int a); };").unwrap_err();
    assert_eq!(err.kind, DeclErrorKind::ExpectedParam);
}

#[test]
fn parse_rejects_trailing_garbage() {
    let err = Class::parse(b"class Foo { public: Foo(); }; extra").unwrap_err();
    assert_eq!(err.kind, DeclErrorKind::ExpectedEnd);
}

#[test]
fn parse_declarations_of_empty_input() {
    let decls = Declarations::parse(b"   \n\t ").unwrap();
    assert!(decls.classes.is_empty());
}

#[test]
fn parse_declarations_in_order() {
    let decls = Declarations::parse(
        b"class Foo { public: Foo(); };\nclass Bar { public: Bar(); };\n",
    )
    .unwrap();
    assert_eq!(decls.classes.len(), 2);
    assert_eq!(decls.classes[0].name, b"Foo".to_vec());
    assert_eq!(decls.classes[1].name, b"Bar".to_vec());
}

#[test]
fn parse_declarations_rejects_stray_tokens() {
    let err = Declarations::parse(b"class Foo { public: Foo(); }; 42").unwrap_err();
    assert_eq!(err.kind, DeclErrorKind::ExpectedClass);
}
