//! Loading registries from archives of real object files, and binding
//! generation against them.

use cppbind::cpp::{self, Class, GenError};
use cppbind::meta::{Metadata, MetadataError, ObjectError, SymbolError, TypeInfo};

/// A common-archive container holding the given members.
fn ar(members: &[(&str, &[u8])]) -> Vec<u8> {
    let mut out = b"!<arch>\n".to_vec();
    for (name, data) in members {
        let mut field = |text: String, width: usize| {
            let mut bytes = text.into_bytes();
            assert!(bytes.len() <= width);
            bytes.resize(width, b' ');
            out.extend_from_slice(&bytes);
        };
        field(format!("{}/", name), 16);
        field("0".to_string(), 12);
        field("0".to_string(), 6);
        field("0".to_string(), 6);
        field("644".to_string(), 8);
        field(format!("{}", data.len()), 10);
        out.extend_from_slice(b"`\n");
        out.extend_from_slice(data);
        if data.len() % 2 == 1 {
            out.push(b'\n');
        }
    }
    out
}

/// An object file of the given format with one data section holding
/// `data` and one defined data symbol per entry of `syms`.
fn object_with_syms(
    format: object::BinaryFormat,
    syms: &[(&str, u64, u64)],
    data: &[u8],
) -> Vec<u8> {
    let mut obj = object::write::Object::new(
        format,
        object::Architecture::X86_64,
        object::Endianness::Little,
    );
    let segment = if format == object::BinaryFormat::MachO {
        b"__DATA".to_vec()
    } else {
        Vec::new()
    };
    let section_name = if format == object::BinaryFormat::MachO {
        b"__const".to_vec()
    } else {
        b".rodata".to_vec()
    };
    let sec = obj.add_section(segment, section_name, object::SectionKind::ReadOnlyData);
    obj.set_section_data(sec, data.to_vec(), 8);
    for (name, value, size) in syms {
        obj.add_symbol(object::write::Symbol {
            name: name.as_bytes().to_vec(),
            value: *value,
            size: *size,
            kind: object::SymbolKind::Data,
            scope: object::SymbolScope::Linkage,
            weak: false,
            section: object::write::SymbolSection::Section(sec),
            flags: object::SymbolFlags::None,
        });
    }
    obj.write().unwrap()
}

fn le8(v: u64) -> [u8; 8] {
    v.to_le_bytes()
}

/// An ELF64 member advertising `cppbind::type_info<Foo>::size == 24` and
/// `cppbind::type_info<Foo>::align == 8`.
fn foo_elf_member() -> Vec<u8> {
    let mut data = Vec::new();
    data.extend_from_slice(&le8(24));
    data.extend_from_slice(&le8(8));
    object_with_syms(
        object::BinaryFormat::Elf,
        &[
            ("_ZN7cppbind9type_infoI3FooE4sizeE", 0, 8),
            ("_ZN7cppbind9type_infoI3FooE5alignE", 8, 8),
        ],
        &data,
    )
}

#[test]
fn load_reads_size_and_align_from_elf_member() {
    let archive = ar(&[("m0.o", &foo_elf_member())]);
    let meta = Metadata::from_archive(&archive).unwrap();
    assert_eq!(
        meta.get_type(b"Foo"),
        Some(&TypeInfo { size: Some(24), align: Some(8) })
    );
    assert_eq!(meta.get_type(b"Bar"), None);
}

#[test]
fn load_accepts_macho_member_and_skips_unrelated_symbols() {
    let member = object_with_syms(
        object::BinaryFormat::MachO,
        &[("plain_macho_symbol", 0, 0), ("_ZN5other3fooE", 0, 0)],
        &le8(0),
    );
    assert_eq!(&member[..4], &[0xcf, 0xfa, 0xed, 0xfe]);
    let archive = ar(&[("m0.o", &member)]);
    let meta = Metadata::from_archive(&archive).unwrap();
    assert_eq!(meta.get_type(b"other"), None);
}

#[test]
fn load_reads_symbols_of_macho_member() {
    // The format records no symbol sizes, so a metadata fact in a Mach-O
    // member is a corrupt value: its slice cannot be eight bytes.
    let member = object_with_syms(
        object::BinaryFormat::MachO,
        &[("_ZN7cppbind9type_infoI3BazE4sizeE", 0, 8)],
        &le8(40),
    );
    let archive = ar(&[("m0.o", &member)]);
    let err = Metadata::from_archive(&archive).unwrap_err();
    assert!(matches!(
        err,
        MetadataError::ScanObjectFailed(
            _,
            ObjectError::ParseSymbolFailed(_, SymbolError::CorruptMetadataValue),
        )
    ));
}

#[test]
fn load_fails_on_unknown_member_format() {
    let archive = ar(&[("m0.o", &foo_elf_member()), ("junk.o", b"JUNKDATA")]);
    let err = Metadata::from_archive(&archive).unwrap_err();
    assert_eq!(err, MetadataError::UnknownMemberFormat(b"JUNK".to_vec()));
}

#[test]
fn load_fails_on_short_unknown_member() {
    let archive = ar(&[("tiny.o", b"ab")]);
    let err = Metadata::from_archive(&archive).unwrap_err();
    assert_eq!(err, MetadataError::UnknownMemberFormat(b"ab".to_vec()));
}

#[test]
fn load_fails_on_unparseable_elf_member() {
    let mut member = b"\x7fELF".to_vec();
    member.extend_from_slice(b"not really an object");
    let archive = ar(&[("bad.o", &member)]);
    let err = Metadata::from_archive(&archive).unwrap_err();
    assert_eq!(err, MetadataError::ParseObjectFailed(b"bad.o".to_vec()));
}

#[test]
fn load_fails_on_unparseable_macho_member() {
    let mut member = vec![0xcf, 0xfa, 0xed, 0xfe];
    member.extend_from_slice(b"not really an object");
    let archive = ar(&[("bad.o", &member)]);
    let err = Metadata::from_archive(&archive).unwrap_err();
    assert_eq!(err, MetadataError::ParseObjectFailed(b"bad.o".to_vec()));
}

#[test]
fn load_fails_on_invalid_container() {
    let err = Metadata::from_archive(&b"not an archive at all".to_vec()).unwrap_err();
    assert_eq!(err, MetadataError::ParseArchiveFailed);
}

#[test]
fn load_fails_on_bad_member_header() {
    let mut archive = ar(&[("m0.o", &foo_elf_member())]);
    archive.extend_from_slice(&[0u8; 30]);
    let err = Metadata::from_archive(&archive).unwrap_err();
    assert_eq!(err, MetadataError::MemberHeaderFailed(1));
}

#[test]
fn load_reports_member_content_before_later_header_fault() {
    // The members are scanned in archive order: an unknown format in an
    // earlier member surfaces before a later member's broken header.
    let mut archive = ar(&[("junk.o", b"JUNKDATA")]);
    archive.extend_from_slice(&[0u8; 30]);
    let err = Metadata::from_archive(&archive).unwrap_err();
    assert_eq!(err, MetadataError::UnknownMemberFormat(b"JUNK".to_vec()));
}

#[test]
fn load_fails_on_member_data_out_of_range() {
    let mut archive = b"!<arch>\n".to_vec();
    let mut field = |text: String, width: usize| {
        let mut bytes = text.into_bytes();
        bytes.resize(width, b' ');
        archive.extend_from_slice(&bytes);
    };
    field("m0.o/".to_string(), 16);
    field("0".to_string(), 12);
    field("0".to_string(), 6);
    field("0".to_string(), 6);
    field("644".to_string(), 8);
    field("4096".to_string(), 10);
    archive.extend_from_slice(b"`\n");
    archive.extend_from_slice(b"short");
    let err = Metadata::from_archive(&archive).unwrap_err();
    assert_eq!(err, MetadataError::MemberDataFailed(b"m0.o".to_vec()));
}

#[test]
fn load_of_empty_archive_gives_empty_registry() {
    let meta = Metadata::from_archive(&b"!<arch>\n".to_vec()).unwrap();
    assert_eq!(meta.get_type(b"Foo"), None);
}

#[test]
fn load_skips_unrelated_symbols() {
    let mut data = Vec::new();
    data.extend_from_slice(&le8(24));
    data.extend_from_slice(&le8(8));
    let member = object_with_syms(
        object::BinaryFormat::Elf,
        &[
            ("plain_c_symbol", 0, 8),
            ("_ZN5other9type_infoI3FooE4sizeE", 0, 8),
            ("_ZN7cppbind9type_infoI3FooE4sizeE", 0, 8),
            ("_ZN7cppbind9type_infoI3FooE5alignE", 8, 8),
        ],
        &data,
    );
    let archive = ar(&[("m0.o", &member)]);
    let meta = Metadata::from_archive(&archive).unwrap();
    assert_eq!(
        meta.get_type(b"Foo"),
        Some(&TypeInfo { size: Some(24), align: Some(8) })
    );
    assert_eq!(meta.get_type(b"other"), None);
}

#[test]
fn load_fails_on_unexpected_metadata_shape() {
    let member = object_with_syms(
        object::BinaryFormat::Elf,
        &[("_ZN7cppbind5bogusE", 0, 8)],
        &le8(0),
    );
    let archive = ar(&[("m0.o", &member)]);
    let err = Metadata::from_archive(&archive).unwrap_err();
    assert!(matches!(
        err,
        MetadataError::ScanObjectFailed(
            _,
            ObjectError::ParseSymbolFailed(_, SymbolError::UnexpectedMetadataShape),
        )
    ));
}

#[test]
fn load_fails_on_unknown_fact_selector() {
    let member = object_with_syms(
        object::BinaryFormat::Elf,
        &[("_ZN7cppbind9type_infoI3FooE5widthE", 0, 8)],
        &le8(0),
    );
    let archive = ar(&[("m0.o", &member)]);
    let err = Metadata::from_archive(&archive).unwrap_err();
    assert!(matches!(
        err,
        MetadataError::ScanObjectFailed(
            _,
            ObjectError::ParseSymbolFailed(_, SymbolError::UnexpectedMetadataShape),
        )
    ));
}

#[test]
fn load_fails_on_corrupt_metadata_value() {
    // The symbol claims four bytes; a fact must be exactly eight.
    let member = object_with_syms(
        object::BinaryFormat::Elf,
        &[("_ZN7cppbind9type_infoI3FooE4sizeE", 0, 4)],
        &le8(24),
    );
    let archive = ar(&[("m0.o", &member)]);
    let err = Metadata::from_archive(&archive).unwrap_err();
    assert!(matches!(
        err,
        MetadataError::ScanObjectFailed(
            _,
            ObjectError::ParseSymbolFailed(_, SymbolError::CorruptMetadataValue),
        )
    ));
}

#[test]
fn load_lets_later_duplicate_facts_win() {
    let first = object_with_syms(
        object::BinaryFormat::Elf,
        &[("_ZN7cppbind9type_infoI3FooE4sizeE", 0, 8)],
        &le8(24),
    );
    let second = object_with_syms(
        object::BinaryFormat::Elf,
        &[
            ("_ZN7cppbind9type_infoI3FooE4sizeE", 0, 8),
            ("_ZN7cppbind9type_infoI3FooE5alignE", 8, 8),
        ],
        &{
            let mut d = Vec::new();
            d.extend_from_slice(&le8(32));
            d.extend_from_slice(&le8(4));
            d
        },
    );
    let archive = ar(&[("a.o", &first), ("b.o", &second)]);
    let meta = Metadata::from_archive(&archive).unwrap();
    assert_eq!(
        meta.get_type(b"Foo"),
        Some(&TypeInfo { size: Some(32), align: Some(4) })
    );
}

#[test]
fn load_twice_yields_equal_contents() {
    let archive = ar(&[("m0.o", &foo_elf_member())]);
    let a = Metadata::from_archive(&archive).unwrap();
    let b = Metadata::from_archive(&archive).unwrap();
    assert_eq!(a.get_type(b"Foo"), b.get_type(b"Foo"));
    assert_eq!(a.get_type(b"Bar"), b.get_type(b"Bar"));
    assert_eq!(
        a.get_type(b"Foo"),
        Some(&TypeInfo { size: Some(24), align: Some(8) })
    );
}

#[test]
fn generate_binds_storage_and_symbols() {
    let archive = ar(&[("m0.o", &foo_elf_member())]);
    let meta = Metadata::from_archive(&archive).unwrap();
    let decl = Class::parse(b"class Foo { public: Foo(); };").unwrap();
    let binding = cpp::generate(&decl, &meta).unwrap();
    assert_eq!(binding.class, b"Foo".to_vec());
    assert_eq!(binding.size, 24);
    assert_eq!(binding.align, 8);
    assert_eq!(binding.memory_name, b"FooMemory".to_vec());
    assert_eq!(binding.ctors.len(), 1);
    assert_eq!(binding.ctors[0].wrapper, b"new1".to_vec());
    assert_eq!(binding.ctors[0].ffi, b"Foo_ctor1".to_vec());
    assert_eq!(binding.ctors[0].symbol, b"_ZN3FooC1Ev".to_vec());
    assert_eq!(binding.dtor_ffi, b"Foo_dtor".to_vec());
    assert_eq!(binding.dtor_symbol, b"_ZN3FooD1Ev".to_vec());
}

#[test]
fn generate_numbers_several_constructors() {
    let archive = ar(&[("m0.o", &foo_elf_member())]);
    let meta = Metadata::from_archive(&archive).unwrap();
    let decl = Class::parse(b"class Foo { public: Foo(); Foo(); };").unwrap();
    let binding = cpp::generate(&decl, &meta).unwrap();
    assert_eq!(binding.ctors.len(), 2);
    assert_eq!(binding.ctors[0].wrapper, b"new1".to_vec());
    assert_eq!(binding.ctors[1].wrapper, b"new2".to_vec());
    assert_eq!(binding.ctors[1].ffi, b"Foo_ctor2".to_vec());
    assert_eq!(binding.ctors[1].symbol, b"_ZN3FooC1Ev".to_vec());
}

#[test]
fn generate_snake_case_storage_name() {
    let mut data = Vec::new();
    data.extend_from_slice(&le8(1));
    data.extend_from_slice(&le8(1));
    let member = object_with_syms(
        object::BinaryFormat::Elf,
        &[
            ("_ZN7cppbind9type_infoI6class1E4sizeE", 0, 8),
            ("_ZN7cppbind9type_infoI6class1E5alignE", 8, 8),
        ],
        &data,
    );
    let archive = ar(&[("m0.o", &member)]);
    let meta = Metadata::from_archive(&archive).unwrap();
    let decl = Class::parse(b"class class1 { public: class1(); };").unwrap();
    let binding = cpp::generate(&decl, &meta).unwrap();
    assert_eq!(binding.memory_name, b"class1_memory".to_vec());
    assert_eq!(binding.ctors[0].symbol, b"_ZN6class1C1Ev".to_vec());
}

#[test]
fn generate_fails_without_registry_entry() {
    let meta = Metadata::from_archive(&b"!<arch>\n".to_vec()).unwrap();
    let decl = Class::parse(b"class Foo { public: Foo(); };").unwrap();
    let err = cpp::generate(&decl, &meta).unwrap_err();
    assert_eq!(err, GenError::TypeInfoMissing(b"Foo".to_vec()));
}

#[test]
fn generate_fails_on_missing_align() {
    let member = object_with_syms(
        object::BinaryFormat::Elf,
        &[("_ZN7cppbind9type_infoI3FooE4sizeE", 0, 8)],
        &le8(24),
    );
    let archive = ar(&[("m0.o", &member)]);
    let meta = Metadata::from_archive(&archive).unwrap();
    let decl = Class::parse(b"class Foo { public: Foo(); };").unwrap();
    let err = cpp::generate(&decl, &meta).unwrap_err();
    assert_eq!(err, GenError::AlignMissing(b"Foo".to_vec()));
}

#[test]
fn generate_fails_on_missing_size() {
    let member = object_with_syms(
        object::BinaryFormat::Elf,
        &[("_ZN7cppbind9type_infoI3FooE5alignE", 0, 8)],
        &le8(8),
    );
    let archive = ar(&[("m0.o", &member)]);
    let meta = Metadata::from_archive(&archive).unwrap();
    let decl = Class::parse(b"class Foo { public: Foo(); };").unwrap();
    let err = cpp::generate(&decl, &meta).unwrap_err();
    assert_eq!(err, GenError::SizeMissing(b"Foo".to_vec()));
}

#[test]
fn generate_fails_on_parameterized_constructor() {
    let archive = ar(&[("m0.o", &foo_elf_member())]);
    let meta = Metadata::from_archive(&archive).unwrap();
    let decl = Class::parse(b"class Foo { public: Foo(); Foo(unsigned long x); };").unwrap();
    let err = cpp::generate(&decl, &meta).unwrap_err();
    assert_eq!(err, GenError::UnsupportedSignature(1));
}

#[test]
fn render_generates_every_declaration() {
    let archive = ar(&[("m0.o", &foo_elf_member())]);
    let meta = Metadata::from_archive(&archive).unwrap();
    let decls =
        cpp::Declarations::parse(b"class Foo { public: Foo(); };").unwrap();
    let bindings = cpp::render(&decls, &meta).unwrap();
    assert_eq!(bindings.len(), 1);
    assert_eq!(bindings[0].class, b"Foo".to_vec());
}

#[test]
fn render_reports_the_first_failing_class() {
    let archive = ar(&[("m0.o", &foo_elf_member())]);
    let meta = Metadata::from_archive(&archive).unwrap();
    let decls = cpp::Declarations::parse(
        b"class Foo { public: Foo(); }; class Bar { public: Bar(); };",
    )
    .unwrap();
    let err = cpp::render(&decls, &meta).unwrap_err();
    assert_eq!(err, GenError::TypeInfoMissing(b"Bar".to_vec()));
}
