//! Metadata extraction from a compiled static-library archive.
//!
//! [`Metadata::from_archive`] scans every member of an archive, in archive
//! order. Each member must be a 64-bit ELF or a 64-bit little-endian
//! Mach-O object; any other magic is fatal. Every symbol whose decoded
//! name lies in the reserved `cppbind::type_info<Class>::size|align`
//! namespace contributes one fact to the registry; a symbol that matches
//! the namespace but not the expected shape is fatal, and any symbol whose
//! name does not decode is silently skipped as unrelated. The fact value
//! is read from the symbol's defining section: exactly eight bytes at the
//! symbol's address, as a little-endian unsigned integer.

use crate::symbol::{decode_spec, Name, SegView, Segment, Symbol, SymbolView, TemplateArg};
use vstd::prelude::*;
use vstd::slice::slice_index_get;

pub mod obj;
pub mod ty;

pub use self::obj::{
    ArchiveFault, ArchiveFaultView, ArchiveListing, ArchiveListingView, ArMember, ArMemberView,
    RawSymbol, RawSymbolView, SectionBytes, SectionBytesView,
};
pub use self::ty::TypeInfo;

verus! {

/// Failure to interpret one symbol of the reserved metadata namespace.
#[derive(Debug, PartialEq, Eq, Clone, Copy)]
pub enum SymbolError {
    /// The symbol's name bytes could not be read.
    SymbolNameFailed,
    /// The name matches the reserved namespace but not the expected shape.
    UnexpectedMetadataShape,
    /// The symbol's defining section could not be resolved.
    SectionFailed,
    /// The defining section's data could not be read.
    SectionDataFailed,
    /// The fact value is not exactly eight in-range bytes.
    CorruptMetadataValue,
}

/// Failure to scan one object file, attributed to a symbol index.
#[derive(Debug, PartialEq, Eq, Clone, Copy)]
pub enum ObjectError {
    ParseSymbolFailed(usize, SymbolError),
}

/// Failure to load a registry from an archive.
#[derive(Debug, PartialEq, Eq)]
pub enum MetadataError {
    /// The artifact file could not be opened.
    OpenFailed,
    /// The artifact file could not be mapped.
    MapFailed,
    /// The archive container header is invalid.
    ParseArchiveFailed,
    /// A member header is invalid, by member position.
    MemberHeaderFailed(usize),
    /// A member's data range could not be read, by member name.
    MemberDataFailed(Vec<u8>),
    /// A member's magic bytes match no supported object format.
    UnknownMemberFormat(Vec<u8>),
    /// A member did not parse as an object of the detected format.
    ParseObjectFailed(Vec<u8>),
    /// A symbol of a member could not be interpreted.
    ScanObjectFailed(Vec<u8>, ObjectError),
}

/// Mathematical value of a [`MetadataError`].
pub enum MetaErrorView {
    OpenFailed,
    MapFailed,
    ParseArchiveFailed,
    MemberHeaderFailed(usize),
    MemberDataFailed(Seq<u8>),
    UnknownMemberFormat(Seq<u8>),
    ParseObjectFailed(Seq<u8>),
    ScanObjectFailed(Seq<u8>, ObjectError),
}

impl View for MetadataError {
    type V = MetaErrorView;

    open spec fn view(&self) -> MetaErrorView {
        match self {
            MetadataError::OpenFailed => MetaErrorView::OpenFailed,
            MetadataError::MapFailed => MetaErrorView::MapFailed,
            MetadataError::ParseArchiveFailed => MetaErrorView::ParseArchiveFailed,
            MetadataError::MemberHeaderFailed(i) => MetaErrorView::MemberHeaderFailed(*i),
            MetadataError::MemberDataFailed(n) => MetaErrorView::MemberDataFailed(n@),
            MetadataError::UnknownMemberFormat(b) => MetaErrorView::UnknownMemberFormat(b@),
            MetadataError::ParseObjectFailed(n) => MetaErrorView::ParseObjectFailed(n@),
            MetadataError::ScanObjectFailed(n, e) => MetaErrorView::ScanObjectFailed(n@, *e),
        }
    }
}

/// Registry of per-class facts, keyed by class name. Built once by a full
/// scan of one archive; read-only afterwards.
#[derive(Debug)]
pub struct Metadata {
    types: Vec<(Vec<u8>, TypeInfo)>,
}

/// Contents of an association list as a map; a later entry for the same
/// key wins, matching normal link semantics for repeated definitions.
pub open spec fn kv_map(s: Seq<(Vec<u8>, TypeInfo)>) -> Map<Seq<u8>, TypeInfo>
    decreases s.len(),
{
    if s.len() == 0 {
        Map::empty()
    } else {
        kv_map(s.drop_last()).insert(s.last().0@, s.last().1)
    }
}

impl View for Metadata {
    type V = Map<Seq<u8>, TypeInfo>;

    closed spec fn view(&self) -> Map<Seq<u8>, TypeInfo> {
        kv_map(self.types@)
    }
}

/// The bytes of the reserved namespace identifier, `cppbind`.
pub open spec fn kw_cppbind() -> Seq<u8> {
    seq![99u8, 112u8, 112u8, 98u8, 105u8, 110u8, 100u8]
}

/// The bytes of the metadata-carrier type name, `type_info`.
pub open spec fn kw_type_info() -> Seq<u8> {
    seq![116u8, 121u8, 112u8, 101u8, 95u8, 105u8, 110u8, 102u8, 111u8]
}

/// The bytes of the size-fact selector, `size`.
pub open spec fn kw_size() -> Seq<u8> {
    seq![115u8, 105u8, 122u8, 101u8]
}

/// The bytes of the alignment-fact selector, `align`.
pub open spec fn kw_align() -> Seq<u8> {
    seq![97u8, 108u8, 105u8, 103u8, 110u8]
}

/// Little-endian value of a byte sequence.
pub open spec fn le_bytes_val(s: Seq<u8>) -> nat
    decreases s.len(),
{
    if s.len() == 0 {
        0
    } else {
        (s[0] + 256 * le_bytes_val(s.drop_first())) as nat
    }
}

/// The fact value carried by a symbol: exactly eight bytes at its address
/// within its defining section, read as a little-endian unsigned integer
/// that must fit the machine word. Anything else is corrupt.
pub open spec fn symbol_value(sect: Seq<u8>, addr: u64, size: u64) -> Option<usize> {
    if size == 8 && addr + 8 <= sect.len() && le_bytes_val(
        sect.subrange(addr as int, addr as int + 8),
    ) <= usize::MAX {
        Some(le_bytes_val(sect.subrange(addr as int, addr as int + 8)) as usize)
    } else {
        None
    }
}

/// One fact stored into the registry: the named class's entry is created
/// if absent, and the selected field is overwritten, later facts winning.
pub open spec fn registry_update(
    types: Map<Seq<u8>, TypeInfo>,
    class: Seq<u8>,
    is_size: bool,
    value: usize,
) -> Map<Seq<u8>, TypeInfo> {
    let cur = if types.contains_key(class) {
        types[class]
    } else {
        TypeInfo { size: None, align: None }
    };
    let upd = if is_size {
        TypeInfo { size: Some(value), align: cur.align }
    } else {
        TypeInfo { size: cur.size, align: Some(value) }
    };
    types.insert(class, upd)
}

/// The segments of a decoded symbol name, outer scope first.
pub open spec fn sym_segments(s: SymbolView) -> Seq<SegView> {
    match s.name {
        crate::symbol::NameView::Nested(ss) => ss,
        crate::symbol::NameView::Unscoped(g) => seq![g],
    }
}

/// What one decoded metadata-namespace symbol does to the registry: skip
/// if unrelated, a shape error on a partial match, or one stored fact.
pub open spec fn scan_decoded_spec(
    types: Map<Seq<u8>, TypeInfo>,
    segs: Seq<SegView>,
    sect: SectionBytesView,
    addr: u64,
    size: u64,
) -> Result<Map<Seq<u8>, TypeInfo>, SymbolError> {
    if !(segs.len() >= 1 && segs[0] == SegView::Ident(kw_cppbind())) {
        Ok(types)
    } else if !(segs.len() >= 2 && segs[1] == SegView::Ident(kw_type_info())) {
        Err(SymbolError::UnexpectedMetadataShape)
    } else if !(segs.len() >= 3 && segs[2] is TemplateArg) {
        Err(SymbolError::UnexpectedMetadataShape)
    } else if segs.len() < 4 {
        Err(SymbolError::UnexpectedMetadataShape)
    } else {
        let class = segs[2]->TemplateArg_0;
        match sect {
            SectionBytesView::LookupFailed => Err(SymbolError::SectionFailed),
            SectionBytesView::ReadFailed => Err(SymbolError::SectionDataFailed),
            SectionBytesView::Bytes(data) => {
                if segs[3] == SegView::Ident(kw_size()) {
                    match symbol_value(data, addr, size) {
                        Some(v) => Ok(registry_update(types, class, true, v)),
                        None => Err(SymbolError::CorruptMetadataValue),
                    }
                } else if segs[3] == SegView::Ident(kw_align()) {
                    match symbol_value(data, addr, size) {
                        Some(v) => Ok(registry_update(types, class, false, v)),
                        None => Err(SymbolError::CorruptMetadataValue),
                    }
                } else {
                    Err(SymbolError::UnexpectedMetadataShape)
                }
            }
        }
    }
}

/// What one symbol-table entry does to the registry. An unreadable name
/// is fatal; a symbol with no defining section is skipped; a name that
/// does not decode is an unrelated symbol and is skipped.
pub open spec fn scan_symbol_spec(types: Map<Seq<u8>, TypeInfo>, s: RawSymbolView) -> Result<
    Map<Seq<u8>, TypeInfo>,
    SymbolError,
> {
    match s.name {
        None => Err(SymbolError::SymbolNameFailed),
        Some(raw) => match s.section {
            None => Ok(types),
            Some(sect) => match decode_spec(raw) {
                Err(_) => Ok(types),
                Ok(sym) => scan_decoded_spec(types, sym_segments(sym), sect, s.address, s.size),
            },
        },
    }
}

/// What a whole symbol table does to the registry, in table order; the
/// first failing symbol aborts the scan, attributed to its index.
pub open spec fn scan_symbols_spec(
    types: Map<Seq<u8>, TypeInfo>,
    syms: Seq<RawSymbolView>,
) -> Result<Map<Seq<u8>, TypeInfo>, ObjectError>
    decreases syms.len(),
{
    if syms.len() == 0 {
        Ok(types)
    } else {
        match scan_symbol_spec(types, syms[0]) {
            Err(e) => Err(ObjectError::ParseSymbolFailed(syms[0].index, e)),
            Ok(t2) => scan_symbols_spec(t2, syms.drop_first()),
        }
    }
}

/// The member is a 64-bit ELF object: magic `0x7F 'E' 'L' 'F'`.
pub open spec fn is_elf64(d: Seq<u8>) -> bool {
    d.len() >= 4 && d[0] == 0x7f && d[1] == 69 && d[2] == 76 && d[3] == 70
}

/// The member is a 64-bit little-endian Mach-O object: the little-endian
/// bytes of magic `0xFEEDFACF`.
pub open spec fn is_macho64(d: Seq<u8>) -> bool {
    d.len() >= 4 && d[0] == 0xcf && d[1] == 0xfa && d[2] == 0xed && d[3] == 0xfe
}

/// The first four bytes of a member, or all of it when shorter.
pub open spec fn magic_prefix(d: Seq<u8>) -> Seq<u8> {
    if d.len() <= 4 {
        d
    } else {
        d.take(4)
    }
}

/// What a member list does to the registry, in archive order. A member
/// with an unknown magic, one that does not parse, and any symbol fault
/// are all fatal, attributed to the member.
pub open spec fn scan_members_spec(
    types: Map<Seq<u8>, TypeInfo>,
    ms: Seq<ArMemberView>,
) -> Result<Map<Seq<u8>, TypeInfo>, MetaErrorView>
    decreases ms.len(),
{
    if ms.len() == 0 {
        Ok(types)
    } else {
        let m = ms[0];
        if is_elf64(m.data) {
            match self::obj::elf64_symbols(m.data) {
                None => Err(MetaErrorView::ParseObjectFailed(m.name)),
                Some(syms) => match scan_symbols_spec(types, syms) {
                    Err(oe) => Err(MetaErrorView::ScanObjectFailed(m.name, oe)),
                    Ok(t2) => scan_members_spec(t2, ms.drop_first()),
                },
            }
        } else if is_macho64(m.data) {
            match self::obj::macho64_symbols(m.data) {
                None => Err(MetaErrorView::ParseObjectFailed(m.name)),
                Some(syms) => match scan_symbols_spec(types, syms) {
                    Err(oe) => Err(MetaErrorView::ScanObjectFailed(m.name, oe)),
                    Ok(t2) => scan_members_spec(t2, ms.drop_first()),
                },
            }
        } else {
            Err(MetaErrorView::UnknownMemberFormat(magic_prefix(m.data)))
        }
    }
}

/// What loading a whole archive yields, as a function of the archive
/// bytes alone: the members are scanned in archive order, and a fault
/// that ended the member listing surfaces once every member before it
/// has been scanned without error.
pub open spec fn load_spec(data: Seq<u8>) -> Result<Map<Seq<u8>, TypeInfo>, MetaErrorView> {
    let listing = self::obj::archive_model(data);
    match scan_members_spec(Map::empty(), listing.members) {
        Err(e) => Err(e),
        Ok(types) => match listing.fault {
            None => Ok(types),
            Some(ArchiveFaultView::Container) => Err(MetaErrorView::ParseArchiveFailed),
            Some(ArchiveFaultView::Header(i)) => Err(MetaErrorView::MemberHeaderFailed(i)),
            Some(ArchiveFaultView::Data(n)) => Err(MetaErrorView::MemberDataFailed(n)),
        },
    }
}

/// Loading is idempotent: two registries loaded from the same archive
/// bytes have equal contents — there is no ordering-dependent divergence
/// across repeated scans of the same input.
pub proof fn lemma_load_idempotent(
    data: Seq<u8>,
    a: Map<Seq<u8>, TypeInfo>,
    b: Map<Seq<u8>, TypeInfo>,
)
    requires
        load_spec(data) == Ok::<_, MetaErrorView>(a),
        load_spec(data) == Ok::<_, MetaErrorView>(b),
    ensures
        a == b,
{
}

/// An entry of an association list with no later entry for its key gives
/// that key's value in the contents map.
proof fn lemma_kv_map_match(s: Seq<(Vec<u8>, TypeInfo)>, j: int, k: Seq<u8>)
    requires
        0 <= j < s.len(),
        s[j].0@ == k,
        forall|q: int| j < q < s.len() ==> #[trigger] s[q].0@ != k,
    ensures
        kv_map(s).contains_key(k),
        kv_map(s)[k] == s[j].1,
    decreases s.len(),
{
    if j == s.len() - 1 {
    } else {
        assert(s.drop_last()[j] == s[j]);
        lemma_kv_map_match(s.drop_last(), j, k);
        assert(s.last().0@ != k);
    }
}

/// A key under no entry of an association list is not in its contents.
proof fn lemma_kv_map_no_match(s: Seq<(Vec<u8>, TypeInfo)>, k: Seq<u8>)
    requires
        forall|q: int| 0 <= q < s.len() ==> #[trigger] s[q].0@ != k,
    ensures
        !kv_map(s).contains_key(k),
    decreases s.len(),
{
    if s.len() > 0 {
        lemma_kv_map_no_match(s.drop_last(), k);
    }
}

/// Byte-wise equality of two byte strings.
pub(crate) fn bytes_eq(a: &[u8], b: &[u8]) -> (r: bool)
    ensures
        r == (a@ == b@),
{
    if a.len() != b.len() {
        return false;
    }
    let mut i: usize = 0;
    while i < a.len()
        invariant
            i <= a@.len() == b@.len(),
            forall|q: int| 0 <= q < i ==> a@[q] == b@[q],
        decreases a@.len() - i,
    {
        if *slice_index_get(a, i) != *slice_index_get(b, i) {
            return false;
        }
        i += 1;
    }
    proof {
        assert(a@ =~= b@);
    }
    true
}

/// An owned copy of a byte string.
pub(crate) fn clone_bytes(v: &Vec<u8>) -> (r: Vec<u8>)
    ensures
        r@ == v@,
{
    let mut out: Vec<u8> = Vec::new();
    let mut i: usize = 0;
    while i < v.len()
        invariant
            i <= v@.len(),
            out@ == v@.take(i as int),
        decreases v@.len() - i,
    {
        out.push(v[i]);
        proof {
            assert(v@.take(i + 1) =~= v@.take(i as int).push(v@[i as int]));
        }
        i += 1;
    }
    proof {
        assert(v@.take(v@.len() as int) =~= v@);
    }
    out
}

/// The segment is the identifier `cppbind`.
fn seg_is_cppbind(s: &Segment) -> (r: bool)
    ensures
        r == (s@ == SegView::Ident(kw_cppbind())),
{
    match s {
        Segment::Ident(v) => {
            let r = v.len() == 7 && v[0] == 99 && v[1] == 112 && v[2] == 112 && v[3] == 98 && v[4]
                == 105 && v[5] == 110 && v[6] == 100;
            proof {
                if r {
                    assert(v@ =~= kw_cppbind());
                } else {
                    assert(v@ != kw_cppbind());
                }
            }
            r
        }
        _ => false,
    }
}

/// The segment is the identifier `type_info`.
fn seg_is_type_info(s: &Segment) -> (r: bool)
    ensures
        r == (s@ == SegView::Ident(kw_type_info())),
{
    match s {
        Segment::Ident(v) => {
            let r = v.len() == 9 && v[0] == 116 && v[1] == 121 && v[2] == 112 && v[3] == 101 && v[4]
                == 95 && v[5] == 105 && v[6] == 110 && v[7] == 102 && v[8] == 111;
            proof {
                if r {
                    assert(v@ =~= kw_type_info());
                } else {
                    assert(v@ != kw_type_info());
                }
            }
            r
        }
        _ => false,
    }
}

/// The segment is the identifier `size`.
fn seg_is_size(s: &Segment) -> (r: bool)
    ensures
        r == (s@ == SegView::Ident(kw_size())),
{
    match s {
        Segment::Ident(v) => {
            let r = v.len() == 4 && v[0] == 115 && v[1] == 105 && v[2] == 122 && v[3] == 101;
            proof {
                if r {
                    assert(v@ =~= kw_size());
                } else {
                    assert(v@ != kw_size());
                }
            }
            r
        }
        _ => false,
    }
}

/// The segment is the identifier `align`.
fn seg_is_align(s: &Segment) -> (r: bool)
    ensures
        r == (s@ == SegView::Ident(kw_align())),
{
    match s {
        Segment::Ident(v) => {
            let r = v.len() == 5 && v[0] == 97 && v[1] == 108 && v[2] == 105 && v[3] == 103 && v[4]
                == 110;
            proof {
                if r {
                    assert(v@ =~= kw_align());
                } else {
                    assert(v@ != kw_align());
                }
            }
            r
        }
        _ => false,
    }
}

/// The little-endian value of eight bytes, spelled out.
proof fn lemma_le8(s: Seq<u8>)
    requires
        s.len() == 8,
    ensures
        le_bytes_val(s) == s[0] + s[1] * 256 + s[2] * 65536 + s[3] * 16777216 + s[4] * 4294967296
            + s[5] * 1099511627776 + s[6] * 281474976710656 + s[7] * 72057594037927936,
{
    let s1 = s.drop_first();
    let s2 = s1.drop_first();
    let s3 = s2.drop_first();
    let s4 = s3.drop_first();
    let s5 = s4.drop_first();
    let s6 = s5.drop_first();
    let s7 = s6.drop_first();
    let s8 = s7.drop_first();
    assert(s1[0] == s[1] && s1.len() == 7);
    assert(s2[0] == s1[1] && s1[1] == s[2] && s2.len() == 6);
    assert(s3[0] == s2[1] && s2[1] == s1[2] && s1[2] == s[3] && s3.len() == 5);
    assert(s4[0] == s3[1] && s3[1] == s2[2] && s2[2] == s1[3] && s1[3] == s[4] && s4.len() == 4);
    assert(s5[0] == s4[1] && s4[1] == s3[2] && s3[2] == s2[3] && s2[3] == s1[4] && s1[4] == s[5]
        && s5.len() == 3);
    assert(s6[0] == s5[1] && s5[1] == s4[2] && s4[2] == s3[3] && s3[3] == s2[4] && s2[4] == s1[5]
        && s1[5] == s[6] && s6.len() == 2);
    assert(s7[0] == s6[1] && s6[1] == s5[2] && s5[2] == s4[3] && s4[3] == s3[4] && s3[4] == s2[5]
        && s2[5] == s1[6] && s1[6] == s[7] && s7.len() == 1);
    assert(s8.len() == 0);
    assert(le_bytes_val(s8) == 0);
    assert(le_bytes_val(s7) == s7[0] + 256 * le_bytes_val(s8));
    assert(le_bytes_val(s6) == s6[0] + 256 * le_bytes_val(s7));
    assert(le_bytes_val(s5) == s5[0] + 256 * le_bytes_val(s6));
    assert(le_bytes_val(s4) == s4[0] + 256 * le_bytes_val(s5));
    assert(le_bytes_val(s3) == s3[0] + 256 * le_bytes_val(s4));
    assert(le_bytes_val(s2) == s2[0] + 256 * le_bytes_val(s3));
    assert(le_bytes_val(s1) == s1[0] + 256 * le_bytes_val(s2));
    assert(le_bytes_val(s) == s[0] + 256 * le_bytes_val(s1));
}

/// Read a fact value: exactly eight bytes at `addr` in the section, as a
/// little-endian unsigned integer that fits the machine word.
fn read_symbol_value(sect: &Vec<u8>, addr: u64, size: u64) -> (r: Option<usize>)
    ensures
        r == symbol_value(sect@, addr, size),
{
    if size != 8 {
        return None;
    }
    let len64 = sect.len() as u64;
    if len64 < 8 || addr > len64 - 8 {
        return None;
    }
    let off = addr as usize;
    let b0 = sect[off] as u64;
    let b1 = sect[off + 1] as u64;
    let b2 = sect[off + 2] as u64;
    let b3 = sect[off + 3] as u64;
    let b4 = sect[off + 4] as u64;
    let b5 = sect[off + 5] as u64;
    let b6 = sect[off + 6] as u64;
    let b7 = sect[off + 7] as u64;
    let v = b0 + b1 * 256 + b2 * 65536 + b3 * 16777216 + b4 * 4294967296 + b5 * 1099511627776 + b6
        * 281474976710656 + b7 * 72057594037927936;
    proof {
        let s = sect@.subrange(addr as int, addr as int + 8);
        lemma_le8(s);
        assert(s[0] == sect@[off as int] && s[1] == sect@[off + 1] && s[2] == sect@[off + 2] && s[3]
            == sect@[off + 3] && s[4] == sect@[off + 4] && s[5] == sect@[off + 5] && s[6] == sect@[
            off + 6
        ] && s[7] == sect@[off + 7]);
        assert(v as nat == le_bytes_val(s));
    }
    if v > usize::MAX as u64 {
        return None;
    }
    Some(v as usize)
}

impl Metadata {
    /// Store one fact: create the class's entry if absent and overwrite
    /// the selected field, a later fact winning over an earlier one.
    fn push_fact(&mut self, class: Vec<u8>, is_size: bool, value: usize)
        ensures
            final(self)@ == registry_update(old(self)@, class@, is_size, value),
    {
        let cur = match self.get_type(class.as_slice()) {
            Some(info) => *info,
            None => TypeInfo { size: None, align: None },
        };
        let info = if is_size {
            TypeInfo { size: Some(value), align: cur.align }
        } else {
            TypeInfo { size: cur.size, align: Some(value) }
        };
        let ghost before = self.types@;
        let ghost key = class@;
        self.types.push((class, info));
        proof {
            assert(self.types@.drop_last() =~= before);
            assert(kv_map(self.types@) == kv_map(before).insert(key, info));
        }
    }

    /// Interpret one decoded, nested symbol name against the reserved
    /// metadata namespace.
    fn scan_segments(
        &mut self,
        v: &Vec<Segment>,
        sect: &SectionBytes,
        addr: u64,
        size: u64,
    ) -> (r: Result<(), SymbolError>)
        ensures
            match r {
                Ok(()) => scan_decoded_spec(
                    old(self)@,
                    v@.map_values(|s: Segment| s@),
                    sect@,
                    addr,
                    size,
                ) == Ok::<_, SymbolError>(final(self)@),
                Err(e) => scan_decoded_spec(
                    old(self)@,
                    v@.map_values(|s: Segment| s@),
                    sect@,
                    addr,
                    size,
                ) == Err::<Map<Seq<u8>, TypeInfo>, _>(e) && final(self)@ == old(self)@,
            },
    {
        let ghost segs = v@.map_values(|s: Segment| s@);
        if v.len() == 0 || !seg_is_cppbind(&v[0]) {
            return Ok(());
        }
        if v.len() < 2 || !seg_is_type_info(&v[1]) {
            return Err(SymbolError::UnexpectedMetadataShape);
        }
        if v.len() < 3 {
            return Err(SymbolError::UnexpectedMetadataShape);
        }
        let class: &Vec<u8> = match &v[2] {
            Segment::TemplateArg(TemplateArg::Ident(c)) => c,
            _ => return Err(SymbolError::UnexpectedMetadataShape),
        };
        if v.len() < 4 {
            return Err(SymbolError::UnexpectedMetadataShape);
        }
        let data = match sect {
            SectionBytes::Bytes(d) => d,
            SectionBytes::LookupFailed => return Err(SymbolError::SectionFailed),
            SectionBytes::ReadFailed => return Err(SymbolError::SectionDataFailed),
        };
        let is_size_fact = seg_is_size(&v[3]);
        if !is_size_fact && !seg_is_align(&v[3]) {
            return Err(SymbolError::UnexpectedMetadataShape);
        }
        let value = match read_symbol_value(data, addr, size) {
            Some(x) => x,
            None => return Err(SymbolError::CorruptMetadataValue),
        };
        self.push_fact(clone_bytes(class), is_size_fact, value);
        Ok(())
    }

    /// Interpret one symbol-table entry, skipping unrelated symbols and
    /// symbols without a defining section.
    fn scan_symbol(&mut self, sym: &RawSymbol) -> (r: Result<(), SymbolError>)
        ensures
            match r {
                Ok(()) => scan_symbol_spec(old(self)@, sym@) == Ok::<_, SymbolError>(final(self)@),
                Err(e) => scan_symbol_spec(old(self)@, sym@) == Err::<Map<Seq<u8>, TypeInfo>, _>(e)
                    && final(self)@ == old(self)@,
            },
    {
        let raw = match &sym.name {
            Some(v) => v,
            None => return Err(SymbolError::SymbolNameFailed),
        };
        let sect = match &sym.section {
            Some(s) => s,
            None => return Ok(()),
        };
        let parsed = match Symbol::parse(raw.as_slice()) {
            Ok(s) => s,
            Err(_) => return Ok(()),
        };
        match parsed.name() {
            Name::Nested(v) => self.scan_segments(v, sect, sym.address, sym.size),
            Name::Unscoped(g) => {
                proof {
                    assert(sym_segments(parsed@) =~= seq![g@]);
                }
                if seg_is_cppbind(g) {
                    Err(SymbolError::UnexpectedMetadataShape)
                } else {
                    Ok(())
                }
            }
        }
    }

    /// Interpret the symbol table of one object, from entry `i` on.
    fn scan_object_from(&mut self, syms: &Vec<RawSymbol>, i: usize) -> (r: Result<(), ObjectError>)
        requires
            i <= syms@.len(),
        ensures
            match r {
                Ok(()) => scan_symbols_spec(
                    old(self)@,
                    syms@.map_values(|s: RawSymbol| s@).skip(i as int),
                ) == Ok::<_, ObjectError>(final(self)@),
                Err(e) => scan_symbols_spec(
                    old(self)@,
                    syms@.map_values(|s: RawSymbol| s@).skip(i as int),
                ) == Err::<Map<Seq<u8>, TypeInfo>, _>(e),
            },
        decreases syms@.len() - i,
    {
        let ghost all = syms@.map_values(|s: RawSymbol| s@);
        if i == syms.len() {
            proof {
                assert(all.skip(i as int) =~= Seq::<RawSymbolView>::empty());
            }
            return Ok(());
        }
        proof {
            assert(all.skip(i as int)[0] == all[i as int]);
        }
        match self.scan_symbol(&syms[i]) {
            Err(e) => Err(ObjectError::ParseSymbolFailed(syms[i].index, e)),
            Ok(()) => {
                let r = self.scan_object_from(syms, i + 1);
                proof {
                    assert(all.skip(i as int).drop_first() =~= all.skip(i + 1));
                }
                r
            }
        }
    }

    /// Interpret the archive members from position `i` on.
    fn scan_members_from(&mut self, ms: &Vec<ArMember>, i: usize) -> (r: Result<
        (),
        MetadataError,
    >)
        requires
            i <= ms@.len(),
        ensures
            match r {
                Ok(()) => scan_members_spec(
                    old(self)@,
                    ms@.map_values(|m: ArMember| m@).skip(i as int),
                ) == Ok::<_, MetaErrorView>(final(self)@),
                Err(e) => scan_members_spec(
                    old(self)@,
                    ms@.map_values(|m: ArMember| m@).skip(i as int),
                ) == Err::<Map<Seq<u8>, TypeInfo>, _>(e@),
            },
        decreases ms@.len() - i,
    {
        let ghost all = ms@.map_values(|m: ArMember| m@);
        if i == ms.len() {
            proof {
                assert(all.skip(i as int) =~= Seq::<ArMemberView>::empty());
            }
            return Ok(());
        }
        proof {
            assert(all.skip(i as int)[0] == all[i as int]);
        }
        let mem = &ms[i];
        let d = &mem.data;
        let elf = d.len() >= 4 && d[0] == 0x7f && d[1] == 69 && d[2] == 76 && d[3] == 70;
        let macho = d.len() >= 4 && d[0] == 0xcf && d[1] == 0xfa && d[2] == 0xed && d[3] == 0xfe;
        if elf {
            let syms = match self::obj::elf64_raw_symbols(d) {
                Some(v) => v,
                None => return Err(MetadataError::ParseObjectFailed(clone_bytes(&mem.name))),
            };
            match self.scan_object_from(&syms, 0) {
                Err(oe) => {
                    proof {
                        assert(syms@.map_values(|s: RawSymbol| s@).skip(0) =~= syms@.map_values(
                            |s: RawSymbol| s@,
                        ));
                    }
                    return Err(MetadataError::ScanObjectFailed(clone_bytes(&mem.name), oe));
                }
                Ok(()) => {
                    proof {
                        assert(syms@.map_values(|s: RawSymbol| s@).skip(0) =~= syms@.map_values(
                            |s: RawSymbol| s@,
                        ));
                    }
                }
            }
        } else if macho {
            let syms = match self::obj::macho64_raw_symbols(d) {
                Some(v) => v,
                None => return Err(MetadataError::ParseObjectFailed(clone_bytes(&mem.name))),
            };
            match self.scan_object_from(&syms, 0) {
                Err(oe) => {
                    proof {
                        assert(syms@.map_values(|s: RawSymbol| s@).skip(0) =~= syms@.map_values(
                            |s: RawSymbol| s@,
                        ));
                    }
                    return Err(MetadataError::ScanObjectFailed(clone_bytes(&mem.name), oe));
                }
                Ok(()) => {
                    proof {
                        assert(syms@.map_values(|s: RawSymbol| s@).skip(0) =~= syms@.map_values(
                            |s: RawSymbol| s@,
                        ));
                    }
                }
            }
        } else {
            let mut magic: Vec<u8> = Vec::new();
            let take = if d.len() < 4 {
                d.len()
            } else {
                4
            };
            let mut q: usize = 0;
            while q < take
                invariant
                    q <= take <= d@.len(),
                    take == if d@.len() < 4 {
                        d@.len() as usize
                    } else {
                        4usize
                    },
                    magic@ == d@.take(q as int),
                decreases take - q,
            {
                magic.push(d[q]);
                proof {
                    assert(d@.take(q + 1) =~= d@.take(q as int).push(d@[q as int]));
                }
                q += 1;
            }
            proof {
                assert(magic@ =~= magic_prefix(d@));
            }
            return Err(MetadataError::UnknownMemberFormat(magic));
        }
        let r = self.scan_members_from(ms, i + 1);
        proof {
            assert(all.skip(i as int).drop_first() =~= all.skip(i + 1));
        }
        r
    }

    /// Build the registry by scanning every member of the given archive
    /// bytes end-to-end. The result, success or failure, is a function of
    /// the bytes alone.
    pub fn from_archive(data: &Vec<u8>) -> (r: Result<Metadata, MetadataError>)
        ensures
            match r {
                Ok(m) => load_spec(data@) == Ok::<_, MetaErrorView>(m@),
                Err(e) => load_spec(data@) == Err::<Map<Seq<u8>, TypeInfo>, _>(e@),
            },
    {
        let listing = self::obj::archive_members(data);
        let mut meta = Metadata { types: Vec::new() };
        proof {
            assert(meta@ =~= Map::<Seq<u8>, TypeInfo>::empty());
            assert(listing.members@.map_values(|m: ArMember| m@).skip(0) =~= listing@.members);
        }
        match meta.scan_members_from(&listing.members, 0) {
            Err(e) => Err(e),
            Ok(()) => match listing.fault {
                None => Ok(meta),
                Some(ArchiveFault::Container) => Err(MetadataError::ParseArchiveFailed),
                Some(ArchiveFault::Header(i)) => Err(MetadataError::MemberHeaderFailed(i)),
                Some(ArchiveFault::Data(n)) => Err(MetadataError::MemberDataFailed(n)),
            },
        }
    }

    /// Look up the facts for a class name. Returns the stored entry if
    /// and only if the registry has one.
    pub fn get_type(&self, name: &[u8]) -> (r: Option<&TypeInfo>)
        ensures
            match r {
                Some(info) => self@.contains_key(name@) && *info == self@[name@],
                None => !self@.contains_key(name@),
            },
    {
        let mut i: usize = self.types.len();
        while i > 0
            invariant
                i <= self.types@.len(),
                forall|q: int| i <= q < self.types@.len() ==> #[trigger] self.types@[q].0@ != name@,
            decreases i,
        {
            i = i - 1;
            if bytes_eq(self.types[i].0.as_slice(), name) {
                proof {
                    lemma_kv_map_match(self.types@, i as int, name@);
                }
                return Some(&self.types[i].1);
            }
        }
        proof {
            lemma_kv_map_no_match(self.types@, name@);
        }
        None
    }
}

} // verus!
