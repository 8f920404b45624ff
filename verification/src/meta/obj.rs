//! Trusted boundary to the `object` crate: archive member listing and
//! object-file symbol tables, delivered as plain values.
//!
//! Everything these wrappers return is a pure function of the input bytes,
//! so each result is named by an uninterpreted model function, and the rest
//! of the extractor is verified against those names.

use object::{Object, ObjectSection, ObjectSymbol};
use vstd::prelude::*;

verus! {

/// One archive member: its parsed name and its raw data bytes.
pub struct ArMember {
    pub name: Vec<u8>,
    pub data: Vec<u8>,
}

/// Mathematical value of an [`ArMember`].
pub struct ArMemberView {
    pub name: Seq<u8>,
    pub data: Seq<u8>,
}

impl View for ArMember {
    type V = ArMemberView;

    open spec fn view(&self) -> ArMemberView {
        ArMemberView { name: self.name@, data: self.data@ }
    }
}

/// Failure to list the members of an archive: a bad container header, a
/// bad member header (by member position), or an unreadable member data
/// range (by member name).
pub enum ArchiveFault {
    Container,
    Header(usize),
    Data(Vec<u8>),
}

/// Mathematical value of an [`ArchiveFault`].
pub enum ArchiveFaultView {
    Container,
    Header(usize),
    Data(Seq<u8>),
}

impl View for ArchiveFault {
    type V = ArchiveFaultView;

    open spec fn view(&self) -> ArchiveFaultView {
        match self {
            ArchiveFault::Container => ArchiveFaultView::Container,
            ArchiveFault::Header(i) => ArchiveFaultView::Header(*i),
            ArchiveFault::Data(n) => ArchiveFaultView::Data(n@),
        }
    }
}

/// What listing an archive's members yields: the members in archive
/// order up to the first listing fault, and that fault if one ended the
/// listing. An invalid container is a fault with no members.
pub struct ArchiveListingView {
    pub members: Seq<ArMemberView>,
    pub fault: Option<ArchiveFaultView>,
}

/// The members listed from an archive, with the fault that ended the
/// listing early, if any.
pub struct ArchiveListing {
    pub members: Vec<ArMember>,
    pub fault: Option<ArchiveFault>,
}

impl View for ArchiveListing {
    type V = ArchiveListingView;

    open spec fn view(&self) -> ArchiveListingView {
        ArchiveListingView {
            members: self.members@.map_values(|m: ArMember| m@),
            fault: match &self.fault {
                Some(f) => Some(f@),
                None => None,
            },
        }
    }
}

/// Raw facts about one symbol-table entry of an object file: its table
/// index, its name bytes (when readable), the data of its defining section
/// (when it has one), and its address and size.
pub struct RawSymbol {
    pub index: usize,
    pub name: Option<Vec<u8>>,
    pub section: Option<SectionBytes>,
    pub address: u64,
    pub size: u64,
}

/// Data of a symbol's defining section, or why it could not be read.
pub enum SectionBytes {
    Bytes(Vec<u8>),
    LookupFailed,
    ReadFailed,
}

/// Mathematical value of a [`SectionBytes`].
pub enum SectionBytesView {
    Bytes(Seq<u8>),
    LookupFailed,
    ReadFailed,
}

impl View for SectionBytes {
    type V = SectionBytesView;

    open spec fn view(&self) -> SectionBytesView {
        match self {
            SectionBytes::Bytes(d) => SectionBytesView::Bytes(d@),
            SectionBytes::LookupFailed => SectionBytesView::LookupFailed,
            SectionBytes::ReadFailed => SectionBytesView::ReadFailed,
        }
    }
}

/// Mathematical value of a [`RawSymbol`].
pub struct RawSymbolView {
    pub index: usize,
    pub name: Option<Seq<u8>>,
    pub section: Option<SectionBytesView>,
    pub address: u64,
    pub size: u64,
}

impl View for RawSymbol {
    type V = RawSymbolView;

    open spec fn view(&self) -> RawSymbolView {
        RawSymbolView {
            index: self.index,
            name: match &self.name {
                Some(v) => Some(v@),
                None => None,
            },
            section: match &self.section {
                Some(s) => Some(s@),
                None => None,
            },
            address: self.address,
            size: self.size,
        }
    }
}

/// Member listing of an archive, as a function of its bytes alone.
pub uninterp spec fn archive_model(data: Seq<u8>) -> ArchiveListingView;

/// Symbol table of a 64-bit ELF object, as a function of its bytes alone;
/// `None` when the bytes do not parse as such an object.
pub uninterp spec fn elf64_symbols(data: Seq<u8>) -> Option<Seq<RawSymbolView>>;

/// Symbol table of a 64-bit little-endian Mach-O object, as a function of
/// its bytes alone; `None` when the bytes do not parse as such an object.
pub uninterp spec fn macho64_symbols(data: Seq<u8>) -> Option<Seq<RawSymbolView>>;

/// Relies on `object::read::archive::ArchiveFile`: `parse` validates the
/// container header, `members` yields the member headers in archive order,
/// `ArchiveMember::name` is the parsed member name and `ArchiveMember::data`
/// its data range. All of that reads the given bytes alone.
#[verifier::external_body]
pub(crate) fn archive_members(data: &Vec<u8>) -> (r: ArchiveListing)
    ensures
        r@ == archive_model(data@),
{
    let data = data.as_slice();
    let mut out = ArchiveListing { members: Vec::new(), fault: None };
    match object::read::archive::ArchiveFile::parse(data) {
        Err(_) => out.fault = Some(ArchiveFault::Container),
        Ok(ar) => for (i, m) in ar.members().enumerate() {
            match m {
                Err(_) => { out.fault = Some(ArchiveFault::Header(i)); break; }
                Ok(m) => match m.data(data) {
                    Err(_) => { out.fault = Some(ArchiveFault::Data(m.name().to_vec())); break; }
                    Ok(d) => out.members.push(ArMember { name: m.name().to_vec(), data: d.to_vec() }),
                },
            }
        },
    }
    out
}

/// Relies on `object::read::elf::ElfFile64::parse` and the `Object` /
/// `ObjectSymbol` / `ObjectSection` accessors `symbols`, `index`,
/// `name_bytes`, `section_index`, `section_by_index`, `data`, `address`
/// and `size`. All of that reads the given bytes alone.
#[verifier::external_body]
pub(crate) fn elf64_raw_symbols(data: &Vec<u8>) -> (r: Option<Vec<RawSymbol>>)
    ensures
        match r {
            Some(v) => elf64_symbols(data@) == Some(v@.map_values(|s: RawSymbol| s@)),
            None => elf64_symbols(data@) == None::<Seq<RawSymbolView>>,
        },
{
    let obj = object::read::elf::ElfFile64::<object::Endianness>::parse(data.as_slice()).ok()?;
    Some(obj.symbols().map(|s| RawSymbol {
        index: s.index().0,
        name: s.name_bytes().ok().map(|b| b.to_vec()),
        section: s.section_index().map(|i| match obj.section_by_index(i).map(|c| c.data()) {
            Ok(Ok(d)) => SectionBytes::Bytes(d.to_vec()),
            Ok(Err(_)) => SectionBytes::ReadFailed,
            Err(_) => SectionBytes::LookupFailed,
        }),
        address: s.address(),
        size: s.size(),
    }).collect())
}

/// Relies on `object::read::macho::MachOFile64::parse` and the same
/// unified accessors as the ELF wrapper. All of that reads the given
/// bytes alone.
#[verifier::external_body]
pub(crate) fn macho64_raw_symbols(data: &Vec<u8>) -> (r: Option<Vec<RawSymbol>>)
    ensures
        match r {
            Some(v) => macho64_symbols(data@) == Some(v@.map_values(|s: RawSymbol| s@)),
            None => macho64_symbols(data@) == None::<Seq<RawSymbolView>>,
        },
{
    let obj = object::read::macho::MachOFile64::<object::LittleEndian>::parse(data.as_slice()).ok()?;
    Some(obj.symbols().map(|s| RawSymbol {
        index: s.index().0,
        name: s.name_bytes().ok().map(|b| b.to_vec()),
        section: s.section_index().map(|i| match obj.section_by_index(i).map(|c| c.data()) {
            Ok(Ok(d)) => SectionBytes::Bytes(d.to_vec()),
            Ok(Err(_)) => SectionBytes::ReadFailed,
            Err(_) => SectionBytes::LookupFailed,
        }),
        address: s.address(),
        size: s.size(),
    }).collect())
}

} // verus!
