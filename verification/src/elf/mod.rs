//! An opinionated parser for RISC-V ELF64 files. The structures here are meant
//! to be used directly, and do not follow the file format one-to-one; for that
//! see [`raw`].

use vstd::prelude::*;

use crate::io_traits;
use crate::io_traits::{Read, Seek, SeekFrom};

pub mod layout;
pub mod raw;

verus! {

/// The `e_machine` type for RISC-V. **All** RISC-V executables use this value.
pub const MACHINE_TYPE_RISCV: u16 = 243;

/// What type of ELF file is this?
#[derive(Copy, Clone, Debug, PartialEq, Eq, Structural)]
pub enum FileType {
    /// Unknown file type.
    Unknown,
    /// Relocatable file.
    Rel,
    /// Executable file.
    Exec,
    /// Shared object.
    Dyn,
    /// Core dump file.
    Core,
}

impl FileType {
    /// The number that stands for this type.
    pub open spec fn number(self) -> u16 {
        match self {
            FileType::Unknown => 0,
            FileType::Rel => 1,
            FileType::Exec => 2,
            FileType::Dyn => 3,
            FileType::Core => 4,
        }
    }

    /// The type that a number stands for.
    pub open spec fn of_number(n: int) -> Option<FileType> {
        if n == 0 {
            Some(FileType::Unknown)
        } else if n == 1 {
            Some(FileType::Rel)
        } else if n == 2 {
            Some(FileType::Exec)
        } else if n == 3 {
            Some(FileType::Dyn)
        } else if n == 4 {
            Some(FileType::Core)
        } else {
            None
        }
    }

    /// The number that stands for this type.
    pub fn code(self) -> (r: u16)
        ensures
            r == self.number(),
    {
        match self {
            FileType::Unknown => 0,
            FileType::Rel => 1,
            FileType::Exec => 2,
            FileType::Dyn => 3,
            FileType::Core => 4,
        }
    }

    /// The type that a number stands for, if it stands for any.
    pub fn decode(n: u16) -> (r: Option<Self>)
        ensures
            r == FileType::of_number(n as int),
    {
        match n {
            0 => Some(FileType::Unknown),
            1 => Some(FileType::Rel),
            2 => Some(FileType::Exec),
            3 => Some(FileType::Dyn),
            4 => Some(FileType::Core),
            _ => None,
        }
    }
}

/// A struct representing a parse error. At the moment, this has no information
/// on what error occured.
#[derive(Copy, Clone, Debug, PartialEq, Eq, Structural)]
pub struct ParseError;

/// `Ok` of what was parsed, or the error.
pub open spec fn parsed<T>(x: Option<T>) -> Result<T, ParseError> {
    match x {
        Some(x) => Ok(x),
        None => Err(ParseError),
    }
}

/// What `of` makes of the first `n` bytes of `bytes`, if there are that many.
pub open spec fn at_head<T>(bytes: Seq<u8>, n: int, of: spec_fn(Seq<u8>) -> Option<T>) -> Option<T> {
    if bytes.len() >= n {
        of(bytes.take(n))
    } else {
        None
    }
}

/// An ELF file.
#[derive(Copy, Clone, Debug, PartialEq, Eq, Structural)]
pub struct Elf {
    /// What type of ELF file is this?
    pub filety: FileType,
    /// What is the entry address of this ELF file?
    pub entry_addr: u64,
    /// Where the section headers begin in the file.
    pub sec_hdr_offset: u64,
    /// How many section headers there are.
    pub sec_hdr_count: u16,
    /// Which section holds the names of the sections.
    pub sec_strtab_index: u16,
    /// Where the program headers begin in the file.
    pub prog_hdr_offset: u64,
    /// How many program headers there are.
    pub prog_hdr_count: u16,
}

impl Elf {
    /// Whether `b` is the header of a file that is understood: it is
    /// identified as such, its type is known, and its version and the sizes of
    /// its headers are the expected ones.
    pub open spec fn valid(b: Seq<u8>) -> bool {
        &&& b.take(4) =~= seq![0x7fu8, 0x45, 0x4c, 0x46]
        &&& b[4] == raw::ELFCLASS64
        &&& b[5] == raw::ELFDATA2LSB
        &&& b[6] == raw::EV_CURRENT
        &&& b[7] == raw::ELFOSABI_SYSV
        &&& b[8] == 0
        &&& FileType::of_number(raw::le16(b, 16)) is Some
        &&& raw::le32(b, 20) == raw::EV_CURRENT
        &&& raw::le16(b, 52) == raw::FILE_HDR_SIZE
        &&& raw::le16(b, 54) == raw::PROGRAM_HDR_SIZE
        &&& raw::le16(b, 58) == raw::SECTION_HDR_SIZE
    }

    /// The file whose header is `b`, if it is valid.
    pub open spec fn of(b: Seq<u8>) -> Option<Elf> {
        if Elf::valid(b) {
            Some(
                Elf {
                    filety: FileType::of_number(raw::le16(b, 16))->0,
                    entry_addr: raw::le64(b, 24) as u64,
                    sec_hdr_offset: raw::le64(b, 40) as u64,
                    sec_hdr_count: raw::le16(b, 60) as u16,
                    sec_strtab_index: raw::le16(b, 62) as u16,
                    prog_hdr_offset: raw::le64(b, 32) as u64,
                    prog_hdr_count: raw::le16(b, 56) as u16,
                },
            )
        } else {
            None
        }
    }

    /// The file whose header is `b`, if it is valid.
    pub fn from_bytes(b: &[u8]) -> (r: Result<Self, ParseError>)
        requires
            b@.len() == raw::FILE_HDR_SIZE,
        ensures
            r == parsed(Elf::of(b@)),
    {
        let file_hdr = raw::FileHdr::from_bytes(b);
        if !file_hdr.ident.is_proper() {
            return Err(ParseError);
        }
        let filety = match FileType::decode(file_hdr.filety) {
            Some(filety) => filety,
            None => {
                return Err(ParseError);
            },
        };
        if file_hdr.version != raw::EV_CURRENT || file_hdr.hdr_size != 64 || file_hdr.prog_hdr_size
            != 56 || file_hdr.sec_hdr_size != 64 {
            return Err(ParseError);
        }
        Ok(
            Elf {
                filety,
                entry_addr: file_hdr.entry_addr,
                sec_hdr_offset: file_hdr.sec_hdr_offset,
                sec_hdr_count: file_hdr.sec_hdr_count,
                sec_strtab_index: file_hdr.sec_strtab_index,
                prog_hdr_offset: file_hdr.prog_hdr_offset,
                prog_hdr_count: file_hdr.prog_hdr_count,
            },
        )
    }

    /// The file whose header comes first in `bytes`.
    pub open spec fn head(bytes: Seq<u8>) -> Option<Elf> {
        at_head(bytes, raw::FILE_HDR_SIZE as int, |b: Seq<u8>| Elf::of(b))
    }

    /// Read the file header. It is an error if the read fails, or if the header
    /// is invalid.
    pub fn parse_header<R: Read + Seek>(reader: &mut R) -> (r: Result<Self, ParseError>)
        requires
            old(reader).readable(),
        ensures
            final(reader).readable(),
            final(reader).contents() == old(reader).contents(),
            final(reader).complete() == old(reader).complete(),
            r matches Ok(elf) ==> Elf::head(old(reader).unread()) == Some(elf),
            old(reader).complete() ==> r == parsed(Elf::head(old(reader).unread())),
    {
        let mut buf: Vec<u8> = vec![0; raw::FILE_HDR_SIZE];
        match reader.read_exact(buf.as_mut_slice()) {
            Ok(()) => Elf::from_bytes(buf.as_slice()),
            Err(_) => Err(ParseError),
        }
    }

    /// The `i`th section of the file `contents`, counted from 0.
    pub open spec fn section(self, contents: Seq<u8>, i: int) -> Option<Section> {
        Section::head(io_traits::bytes_from(contents, self.sec_hdr_offset + 64 * i))
    }

    /// Parse the sections, each by itself: a header that is invalid or that
    /// cannot be read gives an error in its place. It is an error if the seek
    /// fails.
    pub fn parse_sections<R: Read + Seek>(&mut self, reader: &mut R) -> (r: Result<
        Vec<Result<Section, ParseError>>,
        ParseError,
    >)
        requires
            old(self).sec_hdr_count > 0 ==> old(self).sec_hdr_offset <= old(reader).contents().len(),
        ensures
            *final(self) == *old(self),
            final(reader).contents() == old(reader).contents(),
            final(reader).complete() == old(reader).complete(),
            r matches Ok(v) ==> v@.len() == old(self).sec_hdr_count,
            old(reader).complete() ==> {
                &&& r is Ok
                &&& forall|i: int|
                    0 <= i < old(self).sec_hdr_count ==> #[trigger] r->Ok_0@[i] == parsed(
                        old(self).section(old(reader).contents(), i),
                    )
            },
    {
        match reader.seek(SeekFrom::Start(self.sec_hdr_offset)) {
            Ok(_) => {},
            Err(_) => {
                return Err(ParseError);
            },
        }
        let mut v: Vec<Result<Section, ParseError>> = Vec::new();
        let ghost contents = reader.contents();
        let mut i: u16 = 0;
        while i < self.sec_hdr_count
            invariant
                i <= self.sec_hdr_count,
                v@.len() == i,
                *self == *old(self),
                i < self.sec_hdr_count ==> reader.readable(),
                contents == old(reader).contents(),
                reader.contents() == contents,
                reader.complete() == old(reader).complete(),
                reader.complete() ==> stands_at(
                    reader.unread(),
                    io_traits::bytes_from(contents, self.sec_hdr_offset + 64 * i),
                    64,
                ),
                reader.complete() ==> forall|j: int|
                    0 <= j < i ==> #[trigger] v@[j] == parsed(self.section(contents, j)),
            decreases self.sec_hdr_count - i,
        {
            proof {
                lemma_stands_on(
                    reader.unread(),
                    contents,
                    self.sec_hdr_offset + 64 * i,
                    64,
                );
            }
            let entry = Section::parse(reader);
            v.push(entry);
            i += 1;
        }
        Ok(v)
    }

    /// The `i`th segment of the file `contents`, counted from 0.
    pub open spec fn segment(self, contents: Seq<u8>, i: int) -> Option<Segment> {
        Segment::head(io_traits::bytes_from(contents, self.prog_hdr_offset + 56 * i))
    }

    /// Parse the segments, each by itself: a header that is invalid or that
    /// cannot be read gives an error in its place. It is an error if the seek
    /// fails.
    pub fn parse_segments<R: Read + Seek>(&mut self, reader: &mut R) -> (r: Result<
        Vec<Result<Segment, ParseError>>,
        ParseError,
    >)
        requires
            old(self).prog_hdr_count > 0 ==> old(self).prog_hdr_offset <= old(reader).contents().len(),
        ensures
            *final(self) == *old(self),
            final(reader).contents() == old(reader).contents(),
            final(reader).complete() == old(reader).complete(),
            r matches Ok(v) ==> v@.len() == old(self).prog_hdr_count,
            old(reader).complete() ==> {
                &&& r is Ok
                &&& forall|i: int|
                    0 <= i < old(self).prog_hdr_count ==> #[trigger] r->Ok_0@[i] == parsed(
                        old(self).segment(old(reader).contents(), i),
                    )
            },
    {
        match reader.seek(SeekFrom::Start(self.prog_hdr_offset)) {
            Ok(_) => {},
            Err(_) => {
                return Err(ParseError);
            },
        }
        let mut v: Vec<Result<Segment, ParseError>> = Vec::new();
        let ghost contents = reader.contents();
        let mut i: u16 = 0;
        while i < self.prog_hdr_count
            invariant
                i <= self.prog_hdr_count,
                v@.len() == i,
                *self == *old(self),
                i < self.prog_hdr_count ==> reader.readable(),
                contents == old(reader).contents(),
                reader.contents() == contents,
                reader.complete() == old(reader).complete(),
                reader.complete() ==> stands_at(
                    reader.unread(),
                    io_traits::bytes_from(contents, self.prog_hdr_offset + 56 * i),
                    56,
                ),
                reader.complete() ==> forall|j: int|
                    0 <= j < i ==> #[trigger] v@[j] == parsed(self.segment(contents, j)),
            decreases self.prog_hdr_count - i,
        {
            proof {
                lemma_stands_on(
                    reader.unread(),
                    contents,
                    self.prog_hdr_offset + 56 * i,
                    56,
                );
            }
            let entry = Segment::parse(reader);
            v.push(entry);
            i += 1;
        }
        Ok(v)
    }
}

/// What type of section is this?
#[derive(Copy, Clone, Debug, PartialEq, Eq, Structural)]
pub enum SectionType {
    /// Inactive.
    Null,
    /// Program data; the interpretation depends on the type of file.
    ProgBits,
    /// Symbol table.
    SymTab,
    /// String table.
    StrTab,
    /// Relocation entries.
    Rela,
    /// Symbol hash table for dynamic linking.
    Hash,
    /// Information for dynamic linking.
    Dynamic,
    /// Notes.
    Note,
    /// Occupies no space in the file, but is otherwise equivalent to
    /// [`Self::ProgBits`].
    NoBits,
    /// Relocation offsets.
    Rel,
    /// Reserved.
    ShLib,
    /// Dynamic linking symbols.
    DynSym,
    /// Attributes of RISC-V ELF files
    RVAttributes,
}

impl SectionType {
    /// The number that stands for this type.
    pub open spec fn number(self) -> u32 {
        match self {
            SectionType::Null => 0,
            SectionType::ProgBits => 1,
            SectionType::SymTab => 2,
            SectionType::StrTab => 3,
            SectionType::Rela => 4,
            SectionType::Hash => 5,
            SectionType::Dynamic => 6,
            SectionType::Note => 7,
            SectionType::NoBits => 8,
            SectionType::Rel => 9,
            SectionType::ShLib => 10,
            SectionType::DynSym => 11,
            SectionType::RVAttributes => 0x7000_0003,
        }
    }

    /// The type that a number stands for.
    pub open spec fn of_number(n: int) -> Option<SectionType> {
        if n == 0 {
            Some(SectionType::Null)
        } else if n == 1 {
            Some(SectionType::ProgBits)
        } else if n == 2 {
            Some(SectionType::SymTab)
        } else if n == 3 {
            Some(SectionType::StrTab)
        } else if n == 4 {
            Some(SectionType::Rela)
        } else if n == 5 {
            Some(SectionType::Hash)
        } else if n == 6 {
            Some(SectionType::Dynamic)
        } else if n == 7 {
            Some(SectionType::Note)
        } else if n == 8 {
            Some(SectionType::NoBits)
        } else if n == 9 {
            Some(SectionType::Rel)
        } else if n == 10 {
            Some(SectionType::ShLib)
        } else if n == 11 {
            Some(SectionType::DynSym)
        } else if n == 0x7000_0003 {
            Some(SectionType::RVAttributes)
        } else {
            None
        }
    }

    /// The number that stands for this type.
    pub fn code(self) -> (r: u32)
        ensures
            r == self.number(),
    {
        match self {
            SectionType::Null => 0,
            SectionType::ProgBits => 1,
            SectionType::SymTab => 2,
            SectionType::StrTab => 3,
            SectionType::Rela => 4,
            SectionType::Hash => 5,
            SectionType::Dynamic => 6,
            SectionType::Note => 7,
            SectionType::NoBits => 8,
            SectionType::Rel => 9,
            SectionType::ShLib => 10,
            SectionType::DynSym => 11,
            SectionType::RVAttributes => 0x7000_0003,
        }
    }

    /// The type that a number stands for, if it stands for any.
    pub fn decode(n: u32) -> (r: Option<Self>)
        ensures
            r == SectionType::of_number(n as int),
    {
        match n {
            0 => Some(SectionType::Null),
            1 => Some(SectionType::ProgBits),
            2 => Some(SectionType::SymTab),
            3 => Some(SectionType::StrTab),
            4 => Some(SectionType::Rela),
            5 => Some(SectionType::Hash),
            6 => Some(SectionType::Dynamic),
            7 => Some(SectionType::Note),
            8 => Some(SectionType::NoBits),
            9 => Some(SectionType::Rel),
            10 => Some(SectionType::ShLib),
            11 => Some(SectionType::DynSym),
            0x7000_0003 => Some(SectionType::RVAttributes),
            _ => None,
        }
    }
}

/// Section flags.
#[derive(Copy, Clone, Debug, PartialEq, Eq, Structural)]
pub struct SectionFlags {
    pub bits: u64,
}

impl SectionFlags {
    /// Writable at runtime.
    pub const WRITE: u64 = 1;

    /// Occupies memory during runtime.
    pub const ALLOC: u64 = 2;

    /// Contains executable instructions.
    pub const EXEC_INSTR: u64 = 4;

    /// All bits in this mask are reserved for OS-specific semantics.
    pub const MASK_OS: u64 = 0x0F00_0000;

    /// All bits in this mask are reserved for processor-specific semantics.
    pub const MASK_PROC: u64 = 0xF000_0000;

    /// All bits that have a meaning.
    pub const ALL: u64 = 0xFF00_0007;

    /// No flags.
    pub fn empty() -> (r: Self)
        ensures
            r.bits == 0,
    {
        SectionFlags { bits: 0 }
    }

    /// The flags with the given bits; bits without a meaning are dropped.
    pub fn from_bits_truncate(bits: u64) -> (r: Self)
        ensures
            r.bits == bits & 0xFF00_0007,
    {
        SectionFlags { bits: bits & 0xFF00_0007 }
    }

    /// Whether all of the given bits are set.
    pub fn contains(self, bits: u64) -> (r: bool)
        ensures
            r == (self.bits & bits == bits),
    {
        self.bits & bits == bits
    }
}

/// What type of segment is this?
#[derive(Copy, Clone, Debug, PartialEq, Eq, Structural)]
pub enum SegmentType {
    /// Undefined.
    Null,
    /// Loadable segment, mapped into memory.
    Load,
    /// Dynamic linking information.
    Dynamic,
    /// Specifies the location and size to a null-terminated path of a dynamic
    /// interpreter.
    Interp,
    /// Specifies the location of notes.
    Note,
    /// Reserved.
    Shlib,
    /// Specifies the location and size of the program header table.
    Phdr,
    /// Whether the stack is executable. It is parsed and otherwise ignored.
    GNUStack,
    /// Attributes of RISC-V ELF files
    RVAttributes,
}

impl SegmentType {
    /// The number that stands for this type.
    pub open spec fn number(self) -> u32 {
        match self {
            SegmentType::Null => 0,
            SegmentType::Load => 1,
            SegmentType::Dynamic => 2,
            SegmentType::Interp => 3,
            SegmentType::Note => 4,
            SegmentType::Shlib => 5,
            SegmentType::Phdr => 6,
            SegmentType::GNUStack => 0x6474_E551,
            SegmentType::RVAttributes => 0x7000_0003,
        }
    }

    /// The type that a number stands for.
    pub open spec fn of_number(n: int) -> Option<SegmentType> {
        if n == 0 {
            Some(SegmentType::Null)
        } else if n == 1 {
            Some(SegmentType::Load)
        } else if n == 2 {
            Some(SegmentType::Dynamic)
        } else if n == 3 {
            Some(SegmentType::Interp)
        } else if n == 4 {
            Some(SegmentType::Note)
        } else if n == 5 {
            Some(SegmentType::Shlib)
        } else if n == 6 {
            Some(SegmentType::Phdr)
        } else if n == 0x6474_E551 {
            Some(SegmentType::GNUStack)
        } else if n == 0x7000_0003 {
            Some(SegmentType::RVAttributes)
        } else {
            None
        }
    }

    /// The number that stands for this type.
    pub fn code(self) -> (r: u32)
        ensures
            r == self.number(),
    {
        match self {
            SegmentType::Null => 0,
            SegmentType::Load => 1,
            SegmentType::Dynamic => 2,
            SegmentType::Interp => 3,
            SegmentType::Note => 4,
            SegmentType::Shlib => 5,
            SegmentType::Phdr => 6,
            SegmentType::GNUStack => 0x6474_E551,
            SegmentType::RVAttributes => 0x7000_0003,
        }
    }

    /// The type that a number stands for, if it stands for any.
    pub fn decode(n: u32) -> (r: Option<Self>)
        ensures
            r == SegmentType::of_number(n as int),
    {
        match n {
            0 => Some(SegmentType::Null),
            1 => Some(SegmentType::Load),
            2 => Some(SegmentType::Dynamic),
            3 => Some(SegmentType::Interp),
            4 => Some(SegmentType::Note),
            5 => Some(SegmentType::Shlib),
            6 => Some(SegmentType::Phdr),
            0x6474_E551 => Some(SegmentType::GNUStack),
            0x7000_0003 => Some(SegmentType::RVAttributes),
            _ => None,
        }
    }
}

/// Flags for segments.
#[derive(Copy, Clone, Debug, PartialEq, Eq, Structural)]
pub struct SegmentFlags {
    pub bits: u32,
}

impl SegmentFlags {
    /// Executable
    pub const EXEC: u32 = 1;

    /// Writable
    pub const WRITE: u32 = 2;

    /// Readable
    pub const READ: u32 = 4;

    /// All bits in this mask are reserved for OS-specific semantics.
    pub const MASK_OS: u32 = 0x00FF_0000;

    /// All bits in this mask are reserved for processor-specific semantics.
    pub const MASK_PROC: u32 = 0xFF00_0000;

    /// All bits that have a meaning.
    pub const ALL: u32 = 0xFFFF_0007;

    /// No flags.
    pub fn empty() -> (r: Self)
        ensures
            r.bits == 0,
    {
        SegmentFlags { bits: 0 }
    }

    /// The flags with the given bits; bits without a meaning are dropped.
    pub fn from_bits_truncate(bits: u32) -> (r: Self)
        ensures
            r.bits == bits & 0xFFFF_0007,
    {
        SegmentFlags { bits: bits & 0xFFFF_0007 }
    }

    /// Whether all of the given bits are set.
    pub fn contains(self, bits: u32) -> (r: bool)
        ensures
            r == (self.bits & bits == bits),
    {
        self.bits & bits == bits
    }
}

/// Whether `x` is a power of two.
pub open spec fn power_of_two(x: int) -> bool {
    exists|k: nat| k < 64 && x == #[trigger] vstd::arithmetic::power2::pow2(k)
}

/// Whether `x` is a power of two.
fn is_power_of_two(x: u64) -> (r: bool)
    ensures
        r == power_of_two(x as int),
{
    let mut p: u64 = 1;
    let mut k: u32 = 0;
    proof {
        vstd::arithmetic::power2::lemma2_to64();
    }
    while k < 63
        invariant
            k <= 63,
            p == vstd::arithmetic::power2::pow2(k as nat),
            forall|j: nat| j < k ==> x != #[trigger] vstd::arithmetic::power2::pow2(j),
        decreases 63 - k,
    {
        if x == p {
            return true;
        }
        proof {
            vstd::arithmetic::power2::lemma2_to64_rest();
            vstd::arithmetic::power2::lemma_pow2_unfold((k + 1) as nat);
            if k + 1 < 63 {
                vstd::arithmetic::power2::lemma_pow2_strictly_increases((k + 1) as nat, 63);
            }
        }
        p = p * 2;
        k += 1;
    }
    x == p
}

/// An ELF section.
#[derive(Copy, Clone, Debug, PartialEq, Eq, Structural)]
pub struct Section {
    /// Where the section's name begins in the table of names.
    pub name_offset: u32,
    /// What type of section is this?
    pub sec_type: SectionType,
    /// Flags relating to this section.
    pub flags: SectionFlags,
    /// The virtual address of this section.
    pub virt_addr: u64,
    /// The offset of this section into the file.
    pub offset: u64,
    /// The size of this section in bytes.
    pub size: u64,
    /// The alignment of this section. Zero and one both refer to no alignment.
    pub addr_align: u64,
    /// For fixed-size entry tables, this contains the size in bytes of each
    /// entry.
    pub ent_size: u64,
    /// The interpretation of `info` depends on the section type.
    pub info: u32,
    /// The interpretation of `link` depends on the section type.
    pub link: u32,
}

impl Section {
    /// Whether `b` is the header of a valid section: its type is known, and
    /// its alignment is a power of two, or zero.
    pub open spec fn valid(b: Seq<u8>) -> bool {
        let align = raw::le64(b, 48);
        &&& SectionType::of_number(raw::le32(b, 4)) is Some
        &&& power_of_two(align) || align == 0
    }

    /// The section whose header is `b`, if it is valid.
    pub open spec fn of(b: Seq<u8>) -> Option<Section> {
        if Section::valid(b) {
            Some(
                Section {
                    name_offset: raw::le32(b, 0) as u32,
                    sec_type: SectionType::of_number(raw::le32(b, 4))->0,
                    flags: SectionFlags { bits: raw::le64(b, 8) as u64 & 0xFF00_0007 },
                    virt_addr: raw::le64(b, 16) as u64,
                    offset: raw::le64(b, 24) as u64,
                    size: raw::le64(b, 32) as u64,
                    addr_align: raw::le64(b, 48) as u64,
                    ent_size: raw::le64(b, 56) as u64,
                    info: raw::le32(b, 44) as u32,
                    link: raw::le32(b, 40) as u32,
                },
            )
        } else {
            None
        }
    }

    /// The section whose header is `b`, if it is valid.
    pub fn from_bytes(b: &[u8]) -> (r: Result<Self, ParseError>)
        requires
            b@.len() == raw::SECTION_HDR_SIZE,
        ensures
            r == parsed(Section::of(b@)),
    {
        let sec_hdr = raw::SectionHdr::from_bytes(b);
        let sec_type = match SectionType::decode(sec_hdr.sec_type) {
            Some(sec_type) => sec_type,
            None => {
                return Err(ParseError);
            },
        };
        if !is_power_of_two(sec_hdr.addr_align) && sec_hdr.addr_align != 0 {
            return Err(ParseError);
        }
        Ok(
            Section {
                name_offset: sec_hdr.name_offset,
                sec_type,
                flags: SectionFlags::from_bits_truncate(sec_hdr.flags),
                virt_addr: sec_hdr.virt_addr,
                offset: sec_hdr.offset,
                size: sec_hdr.size,
                addr_align: sec_hdr.addr_align,
                ent_size: sec_hdr.entry_size,
                info: sec_hdr.info,
                link: sec_hdr.link,
            },
        )
    }

    /// The section whose header comes first in `bytes`.
    pub open spec fn head(bytes: Seq<u8>) -> Option<Section> {
        at_head(bytes, raw::SECTION_HDR_SIZE as int, |b: Seq<u8>| Section::of(b))
    }

    /// Try to parse a section. It is an error if the read fails, or if the
    /// section header is invalid.
    pub fn parse<R: Read + Seek>(reader: &mut R) -> (r: Result<Self, ParseError>)
        requires
            old(reader).readable(),
        ensures
            final(reader).readable(),
            final(reader).contents() == old(reader).contents(),
            final(reader).complete() == old(reader).complete(),
            r matches Ok(sec) ==> Section::head(old(reader).unread()) == Some(sec),
            old(reader).complete() ==> {
                &&& r == parsed(Section::head(old(reader).unread()))
                &&& moved_on(
                    old(reader).unread(),
                    final(reader).unread(),
                    raw::SECTION_HDR_SIZE as int,
                )
            },
    {
        let mut buf: Vec<u8> = vec![0; raw::SECTION_HDR_SIZE];
        match reader.read_exact(buf.as_mut_slice()) {
            Ok(()) => Section::from_bytes(buf.as_slice()),
            Err(_) => Err(ParseError),
        }
    }
}

/// A read of `n` bytes leaves `after` of `before`: the bytes behind those that
/// were read, or too few once more.
pub open spec fn moved_on(before: Seq<u8>, after: Seq<u8>, n: int) -> bool {
    if before.len() >= n {
        after == before.skip(n)
    } else {
        after.len() < n
    }
}

/// Whether a reader that has `unread` before it reads as one that stands at
/// `place`: it does stand there, or neither has `n` bytes left.
pub open spec fn stands_at(unread: Seq<u8>, place: Seq<u8>, n: int) -> bool {
    unread == place || (unread.len() < n && place.len() < n)
}

/// Reading on from a place reads on from the next.
proof fn lemma_stands_on(unread: Seq<u8>, contents: Seq<u8>, pos: int, n: int)
    requires
        0 <= pos,
        0 < n,
    ensures
        stands_at(unread, io_traits::bytes_from(contents, pos), n) ==> forall|after: Seq<u8>|
            #[trigger] moved_on(unread, after, n) ==> stands_at(
                after,
                io_traits::bytes_from(contents, pos + n),
                n,
            ),
{
    let place = io_traits::bytes_from(contents, pos);
    let next = io_traits::bytes_from(contents, pos + n);
    if place.len() >= n {
        assert(place.skip(n) =~= next);
    }
}

/// An ELF segment, representing a runtime memory region.
#[derive(Copy, Clone, Debug, PartialEq, Eq, Structural)]
pub struct Segment {
    /// What type of segment is this?
    pub seg_type: SegmentType,
    /// Flags related to segments, typically a subset of the typical RWX.
    pub flags: SegmentFlags,
    /// Offset of this segment in the file.
    pub offset: u64,
    /// Virtual address of this segment.
    pub virt_addr: u64,
    /// Size of this segment in the file.
    pub file_size: u64,
    /// Size of this segment at runtime. The difference, if any, between
    /// `mem_size` and [`Self::file_size`] is filled with zeroes.
    pub mem_size: u64,
    /// Alignment of this segment. Zero and one are both equivalent to no
    /// alignment constraints.
    pub align: u64,
}

impl Segment {
    /// Whether `b` is the header of a valid segment: its type is known; its
    /// alignment is a power of two, or zero; and its address and its place in
    /// the file agree up to the alignment.
    pub open spec fn valid(b: Seq<u8>) -> bool {
        let align = raw::le64(b, 48);
        &&& SegmentType::of_number(raw::le32(b, 0)) is Some
        &&& power_of_two(align) || align == 0
        &&& align != 0 ==> raw::le64(b, 16) % align == raw::le64(b, 8) % align
    }

    /// The segment whose header is `b`, if it is valid.
    pub open spec fn of(b: Seq<u8>) -> Option<Segment> {
        if Segment::valid(b) {
            Some(
                Segment {
                    seg_type: SegmentType::of_number(raw::le32(b, 0))->0,
                    flags: SegmentFlags { bits: raw::le32(b, 4) as u32 & 0xFFFF_0007 },
                    offset: raw::le64(b, 8) as u64,
                    virt_addr: raw::le64(b, 16) as u64,
                    file_size: raw::le64(b, 32) as u64,
                    mem_size: raw::le64(b, 40) as u64,
                    align: raw::le64(b, 48) as u64,
                },
            )
        } else {
            None
        }
    }

    /// The segment whose header is `b`, if it is valid.
    pub fn from_bytes(b: &[u8]) -> (r: Result<Self, ParseError>)
        requires
            b@.len() == raw::PROGRAM_HDR_SIZE,
        ensures
            r == parsed(Segment::of(b@)),
    {
        let prog_hdr = raw::ProgramHdr::from_bytes(b);
        let seg_type = match SegmentType::decode(prog_hdr.seg_type) {
            Some(seg_type) => seg_type,
            None => {
                return Err(ParseError);
            },
        };
        if !is_power_of_two(prog_hdr.align) && prog_hdr.align != 0 {
            return Err(ParseError);
        }
        if prog_hdr.align != 0 && prog_hdr.virt_addr % prog_hdr.align != prog_hdr.offset
            % prog_hdr.align {
            return Err(ParseError);
        }
        Ok(
            Segment {
                seg_type,
                flags: SegmentFlags::from_bits_truncate(prog_hdr.flags),
                offset: prog_hdr.offset,
                virt_addr: prog_hdr.virt_addr,
                file_size: prog_hdr.file_size,
                mem_size: prog_hdr.mem_size,
                align: prog_hdr.align,
            },
        )
    }

    /// The segment whose header comes first in `bytes`.
    pub open spec fn head(bytes: Seq<u8>) -> Option<Segment> {
        at_head(bytes, raw::PROGRAM_HDR_SIZE as int, |b: Seq<u8>| Segment::of(b))
    }

    /// Parse a segment. It is an error if the read fails, or if the segment
    /// header is invalid.
    pub fn parse<R: Read + Seek>(reader: &mut R) -> (r: Result<Self, ParseError>)
        requires
            old(reader).readable(),
        ensures
            final(reader).readable(),
            final(reader).contents() == old(reader).contents(),
            final(reader).complete() == old(reader).complete(),
            r matches Ok(seg) ==> Segment::head(old(reader).unread()) == Some(seg),
            old(reader).complete() ==> {
                &&& r == parsed(Segment::head(old(reader).unread()))
                &&& moved_on(
                    old(reader).unread(),
                    final(reader).unread(),
                    raw::PROGRAM_HDR_SIZE as int,
                )
            },
    {
        let mut buf: Vec<u8> = vec![0; raw::PROGRAM_HDR_SIZE];
        match reader.read_exact(buf.as_mut_slice()) {
            Ok(()) => Segment::from_bytes(buf.as_slice()),
            Err(_) => Err(ParseError),
        }
    }
}

/// Every type of file, section and segment is what its number stands for.
pub proof fn law_type_numbers(f: FileType, s: SectionType, g: SegmentType)
    ensures
        FileType::of_number(f.number() as int) == Some(f),
        SectionType::of_number(s.number() as int) == Some(s),
        SegmentType::of_number(g.number() as int) == Some(g),
{
}

/// A segment that was parsed lies in memory as it lies in the file, up to its
/// alignment, and its alignment is a power of two where it has one.
pub proof fn law_segment_alignment(b: Seq<u8>, seg: Segment)
    requires
        b.len() == raw::PROGRAM_HDR_SIZE,
        Segment::of(b) == Some(seg),
        seg.align != 0,
    ensures
        power_of_two(seg.align as int),
        seg.virt_addr % seg.align == seg.offset % seg.align,
{
}

} // verus!
