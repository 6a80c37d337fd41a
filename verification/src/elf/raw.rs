//! The headers of an ELF file as they lie in the file, field by field.

use vstd::prelude::*;

verus! {

/// The 16-bit little-endian number at `at`.
pub open spec fn le16(b: Seq<u8>, at: int) -> int {
    b[at] + 0x100 * b[at + 1]
}

/// The 32-bit little-endian number at `at`.
pub open spec fn le32(b: Seq<u8>, at: int) -> int {
    le16(b, at) + 0x1_0000 * le16(b, at + 2)
}

/// The 64-bit little-endian number at `at`.
pub open spec fn le64(b: Seq<u8>, at: int) -> int {
    le32(b, at) + 0x1_0000_0000 * le32(b, at + 4)
}

fn u16_at(b: &[u8], at: usize) -> (r: u16)
    requires
        at + 2 <= b@.len() <= usize::MAX,
    ensures
        r == le16(b@, at as int),
{
    b[at] as u16 + 0x100 * (b[at + 1] as u16)
}

fn u32_at(b: &[u8], at: usize) -> (r: u32)
    requires
        at + 4 <= b@.len() <= usize::MAX,
    ensures
        r == le32(b@, at as int),
{
    u16_at(b, at) as u32 + 0x1_0000 * (u16_at(b, at + 2) as u32)
}

fn u64_at(b: &[u8], at: usize) -> (r: u64)
    requires
        at + 8 <= b@.len() <= usize::MAX,
    ensures
        r == le64(b@, at as int),
{
    u32_at(b, at) as u64 + 0x1_0000_0000 * (u32_at(b, at + 4) as u64)
}

/// ELF file identifier. Equivalent to `e_ident` in `Elf64_EHdr` in `elf.h`.
/// In the file, padding brings it to 16 bytes.
#[derive(Copy, Clone, Debug, PartialEq, Eq)]
pub struct FileIdent {
    pub magic: [u8; 4],
    pub class: u8,
    pub data: u8,
    pub version: u8,
    pub osabi: u8,
    pub abi_version: u8,
}

/// ELF file header. Equivalent to `Elf64_EHdr` in `elf.h`.
#[derive(Copy, Clone, Debug, PartialEq, Eq)]
pub struct FileHdr {
    pub ident: FileIdent,
    pub filety: u16,
    pub machine: u16,
    pub version: u32,
    pub entry_addr: u64,
    pub prog_hdr_offset: u64,
    pub sec_hdr_offset: u64,
    pub flags: u32,
    pub hdr_size: u16,
    pub prog_hdr_size: u16,
    pub prog_hdr_count: u16,
    pub sec_hdr_size: u16,
    pub sec_hdr_count: u16,
    pub sec_strtab_index: u16,
}

/// The size of a [`FileHdr`] in the file.
pub const FILE_HDR_SIZE: usize = 64;

/// The size of a [`SectionHdr`] in the file.
pub const SECTION_HDR_SIZE: usize = 64;

/// The size of a [`ProgramHdr`] in the file.
pub const PROGRAM_HDR_SIZE: usize = 56;

/// Magic number (`b"\x7FELF"`).
pub const MAGIC: [u8; 4] = [0x7f, 0x45, 0x4c, 0x46];

/// 64-bit files.
pub const ELFCLASS64: u8 = 2;

/// Two's complement, little-endian.
pub const ELFDATA2LSB: u8 = 1;

/// System-V ABI.
pub const ELFOSABI_SYSV: u8 = 0;

/// Current ELF version.
pub const EV_CURRENT: u32 = 1;

/// RISC-V architecture.
pub const EM_RISCV: u16 = 243;

/// Undefined section header
pub const SH_UNDEF: u16 = 0;

impl FileIdent {
    /// Whether this is the identifier of the files that are understood: the
    /// magic number, 64 bits, little-endian, the current version, System V.
    pub open spec fn proper(self) -> bool {
        &&& self.magic@ =~= seq![0x7fu8, 0x45, 0x4c, 0x46]
        &&& self.class == ELFCLASS64
        &&& self.data == ELFDATA2LSB
        &&& self.version == EV_CURRENT
        &&& self.osabi == ELFOSABI_SYSV
        &&& self.abi_version == 0
    }

    /// Whether this is the identifier of the files that are understood.
    pub fn is_proper(&self) -> (r: bool)
        ensures
            r == self.proper(),
    {
        self.magic[0] == MAGIC[0] && self.magic[1] == MAGIC[1] && self.magic[2] == MAGIC[2]
            && self.magic[3] == MAGIC[3] && self.class == ELFCLASS64 && self.data == ELFDATA2LSB
            && self.version == 1 && self.osabi == ELFOSABI_SYSV && self.abi_version == 0
    }
}

impl FileHdr {
    /// Whether these are the fields that `b` spells out.
    pub open spec fn reads(self, b: Seq<u8>) -> bool {
        &&& self.ident.magic@ =~= b.take(4)
        &&& self.ident.class == b[4]
        &&& self.ident.data == b[5]
        &&& self.ident.version == b[6]
        &&& self.ident.osabi == b[7]
        &&& self.ident.abi_version == b[8]
        &&& self.filety == le16(b, 16)
        &&& self.machine == le16(b, 18)
        &&& self.version == le32(b, 20)
        &&& self.entry_addr == le64(b, 24)
        &&& self.prog_hdr_offset == le64(b, 32)
        &&& self.sec_hdr_offset == le64(b, 40)
        &&& self.flags == le32(b, 48)
        &&& self.hdr_size == le16(b, 52)
        &&& self.prog_hdr_size == le16(b, 54)
        &&& self.prog_hdr_count == le16(b, 56)
        &&& self.sec_hdr_size == le16(b, 58)
        &&& self.sec_hdr_count == le16(b, 60)
        &&& self.sec_strtab_index == le16(b, 62)
    }

    /// The header that the bytes spell out.
    pub fn from_bytes(b: &[u8]) -> (r: Self)
        requires
            b@.len() == FILE_HDR_SIZE,
        ensures
            r.reads(b@),
    {
        let ident = FileIdent {
            magic: [b[0], b[1], b[2], b[3]],
            class: b[4],
            data: b[5],
            version: b[6],
            osabi: b[7],
            abi_version: b[8],
        };
        assert(ident.magic@ =~= b@.take(4));
        FileHdr {
            ident,
            filety: u16_at(b, 16),
            machine: u16_at(b, 18),
            version: u32_at(b, 20),
            entry_addr: u64_at(b, 24),
            prog_hdr_offset: u64_at(b, 32),
            sec_hdr_offset: u64_at(b, 40),
            flags: u32_at(b, 48),
            hdr_size: u16_at(b, 52),
            prog_hdr_size: u16_at(b, 54),
            prog_hdr_count: u16_at(b, 56),
            sec_hdr_size: u16_at(b, 58),
            sec_hdr_count: u16_at(b, 60),
            sec_strtab_index: u16_at(b, 62),
        }
    }
}

/// Section header. Equivalent to `Elf64_Shdr` in `elf.h`.
#[derive(Copy, Clone, Debug, PartialEq, Eq, Structural)]
pub struct SectionHdr {
    pub name_offset: u32,
    pub sec_type: u32,
    pub flags: u64,
    pub virt_addr: u64,
    pub offset: u64,
    pub size: u64,
    pub link: u32,
    pub info: u32,
    pub addr_align: u64,
    pub entry_size: u64,
}

impl SectionHdr {
    /// Whether these are the fields that `b` spells out.
    pub open spec fn reads(self, b: Seq<u8>) -> bool {
        &&& self.name_offset == le32(b, 0)
        &&& self.sec_type == le32(b, 4)
        &&& self.flags == le64(b, 8)
        &&& self.virt_addr == le64(b, 16)
        &&& self.offset == le64(b, 24)
        &&& self.size == le64(b, 32)
        &&& self.link == le32(b, 40)
        &&& self.info == le32(b, 44)
        &&& self.addr_align == le64(b, 48)
        &&& self.entry_size == le64(b, 56)
    }

    /// The header that the bytes spell out.
    pub fn from_bytes(b: &[u8]) -> (r: Self)
        requires
            b@.len() == SECTION_HDR_SIZE,
        ensures
            r.reads(b@),
    {
        SectionHdr {
            name_offset: u32_at(b, 0),
            sec_type: u32_at(b, 4),
            flags: u64_at(b, 8),
            virt_addr: u64_at(b, 16),
            offset: u64_at(b, 24),
            size: u64_at(b, 32),
            link: u32_at(b, 40),
            info: u32_at(b, 44),
            addr_align: u64_at(b, 48),
            entry_size: u64_at(b, 56),
        }
    }
}

/// Program header. Equivalent to `Elf64_Phdr` in `elf.h`.
#[derive(Copy, Clone, Debug, PartialEq, Eq, Structural)]
pub struct ProgramHdr {
    pub seg_type: u32,
    pub flags: u32,
    pub offset: u64,
    pub virt_addr: u64,
    pub phys_addr: u64,
    pub file_size: u64,
    pub mem_size: u64,
    pub align: u64,
}

impl ProgramHdr {
    /// Whether these are the fields that `b` spells out.
    pub open spec fn reads(self, b: Seq<u8>) -> bool {
        &&& self.seg_type == le32(b, 0)
        &&& self.flags == le32(b, 4)
        &&& self.offset == le64(b, 8)
        &&& self.virt_addr == le64(b, 16)
        &&& self.phys_addr == le64(b, 24)
        &&& self.file_size == le64(b, 32)
        &&& self.mem_size == le64(b, 40)
        &&& self.align == le64(b, 48)
    }

    /// The header that the bytes spell out.
    pub fn from_bytes(b: &[u8]) -> (r: Self)
        requires
            b@.len() == PROGRAM_HDR_SIZE,
        ensures
            r.reads(b@),
    {
        ProgramHdr {
            seg_type: u32_at(b, 0),
            flags: u32_at(b, 4),
            offset: u64_at(b, 8),
            virt_addr: u64_at(b, 16),
            phys_addr: u64_at(b, 24),
            file_size: u64_at(b, 32),
            mem_size: u64_at(b, 40),
            align: u64_at(b, 48),
        }
    }
}

} // verus!
