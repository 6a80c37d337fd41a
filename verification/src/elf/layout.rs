//! Where the fields of the headers lie in a file: each header is the little-endian
//! numbers of its fields, one behind the other.

use vstd::prelude::*;

use super::raw;
use super::{Elf, FileType, Section, SectionType, Segment, SegmentType};

verus! {

/// The number that `n` bytes from `at` on spell, the least significant one first.
pub open spec fn number(b: Seq<u8>, at: int, n: nat) -> int
    decreases n,
{
    if n == 0 {
        0
    } else {
        b[at] + 256 * number(b, at + 1, (n - 1) as nat)
    }
}

/// How many numbers can be spelled with `n` bytes.
pub open spec fn numbers(n: nat) -> int
    decreases n,
{
    if n == 0 {
        1
    } else {
        256 * numbers((n - 1) as nat)
    }
}

/// The `n` bytes that spell a number, the least significant one first.
pub open spec fn digits(v: int, n: nat) -> Seq<u8>
    decreases n,
{
    if n == 0 {
        Seq::empty()
    } else {
        seq![(v % 256) as u8] + digits(v / 256, (n - 1) as nat)
    }
}

/// Fields one behind the other: each is a number, and how many bytes it takes.
pub open spec fn laid_out(fields: Seq<(int, nat)>) -> Seq<u8>
    decreases fields.len(),
{
    if fields.len() == 0 {
        Seq::empty()
    } else {
        laid_out(fields.drop_last()) + digits(fields.last().0, fields.last().1)
    }
}

/// How many bytes fields take.
pub open spec fn width(fields: Seq<(int, nat)>) -> int
    decreases fields.len(),
{
    if fields.len() == 0 {
        0
    } else {
        width(fields.drop_last()) + fields.last().1
    }
}

proof fn lemma_digits(b: Seq<u8>, at: int, v: int, n: nat)
    requires
        0 <= at,
        at + n <= b.len(),
        0 <= v < numbers(n),
        forall|i: int| 0 <= i < n ==> #[trigger] b[at + i] == digits(v, n)[i],
    ensures
        digits(v, n).len() == n,
        number(b, at, n) == v,
    decreases n,
{
    lemma_digits_len(v, n);
    if n > 0 {
        let m = (n - 1) as nat;
        assert(b[at + 0] == digits(v, n)[0]);
        lemma_digits_len(v / 256, m);
        assert forall|i: int| 0 <= i < m implies #[trigger] b[at + 1 + i] == digits(
            v / 256,
            m,
        )[i] by {
            assert(b[at + (i + 1)] == digits(v, n)[i + 1]);
        }
        lemma_digits(b, at + 1, v / 256, m);
    }
}

proof fn lemma_digits_len(v: int, n: nat)
    ensures
        digits(v, n).len() == n,
    decreases n,
{
    if n > 0 {
        lemma_digits_len(v / 256, (n - 1) as nat);
    }
}

proof fn lemma_width(fields: Seq<(int, nat)>)
    ensures
        laid_out(fields).len() == width(fields),
    decreases fields.len(),
{
    if fields.len() > 0 {
        lemma_width(fields.drop_last());
        lemma_digits_len(fields.last().0, fields.last().1);
    }
}

/// Fields that are laid out are read back where they lie.
pub proof fn law_fields_are_read_back(fields: Seq<(int, nat)>, k: int)
    requires
        0 <= k < fields.len(),
        0 <= fields[k].0 < numbers(fields[k].1),
    ensures
        laid_out(fields).len() == width(fields),
        number(laid_out(fields), width(fields.take(k)), fields[k].1) == fields[k].0,
    decreases fields.len(),
{
    let b = laid_out(fields);
    let less = fields.drop_last();
    lemma_width(fields);
    lemma_width(less);
    lemma_digits_len(fields.last().0, fields.last().1);
    if k == fields.len() - 1 {
        assert(fields.take(k) =~= less);
        assert forall|i: int| 0 <= i < fields[k].1 implies #[trigger] b[width(less) + i] == digits(
            fields[k].0,
            fields[k].1,
        )[i] by {}
        lemma_digits(b, width(less), fields[k].0, fields[k].1);
    } else {
        law_fields_are_read_back(less, k);
        assert(less.take(k) =~= fields.take(k));
        assert(less[k] == fields[k]);
        lemma_width(fields.take(k));
        lemma_within(less, k);
        lemma_same_number(laid_out(less), b, width(fields.take(k)), fields[k].1);
    }
}

/// A field lies within the fields.
proof fn lemma_within(fields: Seq<(int, nat)>, k: int)
    requires
        0 <= k < fields.len(),
    ensures
        0 <= width(fields.take(k)),
        width(fields.take(k)) + fields[k].1 <= width(fields),
    decreases fields.len(),
{
    if k == fields.len() - 1 {
        assert(fields.take(k) =~= fields.drop_last());
        lemma_width(fields.drop_last());
    } else {
        lemma_within(fields.drop_last(), k);
        assert(fields.drop_last().take(k) =~= fields.take(k));
    }
}

proof fn lemma_same_number(a: Seq<u8>, b: Seq<u8>, at: int, n: nat)
    requires
        0 <= at,
        at + n <= a.len() <= b.len(),
        forall|i: int| 0 <= i < a.len() ==> a[i] == b[i],
    ensures
        number(a, at, n) == number(b, at, n),
    decreases n,
{
    if n > 0 {
        lemma_same_number(a, b, at + 1, (n - 1) as nat);
    }
}

/// The numbers that the bytes of a header spell are those that are read.
proof fn lemma_numbers(b: Seq<u8>, at: int)
    ensures
        number(b, at, 2) == raw::le16(b, at),
        number(b, at, 4) == raw::le32(b, at),
        number(b, at, 8) == raw::le64(b, at),
{
    reveal_with_fuel(number, 9);
}

/// A section that was parsed has in its fields the numbers that its header spells: the
/// offset of its name at byte 0, its type at 4, its flags at 8, its address at 16, its
/// place in the file at 24, its size at 32, its link at 40 and info at 44, its alignment
/// at 48, and the size of its entries at 56. It is refused if, and only if, its type is
/// none that is known or its alignment is neither zero nor a power of two.
pub proof fn law_section_fields(b: Seq<u8>)
    requires
        b.len() == 64,
    ensures
        match Section::of(b) {
            Some(sec) => {
                &&& sec.name_offset == number(b, 0, 4)
                &&& sec.sec_type.number() == number(b, 4, 4)
                &&& sec.flags.bits == (number(b, 8, 8) as u64 & 0xFF00_0007)
                &&& sec.virt_addr == number(b, 16, 8)
                &&& sec.offset == number(b, 24, 8)
                &&& sec.size == number(b, 32, 8)
                &&& sec.link == number(b, 40, 4)
                &&& sec.info == number(b, 44, 4)
                &&& sec.addr_align == number(b, 48, 8)
                &&& sec.ent_size == number(b, 56, 8)
                &&& sec.addr_align == 0 || super::power_of_two(sec.addr_align as int)
            },
            None => {
                ||| number(b, 4, 4) > 11 && number(b, 4, 4) != 0x7000_0003
                ||| number(b, 48, 8) != 0 && !super::power_of_two(number(b, 48, 8))
            },
        },
{
    lemma_numbers(b, 0);
    lemma_numbers(b, 4);
    lemma_numbers(b, 8);
    lemma_numbers(b, 16);
    lemma_numbers(b, 24);
    lemma_numbers(b, 32);
    lemma_numbers(b, 40);
    lemma_numbers(b, 44);
    lemma_numbers(b, 48);
    lemma_numbers(b, 56);
}

/// The header of a section.
pub open spec fn section_header(sec: Section) -> Seq<u8> {
    laid_out(section_layout(sec))
}

/// The fields of the header of a section, in the order in which they lie in a file.
pub open spec fn section_layout(sec: Section) -> Seq<(int, nat)> {
    seq![
        (sec.name_offset as int, 4),
        (sec.sec_type.number() as int, 4),
        (sec.flags.bits as int, 8),
        (sec.virt_addr as int, 8),
        (sec.offset as int, 8),
        (sec.size as int, 8),
        (sec.link as int, 4),
        (sec.info as int, 4),
        (sec.addr_align as int, 8),
        (sec.ent_size as int, 8),
    ]
}

/// The header of a section is parsed back to the section, whatever section it is whose
/// flags have a meaning and whose alignment is zero or a power of two.
pub proof fn law_section_round_trip(sec: Section)
    requires
        sec.flags.bits & 0xFF00_0007 == sec.flags.bits,
        sec.addr_align == 0 || super::power_of_two(sec.addr_align as int),
    ensures
        section_header(sec).len() == 64,
        Section::of(section_header(sec)) == Some(sec),
{
    let f = section_layout(sec);
    let b = section_header(sec);
    reveal_with_fuel(numbers, 9);
    reveal_with_fuel(width, 11);
    assert forall|k: int| 0 <= k < 10 implies number(
        b,
        #[trigger] width(f.take(k)),
        f[k].1,
    ) == f[k].0 by {
        law_fields_are_read_back(f, k);
    }
    law_fields_are_read_back(f, 0);
    lemma_offsets(f);
    assert(number(b, width(f.take(0)), f[0].1) == f[0].0);
    assert(number(b, width(f.take(1)), f[1].1) == f[1].0);
    assert(number(b, width(f.take(2)), f[2].1) == f[2].0);
    assert(number(b, width(f.take(3)), f[3].1) == f[3].0);
    assert(number(b, width(f.take(4)), f[4].1) == f[4].0);
    assert(number(b, width(f.take(5)), f[5].1) == f[5].0);
    assert(number(b, width(f.take(6)), f[6].1) == f[6].0);
    assert(number(b, width(f.take(7)), f[7].1) == f[7].0);
    assert(number(b, width(f.take(8)), f[8].1) == f[8].0);
    assert(number(b, width(f.take(9)), f[9].1) == f[9].0);
    law_section_fields(b);
    assert(Section::of(b)->0.sec_type.number() == sec.sec_type.number());
    assert(Section::of(b)->0.sec_type == sec.sec_type);
}

/// A field begins where the one before it ends.
proof fn lemma_offsets(f: Seq<(int, nat)>)
    ensures
        width(f.take(0)) == 0,
        forall|k: int|
            0 <= k < f.len() ==> #[trigger] width(f.take(k + 1)) == width(f.take(k)) + f[k].1,
        width(f.take(f.len() as int)) == width(f),
{
    assert forall|k: int| 0 <= k < f.len() implies #[trigger] width(f.take(k + 1)) == width(
        f.take(k),
    ) + f[k].1 by {
        assert(f.take(k + 1).drop_last() =~= f.take(k));
    }
    assert(f.take(f.len() as int) =~= f);
}

/// A segment that was parsed has in its fields the numbers that its header spells: its
/// type at byte 0, its flags at 4, its place in the file at 8, its address at 16, its
/// sizes in the file at 32 and in memory at 40, and its alignment at 48. It is refused
/// if, and only if, its type is none that is known, its alignment is neither zero nor a
/// power of two, or its address and its place do not agree up to the alignment.
pub proof fn law_segment_fields(b: Seq<u8>)
    requires
        b.len() == 56,
    ensures
        match Segment::of(b) {
            Some(seg) => {
                &&& seg.seg_type.number() == number(b, 0, 4)
                &&& seg.flags.bits == (number(b, 4, 4) as u32 & 0xFFFF_0007)
                &&& seg.offset == number(b, 8, 8)
                &&& seg.virt_addr == number(b, 16, 8)
                &&& seg.file_size == number(b, 32, 8)
                &&& seg.mem_size == number(b, 40, 8)
                &&& seg.align == number(b, 48, 8)
                &&& seg.align == 0 || (super::power_of_two(seg.align as int) && seg.virt_addr % seg.align
                    == seg.offset % seg.align)
            },
            None => {
                ||| number(b, 0, 4) > 6 && number(b, 0, 4) != 0x6474_E551 && number(b, 0, 4)
                    != 0x7000_0003
                ||| number(b, 48, 8) != 0 && !super::power_of_two(number(b, 48, 8))
                ||| number(b, 48, 8) != 0 && number(b, 16, 8) % number(b, 48, 8) != number(b, 8, 8)
                    % number(b, 48, 8)
            },
        },
{
    lemma_numbers(b, 0);
    lemma_numbers(b, 4);
    lemma_numbers(b, 8);
    lemma_numbers(b, 16);
    lemma_numbers(b, 32);
    lemma_numbers(b, 40);
    lemma_numbers(b, 48);
}

/// The fields of the header of a segment, in the order in which they lie in a file; the
/// physical address is of no meaning here.
pub open spec fn segment_layout(seg: Segment, phys_addr: u64) -> Seq<(int, nat)> {
    seq![
        (seg.seg_type.number() as int, 4),
        (seg.flags.bits as int, 4),
        (seg.offset as int, 8),
        (seg.virt_addr as int, 8),
        (phys_addr as int, 8),
        (seg.file_size as int, 8),
        (seg.mem_size as int, 8),
        (seg.align as int, 8),
    ]
}

/// The header of a segment is parsed back to the segment, whatever segment it is whose
/// flags have a meaning and that is aligned as it says.
pub proof fn law_segment_round_trip(seg: Segment, phys_addr: u64)
    requires
        seg.flags.bits & 0xFFFF_0007 == seg.flags.bits,
        seg.align == 0 || (super::power_of_two(seg.align as int) && seg.virt_addr % seg.align == seg.offset
            % seg.align),
    ensures
        laid_out(segment_layout(seg, phys_addr)).len() == 56,
        Segment::of(laid_out(segment_layout(seg, phys_addr))) == Some(seg),
{
    let f = segment_layout(seg, phys_addr);
    let b = laid_out(f);
    reveal_with_fuel(numbers, 9);
    reveal_with_fuel(width, 9);
    assert forall|k: int| 0 <= k < 8 implies number(
        b,
        #[trigger] width(f.take(k)),
        f[k].1,
    ) == f[k].0 by {
        law_fields_are_read_back(f, k);
    }
    law_fields_are_read_back(f, 0);
    lemma_offsets(f);
    assert(number(b, width(f.take(0)), f[0].1) == f[0].0);
    assert(number(b, width(f.take(1)), f[1].1) == f[1].0);
    assert(number(b, width(f.take(2)), f[2].1) == f[2].0);
    assert(number(b, width(f.take(3)), f[3].1) == f[3].0);
    assert(number(b, width(f.take(4)), f[4].1) == f[4].0);
    assert(number(b, width(f.take(5)), f[5].1) == f[5].0);
    assert(number(b, width(f.take(6)), f[6].1) == f[6].0);
    assert(number(b, width(f.take(7)), f[7].1) == f[7].0);
    law_segment_fields(b);
    assert(Segment::of(b)->0.seg_type.number() == seg.seg_type.number());
    assert(Segment::of(b)->0.seg_type == seg.seg_type);
}

/// A file that was parsed has in its fields the numbers that its header spells: its type
/// at byte 16, its entry at 24, where its program headers begin at 32 and its section
/// headers at 40, how many there are at 56 and at 60, and which section holds the names
/// at 62. It is refused if, and only if, it is not identified as a little-endian file of
/// 64 bits for System V, its type is none that is known, or its version or the sizes of
/// its headers are others.
pub proof fn law_file_fields(b: Seq<u8>)
    requires
        b.len() == 64,
    ensures
        match Elf::of(b) {
            Some(elf) => {
                &&& elf.filety.number() == number(b, 16, 2)
                &&& elf.entry_addr == number(b, 24, 8)
                &&& elf.prog_hdr_offset == number(b, 32, 8)
                &&& elf.sec_hdr_offset == number(b, 40, 8)
                &&& elf.prog_hdr_count == number(b, 56, 2)
                &&& elf.sec_hdr_count == number(b, 60, 2)
                &&& elf.sec_strtab_index == number(b, 62, 2)
            },
            None => true,
        },
        Elf::of(b) is Some <==> {
            &&& b[0] == 0x7F && b[1] == 0x45 && b[2] == 0x4C && b[3] == 0x46
            &&& b[4] == 2 && b[5] == 1 && b[6] == 1 && b[7] == 0 && b[8] == 0
            &&& number(b, 16, 2) <= 4
            &&& number(b, 20, 4) == 1
            &&& number(b, 52, 2) == 64
            &&& number(b, 54, 2) == 56
            &&& number(b, 58, 2) == 64
        },
{
    lemma_numbers(b, 16);
    lemma_numbers(b, 20);
    lemma_numbers(b, 24);
    lemma_numbers(b, 32);
    lemma_numbers(b, 40);
    lemma_numbers(b, 52);
    lemma_numbers(b, 54);
    lemma_numbers(b, 56);
    lemma_numbers(b, 58);
    lemma_numbers(b, 60);
    lemma_numbers(b, 62);
    assert(b.take(4) =~= seq![b[0], b[1], b[2], b[3]]);
    let magic = seq![0x7fu8, 0x45, 0x4c, 0x46];
    if b.take(4) =~= magic {
        assert(b.take(4)[0] == magic[0] && b.take(4)[1] == magic[1] && b.take(4)[2] == magic[2]
            && b.take(4)[3] == magic[3]);
    }
}

/// The numbers that types of files stand for are counted from 0, as are those of sections
/// and segments but for a few: the stack of GNU programs and what RISC-V adds.
pub proof fn law_types_are_counted(n: int)
    ensures
        ({
            let files = seq![
                FileType::Unknown,
                FileType::Rel,
                FileType::Exec,
                FileType::Dyn,
                FileType::Core,
            ];
            FileType::of_number(n) == if 0 <= n < 5 {
                Some(files[n])
            } else {
                None
            }
        }),
        ({
            let sections = seq![
                SectionType::Null,
                SectionType::ProgBits,
                SectionType::SymTab,
                SectionType::StrTab,
                SectionType::Rela,
                SectionType::Hash,
                SectionType::Dynamic,
                SectionType::Note,
                SectionType::NoBits,
                SectionType::Rel,
                SectionType::ShLib,
                SectionType::DynSym,
            ];
            SectionType::of_number(n) == if 0 <= n < 12 {
                Some(sections[n])
            } else if n == 0x7000_0003 {
                Some(SectionType::RVAttributes)
            } else {
                None
            }
        }),
        ({
            let segments = seq![
                SegmentType::Null,
                SegmentType::Load,
                SegmentType::Dynamic,
                SegmentType::Interp,
                SegmentType::Note,
                SegmentType::Shlib,
                SegmentType::Phdr,
            ];
            SegmentType::of_number(n) == if 0 <= n < 7 {
                Some(segments[n])
            } else if n == 0x6474_E551 {
                Some(SegmentType::GNUStack)
            } else if n == 0x7000_0003 {
                Some(SegmentType::RVAttributes)
            } else {
                None
            }
        }),
{
}

/// The header `i` of a table of headers lies behind those before it: sections have 64
/// bytes each from where the file says on, segments 56.
pub proof fn law_headers_lie_in_rows(elf: Elf, contents: Seq<u8>, i: int)
    requires
        0 <= i,
    ensures
        elf.sec_hdr_offset + 64 * (i + 1) <= contents.len() ==> elf.section(contents, i)
            == Section::of(
            contents.subrange(elf.sec_hdr_offset + 64 * i, elf.sec_hdr_offset + 64 * i + 64),
        ),
        elf.sec_hdr_offset + 64 * (i + 1) > contents.len() ==> elf.section(contents, i) is None,
        elf.prog_hdr_offset + 56 * (i + 1) <= contents.len() ==> elf.segment(contents, i)
            == Segment::of(
            contents.subrange(elf.prog_hdr_offset + 56 * i, elf.prog_hdr_offset + 56 * i + 56),
        ),
        elf.prog_hdr_offset + 56 * (i + 1) > contents.len() ==> elf.segment(contents, i) is None,
{
    let sec = elf.sec_hdr_offset + 64 * i;
    let seg = elf.prog_hdr_offset + 56 * i;
    if sec + 64 <= contents.len() {
        assert(crate::io_traits::bytes_from(contents, sec).take(64) =~= contents.subrange(
            sec,
            sec + 64,
        ));
    }
    if seg + 56 <= contents.len() {
        assert(crate::io_traits::bytes_from(contents, seg).take(56) =~= contents.subrange(
            seg,
            seg + 56,
        ));
    }
}

} // verus!
