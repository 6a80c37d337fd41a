use river::elf::{
    Elf, FileType, ParseError, Section, SectionType, Segment, SegmentFlags, SegmentType,
};
use river::io_traits::Cursor;

fn put16(b: &mut [u8], at: usize, v: u16) {
    b[at..at + 2].copy_from_slice(&v.to_le_bytes());
}

fn put32(b: &mut [u8], at: usize, v: u32) {
    b[at..at + 4].copy_from_slice(&v.to_le_bytes());
}

fn put64(b: &mut [u8], at: usize, v: u64) {
    b[at..at + 8].copy_from_slice(&v.to_le_bytes());
}

fn file() -> Vec<u8> {
    let mut b = vec![0u8; 64 + 2 * 56 + 64];
    b[0..4].copy_from_slice(&[0x7f, 0x45, 0x4c, 0x46]);
    b[4] = 2;
    b[5] = 1;
    b[6] = 1;
    put16(&mut b, 16, 2);
    put16(&mut b, 18, 243);
    put32(&mut b, 20, 1);
    put64(&mut b, 24, 0x1040_0000);
    put64(&mut b, 32, 64);
    put64(&mut b, 40, 64 + 2 * 56);
    put16(&mut b, 52, 64);
    put16(&mut b, 54, 56);
    put16(&mut b, 56, 2);
    put16(&mut b, 58, 64);
    put16(&mut b, 60, 1);
    put16(&mut b, 62, 1);
    // A segment to load.
    put32(&mut b, 64, 1);
    put32(&mut b, 68, 5);
    put64(&mut b, 72, 0x1000);
    put64(&mut b, 80, 0x2000);
    put64(&mut b, 96, 0x10);
    put64(&mut b, 104, 0x20);
    put64(&mut b, 112, 0x1000);
    // A segment of no known type.
    put32(&mut b, 120, 99);
    // A section of text.
    put32(&mut b, 176, 11);
    put32(&mut b, 180, 1);
    put64(&mut b, 184, 6);
    put64(&mut b, 208, 0x80);
    put64(&mut b, 224, 8);
    b
}

#[test]
fn header_is_read() {
    let elf = Elf::parse_header(&mut Cursor::new(file())).unwrap();
    assert_eq!(elf.filety, FileType::Exec);
    assert_eq!(elf.entry_addr, 0x1040_0000);
    assert_eq!(elf.prog_hdr_offset, 64);
    assert_eq!(elf.prog_hdr_count, 2);
    assert_eq!(elf.sec_hdr_offset, 176);
    assert_eq!(elf.sec_hdr_count, 1);
    assert_eq!(elf.sec_strtab_index, 1);
}

#[test]
fn broken_headers_are_refused() {
    for at in [0, 4, 5, 6, 7, 8, 20, 52, 54, 58] {
        let mut b = file();
        b[at] = b[at].wrapping_add(1);
        assert_eq!(Elf::parse_header(&mut Cursor::new(b)), Err(ParseError));
    }
    assert_eq!(Elf::parse_header(&mut Cursor::new(file()[..63].to_vec())), Err(ParseError));
    let mut b = file();
    put16(&mut b, 16, 5);
    assert_eq!(Elf::parse_header(&mut Cursor::new(b)), Err(ParseError));
}

#[test]
fn segments_are_read() {
    let mut c = Cursor::new(file());
    let mut elf = Elf::parse_header(&mut c).unwrap();
    let segments = elf.parse_segments(&mut c).unwrap();
    assert_eq!(segments.len(), 2);
    assert_eq!(
        segments[0],
        Ok(Segment {
            seg_type: SegmentType::Load,
            flags: SegmentFlags { bits: SegmentFlags::READ | SegmentFlags::EXEC },
            offset: 0x1000,
            virt_addr: 0x2000,
            file_size: 0x10,
            mem_size: 0x20,
            align: 0x1000,
        })
    );
    assert_eq!(segments[1], Err(ParseError));
}

#[test]
fn sections_are_read() {
    let mut c = Cursor::new(file());
    let mut elf = Elf::parse_header(&mut c).unwrap();
    let sections = elf.parse_sections(&mut c).unwrap();
    assert_eq!(sections.len(), 1);
    let s: Section = sections[0].unwrap();
    assert_eq!(s.name_offset, 11);
    assert_eq!(s.sec_type, SectionType::ProgBits);
    assert_eq!(s.flags.bits, 6);
    assert_eq!(s.size, 0x80);
    assert_eq!(s.addr_align, 8);
}

#[test]
fn no_alignment_is_zero_or_one() {
    let mut b = vec![0u8; 64];
    b[4] = 1;
    let s = Section::parse(&mut Cursor::new(b.clone())).unwrap();
    assert_eq!(s.sec_type, SectionType::ProgBits);
    assert_eq!(s.addr_align, 0);
    b[48] = 1;
    assert_eq!(Section::parse(&mut Cursor::new(b.clone())).unwrap().addr_align, 1);
    b[48] = 3;
    assert_eq!(Section::parse(&mut Cursor::new(b)), Err(ParseError));
    let mut p = vec![0u8; 56];
    p[0] = 1;
    let s = Segment::parse(&mut Cursor::new(p)).unwrap();
    assert_eq!(s.seg_type, SegmentType::Load);
    assert_eq!(s.align, 0);
}

#[test]
fn misaligned_segments_are_refused() {
    let mut b = file();
    put64(&mut b, 72, 0x1001);
    let mut c = Cursor::new(b);
    let mut elf = Elf::parse_header(&mut c).unwrap();
    assert_eq!(elf.parse_segments(&mut c).unwrap()[0], Err(ParseError));
    let mut b = file();
    put64(&mut b, 112, 3);
    let mut c = Cursor::new(b);
    let mut elf = Elf::parse_header(&mut c).unwrap();
    assert_eq!(elf.parse_segments(&mut c).unwrap()[0], Err(ParseError));
}

#[test]
fn type_numbers_are_read_back() {
    assert_eq!(FileType::decode(FileType::Dyn.code()), Some(FileType::Dyn));
    assert_eq!(FileType::decode(9), None);
    assert_eq!(SectionType::decode(SectionType::NoBits.code()), Some(SectionType::NoBits));
    assert_eq!(SegmentType::decode(SegmentType::Phdr.code()), Some(SegmentType::Phdr));
    assert_eq!(SegmentType::decode(1000), None);
}

#[test]
fn the_kernel_keeps_what_could_be_read() {
    let mut c = Cursor::new(file());
    let mut elf = river::kernel::elf::Elf::parse_header(&mut c).unwrap();
    elf.parse_sections(&mut c).unwrap();
    assert_eq!(elf.parse_segments(&mut c), Err(ParseError));
    assert_eq!(elf.segments.len(), 1);
    assert_eq!(elf.segments[0].virt_addr, 0x2000);
    assert_eq!(elf.sections.len(), 1);
}
