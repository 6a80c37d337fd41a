//! ELF files, with all their sections and segments.

use vstd::prelude::*;

use crate::elf;
use crate::elf::{ParseError, Section, Segment};
use crate::io_traits::{Read, Seek};

verus! {

/// An ELF file.
pub struct Elf {
    pub header: elf::Elf,
    pub sections: Vec<Section>,
    pub segments: Vec<Segment>,
}

/// How many of the first `n` entries can be parsed before the first that cannot.
pub open spec fn good_sections(header: elf::Elf, contents: Seq<u8>, n: int, i: int) -> int
    decreases n - i,
{
    if i >= n || header.section(contents, i) is None {
        i
    } else {
        good_sections(header, contents, n, i + 1)
    }
}

/// How many of the first `n` entries can be parsed before the first that cannot.
pub open spec fn good_segments(header: elf::Elf, contents: Seq<u8>, n: int, i: int) -> int
    decreases n - i,
{
    if i >= n || header.segment(contents, i) is None {
        i
    } else {
        good_segments(header, contents, n, i + 1)
    }
}

impl Elf {
    /// Read the file header. It is an error if the read fails, or if the header
    /// is invalid.
    pub fn parse_header<R: Read + Seek>(reader: &mut R) -> (r: Result<Self, ParseError>)
        requires
            old(reader).readable(),
        ensures
            final(reader).readable(),
            final(reader).contents() == old(reader).contents(),
            final(reader).complete() == old(reader).complete(),
            r matches Ok(file) ==> {
                &&& elf::Elf::head(old(reader).unread()) == Some(file.header)
                &&& file.sections@ == Seq::<Section>::empty()
                &&& file.segments@ == Seq::<Segment>::empty()
            },
            old(reader).complete() ==> (r is Ok <==> elf::Elf::head(old(reader).unread()) is Some),
    {
        match elf::Elf::parse_header(reader) {
            Ok(header) => {
                let sections: Vec<Section> = Vec::new();
                let segments: Vec<Segment> = Vec::new();
                assert(sections@ =~= Seq::<Section>::empty());
                assert(segments@ =~= Seq::<Segment>::empty());
                Ok(Elf { header, sections, segments })
            },
            Err(e) => Err(e),
        }
    }

    /// Parse the sections, up to the first that is invalid or cannot be read; it
    /// is an error if there is one, or if the seek fails.
    pub fn parse_sections<R: Read + Seek>(&mut self, reader: &mut R) -> (r: Result<(), ParseError>)
        requires
            old(self).header.sec_hdr_count > 0 ==> old(self).header.sec_hdr_offset <= old(
                reader,
            ).contents().len(),
        ensures
            final(self).header == old(self).header,
            final(self).segments == old(self).segments,
            final(reader).contents() == old(reader).contents(),
            old(reader).complete() ==> ({
                let n = old(self).header.sec_hdr_count as int;
                let good = good_sections(old(self).header, old(reader).contents(), n, 0);
                &&& r is Ok <==> good == n
                &&& final(self).sections@ == old(self).sections@ + Seq::new(
                    good as nat,
                    |i: int| old(self).header.section(old(reader).contents(), i)->0,
                )
            }),
    {
        let ghost header = self.header;
        let ghost contents = reader.contents();
        let ghost before = self.sections@;
        match self.header.parse_sections(reader) {
            Ok(entries) => {
                let mut i: usize = 0;
                let ghost n = header.sec_hdr_count as int;
                let ghost complete = reader.complete();
                assert(before =~= before + Seq::new(0, |i: int| header.section(contents, i)->0));
                while i < entries.len()
                    invariant
                        i <= entries@.len(),
                        n == entries@.len(),
                        n == header.sec_hdr_count,
                        self.header == header,
                        header == old(self).header,
                        before == old(self).sections@,
                        contents == old(reader).contents(),
                        reader.contents() == contents,
                        complete == old(reader).complete(),
                        self.segments == old(self).segments,
                        complete ==> forall|j: int|
                            0 <= j < n ==> #[trigger] entries@[j] == elf::parsed(
                                header.section(contents, j),
                            ),
                        complete ==> good_sections(header, contents, n, 0) == good_sections(
                            header,
                            contents,
                            n,
                            i as int,
                        ),
                        complete ==> self.sections@ == before + Seq::new(
                            i as nat,
                            |j: int| header.section(contents, j)->0,
                        ),
                    decreases entries@.len() - i,
                {
                    match entries[i] {
                        Ok(section) => {
                            self.sections.push(section);
                            proof {
                                if complete {
                                    assert(entries@[i as int] == elf::parsed(
                                        header.section(contents, i as int),
                                    ));
                                    assert(self.sections@ =~= before + Seq::new(
                                        (i + 1) as nat,
                                        |j: int| header.section(contents, j)->0,
                                    ));
                                }
                            }
                        },
                        Err(e) => {
                            return Err(e);
                        },
                    }
                    i += 1;
                }
                Ok(())
            },
            Err(e) => Err(e),
        }
    }

    /// Parse the segments, up to the first that is invalid or cannot be read; it
    /// is an error if there is one, or if the seek fails.
    pub fn parse_segments<R: Read + Seek>(&mut self, reader: &mut R) -> (r: Result<(), ParseError>)
        requires
            old(self).header.prog_hdr_count > 0 ==> old(self).header.prog_hdr_offset <= old(
                reader,
            ).contents().len(),
        ensures
            final(self).header == old(self).header,
            final(self).sections == old(self).sections,
            final(reader).contents() == old(reader).contents(),
            old(reader).complete() ==> ({
                let n = old(self).header.prog_hdr_count as int;
                let good = good_segments(old(self).header, old(reader).contents(), n, 0);
                &&& r is Ok <==> good == n
                &&& final(self).segments@ == old(self).segments@ + Seq::new(
                    good as nat,
                    |i: int| old(self).header.segment(old(reader).contents(), i)->0,
                )
            }),
    {
        let ghost header = self.header;
        let ghost contents = reader.contents();
        let ghost before = self.segments@;
        match self.header.parse_segments(reader) {
            Ok(entries) => {
                let mut i: usize = 0;
                let ghost n = header.prog_hdr_count as int;
                let ghost complete = reader.complete();
                assert(before =~= before + Seq::new(0, |i: int| header.segment(contents, i)->0));
                while i < entries.len()
                    invariant
                        i <= entries@.len(),
                        n == entries@.len(),
                        n == header.prog_hdr_count,
                        self.header == header,
                        header == old(self).header,
                        before == old(self).segments@,
                        contents == old(reader).contents(),
                        reader.contents() == contents,
                        complete == old(reader).complete(),
                        self.sections == old(self).sections,
                        complete ==> forall|j: int|
                            0 <= j < n ==> #[trigger] entries@[j] == elf::parsed(
                                header.segment(contents, j),
                            ),
                        complete ==> good_segments(header, contents, n, 0) == good_segments(
                            header,
                            contents,
                            n,
                            i as int,
                        ),
                        complete ==> self.segments@ == before + Seq::new(
                            i as nat,
                            |j: int| header.segment(contents, j)->0,
                        ),
                    decreases entries@.len() - i,
                {
                    match entries[i] {
                        Ok(segment) => {
                            self.segments.push(segment);
                            proof {
                                if complete {
                                    assert(entries@[i as int] == elf::parsed(
                                        header.segment(contents, i as int),
                                    ));
                                    assert(self.segments@ =~= before + Seq::new(
                                        (i + 1) as nat,
                                        |j: int| header.segment(contents, j)->0,
                                    ));
                                }
                            }
                        },
                        Err(e) => {
                            return Err(e);
                        },
                    }
                    i += 1;
                }
                Ok(())
            },
            Err(e) => Err(e),
        }
    }
}

/// The sections are read up to the first that cannot be parsed: all before it can be, and
/// the one behind them, if there is one, cannot.
pub proof fn law_sections_up_to_the_first_bad(
    header: elf::Elf,
    contents: Seq<u8>,
    n: int,
    i: int,
)
    requires
        0 <= i <= n,
    ensures
        ({
            let good = good_sections(header, contents, n, i);
            &&& i <= good <= n
            &&& forall|k: int| i <= k < good ==> #[trigger] header.section(contents, k) is Some
            &&& good < n ==> header.section(contents, good) is None
        }),
    decreases n - i,
{
    if i < n && header.section(contents, i) is Some {
        law_sections_up_to_the_first_bad(header, contents, n, i + 1);
    }
}

/// The segments are read up to the first that cannot be parsed: all before it can be, and
/// the one behind them, if there is one, cannot.
pub proof fn law_segments_up_to_the_first_bad(
    header: elf::Elf,
    contents: Seq<u8>,
    n: int,
    i: int,
)
    requires
        0 <= i <= n,
    ensures
        ({
            let good = good_segments(header, contents, n, i);
            &&& i <= good <= n
            &&& forall|k: int| i <= k < good ==> #[trigger] header.segment(contents, k) is Some
            &&& good < n ==> header.segment(contents, good) is None
        }),
    decreases n - i,
{
    if i < n && header.segment(contents, i) is Some {
        law_segments_up_to_the_first_bad(header, contents, n, i + 1);
    }
}

} // verus!
