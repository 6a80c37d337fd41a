//! Physical memory, as the words that the kernel reads and writes through its
//! direct mapping.

use vstd::prelude::*;

verus! {

/// The number of words of a 4KiB frame.
pub const FRAME_WORDS: u64 = 512;

/// The first physical page number that is not direct-mapped.
pub const DIRECT_MAPPED_PAGES: u64 = 0x100_0000;

/// What physical memory holds: frames of 512 words, the first of which has the
/// page number `first`. No more than `limit` frames can be handed out.
#[verifier::ext_equal]
pub struct Mem {
    pub first: int,
    pub limit: int,
    pub words: Seq<u64>,
}

impl Mem {
    /// The number of frames that have been handed out.
    pub open spec fn frames(self) -> int {
        self.words.len() as int / 512
    }

    /// Memory consists of whole frames, all of them direct-mapped.
    pub open spec fn wf(self) -> bool {
        &&& 0 < self.first
        &&& self.words.len() % 512 == 0
        &&& self.frames() <= self.limit
        &&& self.first + self.limit <= DIRECT_MAPPED_PAGES
    }

    /// Whether the frame of page number `ppn` has been handed out.
    pub open spec fn has(self, ppn: int) -> bool {
        self.first <= ppn < self.first + self.frames()
    }

    /// The word `i` of the frame `ppn`.
    pub open spec fn at(self, ppn: int, i: int) -> u64 {
        self.words[(ppn - self.first) * 512 + i]
    }

    /// Memory with the word `i` of the frame `ppn` replaced.
    pub open spec fn set(self, ppn: int, i: int, word: u64) -> Mem {
        Mem { words: self.words.update((ppn - self.first) * 512 + i, word), ..self }
    }

    /// The page number of the frame that is handed out next.
    pub open spec fn next(self) -> int {
        self.first + self.frames()
    }

    /// Memory with one more frame, filled with zeroes.
    pub open spec fn grow(self) -> Mem {
        Mem { words: self.words + Seq::new(512, |i: int| 0u64), ..self }
    }

    /// Memory with `n` more frames, filled with zeroes.
    pub open spec fn grow_by(self, n: int) -> Mem {
        Mem { words: self.words + Seq::new((512 * n) as nat, |i: int| 0u64), ..self }
    }

    /// Whether the same memory is there, whatever it holds.
    pub open spec fn same_extent(self, other: Mem) -> bool {
        self.first == other.first && self.limit == other.limit && self.words.len()
            == other.words.len()
    }

    /// The number of frames that can still be handed out.
    pub open spec fn available(self) -> int {
        self.limit - self.frames()
    }

    /// Whether the bytes from `paddr` up to `paddr + len` are all there.
    pub open spec fn has_bytes(self, paddr: int, len: int) -> bool {
        self.first * 4096 <= paddr && paddr + len <= self.next() * 4096
    }

    /// The byte at the physical address `paddr`; words are little-endian.
    pub open spec fn byte(self, paddr: int) -> u8 {
        byte_of(self.words[paddr / 8 - self.first * 512], paddr % 8)
    }

    /// The word at the physical address `paddr`, a multiple of 8.
    pub open spec fn word(self, paddr: int) -> u64 {
        self.words[paddr / 8 - self.first * 512]
    }

    /// Memory with the word at the physical address `paddr` replaced.
    pub open spec fn set_word(self, paddr: int, word: u64) -> Mem {
        Mem { words: self.words.update(paddr / 8 - self.first * 512, word), ..self }
    }
}

/// The byte `i` of a word, the least significant one first.
pub open spec fn byte_of(word: u64, i: int) -> u8 {
    ((word >> ((8 * i) as u64)) & 0xFF) as u8
}

/// To replace a byte of a word replaces that byte and no other.
proof fn lemma_with_byte(w: u64, b: u64, s: u64, t: u64)
    by (bit_vector)
    requires
        b < 256,
        s < 64,
        t < 64,
        s % 8 == 0,
        t % 8 == 0,
    ensures
        ((((w & !(0xFFu64 << s)) | (b << s)) >> t) & 0xFF) == if s == t {
            b
        } else {
            (w >> t) & 0xFF
        },
{
}

/// Whether `after` is `before` with `data` copied to the physical address
/// `paddr`.
pub open spec fn copied(before: Mem, after: Mem, paddr: int, data: Seq<u8>) -> bool {
    &&& after.same_extent(before)
    &&& forall|p: int|
        before.has_bytes(p, 1) ==> #[trigger] after.byte(p) == if paddr <= p < paddr + data.len() {
            data[p - paddr]
        } else {
            before.byte(p)
        }
}

/// Physical memory.
pub struct PhysicalMemory {
    first: u64,
    limit: u64,
    words: Vec<u64>,
}

impl PhysicalMemory {
    /// What memory holds.
    pub closed spec fn view(&self) -> Mem {
        Mem { first: self.first as int, limit: self.limit as int, words: self.words@ }
    }

    /// Memory of which no frame has been handed out yet: `limit` frames from
    /// the page number `first` on.
    pub fn new(first: u64, limit: u64) -> (r: Self)
        requires
            0 < first,
            first + limit <= DIRECT_MAPPED_PAGES,
        ensures
            r@ == (Mem { first: first as int, limit: limit as int, words: Seq::empty() }),
            r@.wf(),
    {
        let words: Vec<u64> = Vec::new();
        PhysicalMemory { first, limit, words }
    }

    /// Read the word `i` of the frame `ppn`.
    pub fn read(&self, ppn: u64, i: u64) -> (r: u64)
        requires
            self@.wf(),
            self@.has(ppn as int),
            i < 512,
        ensures
            r == self@.at(ppn as int, i as int),
    {
        assert(self.words.len() == self.words@.len());
        self.words[((ppn - self.first) * 512 + i) as usize]
    }

    /// Write the word `i` of the frame `ppn`.
    pub fn write(&mut self, ppn: u64, i: u64, word: u64)
        requires
            old(self)@.wf(),
            old(self)@.has(ppn as int),
            i < 512,
        ensures
            final(self)@ == old(self)@.set(ppn as int, i as int, word),
            final(self)@.wf(),
    {
        assert(self.words.len() == self.words@.len());
        let index: usize = ((ppn - self.first) * 512 + i) as usize;
        self.words.set(index, word);
    }

    /// How many frames can still be handed out.
    pub fn num_free_pages(&self) -> (r: u64)
        requires
            self@.wf(),
        ensures
            r == self@.available(),
    {
        self.limit - (self.words.len() as u64) / 512
    }

    /// The number of the frame that is handed out next.
    pub fn next_frame(&self) -> (r: u64)
        requires
            self@.wf(),
        ensures
            r == self@.next(),
    {
        self.first + (self.words.len() as u64) / 512
    }

    /// How many frames there are.
    pub fn num_pages(&self) -> (r: u64)
        requires
            self@.wf(),
        ensures
            r == self@.limit,
    {
        self.limit
    }

    /// Whether another frame can be handed out.
    pub fn can_allocate(&self) -> (r: bool)
        requires
            self@.wf(),
        ensures
            r == (self@.available() > 0),
    {
        (self.words.len() as u64) / 512 < self.limit
    }

    /// Hand out a frame, filled with zeroes, and return its page number.
    pub fn allocate(&mut self) -> (r: u64)
        requires
            old(self)@.wf(),
            old(self)@.available() > 0,
        ensures
            final(self)@ == old(self)@.grow(),
            final(self)@.wf(),
            r == old(self)@.next(),
    {
        let ppn: u64 = self.first + (self.words.len() as u64) / 512;
        let ghost before = self.words@;
        let mut i: u64 = 0;
        while i < 512
            invariant
                i <= 512,
                self.first == old(self).first,
                self.limit == old(self).limit,
                before == old(self).words@,
                self.words@ == before + Seq::new(i as nat, |i: int| 0u64),
            decreases 512 - i,
        {
            self.words.push(0);
            i += 1;
            assert(self.words@ =~= before + Seq::new(i as nat, |i: int| 0u64));
        }
        ppn
    }

    /// Hand out `n` frames in a row, filled with zeroes, and return the page
    /// number of the first one.
    pub fn allocate_run(&mut self, n: u64) -> (r: u64)
        requires
            old(self)@.wf(),
            old(self)@.available() >= n,
        ensures
            final(self)@ == old(self)@.grow_by(n as int),
            final(self)@.wf(),
            r == old(self)@.next(),
    {
        let ppn: u64 = self.first + (self.words.len() as u64) / 512;
        let ghost m = self@;
        let mut i: u64 = 0;
        assert(self@ =~= m.grow_by(0));
        while i < n
            invariant
                i <= n,
                m.wf(),
                m.available() >= n,
                self@ == m.grow_by(i as int),
                self@.wf(),
            decreases n - i,
        {
            assert(self@.frames() == m.frames() + i);
            let _ = self.allocate();
            i += 1;
            assert(self@ =~= m.grow_by(i as int));
        }
        ppn
    }

    /// Read the byte at a physical address.
    pub fn read_byte(&self, paddr: u64) -> (r: u8)
        requires
            self@.wf(),
            self@.has_bytes(paddr as int, 1),
        ensures
            r == self@.byte(paddr as int),
    {
        assert(self.words.len() == self.words@.len());
        let word: u64 = self.words[(paddr / 8 - self.first * 512) as usize];
        ((word >> (8 * (paddr % 8))) & 0xFF) as u8
    }

    /// Read the word at a physical address that is a multiple of 8.
    pub fn read_word(&self, paddr: u64) -> (r: u64)
        requires
            self@.wf(),
            paddr % 8 == 0,
            self@.has_bytes(paddr as int, 8),
        ensures
            r == self@.word(paddr as int),
    {
        assert(self.words.len() == self.words@.len());
        self.words[(paddr / 8 - self.first * 512) as usize]
    }

    /// Write the word at a physical address that is a multiple of 8.
    pub fn write_word(&mut self, paddr: u64, word: u64)
        requires
            old(self)@.wf(),
            paddr % 8 == 0,
            old(self)@.has_bytes(paddr as int, 8),
        ensures
            final(self)@ == old(self)@.set_word(paddr as int, word),
            final(self)@.wf(),
    {
        assert(self.words.len() == self.words@.len());
        let index: usize = (paddr / 8 - self.first * 512) as usize;
        self.words.set(index, word);
    }

    /// Write the byte at a physical address.
    pub fn write_byte(&mut self, paddr: u64, byte: u8)
        requires
            old(self)@.wf(),
            old(self)@.has_bytes(paddr as int, 1),
        ensures
            copied(old(self)@, final(self)@, paddr as int, seq![byte]),
            final(self)@.wf(),
    {
        assert(self.words.len() == self.words@.len());
        let ghost before = self@;
        let index: usize = (paddr / 8 - self.first * 512) as usize;
        let shift: u64 = 8 * (paddr % 8);
        let word: u64 = self.words[index];
        let new: u64 = (word & !(0xFFu64 << shift)) | ((byte as u64) << shift);
        self.words.set(index, new);
        proof {
            assert forall|p: int| before.has_bytes(p, 1) implies #[trigger] self@.byte(p) == if p
                == paddr {
                byte
            } else {
                before.byte(p)
            } by {
                if p / 8 == paddr / 8 {
                    lemma_with_byte(word, byte as u64, shift, (8 * (p % 8)) as u64);
                }
            }
        }
    }

    /// Copy bytes to a physical address.
    pub fn write_bytes(&mut self, paddr: u64, data: &[u8])
        requires
            old(self)@.wf(),
            old(self)@.has_bytes(paddr as int, data@.len() as int),
        ensures
            copied(old(self)@, final(self)@, paddr as int, data@),
            final(self)@.wf(),
    {
        let ghost before = self@;
        let len: usize = data.len();
        let mut i: usize = 0;
        assert(copied(before, self@, paddr as int, data@.take(0)));
        while i < len
            invariant
                i <= len,
                len == data@.len(),
                before.wf(),
                self@.wf(),
                before.has_bytes(paddr as int, data@.len() as int),
                copied(before, self@, paddr as int, data@.take(i as int)),
            decreases len - i,
        {
            self.write_byte(paddr + i as u64, data[i]);
            assert(copied(before, self@, paddr as int, data@.take(i + 1)));
            i += 1;
        }
        assert(data@.take(len as int) =~= data@);
    }

    /// Write words to a physical address that is a multiple of 8.
    pub fn write_words(&mut self, paddr: u64, words: &Vec<u64>)
        requires
            old(self)@.wf(),
            paddr % 8 == 0,
            old(self)@.has_bytes(paddr as int, (8 * words@.len()) as int),
        ensures
            final(self)@.wf(),
            final(self)@.same_extent(old(self)@),
            forall|i: int|
                0 <= i < words@.len() ==> #[trigger] final(self)@.word(paddr + 8 * i) == words@[i],
            forall|p: int|
                old(self)@.has_bytes(p, 1) && !(paddr <= p < paddr + 8 * words@.len())
                    ==> #[trigger] final(self)@.byte(p) == old(self)@.byte(p),
    {
        let mut i: usize = 0;
        while i < words.len()
            invariant
                i <= words@.len(),
                paddr % 8 == 0,
                old(self)@.wf(),
                old(self)@.has_bytes(paddr as int, (8 * words@.len()) as int),
                self@.wf(),
                self@.same_extent(old(self)@),
                forall|j: int|
                    0 <= j < i ==> #[trigger] self@.word(paddr + 8 * j) == words@[j],
                forall|p: int|
                    old(self)@.has_bytes(p, 1) && !(paddr <= p < paddr + 8 * words@.len())
                        ==> #[trigger] self@.byte(p) == old(self)@.byte(p),
            decreases words@.len() - i,
        {
            let ghost before = self@;
            self.write_word(paddr + 8 * (i as u64), words[i]);
            assert forall|j: int| 0 <= j < i + 1 implies #[trigger] self@.word(paddr + 8 * j)
                == words@[j] by {
                if j < i {
                    assert(before.word(paddr + 8 * j) == words@[j]);
                }
            }
            assert forall|p: int|
                old(self)@.has_bytes(p, 1) && !(paddr <= p < paddr + 8
                    * words@.len()) implies #[trigger] self@.byte(p) == old(self)@.byte(p) by {
                assert(before.byte(p) == old(self)@.byte(p));
                assert(p / 8 != (paddr + 8 * i) / 8);
            }
            i += 1;
        }
    }

    /// Whether the bytes from `paddr` up to `paddr + len` are all there.
    pub fn contains(&self, paddr: u64, len: u64) -> (r: bool)
        requires
            self@.wf(),
        ensures
            r == self@.has_bytes(paddr as int, len as int),
    {
        let end: u64 = (self.first + (self.words.len() as u64) / 512) * 4096;
        self.first * 4096 <= paddr && paddr <= end && len <= end - paddr
    }
}

/// A frame is handed out once: those that are handed out in a run were not
/// before, and hold zeroes; all that were before hold what they held.
pub proof fn law_frames_are_handed_out_once(m: Mem, n: int, ppn: int, i: int)
    requires
        m.wf(),
        0 <= n <= m.available(),
        0 <= i < 512,
    ensures
        m.grow_by(n).wf(),
        m.next() <= ppn < m.next() + n ==> !m.has(ppn) && m.grow_by(n).has(ppn) && m.grow_by(n).at(
            ppn,
            i,
        ) == 0,
        m.has(ppn) ==> m.grow_by(n).has(ppn) && m.grow_by(n).at(ppn, i) == m.at(ppn, i),
        m.grow_by(n).next() == m.next() + n,
{
    assert(m.grow_by(n).frames() == m.frames() + n);
}

/// Words are little-endian: a word is the sum of its eight bytes, each worth 256 times as
/// much as the one before it.
#[verifier::spinoff_prover]
#[verifier::rlimit(50)]
pub proof fn law_words_are_little_endian(m: Mem, paddr: int)
    requires
        paddr % 8 == 0,
    ensures
        m.word(paddr) == m.byte(paddr) + 0x100 * m.byte(paddr + 1) + 0x1_0000 * m.byte(paddr + 2)
            + 0x100_0000 * m.byte(paddr + 3) + 0x1_0000_0000 * m.byte(paddr + 4)
            + 0x100_0000_0000 * m.byte(paddr + 5) + 0x1_0000_0000_0000 * m.byte(paddr + 6)
            + 0x100_0000_0000_0000 * m.byte(paddr + 7),
{
    let w = m.word(paddr);
    assert(forall|i: int| 0 <= i < 8 ==> (#[trigger] (paddr + i)) / 8 == paddr / 8);
    assert(m.byte(paddr) == byte_of(w, 0) && m.byte(paddr + 1) == byte_of(w, 1) && m.byte(paddr + 2)
        == byte_of(w, 2) && m.byte(paddr + 3) == byte_of(w, 3) && m.byte(paddr + 4) == byte_of(
        w,
        4,
    ) && m.byte(paddr + 5) == byte_of(w, 5) && m.byte(paddr + 6) == byte_of(w, 6) && m.byte(
        paddr + 7,
    ) == byte_of(w, 7));
    assert(w == ((w >> 0u64) & 0xFF) as u8 + 0x100 * (((w >> 8u64) & 0xFF) as u8) + 0x1_0000 * (((w
        >> 16u64) & 0xFF) as u8) + 0x100_0000 * (((w >> 24u64) & 0xFF) as u8) + 0x1_0000_0000 * (((w
        >> 32u64) & 0xFF) as u8) + 0x100_0000_0000 * (((w >> 40u64) & 0xFF) as u8)
        + 0x1_0000_0000_0000 * (((w >> 48u64) & 0xFF) as u8) + 0x100_0000_0000_0000 * (((w
        >> 56u64) & 0xFF) as u8)) by (bit_vector);
}

} // verus!
