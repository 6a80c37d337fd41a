//! Byte streams: reading, seeking, and a cursor over a buffer.

use vstd::prelude::*;

verus! {

/// Abstract error type for any I/O error.
#[derive(Copy, Clone, Debug, PartialEq, Eq, Structural)]
pub struct IoError;

/// `buf` after its first `n` bytes were replaced by those of `data`.
pub open spec fn filled(buf: Seq<u8>, data: Seq<u8>, n: int) -> Seq<u8> {
    Seq::new(buf.len(), |i: int| if i < n { data[i] } else { buf[i] })
}

/// The smaller of two lengths.
pub open spec fn shorter(a: nat, b: nat) -> nat {
    if a < b { a } else { b }
}

/// The bytes of `contents` from `pos` on.
pub open spec fn bytes_from(contents: Seq<u8>, pos: int) -> Seq<u8> {
    if pos <= contents.len() { contents.skip(pos) } else { Seq::empty() }
}

/// A trait for streams which can be read.
pub trait Read {
    /// The bytes that are still to be read.
    spec fn unread(&self) -> Seq<u8>;

    /// All bytes that the stream can be moved to, wherever it stands; none
    /// where it cannot be moved.
    spec fn contents(&self) -> Seq<u8>;

    /// Whether the stream stands at a place it can be read from.
    spec fn readable(&self) -> bool;

    /// Whether reads of this stream never fail and never stop short of the
    /// end of the stream or of the buffer.
    spec fn complete(&self) -> bool;

    /// Read bytes into the provided buffer, returning the number of bytes
    /// read.
    fn read(&mut self, buf: &mut [u8]) -> (r: Result<usize, IoError>)
        requires
            old(self).readable(),
        ensures
            final(self).readable(),
            final(self).contents() == old(self).contents(),
            final(self).complete() == old(self).complete(),
            final(buf)@.len() == old(buf)@.len(),
            r matches Ok(n) ==> {
                &&& n <= old(buf)@.len()
                &&& n <= old(self).unread().len()
                &&& final(buf)@ == filled(old(buf)@, old(self).unread(), n as int)
                &&& final(self).unread() == old(self).unread().skip(n as int)
            },
            old(self).complete() ==> r == Ok::<usize, IoError>(
                shorter(old(buf)@.len(), old(self).unread().len()) as usize,
            ),
    ;

    /// Fill the provided buffer, or fail if the stream ends first.
    fn read_exact(&mut self, buf: &mut [u8]) -> (r: Result<(), IoError>)
        requires
            old(self).readable(),
        ensures
            final(self).readable(),
            final(self).contents() == old(self).contents(),
            final(self).complete() == old(self).complete(),
            final(buf)@.len() == old(buf)@.len(),
            r is Ok ==> {
                &&& old(buf)@.len() <= old(self).unread().len()
                &&& final(buf)@ == old(self).unread().take(old(buf)@.len() as int)
                &&& final(self).unread() == old(self).unread().skip(old(buf)@.len() as int)
            },
            old(self).complete() ==> {
                &&& r is Ok <==> old(buf)@.len() <= old(self).unread().len()
                &&& final(self).unread().len() <= old(self).unread().len()
            },
    {
        let ghost all = self.unread();
        let ghost total = buf@.len();
        let ghost dest = final(buf)@;
        let ghost mut done: int = 0;
        let mut rest: &mut [u8] = buf;
        assert(all.skip(0) =~= all);
        #[verifier::loop_isolation(false)]
        while rest.len() > 0
            invariant
                0 <= done <= all.len(),
                rest@.len() + done == total,
                self.readable(),
                self.contents() == old(self).contents(),
                self.complete() == old(self).complete(),
                self.unread() == all.skip(done),
                final(rest)@.len() == rest@.len() ==> dest.len() == total,
                dest == all.take(done) + final(rest)@,
            decreases rest@.len(),
        {
            match self.read(rest) {
                Ok(0) => {
                    return Err(IoError);
                },
                Ok(n) => {
                    let (_, tail) = rest.split_at_mut(n);
                    rest = tail;
                    proof {
                        assert(all.skip(done).skip(n as int) =~= all.skip(done + n));
                        done = done + n;
                    }
                },
                Err(e) => {
                    return Err(e);
                },
            }
        }
        assert(dest =~= all.take(done));
        Ok(())
    }
}

/// Description of where to seek from and by how many bytes.
#[derive(Copy, Clone, Debug, PartialEq, Eq, Structural)]
pub enum SeekFrom {
    /// Seek some amount of bytes from the start of the stream.
    Start(u64),
    /// Seek some amount of bytes from the end of the stream.
    End(i64),
    /// Seek some amount of bytes from the current cursor position.
    Current(i64),
}

/// A trait for streams with an internal cursor, which can be moved at will.
pub trait Seek: Read {
    /// Where the cursor stands.
    spec fn at(&self) -> int;

    /// Seek to the provided offset in a stream.
    ///
    /// If successful, the new position is returned.
    fn seek(&mut self, from: SeekFrom) -> (r: Result<u64, IoError>)
        ensures
            final(self).contents() == old(self).contents(),
            final(self).complete() == old(self).complete(),
            r matches Ok(p) ==> {
                &&& p == target(old(self).contents().len() as int, old(self).at(), from)
                &&& final(self).at() == p
                &&& final(self).unread() == bytes_from(old(self).contents(), p as int)
                &&& p <= old(self).contents().len() ==> final(self).readable()
            },
            old(self).complete() ==> (r is Ok <==> 0 <= target(
                old(self).contents().len() as int,
                old(self).at(),
                from,
            ) <= u64::MAX),
    ;
}

/// The position that `from` names in a stream of `len` bytes whose cursor
/// stands at `at`.
pub open spec fn target(len: int, at: int, from: SeekFrom) -> int {
    match from {
        SeekFrom::Start(n) => n as int,
        SeekFrom::End(n) => len + n,
        SeekFrom::Current(n) => at + n,
    }
}

impl<'a> Read for &'a [u8] {
    open spec fn unread(&self) -> Seq<u8> {
        self@
    }

    open spec fn contents(&self) -> Seq<u8> {
        Seq::empty()
    }

    open spec fn readable(&self) -> bool {
        true
    }

    open spec fn complete(&self) -> bool {
        true
    }

    fn read(&mut self, buf: &mut [u8]) -> (r: Result<usize, IoError>) {
        let data: &'a [u8] = *self;
        let len: usize = if buf.len() < data.len() {
            buf.len()
        } else {
            data.len()
        };
        copy_prefix(buf, data, len);
        *self = vstd::slice::slice_subrange(data, len, data.len());
        assert(self@ =~= data@.skip(len as int));
        Ok(len)
    }

    /// Nothing is read where the slice is shorter than the buffer.
    fn read_exact(&mut self, buf: &mut [u8]) -> (r: Result<(), IoError>)
        ensures
            r is Err ==> *final(self) == *old(self) && final(buf)@ == old(buf)@,
    {
        let data: &'a [u8] = *self;
        let len: usize = buf.len();
        if len > data.len() {
            return Err(IoError);
        }
        copy_prefix(buf, data, len);
        assert(buf@ =~= data@.take(len as int));
        *self = vstd::slice::slice_subrange(data, len, data.len());
        assert(self@ =~= data@.skip(len as int));
        Ok(())
    }
}

/// Copies the first `len` bytes of `data` over those of `buf`.
fn copy_prefix(buf: &mut [u8], data: &[u8], len: usize)
    requires
        len <= old(buf)@.len(),
        len <= data@.len(),
    ensures
        final(buf)@ == filled(old(buf)@, data@, len as int),
{
    let mut i: usize = 0;
    assert(buf@ =~= filled(old(buf)@, data@, 0));
    while i < len
        invariant
            i <= len,
            len <= buf@.len(),
            len <= data@.len(),
            buf@ == filled(old(buf)@, data@, i as int),
        decreases len - i,
    {
        buf[i] = data[i];
        i += 1;
        assert(buf@ =~= filled(old(buf)@, data@, i as int));
    }
}

/// Something that owns or borrows a run of bytes.
pub trait Bytes {
    /// The bytes.
    spec fn bytes(&self) -> Seq<u8>;

    /// A view of the bytes.
    fn as_bytes(&self) -> (r: &[u8])
        ensures
            r@ == self.bytes(),
    ;
}

impl<'a> Bytes for &'a [u8] {
    open spec fn bytes(&self) -> Seq<u8> {
        self@
    }

    fn as_bytes(&self) -> (r: &[u8]) {
        *self
    }
}

impl Bytes for Vec<u8> {
    open spec fn bytes(&self) -> Seq<u8> {
        self@
    }

    fn as_bytes(&self) -> (r: &[u8]) {
        self.as_slice()
    }
}

/// A [`Read`]- and [`Seek`]-able cursor over a byte buffer.
pub struct Cursor<T: Bytes> {
    pub inner: T,
    pub position: u64,
}

impl<T: Bytes> Cursor<T> {
    /// Get a slice to the rest of the buffer.
    pub fn rest(&self) -> (r: &[u8])
        requires
            self.readable(),
        ensures
            r@ == self.unread(),
    {
        let all: &[u8] = self.inner.as_bytes();
        let r: &[u8] = vstd::slice::slice_subrange(all, self.position as usize, all.len());
        assert(r@ =~= self.unread());
        r
    }

    /// Create a `Cursor` from a buffer.
    pub fn new(inner: T) -> (r: Self)
        ensures
            r.inner == inner,
            r.position == 0,
    {
        Self { inner, position: 0 }
    }

    /// Turn a `Cursor` back into its inner buffer, unchanged.
    pub fn into_inner(self) -> (r: T)
        ensures
            r == self.inner,
    {
        self.inner
    }
}

impl<T: Bytes> Read for Cursor<T> {
    open spec fn unread(&self) -> Seq<u8> {
        bytes_from(self.inner.bytes(), self.position as int)
    }

    open spec fn contents(&self) -> Seq<u8> {
        self.inner.bytes()
    }

    open spec fn readable(&self) -> bool {
        self.position <= self.inner.bytes().len()
    }

    open spec fn complete(&self) -> bool {
        true
    }

    fn read(&mut self, buf: &mut [u8]) -> (r: Result<usize, IoError>)
        ensures
            final(self).inner == old(self).inner,
            r matches Ok(n) ==> final(self).position == old(self).position + n,
    {
        let total: usize = self.inner.as_bytes().len();
        let mut rest: &[u8] = self.rest();
        match rest.read(buf) {
            Ok(n) => {
                assert(self.position + n <= total);
                self.position = self.position + n as u64;
                assert(self.unread() =~= old(self).unread().skip(n as int));
                Ok(n)
            },
            Err(e) => Err(e),
        }
    }

    /// Nothing is read where the rest is shorter than the buffer.
    fn read_exact(&mut self, buf: &mut [u8]) -> (r: Result<(), IoError>)
        ensures
            final(self).inner == old(self).inner,
            r is Ok ==> final(self).position == old(self).position + old(buf)@.len(),
            r is Err ==> *final(self) == *old(self) && final(buf)@ == old(buf)@,
    {
        let total: usize = self.inner.as_bytes().len();
        let len: usize = buf.len();
        let mut rest: &[u8] = self.rest();
        match rest.read_exact(buf) {
            Ok(()) => {
                assert(self.position + len <= total);
                self.position = self.position + len as u64;
                assert(self.unread() =~= old(self).unread().skip(len as int));
                Ok(())
            },
            Err(e) => Err(e),
        }
    }
}

impl<T: Bytes> Seek for Cursor<T> {
    open spec fn at(&self) -> int {
        self.position as int
    }

    fn seek(&mut self, from: SeekFrom) -> (r: Result<u64, IoError>)
        ensures
            final(self).inner == old(self).inner,
            r is Err ==> *final(self) == *old(self),
    {
        let len: u64 = self.inner.as_bytes().len() as u64;
        let to: Option<u64> = match from {
            SeekFrom::Start(n) => Some(n),
            SeekFrom::End(n) => len.checked_add_signed(n),
            SeekFrom::Current(n) => self.position.checked_add_signed(n),
        };
        match to {
            Some(n) => {
                self.position = n;
                Ok(n)
            },
            None => Err(IoError),
        }
    }
}

/// After a seek to a place inside the buffer, a read that fits gives the bytes
/// that stand there.
pub proof fn law_seek_then_read(contents: Seq<u8>, pos: int, n: int)
    requires
        0 <= pos,
        0 <= n,
        pos + n <= contents.len(),
    ensures
        bytes_from(contents, pos).take(n) == contents.subrange(pos, pos + n),
        bytes_from(contents, pos).skip(n) == bytes_from(contents, pos + n),
{
    assert(bytes_from(contents, pos).take(n) =~= contents.subrange(pos, pos + n));
    assert(bytes_from(contents, pos).skip(n) =~= bytes_from(contents, pos + n));
}

/// A position is counted from the beginning of a stream, from its end, or from where it
/// stands: moving on by none keeps it, moving to the end by none is its length, and each step
/// is one byte.
pub proof fn law_positions_are_counted(len: int, at: int, n: i64, m: u64)
    ensures
        target(len, at, SeekFrom::Start(m)) == m,
        target(len, at, SeekFrom::Current(0)) == at,
        target(len, at, SeekFrom::End(0)) == len,
        target(len, at, SeekFrom::Current(n)) - at == n,
        target(len, at, SeekFrom::End(n)) - len == n,
{
}

} // verus!
