//! Where bytes come from and where they go.
use crate::model::{Emit, Input, Output};
use vstd::prelude::*;
use vstd::slice::slice_subrange;

verus! {

/// Why a writer refused bytes.
#[derive(Debug, Clone, Copy, PartialEq, Eq)]
pub enum WriteError {
    /// So many bytes were to be written, and there is no room for them.
    WriteSizeLimit(usize),
}

/// Why a reader could not supply bytes.
#[derive(Debug, Clone, Copy, PartialEq, Eq)]
pub enum ReadError {
    /// So many bytes were asked for, and fewer are left.
    ReadSizeLimit(usize),
    /// The reader cannot lend out its bytes.
    UnsupportedBorrow,
}

/// A source of bytes. `'de` is the lifetime of the data behind it.
pub trait Reader<'de> {
    /// What is left to be read.
    spec fn input(&self) -> Input;

    /// Whether [`Reader::take_borrowed`] lends out bytes of the data behind the reader.
    fn supports_borrow(&self) -> (b: bool)
        ensures
            b == self.input().backing,
    ;

    /// Fails unless `n` bytes are left.
    fn expect_available(&self, n: usize) -> (r: Result<(), ReadError>)
        ensures
            r == (if n <= self.input().bytes.len() {
                Ok::<(), ReadError>(())
            } else {
                Err(ReadError::ReadSizeLimit(n))
            }),
    ;

    /// Reads one byte.
    fn take_byte(&mut self) -> (r: Result<u8, ReadError>)
        ensures
            old(self).input().bytes.len() == 0 ==> {
                &&& r == Err::<u8, ReadError>(ReadError::ReadSizeLimit(1))
                &&& final(self).input() == old(self).input()
            },
            old(self).input().bytes.len() > 0 ==> {
                &&& r == Ok::<u8, ReadError>(old(self).input().bytes[0])
                &&& final(self).input() == old(self).input().skip(1)
            },
    ;

    /// Reads `n` bytes into a vector.
    fn take_vec(&mut self, n: usize) -> (r: Result<Vec<u8>, ReadError>)
        ensures
            n > old(self).input().bytes.len() ==> {
                &&& r is Err
                &&& r->Err_0 == ReadError::ReadSizeLimit(n)
                &&& final(self).input() == old(self).input()
            },
            n <= old(self).input().bytes.len() ==> {
                &&& r is Ok
                &&& r->Ok_0@ == old(self).input().bytes.take(n as int)
                &&& final(self).input() == old(self).input().skip(n as int)
            },
    ;

    /// Reads `n` bytes in place.
    fn take_borrowed(&mut self, n: usize) -> (r: Result<&'de [u8], ReadError>)
        ensures
            !old(self).input().backing ==> {
                &&& r is Err
                &&& r->Err_0 == ReadError::UnsupportedBorrow
                &&& final(self).input() == old(self).input()
            },
            old(self).input().backing && n > old(self).input().bytes.len() ==> {
                &&& r is Err
                &&& r->Err_0 == ReadError::ReadSizeLimit(n)
                &&& final(self).input() == old(self).input()
            },
            old(self).input().backing && n <= old(self).input().bytes.len() ==> {
                &&& r is Ok
                &&& r->Ok_0@ == old(self).input().bytes.take(n as int)
                &&& final(self).input() == old(self).input().skip(n as int)
            },
    ;
}

/// A destination of bytes.
pub trait Writer {
    /// What was written, and what there is room for.
    spec fn output(&self) -> Output;

    /// Fails unless there is room for `n` bytes.
    fn expect_room(&self, n: usize) -> (r: Result<(), WriteError>)
        ensures
            r == (if self.output().fits(n as nat) {
                Ok::<(), WriteError>(())
            } else {
                Err(WriteError::WriteSizeLimit(n))
            }),
    ;

    /// Writes `bytes`, or nothing if there is no room for all of them.
    fn write(&mut self, bytes: &[u8]) -> (r: Result<(), WriteError>)
        ensures
            old(self).output().fits(bytes@.len()) ==> {
                &&& r == Ok::<(), WriteError>(())
                &&& final(self).output() == old(self).output().put(bytes@)
            },
            !old(self).output().fits(bytes@.len()) ==> {
                &&& r == Err::<(), WriteError>(WriteError::WriteSizeLimit(bytes@.len() as usize))
                &&& final(self).output() == old(self).output()
            },
    ;
}

/// A slice is read from the front, and shrinks as it is read.
impl<'de> Reader<'de> for &'de [u8] {
    open spec fn input(&self) -> Input {
        Input { bytes: self@, backing: true }
    }

    fn supports_borrow(&self) -> (b: bool) {
        true
    }

    fn expect_available(&self, n: usize) -> (r: Result<(), ReadError>) {
        if n <= self.len() {
            Ok(())
        } else {
            Err(ReadError::ReadSizeLimit(n))
        }
    }

    fn take_byte(&mut self) -> (r: Result<u8, ReadError>) {
        let all: &'de [u8] = *self;
        if all.len() == 0 {
            return Err(ReadError::ReadSizeLimit(1));
        }
        let b: u8 = all[0];
        *self = slice_subrange(all, 1, all.len());
        Ok(b)
    }

    fn take_vec(&mut self, n: usize) -> (r: Result<Vec<u8>, ReadError>) {
        let all: &'de [u8] = *self;
        if n > all.len() {
            return Err(ReadError::ReadSizeLimit(n));
        }
        let mut out: Vec<u8> = Vec::new();
        out.extend_from_slice(slice_subrange(all, 0, n));
        *self = slice_subrange(all, n, all.len());
        assert(out@ =~= all@.take(n as int));
        Ok(out)
    }

    fn take_borrowed(&mut self, n: usize) -> (r: Result<&'de [u8], ReadError>) {
        let all: &'de [u8] = *self;
        if n > all.len() {
            return Err(ReadError::ReadSizeLimit(n));
        }
        *self = slice_subrange(all, n, all.len());
        Ok(slice_subrange(all, 0, n))
    }
}

/// A reader that keeps its bytes to itself: it can be read from, and never lends.
pub struct NoBorrowReader<R> {
    pub inner: R,
}

impl<'de, R: Reader<'de>> Reader<'de> for NoBorrowReader<R> {
    open spec fn input(&self) -> Input {
        Input { bytes: self.inner.input().bytes, backing: false }
    }

    fn supports_borrow(&self) -> (b: bool) {
        false
    }

    fn expect_available(&self, n: usize) -> (r: Result<(), ReadError>) {
        self.inner.expect_available(n)
    }

    fn take_byte(&mut self) -> (r: Result<u8, ReadError>) {
        self.inner.take_byte()
    }

    fn take_vec(&mut self, n: usize) -> (r: Result<Vec<u8>, ReadError>) {
        self.inner.take_vec(n)
    }

    fn take_borrowed(&mut self, n: usize) -> (r: Result<&'de [u8], ReadError>) {
        Err(ReadError::UnsupportedBorrow)
    }
}

/// A reader that gives out at most `left` more bytes, over all reads together.
pub struct LimitReader<R> {
    pub inner: R,
    pub left: usize,
}

impl<'de, R: Reader<'de>> Reader<'de> for LimitReader<R> {
    open spec fn input(&self) -> Input {
        let all = self.inner.input();
        if self.left < all.bytes.len() {
            Input { bytes: all.bytes.take(self.left as int), backing: all.backing }
        } else {
            all
        }
    }

    fn supports_borrow(&self) -> (b: bool) {
        self.inner.supports_borrow()
    }

    fn expect_available(&self, n: usize) -> (r: Result<(), ReadError>) {
        if n > self.left {
            return Err(ReadError::ReadSizeLimit(n));
        }
        self.inner.expect_available(n)
    }

    fn take_byte(&mut self) -> (r: Result<u8, ReadError>) {
        if self.left == 0 {
            return Err(ReadError::ReadSizeLimit(1));
        }
        let r = self.inner.take_byte();
        if r.is_ok() {
            self.left = self.left - 1;
        }
        proof {
            assert(final(self).input().bytes =~= old(self).input().skip(1).bytes || r is Err);
        }
        r
    }

    fn take_vec(&mut self, n: usize) -> (r: Result<Vec<u8>, ReadError>) {
        if n > self.left {
            return Err(ReadError::ReadSizeLimit(n));
        }
        let r = self.inner.take_vec(n);
        if r.is_ok() {
            self.left = self.left - n;
        }
        proof {
            if r is Ok {
                assert(r->Ok_0@ =~= old(self).input().bytes.take(n as int));
            }
            assert(
                final(self).input().bytes =~= old(self).input().skip(n as int).bytes || r is Err
            );
        }
        r
    }

    fn take_borrowed(&mut self, n: usize) -> (r: Result<&'de [u8], ReadError>) {
        if !self.inner.supports_borrow() {
            return Err(ReadError::UnsupportedBorrow);
        }
        if n > self.left {
            return Err(ReadError::ReadSizeLimit(n));
        }
        let r = self.inner.take_borrowed(n);
        if r.is_ok() {
            self.left = self.left - n;
        }
        proof {
            if r is Ok {
                assert(r->Ok_0@ =~= old(self).input().bytes.take(n as int));
            }
            assert(
                final(self).input().bytes =~= old(self).input().skip(n as int).bytes || r is Err
            );
        }
        r
    }
}

/// A vector takes any number of bytes.
impl Writer for Vec<u8> {
    open spec fn output(&self) -> Output {
        Output { bytes: self@, room: None }
    }

    fn expect_room(&self, n: usize) -> (r: Result<(), WriteError>) {
        Ok(())
    }

    fn write(&mut self, bytes: &[u8]) -> (r: Result<(), WriteError>) {
        self.extend_from_slice(bytes);
        proof {
            assert(final(self)@ =~= old(self)@ + bytes@);
        }
        Ok(())
    }
}

/// A buffer that holds at most `limit` bytes.
pub struct FixedBuf {
    pub bytes: Vec<u8>,
    pub limit: usize,
}

impl FixedBuf {
    /// An empty buffer for `limit` bytes.
    pub fn new(limit: usize) -> (b: FixedBuf)
        ensures
            b.output() == (Output { bytes: Seq::empty(), room: Some(limit as nat) }),
    {
        FixedBuf { bytes: Vec::new(), limit }
    }
}

impl Writer for FixedBuf {
    open spec fn output(&self) -> Output {
        Output {
            bytes: self.bytes@,
            room: Some(
                if self.bytes@.len() <= self.limit {
                    (self.limit - self.bytes@.len()) as nat
                } else {
                    0
                },
            ),
        }
    }

    fn expect_room(&self, n: usize) -> (r: Result<(), WriteError>) {
        let room: usize = self.limit.saturating_sub(self.bytes.len());
        if n <= room {
            Ok(())
        } else {
            Err(WriteError::WriteSizeLimit(n))
        }
    }

    fn write(&mut self, bytes: &[u8]) -> (r: Result<(), WriteError>) {
        let room: usize = self.limit.saturating_sub(self.bytes.len());
        if bytes.len() > room {
            return Err(WriteError::WriteSizeLimit(bytes.len()));
        }
        self.bytes.extend_from_slice(bytes);
        proof {
            assert(final(self).bytes@ =~= old(self).bytes@ + bytes@);
        }
        Ok(())
    }
}

/// Writing plain bytes, in the terms in which schemas speak of writing.
pub fn write_bytes<W: Writer>(writer: &mut W, bytes: &[u8]) -> (r: crate::error::WriteResult<()>)
    ensures
        Emit::done(bytes@).wrote(old(writer).output(), final(writer).output(), r),
{
    proof {
        let p = old(writer).output();
        assert(bytes@.take(bytes@.len() as int) =~= bytes@);
        assert(p.put(bytes@.take(0)) =~= p) by {
            assert(p.bytes + bytes@.take(0) =~= p.bytes);
        }
    }
    match writer.write(bytes) {
        Ok(()) => Ok(()),
        Err(e) => Err(crate::error::WriteError::Io(e)),
    }
}

} // verus!
