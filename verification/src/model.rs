//! The mathematical picture of input, output and what writing a value does to them.
use crate::error::{ReadError, WriteError, WriteResult};
use vstd::prelude::*;

verus! {

/// What a reader has left to give.
#[verifier::ext_equal]
pub struct Input {
    /// The bytes that can still be read.
    pub bytes: Seq<u8>,
    /// Whether the reader lends out its bytes for as long as the data behind it lives.
    pub backing: bool,
}

/// A read that failed.
#[verifier::ext_equal]
pub struct Fault {
    /// Why it did.
    pub err: ReadError,
    /// What the reader has left to give.
    pub left: Input,
}

impl Input {
    /// A read that failed for the reason `err` and left this input.
    pub open spec fn fault(self, err: ReadError) -> Fault {
        Fault { err, left: self }
    }

    /// What is left after `n` bytes have been read.
    pub open spec fn skip(self, n: int) -> Input {
        Input { bytes: self.bytes.skip(n), backing: self.backing }
    }

    /// The same input with `bytes` in front of it.
    pub open spec fn prepend(self, bytes: Seq<u8>) -> Input {
        Input { bytes: bytes + self.bytes, backing: self.backing }
    }

    /// Whether reading from `before` leads to `self`.
    pub open spec fn follows(self, before: Input) -> bool {
        &&& self.backing == before.backing
        &&& self.bytes.len() <= before.bytes.len()
        &&& self.bytes == before.bytes.skip(before.bytes.len() - self.bytes.len())
    }

    /// The number of bytes that were read on the way from `self` to `rest`.
    pub open spec fn consumed(self, rest: Input) -> int {
        self.bytes.len() - rest.bytes.len()
    }
}

/// What a writer has taken and can still take.
#[verifier::ext_equal]
pub struct Output {
    /// The bytes that were written.
    pub bytes: Seq<u8>,
    /// How many more bytes there is room for, or `None` if there is no bound.
    pub room: Option<nat>,
}

impl Output {
    /// Whether there is room for `n` more bytes.
    pub open spec fn fits(self, n: nat) -> bool {
        self.room matches Some(room) ==> n <= room
    }

    /// The output after `bytes` have been written.
    pub open spec fn put(self, bytes: Seq<u8>) -> Output {
        Output {
            bytes: self.bytes + bytes,
            room: match self.room {
                Some(room) => Some((room - bytes.len()) as nat),
                None => None,
            },
        }
    }
}

/// What writing a value comes to.
#[verifier::ext_equal]
pub struct Emit {
    /// The bytes that are written, up to the point where the value turns out unwritable.
    pub bytes: Seq<u8>,
    /// Why the value is unwritable, or `None` if it can be written.
    pub err: Option<WriteError>,
    /// The room that the whole value asks for.
    pub weight: nat,
}

impl Emit {
    /// A value that is written as `bytes`.
    pub open spec fn done(bytes: Seq<u8>) -> Emit {
        Emit { bytes, err: None, weight: bytes.len() }
    }

    /// A value that cannot be written, and asks for `weight` bytes of room.
    pub open spec fn fail(err: WriteError, weight: nat) -> Emit {
        Emit { bytes: Seq::empty(), err: Some(err), weight }
    }

    /// This value and `next` after it.
    pub open spec fn then_emit(self, next: Emit) -> Emit {
        Emit {
            bytes: if self.err is Some {
                self.bytes
            } else {
                self.bytes + next.bytes
            },
            err: if self.err is Some {
                self.err
            } else {
                next.err
            },
            weight: self.weight + next.weight,
        }
    }

    /// A writable value asks for as much room as it takes up, any other for no less.
    pub open spec fn consistent(self) -> bool {
        &&& self.bytes.len() <= self.weight
        &&& self.err is None ==> self.bytes.len() == self.weight
    }

    /// Whether the value can be written.
    pub open spec fn ok(self) -> bool {
        self.err is None
    }

    /// Whether the value is refused for the memory that a read of it would ask for.
    pub open spec fn over_limit(self) -> bool {
        self.err matches Some(WriteError::PreallocationSizeLimit { .. })
    }

    /// The room without which a write may fail for want of it. Memory is thought of before the
    /// writer is, so that a value that asks for too much needs no room but for what comes before.
    pub open spec fn asked(self) -> nat {
        if self.over_limit() {
            self.bytes.len()
        } else {
            self.weight
        }
    }

    /// What holds of a write of this value that found the output `pre`, left the output `post`
    /// and returned `r`. A writable value for which there is room is written in full. Where there
    /// is no room for the value, part of it may have been written.
    pub open spec fn wrote(self, pre: Output, post: Output, r: WriteResult<()>) -> bool {
        let n = post.bytes.len() - pre.bytes.len();
        &&& 0 <= n <= self.bytes.len()
        &&& pre.fits(n as nat)
        &&& post == pre.put(self.bytes.take(n))
        &&& match r {
            Ok(()) => self.err is None && n == self.bytes.len(),
            Err(e) => {
                ||| self.err == Some(e) && n == self.bytes.len()
                ||| e is Io && !pre.fits(self.asked())
            },
        }
    }
}

/// Reading on from a later input leads to a still later one.
pub broadcast proof fn lemma_follows_transitive(a: Input, b: Input, c: Input)
    requires
        #[trigger] b.follows(a),
        #[trigger] c.follows(b),
    ensures
        c.follows(a),
{
    assert(c.bytes =~= a.bytes.skip(a.bytes.len() - c.bytes.len()));
}

/// Reading nothing leaves the input as it is.
pub broadcast proof fn lemma_follows_reflexive(a: Input)
    ensures
        #[trigger] a.follows(a),
{
    assert(a.bytes =~= a.bytes.skip(0));
}

/// Reading `n` bytes leads to what is left after them.
pub proof fn lemma_skip_follows(a: Input, n: int)
    requires
        0 <= n <= a.bytes.len(),
    ensures
        a.skip(n).follows(a),
        a.consumed(a.skip(n)) == n,
{
    assert(a.bytes.len() - a.skip(n).bytes.len() == n);
}

/// What was put in front comes off first.
pub proof fn lemma_prepend_skip(rest: Input, bytes: Seq<u8>)
    ensures
        rest.prepend(bytes).bytes.take(bytes.len() as int) == bytes,
        rest.prepend(bytes).skip(bytes.len() as int) == rest,
{
    assert(rest.prepend(bytes).bytes.take(bytes.len() as int) =~= bytes);
    assert(rest.prepend(bytes).skip(bytes.len() as int).bytes =~= rest.bytes);
}

/// Putting two pieces in front is putting their concatenation in front.
pub proof fn lemma_prepend_prepend(rest: Input, a: Seq<u8>, b: Seq<u8>)
    ensures
        rest.prepend(b).prepend(a) == rest.prepend(a + b),
{
    assert(rest.prepend(b).prepend(a).bytes =~= rest.prepend(a + b).bytes);
}

/// Values that are consistent stay so when written one after the other.
pub broadcast proof fn lemma_then_consistent(a: Emit, b: Emit)
    requires
        a.consistent(),
        b.consistent(),
    ensures
        #[trigger] a.then_emit(b).consistent(),
{
}

/// Writing two values one after the other, both to the end.
pub proof fn lemma_wrote_then(
    a: Emit,
    b: Emit,
    p0: Output,
    p1: Output,
    p2: Output,
    r: WriteResult<()>,
)
    requires
        a.consistent(),
        a.wrote(p0, p1, Ok(())),
        b.wrote(p1, p2, r),
    ensures
        a.then_emit(b).wrote(p0, p2, r),
{
    let n = p2.bytes.len() - p1.bytes.len();
    let m = p2.bytes.len() - p0.bytes.len();
    assert(a.bytes.take(a.bytes.len() as int) =~= a.bytes);
    assert(a.bytes + b.bytes.take(n) =~= (a.bytes + b.bytes).take(m));
    assert(p2.bytes =~= p0.put((a.bytes + b.bytes).take(m)).bytes);
    assert(p2 =~= p0.put(a.then_emit(b).bytes.take(m)));
}

/// Writing stops at the first value of two.
pub proof fn lemma_wrote_first(a: Emit, b: Emit, p0: Output, p1: Output, e: WriteError)
    requires
        a.consistent(),
        a.wrote(p0, p1, Err(e)),
    ensures
        a.then_emit(b).wrote(p0, p1, Err(e)),
{
    let n = p1.bytes.len() - p0.bytes.len();
    assert(a.bytes.take(n) =~= a.then_emit(b).bytes.take(n));
}

/// Nothing was written, for want of room.
pub proof fn lemma_wrote_nothing(a: Emit, p0: Output, e: WriteError)
    requires
        e is Io,
        !p0.fits(a.asked()),
    ensures
        a.wrote(p0, p0, Err(e)),
{
    assert(p0.put(a.bytes.take(0)) =~= p0) by {
        assert(p0.bytes + a.bytes.take(0) =~= p0.bytes);
    }
}

/// The value is unwritable from the start.
pub proof fn lemma_wrote_fail(e: WriteError, weight: nat, p0: Output)
    ensures
        Emit::fail(e, weight).wrote(p0, p0, Err(e)),
{
    let a = Emit::fail(e, weight);
    assert(p0.put(a.bytes.take(0)) =~= p0) by {
        assert(p0.bytes + a.bytes.take(0) =~= p0.bytes);
    }
}

/// Nothing was to be written.
pub proof fn lemma_wrote_empty(p0: Output)
    ensures
        Emit::done(Seq::empty()).wrote(p0, p0, Ok(())),
{
    let a = Emit::done(Seq::<u8>::empty());
    assert(p0.put(a.bytes.take(0)) =~= p0) by {
        assert(p0.bytes + a.bytes.take(0) =~= p0.bytes);
    }
}

/// Writing one after the other groups either way.
pub proof fn lemma_then_associative(a: Emit, b: Emit, c: Emit)
    ensures
        a.then_emit(b).then_emit(c) == a.then_emit(b.then_emit(c)),
{
    assert(a.then_emit(b).then_emit(c).bytes =~= a.then_emit(b.then_emit(c)).bytes);
}

/// Writing nothing first changes nothing.
pub proof fn lemma_then_empty_left(a: Emit)
    ensures
        Emit::done(Seq::empty()).then_emit(a) == a,
{
    assert(Emit::done(Seq::empty()).then_emit(a).bytes =~= a.bytes);
}

} // verus!
