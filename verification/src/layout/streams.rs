//! What readers give, what writers take, and what is set by a configuration.
use crate::config::serde::{input_of, limited};
use crate::config::{limit_of, ConfigCore, Configuration, DefaultConfig};
use crate::error::{ReadError, WriteError, WriteResult};
use crate::io::{FixedBuf, LimitReader, NoBorrowReader, Reader, Writer};
use crate::model::{Emit, Input, Output};
use crate::schema::int_encoding::{ByteOrder, IntEncoding};
use vstd::prelude::*;

verus! {

/// A slice gives its bytes in order and lends them out, a reader that does not lend gives the same
/// bytes as the one in it, and one with a limit gives no more than that many of them.
pub proof fn law_readers<'de, R: Reader<'de>>(
    s: &'de [u8],
    kept: NoBorrowReader<R>,
    bounded: LimitReader<R>,
)
    ensures
        <&'de [u8] as Reader<'de>>::input(&s).bytes == s@,
        <&'de [u8] as Reader<'de>>::input(&s).backing,
        kept.input().bytes == kept.inner.input().bytes,
        !kept.input().backing,
        bounded.left >= bounded.inner.input().bytes.len() ==> bounded.input().bytes
            == bounded.inner.input().bytes,
        bounded.left < bounded.inner.input().bytes.len() ==> bounded.input().bytes.len()
            == bounded.left && bounded.input().bytes.is_prefix_of(bounded.inner.input().bytes),
        bounded.input().backing == bounded.inner.input().backing,
{
}

/// A vector has room for anything, and a buffer of a fixed size for what is left of it.
pub proof fn law_writers(v: Vec<u8>, b: FixedBuf)
    ensures
        v.output().bytes == v@,
        v.output().room is None,
        b.output().bytes == b.bytes@,
        b.bytes@.len() <= b.limit ==> b.output().room == Some((b.limit - b.bytes@.len()) as nat),
        b.bytes@.len() > b.limit ==> b.output().room == Some(0nat),
{
}

/// Reading takes bytes from the front, and nothing else changes.
pub proof fn law_reading_takes_from_the_front(inp: Input, bytes: Seq<u8>, n: int, err: ReadError)
    ensures
        inp.prepend(bytes).bytes == bytes + inp.bytes,
        inp.prepend(bytes).backing == inp.backing,
        0 <= n <= inp.bytes.len() ==> {
            &&& inp.bytes.take(n) + inp.skip(n).bytes == inp.bytes
            &&& inp.skip(n).bytes.len() == inp.bytes.len() - n
            &&& inp.skip(n).backing == inp.backing
            &&& inp.consumed(inp.skip(n)) == n
            &&& inp.skip(n).follows(inp)
        },
        inp.fault(err).err == err,
        inp.fault(err).left == inp,
{
    if 0 <= n <= inp.bytes.len() {
        assert(inp.bytes.take(n) + inp.skip(n).bytes =~= inp.bytes);
    }
}

/// Only what is left when bytes have been taken from the front follows an input.
pub proof fn law_what_follows_is_the_end(before: Input, after: Input)
    ensures
        after.follows(before) <==> after.backing == before.backing && exists|taken: Seq<u8>|
            #[trigger] (taken + after.bytes) == before.bytes,
        after.follows(before) ==> before.consumed(after) == before.bytes.len() - after.bytes.len(),
{
    if after.follows(before) {
        let n = before.bytes.len() - after.bytes.len();
        assert(before.bytes.take(n) + after.bytes =~= before.bytes);
    }
    if after.backing == before.backing && exists|taken: Seq<u8>|
        #[trigger] (taken + after.bytes) == before.bytes {
        let taken = choose|taken: Seq<u8>| #[trigger] (taken + after.bytes) == before.bytes;
        assert(after.bytes =~= before.bytes.skip(before.bytes.len() - after.bytes.len()));
    }
}

/// Writing puts bytes behind those that are there, and takes up as much room.
pub proof fn law_writing_puts_behind(out: Output, bytes: Seq<u8>, n: nat)
    ensures
        out.put(bytes).bytes == out.bytes + bytes,
        out.room is None ==> out.put(bytes).room is None && out.fits(n),
        out.room matches Some(room) ==> {
            &&& out.fits(n) == (n <= room)
            &&& bytes.len() <= room ==> out.put(bytes).room == Some((room - bytes.len()) as nat)
        },
{
}

/// A write that succeeds has put the bytes of the value behind those that were there, and the value
/// could be written. A write that fails has put no more than the beginning of them there, and
/// failed either for what is wrong with the value or for want of room.
pub proof fn law_written(e: Emit, pre: Output, post: Output, r: WriteResult<()>)
    requires
        e.consistent(),
        e.wrote(pre, post, r),
    ensures
        r is Ok ==> e.err is None && post.bytes == pre.bytes + e.bytes,
        post.bytes.take(pre.bytes.len() as int) == pre.bytes,
        post.bytes.skip(pre.bytes.len() as int).is_prefix_of(e.bytes),
        pre.room is None <==> post.room is None,
        pre.room matches Some(room) ==> post.room == Some(
            (room - (post.bytes.len() - pre.bytes.len())) as nat,
        ) && post.bytes.len() - pre.bytes.len() <= room,
        r matches Err(err) ==> (e.err == Some(err) && post.bytes == pre.bytes + e.bytes) || (
        err is Io && pre.room is Some && (pre.room->Some_0 < e.weight)),
        e.err is None && pre.room is None ==> r is Ok,
        e.err is None && (pre.room matches Some(room) ==> e.weight <= room) ==> r is Ok,
        pre.room is None ==> (e.err matches Some(err) ==> r == Err::<(), WriteError>(err)),
        (e.err matches Some(WriteError::PreallocationSizeLimit { .. })) && e.bytes.len() == 0
            ==> r is Err && r->Err_0 == e.err->Some_0,
{
    let n = post.bytes.len() - pre.bytes.len();
    assert(e.bytes.take(e.bytes.len() as int) =~= e.bytes);
    assert(post.bytes.take(pre.bytes.len() as int) =~= pre.bytes);
    assert(post.bytes.skip(pre.bytes.len() as int) =~= e.bytes.take(n));
}

/// A limit of `usize::MAX` or above is none.
pub proof fn law_limits(limit: u64)
    ensures
        limit >= usize::MAX ==> limit_of(limit) is None,
        limit < usize::MAX ==> limit_of(limit) == Some(limit as usize),
{
}

/// What a configuration says is what it was made of.
pub proof fn law_settings<
    const ZERO_COPY_ALIGN_CHECK: bool,
    const PREALLOCATION_SIZE_LIMIT: u64,
    const DESERIALIZATION_SIZE_LIMIT: u64,
    L: 'static,
    B: ByteOrder + 'static,
    I: IntEncoding<B> + 'static,
    T: 'static,
>(
    c: Configuration<
        ZERO_COPY_ALIGN_CHECK,
        PREALLOCATION_SIZE_LIMIT,
        L,
        B,
        I,
        T,
        DESERIALIZATION_SIZE_LIMIT,
    >,
)
    ensures
        <Configuration<
            ZERO_COPY_ALIGN_CHECK,
            PREALLOCATION_SIZE_LIMIT,
            L,
            B,
            I,
            T,
            DESERIALIZATION_SIZE_LIMIT,
        > as ConfigCore>::align_check() == ZERO_COPY_ALIGN_CHECK,
        <Configuration<
            ZERO_COPY_ALIGN_CHECK,
            PREALLOCATION_SIZE_LIMIT,
            L,
            B,
            I,
            T,
            DESERIALIZATION_SIZE_LIMIT,
        > as ConfigCore>::prealloc_limit() == (if PREALLOCATION_SIZE_LIMIT >= usize::MAX {
            None
        } else {
            Some(PREALLOCATION_SIZE_LIMIT as usize)
        }),
        <Configuration<
            ZERO_COPY_ALIGN_CHECK,
            PREALLOCATION_SIZE_LIMIT,
            L,
            B,
            I,
            T,
            DESERIALIZATION_SIZE_LIMIT,
        > as ConfigCore>::deserialization_limit() == (if DESERIALIZATION_SIZE_LIMIT >= usize::MAX {
            None
        } else {
            Some(DESERIALIZATION_SIZE_LIMIT as usize)
        }),
        c.settings().align_check == ZERO_COPY_ALIGN_CHECK,
        c.settings().prealloc_limit == limit_of(PREALLOCATION_SIZE_LIMIT),
        c.settings().deserialization_limit == limit_of(DESERIALIZATION_SIZE_LIMIT),
{
}

/// By default references are checked to be aligned, four mebibytes of memory may be asked for, and
/// any number of bytes may be read.
pub proof fn law_default_settings(c: DefaultConfig)
    ensures
        <DefaultConfig as ConfigCore>::align_check(),
        <DefaultConfig as ConfigCore>::prealloc_limit() == Some(0x40_0000usize),
        <DefaultConfig as ConfigCore>::deserialization_limit() is None,
        c.settings().align_check,
        c.settings().prealloc_limit == Some(0x40_0000usize),
        c.settings().deserialization_limit is None,
{
}

/// What can be written asks for as much room as it takes up, and nothing takes up more than it asks
/// for.
pub proof fn law_room(e: Emit)
    ensures
        e.consistent() <==> e.bytes.len() <= e.weight && (e.err is None ==> e.bytes.len()
            == e.weight),
        e.ok() <==> e.err is None,
{
}

/// Under a limit no more than so many bytes are there to be read, and otherwise all of them.
pub proof fn law_limited_input<C: ConfigCore>(limit: usize, inp: Input, bytes: Seq<u8>)
    ensures
        limited(None, inp) == inp,
        limited(Some(limit), inp).backing == inp.backing,
        inp.bytes.len() <= limit ==> limited(Some(limit), inp).bytes == inp.bytes,
        inp.bytes.len() > limit ==> {
            &&& limited(Some(limit), inp).bytes.len() == limit
            &&& limited(Some(limit), inp).bytes.is_prefix_of(inp.bytes)
        },
        input_of::<C>(bytes).backing,
        C::deserialization_limit() is None ==> input_of::<C>(bytes).bytes == bytes,
        C::deserialization_limit() matches Some(n) ==> {
            &&& bytes.len() <= n ==> input_of::<C>(bytes).bytes == bytes
            &&& bytes.len() > n ==> input_of::<C>(bytes).bytes == bytes.take(n as int)
        },
{
}

} // verus!
