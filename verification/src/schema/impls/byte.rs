//! Single bytes, on which the other schemas build.
use crate::error::{ReadError, ReadResult, WriteResult};
use crate::io::{write_bytes, Reader, Writer};
use crate::model::{
    lemma_follows_reflexive, lemma_prepend_skip, lemma_skip_follows, Emit, Fault, Input,
};
use vstd::prelude::*;

verus! {

/// Reading one byte.
pub open spec fn byte_dec(inp: Input) -> Result<(u8, Input), Fault> {
    if inp.bytes.len() == 0 {
        Err(inp.fault(ReadError::Io(crate::io::ReadError::ReadSizeLimit(1))))
    } else {
        Ok((inp.bytes[0], inp.skip(1)))
    }
}

pub proof fn lemma_byte_dec(inp: Input)
    ensures
        byte_dec(inp) matches Err(f) ==> f.left.follows(inp),
        byte_dec(inp) matches Ok((b, rest)) ==> rest.follows(inp) && inp.consumed(rest) == 1,
{
    if inp.bytes.len() > 0 {
        lemma_skip_follows(inp, 1);
    } else {
        lemma_follows_reflexive(inp);
    }
}

pub proof fn lemma_byte_round_trip(b: u8, rest: Input)
    ensures
        byte_dec(rest.prepend(seq![b])) == Ok::<_, Fault>((b, rest)),
{
    lemma_prepend_skip(rest, seq![b]);
}

/// Reads one byte.
pub fn read_byte<'de, R: Reader<'de>>(reader: &mut R) -> (r: ReadResult<u8>)
    ensures
        final(reader).input().follows(old(reader).input()),
        match byte_dec(old(reader).input()) {
            Ok((b, rest)) => r == Ok::<u8, ReadError>(b) && final(reader).input() == rest,
            Err(f) => r == Err::<u8, ReadError>(f.err) && final(reader).input() == f.left,
        },
{
    proof {
        lemma_byte_dec(old(reader).input());
    }
    match reader.take_byte() {
        Ok(b) => Ok(b),
        Err(e) => Err(ReadError::Io(e)),
    }
}

/// Writes one byte.
pub fn write_byte<W: Writer>(writer: &mut W, b: u8) -> (r: WriteResult<()>)
    ensures
        Emit::done(seq![b]).wrote(old(writer).output(), final(writer).output(), r),
{
    let mut one: Vec<u8> = Vec::new();
    one.push(b);
    proof {
        assert(one@ =~= seq![b]);
    }
    write_bytes(writer, one.as_slice())
}

} // verus!
