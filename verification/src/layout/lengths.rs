//! What the bytes of lengths and tags are, and how much memory a length may ask for.
use crate::config::ConfigCore;
use crate::error::{ReadError, WriteError};
use crate::len::{
    len_dec_checked, len_emit_checked, lemma_width_dec, prealloc_ok, prealloc_read_error,
    prealloc_write_error, FixIntLen, SeqLen, UseIntLen,
};
use crate::model::{Fault, Input};
use crate::schema::int_encoding::{FixInt, IntEncoding, IntWidth};
use crate::schema::tag_encoding::TagEncoding;
use crate::schema::{SchemaRead, SchemaWrite};
use vstd::layout;
use vstd::prelude::*;

verus! {

/// A length or a tag as `u8` is laid out as that number, if `u8` holds it, and is an error
/// otherwise.
pub proof fn law_u8_as_a_length<'de, C: ConfigCore>(len: nat, inp: Input)
    ensures
        len <= 0xff
            ==> <UseIntLen<u8> as SeqLen<C>>::len_emit(len).err is None && <UseIntLen<u8> as SeqLen<
            C,
        >>::len_emit(len).bytes == <u8 as SchemaWrite<C>>::emit(&(len as u8)).bytes,
        len > 0xff ==> <UseIntLen<u8> as SeqLen<C>>::len_emit(len).err == Some(
            WriteError::LengthEncodingOverflow("u8::MAX"),
        ) && <UseIntLen<u8> as SeqLen<C>>::len_emit(len).bytes.len() == 0,
        <UseIntLen<u8> as SeqLen<C>>::len_dec(inp) == match <u8 as SchemaRead<'de, C>>::dec(inp) {
            Ok((v, rest)) => if v <= usize::MAX {
                Ok::<(nat, Input), Fault>((v as nat, rest))
            } else {
                Err((Fault { err: ReadError::PointerSizedReadError, left: rest }))
            },
            Err(f) => Err(f),
        },
        len <= 0xff ==> <u8 as SeqLen<C>>::len_emit(len).err is None && <u8 as SeqLen<
            C,
        >>::len_emit(len).bytes == <u8 as SchemaWrite<C>>::emit(&(len as u8)).bytes,
        len > 0xff ==> <u8 as SeqLen<C>>::len_emit(len).err == Some(
            WriteError::LengthEncodingOverflow("u8::MAX"),
        ) && <u8 as SeqLen<C>>::len_emit(len).bytes.len() == 0,
        <u8 as SeqLen<C>>::len_dec(inp) == match <u8 as SchemaRead<'de, C>>::dec(inp) {
            Ok((v, rest)) => if v <= usize::MAX {
                Ok::<(nat, Input), Fault>((v as nat, rest))
            } else {
                Err((Fault { err: ReadError::PointerSizedReadError, left: rest }))
            },
            Err(f) => Err(f),
        },
        len <= 0xff
            ==> <FixIntLen<u8> as SeqLen<C>>::len_emit(len).err is None && <FixIntLen<u8> as SeqLen<
            C,
        >>::len_emit(len).bytes == seq![len as u8],
        <FixIntLen<u8> as SeqLen<C>>::len_dec(inp) == match <u8 as SchemaRead<'de, C>>::dec(inp) {
            Ok((v, rest)) => Ok::<(nat, Input), Fault>((v as nat, rest)),
            Err(f) => Err(f),
        },
        len > 0xff ==> <FixIntLen<u8> as SeqLen<C>>::len_emit(len).err == Some(
            WriteError::LengthEncodingOverflow("u8::MAX"),
        ) && <FixIntLen<u8> as SeqLen<C>>::len_emit(len).bytes.len() == 0,
        len <= 0xff && len <= u32::MAX ==> <u8 as TagEncoding<C>>::tag_emit(len as u32).err is None
            && <u8 as TagEncoding<C>>::tag_emit(len as u32).bytes == <u8 as SchemaWrite<C>>::emit(
            &(len as u8),
        ).bytes,
        0xff < len <= u32::MAX ==> <u8 as TagEncoding<C>>::tag_emit(len as u32).err == Some(
            WriteError::TagEncodingOverflow("u8::MAX"),
        ) && <u8 as TagEncoding<C>>::tag_emit(len as u32).bytes.len() == 0,
        <u8 as TagEncoding<C>>::tag_dec(inp) == match <u8 as SchemaRead<'de, C>>::dec(inp) {
            Ok((v, rest)) => if v <= u32::MAX {
                Ok::<(u32, Input), Fault>((v as u32, rest))
            } else {
                Err((Fault { err: ReadError::TagEncodingOverflow("u32::MAX"), left: rest }))
            },
            Err(f) => Err(f),
        },
        <u8 as TagEncoding<C>>::tag_meta() == <u8 as SchemaWrite<C>>::write_meta(),
{
    lemma_width_dec::<C::IntEncoding, C>(None, inp);
}

/// A length or a tag as `u16` is laid out as that number, if `u16` holds it, and is an error
/// otherwise.
pub proof fn law_u16_as_a_length<'de, C: ConfigCore>(len: nat, inp: Input)
    ensures
        len <= 0xffff
            ==> <UseIntLen<u16> as SeqLen<C>>::len_emit(len).err is None
                && <UseIntLen<u16> as SeqLen<
            C,
        >>::len_emit(len).bytes == <u16 as SchemaWrite<C>>::emit(&(len as u16)).bytes,
        len > 0xffff ==> <UseIntLen<u16> as SeqLen<C>>::len_emit(len).err == Some(
            WriteError::LengthEncodingOverflow("u16::MAX"),
        ) && <UseIntLen<u16> as SeqLen<C>>::len_emit(len).bytes.len() == 0,
        <UseIntLen<u16> as SeqLen<C>>::len_dec(inp) == match <u16 as SchemaRead<'de, C>>::dec(inp) {
            Ok((v, rest)) => if v <= usize::MAX {
                Ok::<(nat, Input), Fault>((v as nat, rest))
            } else {
                Err((Fault { err: ReadError::PointerSizedReadError, left: rest }))
            },
            Err(f) => Err(f),
        },
        len <= 0xffff ==> <u16 as SeqLen<C>>::len_emit(len).err is None && <u16 as SeqLen<
            C,
        >>::len_emit(len).bytes == <u16 as SchemaWrite<C>>::emit(&(len as u16)).bytes,
        len > 0xffff ==> <u16 as SeqLen<C>>::len_emit(len).err == Some(
            WriteError::LengthEncodingOverflow("u16::MAX"),
        ) && <u16 as SeqLen<C>>::len_emit(len).bytes.len() == 0,
        <u16 as SeqLen<C>>::len_dec(inp) == match <u16 as SchemaRead<'de, C>>::dec(inp) {
            Ok((v, rest)) => if v <= usize::MAX {
                Ok::<(nat, Input), Fault>((v as nat, rest))
            } else {
                Err((Fault { err: ReadError::PointerSizedReadError, left: rest }))
            },
            Err(f) => Err(f),
        },
        len <= 0xffff
            ==> <FixIntLen<u16> as SeqLen<C>>::len_emit(len).err is None
                && <FixIntLen<u16> as SeqLen<
            C,
        >>::len_emit(len).bytes == <FixInt as IntEncoding<C::ByteOrder>>::uint_bytes(
            IntWidth::W16,
            len,
        ),
        <FixIntLen<u16> as SeqLen<C>>::len_dec(inp)
            == match <FixInt as IntEncoding<C::ByteOrder>>::uint_dec(
            IntWidth::W16,
            inp,
        ) {
            Ok((v, rest)) => if v <= usize::MAX {
                Ok::<(nat, Input), Fault>((v, rest))
            } else {
                Err((Fault { err: ReadError::PointerSizedReadError, left: rest }))
            },
            Err(f) => Err(f),
        },
        len > 0xffff ==> <FixIntLen<u16> as SeqLen<C>>::len_emit(len).err == Some(
            WriteError::LengthEncodingOverflow("u16::MAX"),
        ) && <FixIntLen<u16> as SeqLen<C>>::len_emit(len).bytes.len() == 0,
        len <= 0xffff && len <= u32::MAX
            ==> <u16 as TagEncoding<C>>::tag_emit(len as u32).err is None
            && <u16 as TagEncoding<C>>::tag_emit(len as u32).bytes == <u16 as SchemaWrite<C>>::emit(
            &(len as u16),
        ).bytes,
        0xffff < len <= u32::MAX ==> <u16 as TagEncoding<C>>::tag_emit(len as u32).err == Some(
            WriteError::TagEncodingOverflow("u16::MAX"),
        ) && <u16 as TagEncoding<C>>::tag_emit(len as u32).bytes.len() == 0,
        <u16 as TagEncoding<C>>::tag_dec(inp) == match <u16 as SchemaRead<'de, C>>::dec(inp) {
            Ok((v, rest)) => if v <= u32::MAX {
                Ok::<(u32, Input), Fault>((v as u32, rest))
            } else {
                Err((Fault { err: ReadError::TagEncodingOverflow("u32::MAX"), left: rest }))
            },
            Err(f) => Err(f),
        },
        <u16 as TagEncoding<C>>::tag_meta() == <u16 as SchemaWrite<C>>::write_meta(),
{
    lemma_width_dec::<C::IntEncoding, C>(Some(IntWidth::W16), inp);
    C::IntEncoding::lemma_uint_dec(IntWidth::W16, inp);
}

/// A length or a tag as `u32` is laid out as that number, if `u32` holds it, and is an error
/// otherwise.
pub proof fn law_u32_as_a_length<'de, C: ConfigCore>(len: nat, inp: Input)
    ensures
        len <= 0xffff_ffff
            ==> <UseIntLen<u32> as SeqLen<C>>::len_emit(len).err is None
                && <UseIntLen<u32> as SeqLen<
            C,
        >>::len_emit(len).bytes == <u32 as SchemaWrite<C>>::emit(&(len as u32)).bytes,
        len > 0xffff_ffff ==> <UseIntLen<u32> as SeqLen<C>>::len_emit(len).err == Some(
            WriteError::LengthEncodingOverflow("u32::MAX"),
        ) && <UseIntLen<u32> as SeqLen<C>>::len_emit(len).bytes.len() == 0,
        <UseIntLen<u32> as SeqLen<C>>::len_dec(inp) == match <u32 as SchemaRead<'de, C>>::dec(inp) {
            Ok((v, rest)) => if v <= usize::MAX {
                Ok::<(nat, Input), Fault>((v as nat, rest))
            } else {
                Err((Fault { err: ReadError::PointerSizedReadError, left: rest }))
            },
            Err(f) => Err(f),
        },
        len <= 0xffff_ffff ==> <u32 as SeqLen<C>>::len_emit(len).err is None && <u32 as SeqLen<
            C,
        >>::len_emit(len).bytes == <u32 as SchemaWrite<C>>::emit(&(len as u32)).bytes,
        len > 0xffff_ffff ==> <u32 as SeqLen<C>>::len_emit(len).err == Some(
            WriteError::LengthEncodingOverflow("u32::MAX"),
        ) && <u32 as SeqLen<C>>::len_emit(len).bytes.len() == 0,
        <u32 as SeqLen<C>>::len_dec(inp) == match <u32 as SchemaRead<'de, C>>::dec(inp) {
            Ok((v, rest)) => if v <= usize::MAX {
                Ok::<(nat, Input), Fault>((v as nat, rest))
            } else {
                Err((Fault { err: ReadError::PointerSizedReadError, left: rest }))
            },
            Err(f) => Err(f),
        },
        len <= 0xffff_ffff
            ==> <FixIntLen<u32> as SeqLen<C>>::len_emit(len).err is None
                && <FixIntLen<u32> as SeqLen<
            C,
        >>::len_emit(len).bytes == <FixInt as IntEncoding<C::ByteOrder>>::uint_bytes(
            IntWidth::W32,
            len,
        ),
        <FixIntLen<u32> as SeqLen<C>>::len_dec(inp)
            == match <FixInt as IntEncoding<C::ByteOrder>>::uint_dec(
            IntWidth::W32,
            inp,
        ) {
            Ok((v, rest)) => if v <= usize::MAX {
                Ok::<(nat, Input), Fault>((v, rest))
            } else {
                Err((Fault { err: ReadError::PointerSizedReadError, left: rest }))
            },
            Err(f) => Err(f),
        },
        len > 0xffff_ffff ==> <FixIntLen<u32> as SeqLen<C>>::len_emit(len).err == Some(
            WriteError::LengthEncodingOverflow("u32::MAX"),
        ) && <FixIntLen<u32> as SeqLen<C>>::len_emit(len).bytes.len() == 0,
        len <= 0xffff_ffff && len <= u32::MAX
            ==> <u32 as TagEncoding<C>>::tag_emit(len as u32).err is None
            && <u32 as TagEncoding<C>>::tag_emit(len as u32).bytes == <u32 as SchemaWrite<C>>::emit(
            &(len as u32),
        ).bytes,
        0xffff_ffff < len <= u32::MAX ==> <u32 as TagEncoding<C>>::tag_emit(len as u32).err == Some(
            WriteError::TagEncodingOverflow("u32::MAX"),
        ) && <u32 as TagEncoding<C>>::tag_emit(len as u32).bytes.len() == 0,
        <u32 as TagEncoding<C>>::tag_dec(inp) == match <u32 as SchemaRead<'de, C>>::dec(inp) {
            Ok((v, rest)) => if v <= u32::MAX {
                Ok::<(u32, Input), Fault>((v as u32, rest))
            } else {
                Err((Fault { err: ReadError::TagEncodingOverflow("u32::MAX"), left: rest }))
            },
            Err(f) => Err(f),
        },
        <u32 as TagEncoding<C>>::tag_meta() == <u32 as SchemaWrite<C>>::write_meta(),
{
    lemma_width_dec::<C::IntEncoding, C>(Some(IntWidth::W32), inp);
    C::IntEncoding::lemma_uint_dec(IntWidth::W32, inp);
}

/// A length or a tag as `u64` is laid out as that number, if `u64` holds it, and is an error
/// otherwise.
pub proof fn law_u64_as_a_length<'de, C: ConfigCore>(len: nat, inp: Input)
    ensures
        len <= 0xffff_ffff_ffff_ffff
            ==> <UseIntLen<u64> as SeqLen<C>>::len_emit(len).err is None
                && <UseIntLen<u64> as SeqLen<
            C,
        >>::len_emit(len).bytes == <u64 as SchemaWrite<C>>::emit(&(len as u64)).bytes,
        len > 0xffff_ffff_ffff_ffff ==> <UseIntLen<u64> as SeqLen<C>>::len_emit(len).err == Some(
            WriteError::LengthEncodingOverflow("u64::MAX"),
        ) && <UseIntLen<u64> as SeqLen<C>>::len_emit(len).bytes.len() == 0,
        <UseIntLen<u64> as SeqLen<C>>::len_dec(inp) == match <u64 as SchemaRead<'de, C>>::dec(inp) {
            Ok((v, rest)) => if v <= usize::MAX {
                Ok::<(nat, Input), Fault>((v as nat, rest))
            } else {
                Err((Fault { err: ReadError::PointerSizedReadError, left: rest }))
            },
            Err(f) => Err(f),
        },
        len <= 0xffff_ffff_ffff_ffff
            ==> <u64 as SeqLen<C>>::len_emit(len).err is None && <u64 as SeqLen<
            C,
        >>::len_emit(len).bytes == <u64 as SchemaWrite<C>>::emit(&(len as u64)).bytes,
        len > 0xffff_ffff_ffff_ffff ==> <u64 as SeqLen<C>>::len_emit(len).err == Some(
            WriteError::LengthEncodingOverflow("u64::MAX"),
        ) && <u64 as SeqLen<C>>::len_emit(len).bytes.len() == 0,
        <u64 as SeqLen<C>>::len_dec(inp) == match <u64 as SchemaRead<'de, C>>::dec(inp) {
            Ok((v, rest)) => if v <= usize::MAX {
                Ok::<(nat, Input), Fault>((v as nat, rest))
            } else {
                Err((Fault { err: ReadError::PointerSizedReadError, left: rest }))
            },
            Err(f) => Err(f),
        },
        len <= 0xffff_ffff_ffff_ffff
            ==> <FixIntLen<u64> as SeqLen<C>>::len_emit(len).err is None
                && <FixIntLen<u64> as SeqLen<
            C,
        >>::len_emit(len).bytes == <FixInt as IntEncoding<C::ByteOrder>>::uint_bytes(
            IntWidth::W64,
            len,
        ),
        <FixIntLen<u64> as SeqLen<C>>::len_dec(inp)
            == match <FixInt as IntEncoding<C::ByteOrder>>::uint_dec(
            IntWidth::W64,
            inp,
        ) {
            Ok((v, rest)) => if v <= usize::MAX {
                Ok::<(nat, Input), Fault>((v, rest))
            } else {
                Err((Fault { err: ReadError::PointerSizedReadError, left: rest }))
            },
            Err(f) => Err(f),
        },
        len > 0xffff_ffff_ffff_ffff ==> <FixIntLen<u64> as SeqLen<C>>::len_emit(len).err == Some(
            WriteError::LengthEncodingOverflow("u64::MAX"),
        ) && <FixIntLen<u64> as SeqLen<C>>::len_emit(len).bytes.len() == 0,
        len <= 0xffff_ffff_ffff_ffff && len <= u32::MAX
            ==> <u64 as TagEncoding<C>>::tag_emit(len as u32).err is None
            && <u64 as TagEncoding<C>>::tag_emit(len as u32).bytes == <u64 as SchemaWrite<C>>::emit(
            &(len as u64),
        ).bytes,
        0xffff_ffff_ffff_ffff < len <= u32::MAX
            ==> <u64 as TagEncoding<C>>::tag_emit(len as u32).err == Some(
            WriteError::TagEncodingOverflow("u64::MAX"),
        ) && <u64 as TagEncoding<C>>::tag_emit(len as u32).bytes.len() == 0,
        <u64 as TagEncoding<C>>::tag_dec(inp) == match <u64 as SchemaRead<'de, C>>::dec(inp) {
            Ok((v, rest)) => if v <= u32::MAX {
                Ok::<(u32, Input), Fault>((v as u32, rest))
            } else {
                Err((Fault { err: ReadError::TagEncodingOverflow("u32::MAX"), left: rest }))
            },
            Err(f) => Err(f),
        },
        <u64 as TagEncoding<C>>::tag_meta() == <u64 as SchemaWrite<C>>::write_meta(),
{
    lemma_width_dec::<C::IntEncoding, C>(Some(IntWidth::W64), inp);
    C::IntEncoding::lemma_uint_dec(IntWidth::W64, inp);
}

/// A length or a tag as `u128` is laid out as that number, if `u128` holds it, and is an error
/// otherwise.
pub proof fn law_u128_as_a_length<'de, C: ConfigCore>(len: nat, inp: Input)
    ensures
        len <= 0xffff_ffff_ffff_ffff_ffff_ffff_ffff_ffff
            ==> <UseIntLen<u128> as SeqLen<C>>::len_emit(len).err is None
                && <UseIntLen<u128> as SeqLen<
            C,
        >>::len_emit(len).bytes == <u128 as SchemaWrite<C>>::emit(&(len as u128)).bytes,
        len > 0xffff_ffff_ffff_ffff_ffff_ffff_ffff_ffff
            ==> <UseIntLen<u128> as SeqLen<C>>::len_emit(len).err == Some(
            WriteError::LengthEncodingOverflow("u128::MAX"),
        ) && <UseIntLen<u128> as SeqLen<C>>::len_emit(len).bytes.len() == 0,
        <UseIntLen<u128> as SeqLen<C>>::len_dec(inp)
            == match <u128 as SchemaRead<'de, C>>::dec(inp) {
            Ok((v, rest)) => if v <= usize::MAX {
                Ok::<(nat, Input), Fault>((v as nat, rest))
            } else {
                Err((Fault { err: ReadError::PointerSizedReadError, left: rest }))
            },
            Err(f) => Err(f),
        },
        len <= 0xffff_ffff_ffff_ffff_ffff_ffff_ffff_ffff
            ==> <u128 as SeqLen<C>>::len_emit(len).err is None && <u128 as SeqLen<
            C,
        >>::len_emit(len).bytes == <u128 as SchemaWrite<C>>::emit(&(len as u128)).bytes,
        len > 0xffff_ffff_ffff_ffff_ffff_ffff_ffff_ffff
            ==> <u128 as SeqLen<C>>::len_emit(len).err == Some(
            WriteError::LengthEncodingOverflow("u128::MAX"),
        ) && <u128 as SeqLen<C>>::len_emit(len).bytes.len() == 0,
        <u128 as SeqLen<C>>::len_dec(inp) == match <u128 as SchemaRead<'de, C>>::dec(inp) {
            Ok((v, rest)) => if v <= usize::MAX {
                Ok::<(nat, Input), Fault>((v as nat, rest))
            } else {
                Err((Fault { err: ReadError::PointerSizedReadError, left: rest }))
            },
            Err(f) => Err(f),
        },
        len <= 0xffff_ffff_ffff_ffff_ffff_ffff_ffff_ffff
            ==> <FixIntLen<u128> as SeqLen<C>>::len_emit(len).err is None
                && <FixIntLen<u128> as SeqLen<
            C,
        >>::len_emit(len).bytes == <FixInt as IntEncoding<C::ByteOrder>>::uint_bytes(
            IntWidth::W128,
            len,
        ),
        <FixIntLen<u128> as SeqLen<C>>::len_dec(inp)
            == match <FixInt as IntEncoding<C::ByteOrder>>::uint_dec(
            IntWidth::W128,
            inp,
        ) {
            Ok((v, rest)) => if v <= usize::MAX {
                Ok::<(nat, Input), Fault>((v, rest))
            } else {
                Err((Fault { err: ReadError::PointerSizedReadError, left: rest }))
            },
            Err(f) => Err(f),
        },
        len > 0xffff_ffff_ffff_ffff_ffff_ffff_ffff_ffff
            ==> <FixIntLen<u128> as SeqLen<C>>::len_emit(len).err == Some(
            WriteError::LengthEncodingOverflow("u128::MAX"),
        ) && <FixIntLen<u128> as SeqLen<C>>::len_emit(len).bytes.len() == 0,
        len <= 0xffff_ffff_ffff_ffff_ffff_ffff_ffff_ffff && len <= u32::MAX
            ==> <u128 as TagEncoding<C>>::tag_emit(len as u32).err is None
            && <u128 as TagEncoding<C>>::tag_emit(len as u32).bytes
                == <u128 as SchemaWrite<C>>::emit(
            &(len as u128),
        ).bytes,
        0xffff_ffff_ffff_ffff_ffff_ffff_ffff_ffff < len <= u32::MAX
            ==> <u128 as TagEncoding<C>>::tag_emit(len as u32).err == Some(
            WriteError::TagEncodingOverflow("u128::MAX"),
        ) && <u128 as TagEncoding<C>>::tag_emit(len as u32).bytes.len() == 0,
        <u128 as TagEncoding<C>>::tag_dec(inp) == match <u128 as SchemaRead<'de, C>>::dec(inp) {
            Ok((v, rest)) => if v <= u32::MAX {
                Ok::<(u32, Input), Fault>((v as u32, rest))
            } else {
                Err((Fault { err: ReadError::TagEncodingOverflow("u32::MAX"), left: rest }))
            },
            Err(f) => Err(f),
        },
        <u128 as TagEncoding<C>>::tag_meta() == <u128 as SchemaWrite<C>>::write_meta(),
{
    lemma_width_dec::<C::IntEncoding, C>(Some(IntWidth::W128), inp);
    C::IntEncoding::lemma_uint_dec(IntWidth::W128, inp);
}

/// Values stay within the limit on memory exactly if their sizes in memory, of which none counts as
/// less than one byte, add up to no more than it; a limit of the largest number there is bounds
/// nothing. What is reported beyond it is what they add up to, as far as that is a number.
pub proof fn law_limit_counts_the_memory<C: ConfigCore, T>(len: nat)
    ensures
        C::prealloc_limit() is None ==> prealloc_ok::<C, T>(len),
        C::prealloc_limit() matches Some(limit) ==> {
            let unit = if layout::size_of::<T>() == 0 {
                1
            } else {
                layout::size_of::<T>()
            };
            &&& prealloc_ok::<C, T>(len) <==> len * unit <= limit || limit == usize::MAX
            &&& len * unit <= usize::MAX ==> prealloc_write_error::<C, T>(len)
                == (WriteError::PreallocationSizeLimit { needed: (len * unit) as usize, limit })
            &&& len * unit <= usize::MAX ==> prealloc_read_error::<C, T>(len)
                == (ReadError::PreallocationSizeLimit { needed: (len * unit) as usize, limit })
            &&& len * unit > usize::MAX ==> prealloc_write_error::<C, T>(len)
                == (WriteError::PreallocationSizeLimit { needed: usize::MAX, limit })
            &&& len * unit > usize::MAX ==> prealloc_read_error::<C, T>(len)
                == (ReadError::PreallocationSizeLimit { needed: usize::MAX, limit })
        },
{
    assert(len * 1 == len);
}

/// A length that is checked is laid out as one that is not, and is an error beyond the limit.
pub proof fn law_checked_lengths<L: SeqLen<C>, C: ConfigCore, T>(len: nat, inp: Input)
    ensures
        prealloc_ok::<C, T>(len) ==> len_emit_checked::<L, C, T>(len) == L::len_emit(len),
        !prealloc_ok::<C, T>(len) ==> len_emit_checked::<L, C, T>(len).err == Some(
            prealloc_write_error::<C, T>(len),
        ) && len_emit_checked::<L, C, T>(len).bytes.len() == 0,
        len_dec_checked::<L, C, T>(inp) == match L::len_dec(inp) {
            Ok((n, rest)) => if prealloc_ok::<C, T>(n) {
                Ok::<(nat, Input), Fault>((n, rest))
            } else {
                Err((Fault { err: prealloc_read_error::<C, T>(n), left: rest }))
            },
            Err(f) => Err(f),
        },
{
}

} // verus!
