//! Error types and the functions that build them.
use crate::io;
use core::str::Utf8Error;
use vstd::prelude::*;
use vstd::std_specs::convert::FromSpecImpl;

verus! {

/// `core::str::Utf8Error`: what `core::str::from_utf8` reports of bytes that are not UTF-8.
/// It is carried along unopened.
#[verifier::external_type_specification]
#[verifier::external_body]
pub struct ExUtf8Error(Utf8Error);

/// Any error of the library.
#[derive(Debug)]
pub enum Error {
    WriteError(WriteError),
    ReadError(ReadError),
}

/// Why a value could not be written.
#[derive(Debug)]
pub enum WriteError {
    /// The writer has no room.
    Io(io::WriteError),
    /// Bytes that should be UTF-8 are not.
    InvalidUtf8Encoding(Utf8Error),
    /// The length does not fit its encoding; holds the largest length that does.
    LengthEncodingOverflow(&'static str),
    /// The sequence would be refused on read-back: it needs more memory than the limit allows.
    PreallocationSizeLimit { needed: usize, limit: usize },
    /// The tag does not fit its encoding; holds the largest tag that does.
    TagEncodingOverflow(&'static str),
    /// Any other reason.
    Custom(&'static str),
}

/// Why a value could not be read.
#[derive(Debug)]
pub enum ReadError {
    /// The reader cannot supply the bytes.
    Io(io::ReadError),
    /// Bytes that should be UTF-8 are not.
    InvalidUtf8Encoding(Utf8Error),
    /// The decoded number is not a Unicode scalar value.
    InvalidUtf8Code(u32),
    /// The decoded integer does not fit a pointer-sized one.
    PointerSizedReadError,
    /// The announced sequence needs more memory than the limit allows.
    PreallocationSizeLimit { needed: usize, limit: usize },
    /// No variant has this tag.
    InvalidTagEncoding(usize),
    /// The byte is neither `0` nor `1`.
    InvalidBoolEncoding(u8),
    /// The announced length does not fit; holds the largest length that does.
    LengthEncodingOverflow(&'static str),
    /// The bytes are well formed, but no value of the type.
    InvalidValue(&'static str),
    /// No UTF-8 sequence starts with this byte.
    InvalidCharLead(u8),
    /// The value ended before the input did.
    TrailingBytes,
    /// Any other reason.
    Custom(&'static str),
    /// A value cannot be borrowed in place, since its bytes are not aligned for it.
    UnalignedPointerRead,
    /// The tag does not fit its encoding; holds the largest tag that does.
    TagEncodingOverflow(&'static str),
}

/// A sequence needs `needed` bytes of memory, and `limit` are allowed.
#[derive(Debug)]
pub struct PreallocationError {
    needed: usize,
    limit: usize,
}

impl PreallocationError {
    /// The number of bytes that the sequence needs.
    pub closed spec fn needed(self) -> usize {
        self.needed
    }

    /// The number of bytes that are allowed.
    pub closed spec fn limit(self) -> usize {
        self.limit
    }

    /// This error, as one of reading.
    pub fn into_read_error(self) -> (e: ReadError)
        ensures
            e == (ReadError::PreallocationSizeLimit { needed: self.needed(), limit: self.limit() }),
    {
        ReadError::PreallocationSizeLimit { needed: self.needed, limit: self.limit }
    }

    /// This error, as one of writing.
    pub fn into_write_error(self) -> (e: WriteError)
        ensures
            e == (WriteError::PreallocationSizeLimit {
                needed: self.needed(),
                limit: self.limit(),
            }),
    {
        WriteError::PreallocationSizeLimit { needed: self.needed, limit: self.limit }
    }
}

/// A tag is too large for its encoding; holds the largest tag that fits.
#[derive(Debug)]
pub struct TagEncodingOverflow(pub &'static str);

pub type WriteResult<T> = core::result::Result<T, WriteError>;

pub type ReadResult<T> = core::result::Result<T, ReadError>;

pub fn unaligned_pointer_read() -> (e: ReadError)
    ensures
        e == ReadError::UnalignedPointerRead,
{
    ReadError::UnalignedPointerRead
}

pub fn preallocation_size_limit(needed: usize, limit: usize) -> (e: PreallocationError)
    ensures
        e.needed() == needed,
        e.limit() == limit,
{
    PreallocationError { needed, limit }
}

pub fn read_length_encoding_overflow(max_length: &'static str) -> (e: ReadError)
    ensures
        e == ReadError::LengthEncodingOverflow(max_length),
{
    ReadError::LengthEncodingOverflow(max_length)
}

pub fn write_length_encoding_overflow(max_length: &'static str) -> (e: WriteError)
    ensures
        e == WriteError::LengthEncodingOverflow(max_length),
{
    WriteError::LengthEncodingOverflow(max_length)
}

pub fn pointer_sized_decode_error() -> (e: ReadError)
    ensures
        e == ReadError::PointerSizedReadError,
{
    ReadError::PointerSizedReadError
}

pub fn invalid_bool_encoding(byte: u8) -> (e: ReadError)
    ensures
        e == ReadError::InvalidBoolEncoding(byte),
{
    ReadError::InvalidBoolEncoding(byte)
}

pub fn invalid_tag_encoding(tag: usize) -> (e: ReadError)
    ensures
        e == ReadError::InvalidTagEncoding(tag),
{
    ReadError::InvalidTagEncoding(tag)
}

pub fn invalid_utf8_encoding(error: Utf8Error) -> (e: ReadError)
    ensures
        e == ReadError::InvalidUtf8Encoding(error),
{
    ReadError::InvalidUtf8Encoding(error)
}

pub fn invalid_char_lead(val: u8) -> (e: ReadError)
    ensures
        e == ReadError::InvalidCharLead(val),
{
    ReadError::InvalidCharLead(val)
}

pub fn invalid_value(msg: &'static str) -> (e: ReadError)
    ensures
        e == ReadError::InvalidValue(msg),
{
    ReadError::InvalidValue(msg)
}

pub fn trailing_bytes() -> (e: ReadError)
    ensures
        e == ReadError::TrailingBytes,
{
    ReadError::TrailingBytes
}

/// The error of a keyed collection that repeats a key.
pub open spec fn spec_duplicate_key() -> ReadError {
    ReadError::Custom("duplicate key in keyed collection")
}

pub fn duplicate_key() -> (e: ReadError)
    ensures
        e == spec_duplicate_key(),
{
    ReadError::Custom("duplicate key in keyed collection")
}

pub fn tag_encoding_overflow(encoding: &'static str) -> (e: TagEncodingOverflow)
    ensures
        e == TagEncodingOverflow(encoding),
{
    TagEncodingOverflow(encoding)
}

impl From<WriteError> for Error {
    fn from(err: WriteError) -> (e: Error) {
        Error::WriteError(err)
    }
}

impl FromSpecImpl<WriteError> for Error {
    open spec fn obeys_from_spec() -> bool {
        true
    }

    open spec fn from_spec(err: WriteError) -> Error {
        Error::WriteError(err)
    }
}

impl From<ReadError> for Error {
    fn from(err: ReadError) -> (e: Error) {
        Error::ReadError(err)
    }
}

impl FromSpecImpl<ReadError> for Error {
    open spec fn obeys_from_spec() -> bool {
        true
    }

    open spec fn from_spec(err: ReadError) -> Error {
        Error::ReadError(err)
    }
}

impl From<io::WriteError> for WriteError {
    fn from(err: io::WriteError) -> (e: WriteError) {
        WriteError::Io(err)
    }
}

impl FromSpecImpl<io::WriteError> for WriteError {
    open spec fn obeys_from_spec() -> bool {
        true
    }

    open spec fn from_spec(err: io::WriteError) -> WriteError {
        WriteError::Io(err)
    }
}

impl From<io::ReadError> for ReadError {
    fn from(err: io::ReadError) -> (e: ReadError) {
        ReadError::Io(err)
    }
}

impl FromSpecImpl<io::ReadError> for ReadError {
    open spec fn obeys_from_spec() -> bool {
        true
    }

    open spec fn from_spec(err: io::ReadError) -> ReadError {
        ReadError::Io(err)
    }
}

impl From<Utf8Error> for WriteError {
    fn from(err: Utf8Error) -> (e: WriteError) {
        WriteError::InvalidUtf8Encoding(err)
    }
}

impl FromSpecImpl<Utf8Error> for WriteError {
    open spec fn obeys_from_spec() -> bool {
        true
    }

    open spec fn from_spec(err: Utf8Error) -> WriteError {
        WriteError::InvalidUtf8Encoding(err)
    }
}

impl From<Utf8Error> for ReadError {
    fn from(err: Utf8Error) -> (e: ReadError) {
        ReadError::InvalidUtf8Encoding(err)
    }
}

impl FromSpecImpl<Utf8Error> for ReadError {
    open spec fn obeys_from_spec() -> bool {
        true
    }

    open spec fn from_spec(err: Utf8Error) -> ReadError {
        ReadError::InvalidUtf8Encoding(err)
    }
}

impl From<PreallocationError> for ReadError {
    fn from(err: PreallocationError) -> (e: ReadError) {
        err.into_read_error()
    }
}

impl FromSpecImpl<PreallocationError> for ReadError {
    open spec fn obeys_from_spec() -> bool {
        true
    }

    open spec fn from_spec(err: PreallocationError) -> ReadError {
        ReadError::PreallocationSizeLimit { needed: err.needed(), limit: err.limit() }
    }
}

impl From<PreallocationError> for WriteError {
    fn from(err: PreallocationError) -> (e: WriteError) {
        err.into_write_error()
    }
}

impl FromSpecImpl<PreallocationError> for WriteError {
    open spec fn obeys_from_spec() -> bool {
        true
    }

    open spec fn from_spec(err: PreallocationError) -> WriteError {
        WriteError::PreallocationSizeLimit { needed: err.needed(), limit: err.limit() }
    }
}

impl From<TagEncodingOverflow> for ReadError {
    fn from(err: TagEncodingOverflow) -> (e: ReadError) {
        ReadError::TagEncodingOverflow(err.0)
    }
}

impl FromSpecImpl<TagEncodingOverflow> for ReadError {
    open spec fn obeys_from_spec() -> bool {
        true
    }

    open spec fn from_spec(err: TagEncodingOverflow) -> ReadError {
        ReadError::TagEncodingOverflow(err.0)
    }
}

impl From<TagEncodingOverflow> for WriteError {
    fn from(err: TagEncodingOverflow) -> (e: WriteError) {
        WriteError::TagEncodingOverflow(err.0)
    }
}

impl FromSpecImpl<TagEncodingOverflow> for WriteError {
    open spec fn obeys_from_spec() -> bool {
        true
    }

    open spec fn from_spec(err: TagEncodingOverflow) -> WriteError {
        WriteError::TagEncodingOverflow(err.0)
    }
}

} // verus!
