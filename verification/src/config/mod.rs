//! What a reader and a writer of the same bytes have to agree on, and the limits of reading.
//!
//! A limit on the bytes that are read is kept by the functions that read a whole value, such as
//! [`deserialize`]. A schema that is called with a reader of one's own keeps it if that reader is
//! a [`LimitReader`](crate::io::LimitReader), made once for the whole value.
pub mod serde;

pub use serde::{
    deserialize, deserialize_exact, deserialize_from, serialize, serialize_into, serialized_size,
};

use crate::len::{BincodeLen, SeqLen};
use crate::schema::int_encoding::{
    BigEndian, ByteOrder, FixInt, IntEncoding, LittleEndian, NativeEndian, VarInt,
};
use crate::schema::tag_encoding::TagEncoding;
use core::marker::PhantomData;
use vstd::prelude::*;

verus! {

/// The memory that one sequence may ask for by default.
pub const DEFAULT_PREALLOCATION_SIZE_LIMIT: u64 = 4 * 1024 * 1024;

/// As a preallocation size limit: none.
pub const PREALLOCATION_SIZE_LIMIT_DISABLED: u64 = u64::MAX;

/// As a deserialization size limit: none.
pub const DESERIALIZATION_SIZE_LIMIT_DISABLED: u64 = u64::MAX;

/// The bytes that one deserialization may read by default.
pub const DEFAULT_DESERIALIZATION_SIZE_LIMIT: u64 = DESERIALIZATION_SIZE_LIMIT_DISABLED;

/// A choice of layouts and limits, made when the code is compiled.
///
/// By default borrowed values are checked to be aligned, a sequence may ask for four mebibytes of
/// memory, lengths are [`BincodeLen`], integers are [`FixInt`] and [`LittleEndian`], tags are
/// [`u32`], and the bytes that are read are not bounded.
pub struct Configuration<
    const ZERO_COPY_ALIGN_CHECK: bool,
    const PREALLOCATION_SIZE_LIMIT: u64,
    L,
    B,
    I,
    T,
    const DESERIALIZATION_SIZE_LIMIT: u64,
> {
    _l: PhantomData<L>,
    _b: PhantomData<B>,
    _i: PhantomData<I>,
    _t: PhantomData<T>,
}

/// The configuration that [`Configuration::default`] gives.
pub type DefaultConfig = Configuration<
    true,
    DEFAULT_PREALLOCATION_SIZE_LIMIT,
    BincodeLen,
    LittleEndian,
    FixInt,
    u32,
    DEFAULT_DESERIALIZATION_SIZE_LIMIT,
>;

/// The settings of a configuration that are values rather than types.
pub struct Settings {
    /// Whether a value that is borrowed in place is checked to be aligned.
    pub align_check: bool,
    /// The memory that one sequence may ask for before it is read, or `None` for no bound.
    pub prealloc_limit: Option<usize>,
    /// The bytes that one deserialization may read, or `None` for no bound.
    pub deserialization_limit: Option<usize>,
}

/// A limit, where `usize::MAX` and anything above it stands for none.
pub open spec fn limit_of(limit: u64) -> Option<usize> {
    if limit >= usize::MAX {
        None
    } else {
        Some(limit as usize)
    }
}

/// See [`limit_of`].
fn read_limit(limit: u64) -> (r: Option<usize>)
    ensures
        r == limit_of(limit),
{
    if limit >= usize::MAX as u64 {
        None
    } else {
        Some(limit as usize)
    }
}

impl<
    const ZERO_COPY_ALIGN_CHECK: bool,
    const PREALLOCATION_SIZE_LIMIT: u64,
    const DESERIALIZATION_SIZE_LIMIT: u64,
    L,
    B,
    I,
    T,
> Clone for Configuration<
    ZERO_COPY_ALIGN_CHECK,
    PREALLOCATION_SIZE_LIMIT,
    L,
    B,
    I,
    T,
    DESERIALIZATION_SIZE_LIMIT,
> {
    fn clone(&self) -> (r: Self)
        ensures
            r == *self,
    {
        *self
    }
}

impl<
    const ZERO_COPY_ALIGN_CHECK: bool,
    const PREALLOCATION_SIZE_LIMIT: u64,
    const DESERIALIZATION_SIZE_LIMIT: u64,
    L,
    B,
    I,
    T,
> Copy for Configuration<
    ZERO_COPY_ALIGN_CHECK,
    PREALLOCATION_SIZE_LIMIT,
    L,
    B,
    I,
    T,
    DESERIALIZATION_SIZE_LIMIT,
> {

}

/// A configuration; all that it is made of is its type.
fn generate<
    const ZERO_COPY_ALIGN_CHECK: bool,
    const PREALLOCATION_SIZE_LIMIT: u64,
    const DESERIALIZATION_SIZE_LIMIT: u64,
    L,
    B,
    I,
    T,
>() -> (r: Configuration<
    ZERO_COPY_ALIGN_CHECK,
    PREALLOCATION_SIZE_LIMIT,
    L,
    B,
    I,
    T,
    DESERIALIZATION_SIZE_LIMIT,
>)
    ensures
        r.settings() == (Settings {
            align_check: ZERO_COPY_ALIGN_CHECK,
            prealloc_limit: limit_of(PREALLOCATION_SIZE_LIMIT),
            deserialization_limit: limit_of(DESERIALIZATION_SIZE_LIMIT),
        }),
{
    Configuration { _l: PhantomData, _b: PhantomData, _i: PhantomData, _t: PhantomData }
}

impl DefaultConfig {
    /// The default configuration.
    pub fn default() -> (r: DefaultConfig)
        ensures
            r.settings() == (Settings {
                align_check: true,
                prealloc_limit: Some(DEFAULT_PREALLOCATION_SIZE_LIMIT as usize),
                deserialization_limit: None,
            }),
    {
        generate()
    }
}

impl<
    const PREALLOCATION_SIZE_LIMIT: u64,
    const DESERIALIZATION_SIZE_LIMIT: u64,
    L,
    B,
    I,
    T,
> Configuration<
    true,
    PREALLOCATION_SIZE_LIMIT,
    L,
    B,
    I,
    T,
    DESERIALIZATION_SIZE_LIMIT,
> {
    /// The configuration of this type. There is none that skips the alignment check: that takes
    /// a call of [`Configuration::disable_zero_copy_align_check`].
    pub fn new() -> (r: Self)
        ensures
            r.settings() == (Settings {
                align_check: true,
                prealloc_limit: limit_of(PREALLOCATION_SIZE_LIMIT),
                deserialization_limit: limit_of(DESERIALIZATION_SIZE_LIMIT),
            }),
    {
        generate()
    }
}

impl<
    const ZERO_COPY_ALIGN_CHECK: bool,
    const PREALLOCATION_SIZE_LIMIT: u64,
    const DESERIALIZATION_SIZE_LIMIT: u64,
    L,
    B,
    I,
    T,
> Configuration<
    ZERO_COPY_ALIGN_CHECK,
    PREALLOCATION_SIZE_LIMIT,
    L,
    B,
    I,
    T,
    DESERIALIZATION_SIZE_LIMIT,
> {
    /// The settings of this configuration that are values.
    pub open spec fn settings(self) -> Settings {
        Settings {
            align_check: ZERO_COPY_ALIGN_CHECK,
            prealloc_limit: limit_of(PREALLOCATION_SIZE_LIMIT),
            deserialization_limit: limit_of(DESERIALIZATION_SIZE_LIMIT),
        }
    }

    /// Lengths are laid out by `L2`.
    pub fn with_length_encoding<L2>(self) -> (r: Configuration<
        ZERO_COPY_ALIGN_CHECK,
        PREALLOCATION_SIZE_LIMIT,
        L2,
        B,
        I,
        T,
        DESERIALIZATION_SIZE_LIMIT,
    >) where
        Configuration<
            ZERO_COPY_ALIGN_CHECK,
            PREALLOCATION_SIZE_LIMIT,
            L2,
            B,
            I,
            T,
            DESERIALIZATION_SIZE_LIMIT,
        >: Config,

        ensures
            r.settings() == self.settings(),
    {
        generate()
    }

    /// The bytes of an integer stand with the most significant first. Integers are laid out as in memory
    /// only if this is the order of the machine.
    pub fn with_big_endian(self) -> (r: Configuration<
        ZERO_COPY_ALIGN_CHECK,
        PREALLOCATION_SIZE_LIMIT,
        L,
        BigEndian,
        I,
        T,
        DESERIALIZATION_SIZE_LIMIT,
    >)
        ensures
            r.settings() == self.settings(),
    {
        generate()
    }

    /// The bytes of an integer stand with the least significant first. Integers are laid out as in memory
    /// only if this is the order of the machine.
    pub fn with_little_endian(self) -> (r: Configuration<
        ZERO_COPY_ALIGN_CHECK,
        PREALLOCATION_SIZE_LIMIT,
        L,
        LittleEndian,
        I,
        T,
        DESERIALIZATION_SIZE_LIMIT,
    >)
        ensures
            r.settings() == self.settings(),
    {
        generate()
    }

    /// The bytes of an integer stand in the order of the machine that runs the code.
    pub fn with_platform_endian(self) -> (r: Configuration<
        ZERO_COPY_ALIGN_CHECK,
        PREALLOCATION_SIZE_LIMIT,
        L,
        NativeEndian,
        I,
        T,
        DESERIALIZATION_SIZE_LIMIT,
    >)
        ensures
            r.settings() == self.settings(),
    {
        generate()
    }

    /// Integers are laid out by [`FixInt`].
    pub fn with_fixint_encoding(self) -> (r: Configuration<
        ZERO_COPY_ALIGN_CHECK,
        PREALLOCATION_SIZE_LIMIT,
        L,
        B,
        FixInt,
        T,
        DESERIALIZATION_SIZE_LIMIT,
    >)
        ensures
            r.settings() == self.settings(),
    {
        generate()
    }

    /// Integers are laid out by [`VarInt`].
    pub fn with_varint_encoding(self) -> (r: Configuration<
        ZERO_COPY_ALIGN_CHECK,
        PREALLOCATION_SIZE_LIMIT,
        L,
        B,
        VarInt,
        T,
        DESERIALIZATION_SIZE_LIMIT,
    >)
        ensures
            r.settings() == self.settings(),
    {
        generate()
    }

    /// Integers are laid out by `I2`.
    pub fn with_int_encoding<I2>(self) -> (r: Configuration<
        ZERO_COPY_ALIGN_CHECK,
        PREALLOCATION_SIZE_LIMIT,
        L,
        B,
        I2,
        T,
        DESERIALIZATION_SIZE_LIMIT,
    >) where
        Configuration<
            ZERO_COPY_ALIGN_CHECK,
            PREALLOCATION_SIZE_LIMIT,
            L,
            B,
            I2,
            T,
            DESERIALIZATION_SIZE_LIMIT,
        >: Config,

        ensures
            r.settings() == self.settings(),
    {
        generate()
    }

    /// A value that is borrowed in place is checked to be aligned.
    pub fn enable_zero_copy_align_check(self) -> (r: Configuration<
        true,
        PREALLOCATION_SIZE_LIMIT,
        L,
        B,
        I,
        T,
        DESERIALIZATION_SIZE_LIMIT,
    >)
        ensures
            r.settings() == (Settings { align_check: true, ..self.settings() }),
    {
        generate()
    }

    /// A value that is borrowed in place is not checked to be aligned. Whoever asks for this has to know that it is.
    pub fn disable_zero_copy_align_check(self) -> (r: Configuration<
        false,
        PREALLOCATION_SIZE_LIMIT,
        L,
        B,
        I,
        T,
        DESERIALIZATION_SIZE_LIMIT,
    >)
        ensures
            r.settings() == (Settings { align_check: false, ..self.settings() }),
    {
        generate()
    }

    /// One sequence may ask for `LIMIT` bytes of memory before it is read.
    pub fn with_preallocation_size_limit<const LIMIT: u64>(self) -> (r: Configuration<
        ZERO_COPY_ALIGN_CHECK,
        LIMIT,
        L,
        B,
        I,
        T,
        DESERIALIZATION_SIZE_LIMIT,
    >)
        ensures
            r.settings() == (Settings { prealloc_limit: limit_of(LIMIT), ..self.settings() }),
    {
        generate()
    }

    /// The memory that a sequence may ask for is not bounded.
    pub fn disable_preallocation_size_limit(self) -> (r: Configuration<
        ZERO_COPY_ALIGN_CHECK,
        PREALLOCATION_SIZE_LIMIT_DISABLED,
        L,
        B,
        I,
        T,
        DESERIALIZATION_SIZE_LIMIT,
    >)
        ensures
            r.settings() == (Settings { prealloc_limit: None, ..self.settings() }),
    {
        generate()
    }

    /// Tags are laid out by `T2`.
    pub fn with_tag_encoding<T2>(self) -> (r: Configuration<
        ZERO_COPY_ALIGN_CHECK,
        PREALLOCATION_SIZE_LIMIT,
        L,
        B,
        I,
        T2,
        DESERIALIZATION_SIZE_LIMIT,
    >) where
        Configuration<
            ZERO_COPY_ALIGN_CHECK,
            PREALLOCATION_SIZE_LIMIT,
            L,
            B,
            I,
            T2,
            DESERIALIZATION_SIZE_LIMIT,
        >: Config,

        ensures
            r.settings() == self.settings(),
    {
        generate()
    }

    /// One deserialization may read `LIMIT` bytes, over all reads together. This is independent of the
    /// memory that a sequence may ask for.
    pub fn with_deserialization_size_limit<const LIMIT: u64>(self) -> (r: Configuration<
        ZERO_COPY_ALIGN_CHECK,
        PREALLOCATION_SIZE_LIMIT,
        L,
        B,
        I,
        T,
        LIMIT,
    >)
        ensures
            r.settings() == (Settings {
                deserialization_limit: limit_of(LIMIT),
                ..self.settings()
            }),
    {
        generate()
    }

    /// The bytes that are read are not bounded.
    pub fn disable_deserialization_size_limit(self) -> (r: Configuration<
        ZERO_COPY_ALIGN_CHECK,
        PREALLOCATION_SIZE_LIMIT,
        L,
        B,
        I,
        T,
        DESERIALIZATION_SIZE_LIMIT_DISABLED,
    >)
        ensures
            r.settings() == (Settings { deserialization_limit: None, ..self.settings() }),
    {
        generate()
    }
}

/// The part of a configuration that every schema needs.
pub trait ConfigCore: 'static + Sized {
    /// The order of the bytes of an integer.
    type ByteOrder: ByteOrder;

    /// The layout of integers.
    type IntEncoding: IntEncoding<Self::ByteOrder>;

    /// The memory that one sequence may ask for before it is read, or `None` for no bound.
    spec fn prealloc_limit() -> Option<usize>;

    /// Whether a value that is borrowed in place is checked to be aligned.
    spec fn align_check() -> bool;

    /// The bytes that one deserialization may read, or `None` for no bound.
    spec fn deserialization_limit() -> Option<usize>;

    /// See [`ConfigCore::prealloc_limit`].
    fn preallocation_size_limit() -> (r: Option<usize>)
        ensures
            r == Self::prealloc_limit(),
    ;

    /// See [`ConfigCore::align_check`].
    fn zero_copy_align_check() -> (r: bool)
        ensures
            r == Self::align_check(),
    ;

    /// See [`ConfigCore::deserialization_limit`].
    fn deserialization_size_limit() -> (r: Option<usize>)
        ensures
            r == Self::deserialization_limit(),
    ;
}

/// A configuration, with the layout of lengths and of tags.
pub trait Config: ConfigCore {
    /// The layout of the length of a sequence.
    type LengthEncoding: SeqLen<Self> + 'static;

    /// The layout of the tag of a variant.
    type TagEncoding: TagEncoding<Self> + 'static;
}

impl<
    const ZERO_COPY_ALIGN_CHECK: bool,
    const PREALLOCATION_SIZE_LIMIT: u64,
    const DESERIALIZATION_SIZE_LIMIT: u64,
    L: 'static,
    B: ByteOrder + 'static,
    I: IntEncoding<B> + 'static,
    T: 'static,
> ConfigCore for Configuration<
    ZERO_COPY_ALIGN_CHECK,
    PREALLOCATION_SIZE_LIMIT,
    L,
    B,
    I,
    T,
    DESERIALIZATION_SIZE_LIMIT,
> {
    type ByteOrder = B;

    type IntEncoding = I;

    open spec fn prealloc_limit() -> Option<usize> {
        limit_of(PREALLOCATION_SIZE_LIMIT)
    }

    open spec fn align_check() -> bool {
        ZERO_COPY_ALIGN_CHECK
    }

    open spec fn deserialization_limit() -> Option<usize> {
        limit_of(DESERIALIZATION_SIZE_LIMIT)
    }

    fn preallocation_size_limit() -> (r: Option<usize>) {
        read_limit(PREALLOCATION_SIZE_LIMIT)
    }

    fn zero_copy_align_check() -> (r: bool) {
        ZERO_COPY_ALIGN_CHECK
    }

    fn deserialization_size_limit() -> (r: Option<usize>) {
        read_limit(DESERIALIZATION_SIZE_LIMIT)
    }
}

impl<
    const ZERO_COPY_ALIGN_CHECK: bool,
    const PREALLOCATION_SIZE_LIMIT: u64,
    const DESERIALIZATION_SIZE_LIMIT: u64,
    L: SeqLen<Configuration<
        ZERO_COPY_ALIGN_CHECK,
        PREALLOCATION_SIZE_LIMIT,
        L,
        B,
        I,
        T,
        DESERIALIZATION_SIZE_LIMIT,
    >> + 'static,
    B: ByteOrder + 'static,
    I: IntEncoding<B> + 'static,
    T: TagEncoding<Configuration<
        ZERO_COPY_ALIGN_CHECK,
        PREALLOCATION_SIZE_LIMIT,
        L,
        B,
        I,
        T,
        DESERIALIZATION_SIZE_LIMIT,
    >> + 'static,
> Config for Configuration<
    ZERO_COPY_ALIGN_CHECK,
    PREALLOCATION_SIZE_LIMIT,
    L,
    B,
    I,
    T,
    DESERIALIZATION_SIZE_LIMIT,
> {
    type LengthEncoding = L;

    type TagEncoding = T;
}

} // verus!
