//! Integers that are not zero.
use crate::config::ConfigCore;
use crate::error::{invalid_value, ReadError, ReadResult, WriteError, WriteResult};
use crate::io::{Reader, Writer};
use crate::model::{Emit, Fault, Input};
use crate::schema::{Model, RoundTrip, SchemaRead, SchemaWrite, TypeMeta};
use vstd::prelude::*;

verus! {

/// An integer type.
pub trait Number: Sized + Model<Val = Self> {
    /// Whether this is the number zero.
    spec fn zero(self) -> bool;

    /// What is reported of a zero where another number is expected.
    spec fn zero_message() -> &'static str;

    /// See [`Number::zero`].
    fn is_zero(&self) -> (b: bool)
        ensures
            b == self.zero(),
    ;

    /// See [`Number::zero_message`].
    fn no_zero() -> (s: &'static str)
        ensures
            s == Self::zero_message(),
    ;
}

impl Number for u8 {
    open spec fn zero(self) -> bool {
        self == 0
    }

    open spec fn zero_message() -> &'static str {
        "NonZero value cannot be zero for type NonZeroU8"
    }

    fn is_zero(&self) -> (b: bool) {
        *self == 0
    }

    fn no_zero() -> (s: &'static str) {
        "NonZero value cannot be zero for type NonZeroU8"
    }
}

impl Number for u16 {
    open spec fn zero(self) -> bool {
        self == 0
    }

    open spec fn zero_message() -> &'static str {
        "NonZero value cannot be zero for type NonZeroU16"
    }

    fn is_zero(&self) -> (b: bool) {
        *self == 0
    }

    fn no_zero() -> (s: &'static str) {
        "NonZero value cannot be zero for type NonZeroU16"
    }
}

impl Number for u32 {
    open spec fn zero(self) -> bool {
        self == 0
    }

    open spec fn zero_message() -> &'static str {
        "NonZero value cannot be zero for type NonZeroU32"
    }

    fn is_zero(&self) -> (b: bool) {
        *self == 0
    }

    fn no_zero() -> (s: &'static str) {
        "NonZero value cannot be zero for type NonZeroU32"
    }
}

impl Number for u64 {
    open spec fn zero(self) -> bool {
        self == 0
    }

    open spec fn zero_message() -> &'static str {
        "NonZero value cannot be zero for type NonZeroU64"
    }

    fn is_zero(&self) -> (b: bool) {
        *self == 0
    }

    fn no_zero() -> (s: &'static str) {
        "NonZero value cannot be zero for type NonZeroU64"
    }
}

impl Number for u128 {
    open spec fn zero(self) -> bool {
        self == 0
    }

    open spec fn zero_message() -> &'static str {
        "NonZero value cannot be zero for type NonZeroU128"
    }

    fn is_zero(&self) -> (b: bool) {
        *self == 0
    }

    fn no_zero() -> (s: &'static str) {
        "NonZero value cannot be zero for type NonZeroU128"
    }
}

impl Number for usize {
    open spec fn zero(self) -> bool {
        self == 0
    }

    open spec fn zero_message() -> &'static str {
        "NonZero value cannot be zero for type NonZeroUsize"
    }

    fn is_zero(&self) -> (b: bool) {
        *self == 0
    }

    fn no_zero() -> (s: &'static str) {
        "NonZero value cannot be zero for type NonZeroUsize"
    }
}

impl Number for i8 {
    open spec fn zero(self) -> bool {
        self == 0
    }

    open spec fn zero_message() -> &'static str {
        "NonZero value cannot be zero for type NonZeroI8"
    }

    fn is_zero(&self) -> (b: bool) {
        *self == 0
    }

    fn no_zero() -> (s: &'static str) {
        "NonZero value cannot be zero for type NonZeroI8"
    }
}

impl Number for i16 {
    open spec fn zero(self) -> bool {
        self == 0
    }

    open spec fn zero_message() -> &'static str {
        "NonZero value cannot be zero for type NonZeroI16"
    }

    fn is_zero(&self) -> (b: bool) {
        *self == 0
    }

    fn no_zero() -> (s: &'static str) {
        "NonZero value cannot be zero for type NonZeroI16"
    }
}

impl Number for i32 {
    open spec fn zero(self) -> bool {
        self == 0
    }

    open spec fn zero_message() -> &'static str {
        "NonZero value cannot be zero for type NonZeroI32"
    }

    fn is_zero(&self) -> (b: bool) {
        *self == 0
    }

    fn no_zero() -> (s: &'static str) {
        "NonZero value cannot be zero for type NonZeroI32"
    }
}

impl Number for i64 {
    open spec fn zero(self) -> bool {
        self == 0
    }

    open spec fn zero_message() -> &'static str {
        "NonZero value cannot be zero for type NonZeroI64"
    }

    fn is_zero(&self) -> (b: bool) {
        *self == 0
    }

    fn no_zero() -> (s: &'static str) {
        "NonZero value cannot be zero for type NonZeroI64"
    }
}

impl Number for i128 {
    open spec fn zero(self) -> bool {
        self == 0
    }

    open spec fn zero_message() -> &'static str {
        "NonZero value cannot be zero for type NonZeroI128"
    }

    fn is_zero(&self) -> (b: bool) {
        *self == 0
    }

    fn no_zero() -> (s: &'static str) {
        "NonZero value cannot be zero for type NonZeroI128"
    }
}

impl Number for isize {
    open spec fn zero(self) -> bool {
        self == 0
    }

    open spec fn zero_message() -> &'static str {
        "NonZero value cannot be zero for type NonZeroIsize"
    }

    fn is_zero(&self) -> (b: bool) {
        *self == 0
    }

    fn no_zero() -> (s: &'static str) {
        "NonZero value cannot be zero for type NonZeroIsize"
    }
}

/// A number that is not zero.
#[derive(Debug, PartialEq, Eq)]
pub struct NonZero<P: Number> {
    value: P,
}

pub type NonZeroU8 = NonZero<u8>;

pub type NonZeroU16 = NonZero<u16>;

pub type NonZeroU32 = NonZero<u32>;

pub type NonZeroU64 = NonZero<u64>;

pub type NonZeroU128 = NonZero<u128>;

pub type NonZeroUsize = NonZero<usize>;

pub type NonZeroI8 = NonZero<i8>;

pub type NonZeroI16 = NonZero<i16>;

pub type NonZeroI32 = NonZero<i32>;

pub type NonZeroI64 = NonZero<i64>;

pub type NonZeroI128 = NonZero<i128>;

pub type NonZeroIsize = NonZero<isize>;

impl<P: Number> NonZero<P> {
    /// The number.
    pub closed spec fn value(self) -> P {
        self.value
    }

    #[verifier::type_invariant]
    spec fn wf(self) -> bool {
        !self.value.zero()
    }

    /// The number `value`, unless it is zero.
    pub fn new(value: P) -> (r: Option<NonZero<P>>)
        ensures
            r is None <==> value.zero(),
            r matches Some(n) ==> n.value() == value,
    {
        if value.is_zero() {
            None
        } else {
            Some(NonZero { value })
        }
    }

    /// The number.
    pub fn get(self) -> (value: P)
        ensures
            value == self.value(),
            !value.zero(),
    {
        proof {
            use_type_invariant(&self);
        }
        self.value
    }
}

impl<P: Number> Model for NonZero<P> {
    type Val = P;
}

/// A number that is not zero is laid out as any other.
impl<C: ConfigCore, P: Number + SchemaWrite<C, Src = P>> SchemaWrite<C> for NonZero<P> {
    type Src = NonZero<P>;

    open spec fn src_val(src: &NonZero<P>) -> P {
        P::src_val(&src.value())
    }

    open spec fn emit(src: &NonZero<P>) -> Emit {
        P::emit(&src.value())
    }

    open spec fn size_err(src: &NonZero<P>) -> Option<WriteError> {
        P::size_err(&src.value())
    }

    open spec fn write_meta() -> TypeMeta {
        P::write_meta()
    }

    open spec fn write_lawful() -> bool {
        P::write_lawful()
    }

    proof fn lemma_emit(src: &NonZero<P>) {
        P::lemma_emit(&src.value());
    }

    fn type_meta() -> (m: TypeMeta) {
        P::type_meta()
    }

    fn size_of(src: &NonZero<P>) -> (r: WriteResult<usize>) {
        P::size_of(&src.value)
    }

    fn write<W: Writer>(writer: &mut W, src: &NonZero<P>) -> (r: WriteResult<()>) {
        P::write(writer, &src.value)
    }
}

/// Reading refuses a zero, so that the bytes may not be taken for the value unread.
impl<'de, C: ConfigCore, P: Number + SchemaRead<'de, C>> SchemaRead<'de, C> for NonZero<P> where
    P::Dst: Number,
 {
    type Dst = NonZero<P::Dst>;

    open spec fn dst_val(dst: &NonZero<P::Dst>) -> P {
        P::dst_val(&dst.value())
    }

    open spec fn dec(inp: Input) -> Result<(P, Input), Fault> {
        match P::dec(inp) {
            Ok((v, rest)) => if v.zero() {
                Err(rest.fault(ReadError::InvalidValue(P::zero_message())))
            } else {
                Ok((v, rest))
            },
            Err(e) => Err(e),
        }
    }

    open spec fn read_meta() -> TypeMeta {
        P::read_meta().masked(false)
    }

    open spec fn read_lawful() -> bool {
        &&& P::read_lawful()
        &&& forall|d: P::Dst| d.zero() == #[trigger] P::dst_val(&d).zero()
    }

    proof fn lemma_dec(inp: Input) {
        P::lemma_dec(inp);
    }

    fn type_meta() -> (m: TypeMeta) {
        P::type_meta().keep_zero_copy(false)
    }

    fn get<R: Reader<'de>>(reader: &mut R) -> (r: ReadResult<NonZero<P::Dst>>) {
        let value = P::get(reader)?;
        match NonZero::new(value) {
            Some(n) => Ok(n),
            None => Err(invalid_value(P::no_zero())),
        }
    }
}

impl<'de, C: ConfigCore, P: Number + RoundTrip<'de, C, Src = P>> RoundTrip<'de, C> for NonZero<
    P,
> where P::Dst: Number {
    open spec fn round_trips() -> bool {
        &&& P::round_trips()
        &&& forall|p: P| #[trigger] P::src_val(&p) == p
    }

    open spec fn src_valid(src: &NonZero<P>) -> bool {
        P::src_valid(&src.value()) && !src.value().zero()
    }

    open spec fn needs_backing() -> bool {
        P::needs_backing()
    }

    proof fn lemma_round_trip(src: &NonZero<P>, rest: Input) {
        P::lemma_round_trip(&src.value(), rest);
    }
}

} // verus!
