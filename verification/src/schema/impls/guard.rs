//! What cells and locks hold, as it was found on looking inside.
use crate::config::ConfigCore;
use crate::error::{ReadResult, WriteError, WriteResult};
use crate::io::{Reader, Writer};
use crate::model::{lemma_wrote_fail, Emit, Fault, Input};
use crate::schema::{Model, RoundTrip, SchemaRead, SchemaWrite, TypeMeta};
use core::marker::PhantomData;
use vstd::prelude::*;

verus! {

broadcast use {
    crate::model::lemma_follows_transitive,
    crate::model::lemma_follows_reflexive,
};

/// The contents of a cell that gives out copies.
pub struct CellContents<T>(PhantomData<T>);

impl<T: Model> Model for CellContents<T> {
    type Val = T::Val;
}

/// A cell is laid out as its contents. It cannot be written by copying its memory.
impl<C: ConfigCore, T: SchemaWrite<C>> SchemaWrite<C> for CellContents<T> {
    type Src = T::Src;

    open spec fn src_val(src: &T::Src) -> T::Val {
        T::src_val(src)
    }

    open spec fn emit(src: &T::Src) -> Emit {
        T::emit(src)
    }

    open spec fn size_err(src: &T::Src) -> Option<WriteError> {
        T::size_err(src)
    }

    open spec fn write_meta() -> TypeMeta {
        T::write_meta().masked(false)
    }

    open spec fn write_lawful() -> bool {
        T::write_lawful()
    }

    proof fn lemma_emit(src: &T::Src) {
        T::lemma_emit(src);
    }

    fn type_meta() -> (m: TypeMeta) {
        T::type_meta().keep_zero_copy(false)
    }

    fn size_of(src: &T::Src) -> (r: WriteResult<usize>) {
        T::size_of(src)
    }

    fn write<W: Writer>(writer: &mut W, src: &T::Src) -> (r: WriteResult<()>) {
        T::write(writer, src)
    }
}

impl<'de, C: ConfigCore, T: SchemaRead<'de, C>> SchemaRead<'de, C> for CellContents<T> {
    type Dst = T::Dst;

    open spec fn dst_val(dst: &T::Dst) -> T::Val {
        T::dst_val(dst)
    }

    open spec fn dec(inp: Input) -> Result<(T::Val, Input), Fault> {
        T::dec(inp)
    }

    open spec fn read_meta() -> TypeMeta {
        T::read_meta()
    }

    open spec fn read_lawful() -> bool {
        T::read_lawful()
    }

    proof fn lemma_dec(inp: Input) {
        T::lemma_dec(inp);
    }

    fn type_meta() -> (m: TypeMeta) {
        T::type_meta()
    }

    fn get<R: Reader<'de>>(reader: &mut R) -> (r: ReadResult<T::Dst>) {
        T::get(reader)
    }
}

impl<'de, C: ConfigCore, T: RoundTrip<'de, C>> RoundTrip<'de, C> for CellContents<T> {
    open spec fn round_trips() -> bool {
        T::round_trips()
    }

    open spec fn src_valid(src: &T::Src) -> bool {
        T::src_valid(src)
    }

    open spec fn needs_backing() -> bool {
        T::needs_backing()
    }

    proof fn lemma_round_trip(src: &T::Src, rest: Input) {
        T::lemma_round_trip(src, rest);
    }
}

/// A kind of cell or lock that may keep its contents to itself.
pub trait Guard {
    /// What is reported of one that does.
    spec fn refusal() -> &'static str;

    /// See [`Guard::refusal`].
    fn refused() -> (s: &'static str)
        ensures
            s == Self::refusal(),
    ;
}

/// A cell of which someone may hold the only reference to the contents.
pub struct RefCellGuard;

impl Guard for RefCellGuard {
    open spec fn refusal() -> &'static str {
        "RefCell already mutably borrowed"
    }

    fn refused() -> (s: &'static str) {
        "RefCell already mutably borrowed"
    }
}

/// A lock for one at a time, unusable once its holder has panicked.
pub struct MutexGuard;

impl Guard for MutexGuard {
    open spec fn refusal() -> &'static str {
        "Mutex poisoned"
    }

    fn refused() -> (s: &'static str) {
        "Mutex poisoned"
    }
}

/// A lock for many readers or one writer, unusable once a writer has panicked.
pub struct RwLockGuard;

impl Guard for RwLockGuard {
    open spec fn refusal() -> &'static str {
        "RwLock poisoned"
    }

    fn refused() -> (s: &'static str) {
        "RwLock poisoned"
    }
}

/// The contents of a cell or lock of the kind `G`, or `None` where it kept them to itself.
pub struct Guarded<'a, G, T>(PhantomData<G>, PhantomData<&'a T>);

impl<'a, G, T: Model> Model for Guarded<'a, G, T> {
    /// The contents, if they could be had.
    type Val = Option<T::Val>;
}

/// A cell or lock is laid out as its contents, and cannot be written without them.
impl<'a, C: ConfigCore, G: Guard, T: SchemaWrite<C>> SchemaWrite<C> for Guarded<
    'a,
    G,
    T,
> where T::Src: 'a {
    type Src = Option<&'a T::Src>;

    open spec fn src_val(src: &Option<&'a T::Src>) -> Option<T::Val> {
        match *src {
            Some(value) => Some(T::src_val(value)),
            None => None,
        }
    }

    open spec fn emit(src: &Option<&'a T::Src>) -> Emit {
        match *src {
            Some(value) => T::emit(value),
            None => Emit::fail(
                WriteError::Custom(G::refusal()),
                match T::write_meta() {
                    TypeMeta::Static { size, .. } => size as nat,
                    TypeMeta::Dynamic => 0,
                },
            ),
        }
    }

    open spec fn size_err(src: &Option<&'a T::Src>) -> Option<WriteError> {
        match *src {
            Some(value) => T::size_err(value),
            None => Some(WriteError::Custom(G::refusal())),
        }
    }

    open spec fn write_meta() -> TypeMeta {
        T::write_meta().masked(false)
    }

    open spec fn write_lawful() -> bool {
        T::write_lawful()
    }

    proof fn lemma_emit(src: &Option<&'a T::Src>) {
        if let Some(value) = *src {
            T::lemma_emit(value);
        }
    }

    fn type_meta() -> (m: TypeMeta) {
        T::type_meta().keep_zero_copy(false)
    }

    fn size_of(src: &Option<&'a T::Src>) -> (r: WriteResult<usize>) {
        match src {
            Some(value) => T::size_of(value),
            None => Err(WriteError::Custom(G::refused())),
        }
    }

    fn write<W: Writer>(writer: &mut W, src: &Option<&'a T::Src>) -> (r: WriteResult<()>) {
        match src {
            Some(value) => T::write(writer, value),
            None => {
                proof {
                    lemma_wrote_fail(
                        WriteError::Custom(G::refusal()),
                        <Guarded<'a, G, T> as SchemaWrite<C>>::emit(src).weight,
                        old(writer).output(),
                    );
                }
                Err(WriteError::Custom(G::refused()))
            },
        }
    }
}

impl<'a, 'de, C: ConfigCore, G: Guard, T: SchemaRead<'de, C>> SchemaRead<'de, C> for Guarded<
    'a,
    G,
    T,
> {
    type Dst = T::Dst;

    open spec fn dst_val(dst: &T::Dst) -> Option<T::Val> {
        Some(T::dst_val(dst))
    }

    open spec fn dec(inp: Input) -> Result<(Option<T::Val>, Input), Fault> {
        match T::dec(inp) {
            Ok((v, rest)) => Ok((Some(v), rest)),
            Err(e) => Err(e),
        }
    }

    open spec fn read_meta() -> TypeMeta {
        T::read_meta().masked(false)
    }

    open spec fn read_lawful() -> bool {
        T::read_lawful()
    }

    proof fn lemma_dec(inp: Input) {
        T::lemma_dec(inp);
    }

    fn type_meta() -> (m: TypeMeta) {
        T::type_meta().keep_zero_copy(false)
    }

    fn get<R: Reader<'de>>(reader: &mut R) -> (r: ReadResult<T::Dst>) {
        T::get(reader)
    }
}

impl<'a, 'de, C: ConfigCore, G: Guard, T: RoundTrip<'de, C>> RoundTrip<'de, C> for Guarded<
    'a,
    G,
    T,
> where T::Src: 'a {
    open spec fn round_trips() -> bool {
        T::round_trips()
    }

    open spec fn src_valid(src: &Option<&'a T::Src>) -> bool {
        *src matches Some(value) ==> T::src_valid(value)
    }

    open spec fn needs_backing() -> bool {
        T::needs_backing()
    }

    proof fn lemma_round_trip(src: &Option<&'a T::Src>, rest: Input) {
        T::lemma_round_trip(src->Some_0, rest);
    }
}

} // verus!
