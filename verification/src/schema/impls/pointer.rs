//! Pointers: a value behind a pointer is laid out as the value.
use crate::config::ConfigCore;
use crate::error::{ReadResult, WriteError, WriteResult};
use crate::io::{Reader, Writer};
use crate::model::{Emit, Fault, Input};
use crate::schema::{Model, RoundTrip, SchemaRead, SchemaWrite, TypeMeta};
use std::rc::Rc;
use std::sync::Arc;
use vstd::prelude::*;

verus! {

impl<'a, T: Model> Model for &'a T {
    type Val = T::Val;
}

impl<'a, C: ConfigCore, T: SchemaWrite<C>> SchemaWrite<C> for &'a T where T::Src: 'a {
    type Src = &'a T::Src;

    open spec fn src_val(src: &&'a T::Src) -> T::Val {
        T::src_val(&**src)
    }

    open spec fn emit(src: &&'a T::Src) -> Emit {
        T::emit(&**src)
    }

    open spec fn size_err(src: &&'a T::Src) -> Option<WriteError> {
        T::size_err(&**src)
    }

    open spec fn write_meta() -> TypeMeta {
        T::write_meta().masked(false)
    }

    open spec fn write_lawful() -> bool {
        T::write_lawful()
    }

    proof fn lemma_emit(src: &&'a T::Src) {
        T::lemma_emit(&**src);
    }

    fn type_meta() -> (m: TypeMeta) {
        T::type_meta().keep_zero_copy(false)
    }

    fn size_of(src: &&'a T::Src) -> (r: WriteResult<usize>) {
        T::size_of(&**src)
    }

    fn write<W: Writer>(writer: &mut W, src: &&'a T::Src) -> (r: WriteResult<()>) {
        T::write(writer, &**src)
    }
}

impl<T: Model> Model for Box<T> {
    type Val = T::Val;
}

impl<C: ConfigCore, T: SchemaWrite<C>> SchemaWrite<C> for Box<T> {
    type Src = Box<T::Src>;

    open spec fn src_val(src: &Box<T::Src>) -> T::Val {
        T::src_val(&**src)
    }

    open spec fn emit(src: &Box<T::Src>) -> Emit {
        T::emit(&**src)
    }

    open spec fn size_err(src: &Box<T::Src>) -> Option<WriteError> {
        T::size_err(&**src)
    }

    open spec fn write_meta() -> TypeMeta {
        T::write_meta().masked(false)
    }

    open spec fn write_lawful() -> bool {
        T::write_lawful()
    }

    proof fn lemma_emit(src: &Box<T::Src>) {
        T::lemma_emit(&**src);
    }

    fn type_meta() -> (m: TypeMeta) {
        T::type_meta().keep_zero_copy(false)
    }

    fn size_of(src: &Box<T::Src>) -> (r: WriteResult<usize>) {
        T::size_of(&**src)
    }

    fn write<W: Writer>(writer: &mut W, src: &Box<T::Src>) -> (r: WriteResult<()>) {
        T::write(writer, &**src)
    }
}

impl<'de, C: ConfigCore, T: SchemaRead<'de, C>> SchemaRead<'de, C> for Box<T> {
    type Dst = Box<T::Dst>;

    open spec fn dst_val(dst: &Box<T::Dst>) -> T::Val {
        T::dst_val(&**dst)
    }

    open spec fn dec(inp: Input) -> Result<(T::Val, Input), Fault> {
        T::dec(inp)
    }

    open spec fn read_meta() -> TypeMeta {
        T::read_meta().masked(false)
    }

    open spec fn read_lawful() -> bool {
        T::read_lawful()
    }

    proof fn lemma_dec(inp: Input) {
        T::lemma_dec(inp);
    }

    fn type_meta() -> (m: TypeMeta) {
        T::type_meta().keep_zero_copy(false)
    }

    fn get<R: Reader<'de>>(reader: &mut R) -> (r: ReadResult<Box<T::Dst>>) {
        let value = T::get(reader)?;
        Ok(Box::new(value))
    }
}

impl<'de, C: ConfigCore, T: RoundTrip<'de, C>> RoundTrip<'de, C> for Box<T> {
    open spec fn round_trips() -> bool {
        T::round_trips()
    }

    open spec fn src_valid(src: &Box<T::Src>) -> bool {
        T::src_valid(&**src)
    }

    open spec fn needs_backing() -> bool {
        T::needs_backing()
    }

    proof fn lemma_round_trip(src: &Box<T::Src>, rest: Input) {
        T::lemma_round_trip(&**src, rest);
    }
}

impl<T: Model> Model for Rc<T> {
    type Val = T::Val;
}

impl<C: ConfigCore, T: SchemaWrite<C>> SchemaWrite<C> for Rc<T> {
    type Src = Rc<T::Src>;

    open spec fn src_val(src: &Rc<T::Src>) -> T::Val {
        T::src_val(&**src)
    }

    open spec fn emit(src: &Rc<T::Src>) -> Emit {
        T::emit(&**src)
    }

    open spec fn size_err(src: &Rc<T::Src>) -> Option<WriteError> {
        T::size_err(&**src)
    }

    open spec fn write_meta() -> TypeMeta {
        T::write_meta().masked(false)
    }

    open spec fn write_lawful() -> bool {
        T::write_lawful()
    }

    proof fn lemma_emit(src: &Rc<T::Src>) {
        T::lemma_emit(&**src);
    }

    fn type_meta() -> (m: TypeMeta) {
        T::type_meta().keep_zero_copy(false)
    }

    fn size_of(src: &Rc<T::Src>) -> (r: WriteResult<usize>) {
        T::size_of(&**src)
    }

    fn write<W: Writer>(writer: &mut W, src: &Rc<T::Src>) -> (r: WriteResult<()>) {
        T::write(writer, &**src)
    }
}

impl<'de, C: ConfigCore, T: SchemaRead<'de, C>> SchemaRead<'de, C> for Rc<T> {
    type Dst = Rc<T::Dst>;

    open spec fn dst_val(dst: &Rc<T::Dst>) -> T::Val {
        T::dst_val(&**dst)
    }

    open spec fn dec(inp: Input) -> Result<(T::Val, Input), Fault> {
        T::dec(inp)
    }

    open spec fn read_meta() -> TypeMeta {
        T::read_meta().masked(false)
    }

    open spec fn read_lawful() -> bool {
        T::read_lawful()
    }

    proof fn lemma_dec(inp: Input) {
        T::lemma_dec(inp);
    }

    fn type_meta() -> (m: TypeMeta) {
        T::type_meta().keep_zero_copy(false)
    }

    fn get<R: Reader<'de>>(reader: &mut R) -> (r: ReadResult<Rc<T::Dst>>) {
        let value = T::get(reader)?;
        Ok(Rc::new(value))
    }
}

impl<'de, C: ConfigCore, T: RoundTrip<'de, C>> RoundTrip<'de, C> for Rc<T> {
    open spec fn round_trips() -> bool {
        T::round_trips()
    }

    open spec fn src_valid(src: &Rc<T::Src>) -> bool {
        T::src_valid(&**src)
    }

    open spec fn needs_backing() -> bool {
        T::needs_backing()
    }

    proof fn lemma_round_trip(src: &Rc<T::Src>, rest: Input) {
        T::lemma_round_trip(&**src, rest);
    }
}

impl<T: Model> Model for Arc<T> {
    type Val = T::Val;
}

impl<C: ConfigCore, T: SchemaWrite<C>> SchemaWrite<C> for Arc<T> {
    type Src = Arc<T::Src>;

    open spec fn src_val(src: &Arc<T::Src>) -> T::Val {
        T::src_val(&**src)
    }

    open spec fn emit(src: &Arc<T::Src>) -> Emit {
        T::emit(&**src)
    }

    open spec fn size_err(src: &Arc<T::Src>) -> Option<WriteError> {
        T::size_err(&**src)
    }

    open spec fn write_meta() -> TypeMeta {
        T::write_meta().masked(false)
    }

    open spec fn write_lawful() -> bool {
        T::write_lawful()
    }

    proof fn lemma_emit(src: &Arc<T::Src>) {
        T::lemma_emit(&**src);
    }

    fn type_meta() -> (m: TypeMeta) {
        T::type_meta().keep_zero_copy(false)
    }

    fn size_of(src: &Arc<T::Src>) -> (r: WriteResult<usize>) {
        T::size_of(&**src)
    }

    fn write<W: Writer>(writer: &mut W, src: &Arc<T::Src>) -> (r: WriteResult<()>) {
        T::write(writer, &**src)
    }
}

impl<'de, C: ConfigCore, T: SchemaRead<'de, C>> SchemaRead<'de, C> for Arc<T> {
    type Dst = Arc<T::Dst>;

    open spec fn dst_val(dst: &Arc<T::Dst>) -> T::Val {
        T::dst_val(&**dst)
    }

    open spec fn dec(inp: Input) -> Result<(T::Val, Input), Fault> {
        T::dec(inp)
    }

    open spec fn read_meta() -> TypeMeta {
        T::read_meta().masked(false)
    }

    open spec fn read_lawful() -> bool {
        T::read_lawful()
    }

    proof fn lemma_dec(inp: Input) {
        T::lemma_dec(inp);
    }

    fn type_meta() -> (m: TypeMeta) {
        T::type_meta().keep_zero_copy(false)
    }

    fn get<R: Reader<'de>>(reader: &mut R) -> (r: ReadResult<Arc<T::Dst>>) {
        let value = T::get(reader)?;
        Ok(Arc::new(value))
    }
}

impl<'de, C: ConfigCore, T: RoundTrip<'de, C>> RoundTrip<'de, C> for Arc<T> {
    open spec fn round_trips() -> bool {
        T::round_trips()
    }

    open spec fn src_valid(src: &Arc<T::Src>) -> bool {
        T::src_valid(&**src)
    }

    open spec fn needs_backing() -> bool {
        T::needs_backing()
    }

    proof fn lemma_round_trip(src: &Arc<T::Src>, rest: Input) {
        T::lemma_round_trip(&**src, rest);
    }
}

} // verus!
