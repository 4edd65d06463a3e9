use std::collections::VecDeque;
use std::rc::Rc;
use std::sync::atomic::{AtomicIsize, Ordering};
use std::sync::Arc;
use wincode::config::Config;
use wincode::error::invalid_tag_encoding;
use wincode::io::{Reader, Writer};
use wincode::model::{Emit, Fault, Input};
use wincode::schema::Model;
use wincode::{
    deserialize, serialize, Deserialize, ReadError, ReadResult, SchemaRead, SchemaWrite, TypeMeta,
    WriteError, WriteResult,
};

/// The number of values alive, made and not dropped.
static ALIVE: AtomicIsize = AtomicIsize::new(0);

fn alive() -> isize {
    ALIVE.load(Ordering::SeqCst)
}

#[derive(Debug, PartialEq, Eq)]
struct DropCounted;

impl DropCounted {
    const TAG_BYTE: u8 = 0;

    fn new() -> Self {
        ALIVE.fetch_add(1, Ordering::SeqCst);
        Self
    }
}

impl Drop for DropCounted {
    fn drop(&mut self) {
        ALIVE.fetch_sub(1, Ordering::SeqCst);
    }
}

const ONE_BYTE: TypeMeta = TypeMeta::Static { size: 1, zero_copy: false };

impl Model for DropCounted {
    type Val = ();
}

impl<C: Config> SchemaWrite<C> for DropCounted {
    type Src = Self;

    // What contracts speak of, and nothing calls.
    fn src_val(_src: &Self) {}

    fn emit(_src: &Self) -> Emit {
        unreachable!()
    }

    fn size_err(_src: &Self) -> Option<WriteError> {
        unreachable!()
    }

    fn write_meta() -> TypeMeta {
        ONE_BYTE
    }

    fn write_lawful() -> bool {
        true
    }

    fn lemma_emit(_src: &Self) {}

    fn type_meta() -> TypeMeta {
        ONE_BYTE
    }

    fn size_of(_src: &Self) -> WriteResult<usize> {
        Ok(1)
    }

    fn write<W: Writer>(writer: &mut W, _src: &Self) -> WriteResult<()> {
        <u8 as SchemaWrite<C>>::write(writer, &Self::TAG_BYTE)
    }
}

impl<'de, C: Config> SchemaRead<'de, C> for DropCounted {
    type Dst = Self;

    // What contracts speak of, and nothing calls.
    fn dst_val(_dst: &Self) {}

    fn dec(_inp: Input) -> Result<((), Input), Fault> {
        unreachable!()
    }

    fn read_meta() -> TypeMeta {
        ONE_BYTE
    }

    fn read_lawful() -> bool {
        true
    }

    fn lemma_dec(_inp: Input) {}

    fn type_meta() -> TypeMeta {
        ONE_BYTE
    }

    fn get<R: Reader<'de>>(reader: &mut R) -> ReadResult<Self> {
        <u8 as SchemaRead<'de, C>>::get(reader)?;
        Ok(DropCounted::new())
    }
}

/// Always fails to be read.
#[derive(Debug, Clone, Copy, PartialEq, Eq)]
struct ErrorsOnRead;

impl ErrorsOnRead {
    const TAG_BYTE: u8 = 1;
}

impl Model for ErrorsOnRead {
    type Val = ();
}

impl<C: Config> SchemaWrite<C> for ErrorsOnRead {
    type Src = Self;

    // What contracts speak of, and nothing calls.
    fn src_val(_src: &Self) {}

    fn emit(_src: &Self) -> Emit {
        unreachable!()
    }

    fn size_err(_src: &Self) -> Option<WriteError> {
        unreachable!()
    }

    fn write_meta() -> TypeMeta {
        ONE_BYTE
    }

    fn write_lawful() -> bool {
        true
    }

    fn lemma_emit(_src: &Self) {}

    fn type_meta() -> TypeMeta {
        ONE_BYTE
    }

    fn size_of(_src: &Self) -> WriteResult<usize> {
        Ok(1)
    }

    fn write<W: Writer>(writer: &mut W, _src: &Self) -> WriteResult<()> {
        <u8 as SchemaWrite<C>>::write(writer, &Self::TAG_BYTE)
    }
}

impl<'de, C: Config> SchemaRead<'de, C> for ErrorsOnRead {
    type Dst = Self;

    // What contracts speak of, and nothing calls.
    fn dst_val(_dst: &Self) {}

    fn dec(_inp: Input) -> Result<((), Input), Fault> {
        unreachable!()
    }

    fn read_meta() -> TypeMeta {
        ONE_BYTE
    }

    fn read_lawful() -> bool {
        true
    }

    fn lemma_dec(_inp: Input) {}

    fn type_meta() -> TypeMeta {
        ONE_BYTE
    }

    fn get<R: Reader<'de>>(reader: &mut R) -> ReadResult<Self> {
        <u8 as SchemaRead<'de, C>>::get(reader)?;
        Err(ReadError::PointerSizedReadError)
    }
}

#[derive(Debug, PartialEq, Eq)]
enum DropCountedMaybeError {
    DropCounted(DropCounted),
    ErrorsOnRead(ErrorsOnRead),
}

impl Model for DropCountedMaybeError {
    type Val = ();
}

impl<C: Config> SchemaWrite<C> for DropCountedMaybeError {
    type Src = Self;

    // What contracts speak of, and nothing calls.
    fn src_val(_src: &Self) {}

    fn emit(_src: &Self) -> Emit {
        unreachable!()
    }

    fn size_err(_src: &Self) -> Option<WriteError> {
        unreachable!()
    }

    fn write_meta() -> TypeMeta {
        ONE_BYTE
    }

    fn write_lawful() -> bool {
        true
    }

    fn lemma_emit(_src: &Self) {}

    fn type_meta() -> TypeMeta {
        ONE_BYTE
    }

    fn size_of(src: &Self) -> WriteResult<usize> {
        match src {
            DropCountedMaybeError::DropCounted(v) => <DropCounted as SchemaWrite<C>>::size_of(v),
            DropCountedMaybeError::ErrorsOnRead(v) => <ErrorsOnRead as SchemaWrite<C>>::size_of(v),
        }
    }

    fn write<W: Writer>(writer: &mut W, src: &Self) -> WriteResult<()> {
        match src {
            DropCountedMaybeError::DropCounted(v) => {
                <DropCounted as SchemaWrite<C>>::write(writer, v)
            }
            DropCountedMaybeError::ErrorsOnRead(v) => {
                <ErrorsOnRead as SchemaWrite<C>>::write(writer, v)
            }
        }
    }
}

impl<'de, C: Config> SchemaRead<'de, C> for DropCountedMaybeError {
    type Dst = Self;

    // What contracts speak of, and nothing calls.
    fn dst_val(_dst: &Self) {}

    fn dec(_inp: Input) -> Result<((), Input), Fault> {
        unreachable!()
    }

    fn read_meta() -> TypeMeta {
        ONE_BYTE
    }

    fn read_lawful() -> bool {
        true
    }

    fn lemma_dec(_inp: Input) {}

    fn type_meta() -> TypeMeta {
        ONE_BYTE
    }

    fn get<R: Reader<'de>>(reader: &mut R) -> ReadResult<Self> {
        let byte = <u8 as SchemaRead<'de, C>>::get(reader)?;
        match byte {
            DropCounted::TAG_BYTE => Ok(DropCountedMaybeError::DropCounted(DropCounted::new())),
            ErrorsOnRead::TAG_BYTE => Err(ReadError::PointerSizedReadError),
            _ => Err(invalid_tag_encoding(byte as usize)),
        }
    }
}

/// Sequences that can be read back, that fail at the start, in the middle and at the end.
fn sequences() -> Vec<Vec<DropCountedMaybeError>> {
    let mut all = Vec::new();
    for (len, bad) in [(0usize, None), (5, None), (5, Some(0)), (5, Some(2)), (99, Some(98))] {
        all.push(
            (0..len)
                .map(|i| {
                    if bad == Some(i) {
                        DropCountedMaybeError::ErrorsOnRead(ErrorsOnRead)
                    } else {
                        DropCountedMaybeError::DropCounted(DropCounted::new())
                    }
                })
                .collect(),
        );
    }
    all
}

fn fails(seq: &[DropCountedMaybeError]) -> bool {
    seq.iter().any(|v| matches!(v, DropCountedMaybeError::ErrorsOnRead(_)))
}

#[test]
fn drop_count_sanity() {
    {
        let serialized = serialize(&[DropCounted::new(), DropCounted::new()]).unwrap();
        let _deserialized: [DropCounted; 2] = deserialize(&serialized).unwrap();
        assert_eq!(alive(), 2);
    }
    assert_eq!(alive(), 0);
}

#[test]
fn drop_count_maybe_error_sanity() {
    {
        let serialized =
            serialize(&[DropCountedMaybeError::DropCounted(DropCounted::new())]).unwrap();
        let _deserialized: [DropCountedMaybeError; 1] = deserialize(&serialized).unwrap();
        assert_eq!(alive(), 1);

        let serialized = serialize(&[
            DropCountedMaybeError::DropCounted(DropCounted::new()),
            DropCountedMaybeError::ErrorsOnRead(ErrorsOnRead),
        ])
        .unwrap();
        let deserialized: ReadResult<[DropCountedMaybeError; 2]> = deserialize(&serialized);
        assert!(deserialized.is_err());
    }
    assert_eq!(alive(), 0);
}

#[test]
fn test_tuple_handles_partial_drop() {
    {
        let serialized =
            serialize(&(DropCounted::new(), (DropCounted::new(), ErrorsOnRead))).unwrap();
        let deserialized: ReadResult<(DropCounted, (DropCounted, ErrorsOnRead))> =
            deserialize(&serialized);
        assert!(deserialized.is_err());
    }
    assert_eq!(alive(), 0);
}

#[test]
fn test_vec_handles_partial_drop() {
    for vec in sequences() {
        let serialized = serialize(&vec).unwrap();
        let deserialized = <Vec<DropCountedMaybeError>>::deserialize(&serialized);
        assert_eq!(deserialized.is_err(), fails(&vec));
        if let Ok(deserialized) = deserialized {
            assert_eq!(vec, deserialized);
        }
    }
    assert_eq!(alive(), 0);
}

#[test]
fn test_vec_deque_handles_partial_drop() {
    for vec in sequences() {
        let bad = fails(&vec);
        let deque: VecDeque<DropCountedMaybeError> = vec.into();
        let serialized = serialize(&deque).unwrap();
        let deserialized = <VecDeque<DropCountedMaybeError>>::deserialize(&serialized);
        assert_eq!(deserialized.is_err(), bad);
        if let Ok(deserialized) = deserialized {
            assert_eq!(deque, deserialized);
        }
    }
    assert_eq!(alive(), 0);
}

#[test]
fn test_boxed_slice_handles_partial_drop() {
    for vec in sequences() {
        let slice: Box<[DropCountedMaybeError]> = vec.into_boxed_slice();
        let serialized = serialize(&slice).unwrap();
        let deserialized = <Box<[DropCountedMaybeError]>>::deserialize(&serialized);
        assert_eq!(deserialized.is_err(), fails(&slice));
        if let Ok(deserialized) = deserialized {
            assert_eq!(slice, deserialized);
        }
    }
    assert_eq!(alive(), 0);
}

#[test]
fn test_rc_slice_handles_partial_drop() {
    for vec in sequences() {
        let slice: Rc<[DropCountedMaybeError]> = Rc::from(vec);
        let serialized = serialize(&slice).unwrap();
        let deserialized = <Rc<[DropCountedMaybeError]>>::deserialize(&serialized);
        assert_eq!(deserialized.is_err(), fails(&slice));
        if let Ok(deserialized) = deserialized {
            assert_eq!(slice, deserialized);
        }
    }
    assert_eq!(alive(), 0);
}

#[test]
fn test_arc_slice_handles_partial_drop() {
    for vec in sequences() {
        let slice: Arc<[DropCountedMaybeError]> = Arc::from(vec);
        let serialized = serialize(&slice).unwrap();
        let deserialized = <Arc<[DropCountedMaybeError]>>::deserialize(&serialized);
        assert_eq!(deserialized.is_err(), fails(&slice));
        if let Ok(deserialized) = deserialized {
            assert_eq!(slice, deserialized);
        }
    }
    assert_eq!(alive(), 0);
}

fn each() -> [DropCountedMaybeError; 2] {
    [
        DropCountedMaybeError::DropCounted(DropCounted::new()),
        DropCountedMaybeError::ErrorsOnRead(ErrorsOnRead),
    ]
}

#[test]
fn test_arc_handles_drop() {
    for data in each() {
        let data = Arc::new(data);
        let serialized = serialize(&data).unwrap();
        let deserialized: ReadResult<Arc<DropCountedMaybeError>> = deserialize(&serialized);
        if let Ok(deserialized) = deserialized {
            assert_eq!(data, deserialized);
        }
    }
    assert_eq!(alive(), 0);
}

#[test]
fn test_rc_handles_drop() {
    for data in each() {
        let data = Rc::new(data);
        let serialized = serialize(&data).unwrap();
        let deserialized: ReadResult<Rc<DropCountedMaybeError>> = deserialize(&serialized);
        if let Ok(deserialized) = deserialized {
            assert_eq!(data, deserialized);
        }
    }
    assert_eq!(alive(), 0);
}

#[test]
fn test_box_handles_drop() {
    for data in each() {
        let data = Box::new(data);
        let serialized = serialize(&data).unwrap();
        let deserialized: ReadResult<Box<DropCountedMaybeError>> = deserialize(&serialized);
        if let Ok(deserialized) = deserialized {
            assert_eq!(data, deserialized);
        }
    }
    assert_eq!(alive(), 0);
}

#[test]
fn test_array_handles_partial_drop() {
    for bad in [None, Some(0usize), Some(20), Some(31)] {
        let array: [DropCountedMaybeError; 32] = std::array::from_fn(|i| {
            if bad == Some(i) {
                DropCountedMaybeError::ErrorsOnRead(ErrorsOnRead)
            } else {
                DropCountedMaybeError::DropCounted(DropCounted::new())
            }
        });
        let serialized = serialize(&array).unwrap();
        let deserialized = <[DropCountedMaybeError; 32]>::deserialize(&serialized);
        assert_eq!(deserialized.is_err(), bad.is_some());
        if let Ok(deserialized) = deserialized {
            assert_eq!(array, deserialized);
        }
    }
    assert_eq!(alive(), 0);
}
