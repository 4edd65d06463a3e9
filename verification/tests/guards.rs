use std::cell::{Cell, RefCell};
use std::sync::{Mutex, RwLock};
use wincode::config::{self, Config, Configuration, DefaultConfig};
use wincode::io::Writer;
use wincode::model::Emit;
use wincode::schema::impls::guard::{
    CellContents, Guarded, MutexGuard, RefCellGuard, RwLockGuard,
};
use wincode::schema::Model;
use wincode::tag_encoding::TagEncoding;
use wincode::{
    serialize, Deserialize, SchemaRead, SchemaWrite, Serialize, TypeMeta, WriteError, WriteResult,
};

#[test]
fn test_cell_roundtrip() {
    type Schema = CellContents<u64>;
    let value = Cell::new(0x0123_4567_89ab_cdef_u64);
    let serialized = Schema::serialize(&value.get()).unwrap();
    let deserialized = Cell::new(Schema::deserialize(&serialized).unwrap());

    assert_eq!(value.get(), deserialized.get());
    assert_eq!(
        <Schema as SchemaWrite<DefaultConfig>>::type_meta(),
        TypeMeta::Static { size: size_of::<u64>(), zero_copy: false }
    );
    assert_eq!(
        <Schema as SchemaRead<'_, DefaultConfig>>::type_meta(),
        TypeMeta::Static { size: size_of::<u64>(), zero_copy: true }
    );
}

#[test]
fn test_refcell_roundtrip() {
    type Schema<'a> = Guarded<'a, RefCellGuard, String>;
    let value = RefCell::new(String::from("hello from a refcell"));
    let serialized = {
        let inner = value.try_borrow().ok();
        Schema::serialize(&inner.as_deref()).unwrap()
    };
    let deserialized = RefCell::new(Schema::deserialize(&serialized).unwrap());

    assert_eq!(&*value.borrow(), &*deserialized.borrow());
    assert_eq!(<Schema as SchemaWrite<DefaultConfig>>::type_meta(), TypeMeta::Dynamic);
    assert_eq!(<Schema as SchemaRead<'_, DefaultConfig>>::type_meta(), TypeMeta::Dynamic);
}

#[test]
fn test_refcell_write_errors_while_mutably_borrowed() {
    type Schema<'a> = Guarded<'a, RefCellGuard, u32>;
    let value = RefCell::new(123_u32);
    let _borrow = value.borrow_mut();
    let inner = value.try_borrow().ok();
    let inner = inner.as_deref();

    assert!(<Schema as SchemaWrite<DefaultConfig>>::size_of(&inner).is_err());

    let mut bytes: Vec<u8> = Vec::new();
    assert!(<Schema as SchemaWrite<DefaultConfig>>::write(&mut bytes, &inner).is_err());
    assert!(matches!(
        Schema::serialize(&inner),
        Err(WriteError::Custom("RefCell already mutably borrowed"))
    ));
}

#[test]
fn test_refcell_unsized_slice_write() {
    let value = RefCell::new([1_u8, 2, 3, 4]);
    let value: &RefCell<[u8]> = &value;
    let inner = value.borrow();
    let slice: &[u8] = &inner;

    let serialized = <Guarded<RefCellGuard, &[u8]>>::serialize(&Some(&slice)).unwrap();
    let expected = serialize(&&[1_u8, 2, 3, 4][..]).unwrap();

    assert_eq!(serialized, expected);
}

#[test]
fn test_mutex_roundtrip() {
    type Schema<'a> = Guarded<'a, MutexGuard, u64>;
    let value = Mutex::new(0x0123_4567_89ab_cdef_u64);
    let serialized = {
        let inner = value.lock().ok();
        Schema::serialize(&inner.as_deref()).unwrap()
    };
    let deserialized = Mutex::new(Schema::deserialize(&serialized).unwrap());

    assert_eq!(*value.lock().unwrap(), *deserialized.lock().unwrap());
    assert_eq!(
        <Schema as SchemaWrite<DefaultConfig>>::type_meta(),
        TypeMeta::Static { size: size_of::<u64>(), zero_copy: false }
    );
    assert_eq!(
        <Schema as SchemaRead<'_, DefaultConfig>>::type_meta(),
        TypeMeta::Static { size: size_of::<u64>(), zero_copy: false }
    );
}

#[test]
fn test_mutex_write_errors_when_poisoned() {
    // What a poisoned lock comes to.
    type Schema<'a> = Guarded<'a, MutexGuard, u32>;
    let inner: Option<&u32> = None;
    assert!(<Schema as SchemaWrite<DefaultConfig>>::size_of(&inner).is_err());

    let mut bytes: Vec<u8> = Vec::new();
    assert!(<Schema as SchemaWrite<DefaultConfig>>::write(&mut bytes, &inner).is_err());
    assert!(matches!(
        Schema::serialize(&inner),
        Err(WriteError::Custom("Mutex poisoned"))
    ));
}

#[test]
fn test_mutex_unsized_slice_write() {
    let value = Mutex::new([1_u8, 2, 3, 4]);
    let value: &Mutex<[u8]> = &value;
    let inner = value.lock().unwrap();
    let slice: &[u8] = &inner;

    let serialized = <Guarded<MutexGuard, &[u8]>>::serialize(&Some(&slice)).unwrap();
    let expected = serialize(&&[1_u8, 2, 3, 4][..]).unwrap();

    assert_eq!(serialized, expected);
}

#[test]
fn test_rwlock_roundtrip() {
    type Schema<'a> = Guarded<'a, RwLockGuard, u64>;
    let value = RwLock::new(0x0123_4567_89ab_cdef_u64);
    let serialized = {
        let inner = value.read().ok();
        Schema::serialize(&inner.as_deref()).unwrap()
    };
    let deserialized = RwLock::new(Schema::deserialize(&serialized).unwrap());

    assert_eq!(*value.read().unwrap(), *deserialized.read().unwrap());
    assert_eq!(
        <Schema as SchemaWrite<DefaultConfig>>::type_meta(),
        TypeMeta::Static { size: size_of::<u64>(), zero_copy: false }
    );
    assert_eq!(
        <Schema as SchemaRead<'_, DefaultConfig>>::type_meta(),
        TypeMeta::Static { size: size_of::<u64>(), zero_copy: false }
    );
}

#[test]
fn test_rwlock_write_errors_when_poisoned() {
    type Schema<'a> = Guarded<'a, RwLockGuard, u32>;
    let inner: Option<&u32> = None;
    assert!(<Schema as SchemaWrite<DefaultConfig>>::size_of(&inner).is_err());

    let mut bytes: Vec<u8> = Vec::new();
    assert!(<Schema as SchemaWrite<DefaultConfig>>::write(&mut bytes, &inner).is_err());
    assert!(matches!(
        Schema::serialize(&inner),
        Err(WriteError::Custom("RwLock poisoned"))
    ));
}

#[test]
fn test_rwlock_unsized_slice_write() {
    let value = RwLock::new([1_u8, 2, 3, 4]);
    let value: &RwLock<[u8]> = &value;
    let inner = value.read().unwrap();
    let slice: &[u8] = &inner;

    let serialized = <Guarded<RwLockGuard, &[u8]>>::serialize(&Some(&slice)).unwrap();
    let expected = serialize(&&[1_u8, 2, 3, 4][..]).unwrap();

    assert_eq!(serialized, expected);
}

enum NarrowTagEnum {
    Fits(u8),
    Overflows(u8),
}

impl NarrowTagEnum {
    fn parts(&self) -> (u32, &u8) {
        match self {
            NarrowTagEnum::Fits(v) => (0, v),
            NarrowTagEnum::Overflows(v) => (256, v),
        }
    }
}

impl Model for NarrowTagEnum {
    type Val = ();
}

impl<C: Config> SchemaWrite<C> for NarrowTagEnum {
    type Src = Self;

    // What contracts speak of, and nothing calls.
    fn src_val(_src: &Self) {}

    fn emit(_src: &Self) -> Emit {
        unreachable!()
    }

    fn size_err(_src: &Self) -> Option<WriteError> {
        unreachable!()
    }

    fn write_meta() -> TypeMeta {
        TypeMeta::Dynamic
    }

    fn write_lawful() -> bool {
        true
    }

    fn lemma_emit(_src: &Self) {}

    fn type_meta() -> TypeMeta {
        TypeMeta::Dynamic
    }

    fn size_of(src: &Self) -> WriteResult<usize> {
        let (tag, v) = src.parts();
        let tag = C::TagEncoding::size_of_from_u32(tag)?;
        Ok(tag + <u8 as SchemaWrite<C>>::size_of(v)?)
    }

    fn write<W: Writer>(writer: &mut W, src: &Self) -> WriteResult<()> {
        let (tag, v) = src.parts();
        C::TagEncoding::write_from_u32(writer, tag)?;
        <u8 as SchemaWrite<C>>::write(writer, v)
    }
}

#[test]
fn test_enum_tag_overflow_size_of_matches_write() {
    let u8_tag_cfg = Configuration::default().with_tag_encoding::<u8>();

    let fits = NarrowTagEnum::Fits(1);
    assert_eq!(config::serialized_size(&fits, u8_tag_cfg).unwrap(), 2);
    assert_eq!(config::serialize(&fits, u8_tag_cfg).unwrap(), [0, 1]);

    let overflow = NarrowTagEnum::Overflows(1);
    assert!(matches!(
        config::serialize(&overflow, u8_tag_cfg),
        Err(WriteError::TagEncodingOverflow(_))
    ));
    let mut bytes: Vec<u8> = Vec::new();
    assert!(matches!(
        config::serialize_into(&mut bytes, &overflow, u8_tag_cfg),
        Err(WriteError::TagEncodingOverflow(_))
    ));
    assert!(matches!(
        config::serialized_size(&overflow, u8_tag_cfg),
        Err(WriteError::TagEncodingOverflow(_))
    ));
}
