use bincode::Options;
use std::collections::{BTreeMap, BTreeSet, HashMap, VecDeque};
use wincode::config::{self, Config, Configuration, DefaultConfig};
use wincode::containers;
use wincode::io::FixedBuf;
use wincode::len::{BincodeLen, FixIntLen, SeqLen, UseIntLen};
use wincode::schema::byte_order::LittleEndian;
use wincode::schema::int_encoding::FixInt;
use wincode::tag_encoding::TagEncoding;
use wincode::{ReadError, SchemaRead, SchemaWrite, TypeMeta, WriteError};

#[test]
fn test_custom_preallocation_size_limit() {
    let c = Configuration::default().with_preallocation_size_limit::<64>();
    for n in [0usize, 1, 63, 64, 65, 128] {
        let value = vec![7u8; n];
        let serialized = wincode::serialize(&value).unwrap();
        let deserialized: Result<Vec<u8>, _> = config::deserialize(&serialized, c);
        if n <= 64 {
            assert_eq!(deserialized.unwrap(), value);
        } else {
            assert!(matches!(
                deserialized,
                Err(ReadError::PreallocationSizeLimit { needed, limit: 64 }) if needed == n
            ));
            assert!(matches!(
                config::serialize(&value, c),
                Err(WriteError::PreallocationSizeLimit { needed, limit: 64 }) if needed == n
            ));
        }
    }
    // A limit that is switched off lets everything pass.
    let c = c.disable_preallocation_size_limit();
    let value = vec![7u8; 128];
    let serialized = config::serialize(&value, c).unwrap();
    assert_eq!(config::deserialize::<Vec<u8>, _>(&serialized, c).unwrap(), value);
}

#[test]
fn test_preallocation_size_limit_rejects_zst_hashmap_len() {
    let c = Configuration::default().with_preallocation_size_limit::<4>();
    let serialized = 5u64.to_le_bytes();
    let decoded: Result<HashMap<(), ()>, _> = config::deserialize(&serialized, c);
    assert!(matches!(
        decoded,
        Err(ReadError::PreallocationSizeLimit { needed: 5, limit: 4 })
    ));
}

#[test]
fn test_custom_length_encoding() {
    let c = Configuration::default().with_length_encoding::<FixIntLen<u32>>();
    for n in [0usize, 1, 300] {
        let value = vec![9u8; n];
        let serialized = config::serialize(&value, c).unwrap();
        assert_eq!(serialized[0..4], (n as u32).to_le_bytes());
        assert_eq!(config::deserialize::<Vec<u8>, _>(&serialized, c).unwrap(), value);
    }
}

#[test]
fn test_custom_length_encoding_and_byte_order() {
    let c = Configuration::default()
        .with_length_encoding::<FixIntLen<u32>>()
        .with_big_endian();
    let value = vec![1u8, 2, 3];
    let serialized = config::serialize(&value, c).unwrap();
    assert_eq!(serialized, [0, 0, 0, 3, 1, 2, 3]);
    assert_eq!(config::deserialize::<Vec<u8>, _>(&serialized, c).unwrap(), value);
}

#[test]
fn test_custom_primitive_length_encoding() {
    let c = Configuration::default().with_length_encoding::<u32>();
    let value = vec![1u8, 2, 3];
    let serialized = config::serialize(&value, c).unwrap();
    assert_eq!(serialized, [3, 0, 0, 0, 1, 2, 3]);
    assert_eq!(config::deserialize::<Vec<u8>, _>(&serialized, c).unwrap(), value);
}

#[test]
fn lengths_beyond_their_encoding_are_errors() {
    let c = Configuration::default().with_length_encoding::<FixIntLen<u8>>();
    let value = vec![0u8; 256];
    assert!(matches!(
        config::serialize(&value, c),
        Err(WriteError::LengthEncodingOverflow("u8::MAX"))
    ));
    assert!(config::serialized_size(&value, c).is_err());
    let value = vec![0u8; 255];
    assert_eq!(config::serialize(&value, c).unwrap().len(), 256);
    // A length that is laid out as the integers are follows their layout.
    let c = Configuration::default().with_varint_encoding().with_length_encoding::<UseIntLen<u64>>();
    assert_eq!(config::serialize(&vec![5u8], c).unwrap(), [1, 5]);
}

#[test]
fn test_byte_order_configuration() {
    let c = Configuration::default().with_big_endian();
    let bincode_c = bincode::DefaultOptions::new().with_big_endian().with_fixint_encoding();
    let value = vec![1u64, 0x0102_0304_0506_0708, u64::MAX];
    let serialized = config::serialize(&value, c).unwrap();
    assert_eq!(serialized, bincode_c.serialize(&value).unwrap());
    assert_eq!(serialized[..8], [0, 0, 0, 0, 0, 0, 0, 3]);
    assert_eq!(serialized[16..24], [1, 2, 3, 4, 5, 6, 7, 8]);
    assert_eq!(config::deserialize::<Vec<u64>, _>(&serialized, c).unwrap(), value);
    // The order of the bytes can be set back.
    let little = c.with_little_endian();
    assert_eq!(
        config::serialize(&value, little).unwrap(),
        wincode::serialize(&value).unwrap()
    );
}

#[test]
fn platform_order_is_that_of_memory() {
    let c = Configuration::default().with_platform_endian();
    assert_eq!(config::serialize(&0x0102u16, c).unwrap(), 0x0102u16.to_ne_bytes());
    fn meta<C: Config>(_: C) -> TypeMeta {
        <u64 as SchemaWrite<C>>::type_meta()
    }
    assert_eq!(meta(c), TypeMeta::Static { size: 8, zero_copy: true });
    let other = if cfg_big() {
        meta(Configuration::default().with_little_endian())
    } else {
        meta(Configuration::default().with_big_endian())
    };
    assert_eq!(other, TypeMeta::Static { size: 8, zero_copy: false });
}

fn cfg_big() -> bool {
    1u16.to_ne_bytes() == [0, 1]
}

fn agrees<T, C, O>(val: T, c: C, bincode_c: O)
where
    C: Config + Copy,
    O: Options + Copy,
    T: serde::Serialize
        + PartialEq
        + std::fmt::Debug
        + SchemaWrite<C, Src = T>
        + for<'de> SchemaRead<'de, C, Dst = T>,
{
    let bincode_serialized = bincode_c.serialize(&val).unwrap();
    let serialized = config::serialize(&val, c).unwrap();
    assert_eq!(bincode_serialized, serialized);
    assert_eq!(
        bincode_c.serialized_size(&val).unwrap(),
        config::serialized_size(&val, c).unwrap()
    );
    let deserialized: T = config::deserialize(&serialized, c).unwrap();
    assert_eq!(val, deserialized);
}

#[test]
fn test_varint_boundaries() {
    let c = Configuration::default().with_varint_encoding();
    let b = bincode::DefaultOptions::new().with_varint_encoding();

    for val in [0u16, 1, 250, 251, 252, u16::MAX] {
        agrees(val, c, b);
    }
    for val in [0u32, 1, 250, 251, 252, u16::MAX as u32, u16::MAX as u32 + 1, u32::MAX] {
        agrees(val, c, b);
    }
    for val in [
        0u64,
        1,
        250,
        251,
        252,
        u16::MAX as u64,
        u16::MAX as u64 + 1,
        u32::MAX as u64,
        u32::MAX as u64 + 1,
        u64::MAX,
    ] {
        agrees(val, c, b);
    }
    for val in [
        0u128,
        1,
        250,
        251,
        252,
        u16::MAX as u128,
        u16::MAX as u128 + 1,
        u32::MAX as u128,
        u32::MAX as u128 + 1,
        u64::MAX as u128,
        u64::MAX as u128 + 1,
        u128::MAX,
    ] {
        agrees(val, c, b);
    }
    for val in [0i16, 1, -1, 2, -2, i16::MIN, i16::MAX] {
        agrees(val, c, b);
    }
    for val in [0i32, 1, -1, 2, -2, i32::MIN, i32::MAX] {
        agrees(val, c, b);
    }
    for val in [0i64, 1, -1, 2, -2, i64::MIN, i64::MAX] {
        agrees(val, c, b);
    }
    for val in [0i128, 1, -1, 2, -2, i128::MIN, i128::MAX] {
        agrees(val, c, b);
    }
}

#[test]
fn test_all_integers_with_custom_byte_order() {
    let c = Configuration::default().with_big_endian();
    let b = bincode::DefaultOptions::new().with_big_endian().with_fixint_encoding();
    agrees(0x0102u16, c, b);
    agrees(0x0102_0304u32, c, b);
    agrees(u64::MAX - 1, c, b);
    agrees(u128::MAX / 3, c, b);
    agrees(-2i16, c, b);
    agrees(i32::MIN, c, b);
    agrees(-3i64, c, b);
    agrees(i128::MIN + 1, c, b);
    agrees(77usize, c, b);
    agrees(-77isize, c, b);
}

#[test]
fn test_all_integers_with_varint() {
    let c = Configuration::default().with_varint_encoding();
    let b = bincode::DefaultOptions::new().with_varint_encoding();
    agrees(300u16, c, b);
    agrees(70_000u32, c, b);
    agrees(u64::MAX, c, b);
    agrees(u128::MAX, c, b);
    agrees(-300i16, c, b);
    agrees(-70_000i32, c, b);
    agrees(i64::MIN, c, b);
    agrees(i128::MIN, c, b);
    agrees(usize::MAX, c, b);
    agrees(isize::MIN, c, b);
}

#[test]
fn test_all_integers_with_varint_big_endian() {
    let c = Configuration::default().with_varint_encoding().with_big_endian();
    let b = bincode::DefaultOptions::new().with_varint_encoding().with_big_endian();
    agrees(300u16, c, b);
    agrees(70_000u32, c, b);
    agrees(u64::MAX, c, b);
    agrees(u128::MAX, c, b);
    agrees(-300i16, c, b);
    agrees(-70_000i32, c, b);
    agrees(i64::MIN, c, b);
    agrees(i128::MIN, c, b);
    agrees(usize::MAX, c, b);
    agrees(isize::MIN, c, b);
}

#[test]
fn varints_of_the_wrong_width_are_errors() {
    let c = Configuration::default().with_varint_encoding();
    // The prefix of four bytes, where two are expected at most.
    assert!(matches!(
        config::deserialize::<u16, _>(&[252, 0, 0, 0, 0], c),
        Err(ReadError::InvalidTagEncoding(252))
    ));
    assert!(matches!(
        config::deserialize::<u128, _>(&[255], c),
        Err(ReadError::InvalidTagEncoding(255))
    ));
}

#[test]
fn test_enum_config_discriminant_u8() {
    let config = Configuration::default().with_tag_encoding::<u8>();
    fn metas<C: Config>(_: C) -> (TypeMeta, TypeMeta) {
        (
            <Result<(), ()> as SchemaRead<'_, C>>::type_meta(),
            <Result<(), ()> as SchemaWrite<C>>::type_meta(),
        )
    }
    let one = TypeMeta::Static { size: 1, zero_copy: false };
    assert_eq!(metas(config), (one, one));
    for (value, byte) in [(Ok::<(), ()>(()), 0u8), (Err(()), 1)] {
        let serialized = config::serialize(&value, config).unwrap();
        assert_eq!(serialized, [byte]);
        let deserialized: Result<(), ()> = config::deserialize(&serialized, config).unwrap();
        assert_eq!(deserialized, value);
    }
}

#[test]
fn test_chained_config_preserves_tag_encoding() {
    let config = Configuration::default()
        .with_tag_encoding::<u8>()
        .with_big_endian()
        .with_preallocation_size_limit::<64>();
    let serialized = config::serialize(&Err::<(), ()>(()), config).unwrap();
    assert_eq!(serialized, [1]);
    let deserialized: Result<(), ()> = config::deserialize(&serialized, config).unwrap();
    assert_eq!(deserialized, Err(()));
}

fn meta_under<C: Config>(_: C) -> TypeMeta {
    <Result<(), ()> as SchemaWrite<C>>::type_meta()
}

#[test]
fn chained_config_keeps_the_size_of_tags() {
    let config = Configuration::default()
        .with_tag_encoding::<u8>()
        .with_big_endian()
        .with_preallocation_size_limit::<64>();
    assert_eq!(meta_under(config), TypeMeta::Static { size: 1, zero_copy: false });
}

#[test]
fn tags_beyond_their_encoding_are_errors() {
    type C = DefaultConfig;
    assert!(matches!(
        <u8 as TagEncoding<C>>::size_of_from_u32(256),
        Err(WriteError::TagEncodingOverflow("u8::MAX"))
    ));
    let mut bytes: Vec<u8> = Vec::new();
    assert!(matches!(
        <u8 as TagEncoding<C>>::write_from_u32(&mut bytes, 256),
        Err(WriteError::TagEncodingOverflow("u8::MAX"))
    ));
    assert!(bytes.is_empty());
    <u8 as TagEncoding<C>>::write_from_u32(&mut bytes, 255).unwrap();
    assert_eq!(bytes, [255]);
    let mut reader: &[u8] = &[0, 0, 0, 0, 1, 0, 0, 0];
    assert!(matches!(
        <u64 as TagEncoding<C>>::read_into_u32(&mut reader),
        Err(ReadError::TagEncodingOverflow("u32::MAX"))
    ));
}

#[test]
fn deserialization_limit_counts_the_whole_value() {
    let c = Configuration::default().with_deserialization_size_limit::<10>();
    let bytes = wincode::serialize(&vec![1u8, 2]).unwrap();
    assert_eq!(bytes.len(), 10);
    assert_eq!(config::deserialize::<Vec<u8>, _>(&bytes, c).unwrap(), [1, 2]);
    let bytes = wincode::serialize(&vec![1u8, 2, 3]).unwrap();
    assert!(matches!(
        config::deserialize::<Vec<u8>, _>(&bytes, c),
        Err(ReadError::Io(wincode::io::ReadError::ReadSizeLimit(3)))
    ));
    let c = c.disable_deserialization_size_limit();
    assert_eq!(config::deserialize::<Vec<u8>, _>(&bytes, c).unwrap(), [1, 2, 3]);
}

#[test]
fn values_can_be_read_one_after_the_other() {
    let mut bytes = wincode::serialize(&5u32).unwrap();
    wincode::serialize_into(&mut bytes, &"six").unwrap();
    let mut reader: &[u8] = &bytes;
    assert_eq!(<u32 as SchemaRead<DefaultConfig>>::get(&mut reader).unwrap(), 5);
    assert_eq!(wincode::deserialize_from::<&str, _>(reader).unwrap(), "six");
}

#[test]
fn preallocation_checks_count_memory() {
    type C = DefaultConfig;
    type Len = <C as Config>::LengthEncoding;
    assert!(<Len as SeqLen<C>>::prealloc_check::<u32>(1024 * 1024).is_ok());
    assert!(<Len as SeqLen<C>>::prealloc_check::<u32>(1024 * 1024 + 1).is_err());
    assert_eq!(<Len as SeqLen<C>>::write_bytes_needed(7).unwrap(), 8);
}

/// Sequences may ask for sixteen bytes of memory.
type Limited = Configuration<true, 16, BincodeLen, LittleEndian, FixInt, u32, { u64::MAX }>;

#[test]
fn the_limit_error_comes_before_any_want_of_room() {
    let limit_error = |r: Result<(), WriteError>| {
        matches!(r, Err(WriteError::PreallocationSizeLimit { limit: 16, .. }))
    };
    // Two numbers are allowed, three are not, and there is no room for either.
    let mut full = FixedBuf::new(0);
    let r = <Vec<u64> as SchemaWrite<Limited>>::write(&mut full, &vec![1, 2, 3]);
    assert!(limit_error(r));
    let r = <Vec<u64> as SchemaWrite<Limited>>::write(&mut full, &vec![1, 2]);
    assert!(matches!(r, Err(WriteError::Io(_))));
    let r = <VecDeque<u64> as SchemaWrite<Limited>>::write(&mut full, &VecDeque::from([1, 2, 3]));
    assert!(limit_error(r));
    let r = <BTreeSet<u64> as SchemaWrite<Limited>>::write(&mut full, &BTreeSet::from([1, 2, 3]));
    assert!(limit_error(r));
    let r = <BTreeMap<u64, u64> as SchemaWrite<Limited>>::write(
        &mut full,
        &BTreeMap::from([(1, 1), (2, 2)]),
    );
    assert!(limit_error(r));
    let text = "seventeen letters".to_string();
    assert!(limit_error(<String as SchemaWrite<Limited>>::write(&mut full, &text)));
    assert!(full.bytes.is_empty());

    // No item is pulled.
    let mut items = [1u64, 2, 3].iter();
    let r = containers::encode_from_iter_prealloc_check::<u64, BincodeLen, Limited, _, _, _>(
        &mut full,
        3,
        items.by_ref(),
    );
    assert!(limit_error(r));
    assert!(full.bytes.is_empty());
    assert_eq!(items.next(), Some(&1));

    // What comes before needs its room.
    let mut one = FixedBuf::new(1);
    let r = <(u8, Vec<u64>) as SchemaWrite<Limited>>::write(&mut one, &(7, vec![1, 2, 3]));
    assert!(limit_error(r));
    assert_eq!(one.bytes, [7]);
    let r = <(u8, Vec<u64>) as SchemaWrite<Limited>>::write(&mut full, &(7, vec![1, 2, 3]));
    assert!(matches!(r, Err(WriteError::Io(_))));
}
