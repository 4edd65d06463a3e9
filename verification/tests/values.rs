use bincode::Options;
use std::borrow::Cow;
use std::collections::HashMap;
use std::marker::PhantomData;
use std::ops::{Bound, Range, RangeInclusive};
use wincode::config::{self, Configuration, DefaultConfig};
use wincode::context;
use wincode::io::{FixedBuf, NoBorrowReader};
use wincode::schema::impls::addr::{
    IpAddr, Ipv4Addr, Ipv6Addr, SocketAddr, SocketAddrV4, SocketAddrV6,
};
use wincode::schema::impls::float::{F32Bits, F64Bits};
use wincode::schema::impls::nonzero::{
    NonZeroI128, NonZeroI16, NonZeroI32, NonZeroI64, NonZeroI8, NonZeroIsize, NonZeroU128,
    NonZeroU16, NonZeroU32, NonZeroU64, NonZeroU8, NonZeroUsize,
};
use wincode::schema::impls::time::{
    read_system_time, system_time_at, Duration, SystemTime, LAST_SECOND,
};
use wincode::{
    deserialize, deserialize_exact, serialize, serialize_into, serialized_size, ReadError,
    ReadResult, SchemaRead, SchemaReadContext, SchemaWrite, TypeMeta, WriteError,
};

#[test]
fn test_result_basic() {
    for value in [Ok(0u64), Ok(u64::MAX), Err(String::new()), Err("no".to_string())] {
        let serialized = serialize(&value).unwrap();
        assert_eq!(serialized, bincode::serialize(&value).unwrap());
        let deserialized: Result<u64, String> = deserialize(&serialized).unwrap();
        assert_eq!(deserialized, value);
    }
    let five = serialize(&Ok::<u8, u8>(5)).unwrap();
    assert_eq!(five, [0, 0, 0, 0, 5]);
    assert!(matches!(
        deserialize::<Result<u8, u8>>(&[2, 0, 0, 0, 5]),
        Err(ReadError::InvalidTagEncoding(2))
    ));
}

#[test]
fn test_result_bincode_equivalence() {
    for value in [Ok(0u64), Ok(u64::MAX), Err("error".to_string())] {
        let bincode_serialized = bincode::serialize(&value).unwrap();
        let schema_serialized = serialize(&value).unwrap();
        assert_eq!(bincode_serialized, schema_serialized);
        let bincode_deserialized: Result<u64, String> =
            bincode::deserialize(&bincode_serialized).unwrap();
        let schema_deserialized: Result<u64, String> = deserialize(&schema_serialized).unwrap();
        assert_eq!(value, bincode_deserialized);
        assert_eq!(value, schema_deserialized);
    }
}

#[test]
fn test_result_nested() {
    for value in [Ok(Ok(7u64)), Ok(Err("deep".to_string())), Err(9u32)] {
        let serialized = serialize(&value).unwrap();
        assert_eq!(serialized, bincode::serialize(&value).unwrap());
        let deserialized: Result<Result<u64, String>, u32> = deserialize(&serialized).unwrap();
        assert_eq!(deserialized, value);
    }
}

#[test]
fn test_result_with_complex_types() {
    let value: Result<HashMap<String, Vec<u32>>, bool> =
        Ok(HashMap::from([("a".to_string(), vec![1, 2, 3])]));
    let serialized = serialize(&value).unwrap();
    assert_eq!(serialized, bincode::serialize(&value).unwrap());
    let deserialized: Result<HashMap<String, Vec<u32>>, bool> = deserialize(&serialized).unwrap();
    assert_eq!(deserialized, value);

    let value: Result<HashMap<String, Vec<u32>>, bool> = Err(true);
    let serialized = serialize(&value).unwrap();
    assert_eq!(serialized, bincode::serialize(&value).unwrap());
}

#[test]
fn test_result_type_meta_static() {
    let meta = TypeMeta::Static { size: 12, zero_copy: false };
    assert_eq!(<Result<u64, u64> as SchemaRead<'_, DefaultConfig>>::type_meta(), meta);
    assert_eq!(<Result<u64, u64> as SchemaWrite<DefaultConfig>>::type_meta(), meta);
    for value in [Ok(1u64), Err(2u64)] {
        let serialized = serialize(&value).unwrap();
        assert_eq!(serialized.len(), 12);
        assert_eq!(serialized, bincode::serialize(&value).unwrap());
        let deserialized: Result<u64, u64> = deserialize(&serialized).unwrap();
        assert_eq!(deserialized, value);
    }
}

#[test]
fn test_result_type_meta_dynamic() {
    assert_eq!(
        <Result<u64, String> as SchemaRead<'_, DefaultConfig>>::type_meta(),
        TypeMeta::Dynamic
    );
}

#[test]
fn test_result_type_meta_different_sizes() {
    assert_eq!(
        <Result<u64, u32> as SchemaRead<'_, DefaultConfig>>::type_meta(),
        TypeMeta::Dynamic
    );
    for value in [Ok(1u64), Err(2u32)] {
        let serialized = serialize(&value).unwrap();
        assert_eq!(serialized, bincode::serialize(&value).unwrap());
        let deserialized: Result<u64, u32> = deserialize(&serialized).unwrap();
        assert_eq!(deserialized, value);
    }
}

#[test]
fn options_are_a_byte_and_a_value() {
    assert_eq!(serialize(&None::<u16>).unwrap(), [0]);
    assert_eq!(serialize(&Some(0x0102u16)).unwrap(), [1, 2, 1]);
    assert_eq!(serialized_size(&Some(0x0102u16)).unwrap(), 3);
    assert_eq!(deserialize::<Option<u16>>(&[1, 2, 1]).unwrap(), Some(0x0102));
    assert_eq!(deserialize::<Option<u16>>(&[0]).unwrap(), None);
    assert!(matches!(
        deserialize::<Option<u16>>(&[2, 0, 0]),
        Err(ReadError::InvalidTagEncoding(2))
    ));
}

#[test]
fn test_phantom_data() {
    let val = PhantomData::<u64>;
    let serialized = serialize(&val).unwrap();
    assert_eq!(serialized, bincode::serialize(&val).unwrap());
    assert_eq!(
        <PhantomData<u64> as SchemaWrite<DefaultConfig>>::size_of(&val).unwrap() as u64,
        bincode::serialized_size(&val).unwrap()
    );
    let deserialized: PhantomData<u64> = deserialize(&serialized).unwrap();
    assert_eq!(deserialized, val);
}

#[test]
fn test_unit() {
    let serialized = serialize(&()).unwrap();
    assert_eq!(serialized, bincode::serialize(&()).unwrap());
    assert_eq!(
        <() as SchemaWrite<DefaultConfig>>::size_of(&()).unwrap() as u64,
        bincode::serialized_size(&()).unwrap()
    );
    assert!(deserialize::<()>(&serialized).is_ok());
}

#[test]
fn test_duration_varint_type_meta_dynamic() {
    let config = Configuration::default().with_varint_encoding();
    fn metas<C: config::Config>(_: C) -> (TypeMeta, TypeMeta) {
        (
            <Duration as SchemaWrite<C>>::type_meta(),
            <Duration as SchemaRead<'_, C>>::type_meta(),
        )
    }
    assert_eq!(metas(config), (TypeMeta::Dynamic, TypeMeta::Dynamic));

    let val = (1u8, (Duration::new(0, 0), 2u8));
    assert_eq!(config::serialized_size(&val.1 .0, config).unwrap(), 2);

    // There is no room for the twelve bytes that a duration takes at a fixed width.
    let mut buf = FixedBuf::new(13);
    config::serialize_into(&mut buf, &val, config).unwrap();
    assert_eq!(buf.bytes, [1, 0, 0, 2]);

    let back: (u8, (Duration, u8)) = config::deserialize(&buf.bytes, config).unwrap();
    assert_eq!(back, val);
}

#[test]
fn test_system_time_varint_type_meta_dynamic() {
    let config = Configuration::default().with_varint_encoding();
    fn metas<C: config::Config>(_: C) -> (TypeMeta, TypeMeta) {
        (
            <SystemTime as SchemaWrite<C>>::type_meta(),
            <SystemTime as SchemaRead<'_, C>>::type_meta(),
        )
    }
    assert_eq!(metas(config), (TypeMeta::Dynamic, TypeMeta::Dynamic));

    let epoch = SystemTime { since_epoch: Some(Duration::new(0, 0)) };
    let val = (1u8, (epoch, 2u8));
    assert_eq!(config::serialized_size(&val.1 .0, config).unwrap(), 2);

    let mut buf = FixedBuf::new(13);
    config::serialize_into(&mut buf, &val, config).unwrap();
    assert_eq!(buf.bytes, [1, 0, 0, 2]);

    let back: (u8, (SystemTime, u8)) = config::deserialize(&buf.bytes, config).unwrap();
    assert_eq!(back, val);
}

#[test]
fn test_duration() {
    for (secs, nanos) in [(0, 0), (1, 999_999_999), (u64::MAX, 5)] {
        let val = Duration::new(secs, nanos);
        let std_val = std::time::Duration::new(secs, nanos);
        let serialized = serialize(&val).unwrap();
        assert_eq!(serialized, bincode::serialize(&std_val).unwrap());
        let deserialized: Duration = deserialize(&serialized).unwrap();
        assert_eq!(deserialized, val);
    }
}

#[test]
fn test_duration_nanos_normalization() {
    for (secs, nanos) in [(0u64, 1_000_000_000u32), (7, 3_999_999_999), (u64::MAX / 2, u32::MAX)] {
        let mut bytes: Vec<u8> = Vec::new();
        serialize_into(&mut bytes, &secs).unwrap();
        serialize_into(&mut bytes, &nanos).unwrap();
        let result: Duration = deserialize(&bytes).unwrap();
        let expected = std::time::Duration::new(secs, nanos);
        assert_eq!(result.as_secs(), expected.as_secs());
        assert_eq!(result.subsec_nanos(), expected.subsec_nanos());
    }
}

#[test]
fn test_duration_overflow() {
    let mut bytes = Vec::new();
    serialize_into(&mut bytes, &u64::MAX).unwrap();
    serialize_into(&mut bytes, &1_000_000_000u32).unwrap();
    let result: ReadResult<Duration> = deserialize(&bytes);
    assert!(matches!(result, Err(ReadError::InvalidValue("Duration overflow"))));
}

#[test]
fn test_system_time() {
    for (secs, nanos) in [(0, 0), (1_700_000_000, 123), (i64::MAX as u64 - 1, 999_999_999)] {
        let time = SystemTime { since_epoch: Some(Duration::new(secs, nanos)) };
        let std_time = std::time::UNIX_EPOCH + std::time::Duration::new(secs, nanos);
        let serialized = serialize(&time).unwrap();
        assert_eq!(serialized, bincode::serialize(&std_time).unwrap());
        let deserialized: SystemTime = deserialize(&serialized).unwrap();
        assert_eq!(deserialized, time);
    }
}

#[test]
fn test_system_time_before_epoch_errors() {
    let before_epoch = SystemTime { since_epoch: None };
    assert!(matches!(
        serialize(&before_epoch),
        Err(WriteError::Custom("SystemTime before UNIX_EPOCH"))
    ));
    // What cannot be written has no size either.
    assert!(serialized_size(&before_epoch).is_err());
}

#[test]
fn test_static_tuple_write_error_leaves_only_initialized_prefix() {
    let value = (0xAAu8, SystemTime { since_epoch: None });
    let mut bytes = Vec::new();
    assert!(serialize_into(&mut bytes, &value).is_err());
    assert_eq!(bytes, [0xAA]);
}

#[test]
fn test_system_time_overflow_errors() {
    let mut bytes = Vec::with_capacity(size_of::<u64>() + size_of::<u32>());
    serialize_into(&mut bytes, &u64::MAX).unwrap();
    serialize_into(&mut bytes, &0u32).unwrap();

    let result: ReadResult<SystemTime> = deserialize(&bytes);
    assert!(result.is_err());
    assert!(matches!(result, Err(ReadError::InvalidValue("SystemTime overflow"))));
}

fn time_bytes(secs: u64, nanos: u32) -> Vec<u8> {
    let mut bytes = Vec::new();
    serialize_into(&mut bytes, &secs).unwrap();
    serialize_into(&mut bytes, &nanos).unwrap();
    bytes
}

#[test]
fn the_last_second_is_the_last_that_is_read() {
    let bytes = time_bytes(LAST_SECOND, 999_999_999);
    let last: SystemTime = deserialize(&bytes).unwrap();
    assert_eq!(last.since_epoch, Some(Duration::new(i64::MAX as u64, 999_999_999)));
    // A billion nanoseconds are a second, which is one too many.
    let bytes = time_bytes(LAST_SECOND, 1_000_000_000);
    assert!(matches!(
        deserialize::<SystemTime>(&bytes),
        Err(ReadError::InvalidValue("SystemTime overflow"))
    ));
    let bytes = time_bytes(u64::MAX, 1_000_000_000);
    assert!(matches!(
        deserialize::<SystemTime>(&bytes),
        Err(ReadError::InvalidValue("Duration overflow"))
    ));
}

#[test]
fn the_clock_is_asked_how_far_it_reaches() {
    for (secs, nanos) in [(0u64, 0u32), (5, 1_000_000_006), (i64::MAX as u64, 0), (u64::MAX, 0)] {
        let mut bytes = time_bytes(secs, nanos);
        bytes.push(9);
        let mut reader: &[u8] = &bytes;
        let read = read_system_time::<DefaultConfig, _>(&mut reader);
        // The bytes are taken either way.
        assert_eq!(reader, [9]);
        match std::time::UNIX_EPOCH.checked_add(std::time::Duration::new(secs, nanos)) {
            Some(_) => assert_eq!(read.unwrap().since_epoch, Some(Duration::new(secs, nanos))),
            None => assert!(matches!(read, Err(ReadError::InvalidValue("SystemTime overflow")))),
        }
    }
    let mut reader: &[u8] = &[1, 2, 3];
    assert!(matches!(
        read_system_time::<DefaultConfig, _>(&mut reader),
        Err(ReadError::Io(_))
    ));
    assert_eq!(system_time_at(Some(5u8)).unwrap(), 5);
    assert!(matches!(
        system_time_at::<u8>(None),
        Err(ReadError::InvalidValue("SystemTime overflow"))
    ));
}

#[test]
fn test_deserialize_exact_accepts_exact_input() {
    let bytes = serialize(&123u64).unwrap();
    let value: u64 = deserialize_exact(&bytes).unwrap();
    assert_eq!(value, 123);
}

#[test]
fn test_deserialize_exact_rejects_trailing_bytes() {
    let mut bytes = serialize(&123u64).unwrap();
    bytes.push(0xAA);
    let err = deserialize_exact::<u64>(&bytes).unwrap_err();
    assert!(matches!(err, ReadError::TrailingBytes));
    // The bytes that follow are no matter otherwise.
    assert_eq!(deserialize::<u64>(&bytes).unwrap(), 123);
}

#[test]
fn test_config_deserialize_exact_rejects_trailing_bytes() {
    let config = Configuration::default();
    let mut bytes = config::serialize(&123u64, config).unwrap();
    bytes.push(0xAA);
    let err = config::deserialize_exact::<u64, _>(&bytes, config).unwrap_err();
    assert!(matches!(err, ReadError::TrailingBytes));
}

#[test]
fn test_ipv4_addr() {
    for octets in [[0, 0, 0, 0], [127, 0, 0, 1], [255, 254, 253, 252]] {
        let addr = Ipv4Addr { octets };
        let serialized = serialize(&addr).unwrap();
        assert_eq!(serialized, octets);
        assert_eq!(deserialize::<Ipv4Addr>(&serialized).unwrap(), addr);
    }
    assert_eq!(
        <Ipv4Addr as SchemaWrite<DefaultConfig>>::type_meta(),
        TypeMeta::Static { size: 4, zero_copy: false }
    );
    assert!(matches!(
        deserialize::<Ipv4Addr>(&[1, 2, 3]),
        Err(ReadError::Io(wincode::io::ReadError::ReadSizeLimit(4)))
    ));
}

#[test]
fn test_ipv6_addr() {
    let octets = [0x20, 1, 0x0d, 0xb8, 0, 0, 0, 0, 0, 0, 0, 0, 0, 0, 0, 1];
    let addr = Ipv6Addr { octets };
    let serialized = serialize(&addr).unwrap();
    assert_eq!(serialized, octets);
    assert_eq!(deserialize::<Ipv6Addr>(&serialized).unwrap(), addr);
}

#[test]
fn test_ip_addr() {
    let v4 = IpAddr::V4(Ipv4Addr { octets: [10, 0, 0, 1] });
    let serialized = serialize(&v4).unwrap();
    assert_eq!(serialized, [0, 0, 0, 0, 10, 0, 0, 1]);
    assert_eq!(deserialize::<IpAddr>(&serialized).unwrap(), v4);

    let v6 = IpAddr::V6(Ipv6Addr { octets: [9; 16] });
    let serialized = serialize(&v6).unwrap();
    assert_eq!(serialized[..4], [1, 0, 0, 0]);
    assert_eq!(serialized[4..], [9; 16]);
    assert_eq!(deserialize::<IpAddr>(&serialized).unwrap(), v6);
    assert!(matches!(
        deserialize::<IpAddr>(&[3, 0, 0, 0]),
        Err(ReadError::InvalidTagEncoding(3))
    ));
}

#[test]
fn test_socket_addr_v4() {
    let addr = SocketAddrV4 { ip: Ipv4Addr { octets: [127, 0, 0, 1] }, port: 0x1f90 };
    let serialized = serialize(&addr).unwrap();
    assert_eq!(serialized, [127, 0, 0, 1, 0x90, 0x1f]);
    assert_eq!(deserialize::<SocketAddrV4>(&serialized).unwrap(), addr);
}

#[test]
fn test_socket_addr_v6() {
    let ip = Ipv6Addr { octets: [7; 16] };
    let addr = SocketAddrV6 { ip, port: 80, flowinfo: 3, scope_id: 4 };
    let serialized = serialize(&addr).unwrap();
    assert_eq!(serialized.len(), 18);
    // The flow information and the scope are lost on the way.
    assert_eq!(
        deserialize::<SocketAddrV6>(&serialized).unwrap(),
        SocketAddrV6 { ip, port: 80, flowinfo: 0, scope_id: 0 }
    );
}

#[test]
fn test_socket_addr() {
    let ip = Ipv4Addr { octets: [1, 2, 3, 4] };
    let addr = SocketAddr::V4(SocketAddrV4 { ip, port: 258 });
    let serialized = serialize(&addr).unwrap();
    assert_eq!(serialized, [0, 0, 0, 0, 1, 2, 3, 4, 2, 1]);
    assert_eq!(deserialize::<SocketAddr>(&serialized).unwrap(), addr);

    let ip = Ipv6Addr { octets: [8; 16] };
    let addr = SocketAddr::V6(SocketAddrV6 { ip, port: 258, flowinfo: 0, scope_id: 0 });
    let serialized = serialize(&addr).unwrap();
    assert_eq!(serialized.len(), 22);
    assert_eq!(deserialize::<SocketAddr>(&serialized).unwrap(), addr);
}

fn nonzero_roundtrip<T>(val: T)
where
    T: SchemaWrite<DefaultConfig, Src = T>
        + for<'de> SchemaRead<'de, DefaultConfig, Dst = T>
        + PartialEq
        + std::fmt::Debug,
{
    let ser = serialize(&val).unwrap();
    let de: T = deserialize(&ser).unwrap();
    assert_eq!(val, de);
}

#[test]
fn test_nonzero_types() {
    nonzero_roundtrip(NonZeroU8::new(200).unwrap());
    nonzero_roundtrip(NonZeroU16::new(1).unwrap());
    nonzero_roundtrip(NonZeroU32::new(u32::MAX).unwrap());
    nonzero_roundtrip(NonZeroU64::new(u64::MAX).unwrap());
    nonzero_roundtrip(NonZeroU128::new(5).unwrap());
    nonzero_roundtrip(NonZeroUsize::new(6).unwrap());
    nonzero_roundtrip(NonZeroI8::new(-1).unwrap());
    nonzero_roundtrip(NonZeroI16::new(i16::MIN).unwrap());
    nonzero_roundtrip(NonZeroI32::new(-5).unwrap());
    nonzero_roundtrip(NonZeroI64::new(i64::MAX).unwrap());
    nonzero_roundtrip(NonZeroI128::new(-7).unwrap());
    nonzero_roundtrip(NonZeroIsize::new(8).unwrap());
    assert!(NonZeroU8::new(0).is_none());
    assert_eq!(NonZeroU8::new(9).unwrap().get(), 9);
}

#[test]
fn test_nonzero_invalid_zero_value() {
    let zero_bytes = serialize(&0u32).unwrap();
    assert!(matches!(
        deserialize::<NonZeroU32>(&zero_bytes),
        Err(ReadError::InvalidValue("NonZero value cannot be zero for type NonZeroU32"))
    ));
    let zero_bytes = serialize(&0u64).unwrap();
    assert!(matches!(
        deserialize::<NonZeroU64>(&zero_bytes),
        Err(ReadError::InvalidValue("NonZero value cannot be zero for type NonZeroU64"))
    ));
    assert_eq!(
        <NonZeroU32 as SchemaWrite<DefaultConfig>>::type_meta(),
        <u32 as SchemaWrite<DefaultConfig>>::type_meta()
    );
    assert_eq!(
        <NonZeroU32 as SchemaRead<'_, DefaultConfig>>::type_meta(),
        TypeMeta::Static { size: 4, zero_copy: false }
    );
}

#[test]
fn test_bound_included_u64() {
    let bound = Bound::Included(77u64);
    let serialized = serialize(&bound).unwrap();
    assert_eq!(deserialize::<Bound<u64>>(&serialized).unwrap(), bound);
}

#[test]
fn test_bound_excluded_u64() {
    let bound = Bound::Excluded(u64::MAX);
    let serialized = serialize(&bound).unwrap();
    assert_eq!(deserialize::<Bound<u64>>(&serialized).unwrap(), bound);
}

#[test]
fn test_bound_included_string() {
    let bound = Bound::Included("low".to_string());
    let serialized = serialize(&bound).unwrap();
    assert_eq!(deserialize::<Bound<String>>(&serialized).unwrap(), bound);
}

#[test]
fn test_bound_excluded_string() {
    let bound = Bound::Excluded("high".to_string());
    let serialized = serialize(&bound).unwrap();
    assert_eq!(deserialize::<Bound<String>>(&serialized).unwrap(), bound);
}

#[test]
fn test_bound_included_bincode_equivalence() {
    let bound = Bound::Included(3u64);
    let serialized = serialize(&bound).unwrap();
    assert_eq!(serialized, bincode::serialize(&bound).unwrap());
    let unbounded = Bound::<u64>::Unbounded;
    let serialized = serialize(&unbounded).unwrap();
    assert_eq!(serialized, bincode::serialize(&unbounded).unwrap());
    assert_eq!(deserialize::<Bound<u64>>(&serialized).unwrap(), unbounded);
}

#[test]
fn test_bound_excluded_bincode_equivalence() {
    let bound = Bound::Excluded(4u64);
    let serialized = serialize(&bound).unwrap();
    assert_eq!(serialized, bincode::serialize(&bound).unwrap());
    assert!(matches!(
        deserialize::<Bound<u64>>(&[3, 0, 0, 0]),
        Err(ReadError::InvalidTagEncoding(3))
    ));
}

#[test]
fn test_range_u64() {
    let range = Range { start: 5u64, end: 2 };
    let serialized = serialize(&range).unwrap();
    assert_eq!(deserialize::<Range<u64>>(&serialized).unwrap(), range);
    assert!(matches!(
        deserialize::<Range<u64>>(&serialized[..15]),
        Err(ReadError::Io(wincode::io::ReadError::ReadSizeLimit(16)))
    ));
}

#[test]
fn test_range_string() {
    let range = Range { start: "a".to_string(), end: "b".to_string() };
    let serialized = serialize(&range).unwrap();
    assert_eq!(deserialize::<Range<String>>(&serialized).unwrap(), range);
}

#[test]
fn test_range_bincode_equivalence() {
    let range = Range { start: 1u64, end: u64::MAX };
    let serialized = serialize(&range).unwrap();
    assert_eq!(serialized, bincode::serialize(&range).unwrap());
    assert_eq!(deserialize::<Range<u64>>(&serialized).unwrap(), range);
}

#[test]
fn test_range_inclusive_u64() {
    let range = RangeInclusive::new(5u64, 2);
    let serialized = serialize(&range).unwrap();
    assert_eq!(deserialize::<RangeInclusive<u64>>(&serialized).unwrap(), range);
}

#[test]
fn test_range_inclusive_string() {
    let range = RangeInclusive::new("a".to_string(), "b".to_string());
    let serialized = serialize(&range).unwrap();
    assert_eq!(deserialize::<RangeInclusive<String>>(&serialized).unwrap(), range);
}

#[test]
fn test_range_inclusive_bincode_equivalence() {
    let range = RangeInclusive::new(1u64, 9);
    let serialized = serialize(&range).unwrap();
    assert_eq!(serialized, bincode::serialize(&range).unwrap());
    assert_eq!(deserialize::<RangeInclusive<u64>>(&serialized).unwrap(), range);
}

#[test]
fn test_range_vec_u64() {
    let ranges = vec![0u64..3, 9..1];
    let serialized = serialize(&ranges).unwrap();
    assert_eq!(serialized, bincode::serialize(&ranges).unwrap());
    assert_eq!(deserialize::<Vec<Range<u64>>>(&serialized).unwrap(), ranges);
}

#[test]
fn test_range_inclusive_vec_u64() {
    let ranges = vec![0u64..=3, 9..=10];
    let serialized = serialize(&ranges).unwrap();
    assert_eq!(serialized, bincode::serialize(&ranges).unwrap());
    assert_eq!(deserialize::<Vec<RangeInclusive<u64>>>(&serialized).unwrap(), ranges);
}

#[test]
fn test_bound_vec_u64() {
    let bounds = vec![Bound::Included(1u64), Bound::Unbounded, Bound::Excluded(2)];
    let serialized = serialize(&bounds).unwrap();
    assert_eq!(serialized, bincode::serialize(&bounds).unwrap());
    assert_eq!(deserialize::<Vec<Bound<u64>>>(&serialized).unwrap(), bounds);
}

#[test]
fn test_cow_str() {
    for value in [Cow::Borrowed("borrowed"), Cow::Owned("owned".to_string())] {
        let serialized = serialize(&value).unwrap();
        assert_eq!(serialized, bincode::serialize(&value).unwrap());
        let deserialized: Cow<str> = deserialize(&serialized).unwrap();
        assert!(matches!(deserialized, Cow::Borrowed(_)));
        assert_eq!(value, deserialized);
    }
}

#[test]
fn test_cow_bytes() {
    let value: Cow<[u8]> = Cow::Borrowed(&[1, 2, 3]);
    let serialized = serialize(&value).unwrap();
    assert_eq!(serialized, bincode::serialize(&value).unwrap());
    let deserialized: Cow<[u8]> = deserialize(&serialized).unwrap();
    assert!(matches!(deserialized, Cow::Borrowed(_)));
    assert_eq!(value, deserialized);
}

#[test]
fn test_cow_bytes_owned() {
    let value: Cow<[u8]> = Cow::Owned(vec![4, 5]);
    let serialized = serialize(&value).unwrap();
    let mut reader = NoBorrowReader { inner: serialized.as_slice() };
    let deserialized =
        <Cow<[u8]> as SchemaRead<DefaultConfig>>::get(&mut reader).unwrap();
    assert!(matches!(deserialized, Cow::Owned(_)));
    assert_eq!(value, deserialized);
}

#[test]
fn test_cow_str_owned() {
    let value: Cow<str> = Cow::Borrowed("text");
    let serialized = serialize(&value).unwrap();
    let mut reader = NoBorrowReader { inner: serialized.as_slice() };
    let deserialized = <Cow<str> as SchemaRead<DefaultConfig>>::get(&mut reader).unwrap();
    assert!(matches!(deserialized, Cow::Owned(_)));
    assert_eq!(value, deserialized);
}

#[test]
fn test_string_invalid_utf8() {
    let mut serialized = serialize(&String::from("ab")).unwrap();
    // A byte that never appears in UTF-8.
    *serialized.last_mut().unwrap() = 0xFF;

    assert!(matches!(
        deserialize::<String>(&serialized),
        Err(ReadError::InvalidUtf8Encoding(_))
    ));
    assert!(matches!(
        deserialize::<&str>(&serialized),
        Err(ReadError::InvalidUtf8Encoding(_))
    ));
    let mut reader = NoBorrowReader { inner: serialized.as_slice() };
    assert!(<String as SchemaRead<DefaultConfig>>::get(&mut reader).is_err());
}

#[test]
fn test_cow_ctx() {
    let bytes = [3u8, 10, 20, 30];
    let mut reader: &[u8] = &bytes[1..];
    let borrowed = <Cow<[u8]> as SchemaReadContext<DefaultConfig, context::Len>>::get_with_context(
        context::Len(3),
        &mut reader,
    )
    .unwrap();
    assert!(matches!(borrowed, Cow::Borrowed(_)));
    assert_eq!(*borrowed, [10, 20, 30]);

    let mut reader = NoBorrowReader { inner: &bytes[1..] };
    let owned = <Cow<[u8]> as SchemaReadContext<DefaultConfig, context::Len>>::get_with_context(
        context::Len(3),
        &mut reader,
    )
    .unwrap();
    assert!(matches!(owned, Cow::Owned(_)));
    assert_eq!(borrowed, owned);
}

#[test]
fn lengths_from_context_are_not_read() {
    let mut reader: &[u8] = &[1, 0, 2, 0, 9];
    let v = <Vec<u16> as SchemaReadContext<DefaultConfig, context::Len>>::get_with_context(
        context::Len(2),
        &mut reader,
    )
    .unwrap();
    assert_eq!(v, [1, 2]);
    assert_eq!(reader, [9]);

    let mut reader: &[u8] = b"abc";
    let s = <String as SchemaReadContext<DefaultConfig, context::Len>>::get_with_context(
        context::Len(2),
        &mut reader,
    )
    .unwrap();
    assert_eq!(s, "ab");

    let mut reader: &[u8] = b"abc";
    let mut slot: Option<&str> = None;
    <&str as SchemaReadContext<DefaultConfig, context::Len>>::read_with_context(
        context::Len(3),
        &mut reader,
        &mut slot,
    )
    .unwrap();
    assert_eq!(slot, Some("abc"));
}

#[test]
fn test_bool_write_is_zero_copy_and_roundtrips() {
    assert_eq!(
        <bool as SchemaWrite<DefaultConfig>>::type_meta(),
        TypeMeta::Static { size: 1, zero_copy: true }
    );

    let v: Vec<bool> = vec![true, false, true, true, false, false, true];
    let bytes = serialize(&v).unwrap();
    assert_eq!(bytes.len() - 8, v.len());
    assert_eq!(deserialize::<Vec<bool>>(&bytes).unwrap(), v);

    let a: [bool; 5] = [true, false, false, true, true];
    let bytes = serialize(&a).unwrap();
    assert_eq!(bytes, [1, 0, 0, 1, 1]);
    assert_eq!(deserialize::<[bool; 5]>(&bytes).unwrap(), a);
}

#[test]
fn test_invalid_bool_byte_still_rejected_on_read() {
    assert_eq!(
        <bool as SchemaRead<'_, DefaultConfig>>::type_meta(),
        TypeMeta::Static { size: 1, zero_copy: false }
    );
    let mut bytes = serialize(&vec![true, false]).unwrap();
    *bytes.last_mut().unwrap() = 2;
    assert!(matches!(
        deserialize::<Vec<bool>>(&bytes),
        Err(ReadError::InvalidBoolEncoding(2))
    ));
}

#[test]
fn characters_are_utf8() {
    for c in ['a', '\u{7f}', '\u{80}', '\u{7ff}', '\u{800}', '\u{d7ff}', '\u{e000}', '\u{ffff}',
        '\u{10000}', '\u{10ffff}']
    {
        let serialized = serialize(&c).unwrap();
        assert_eq!(serialized, bincode::serialize(&c).unwrap());
        assert_eq!(serialized_size(&c).unwrap(), bincode::serialized_size(&c).unwrap());
        assert_eq!(deserialize::<char>(&serialized).unwrap(), c);
    }
    assert!(matches!(deserialize::<char>(&[0x80]), Err(ReadError::InvalidCharLead(0x80))));
    assert!(matches!(deserialize::<char>(&[0xff]), Err(ReadError::InvalidCharLead(0xff))));
    // Overlong, a surrogate, and beyond the last character.
    for bytes in [&[0xe0u8, 0x80, 0x80][..], &[0xed, 0xa0, 0x80], &[0xf4, 0x90, 0x80, 0x80]] {
        assert!(matches!(
            deserialize::<char>(bytes),
            Err(ReadError::InvalidUtf8Encoding(_))
        ));
    }
    assert!(matches!(
        deserialize::<char>(&[0xe2, 0x82]),
        Err(ReadError::Io(wincode::io::ReadError::ReadSizeLimit(2)))
    ));
}

#[test]
fn text_is_read_in_place_or_into_memory() {
    let bytes = serialize(&"héllo").unwrap();
    assert_eq!(bytes, bincode::serialize("héllo").unwrap());
    assert_eq!(bytes, serialize(&"héllo".to_string()).unwrap());
    let s: &str = deserialize(&bytes).unwrap();
    assert_eq!(s, "héllo");
    let s: String = deserialize(&bytes).unwrap();
    assert_eq!(s, "héllo");
    let mut reader = NoBorrowReader { inner: bytes.as_slice() };
    assert!(matches!(
        <&str as SchemaRead<DefaultConfig>>::get(&mut reader),
        Err(ReadError::Io(wincode::io::ReadError::UnsupportedBorrow))
    ));
}

#[test]
fn floats_keep_their_bits() {
    for x in [0.0f32, -0.0, 1.5, f32::NAN, f32::MIN_POSITIVE / 2.0] {
        let serialized = serialize(&F32Bits(x.to_bits())).unwrap();
        assert_eq!(serialized, bincode::serialize(&x).unwrap());
        assert_eq!(deserialize::<F32Bits>(&serialized).unwrap().0, x.to_bits());
    }
    for x in [0.0f64, -0.0, 1.5, f64::NAN, f64::MAX] {
        let serialized = serialize(&F64Bits(x.to_bits())).unwrap();
        assert_eq!(serialized, bincode::serialize(&x).unwrap());
        assert_eq!(deserialize::<F64Bits>(&serialized).unwrap().0, x.to_bits());
    }
}

#[test]
fn test_floats_with_custom_byte_order() {
    let c = Configuration::default().with_big_endian();
    let bincode_c = bincode::DefaultOptions::new().with_big_endian().with_fixint_encoding();
    let value = (1.25f32, -2.5f64);
    let bits = (F32Bits(value.0.to_bits()), F64Bits(value.1.to_bits()));
    let serialized = config::serialize(&bits, c).unwrap();
    assert_eq!(serialized, bincode_c.serialize(&value).unwrap());
    let back: (F32Bits, F64Bits) = config::deserialize(&serialized, c).unwrap();
    assert_eq!((f32::from_bits(back.0 .0), f64::from_bits(back.1 .0)), value);

    // A layout of integers by size leaves floats as they are.
    let v = Configuration::default().with_varint_encoding();
    assert_eq!(config::serialize(&F64Bits(1), v).unwrap(), [1, 0, 0, 0, 0, 0, 0, 0]);
}

/// What is left of `bytes` after a read of a `T` that fails.
fn left_by<T: for<'de> SchemaRead<'de, DefaultConfig>>(bytes: &[u8]) -> Vec<u8> {
    let mut reader: &[u8] = bytes;
    assert!(<T as SchemaRead<'_, DefaultConfig>>::get(&mut reader).is_err());
    reader.to_vec()
}

#[test]
fn failed_reads_take_what_they_looked_at() {
    // No byte is taken if there are too few.
    assert_eq!(left_by::<u32>(&[1, 2, 3]), [1, 2, 3]);
    assert_eq!(left_by::<(u8, u32)>(&[1, 2, 3]), [1, 2, 3]);
    // A byte that is no truth value.
    assert_eq!(left_by::<bool>(&[2, 7]), [7]);
    // A tag that is not known, with nothing of what would follow.
    assert_eq!(left_by::<IpAddr>(&[2, 0, 0, 0, 127, 0, 0, 1]), [127, 0, 0, 1]);
    assert_eq!(left_by::<SocketAddr>(&[9, 0, 0, 0, 127]), [127]);
    assert_eq!(left_by::<Option<u8>>(&[2, 1]), [1]);
    assert_eq!(left_by::<Result<u8, u8>>(&[3, 0, 0, 0, 1]), [1]);
    assert_eq!(left_by::<Bound<u8>>(&[3, 0, 0, 0, 1]), [1]);
    // A byte with which no character starts; one that lacks the bytes that follow; and bytes that
    // are no character.
    assert_eq!(left_by::<char>(&[0xff, 1, 2]), [1, 2]);
    assert_eq!(left_by::<char>(&[0xe2, 0x82]), [0x82]);
    assert_eq!(left_by::<char>(&[0xe2, 0x28, 0xa1, 5]), [5]);
    // The length of a string is taken, and its bytes if there are enough.
    assert_eq!(left_by::<String>(&[3, 0, 0, 0, 0, 0, 0, 0, 1, 2]), [1, 2]);
    assert_eq!(left_by::<String>(&[1, 0, 0, 0, 0, 0, 0, 0, 0xff, 2]), [2]);
    // A number that must not be zero, and a time that is too long.
    assert_eq!(left_by::<NonZeroU16>(&[0, 0, 1]), [1]);
    let mut long = vec![255u8; 12];
    long.push(6);
    assert_eq!(left_by::<Duration>(&long), [6]);
    // What was read of a sequence before the value that fails.
    assert_eq!(left_by::<Vec<bool>>(&[3, 0, 0, 0, 0, 0, 0, 0, 1, 2, 1]), [1]);
    assert_eq!(left_by::<Vec<u16>>(&[2, 0, 0, 0, 0, 0, 0, 0, 1, 2, 1]), [1, 2, 1]);
}
