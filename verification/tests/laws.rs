use std::borrow::Cow;
use std::collections::{BTreeMap, HashMap};
use wincode::config::{self, Configuration, DefaultConfig};
use wincode::containers::{self, CheckUniqueKeys};
use wincode::len::BincodeLen;
use wincode::schema::byte_order::{uint_from_bytes, uint_to_bytes};
use wincode::{
    deserialize, deserialize_exact, serialize, serialized_size, Deserialize, ReadError, SchemaRead,
    SchemaWrite, Serialize, TypeMeta,
};

#[test]
fn serialized_values_are_given_back() {
    let value = (vec![Some(1u16), None], ("text".to_string(), [true, false]));
    let bytes = serialize(&value).unwrap();
    let back: (Vec<Option<u16>>, (String, [bool; 2])) = deserialize_exact(&bytes).unwrap();
    assert_eq!(back, value);
}

#[test]
fn what_follows_a_value_is_left() {
    let mut bytes = serialize(&"abc").unwrap();
    bytes.extend([1, 2, 3]);
    let mut reader: &[u8] = &bytes;
    assert_eq!(<String as SchemaRead<DefaultConfig>>::get(&mut reader).unwrap(), "abc");
    assert_eq!(reader, [1, 2, 3]);
}

#[test]
fn no_value_is_written_as_the_beginning_of_another() {
    let values = [vec![], vec![0u8], vec![0, 0], vec![1]];
    for a in &values {
        for b in &values {
            let (x, y) = (serialize(a).unwrap(), serialize(b).unwrap());
            assert_eq!(a == b, y.starts_with(&x));
        }
    }
}

#[test]
fn sizes_are_numbers_of_bytes() {
    let c = Configuration::default().with_varint_encoding();
    for v in [0u64, 250, 251, 65_536, u64::MAX] {
        assert_eq!(
            config::serialized_size(&v, c).unwrap(),
            config::serialize(&v, c).unwrap().len() as u64
        );
        assert_eq!(serialized_size(&v).unwrap(), 8);
    }
    assert_eq!(config::serialize(&250u64, c).unwrap(), [250]);
    assert_eq!(config::serialize(&251u64, c).unwrap(), [251, 251, 0]);
    assert_eq!(config::serialize(&-1i32, c).unwrap(), [1]);
}

#[test]
fn static_sizes_are_exact() {
    let meta = <(u32, [u16; 3]) as SchemaWrite<DefaultConfig>>::type_meta();
    assert_eq!(meta, TypeMeta::Static { size: 10, zero_copy: false });
    assert_eq!(serialize(&(1u32, [2u16, 3, 4])).unwrap().len(), 10);
}

#[test]
fn limits_bound_what_is_read() {
    let bytes = serialize(&(1u32, 2u32)).unwrap();
    let low = Configuration::default().with_deserialization_size_limit::<7>();
    assert!(config::deserialize::<(u32, u32), _>(&bytes, low).is_err());
    let ample = Configuration::default().with_deserialization_size_limit::<8>();
    assert_eq!(config::deserialize::<(u32, u32), _>(&bytes, ample).unwrap(), (1, 2));
}

#[test]
fn byte_orders_mirror_each_other() {
    let little = uint_to_bytes(0x0102_0304, 4, false);
    let mut big = uint_to_bytes(0x0102_0304, 4, true);
    assert_eq!(little, [4, 3, 2, 1]);
    assert_eq!(uint_from_bytes(&little, false), 0x0102_0304);
    assert_eq!(uint_from_bytes(&big, true), 0x0102_0304);
    big.reverse();
    assert_eq!(little, big);
}

#[test]
fn last_entries_win_unless_keys_are_checked() {
    let bytes = serialize(&vec![(1u8, 10u8), (2, 20), (1, 30)]).unwrap();
    let map: HashMap<u8, u8> = deserialize(&bytes).unwrap();
    assert_eq!(map, HashMap::from([(1, 30), (2, 20)]));
    type Strict = containers::HashMap<u8, u8, BincodeLen, CheckUniqueKeys>;
    assert!(matches!(
        Strict::deserialize(&bytes),
        Err(ReadError::Custom("duplicate key in keyed collection"))
    ));
    let bytes = serialize(&vec![(1u8, 10u8), (2, 20)]).unwrap();
    assert_eq!(Strict::deserialize(&bytes).unwrap(), HashMap::from([(1, 10), (2, 20)]));
}

#[test]
fn text_in_place_is_the_text() {
    let bytes = serialize(&"text").unwrap();
    let a: &str = deserialize(&bytes).unwrap();
    let b: String = deserialize(&bytes).unwrap();
    let c: Cow<str> = deserialize(&bytes).unwrap();
    assert_eq!(a, b);
    assert_eq!(a, c);
}

#[test]
fn containers_encode_like_plain_collections() {
    let v = vec![1u32, 2];
    assert_eq!(
        <containers::Vec<u32, BincodeLen>>::serialize(&v).unwrap(),
        serialize(&v).unwrap()
    );
    let m = BTreeMap::from([(1u32, 2u8)]);
    assert_eq!(
        <containers::BTreeMap<u32, u8, BincodeLen, CheckUniqueKeys>>::serialize(&m).unwrap(),
        serialize(&m).unwrap()
    );
}

#[test]
fn joined_metas_add_up() {
    let four = TypeMeta::Static { size: 4, zero_copy: true };
    let one = TypeMeta::Static { size: 1, zero_copy: false };
    assert_eq!(
        TypeMeta::join_types([four, one]),
        TypeMeta::Static { size: 5, zero_copy: false }
    );
    assert_eq!(
        TypeMeta::join_types([four, four]),
        TypeMeta::Static { size: 8, zero_copy: true }
    );
    assert_eq!(TypeMeta::join_types([four, TypeMeta::Dynamic]), TypeMeta::Dynamic);
    assert_eq!(TypeMeta::join_types::<0>([]), TypeMeta::Static { size: 0, zero_copy: true });
    assert_eq!(
        TypeMeta::join_types([TypeMeta::join_types([four, one]), four]),
        TypeMeta::join_types([four, TypeMeta::join_types([one, four])])
    );
    assert_eq!(four.keep_zero_copy(false), TypeMeta::Static { size: 4, zero_copy: false });
    assert_eq!(one.keep_zero_copy(true), one);
    assert_eq!(four.size_assert_zero_copy(), 4);
    assert_eq!(one.size_assert_static(), 1);
}
