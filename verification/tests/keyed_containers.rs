use std::collections::{BTreeMap, BTreeSet, HashMap, HashSet};
use wincode::config::DefaultConfig;
use wincode::containers::{self, CheckUniqueKeys};
use wincode::len::{BincodeLen, UseIntLen};
use wincode::{deserialize, serialize, Deserialize, ReadError, SchemaRead, Serialize};

fn dup_key_map_bytes() -> Vec<u8> {
    serialize(&vec![(1u32, 10u64), (1, 20)]).unwrap()
}

fn dup_elem_set_bytes() -> Vec<u8> {
    serialize(&vec![7u32, 7]).unwrap()
}

#[test]
fn allows_duplicates_by_default() {
    let bytes = dup_key_map_bytes();

    let plain: HashMap<u32, u64> = deserialize(&bytes).unwrap();
    let loose = <containers::HashMap<u32, u64, BincodeLen>>::deserialize(&bytes).unwrap();
    assert_eq!(loose, HashMap::from([(1, 20)]));
    assert_eq!(loose, plain);

    let bytes = dup_elem_set_bytes();
    let plain: HashSet<u32> = deserialize(&bytes).unwrap();
    let loose = <containers::HashSet<u32, BincodeLen>>::deserialize(&bytes).unwrap();
    assert_eq!(loose, HashSet::from([7]));
    assert_eq!(loose, plain);
}

#[test]
fn strict_maps_reject_duplicate_keys() {
    let bytes = dup_key_map_bytes();

    assert!(matches!(
        <containers::HashMap<u32, u64, BincodeLen, CheckUniqueKeys>>::deserialize(&bytes),
        Err(ReadError::Custom(_)),
    ));
    assert!(matches!(
        <containers::BTreeMap<u32, u64, BincodeLen, CheckUniqueKeys>>::deserialize(&bytes),
        Err(ReadError::Custom(_)),
    ));
}

#[test]
fn strict_sets_reject_duplicate_elements() {
    let bytes = dup_elem_set_bytes();

    assert!(matches!(
        <containers::HashSet<u32, BincodeLen, CheckUniqueKeys>>::deserialize(&bytes),
        Err(ReadError::Custom(_)),
    ));
    assert!(matches!(
        <containers::BTreeSet<u32, BincodeLen, CheckUniqueKeys>>::deserialize(&bytes),
        Err(ReadError::Custom(_)),
    ));
}

#[test]
fn strict_decoding_accepts_unique_keys() {
    let map = BTreeMap::from([(1u32, 10u64), (2, 20), (3, 30)]);
    let bytes = serialize(&map).unwrap();
    let strict =
        <containers::BTreeMap<u32, u64, BincodeLen, CheckUniqueKeys>>::deserialize(&bytes)
            .unwrap();
    assert_eq!(strict, map);

    let set = BTreeSet::from([1u32, 2, 3]);
    let bytes = serialize(&set).unwrap();
    let strict =
        <containers::BTreeSet<u32, BincodeLen, CheckUniqueKeys>>::deserialize(&bytes).unwrap();
    assert_eq!(strict, set);
}

/// Elements of static size are checked to be there before any is read, others are not, so the
/// check of keys has to hold either way.
#[test]
fn strict_decoding_covers_dynamically_sized_keys() {
    let bytes = serialize(&vec![("a".to_string(), 1u64), ("a".to_string(), 2)]).unwrap();
    assert!(matches!(
        <containers::BTreeMap<String, u64, BincodeLen, CheckUniqueKeys>>::deserialize(&bytes),
        Err(ReadError::Custom(_)),
    ));

    let bytes = serialize(&vec!["a".to_string(), "a".to_string()]).unwrap();
    assert!(matches!(
        <containers::BTreeSet<String, BincodeLen, CheckUniqueKeys>>::deserialize(&bytes),
        Err(ReadError::Custom(_)),
    ));
}

#[test]
fn keyed_containers_encode_like_the_plain_schemas() {
    let map = BTreeMap::from([(1u32, 10u64), (2, 20)]);
    let container = <containers::BTreeMap<u32, u64, BincodeLen>>::serialize(&map).unwrap();
    assert_eq!(container, serialize(&map).unwrap());
    assert_eq!(container, bincode::serialize(&map).unwrap());

    let set = BTreeSet::from([1u32, 2]);
    let container = <containers::BTreeSet<u32, BincodeLen>>::serialize(&set).unwrap();
    assert_eq!(container, serialize(&set).unwrap());
    assert_eq!(container, bincode::serialize(&set).unwrap());
}

#[test]
fn keyed_containers_customize_the_length_encoding() {
    type ShortMap = containers::BTreeMap<u32, u64, UseIntLen<u16>>;

    let map = BTreeMap::from([(1u32, 10u64), (2, 20)]);
    let bytes = ShortMap::serialize(&map).unwrap();
    assert_eq!(
        bytes.len(),
        size_of::<u16>() + map.len() * (size_of::<u32>() + size_of::<u64>()),
    );
    assert_eq!(ShortMap::deserialize(&bytes).unwrap(), map);

    // A length of two bytes is not one of eight.
    assert!(<containers::BTreeMap<u32, u64, BincodeLen>>::deserialize(&bytes).is_err());
}

#[test]
fn a_repeated_key_ends_the_read_where_it_stands() {
    let bytes = serialize(&vec![(1u32, 10u8), (1, 20), (2, 30)]).unwrap();
    let mut reader: &[u8] = &bytes;
    let r = <containers::BTreeMap<u32, u8, BincodeLen, CheckUniqueKeys> as SchemaRead<
        '_,
        DefaultConfig,
    >>::get(&mut reader);
    assert!(matches!(r, Err(ReadError::Custom(_))));
    assert_eq!(reader, [2, 0, 0, 0, 30]);
}
