use std::collections::hash_map::RandomState;
use std::collections::{BTreeMap, BTreeSet, HashMap, HashSet, VecDeque};
use std::hash::{BuildHasher, Hasher};
use std::rc::Rc;
use std::sync::Arc;
use wincode::config::{self, Configuration, DefaultConfig};
use wincode::containers::{self, CheckUniqueKeys, FromIntoIterator, OrderedMapSeq, OrderedSetSeq};
use wincode::io::FixedBuf;
use wincode::len::{BincodeLen, FixIntLen};
use wincode::schema::containers::heap::MaxHeap;
use wincode::schema::containers::iter::{collect_from, collect_result_prealloc};
use wincode::schema::containers::list::LinkedList;
use wincode::schema::external::ordered::{OrderedMap, OrderedSet};
use wincode::{
    deserialize, deserialize_exact, serialize, serialized_size, Deserialize, ReadError,
    SchemaRead, SchemaWrite, Serialize, TypeMeta, WriteError,
};

type TestIndexMap = OrderedMap<u8, u8, RandomState>;
type TestIndexSet = OrderedSet<u8, RandomState>;

#[test]
fn test_index_map_insertion_order_roundtrip() {
    let mut map = TestIndexMap::new();
    for (k, v) in [(3u8, 30u8), (1, 10), (2, 20)] {
        assert_eq!(map.insert(k, v), None);
    }
    let serialized = serialize(&map).unwrap();
    assert_eq!(serialized, [3, 0, 0, 0, 0, 0, 0, 0, 3, 30, 1, 10, 2, 20]);
    let deserialized: TestIndexMap = deserialize(&serialized).unwrap();
    assert_eq!(
        deserialized.as_inner().keys().copied().collect::<Vec<_>>(),
        vec![3, 1, 2]
    );
    assert_eq!(deserialized.as_inner(), map.as_inner());
}

#[test]
fn test_index_set_insertion_order_roundtrip() {
    let mut set = TestIndexSet::new();
    for k in [3u8, 1, 2] {
        assert!(set.insert(k));
    }
    let serialized = serialize(&set).unwrap();
    let deserialized: TestIndexSet = deserialize(&serialized).unwrap();
    assert_eq!(
        deserialized.as_inner().iter().copied().collect::<Vec<_>>(),
        vec![3, 1, 2]
    );
    assert_eq!(deserialized.as_inner(), set.as_inner());
}

#[test]
fn ordered_maps_keep_the_place_of_the_first_and_the_value_of_the_last() {
    let mut map = TestIndexMap::new();
    map.insert(3, 30);
    map.insert(1, 10);
    assert_eq!(map.insert(3, 31), Some(30));
    let bytes = serialize(&vec![(3u8, 30u8), (1, 10), (3, 31)]).unwrap();
    let read: TestIndexMap = deserialize(&bytes).unwrap();
    assert_eq!(
        read.as_inner().iter().map(|(k, v)| (*k, *v)).collect::<Vec<_>>(),
        [(3, 31), (1, 10)]
    );
    assert_eq!(read.as_inner(), map.as_inner());
    assert!(matches!(
        <OrderedMapSeq<u8, u8, BincodeLen, CheckUniqueKeys>>::deserialize(&bytes),
        Err(ReadError::Custom(_))
    ));

    let bytes = serialize(&vec![3u8, 1, 3]).unwrap();
    let read: TestIndexSet = deserialize(&bytes).unwrap();
    assert_eq!(read.as_inner().iter().copied().collect::<Vec<_>>(), [3, 1]);
    assert!(matches!(
        <OrderedSetSeq<u8, BincodeLen, CheckUniqueKeys>>::deserialize(&bytes),
        Err(ReadError::Custom(_))
    ));
    let short = <OrderedSetSeq<u8, FixIntLen<u8>>>::serialize(&read).unwrap();
    assert_eq!(short, [2, 3, 1]);
}

#[test]
fn sequences_agree_with_bincode() {
    let vec = vec!["a".to_string(), String::new(), "ccc".to_string()];
    let bytes = bincode::serialize(&vec).unwrap();
    assert_eq!(serialize(&vec).unwrap(), bytes);
    assert_eq!(serialized_size(&vec).unwrap(), bytes.len() as u64);
    assert_eq!(deserialize::<Vec<String>>(&bytes).unwrap(), vec);

    // A ring buffer whose contents wrap around.
    let mut deque: VecDeque<u32> = VecDeque::with_capacity(4);
    for i in 0..10u32 {
        if deque.len() == 4 {
            deque.pop_front();
        }
        deque.push_back(i);
    }
    assert_eq!(serialize(&deque).unwrap(), bincode::serialize(&deque).unwrap());
    assert_eq!(
        deserialize::<VecDeque<u32>>(&serialize(&deque).unwrap()).unwrap(),
        [6, 7, 8, 9]
    );

    let boxed: Box<[u16]> = Box::from([1u16, 2, 3]);
    let bytes = serialize(&boxed).unwrap();
    assert_eq!(bytes, bincode::serialize(&boxed).unwrap());
    assert_eq!(deserialize::<Box<[u16]>>(&bytes).unwrap(), boxed);
    let rc: Rc<[u16]> = deserialize(&bytes).unwrap();
    assert_eq!(*rc, [1, 2, 3]);
    assert_eq!(serialize(&rc).unwrap(), bytes);
    let arc: Arc<[u16]> = deserialize(&bytes).unwrap();
    assert_eq!(*arc, [1, 2, 3]);
    assert_eq!(serialize(&arc).unwrap(), bytes);

    let array = [[1u8, 2], [3, 4]];
    assert_eq!(serialize(&array).unwrap(), [1, 2, 3, 4]);
    assert_eq!(deserialize::<[[u8; 2]; 2]>(&[1, 2, 3, 4]).unwrap(), array);
    assert_eq!(
        <[[u8; 2]; 2] as SchemaRead<'_, DefaultConfig>>::type_meta(),
        TypeMeta::Static { size: 4, zero_copy: true }
    );
}

#[test]
fn boxed_containers_choose_the_length() {
    type Short<T> = containers::Box<[T], FixIntLen<u8>>;
    let boxed: Box<[u16]> = Box::from([1u16, 2]);
    let bytes = Short::<u16>::serialize(&boxed).unwrap();
    assert_eq!(bytes, [2, 1, 0, 2, 0]);
    assert_eq!(Short::<u16>::deserialize(&bytes).unwrap(), boxed);
    let rc = <containers::Rc<[u16], FixIntLen<u8>>>::deserialize(&bytes).unwrap();
    assert_eq!(*rc, [1, 2]);
    let arc = <containers::Arc<[u16], FixIntLen<u8>>>::deserialize(&bytes).unwrap();
    assert_eq!(*arc, [1, 2]);
    let v = <containers::Vec<u16, FixIntLen<u8>>>::deserialize(&bytes).unwrap();
    assert_eq!(v, [1, 2]);
    let d = <containers::VecDeque<u16, FixIntLen<u8>>>::deserialize(&bytes).unwrap();
    assert_eq!(d, [1, 2]);
}

#[test]
fn maps_and_sets_agree_with_bincode() {
    let map = BTreeMap::from([(2u32, "two".to_string()), (1, "one".to_string())]);
    let bytes = serialize(&map).unwrap();
    assert_eq!(bytes, bincode::serialize(&map).unwrap());
    assert_eq!(serialized_size(&map).unwrap(), bytes.len() as u64);
    assert_eq!(deserialize::<BTreeMap<u32, String>>(&bytes).unwrap(), map);
    let hash: HashMap<u32, String> = deserialize(&bytes).unwrap();
    assert_eq!(hash.len(), 2);
    assert_eq!(hash[&2], "two");
    assert_eq!(deserialize::<HashMap<u32, String>>(&serialize(&hash).unwrap()).unwrap(), hash);

    let set = BTreeSet::from([5u8, 3, 4]);
    let bytes = serialize(&set).unwrap();
    assert_eq!(bytes, bincode::serialize(&set).unwrap());
    assert_eq!(bytes[8..], [3, 4, 5]);
    assert_eq!(deserialize::<HashSet<u8>>(&bytes).unwrap(), HashSet::from([3, 4, 5]));

    // The last of the entries with one key stays.
    let bytes = serialize(&vec![(1u8, 1u8), (2, 2), (1, 3)]).unwrap();
    assert_eq!(
        deserialize::<BTreeMap<u8, u8>>(&bytes).unwrap(),
        BTreeMap::from([(1, 3), (2, 2)])
    );
}

#[test]
fn heaps_read_back_as_heaps() {
    let bytes = serialize(&vec![2u32, 9, 4, 9, 1]).unwrap();
    let heap: MaxHeap<u32> = deserialize(&bytes).unwrap();
    assert_eq!(heap.len(), 5);
    assert_eq!(heap.peek(), Some(&9));
    let items = heap.as_slice();
    for i in 1..items.len() {
        assert!(items[i] <= items[(i - 1) / 2]);
    }
    let mut sorted = items.to_vec();
    sorted.sort();
    assert_eq!(sorted, [1, 2, 4, 9, 9]);
    // It is laid out as its items are in memory.
    assert_eq!(serialize(&heap).unwrap(), serialize(&items.to_vec()).unwrap());
    let short = <containers::BinaryHeap<u32, FixIntLen<u16>>>::serialize(&heap).unwrap();
    assert_eq!(short[..2], [5, 0]);
    assert_eq!(short[2..], serialize(&heap).unwrap()[8..]);
    assert_eq!(MaxHeap::<u8>::new().peek(), None);
}

#[test]
fn lists_keep_their_order() {
    let mut list = LinkedList::new();
    for i in [3u16, 1, 2] {
        list.push_back(i);
    }
    let bytes = serialize(&list).unwrap();
    assert_eq!(bytes, serialize(&vec![3u16, 1, 2]).unwrap());
    let mut back: LinkedList<u16> = deserialize(&bytes).unwrap();
    assert_eq!(back.len(), 3);
    assert_eq!(back.pop_front(), Some(3));
    assert_eq!(back.pop_front(), Some(1));
    assert_eq!(back.pop_front(), Some(2));
    assert_eq!(back.pop_front(), None);
}

#[test]
fn collections_of_any_kind_are_walked_and_gathered() {
    type Coll = FromIntoIterator<VecDeque<u16>, BincodeLen>;
    let deque = VecDeque::from([7u16, 8]);
    let bytes = Coll::serialize(&deque).unwrap();
    assert_eq!(bytes, serialize(&vec![7u16, 8]).unwrap());
    assert_eq!(<Coll as SchemaWrite<DefaultConfig>>::size_of(&deque).unwrap(), 12);
    assert_eq!(Coll::deserialize(&bytes).unwrap(), deque);
    assert!(Coll::deserialize(&bytes[..11]).is_err());
    type Vecs = FromIntoIterator<Vec<u16>, FixIntLen<u8>>;
    assert_eq!(Vecs::deserialize(&[1, 5, 0]).unwrap(), [5]);
}

#[test]
fn maps_and_sets_are_walked_and_gathered() {
    type Sets = FromIntoIterator<BTreeSet<u16>, FixIntLen<u8>>;
    let set = BTreeSet::from([9u16, 7, 8]);
    let bytes = Sets::serialize(&set).unwrap();
    assert_eq!(bytes, [3, 7, 0, 8, 0, 9, 0]);
    assert_eq!(<Sets as SchemaWrite<DefaultConfig>>::size_of(&set).unwrap(), 7);
    assert_eq!(Sets::deserialize(&bytes).unwrap(), set);
    // An element that comes twice is kept once.
    assert_eq!(Sets::deserialize(&[2, 7, 0, 7, 0]).unwrap(), BTreeSet::from([7]));

    type Maps = FromIntoIterator<BTreeMap<u8, u16>, FixIntLen<u8>>;
    let map = BTreeMap::from([(2u8, 20u16), (1, 10)]);
    let bytes = Maps::serialize(&map).unwrap();
    assert_eq!(bytes, [2, 1, 10, 0, 2, 20, 0]);
    assert_eq!(<Maps as SchemaWrite<DefaultConfig>>::size_of(&map).unwrap(), 7);
    assert_eq!(Maps::deserialize(&bytes).unwrap(), map);
    // Of two entries with one key the later stays.
    assert_eq!(
        Maps::deserialize(&[2, 1, 10, 0, 1, 11, 0]).unwrap(),
        BTreeMap::from([(1, 11)])
    );
    assert!(matches!(Maps::deserialize(&bytes[..6]), Err(ReadError::Io(_))));

    type Hashes = FromIntoIterator<HashSet<u64>, BincodeLen>;
    let set = HashSet::from([1u64, 2, 3]);
    let bytes = Hashes::serialize(&set).unwrap();
    assert_eq!(bytes, serialize(&set).unwrap());
    assert_eq!(Hashes::deserialize(&bytes).unwrap(), set);

    type Ordered = FromIntoIterator<TestIndexMap, FixIntLen<u8>>;
    let mut map = TestIndexMap::new();
    map.insert(3, 30);
    map.insert(1, 10);
    let bytes = Ordered::serialize(&map).unwrap();
    assert_eq!(bytes, [2, 3, 30, 1, 10]);
    let back = Ordered::deserialize(&[3, 3, 30, 1, 10, 3, 31]).unwrap();
    assert_eq!(
        back.as_inner().iter().map(|(k, v)| (*k, *v)).collect::<Vec<_>>(),
        [(3, 31), (1, 10)]
    );

    type OrderedElems = FromIntoIterator<TestIndexSet, FixIntLen<u8>>;
    let mut set = TestIndexSet::new();
    set.insert(5);
    set.insert(4);
    let bytes = OrderedElems::serialize(&set).unwrap();
    assert_eq!(bytes, [2, 5, 4]);
    let back = OrderedElems::deserialize(&[3, 5, 4, 5]).unwrap();
    assert_eq!(back.as_inner().iter().copied().collect::<Vec<_>>(), [5, 4]);
}

#[test]
fn lists_and_heaps_are_walked_and_gathered() {
    type Lists = FromIntoIterator<LinkedList<u16>, FixIntLen<u8>>;
    let mut list = LinkedList::new();
    list.push_back(2u16);
    list.push_back(1);
    let bytes = Lists::serialize(&list).unwrap();
    assert_eq!(bytes, [2, 2, 0, 1, 0]);
    let mut back = Lists::deserialize(&bytes).unwrap();
    assert_eq!((back.pop_front(), back.pop_front(), back.pop_front()), (Some(2), Some(1), None));

    type Heaps = FromIntoIterator<MaxHeap<u8>, FixIntLen<u8>>;
    let heap = MaxHeap::from_vec(vec![1u8, 3, 2]);
    let bytes = Heaps::serialize(&heap).unwrap();
    assert_eq!(bytes[..2], [3, 3]);
    let back = Heaps::deserialize(&[3, 1, 2, 3]).unwrap();
    assert_eq!((back.len(), back.peek()), (3, Some(&3)));
}

/// A hasher that adds up the bytes.
#[derive(Default)]
struct SumHasher(u64);

impl BuildHasher for SumHasher {
    type Hasher = Self;

    fn build_hasher(&self) -> Self::Hasher {
        Self(0)
    }
}

impl Hasher for SumHasher {
    fn finish(&self) -> u64 {
        self.0
    }

    fn write(&mut self, bytes: &[u8]) {
        self.0 += bytes.iter().map(|b| *b as u64).sum::<u64>();
    }
}

type TestMap = HashMap<String, HashSet<u32, SumHasher>, SumHasher>;
type RegularMap = HashMap<String, HashSet<u32>>;

fn hasher_cases() -> Vec<Vec<(&'static str, Vec<u32>)>> {
    vec![
        vec![],
        vec![("", vec![])],
        vec![("key", vec![0, 1, u32::MAX])],
        // The sums of the bytes are alike.
        vec![("ab", vec![1, 256]), ("ba", vec![2, 512, 65536]), ("c", vec![])],
        vec![("\u{e9}\u{1f600}", vec![7]), ("x", vec![7]), ("xx", vec![8, 9]), ("y", vec![7])],
    ]
}

#[test]
fn test_sequences_with_hasher() {
    for case in hasher_cases() {
        let test_data: TestMap = case
            .into_iter()
            .map(|(k, v)| (k.to_string(), HashSet::from_iter(v)))
            .collect();
        let wincode_serialized = serialize(&test_data).unwrap();
        let bincode_serialized = bincode::serialize(&test_data).unwrap();
        assert_eq!(wincode_serialized, bincode_serialized);

        let wincode_deserialized: TestMap = deserialize(&wincode_serialized).unwrap();
        let bincode_deserialized: TestMap = bincode::deserialize(&bincode_serialized).unwrap();
        assert_eq!(test_data, wincode_deserialized);
        assert_eq!(wincode_deserialized, bincode_deserialized);

        type TestMapSeq = FromIntoIterator<TestMap, BincodeLen>;
        let test_seq_serialized = TestMapSeq::serialize(&test_data).unwrap();
        assert_eq!(test_seq_serialized, wincode_serialized);
        let test_seq_deserialized = TestMapSeq::deserialize(&test_seq_serialized).unwrap();
        assert_eq!(test_data, test_seq_deserialized);

        let regular_deserialized: RegularMap = deserialize(&wincode_serialized).unwrap();
        let regular_serialized = serialize(&regular_deserialized).unwrap();
        let test_deserialized: TestMap = deserialize(&regular_serialized).unwrap();
        assert_eq!(test_data, test_deserialized);

        type RegularMapSeq = FromIntoIterator<RegularMap, BincodeLen>;
        let regular_seq_serialized = RegularMapSeq::serialize(&regular_deserialized).unwrap();
        assert_eq!(regular_serialized, regular_seq_serialized);
        let regular_seq_deserialized =
            RegularMapSeq::deserialize(&regular_seq_serialized).unwrap();
        assert_eq!(regular_deserialized, regular_seq_deserialized);
    }
}

#[test]
fn iterators_are_written_as_they_go() {
    let squares = [0u64, 1, 4, 9, 16, 25];
    let mut bytes: Vec<u8> = Vec::new();
    containers::encode_from_iter_prealloc_check::<u64, BincodeLen, DefaultConfig, _, _, _>(
        &mut bytes,
        6,
        (0u64..6).map(|i| i * i),
    )
    .unwrap();
    assert_eq!(bytes, serialize(&squares.to_vec()).unwrap());
    assert_eq!(deserialize::<Vec<u64>>(&bytes).unwrap(), squares);

    // Fewer items than announced are an error.
    let mut bytes: Vec<u8> = Vec::new();
    assert!(containers::encode_from_iter::<u64, BincodeLen, DefaultConfig, _, _, _>(
        &mut bytes,
        3,
        squares[..2].iter(),
    )
    .is_err());

    // Without the check a sequence can be written that is refused on read-back.
    let c = Configuration::default().with_preallocation_size_limit::<8>();
    fn write<C: config::Config>(_: C, check: bool, out: &mut Vec<u8>) -> Result<(), WriteError> {
        let two = [1u64, 2];
        if check {
            containers::encode_from_iter_prealloc_check::<u64, BincodeLen, C, _, _, _>(
                out,
                2,
                two.iter(),
            )
        } else {
            containers::encode_from_iter::<u64, BincodeLen, C, _, _, _>(out, 2, two.iter())
        }
    }
    let mut bytes: Vec<u8> = Vec::new();
    assert!(matches!(
        write(c, true, &mut bytes),
        Err(WriteError::PreallocationSizeLimit { needed: 16, limit: 8 })
    ));
    assert!(bytes.is_empty());
    write(c, false, &mut bytes).unwrap();
    assert_eq!(bytes, serialize(&vec![1u64, 2]).unwrap());
    assert!(matches!(
        config::deserialize::<Vec<u64>, _>(&bytes, c),
        Err(ReadError::PreallocationSizeLimit { needed: 16, limit: 8 })
    ));
}

#[test]
fn results_are_collected_up_to_the_first_error() {
    let good: Result<Vec<u8>, &str> = collect_result_prealloc(vec![Ok(1u8), Ok(2)].into_iter());
    assert_eq!(good, Ok(vec![1, 2]));
    let bad: Result<Vec<u8>, &str> =
        collect_result_prealloc(vec![Ok(1u8), Err("first"), Ok(2), Err("second")].into_iter());
    assert_eq!(bad, Err("first"));

    let set: Result<BTreeSet<u8>, &str> =
        collect_result_prealloc(vec![Ok(2u8), Ok(1), Ok(2)].into_iter());
    assert_eq!(set, Ok(BTreeSet::from([1, 2])));
    let map: Result<HashMap<u8, char>, &str> =
        collect_result_prealloc(vec![Ok((1u8, 'a')), Ok((2, 'b')), Ok((1, 'c'))].into_iter());
    assert_eq!(map, Ok(HashMap::from([(1, 'c'), (2, 'b')])));
}

#[test]
fn nothing_is_pulled_behind_the_first_error() {
    let mut results = vec![Ok(1u8), Err("first"), Ok(2), Err("second")].into_iter();
    let bad: Result<Vec<u8>, &str> = collect_from(&mut results);
    assert_eq!(bad, Err("first"));
    assert_eq!(results.next(), Some(Ok(2)));
    assert_eq!(results.next(), Some(Err("second")));
    assert_eq!(results.next(), None);

    let mut results = vec![Ok::<u8, &str>(1), Ok(2)].into_iter();
    let good: Result<VecDeque<u8>, &str> = collect_from(&mut results);
    assert_eq!(good, Ok(VecDeque::from([1, 2])));
    assert_eq!(results.next(), None);
}

#[test]
fn decoding_into_a_vector_appends() {
    let data = [1u64, 2, 3, 4, 5, 6];
    let serialized = serialize(&data).unwrap();

    let mut dst: Vec<u64> = vec![0];
    let mut reader: &[u8] = &serialized;
    containers::decode_into_slice_t::<u64, DefaultConfig, _>(&mut reader, 6, &mut dst).unwrap();
    assert_eq!(dst, [0, 1, 2, 3, 4, 5, 6]);

    // Only six elements were serialized.
    let mut dst: Vec<u64> = Vec::new();
    let mut reader: &[u8] = &serialized;
    assert!(
        containers::decode_into_slice_t::<u64, DefaultConfig, _>(&mut reader, 7, &mut dst).is_err()
    );
    assert!(dst.is_empty());
}

#[test]
fn truncated_sequences_are_errors() {
    let bytes = serialize(&vec![1u32, 2, 3]).unwrap();
    for n in 0..bytes.len() {
        assert!(deserialize::<Vec<u32>>(&bytes[..n]).is_err());
    }
    // Elements of one size are known to be missing before any is read.
    assert!(matches!(
        deserialize::<Vec<u32>>(&bytes[..19]),
        Err(ReadError::Io(wincode::io::ReadError::ReadSizeLimit(12)))
    ));
    assert!(deserialize_exact::<Vec<u32>>(&bytes).is_ok());
}

#[test]
fn writers_without_room_are_errors() {
    let value = vec![1u32, 2, 3];
    let mut buf = FixedBuf::new(20);
    wincode::serialize_into(&mut buf, &value).unwrap();
    assert_eq!(buf.bytes, serialize(&value).unwrap());
    let mut buf = FixedBuf::new(19);
    assert!(matches!(
        wincode::serialize_into(&mut buf, &value),
        Err(WriteError::Io(wincode::io::WriteError::WriteSizeLimit(_)))
    ));
}

#[test]
fn pointers_leave_no_trace() {
    let bytes = serialize(&7u32).unwrap();
    assert_eq!(serialize(&Box::new(7u32)).unwrap(), bytes);
    assert_eq!(serialize(&Rc::new(7u32)).unwrap(), bytes);
    assert_eq!(serialize(&Arc::new(7u32)).unwrap(), bytes);
    assert_eq!(serialize(&&7u32).unwrap(), bytes);
    assert_eq!(*deserialize::<Box<u32>>(&bytes).unwrap(), 7);
    assert_eq!(*deserialize::<Rc<u32>>(&bytes).unwrap(), 7);
    assert_eq!(*deserialize::<Arc<u32>>(&bytes).unwrap(), 7);
}
