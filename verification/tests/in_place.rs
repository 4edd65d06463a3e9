use wincode::config::DefaultConfig;
use wincode::containers;
use wincode::context;
use wincode::len::BincodeLen;
use wincode::schema::borrowed_slices::{read_mut, read_slice_len_checked, read_slice_mut};
use wincode::schema::zero_copy::{ensure_aligned, type_meta_slice, type_meta_t};
use wincode::config::{Config, Configuration};
use wincode::io::NoBorrowReader;
use wincode::{
    deserialize, serialize, Deserialize, ReadError, SchemaRead, SchemaReadContext, Serialize,
    TypeMeta, ZeroCopy,
};

fn within<T: ?Sized>(part: &T, whole: &[u8]) -> bool {
    let start = whole.as_ptr().addr();
    let p = std::ptr::from_ref(part).addr();
    p >= start && p < start + whole.len()
}

#[test]
fn test_vec_of_references_borrows_from_input() {
    for n in 0..=3usize {
        let vec: Vec<[u8; 512]> = (0..n).map(|i| [i as u8; 512]).collect();
        let bytes = serialize(&vec).unwrap();
        let borrowed: Vec<&[u8; 512]> = deserialize(&bytes).unwrap();

        assert_eq!(borrowed.len(), vec.len());
        for (i, r) in borrowed.iter().enumerate() {
            assert_eq!(**r, vec[i]);
            assert!(within(*r, &bytes));
        }
    }
}

#[test]
fn test_boxed_slice_of_references_borrows_from_input() {
    for n in 0..=3usize {
        let boxed: Box<[[u8; 512]]> = (0..n).map(|i| [i as u8; 512]).collect();
        let bytes = serialize(&boxed).unwrap();
        let borrowed: Box<[&[u8; 512]]> = deserialize(&bytes).unwrap();

        assert_eq!(borrowed.len(), boxed.len());
        for (i, &r) in borrowed.iter().enumerate() {
            assert_eq!(*r, boxed[i]);
            assert!(within(r, &bytes));
        }
    }
}

#[test]
fn test_borrowed_bytes() {
    for n in [0usize, 1, 100] {
        let bytes: Vec<u8> = (0..n).map(|i| i as u8).collect();
        let val: &[u8] = &bytes;
        let bincode_serialized = bincode::serialize(&val).unwrap();
        let schema_serialized = serialize(&val).unwrap();
        assert_eq!(bincode_serialized, schema_serialized);
        let schema_deserialized: &[u8] = deserialize(&schema_serialized).unwrap();
        assert_eq!(val, schema_deserialized);
        assert!(n == 0 || within(schema_deserialized, &schema_serialized));
    }
}

#[test]
fn slices_of_arrays_are_read_in_place() {
    let vals: &[[u8; 3]] = &[[1, 2, 3], [4, 5, 6]];
    let bytes = serialize(&vals).unwrap();
    assert_eq!(bytes, [2, 0, 0, 0, 0, 0, 0, 0, 1, 2, 3, 4, 5, 6]);
    let back: &[[u8; 3]] = deserialize(&bytes).unwrap();
    assert_eq!(back, vals);
    assert!(within(back, &bytes));

    let mut reader: &[u8] = &bytes[8..];
    let two = <&[[u8; 3]] as SchemaReadContext<DefaultConfig, context::Len>>::get_with_context(
        context::Len(2),
        &mut reader,
    )
    .unwrap();
    assert_eq!(two, vals);
    let mut reader: &[u8] = &bytes[8..];
    assert!(matches!(
        <&[[u8; 3]] as SchemaReadContext<DefaultConfig, context::Len>>::get_with_context(
            context::Len(usize::MAX),
            &mut reader,
        ),
        Err(ReadError::LengthEncodingOverflow("usize::MAX"))
    ));
    let mut reader = NoBorrowReader { inner: bytes.as_slice() };
    assert!(matches!(
        <&[u8] as SchemaRead<DefaultConfig>>::get(&mut reader),
        Err(ReadError::Io(wincode::io::ReadError::UnsupportedBorrow))
    ));
}

#[test]
fn test_zero_copy_mut_roundrip() {
    let data = [1u8; 16];
    let data_rand: [u8; 16] = std::array::from_fn(|i| i as u8 * 3);
    let mut serialized = serialize(&data).unwrap();
    let deserialized: [u8; 16] = deserialize(&serialized).unwrap();
    assert_eq!(deserialized, data);

    // Change the serialized data in place.
    {
        let ref_mut = <[u8; 16]>::from_bytes_mut(&mut serialized).unwrap();
        *ref_mut = data_rand;
    }
    // Read the same bytes again: the change is there.
    let deserialized: [u8; 16] = deserialize(&serialized).unwrap();
    assert_eq!(deserialized, data_rand);
    assert!(<[u8; 17]>::from_bytes_mut(&mut serialized).is_err());
    *u8::from_bytes_mut(&mut serialized).unwrap() = 77;
    assert_eq!(serialized[0], 77);
}

#[test]
fn test_deserialize_mut_roundrip() {
    let data = [1u8; 16];
    let data_rand: [u8; 16] = std::array::from_fn(|i| i as u8 * 3);
    let mut serialized = serialize(&(data, 9u8)).unwrap();
    let deserialized: [u8; 16] = deserialize(&serialized).unwrap();
    assert_eq!(deserialized, data);

    {
        let (ref_mut, rest) = read_mut::<[u8; 16]>(&mut serialized).unwrap();
        *ref_mut = data_rand;
        assert_eq!(rest, [9]);
        rest[0] = 8;
    }
    let deserialized: ([u8; 16], u8) = deserialize(&serialized).unwrap();
    assert_eq!(deserialized, (data_rand, 8));
    assert!(matches!(
        read_mut::<[u8; 18]>(&mut serialized),
        Err(ReadError::Io(wincode::io::ReadError::ReadSizeLimit(18)))
    ));
}

#[test]
fn slices_are_changed_in_place() {
    let mut bytes = serialize(&(vec![[1u8, 2], [3, 4]], 5u8)).unwrap();
    {
        let (vals, rest) = read_slice_mut::<[u8; 2], DefaultConfig>(&mut bytes).unwrap();
        assert_eq!(vals, [[1, 2], [3, 4]]);
        assert_eq!(rest, [5]);
        vals[1] = [30, 40];
        rest[0] = 50;
    }
    let back: (Vec<[u8; 2]>, u8) = deserialize(&bytes).unwrap();
    assert_eq!(back, (vec![[1, 2], [30, 40]], 50));
    bytes[0] = 3;
    assert!(matches!(
        read_slice_mut::<[u8; 2], DefaultConfig>(&mut bytes),
        Err(ReadError::Io(wincode::io::ReadError::ReadSizeLimit(6)))
    ));
    {
        let (vals, rest) = read_slice_mut::<u8, DefaultConfig>(&mut bytes).unwrap();
        assert_eq!(vals, [1, 2, 30]);
        assert_eq!(rest, [40, 50]);
    }
}

#[test]
fn test_zero_copy_deserialize_ref() {
    let data: [u8; 20] = std::array::from_fn(|i| i as u8);
    let serialized = serialize(&data).unwrap();
    let deserialized: [u8; 20] = deserialize(&serialized).unwrap();
    assert_eq!(deserialized, data);

    let ref_data = <[u8; 20]>::from_bytes(&serialized).unwrap();
    assert_eq!(ref_data, &data);
    assert!(within(ref_data, &serialized));
    assert!(matches!(
        <[u8; 21]>::from_bytes(&serialized),
        Err(ReadError::Io(wincode::io::ReadError::ReadSizeLimit(21)))
    ));
    assert_eq!(u8::from_bytes(&serialized).unwrap(), &0);
}

#[test]
fn references_are_not_values_of_raw_memory() {
    assert_eq!(
        type_meta_t::<[u8; 5], DefaultConfig>(),
        TypeMeta::Static { size: 5, zero_copy: false }
    );
    assert_eq!(type_meta_slice::<u8, DefaultConfig>(), TypeMeta::Dynamic);
    assert_eq!(
        <&[u8; 5] as SchemaRead<DefaultConfig>>::type_meta(),
        TypeMeta::Static { size: 5, zero_copy: false }
    );
    assert_eq!(<&[u8] as SchemaRead<DefaultConfig>>::type_meta(), TypeMeta::Dynamic);
}

#[test]
fn misaligned_references_are_errors_where_checked() {
    type C = DefaultConfig;
    assert!(matches!(ensure_aligned::<C>(6, 4), Err(ReadError::UnalignedPointerRead)));
    assert!(ensure_aligned::<C>(8, 4).is_ok());
    assert!(ensure_aligned::<C>(7, 1).is_ok());
    fn unchecked<C: Config>(_: C) -> bool {
        ensure_aligned::<C>(6, 4).is_ok()
    }
    assert!(unchecked(Configuration::default().disable_zero_copy_align_check()));
    assert!(!unchecked(
        Configuration::default().disable_zero_copy_align_check().enable_zero_copy_align_check()
    ));
}

#[test]
fn lengths_of_slices_are_counted_in_bytes() {
    let bytes = 3u64.to_le_bytes();
    let mut reader: &[u8] = &bytes;
    assert_eq!(read_slice_len_checked::<DefaultConfig, _>(&mut reader, 4).unwrap(), (3, 12));
    let bytes = u64::MAX.to_le_bytes();
    let mut reader: &[u8] = &bytes;
    assert!(matches!(
        read_slice_len_checked::<DefaultConfig, _>(&mut reader, 2),
        Err(ReadError::LengthEncodingOverflow("usize::MAX"))
    ));
}

#[test]
fn test_boxed_slice_pod_drop() {
    type Target = containers::Box<[[u8; 64]], BincodeLen>;
    let slice: Box<[[u8; 64]]> = Box::from([[7u8; 64]; 4]);
    let serialized = Target::serialize(&slice).unwrap();
    let deserialized = Target::deserialize(&serialized[..serialized.len() - 32]);
    assert!(deserialized.is_err());
}

#[test]
fn values_of_no_bytes_are_counted() {
    let mut bytes = [3u8, 0, 0, 0, 0, 0, 0, 0, 9];
    let borrowed: &[[u8; 0]] = deserialize(&bytes).unwrap();
    assert_eq!(borrowed, [[0u8; 0]; 3]);
    {
        let (vals, rest) = read_slice_mut::<[u8; 0], DefaultConfig>(&mut bytes).unwrap();
        assert_eq!(vals, [[0u8; 0]; 3]);
        assert_eq!(rest, [9]);
        rest[0] = 8;
    }
    assert_eq!(bytes, [3, 0, 0, 0, 0, 0, 0, 0, 8]);

    // However many there are, they take no memory.
    let many: &[[u8; 0]] = deserialize(&[255; 8]).unwrap();
    assert_eq!(many.len(), usize::MAX);
    let none: &[[u8; 0]] = deserialize(&[0; 8]).unwrap();
    assert!(none.is_empty());
}
