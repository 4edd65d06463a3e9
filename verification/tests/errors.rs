use wincode::config::{self, Configuration};
use wincode::error::{
    duplicate_key, invalid_bool_encoding, invalid_char_lead, invalid_tag_encoding,
    invalid_utf8_encoding, invalid_value, pointer_sized_decode_error, preallocation_size_limit,
    read_length_encoding_overflow, tag_encoding_overflow, trailing_bytes, unaligned_pointer_read,
    write_length_encoding_overflow,
};
use wincode::len::{FixIntLen, SeqLen};
use wincode::config::DefaultConfig;
use wincode::{deserialize, io, Error, ReadError, WriteError};

#[test]
fn builders_make_the_errors_they_are_named_after() {
    assert!(matches!(unaligned_pointer_read(), ReadError::UnalignedPointerRead));
    assert!(matches!(
        ReadError::from(preallocation_size_limit(9, 8)),
        ReadError::PreallocationSizeLimit { needed: 9, limit: 8 }
    ));
    assert!(matches!(
        WriteError::from(preallocation_size_limit(9, 8)),
        WriteError::PreallocationSizeLimit { needed: 9, limit: 8 }
    ));
    assert!(matches!(
        read_length_encoding_overflow("u8::MAX"),
        ReadError::LengthEncodingOverflow("u8::MAX")
    ));
    assert!(matches!(
        write_length_encoding_overflow("u8::MAX"),
        WriteError::LengthEncodingOverflow("u8::MAX")
    ));
    assert!(matches!(pointer_sized_decode_error(), ReadError::PointerSizedReadError));
    assert!(matches!(invalid_bool_encoding(3), ReadError::InvalidBoolEncoding(3)));
    assert!(matches!(invalid_tag_encoding(4), ReadError::InvalidTagEncoding(4)));
    assert!(matches!(invalid_char_lead(0x80), ReadError::InvalidCharLead(0x80)));
    assert!(matches!(invalid_value("odd"), ReadError::InvalidValue("odd")));
    assert!(matches!(trailing_bytes(), ReadError::TrailingBytes));
    assert!(matches!(
        duplicate_key(),
        ReadError::Custom("duplicate key in keyed collection")
    ));
    assert!(matches!(
        ReadError::from(tag_encoding_overflow("u8")),
        ReadError::TagEncodingOverflow("u8")
    ));
    assert!(matches!(
        WriteError::from(tag_encoding_overflow("u8")),
        WriteError::TagEncodingOverflow("u8")
    ));
}

#[test]
fn errors_convert_upwards() {
    assert!(matches!(
        ReadError::from(io::ReadError::ReadSizeLimit(3)),
        ReadError::Io(io::ReadError::ReadSizeLimit(3))
    ));
    assert!(matches!(
        WriteError::from(io::WriteError::WriteSizeLimit(3)),
        WriteError::Io(io::WriteError::WriteSizeLimit(3))
    ));
    let bad: &[u8] = &[0xff];
    let e = std::str::from_utf8(bad).unwrap_err();
    assert!(matches!(invalid_utf8_encoding(e), ReadError::InvalidUtf8Encoding(x) if x == e));
    assert!(matches!(ReadError::from(e), ReadError::InvalidUtf8Encoding(_)));
    assert!(matches!(WriteError::from(e), WriteError::InvalidUtf8Encoding(_)));
    assert!(matches!(
        Error::from(ReadError::TrailingBytes),
        Error::ReadError(ReadError::TrailingBytes)
    ));
    assert!(matches!(
        Error::from(WriteError::Custom("no")),
        Error::WriteError(WriteError::Custom("no"))
    ));
}

#[test]
fn utf8_errors_tell_where_the_text_ends() {
    let mut bytes = wincode::serialize(&"héllo").unwrap();
    bytes[12] = 0xff;
    match deserialize::<String>(&bytes) {
        Err(ReadError::InvalidUtf8Encoding(e)) => assert_eq!(e.valid_up_to(), 4),
        other => panic!("{:?}", other),
    }
}

#[test]
fn lengths_that_do_not_fit_are_errors() {
    let c = Configuration::default().with_length_encoding::<FixIntLen<u128>>();
    let bytes = (u64::MAX as u128 + 1).to_le_bytes();
    assert!(config::deserialize::<Vec<u8>, _>(&bytes, c).is_err());
    assert!(matches!(
        <FixIntLen<u16> as SeqLen<DefaultConfig>>::write_bytes_needed(65_536),
        Err(WriteError::LengthEncodingOverflow("u16::MAX"))
    ));
    assert_eq!(<FixIntLen<u16> as SeqLen<DefaultConfig>>::write_bytes_needed(65_535).unwrap(), 2);
}
