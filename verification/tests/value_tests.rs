use device_tree_parser::value::{decode_u32_array, parse_as_strings, parse_property_value};
use device_tree_parser::{DtbError, PropertyValue};

#[test]
fn four_bytes_that_are_not_text_are_one_integer() {
    assert_eq!(
        parse_property_value(&[0x12, 0x34, 0x56, 0x78]),
        PropertyValue::U32(0x1234_5678)
    );
    assert_eq!(parse_property_value(&[0xff, 0xff, 0xff, 0xff]), PropertyValue::U32(u32::MAX));
    assert_eq!(parse_property_value(&[0, 0, 0, 1]), PropertyValue::U32(1));
    assert_eq!(parse_property_value(&[0x80, 0, 0, 0]), PropertyValue::U32(0x8000_0000));
}

#[test]
fn text_wins_over_numbers() {
    assert_eq!(parse_property_value(b"hello\0\0\0"), PropertyValue::String("hello"));
    assert_eq!(parse_property_value(b"abcd"), PropertyValue::String("abcd"));
    assert_eq!(parse_property_value(b"abcdefgh"), PropertyValue::String("abcdefgh"));
    assert_eq!(parse_property_value(b"ok\0\0"), PropertyValue::String("ok"));
    assert_eq!(parse_property_value(&[0, 0, 0, 0x2a]), PropertyValue::String("*"));
    assert_eq!(
        parse_property_value(b"a\tb\nc\rd\0"),
        PropertyValue::String("a\tb\nc\rd")
    );
}

#[test]
fn text_is_split_at_every_nul() {
    assert_eq!(
        parse_property_value(b"one\0two\0"),
        PropertyValue::StringList(vec!["one", "two"])
    );
    assert_eq!(
        parse_property_value(b"one\0two"),
        PropertyValue::StringList(vec!["one", "two"])
    );
    assert_eq!(
        parse_property_value(b"\0one\0\0two\0\0three"),
        PropertyValue::StringList(vec!["one", "two", "three"])
    );
    assert_eq!(parse_property_value(b"tail"), PropertyValue::String("tail"));
}

#[test]
fn nothing_but_nuls_is_empty() {
    assert_eq!(parse_property_value(&[]), PropertyValue::Empty);
    assert_eq!(parse_property_value(&[0]), PropertyValue::Empty);
    assert_eq!(parse_property_value(&[0, 0, 0, 0]), PropertyValue::Empty);
    assert_eq!(parse_property_value(&[0; 8]), PropertyValue::Empty);
}

#[test]
fn longer_multiples_of_four_are_integer_arrays() {
    let eight = [0u8, 0, 0, 1, 0, 0, 0, 2];
    assert_eq!(parse_property_value(&eight), PropertyValue::U32Array(&eight));
    let twelve = [1u8, 0, 0, 0, 2, 0, 0, 0, 3, 0, 0, 0];
    assert_eq!(parse_property_value(&twelve), PropertyValue::U32Array(&twelve));
    let sixteen = [0x80u8; 16];
    assert_eq!(parse_property_value(&sixteen), PropertyValue::U32Array(&sixteen));
}

#[test]
fn eight_bytes_are_never_read_as_one_wide_integer() {
    let payload = [0x01u8, 0x23, 0x45, 0x67, 0x89, 0xab, 0xcd, 0xef];
    let value = parse_property_value(&payload);
    assert_eq!(value, PropertyValue::U32Array(&payload));
    assert_ne!(value, PropertyValue::U64(0x0123_4567_89ab_cdef));
    assert_ne!(value, PropertyValue::U64Array(&payload));
}

#[test]
fn everything_else_is_raw_bytes() {
    assert_eq!(parse_property_value(&[1]), PropertyValue::Bytes(&[1]));
    assert_eq!(parse_property_value(&[1, 2, 3]), PropertyValue::Bytes(&[1, 2, 3]));
    assert_eq!(
        parse_property_value(&[0x61, 0x62, 0x7f, 0x63, 0x00]),
        PropertyValue::Bytes(&[0x61, 0x62, 0x7f, 0x63, 0x00])
    );
    assert_eq!(
        parse_property_value(&[0x52, 0x54, 0x00, 0x12, 0x34, 0x56]),
        PropertyValue::Bytes(&[0x52, 0x54, 0x00, 0x12, 0x34, 0x56])
    );
}

#[test]
fn text_bytes_are_printable_ascii_tab_newline_return_and_nul() {
    for byte in 0..=255u8 {
        let text = byte == 0 || (32..=126).contains(&byte) || byte == 9 || byte == 10 || byte == 13;
        let payload = [b'a', byte, b'b'];
        assert_eq!(parse_as_strings(&payload).is_ok(), text, "byte {byte}");
    }
    assert_eq!(parse_as_strings(b""), Ok(PropertyValue::Empty));
    assert_eq!(parse_as_strings(b"\0\0"), Ok(PropertyValue::Empty));
    assert_eq!(parse_as_strings(b"x"), Ok(PropertyValue::String("x")));
    assert_eq!(parse_as_strings(&[0x80]), Err(()));
}

#[test]
fn integer_arrays_are_decoded_on_access() {
    assert_eq!(decode_u32_array(&[]), Vec::<u32>::new());
    assert_eq!(decode_u32_array(&[0, 0, 1]), Vec::<u32>::new());
    assert_eq!(
        decode_u32_array(&[0, 0, 0, 1, 0xde, 0xad, 0xbe, 0xef, 9]),
        vec![1, 0xdead_beef]
    );
}

#[test]
fn values_read_as_integers() {
    let array = [0u8, 0, 0, 7, 0, 0, 0, 8];
    assert_eq!(PropertyValue::U32(5).to_u32(), Some(5));
    assert_eq!(PropertyValue::U32Array(&array).to_u32(), Some(7));
    assert_eq!(PropertyValue::U32Array(&array[..3]).to_u32(), None);
    assert_eq!(PropertyValue::U64(5).to_u32(), None);
    assert_eq!(PropertyValue::Bytes(&array).to_u32(), None);

    assert_eq!(PropertyValue::U64(0x1_0000_0000).to_u64(), Some(0x1_0000_0000));
    assert_eq!(PropertyValue::U64Array(&array).to_u64(), Some(0x0000_0007_0000_0008));
    assert_eq!(PropertyValue::U64Array(&array[..7]).to_u64(), None);
    assert_eq!(PropertyValue::U32(5).to_u64(), None);

    assert_eq!(PropertyValue::U32Array(&array).to_u32_array(), Some(vec![7, 8]));
    assert_eq!(PropertyValue::U32(9).to_u32_array(), Some(vec![9]));
    assert_eq!(PropertyValue::Empty.to_u32_array(), None);
}

#[test]
fn values_read_as_text_and_bytes() {
    assert_eq!(PropertyValue::String("a").to_text(), Some("a"));
    assert_eq!(PropertyValue::StringList(vec!["b", "c"]).to_text(), Some("b"));
    assert_eq!(PropertyValue::StringList(vec![]).to_text(), None);
    assert_eq!(PropertyValue::U32(1).to_text(), None);
    assert_eq!(PropertyValue::Bytes(&[1, 2]).to_raw(), Some(&[1u8, 2][..]));
    assert_eq!(PropertyValue::U32Array(&[1, 2, 3, 4]).to_raw(), None);
}

#[test]
fn conversions_follow_the_accessors() {
    let array = [0u8, 0, 0, 7, 0, 0, 0, 8];
    assert_eq!(u32::try_from(&PropertyValue::U32(5)), Ok(5));
    assert_eq!(u32::try_from(&PropertyValue::U32Array(&array)), Ok(7));
    assert_eq!(u32::try_from(&PropertyValue::Empty), Err(DtbError::InvalidToken));

    assert_eq!(u64::try_from(&PropertyValue::U64(6)), Ok(6));
    assert_eq!(u64::try_from(&PropertyValue::U64Array(&array)), Ok(0x7_0000_0008));
    assert_eq!(u64::try_from(&PropertyValue::U32(5)), Ok(5));
    assert_eq!(u64::try_from(&PropertyValue::U32Array(&array)), Ok(7));
    assert_eq!(u64::try_from(&PropertyValue::String("x")), Err(DtbError::InvalidToken));

    assert_eq!(<&str>::try_from(&PropertyValue::String("x")), Ok("x"));
    assert_eq!(<&str>::try_from(&PropertyValue::StringList(vec!["y", "z"])), Ok("y"));
    assert_eq!(
        <&str>::try_from(&PropertyValue::StringList(vec![])),
        Err(DtbError::InvalidToken)
    );

    assert_eq!(Vec::<u32>::try_from(&PropertyValue::U32Array(&array)), Ok(vec![7, 8]));
    assert_eq!(Vec::<u32>::try_from(&PropertyValue::U32(3)), Ok(vec![3]));
    assert_eq!(
        Vec::<u32>::try_from(&PropertyValue::Bytes(&array)),
        Err(DtbError::InvalidToken)
    );

    assert_eq!(<&[u8]>::try_from(&PropertyValue::Bytes(&array)), Ok(&array[..]));
    assert_eq!(<&[u8]>::try_from(&PropertyValue::U32Array(&array)), Ok(&array[..]));
    assert_eq!(<&[u8]>::try_from(&PropertyValue::U64Array(&array)), Ok(&array[..]));
    assert_eq!(<&[u8]>::try_from(&PropertyValue::U32(1)), Err(DtbError::InvalidToken));
}
