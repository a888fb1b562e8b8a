use device_tree_parser::DtbToken;

#[test]
fn test_token_constants() {
    assert_eq!(DtbToken::FDT_BEGIN_NODE, 0x00000001);
    assert_eq!(DtbToken::FDT_END_NODE, 0x00000002);
    assert_eq!(DtbToken::FDT_PROP, 0x00000003);
    assert_eq!(DtbToken::FDT_END, 0x00000009);
}

#[test]
fn test_token_from_u32() {
    assert_eq!(DtbToken::from_u32(0x00000001).unwrap(), DtbToken::BeginNode);
    assert_eq!(DtbToken::from_u32(0x00000002).unwrap(), DtbToken::EndNode);
    assert_eq!(DtbToken::from_u32(0x00000003).unwrap(), DtbToken::Property);
    assert_eq!(DtbToken::from_u32(0x00000009).unwrap(), DtbToken::End);

    assert!(DtbToken::from_u32(0x12345678).is_err());
}

#[test]
fn test_token_to_u32() {
    assert_eq!(DtbToken::BeginNode.to_u32(), 0x00000001);
    assert_eq!(DtbToken::EndNode.to_u32(), 0x00000002);
    assert_eq!(DtbToken::Property.to_u32(), 0x00000003);
    assert_eq!(DtbToken::End.to_u32(), 0x00000009);
}

#[test]
fn test_token_parse_begin_node() {
    let data = [0x00, 0x00, 0x00, 0x01, 0x12, 0x34, 0x56, 0x78];
    let result = DtbToken::parse(&data);
    assert!(result.is_ok());
    let (remaining, token) = result.unwrap();
    assert_eq!(token, DtbToken::BeginNode);
    assert_eq!(remaining, &[0x12, 0x34, 0x56, 0x78]);
}

#[test]
fn test_token_parse_property() {
    let data = [0x00, 0x00, 0x00, 0x03, 0xAB, 0xCD, 0xEF, 0x00];
    let result = DtbToken::parse(&data);
    assert!(result.is_ok());
    let (remaining, token) = result.unwrap();
    assert_eq!(token, DtbToken::Property);
    assert_eq!(remaining, &[0xAB, 0xCD, 0xEF, 0x00]);
}

#[test]
fn test_token_parse_invalid() {
    let data = [0x12, 0x34, 0x56, 0x78];
    let result = DtbToken::parse(&data);
    assert!(result.is_err());
}

#[test]
fn test_token_parse_insufficient_data() {
    let data = [0x00, 0x00, 0x00];
    let result = DtbToken::parse(&data);
    assert!(result.is_err());
}

#[test]
fn test_calculate_padding() {
    assert_eq!(DtbToken::calculate_padding(0), 0);
    assert_eq!(DtbToken::calculate_padding(1), 3);
    assert_eq!(DtbToken::calculate_padding(2), 2);
    assert_eq!(DtbToken::calculate_padding(3), 1);
    assert_eq!(DtbToken::calculate_padding(4), 0);
    assert_eq!(DtbToken::calculate_padding(5), 3);
}

#[test]
fn test_skip_padding() {
    let data = [0x00, 0x00, 0x00, 0x01, 0x02, 0x03, 0x04, 0x05];

    // No padding needed at offset 0
    let result = DtbToken::skip_padding(&data, 0);
    assert_eq!(result, &data);

    // 3 bytes padding needed at offset 1
    let result = DtbToken::skip_padding(&data[1..], 1);
    assert_eq!(result, &data[4..]);

    // 2 bytes padding needed at offset 2
    let result = DtbToken::skip_padding(&data[2..], 2);
    assert_eq!(result, &data[4..]);
}
