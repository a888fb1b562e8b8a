use device_tree_parser::DtbHeader;

#[test]
fn test_header_parse_valid() {
    let mut header_data = vec![0u8; 40];
    // Magic number in big-endian
    header_data[0..4].copy_from_slice(&0xd00dfeedu32.to_be_bytes());
    // Total size
    header_data[4..8].copy_from_slice(&1024u32.to_be_bytes());

    let result = DtbHeader::parse(&header_data);
    assert!(result.is_ok());
    let (_, header) = result.unwrap();
    assert_eq!(header.magic, DtbHeader::MAGIC);
    assert_eq!(header.totalsize, 1024);
}

#[test]
fn test_header_parse_invalid_magic() {
    let mut header_data = vec![0u8; 40];
    // Wrong magic number
    header_data[0..4].copy_from_slice(&0x12345678u32.to_be_bytes());

    let result = DtbHeader::parse(&header_data);
    assert!(result.is_err());
}
