use device_tree_parser::MemoryReservation;

#[test]
fn test_memory_reservation_parse_empty() {
    let data = vec![
        // Terminating entry (0, 0)
        0, 0, 0, 0, 0, 0, 0, 0, // address = 0
        0, 0, 0, 0, 0, 0, 0, 0, // size = 0
    ];

    let result = MemoryReservation::parse_all(&data);
    assert!(result.is_ok());
    let (_, reservations) = result.unwrap();
    assert_eq!(reservations.len(), 0);
}

#[test]
fn test_memory_reservation_parse_single() {
    let data = vec![
        // First entry: address=0x1000, size=0x2000
        0, 0, 0, 0, 0, 0, 0x10, 0, // address = 0x1000
        0, 0, 0, 0, 0, 0, 0x20, 0, // size = 0x2000
        // Terminating entry (0, 0)
        0, 0, 0, 0, 0, 0, 0, 0, // address = 0
        0, 0, 0, 0, 0, 0, 0, 0, // size = 0
    ];

    let result = MemoryReservation::parse_all(&data);
    assert!(result.is_ok());
    let (_, reservations) = result.unwrap();
    assert_eq!(reservations.len(), 1);
    assert_eq!(reservations[0].address, 0x1000);
    assert_eq!(reservations[0].size, 0x2000);
}

#[test]
fn test_memory_reservation_parse_multiple() {
    let data = vec![
        // First entry: address=0x1000, size=0x2000
        0, 0, 0, 0, 0, 0, 0x10, 0, // address = 0x1000
        0, 0, 0, 0, 0, 0, 0x20, 0, // size = 0x2000
        // Second entry: address=0x3000, size=0x4000
        0, 0, 0, 0, 0, 0, 0x30, 0, // address = 0x3000
        0, 0, 0, 0, 0, 0, 0x40, 0, // size = 0x4000
        // Terminating entry (0, 0)
        0, 0, 0, 0, 0, 0, 0, 0, // address = 0
        0, 0, 0, 0, 0, 0, 0, 0, // size = 0
    ];

    let result = MemoryReservation::parse_all(&data);
    assert!(result.is_ok());
    let (_, reservations) = result.unwrap();
    assert_eq!(reservations.len(), 2);
    assert_eq!(reservations[0].address, 0x1000);
    assert_eq!(reservations[0].size, 0x2000);
    assert_eq!(reservations[1].address, 0x3000);
    assert_eq!(reservations[1].size, 0x4000);
}
