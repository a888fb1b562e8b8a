use device_tree_parser::{DeviceTreeNode, DeviceTreeParser, DtbError, Property, PropertyValue};

fn cells(values: &[u32]) -> Vec<u8> {
    let mut out = Vec::new();
    for value in values {
        out.extend_from_slice(&value.to_be_bytes());
    }
    out
}

fn device<'a>(name: &'a str, compatible: &'a str, reg: &'a [u8]) -> DeviceTreeNode<'a> {
    let mut node = DeviceTreeNode::new(name);
    node.add_property(Property { name: "compatible", value: PropertyValue::String(compatible) });
    node.add_property(Property { name: "reg", value: PropertyValue::U32Array(reg) });
    node
}

#[test]
fn serial_ports_are_listed_kind_by_kind() {
    let a = cells(&[0x0900_0000, 0x1000]);
    let b = cells(&[0x1000_0000, 0x100]);
    let c = cells(&[0x2000_0000, 0x100, 0x3000_0000, 0x100]);
    let mut root = DeviceTreeNode::new("");
    root.add_child(device("pl011@9000000", "arm,pl011", &a));
    root.add_child(device("serial@10000000", "ns16550a", &b));
    let mut soc = DeviceTreeNode::new("soc");
    soc.add_child(device("dw@20000000", "snps,dw-apb-uart", &c));
    soc.add_child(device("serial@10000000", "ns16550", &b));
    soc.add_child(device("other", "vendor,thing", &a));
    root.add_child(soc);
    assert_eq!(
        root.uart_addresses(),
        vec![0x1000_0000, 0x1000_0000, 0x0900_0000, 0x2000_0000]
    );
}

#[test]
fn serial_port_needs_two_reg_cells() {
    let one = cells(&[0x0900_0000]);
    let mut root = DeviceTreeNode::new("");
    root.add_child(device("short", "arm,pl011", &one));
    let mut single = DeviceTreeNode::new("single");
    single.add_property(Property { name: "compatible", value: PropertyValue::String("arm,pl011") });
    single.add_property(Property { name: "reg", value: PropertyValue::U32(0x5000) });
    root.add_child(single);
    let mut none = DeviceTreeNode::new("none");
    none.add_property(Property { name: "compatible", value: PropertyValue::String("arm,pl011") });
    root.add_child(none);
    assert!(root.uart_addresses().is_empty());

    let mut listed = DeviceTreeNode::new("listed");
    let two = cells(&[0x7000, 0x10]);
    listed.add_property(Property {
        name: "compatible",
        value: PropertyValue::StringList(vec!["arm,sbsa-uart", "arm,pl011"]),
    });
    listed.add_property(Property { name: "reg", value: PropertyValue::U32Array(&two) });
    root.add_child(listed);
    // The node is compatible with two kinds and is listed under each.
    assert_eq!(root.uart_addresses(), vec![0x7000, 0x7000]);
}

#[test]
fn timebase_is_taken_from_cpus_or_its_first_child_that_states_it() {
    let mut root = DeviceTreeNode::new("");
    assert_eq!(root.timebase_frequency(), None);

    let mut cpus = DeviceTreeNode::new("cpus");
    let cpu0 = DeviceTreeNode::new("cpu@0");
    let mut cpu1 = DeviceTreeNode::new("cpu@1");
    cpu1.add_property(Property { name: "timebase-frequency", value: PropertyValue::U32(111) });
    let mut cpu2 = DeviceTreeNode::new("cpu@2");
    cpu2.add_property(Property { name: "timebase-frequency", value: PropertyValue::U32(222) });
    let mut deep = DeviceTreeNode::new("cpu-map");
    let mut inner = DeviceTreeNode::new("core");
    inner.add_property(Property { name: "timebase-frequency", value: PropertyValue::U32(5) });
    deep.add_child(inner);
    cpus.add_child(deep);
    cpus.add_child(cpu0);
    cpus.add_child(cpu1);
    cpus.add_child(cpu2);
    root.add_child(cpus);
    assert_eq!(root.timebase_frequency(), Some(111));

    root.children[0]
        .add_property(Property { name: "timebase-frequency", value: PropertyValue::U32(10_000_000) });
    assert_eq!(root.timebase_frequency(), Some(10_000_000));

    let mut elsewhere = DeviceTreeNode::new("");
    let mut other = DeviceTreeNode::new("soc");
    other.add_property(Property { name: "timebase-frequency", value: PropertyValue::U32(1) });
    elsewhere.add_child(other);
    elsewhere.add_property(Property { name: "timebase-frequency", value: PropertyValue::U32(2) });
    assert_eq!(elsewhere.timebase_frequency(), None);
}

#[test]
fn regions_are_reg_cells_two_by_two() {
    let a = cells(&[0x1000, 0x10, 0x2000, 0x20, 0x3000]);
    let b = cells(&[0x4000, 0x40]);
    let mut root = DeviceTreeNode::new("");
    root.add_property(Property { name: "reg", value: PropertyValue::U32Array(&b) });
    let mut first = DeviceTreeNode::new("first");
    first.add_property(Property { name: "reg", value: PropertyValue::U32Array(&a) });
    let mut second = DeviceTreeNode::new("second");
    second.add_property(Property { name: "reg", value: PropertyValue::U32(9) });
    let mut third = DeviceTreeNode::new("third");
    third.add_property(Property { name: "reg", value: PropertyValue::Bytes(&b) });
    first.add_child(second);
    root.add_child(first);
    root.add_child(third);
    assert_eq!(
        root.discover_mmio_regions(),
        vec![(0x4000, 0x40), (0x1000, 0x10), (0x2000, 0x20)]
    );
    assert!(DeviceTreeNode::new("x").discover_mmio_regions().is_empty());
}

fn small_blob() -> Vec<u8> {
    let strings = b"compatible\0reg\0timebase-frequency\0";
    let mut structure = Vec::new();
    let word = |out: &mut Vec<u8>, v: u32| out.extend_from_slice(&v.to_be_bytes());
    let name = |out: &mut Vec<u8>, n: &[u8]| {
        out.extend_from_slice(n);
        out.push(0);
        while out.len() % 4 != 0 {
            out.push(0);
        }
    };
    let prop = |out: &mut Vec<u8>, offset: u32, payload: &[u8]| {
        out.extend_from_slice(&3u32.to_be_bytes());
        out.extend_from_slice(&(payload.len() as u32).to_be_bytes());
        out.extend_from_slice(&offset.to_be_bytes());
        out.extend_from_slice(payload);
        while out.len() % 4 != 0 {
            out.push(0);
        }
    };
    word(&mut structure, 1);
    name(&mut structure, b"");
    word(&mut structure, 1);
    name(&mut structure, b"cpus");
    prop(&mut structure, 15, &0x0098_9680u32.to_be_bytes());
    word(&mut structure, 2);
    word(&mut structure, 1);
    name(&mut structure, b"uart@9000000");
    prop(&mut structure, 0, b"arm,pl011\0");
    prop(&mut structure, 11, &cells(&[0x0900_0000, 0x1000]));
    word(&mut structure, 2);
    word(&mut structure, 2);
    word(&mut structure, 9);

    let off_dt_struct = 40 + 16;
    let off_dt_strings = off_dt_struct + structure.len();
    let mut out = Vec::new();
    for field in [
        0xd00d_feedu32,
        (off_dt_strings + strings.len()) as u32,
        off_dt_struct as u32,
        off_dt_strings as u32,
        40,
        17,
        16,
        0,
        strings.len() as u32,
        structure.len() as u32,
    ] {
        out.extend_from_slice(&field.to_be_bytes());
    }
    out.extend_from_slice(&[0u8; 16]);
    out.extend_from_slice(&structure);
    out.extend_from_slice(strings);
    out
}

#[test]
fn parser_answers_from_the_decoded_tree() {
    let data = small_blob();
    let parser = DeviceTreeParser::new(&data);
    assert_eq!(parser.data(), &data[..]);
    assert_eq!(parser.uart_addresses(), Ok(vec![0x0900_0000]));
    assert_eq!(parser.timebase_frequency(), Ok(Some(10_000_000)));
    assert_eq!(parser.discover_mmio_regions(), Ok(vec![(0x0900_0000, 0x1000)]));
    assert_eq!(parser.parse_memory_reservations(), Ok(vec![]));

    let found = parser.find_node("/uart").unwrap().unwrap();
    assert_eq!(found.name, "uart@9000000");
    assert_eq!(found.prop_string("compatible"), Some("arm,pl011"));
    assert!(parser.find_node("/missing").unwrap().is_none());
    assert_eq!(parser.find_node("/").unwrap().unwrap().children.len(), 2);

    let nodes = parser.find_compatible_nodes("arm,pl011").unwrap();
    assert_eq!(nodes.len(), 1);
    assert_eq!(nodes[0].name, "uart@9000000");
    assert_eq!(nodes[0].prop_u32_array("reg"), Some(vec![0x0900_0000, 0x1000]));
    assert!(parser.find_compatible_nodes("ns16550a").unwrap().is_empty());
}

#[test]
fn parser_hands_on_the_error_of_the_blob() {
    let short = [0u8; 12];
    let parser = DeviceTreeParser::new(&short);
    assert_eq!(parser.parse_header(), Err(DtbError::MalformedHeader));
    assert_eq!(parser.parse_memory_reservations(), Err(DtbError::MalformedHeader));
    assert_eq!(parser.parse_tree().unwrap_err(), DtbError::MalformedHeader);
    assert_eq!(parser.uart_addresses(), Err(DtbError::MalformedHeader));
    assert_eq!(parser.timebase_frequency(), Err(DtbError::MalformedHeader));
    assert_eq!(parser.discover_mmio_regions(), Err(DtbError::MalformedHeader));
    assert_eq!(parser.find_node("/").unwrap_err(), DtbError::MalformedHeader);
    assert_eq!(parser.find_compatible_nodes("x").unwrap_err(), DtbError::MalformedHeader);

    let foreign = [0x7fu8; 64];
    let parser = DeviceTreeParser::new(&foreign);
    assert_eq!(parser.parse_header(), Err(DtbError::InvalidMagic));
    assert_eq!(parser.parse_tree().unwrap_err(), DtbError::InvalidMagic);
    assert_eq!(parser.parse_memory_reservations(), Err(DtbError::InvalidMagic));
}
