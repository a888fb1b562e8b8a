use device_tree_parser::identifier::parse_identifier;
use device_tree_parser::node::copy_value;
use device_tree_parser::{DeviceTreeNode, DtbError, NodeIterator, Property, PropertyValue};

fn leaf(name: &'static str) -> DeviceTreeNode<'static> {
    DeviceTreeNode::new(name)
}

fn with_children(
    name: &'static str,
    children: Vec<DeviceTreeNode<'static>>,
) -> DeviceTreeNode<'static> {
    let mut node = DeviceTreeNode::new(name);
    for child in children {
        node.add_child(child);
    }
    node
}

fn names<'b>(nodes: &[&'b DeviceTreeNode<'static>]) -> Vec<&'b str> {
    nodes.iter().map(|n| n.name).collect()
}

fn same(a: &DeviceTreeNode, b: &DeviceTreeNode) -> bool {
    std::ptr::eq(a, b)
}

#[test]
fn empty_path_and_slash_are_the_node_itself() {
    let root = with_children("", vec![leaf("a"), leaf("")]);
    assert!(same(root.find_node("").unwrap(), &root));
    assert!(same(root.find_node("/").unwrap(), &root));
    let inner = with_children("x", vec![leaf("y")]);
    assert!(same(inner.find_node("").unwrap(), &inner));
    assert!(same(inner.find_node("/").unwrap(), &inner));
}

#[test]
fn path_segment_matches_the_part_before_the_at_sign() {
    let root = with_children(
        "",
        vec![
            with_children("cpus", vec![leaf("cpu@0"), leaf("cpu@1")]),
            leaf("uart@9000000"),
            leaf("uartx@1"),
            leaf("mem@a@b"),
        ],
    );
    assert!(same(root.find_node("/cpus/cpu").unwrap(), &root.children[0].children[0]));
    assert!(same(root.find_node("/cpus/cpu@1").unwrap(), &root.children[0].children[1]));
    assert!(same(root.find_node("/uart").unwrap(), &root.children[1]));
    assert!(same(root.find_node("uart").unwrap(), &root.children[1]));
    assert!(same(root.find_node("/uartx").unwrap(), &root.children[2]));
    assert!(same(root.find_node("/mem").unwrap(), &root.children[3]));
    assert!(root.find_node("/mem@a").is_none());
    assert!(root.find_node("/uar").is_none());
    assert!(root.find_node("/cpus/cp").is_none());
    assert!(root.find_node("/cpu").is_none());
}

#[test]
fn exact_name_wins_over_the_part_before_the_at_sign() {
    let root = with_children(
        "",
        vec![
            with_children("bus@1", vec![leaf("first")]),
            with_children("bus", vec![leaf("second")]),
            with_children("bus@2", vec![leaf("third")]),
        ],
    );
    assert!(same(root.find_node("/bus").unwrap(), &root.children[1]));
    assert!(same(root.find_node("/bus@2").unwrap(), &root.children[2]));
    assert!(root.find_node("/bus/second").is_some());
    // The segment is matched once: the first match is not given up for a later one.
    assert!(root.find_node("/bus/first").is_none());
}

#[test]
fn first_of_equal_names_is_taken() {
    let root = with_children(
        "",
        vec![
            with_children("n", vec![leaf("a")]),
            with_children("n", vec![leaf("b")]),
            with_children("m@0", vec![leaf("c")]),
            with_children("m@1", vec![leaf("d")]),
        ],
    );
    assert!(same(root.find_node("/n").unwrap(), &root.children[0]));
    assert!(same(root.find_child("n").unwrap(), &root.children[0]));
    assert!(root.find_node("/n/b").is_none());
    assert!(same(root.find_node("/m").unwrap(), &root.children[2]));
    assert!(root.find_node("/m/d").is_none());
    assert!(root.find_child("m").is_none());
}

#[test]
fn empty_segments_are_segments() {
    let root = with_children("", vec![with_children("a", vec![leaf("b")]), leaf("@7")]);
    assert!(root.find_node("/a/b").is_some());
    assert!(root.find_node("a/b").is_some());
    assert!(root.find_node("/a/").is_none());
    assert!(root.find_node("/a//b").is_none());
    // An empty segment reads the part before the at sign of "@7".
    assert!(root.find_node("//").is_none());
    assert!(same(root.find_node("/@7").unwrap(), &root.children[1]));
    let odd = with_children("", vec![with_children("", vec![leaf("x")])]);
    assert!(same(odd.find_node("//x").unwrap(), &odd.children[0].children[0]));
}

#[test]
fn walk_is_parent_first_and_in_definition_order() {
    let root = with_children(
        "r",
        vec![
            with_children("a", vec![with_children("a1", vec![leaf("a1x")]), leaf("a2")]),
            leaf("b"),
            with_children("c", vec![leaf("c1")]),
        ],
    );
    let mut walk = root.iter_nodes();
    let mut seen = Vec::new();
    while let Some(node) = walk.next() {
        seen.push(node.name);
    }
    assert_eq!(seen, vec!["r", "a", "a1", "a1x", "a2", "b", "c", "c1"]);
    assert!(walk.next().is_none());
    assert!(walk.next().is_none());

    let mut single = NodeIterator::new(&root.children[1]);
    assert_eq!(single.next().unwrap().name, "b");
    assert!(single.next().is_none());
}

#[test]
fn searches_keep_walk_order() {
    let mut root = with_children("", vec![]);
    let mut first = with_children("first", vec![]);
    let mut inner = leaf("inner");
    inner.add_property(Property { name: "compatible", value: PropertyValue::String("x,y") });
    inner.add_property(Property { name: "status", value: PropertyValue::Empty });
    first.add_child(inner);
    first.add_property(Property {
        name: "compatible",
        value: PropertyValue::StringList(vec!["a,b", "x,y"]),
    });
    let mut second = leaf("second");
    second.add_property(Property { name: "compatible", value: PropertyValue::String("x,yz") });
    second.add_property(Property { name: "status", value: PropertyValue::U32(1) });
    let mut third = leaf("third");
    third.add_property(Property { name: "compatible", value: PropertyValue::Bytes(b"x,y") });
    third.add_property(Property { name: "compatible", value: PropertyValue::String("x,y") });
    root.add_child(first);
    root.add_child(second);
    root.add_child(third);
    root.add_property(Property { name: "status", value: PropertyValue::String("okay") });

    assert_eq!(names(&root.find_compatible_nodes("x,y")), vec!["first", "inner"]);
    assert_eq!(names(&root.find_compatible_nodes("a,b")), vec!["first"]);
    assert_eq!(names(&root.find_compatible_nodes("x,yz")), vec!["second"]);
    assert!(root.find_compatible_nodes("x").is_empty());
    assert!(root.find_compatible_nodes("").is_empty());
    assert_eq!(names(&root.find_nodes_with_property("status")), vec!["", "inner", "second"]);
    assert_eq!(
        names(&root.find_nodes_with_property("compatible")),
        vec!["first", "inner", "second", "third"]
    );
    assert!(root.find_nodes_with_property("reg").is_empty());
    assert!(root.children[0].matches_compatible("a,b"));
    assert!(!root.children[2].matches_compatible("x,y"));
}

#[test]
fn first_property_of_a_name_answers() {
    let mut node = leaf("n");
    node.add_property(Property { name: "p", value: PropertyValue::U32(1) });
    node.add_property(Property { name: "p", value: PropertyValue::String("late") });
    node.add_property(Property { name: "q", value: PropertyValue::String("text") });
    assert_eq!(node.find_property("p").unwrap().value, PropertyValue::U32(1));
    assert_eq!(node.property_position(b"p"), Some(0));
    assert_eq!(node.property_position(b"q"), Some(2));
    assert_eq!(node.property_position(b"r"), None);
    assert_eq!(node.prop_u32("p"), Some(1));
    assert_eq!(node.prop_string("p"), None);
    assert_eq!(node.prop_string("q"), Some("text"));
    assert_eq!(node.prop_u32("q"), None);
    assert_eq!(node.prop_u64("p"), None);
    assert_eq!(node.prop_bytes("p"), None);
    assert_eq!(node.prop_u32_array("p"), Some(vec![1]));
    assert!(node.has_property("p"));
    assert!(!node.has_property("P"));
    assert!(!node.has_property(""));
    assert_eq!(node["q"].name, "q");
    assert_eq!(node["p"].value, PropertyValue::U32(1));
}

#[test]
fn iterators_follow_definition_order() {
    let mut node = with_children("n", vec![leaf("a"), leaf("b"), leaf("c")]);
    node.add_property(Property { name: "x", value: PropertyValue::Empty });
    node.add_property(Property { name: "y", value: PropertyValue::Empty });
    let properties: Vec<&str> = node.iter_properties().map(|p| p.name).collect();
    assert_eq!(properties, vec!["x", "y"]);
    let children: Vec<&str> = node.iter_children().map(|c| c.name).collect();
    assert_eq!(children, vec!["a", "b", "c"]);
    let again: Vec<&str> = (&node).into_iter().map(|c| c.name).collect();
    assert_eq!(again, children);
    assert_eq!(node[2].name, "c");
}

#[test]
fn copies_are_deep_and_equal() {
    let mut root = with_children("r", vec![with_children("a", vec![leaf("b")])]);
    root.add_property(Property {
        name: "list",
        value: PropertyValue::StringList(vec!["x", "y"]),
    });
    let copy = root.clone();
    assert_eq!(format!("{:?}", copy), format!("{:?}", root));
    assert_eq!(format!("{:?}", root.deep_copy()), format!("{:?}", root));
    let found: Option<DeviceTreeNode> = root.find_node("/a").cloned();
    assert_eq!(found.unwrap().children[0].name, "b");
    let twice = vec![root.clone(), copy.clone()].clone();
    assert_eq!(format!("{:?}", twice[0]), format!("{:?}", twice[1]));
    assert!(!same(&copy.children[0], &root.children[0]));
    root.children[0].add_child(leaf("later"));
    assert_eq!(copy.children[0].children.len(), 1);
    assert_eq!(root.children[0].children.len(), 2);

    for value in [
        PropertyValue::Empty,
        PropertyValue::String("s"),
        PropertyValue::StringList(vec!["a", "b", "c"]),
        PropertyValue::U32(1),
        PropertyValue::U32Array(&[1, 2, 3, 4, 5, 6, 7, 8]),
        PropertyValue::U64(2),
        PropertyValue::U64Array(&[0; 16]),
        PropertyValue::Bytes(&[9]),
    ] {
        assert_eq!(copy_value(&value), value);
    }
}

#[test]
fn identifier_is_the_keyword_at_the_front() {
    assert_eq!(parse_identifier("device"), Ok(("", "device")));
    assert_eq!(parse_identifier("device-tree"), Ok(("-tree", "device")));
    assert_eq!(parse_identifier("devicedevice"), Ok(("device", "device")));
    assert_eq!(parse_identifier("devic"), Err(DtbError::InvalidToken));
    assert_eq!(parse_identifier(" device"), Err(DtbError::InvalidToken));
    assert_eq!(parse_identifier("Device"), Err(DtbError::InvalidToken));
    assert_eq!(parse_identifier(""), Err(DtbError::InvalidToken));
}
