//! Nodes, their properties, and lookups by name and by path.

use vstd::prelude::*;
use vstd::string::StringSliceAdditionalSpecFns;
use crate::bytes::{first_index_of, lemma_first_index_of_is, same_bytes};
use crate::value::{PropertyValue, ValueModel};

verus! {

/// A property as plain data.
pub struct PropertyModel {
    pub name: Seq<u8>,
    pub value: ValueModel,
}

/// A node as plain data: the mathematical tree that contracts speak of.
pub struct NodeModel {
    pub name: Seq<u8>,
    pub properties: Seq<PropertyModel>,
    pub children: Seq<NodeModel>,
}

/// A named, typed value attached to a node.
#[derive(Debug, Clone)]
pub struct Property<'a> {
    /// Name, resolved through the strings block.
    pub name: &'a str,
    /// Typed payload.
    pub value: PropertyValue<'a>,
}

/// A node of the device tree. It owns its properties and children, both in
/// definition order, and knows nothing of its parent.
#[derive(Debug)]
pub struct DeviceTreeNode<'a> {
    /// Name; empty for the root.
    pub name: &'a str,
    /// Properties in definition order. Names may repeat.
    pub properties: Vec<Property<'a>>,
    /// Children in definition order.
    pub children: Vec<DeviceTreeNode<'a>>,
}

/// The byte `/`, which separates the segments of a path.
pub const SLASH: u8 = 0x2f;

/// The byte `@`, which separates a node's base name from its unit address.
pub const AT_SIGN: u8 = 0x40;

/// Index of the first property called `name` at or after `from`.
pub open spec fn property_from(properties: Seq<PropertyModel>, name: Seq<u8>, from: int) -> Option<
    int,
>
    decreases properties.len() - from,
{
    if from < 0 || from >= properties.len() {
        None
    } else if properties[from].name == name {
        Some(from)
    } else {
        property_from(properties, name, from + 1)
    }
}

/// Index of the first node called `name` at or after `from`.
pub open spec fn named_from(nodes: Seq<NodeModel>, name: Seq<u8>, from: int) -> Option<int>
    decreases nodes.len() - from,
{
    if from < 0 || from >= nodes.len() {
        None
    } else if nodes[from].name == name {
        Some(from)
    } else {
        named_from(nodes, name, from + 1)
    }
}

/// Whether `name` holds an `@` and reads `base` before the first one.
pub open spec fn has_base_name(name: Seq<u8>, base: Seq<u8>) -> bool {
    let at = first_index_of(name, AT_SIGN);
    0 <= at < name.len() && name.subrange(0, at) == base
}

/// Index of the first node at or after `from` whose name reads `base`
/// before its first `@`.
pub open spec fn based_from(nodes: Seq<NodeModel>, base: Seq<u8>, from: int) -> Option<int>
    decreases nodes.len() - from,
{
    if from < 0 || from >= nodes.len() {
        None
    } else if has_base_name(nodes[from].name, base) {
        Some(from)
    } else {
        based_from(nodes, base, from + 1)
    }
}

/// The segments of a path: the runs between its slashes, empty ones
/// included. A path without a slash is one segment.
pub open spec fn path_segments(path: Seq<u8>) -> Seq<Seq<u8>>
    decreases path.len(),
{
    let k = first_index_of(path, SLASH);
    if 0 <= k < path.len() {
        seq![path.subrange(0, k)] + path_segments(path.subrange(k + 1, path.len() as int))
    } else {
        seq![path]
    }
}

impl NodeModel {
    /// Index of the first property called `name`.
    pub open spec fn property_index(self, name: Seq<u8>) -> Option<int> {
        property_from(self.properties, name, 0)
    }

    /// Value of the first property called `name`.
    pub open spec fn lookup(self, name: Seq<u8>) -> Option<ValueModel> {
        match self.property_index(name) {
            Some(i) => Some(self.properties[i].value),
            None => None,
        }
    }

    /// The first property called `name`, read as one 32-bit integer.
    pub open spec fn u32_of(self, name: Seq<u8>) -> Option<u32> {
        match self.lookup(name) {
            Some(value) => value.as_u32(),
            None => None,
        }
    }

    /// The first property called `name`, read as 32-bit integers.
    pub open spec fn u32_seq_of(self, name: Seq<u8>) -> Option<Seq<u32>> {
        match self.lookup(name) {
            Some(value) => value.as_u32_seq(),
            None => None,
        }
    }

    /// Index of the first child called `name`.
    pub open spec fn child_index(self, name: Seq<u8>) -> Option<int> {
        named_from(self.children, name, 0)
    }

    /// The child that one path segment leads to: the first child with
    /// exactly that name, or, where there is none, the first child whose
    /// name reads the segment before its first `@`.
    pub open spec fn step_index(self, segment: Seq<u8>) -> Option<int> {
        match self.child_index(segment) {
            Some(i) => Some(i),
            None => based_from(self.children, segment, 0),
        }
    }

    /// The node reached by following `segments` one after the other. A
    /// segment is matched once; there is no going back to try another child.
    pub open spec fn descend(self, segments: Seq<Seq<u8>>) -> Option<NodeModel>
        decreases segments.len(),
    {
        if segments.len() == 0 {
            Some(self)
        } else {
            match self.step_index(segments[0]) {
                Some(i) => self.children[i].descend(segments.drop_first()),
                None => None,
            }
        }
    }

    /// The node at an absolute path. The empty path and `/` are the node
    /// itself; a leading slash is optional.
    pub open spec fn find(self, path: Seq<u8>) -> Option<NodeModel> {
        if path.len() == 0 || path == seq![SLASH] {
            Some(self)
        } else if path[0] == SLASH {
            self.descend(path_segments(path.drop_first()))
        } else {
            self.descend(path_segments(path))
        }
    }
}

/// Where no node at or after `from` is called `name`, none is found.
pub proof fn lemma_named_from_none(nodes: Seq<NodeModel>, name: Seq<u8>, from: int)
    requires
        0 <= from,
        forall|j: int| from <= j < nodes.len() ==> (#[trigger] nodes[j]).name != name,
    ensures
        named_from(nodes, name, from) is None,
    decreases nodes.len() - from,
{
    if from < nodes.len() {
        lemma_named_from_none(nodes, name, from + 1);
    }
}

/// The first node at or after `from` whose name reads `base` before its
/// first `@` is the one found.
pub proof fn lemma_based_from_first(nodes: Seq<NodeModel>, base: Seq<u8>, from: int, index: int)
    requires
        0 <= from <= index < nodes.len(),
        has_base_name(nodes[index].name, base),
        forall|j: int| from <= j < index ==> !has_base_name((#[trigger] nodes[j]).name, base),
    ensures
        based_from(nodes, base, from) == Some(index),
    decreases index - from,
{
    if from < index {
        lemma_based_from_first(nodes, base, from + 1, index);
    }
}

/// A path segment that is the part before `@` of a child's name leads to
/// that child: where no child is called exactly `segment`, the path
/// `/segment` finds the first child whose name reads `segment` before its
/// first `@`.
pub proof fn lemma_find_by_base_name(root: NodeModel, segment: Seq<u8>, index: int)
    requires
        segment.len() > 0,
        forall|j: int| 0 <= j < segment.len() ==> segment[j] != SLASH,
        0 <= index < root.children.len(),
        forall|j: int|
            0 <= j < root.children.len() ==> (#[trigger] root.children[j]).name != segment,
        has_base_name(root.children[index].name, segment),
        forall|j: int|
            0 <= j < index ==> !has_base_name((#[trigger] root.children[j]).name, segment),
    ensures
        root.find(seq![SLASH] + segment) == Some(root.children[index]),
        root.find(segment) == Some(root.children[index]),
{
    let path = seq![SLASH] + segment;
    assert(path.drop_first() =~= segment);
    assert(path[0] == SLASH);
    assert(path.len() > 1);
    assert(path != seq![SLASH]);
    assert(segment != seq![SLASH]) by {
        assert(segment[0] != SLASH);
        assert(seq![SLASH][0] == SLASH);
    }
    lemma_first_index_of_is(segment, SLASH, segment.len() as int);
    let segments = path_segments(segment);
    assert(segments == seq![segment]);
    lemma_named_from_none(root.children, segment, 0);
    lemma_based_from_first(root.children, segment, 0, index);
    assert(root.step_index(segment) == Some(index));
    assert(segments.drop_first() =~= Seq::<Seq<u8>>::empty());
    assert(root.children[index].descend(segments.drop_first()) == Some(root.children[index]));
    assert(root.descend(segments) == Some(root.children[index]));
}

impl<'a> View for Property<'a> {
    type V = PropertyModel;

    open spec fn view(&self) -> PropertyModel {
        PropertyModel { name: self.name.spec_bytes(), value: self.value@ }
    }
}

/// The models of a list of properties.
pub open spec fn properties_view(properties: Seq<Property>) -> Seq<PropertyModel> {
    Seq::new(properties.len(), |i: int| properties[i]@)
}

impl<'a> DeviceTreeNode<'a> {
    /// The tree below and including this node, as plain data.
    pub open spec fn model(&self) -> NodeModel
        decreases self,
    {
        NodeModel {
            name: self.name.spec_bytes(),
            properties: properties_view(self.properties@),
            children: Seq::new(
                self.children@.len(),
                |i: int|
                    if 0 <= i < self.children@.len() {
                        self.children@[i].model()
                    } else {
                        arbitrary()
                    },
            ),
        }
    }
}

impl<'a> DeviceTreeNode<'a> {
    /// The node of this tree that `segments` lead to, one after the other.
    pub open spec fn follow(&self, segments: Seq<Seq<u8>>) -> Option<&DeviceTreeNode<'a>>
        decreases segments.len(),
    {
        if segments.len() == 0 {
            Some(self)
        } else {
            match self.model().step_index(segments[0]) {
                Some(i) => if 0 <= i < self.children@.len() {
                    self.children@[i].follow(segments.drop_first())
                } else {
                    None
                },
                None => None,
            }
        }
    }

    /// The node of this tree at an absolute path.
    pub open spec fn node_at(&self, path: Seq<u8>) -> Option<&DeviceTreeNode<'a>> {
        if path.len() == 0 || path == seq![SLASH] {
            Some(self)
        } else if path[0] == SLASH {
            self.follow(path_segments(path.drop_first()))
        } else {
            self.follow(path_segments(path))
        }
    }
}

impl<'a> View for DeviceTreeNode<'a> {
    type V = NodeModel;

    open spec fn view(&self) -> NodeModel {
        self.model()
    }
}

/// Copies a property value.
pub fn copy_value<'a>(value: &PropertyValue<'a>) -> (copy: PropertyValue<'a>)
    ensures
        copy@ == value@,
{
    match value {
        PropertyValue::Empty => PropertyValue::Empty,
        PropertyValue::String(text) => PropertyValue::String(*text),
        PropertyValue::StringList(texts) => {
            let mut list: Vec<&'a str> = Vec::new();
            let mut i: usize = 0;
            while i < texts.len()
                invariant
                    i <= texts.len(),
                    list@ == texts@.subrange(0, i as int),
                decreases texts.len() - i,
            {
                list.push(texts[i]);
                assert(list@ =~= texts@.subrange(0, i + 1));
                i += 1;
            }
            assert(list@ =~= texts@);
            PropertyValue::StringList(list)
        },
        PropertyValue::U32(v) => PropertyValue::U32(*v),
        PropertyValue::U32Array(bytes) => PropertyValue::U32Array(*bytes),
        PropertyValue::U64(v) => PropertyValue::U64(*v),
        PropertyValue::U64Array(bytes) => PropertyValue::U64Array(*bytes),
        PropertyValue::Bytes(bytes) => PropertyValue::Bytes(*bytes),
    }
}

impl<'a> DeviceTreeNode<'a> {
    /// A node called `name` without properties or children.
    pub fn new(name: &'a str) -> (node: Self)
        ensures
            node@ == (NodeModel {
                name: name.spec_bytes(),
                properties: Seq::empty(),
                children: Seq::empty(),
            }),
    {
        let node = DeviceTreeNode { name, properties: Vec::new(), children: Vec::new() };
        assert(node@.properties =~= Seq::empty());
        assert(node@.children =~= Seq::empty());
        node
    }

    /// Appends a property; earlier ones stay, also those of the same name.
    pub fn add_property(&mut self, property: Property<'a>)
        ensures
            final(self)@ == (NodeModel {
                properties: old(self)@.properties.push(property@),
                ..old(self)@
            }),
    {
        self.properties.push(property);
        assert(self@.properties =~= old(self)@.properties.push(property@));
        assert(self@.children =~= old(self)@.children);
    }

    /// Appends a child after the children already there.
    pub fn add_child(&mut self, child: DeviceTreeNode<'a>)
        ensures
            final(self)@ == (NodeModel {
                children: old(self)@.children.push(child@),
                ..old(self)@
            }),
    {
        self.children.push(child);
        assert(self@.children =~= old(self)@.children.push(child@));
        assert(self@.properties =~= old(self)@.properties);
    }

    /// A deep copy of this node: every property and every descendant.
    pub fn deep_copy(&self) -> (copy: Self)
        ensures
            copy@ == self@,
        decreases self,
    {
        let mut copy = DeviceTreeNode::new(self.name);
        let mut i: usize = 0;
        while i < self.properties.len()
            invariant
                i <= self.properties.len(),
                copy@.name == self@.name,
                copy@.children == Seq::<NodeModel>::empty(),
                copy@.properties == self@.properties.subrange(0, i as int),
            decreases self.properties.len() - i,
        {
            let property = &self.properties[i];
            copy.add_property(Property { name: property.name, value: copy_value(&property.value) });
            assert(copy@.properties =~= self@.properties.subrange(0, i + 1));
            i += 1;
        }
        assert(copy@.properties =~= self@.properties);
        let mut j: usize = 0;
        while j < self.children.len()
            invariant
                j <= self.children.len(),
                copy@.name == self@.name,
                copy@.properties == self@.properties,
                copy@.children == self@.children.subrange(0, j as int),
            decreases self.children.len() - j,
        {
            let child = self.children[j].deep_copy();
            copy.add_child(child);
            assert(copy@.children =~= self@.children.subrange(0, j + 1));
            j += 1;
        }
        assert(copy@.children =~= self@.children);
        copy
    }

    /// Index of the first property called `name`.
    pub fn property_position(&self, name: &[u8]) -> (index: Option<usize>)
        ensures
            match index {
                Some(i) => self@.property_index(name@) == Some(i as int) && i
                    < self.properties@.len(),
                None => self@.property_index(name@) is None,
            },
    {
        let mut i: usize = 0;
        while i < self.properties.len()
            invariant
                i <= self.properties.len(),
                self@.property_index(name@) == property_from(self@.properties, name@, i as int),
            decreases self.properties.len() - i,
        {
            if same_bytes(self.properties[i].name.as_bytes(), name) {
                return Some(i);
            }
            i += 1;
        }
        None
    }

    /// The first property called `name`.
    pub fn find_property(&self, name: &str) -> (property: Option<&Property<'a>>)
        ensures
            match property {
                Some(p) => self@.property_index(name.spec_bytes()) is Some && 0
                    <= self@.property_index(name.spec_bytes())->0 < self.properties@.len() && *p
                    == self.properties@[self@.property_index(name.spec_bytes())->0],
                None => self@.property_index(name.spec_bytes()) is None,
            },
    {
        match self.property_position(name.as_bytes()) {
            Some(i) => Some(&self.properties[i]),
            None => None,
        }
    }

    /// The first child called exactly `name`.
    pub fn find_child(&self, name: &str) -> (child: Option<&DeviceTreeNode<'a>>)
        ensures
            match child {
                Some(c) => self@.child_index(name.spec_bytes()) is Some && 0
                    <= self@.child_index(name.spec_bytes())->0 < self.children@.len() && *c
                    == self.children@[self@.child_index(name.spec_bytes())->0],
                None => self@.child_index(name.spec_bytes()) is None,
            },
    {
        match self.child_position(name.as_bytes()) {
            Some(i) => Some(&self.children[i]),
            None => None,
        }
    }

    /// Index of the first child called exactly `name`.
    fn child_position(&self, name: &[u8]) -> (index: Option<usize>)
        ensures
            match index {
                Some(i) => self@.child_index(name@) == Some(i as int) && i < self.children@.len(),
                None => self@.child_index(name@) is None,
            },
    {
        let mut i: usize = 0;
        while i < self.children.len()
            invariant
                i <= self.children.len(),
                self@.child_index(name@) == named_from(self@.children, name@, i as int),
            decreases self.children.len() - i,
        {
            assert(self.children@[i as int]@.name == self.children@[i as int].name.spec_bytes());
            if same_bytes(self.children[i].name.as_bytes(), name) {
                return Some(i);
            }
            i += 1;
        }
        None
    }

    /// Index of the child that the path segment `segment` leads to.
    fn step_position(&self, segment: &[u8]) -> (index: Option<usize>)
        ensures
            match index {
                Some(i) => self@.step_index(segment@) == Some(i as int) && i
                    < self.children@.len(),
                None => self@.step_index(segment@) is None,
            },
    {
        if let Some(i) = self.child_position(segment) {
            return Some(i);
        }
        let mut i: usize = 0;
        while i < self.children.len()
            invariant
                i <= self.children.len(),
                self@.child_index(segment@) is None,
                self@.step_index(segment@) == based_from(self@.children, segment@, i as int),
            decreases self.children.len() - i,
        {
            assert(self.children@[i as int]@.name == self.children@[i as int].name.spec_bytes());
            if reads_before_at(self.children[i].name.as_bytes(), segment) {
                return Some(i);
            }
            i += 1;
        }
        None
    }

    /// The node that the slash-separated segments of `path` lead to from
    /// this node.
    fn find_node_by_parts(&self, path: &[u8]) -> (found: Option<&DeviceTreeNode<'a>>)
        ensures
            found == self.follow(path_segments(path@)),
            match found {
                Some(n) => self@.descend(path_segments(path@)) == Some(n@),
                None => self@.descend(path_segments(path@)) is None,
            },
    {
        let mut node: &DeviceTreeNode<'a> = self;
        let mut start: usize = 0;
        assert(path@.subrange(0, path@.len() as int) =~= path@);
        loop
            invariant
                start <= path.len(),
                self.follow(path_segments(path@)) == node.follow(
                    path_segments(path@.subrange(start as int, path@.len() as int)),
                ),
                self@.descend(path_segments(path@)) == node@.descend(
                    path_segments(path@.subrange(start as int, path@.len() as int)),
                ),
            decreases path.len() - start,
        {
            let ghost tail = path@.subrange(start as int, path@.len() as int);
            let mut end: usize = start;
            while end < path.len() && path[end] != SLASH
                invariant
                    start <= end <= path.len(),
                    forall|j: int| start <= j < end ==> path@[j] != SLASH,
                decreases path.len() - end,
            {
                end += 1;
            }
            let segment = &path[start..end];
            proof {
                lemma_first_index_of_is(tail, SLASH, end - start);
                assert(tail.subrange(0, end - start) =~= segment@);
                assert(end == path.len() ==> segment@ =~= tail);
                let segments = path_segments(tail);
                assert(segments[0] == segment@);
                if end < path.len() {
                    assert(tail.subrange(end - start + 1, tail.len() as int) =~= path@.subrange(
                        end + 1,
                        path@.len() as int,
                    ));
                    assert(segments.drop_first() =~= path_segments(
                        path@.subrange(end + 1, path@.len() as int),
                    ));
                } else {
                    assert(segments.drop_first() =~= Seq::<Seq<u8>>::empty());
                }
            }
            match node.step_position(segment) {
                Some(i) => {
                    node = &node.children[i];
                },
                None => {
                    return None;
                },
            }
            if end == path.len() {
                assert(node.follow(Seq::<Seq<u8>>::empty()) == Some(node));
                assert(node@.descend(Seq::<Seq<u8>>::empty()) == Some(node@));
                return Some(node);
            }
            start = end + 1;
        }
    }

    /// The node at an absolute path such as `/cpus/cpu@0`. The empty path
    /// and `/` name this node; a segment matches a child by its whole name
    /// or, failing that, by the part of its name before `@`.
    pub fn find_node(&self, path: &str) -> (found: Option<&DeviceTreeNode<'a>>)
        ensures
            found == self.node_at(path.spec_bytes()),
            match found {
                Some(n) => self@.find(path.spec_bytes()) == Some(n@),
                None => self@.find(path.spec_bytes()) is None,
            },
            path.spec_bytes().len() == 0 || path.spec_bytes() == seq![SLASH] ==> found == Some(
                self,
            ),
    {
        let bytes = path.as_bytes();
        if bytes.len() == 0 {
            return Some(self);
        }
        if bytes[0] == SLASH {
            if bytes.len() == 1 {
                assert(bytes@ =~= seq![SLASH]);
                return Some(self);
            }
            assert(bytes@.drop_first() =~= bytes@.subrange(1, bytes@.len() as int));
            self.find_node_by_parts(&bytes[1..bytes.len()])
        } else {
            self.find_node_by_parts(bytes)
        }
    }

    /// The value of the first property called `name`.
    fn value_of(&self, name: &str) -> (value: Option<&PropertyValue<'a>>)
        ensures
            match value {
                Some(v) => self@.lookup(name.spec_bytes()) == Some(v@),
                None => self@.lookup(name.spec_bytes()) is None,
            },
    {
        match self.find_property(name) {
            Some(property) => Some(&property.value),
            None => None,
        }
    }

    /// The first property called `name`, read as one 32-bit integer.
    pub fn prop_u32(&self, name: &str) -> (value: Option<u32>)
        ensures
            value == self@.u32_of(name.spec_bytes()),
    {
        match self.value_of(name) {
            Some(v) => v.to_u32(),
            None => None,
        }
    }

    /// The first property called `name`, read as one text.
    pub fn prop_string(&self, name: &str) -> (text: Option<&'a str>)
        ensures
            match text {
                Some(t) => self@.lookup(name.spec_bytes()) is Some && self@.lookup(
                    name.spec_bytes(),
                )->0.as_text() == Some(t.spec_bytes()),
                None => self@.lookup(name.spec_bytes()) is None || self@.lookup(
                    name.spec_bytes(),
                )->0.as_text() is None,
            },
    {
        match self.value_of(name) {
            Some(v) => v.to_text(),
            None => None,
        }
    }

    /// The first property called `name`, read as 32-bit integers.
    pub fn prop_u32_array(&self, name: &str) -> (values: Option<Vec<u32>>)
        ensures
            match values {
                Some(list) => self@.u32_seq_of(name.spec_bytes()) == Some(list@),
                None => self@.u32_seq_of(name.spec_bytes()) is None,
            },
    {
        match self.value_of(name) {
            Some(v) => v.to_u32_array(),
            None => None,
        }
    }

    /// The first property called `name`, read as one 64-bit integer.
    pub fn prop_u64(&self, name: &str) -> (value: Option<u64>)
        ensures
            value == match self@.lookup(name.spec_bytes()) {
                Some(v) => v.as_u64(),
                None => None,
            },
    {
        match self.value_of(name) {
            Some(v) => v.to_u64(),
            None => None,
        }
    }

    /// The first property called `name`, where it is raw bytes.
    pub fn prop_bytes(&self, name: &str) -> (bytes: Option<&'a [u8]>)
        ensures
            match bytes {
                Some(b) => self@.lookup(name.spec_bytes()) is Some && self@.lookup(
                    name.spec_bytes(),
                )->0.as_raw() == Some(b@),
                None => self@.lookup(name.spec_bytes()) is None || self@.lookup(
                    name.spec_bytes(),
                )->0.as_raw() is None,
            },
    {
        match self.value_of(name) {
            Some(v) => v.to_raw(),
            None => None,
        }
    }

    /// An iterator over the properties in definition order.
    pub fn iter_properties(&self) -> (properties: core::slice::Iter<'_, Property<'a>>)
        ensures
            vstd::std_specs::slice::into_iter_elts(properties) =~= self.properties@,
    {
        self.properties.iter()
    }

    /// An iterator over the children in definition order.
    pub fn iter_children(&self) -> (children: core::slice::Iter<'_, DeviceTreeNode<'a>>)
        ensures
            vstd::std_specs::slice::into_iter_elts(children) =~= self.children@,
    {
        self.children.iter()
    }

    /// Whether a property called `name` is present.
    pub fn has_property(&self, name: &str) -> (present: bool)
        ensures
            present == self@.lookup(name.spec_bytes()) is Some,
    {
        self.find_property(name).is_some()
    }
}

/// Whether `name` holds an `@` and reads `base` before the first one.
fn reads_before_at(name: &[u8], base: &[u8]) -> (matches: bool)
    ensures
        matches == has_base_name(name@, base@),
{
    let mut at: usize = 0;
    while at < name.len() && name[at] != AT_SIGN
        invariant
            at <= name.len(),
            forall|j: int| 0 <= j < at ==> name@[j] != AT_SIGN,
        decreases name.len() - at,
    {
        at += 1;
    }
    proof {
        lemma_first_index_of_is(name@, AT_SIGN, at as int);
    }
    if at == name.len() {
        return false;
    }
    same_bytes(&name[0..at], base)
}

impl<'a> core::ops::Index<usize> for DeviceTreeNode<'a> {
    type Output = DeviceTreeNode<'a>;

    /// The child at position `index`.
    fn index(&self, index: usize) -> (child: &DeviceTreeNode<'a>)
        ensures
            *child == self.children@[index as int],
    {
        &self.children[index]
    }
}

impl<'a> vstd::std_specs::core::IndexSpecImpl<usize> for DeviceTreeNode<'a> {
    open spec fn index_req(&self, index: &usize) -> bool {
        *index < self.children@.len()
    }
}

impl<'a> core::ops::Index<&str> for DeviceTreeNode<'a> {
    type Output = Property<'a>;

    /// The first property called `property_name`.
    fn index(&self, property_name: &str) -> (property: &Property<'a>)
        ensures
            *property == self.properties@[self@.property_index(property_name.spec_bytes())->0],
    {
        match self.property_position(property_name.as_bytes()) {
            Some(i) => &self.properties[i],
            None => vstd::pervasive::unreached(),
        }
    }
}

impl<'a> vstd::std_specs::core::IndexSpecImpl<&str> for DeviceTreeNode<'a> {
    open spec fn index_req(&self, property_name: &&str) -> bool {
        self@.property_index(property_name.spec_bytes()) is Some
    }
}

impl<'a> IntoIterator for &'a DeviceTreeNode<'a> {
    type Item = &'a DeviceTreeNode<'a>;

    type IntoIter = core::slice::Iter<'a, DeviceTreeNode<'a>>;

    /// Iterates over the children in definition order.
    fn into_iter(self) -> (children: core::slice::Iter<'a, DeviceTreeNode<'a>>)
        ensures
            vstd::std_specs::slice::into_iter_elts(children) =~= self.children@,
    {
        self.children.iter()
    }
}

impl<'a> Clone for DeviceTreeNode<'a> {
    /// A deep copy of this node.
    fn clone(&self) -> (copy: Self)
        ensures
            copy@ == self@,
    {
        self.deep_copy()
    }
}

impl<'a> Default for DeviceTreeNode<'a> {
    fn default() -> (node: Self)
        ensures
            node@.name == "".spec_bytes(),
            node@.properties.len() == 0,
            node@.children.len() == 0,
    {
        DeviceTreeNode { name: "", properties: Vec::new(), children: Vec::new() }
    }
}

} // verus!
