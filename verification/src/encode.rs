//! The encoding rules of the format as spec functions, and the proofs that
//! decoding inverts them.

use vstd::prelude::*;
use vstd::utf8::valid_utf8;
use crate::builder::{
    empty_node, spec_build, spec_node_name, spec_property, spec_property_name, spec_step,
    spec_text, spec_tree, with_property, with_top_closed, BuildStep,
};
use crate::bytes::{be_u32, be_u64, first_index_of, lemma_first_index_of, lemma_first_index_of_is};
use crate::error::DtbError;
use crate::header::DtbHeader;
use crate::memory::MemoryReservation;
use crate::node::{NodeModel, PropertyModel};
use crate::tokens::DtbToken;
use crate::value::{be_u32_seq, is_text, spec_decode, text_runs, ValueModel};

verus! {

/// The four big-endian bytes of a 32-bit value.
pub open spec fn u32_be(value: u32) -> Seq<u8> {
    seq![
        (value / 0x100_0000) as u8,
        (value / 0x1_0000 % 0x100) as u8,
        (value / 0x100 % 0x100) as u8,
        (value % 0x100) as u8,
    ]
}

/// The eight big-endian bytes of a 64-bit value.
pub open spec fn u64_be(value: u64) -> Seq<u8> {
    u32_be((value / 0x1_0000_0000) as u32) + u32_be((value % 0x1_0000_0000) as u32)
}

/// Reading a 32-bit value back from wherever its bytes stand gives the
/// value.
pub proof fn lemma_u32_round_trip(bytes: Seq<u8>, at: int, value: u32)
    requires
        0 <= at,
        at + 4 <= bytes.len(),
        bytes.subrange(at, at + 4) == u32_be(value),
    ensures
        be_u32(bytes, at) == value,
{
    let word = bytes.subrange(at, at + 4);
    assert(word[0] == bytes[at]);
    assert(word[1] == bytes[at + 1]);
    assert(word[2] == bytes[at + 2]);
    assert(word[3] == bytes[at + 3]);
}

/// Reading a 64-bit value back from wherever its bytes stand gives the
/// value.
pub proof fn lemma_u64_round_trip(bytes: Seq<u8>, at: int, value: u64)
    requires
        0 <= at,
        at + 8 <= bytes.len(),
        bytes.subrange(at, at + 8) == u64_be(value),
    ensures
        be_u64(bytes, at) == value,
{
    let high = (value / 0x1_0000_0000) as u32;
    let low = (value % 0x1_0000_0000) as u32;
    let both = bytes.subrange(at, at + 8);
    assert(bytes.subrange(at, at + 4) =~= both.subrange(0, 4));
    assert(bytes.subrange(at + 4, at + 8) =~= both.subrange(4, 8));
    assert(both.subrange(0, 4) =~= u32_be(high));
    assert(both.subrange(4, 8) =~= u32_be(low));
    lemma_u32_round_trip(bytes, at, high);
    lemma_u32_round_trip(bytes, at + 4, low);
}

/// The 16 bytes of one reservation entry.
pub open spec fn encode_reservation(entry: MemoryReservation) -> Seq<u8> {
    u64_be(entry.address) + u64_be(entry.size)
}

/// The bytes of the entries one after the other, without the sentinel.
pub open spec fn encode_entries(entries: Seq<MemoryReservation>) -> Seq<u8>
    decreases entries.len(),
{
    if entries.len() == 0 {
        Seq::empty()
    } else {
        encode_reservation(entries[0]) + encode_entries(entries.drop_first())
    }
}

/// A reservation block: the entries, then the all-zero sentinel.
pub open spec fn encode_reservations(entries: Seq<MemoryReservation>) -> Seq<u8> {
    encode_entries(entries) + encode_reservation(MemoryReservation { address: 0, size: 0 })
}

/// Reading one entry back from the front of its bytes gives the entry.
pub proof fn lemma_entry_round_trip(entry: MemoryReservation, tail: Seq<u8>)
    ensures
        MemoryReservation::spec_entry(encode_reservation(entry) + tail, 0) == entry,
        (encode_reservation(entry) + tail).len() == 16 + tail.len(),
        (encode_reservation(entry) + tail).subrange(16, 16 + tail.len() as int) == tail,
{
    let bytes = encode_reservation(entry) + tail;
    assert(bytes.subrange(0, 8) =~= u64_be(entry.address));
    assert(bytes.subrange(8, 16) =~= u64_be(entry.size));
    lemma_u64_round_trip(bytes, 0, entry.address);
    lemma_u64_round_trip(bytes, 8, entry.size);
    assert(bytes.subrange(16, 16 + tail.len() as int) =~= tail);
}

/// A list of any number of entries, none of them all-zero, followed by the
/// sentinel decodes to exactly those entries in their order, and what
/// stands behind the sentinel is handed back untouched.
pub proof fn lemma_reservations_round_trip(entries: Seq<MemoryReservation>, tail: Seq<u8>)
    requires
        forall|i: int| 0 <= i < entries.len() ==> !(#[trigger] entries[i]).is_sentinel(),
    ensures
        MemoryReservation::spec_parse_all(encode_reservations(entries) + tail, true) == Ok::<
            (Seq<u8>, Seq<MemoryReservation>),
            DtbError,
        >((tail, entries)),
    decreases entries.len(),
{
    let sentinel = MemoryReservation { address: 0, size: 0 };
    let block = encode_reservations(entries) + tail;
    if entries.len() == 0 {
        assert(block =~= encode_reservation(sentinel) + tail);
        lemma_entry_round_trip(sentinel, tail);
        assert(entries =~= Seq::<MemoryReservation>::empty());
    } else {
        let first = entries[0];
        let others = entries.drop_first();
        let behind = encode_reservations(others) + tail;
        assert(block =~= encode_reservation(first) + behind);
        lemma_entry_round_trip(first, behind);
        lemma_reservations_round_trip(others, tail);
        assert(seq![first] + others =~= entries);
    }
}

/// The 40 bytes of a header.
pub open spec fn encode_header(header: DtbHeader) -> Seq<u8> {
    u32_be(header.magic) + u32_be(header.totalsize) + u32_be(header.off_dt_struct) + u32_be(
        header.off_dt_strings,
    ) + u32_be(header.off_mem_rsvmap) + u32_be(header.version) + u32_be(header.last_comp_version)
        + u32_be(header.boot_cpuid_phys) + u32_be(header.size_dt_strings) + u32_be(
        header.size_dt_struct,
    )
}

/// A header that carries the magic number decodes to itself, field for
/// field, and what stands behind it is handed back untouched.
pub proof fn lemma_header_round_trip(header: DtbHeader, tail: Seq<u8>)
    requires
        header.magic == DtbHeader::MAGIC,
    ensures
        DtbHeader::spec_parse(encode_header(header) + tail) == Ok::<(Seq<u8>, DtbHeader), DtbError>(
            (tail, header),
        ),
{
    let bytes = encode_header(header) + tail;
    assert(bytes.len() == 40 + tail.len());
    assert(bytes.subrange(0, 4) =~= u32_be(header.magic));
    assert(bytes.subrange(4, 8) =~= u32_be(header.totalsize));
    assert(bytes.subrange(8, 12) =~= u32_be(header.off_dt_struct));
    assert(bytes.subrange(12, 16) =~= u32_be(header.off_dt_strings));
    assert(bytes.subrange(16, 20) =~= u32_be(header.off_mem_rsvmap));
    assert(bytes.subrange(20, 24) =~= u32_be(header.version));
    assert(bytes.subrange(24, 28) =~= u32_be(header.last_comp_version));
    assert(bytes.subrange(28, 32) =~= u32_be(header.boot_cpuid_phys));
    assert(bytes.subrange(32, 36) =~= u32_be(header.size_dt_strings));
    assert(bytes.subrange(36, 40) =~= u32_be(header.size_dt_struct));
    lemma_u32_round_trip(bytes, 0, header.magic);
    lemma_u32_round_trip(bytes, 4, header.totalsize);
    lemma_u32_round_trip(bytes, 8, header.off_dt_struct);
    lemma_u32_round_trip(bytes, 12, header.off_dt_strings);
    lemma_u32_round_trip(bytes, 16, header.off_mem_rsvmap);
    lemma_u32_round_trip(bytes, 20, header.version);
    lemma_u32_round_trip(bytes, 24, header.last_comp_version);
    lemma_u32_round_trip(bytes, 28, header.boot_cpuid_phys);
    lemma_u32_round_trip(bytes, 32, header.size_dt_strings);
    lemma_u32_round_trip(bytes, 36, header.size_dt_struct);
    assert(bytes.subrange(40, bytes.len() as int) =~= tail);
}

/// A property as it is written: its name, where that name stands in the
/// strings block, and its raw payload.
pub struct PropertySource {
    pub name: Seq<u8>,
    pub name_offset: u32,
    pub payload: Seq<u8>,
}

/// A node as it is written.
pub struct NodeSource {
    pub name: Seq<u8>,
    pub properties: Seq<PropertySource>,
    pub children: Seq<NodeSource>,
}

/// `count` zero bytes.
pub open spec fn zeros(count: int) -> Seq<u8> {
    Seq::new(count as nat, |i: int| 0u8)
}

/// A name with its closing NUL and its padding.
pub open spec fn encode_name(name: Seq<u8>) -> Seq<u8> {
    name + seq![0u8] + zeros(DtbToken::spec_padding(name.len() as int + 1))
}

/// A property record without its token: length, name offset, payload,
/// padding.
pub open spec fn encode_record(property: PropertySource) -> Seq<u8> {
    u32_be(property.payload.len() as u32) + u32_be(property.name_offset) + property.payload
        + zeros(DtbToken::spec_padding(property.payload.len() as int))
}

/// Property records, each behind its token, one after the other.
pub open spec fn encode_properties(properties: Seq<PropertySource>) -> Seq<u8>
    decreases properties.len(),
{
    if properties.len() == 0 {
        Seq::empty()
    } else {
        u32_be(DtbToken::FDT_PROP) + encode_record(properties[0]) + encode_properties(
            properties.drop_first(),
        )
    }
}

/// A node: begin token, name, properties, children, end token.
pub open spec fn encode_node(node: NodeSource) -> Seq<u8>
    decreases node,
{
    u32_be(DtbToken::FDT_BEGIN_NODE) + encode_name(node.name) + encode_properties(node.properties)
        + encode_nodes(node.children) + u32_be(DtbToken::FDT_END_NODE)
}

/// Nodes one after the other.
pub open spec fn encode_nodes(nodes: Seq<NodeSource>) -> Seq<u8>
    decreases nodes,
{
    if nodes.len() == 0 {
        Seq::empty()
    } else {
        encode_node(nodes[0]) + encode_nodes(nodes.drop_first())
    }
}

/// Whether a name can be written: it holds no NUL and is UTF-8.
pub open spec fn writable_name(name: Seq<u8>) -> bool {
    first_index_of(name, 0) == name.len() && valid_utf8(name)
}

/// Whether a property can be written against a strings block: its payload
/// length fits the length field and its name stands at its offset.
pub open spec fn writable_property(property: PropertySource, strings_block: Seq<u8>) -> bool {
    property.payload.len() <= u32::MAX && spec_property_name(
        strings_block,
        property.name_offset as int,
    ) == Ok::<Seq<u8>, DtbError>(property.name)
}

/// Whether a node and everything below it can be written.
pub open spec fn writable_node(node: NodeSource, strings_block: Seq<u8>) -> bool
    decreases node,
{
    writable_name(node.name) && (forall|i: int|
        0 <= i < node.properties.len() ==> writable_property(
            #[trigger] node.properties[i],
            strings_block,
        )) && (forall|i: int|
        0 <= i < node.children.len() ==> writable_node(#[trigger] node.children[i], strings_block))
}

/// The property that decoding is to give back: the name, and the payload
/// with the type that the priority rule gives it.
pub open spec fn property_model(property: PropertySource) -> PropertyModel {
    PropertyModel { name: property.name, value: spec_decode(property.payload) }
}

/// The properties that decoding is to give back.
pub open spec fn property_models(properties: Seq<PropertySource>) -> Seq<PropertyModel> {
    Seq::new(properties.len(), |i: int| property_model(properties[i]))
}

/// The node that decoding is to give back.
pub open spec fn node_model(node: NodeSource) -> NodeModel
    decreases node,
{
    NodeModel {
        name: node.name,
        properties: property_models(node.properties),
        children: Seq::new(
            node.children.len(),
            |i: int|
                if 0 <= i < node.children.len() {
                    node_model(node.children[i])
                } else {
                    arbitrary()
                },
        ),
    }
}

/// The nodes that decoding is to give back.
pub open spec fn node_models(nodes: Seq<NodeSource>) -> Seq<NodeModel> {
    Seq::new(nodes.len(), |i: int| node_model(nodes[i]))
}

/// The stack with `properties` attached to its top node.
pub open spec fn with_properties(stack: Seq<NodeModel>, properties: Seq<PropertyModel>) -> Seq<
    NodeModel,
> {
    stack.drop_last().push(
        NodeModel { properties: stack.last().properties + properties, ..stack.last() },
    )
}

/// The stack with `children` appended to the children of its top node.
pub open spec fn with_children(stack: Seq<NodeModel>, children: Seq<NodeModel>) -> Seq<NodeModel> {
    stack.drop_last().push(
        NodeModel { children: stack.last().children + children, ..stack.last() },
    )
}

/// A token is read back from its four bytes.
pub proof fn lemma_token_round_trip(token: DtbToken, tail: Seq<u8>)
    ensures
        DtbToken::spec_parse(u32_be(token.spec_to_u32()) + tail, true) == Ok::<
            (Seq<u8>, DtbToken),
            DtbError,
        >((tail, token)),
{
    let bytes = u32_be(token.spec_to_u32()) + tail;
    assert(bytes.subrange(0, 4) =~= u32_be(token.spec_to_u32()));
    lemma_u32_round_trip(bytes, 0, token.spec_to_u32());
    assert(bytes.subrange(4, bytes.len() as int) =~= tail);
}

/// A writable name is read back from its bytes.
pub proof fn lemma_name_round_trip(name: Seq<u8>, tail: Seq<u8>)
    requires
        writable_name(name),
    ensures
        spec_node_name(encode_name(name) + tail) == Ok::<(Seq<u8>, Seq<u8>), DtbError>(
            (tail, name),
        ),
{
    let padding = DtbToken::spec_padding(name.len() as int + 1);
    let bytes = encode_name(name) + tail;
    let k = name.len() as int;
    lemma_first_index_of(name, 0);
    assert forall|i: int| 0 <= i < k implies bytes[i] != 0 by {
        assert(bytes[i] == name[i]);
    }
    assert(bytes[k] == 0);
    lemma_first_index_of_is(bytes, 0, k);
    assert(bytes.subrange(0, k) =~= name);
    let rest = bytes.subrange(k + 1, bytes.len() as int);
    assert(rest =~= zeros(padding) + tail);
    assert(spec_text(bytes) == Ok::<(Seq<u8>, Seq<u8>), DtbError>((rest, name)));
    assert(bytes.len() - rest.len() == k + 1);
    assert(rest.subrange(padding, rest.len() as int) =~= tail);
}

/// A writable property record is read back from its bytes.
pub proof fn lemma_record_round_trip(
    property: PropertySource,
    strings_block: Seq<u8>,
    tail: Seq<u8>,
)
    requires
        writable_property(property, strings_block),
    ensures
        spec_property(encode_record(property) + tail, strings_block) == Ok::<
            (Seq<u8>, PropertyModel),
            DtbError,
        >((tail, property_model(property))),
{
    let length = property.payload.len() as int;
    let padding = DtbToken::spec_padding(length);
    let bytes = encode_record(property) + tail;
    assert(bytes.len() == 8 + length + padding + tail.len());
    assert(bytes.subrange(0, 4) =~= u32_be(length as u32));
    assert(bytes.subrange(4, 8) =~= u32_be(property.name_offset));
    lemma_u32_round_trip(bytes, 0, length as u32);
    lemma_u32_round_trip(bytes, 4, property.name_offset);
    assert(bytes.subrange(8, 8 + length) =~= property.payload);
    assert(bytes.subrange(8 + length + padding, bytes.len() as int) =~= tail);
}

/// Written properties are attached to the top open node, in order, and
/// the builder goes on behind them.
pub proof fn lemma_build_properties(
    properties: Seq<PropertySource>,
    strings_block: Seq<u8>,
    tail: Seq<u8>,
    stack: Seq<NodeModel>,
)
    requires
        stack.len() > 0,
        forall|i: int|
            0 <= i < properties.len() ==> writable_property(
                #[trigger] properties[i],
                strings_block,
            ),
    ensures
        spec_build(encode_properties(properties) + tail, strings_block, true, stack) == spec_build(
            tail,
            strings_block,
            true,
            with_properties(stack, property_models(properties)),
        ),
    decreases properties.len(),
{
    if properties.len() == 0 {
        assert(encode_properties(properties) + tail =~= tail);
        assert(stack.last().properties + property_models(properties) =~= stack.last().properties);
        assert(with_properties(stack, property_models(properties)) =~= stack);
    } else {
        let first = properties[0];
        let others = properties.drop_first();
        let input = encode_properties(properties) + tail;
        let behind = encode_properties(others) + tail;
        let record = encode_record(first) + behind;
        assert(input =~= u32_be(DtbToken::FDT_PROP) + record);
        lemma_token_round_trip(DtbToken::Property, record);
        lemma_record_round_trip(first, strings_block, behind);
        let next = with_property(stack, property_model(first));
        assert(spec_step(input, strings_block, true, stack) == BuildStep::Next(behind, next)) by {
            reveal(spec_step);
        }
        assert(behind.len() < input.len());
        lemma_build_properties(others, strings_block, tail, next);
        assert(seq![property_model(first)] + property_models(others) =~= property_models(
            properties,
        ));
        assert(next.last().properties + property_models(others) =~= stack.last().properties
            + property_models(properties));
        assert(with_properties(next, property_models(others)) =~= with_properties(
            stack,
            property_models(properties),
        ));
    }
}

/// A written node is built whole: it is the result where no node was open,
/// and else it becomes the last child of the top open node and the builder
/// goes on behind it.
pub proof fn lemma_build_node(
    node: NodeSource,
    strings_block: Seq<u8>,
    tail: Seq<u8>,
    stack: Seq<NodeModel>,
)
    requires
        writable_node(node, strings_block),
    ensures
        spec_build(encode_node(node) + tail, strings_block, true, stack) == if stack.len() == 0 {
            Ok::<NodeModel, DtbError>(node_model(node))
        } else {
            spec_build(tail, strings_block, true, with_children(stack, seq![node_model(node)]))
        },
    decreases node, 1nat,
{
    let input = encode_node(node) + tail;
    let closing = u32_be(DtbToken::FDT_END_NODE) + tail;
    let after_properties = encode_nodes(node.children) + closing;
    let after_name = encode_properties(node.properties) + after_properties;
    let named = encode_name(node.name) + after_name;
    assert(input =~= u32_be(DtbToken::FDT_BEGIN_NODE) + named);
    lemma_token_round_trip(DtbToken::BeginNode, named);
    lemma_name_round_trip(node.name, after_name);
    let opened = stack.push(empty_node(node.name));
    assert(spec_step(input, strings_block, true, stack) == BuildStep::Next(after_name, opened)) by {
        reveal(spec_step);
    }
    assert(after_name.len() < input.len());
    lemma_build_properties(node.properties, strings_block, after_properties, opened);
    let filled = with_properties(opened, property_models(node.properties));
    lemma_build_nodes(node.children, strings_block, closing, filled);
    let full = with_children(filled, node_models(node.children));
    lemma_token_round_trip(DtbToken::EndNode, tail);
    assert(Seq::<PropertyModel>::empty() + property_models(node.properties) =~= property_models(
        node.properties,
    ));
    assert(Seq::<NodeModel>::empty() + node_models(node.children) =~= node_model(node).children);
    assert(full.last() == node_model(node));
    assert(full.drop_last() =~= stack);
    if stack.len() == 0 {
        assert(spec_step(closing, strings_block, true, full) == BuildStep::Done(
            Ok(node_model(node)),
        )) by {
            reveal(spec_step);
        }
    } else {
        assert(with_top_closed(full) =~= with_children(stack, seq![node_model(node)])) by {
            assert(stack.last().children.push(node_model(node)) =~= stack.last().children + seq![
                node_model(node),
            ]);
            assert(full.drop_last().drop_last() =~= stack.drop_last());
        }
        assert(spec_step(closing, strings_block, true, full) == BuildStep::Next(
            tail,
            with_top_closed(full),
        )) by {
            reveal(spec_step);
        }
        assert(tail.len() < closing.len());
    }
}

/// Written nodes become the next children of the top open node, in order,
/// and the builder goes on behind them.
pub proof fn lemma_build_nodes(
    nodes: Seq<NodeSource>,
    strings_block: Seq<u8>,
    tail: Seq<u8>,
    stack: Seq<NodeModel>,
)
    requires
        stack.len() > 0,
        forall|i: int| 0 <= i < nodes.len() ==> writable_node(#[trigger] nodes[i], strings_block),
    ensures
        spec_build(encode_nodes(nodes) + tail, strings_block, true, stack) == spec_build(
            tail,
            strings_block,
            true,
            with_children(stack, node_models(nodes)),
        ),
    decreases nodes, 0nat,
{
    if nodes.len() == 0 {
        assert(encode_nodes(nodes) + tail =~= tail);
        assert(stack.last().children + node_models(nodes) =~= stack.last().children);
        assert(with_children(stack, node_models(nodes)) =~= stack);
    } else {
        let first = nodes[0];
        let others = nodes.drop_first();
        let behind = encode_nodes(others) + tail;
        assert(encode_nodes(nodes) + tail =~= encode_node(first) + behind);
        lemma_build_node(first, strings_block, behind, stack);
        let next = with_children(stack, seq![node_model(first)]);
        lemma_build_nodes(others, strings_block, tail, next);
        assert(seq![node_model(first)] + node_models(others) =~= node_models(nodes));
        assert(next.last().children + node_models(others) =~= stack.last().children + node_models(
            nodes,
        ));
        assert(with_children(next, node_models(others)) =~= with_children(
            stack,
            node_models(nodes),
        ));
    }
}

/// Round trip of the structure block: a tree written by the encoding rules
/// against a strings block that holds its property names, with anything
/// behind it, is decoded to exactly that tree: every name, every property
/// and every child, in the order written.
pub proof fn lemma_tree_round_trip(tree: NodeSource, strings_block: Seq<u8>, tail: Seq<u8>)
    requires
        writable_node(tree, strings_block),
    ensures
        spec_tree(encode_node(tree) + tail, strings_block, true) == Ok::<NodeModel, DtbError>(
            node_model(tree),
        ),
{
    lemma_build_node(tree, strings_block, tail, Seq::empty());
}

/// The bytes of 32-bit cells one after the other.
pub open spec fn encode_cells(cells: Seq<u32>) -> Seq<u8>
    decreases cells.len(),
{
    if cells.len() == 0 {
        Seq::empty()
    } else {
        encode_cells(cells.drop_last()) + u32_be(cells.last())
    }
}

/// A text written with its closing NUL is read back as that text, where it
/// is not empty, holds no NUL and is made of text bytes.
pub proof fn lemma_text_payload(text: Seq<u8>)
    requires
        text.len() > 0,
        is_text(text),
        first_index_of(text, 0) == text.len(),
    ensures
        spec_decode(text + seq![0u8]) == ValueModel::String(text),
{
    let payload = text + seq![0u8];
    let k = text.len() as int;
    lemma_first_index_of(text, 0);
    assert forall|i: int| 0 <= i < k implies payload[i] != 0 by {
        assert(payload[i] == text[i]);
    }
    lemma_first_index_of_is(payload, 0, k);
    assert forall|i: int| 0 <= i < payload.len() implies crate::value::is_text_byte(
        #[trigger] payload[i],
    ) by {
        if i < k {
            assert(payload[i] == text[i]);
        }
    }
    assert(payload.subrange(0, k) =~= text);
    assert(payload.subrange(k + 1, payload.len() as int) =~= Seq::<u8>::empty());
    assert(text_runs(Seq::<u8>::empty()) =~= Seq::<Seq<u8>>::empty());
    assert(text_runs(payload) =~= seq![text]);
}

/// One cell is read back as that integer, unless its four bytes happen to
/// be text bytes, which the text reading claims first.
pub proof fn lemma_cell_payload(value: u32)
    requires
        !is_text(u32_be(value)),
    ensures
        spec_decode(u32_be(value)) == ValueModel::U32(value),
{
    let payload = u32_be(value);
    assert(payload.subrange(0, 4) =~= payload);
    lemma_u32_round_trip(payload, 0, value);
}

/// The bytes of `cells` hold four bytes a cell and decode to the cells.
pub proof fn lemma_cells_round_trip(cells: Seq<u32>)
    ensures
        encode_cells(cells).len() == 4 * cells.len(),
        be_u32_seq(encode_cells(cells)) == cells,
    decreases cells.len(),
{
    if cells.len() == 0 {
        assert(be_u32_seq(encode_cells(cells)) =~= cells);
    } else {
        let front = cells.drop_last();
        let bytes = encode_cells(cells);
        lemma_cells_round_trip(front);
        let n = front.len() as int;
        assert(bytes.len() == 4 * cells.len());
        assert forall|i: int| 0 <= i < cells.len() implies be_u32(bytes, 4 * i) == cells[i] by {
            if i < n {
                assert(be_u32_seq(encode_cells(front))[i] == front[i]);
                assert(be_u32(encode_cells(front), 4 * i) == front[i]);
                assert(bytes[4 * i] == encode_cells(front)[4 * i]);
                assert(bytes[4 * i + 1] == encode_cells(front)[4 * i + 1]);
                assert(bytes[4 * i + 2] == encode_cells(front)[4 * i + 2]);
                assert(bytes[4 * i + 3] == encode_cells(front)[4 * i + 3]);
            } else {
                assert(bytes.subrange(4 * n, 4 * n + 4) =~= u32_be(cells.last()));
                lemma_u32_round_trip(bytes, 4 * n, cells.last());
            }
        }
        assert(be_u32_seq(bytes) =~= cells);
    }
}

/// Two or more cells are read back as an integer array that holds them,
/// unless all their bytes happen to be text bytes.
pub proof fn lemma_cells_payload(cells: Seq<u32>)
    requires
        cells.len() >= 2,
        !is_text(encode_cells(cells)),
    ensures
        spec_decode(encode_cells(cells)) == ValueModel::U32Array(encode_cells(cells)),
        spec_decode(encode_cells(cells)).as_u32_seq() == Some(cells),
{
    lemma_cells_round_trip(cells);
}

} // verus!
