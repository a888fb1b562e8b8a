//! The structure block: names, properties, and the stack machine that
//! assembles them into a tree.

use vstd::prelude::*;
use vstd::string::StringSliceAdditionalSpecFns;
use vstd::utf8::valid_utf8;
use crate::bytes::{
    be_u32, first_index_of, lemma_first_index_of_is, read_be_u32, start_address, text_from_utf8,
};
use crate::error::DtbError;
use crate::node::{DeviceTreeNode, NodeModel, Property, PropertyModel};
use crate::tokens::DtbToken;
use crate::value::{parse_property_value, spec_decode};

verus! {

/// What a decoder of text produced: the unread rest and the bytes of the text.
pub open spec fn text_outcome(result: Result<(&[u8], &str), DtbError>) -> Result<
    (Seq<u8>, Seq<u8>),
    DtbError,
> {
    match result {
        Ok((rest, text)) => Ok((rest@, text.spec_bytes())),
        Err(e) => Err(e),
    }
}

/// What decoding a property produced: the unread rest and the property.
pub open spec fn property_outcome(result: Result<(&[u8], Property), DtbError>) -> Result<
    (Seq<u8>, PropertyModel),
    DtbError,
> {
    match result {
        Ok((rest, property)) => Ok((rest@, property@)),
        Err(e) => Err(e),
    }
}

/// What building a tree produced.
pub open spec fn tree_outcome(result: Result<DeviceTreeNode, DtbError>) -> Result<
    NodeModel,
    DtbError,
> {
    match result {
        Ok(node) => Ok(node@),
        Err(e) => Err(e),
    }
}

/// The text before the first NUL of `input` and the bytes after that NUL;
/// malformed where there is no NUL or the text is not UTF-8.
pub open spec fn spec_text(input: Seq<u8>) -> Result<(Seq<u8>, Seq<u8>), DtbError> {
    let k = first_index_of(input, 0);
    if !(0 <= k < input.len()) {
        Err(DtbError::MalformedHeader)
    } else if !valid_utf8(input.subrange(0, k)) {
        Err(DtbError::MalformedHeader)
    } else {
        Ok((input.subrange(k + 1, input.len() as int), input.subrange(0, k)))
    }
}

/// A node name: NUL-terminated text, then padding that brings the name
/// with its NUL up to a multiple of four bytes.
pub open spec fn spec_node_name(input: Seq<u8>) -> Result<(Seq<u8>, Seq<u8>), DtbError> {
    match spec_text(input) {
        Err(e) => Err(e),
        Ok((rest, name)) => {
            let padding = DtbToken::spec_padding(input.len() - rest.len());
            if rest.len() < padding {
                Err(DtbError::MalformedHeader)
            } else {
                Ok((rest.subrange(padding, rest.len() as int), name))
            }
        },
    }
}

/// The property name at `offset` in the strings block.
pub open spec fn spec_property_name(strings_block: Seq<u8>, offset: int) -> Result<
    Seq<u8>,
    DtbError,
> {
    if !(0 <= offset < strings_block.len()) {
        Err(DtbError::MalformedHeader)
    } else {
        match spec_text(strings_block.subrange(offset, strings_block.len() as int)) {
            Ok((rest, name)) => Ok(name),
            Err(e) => Err(e),
        }
    }
}

/// A property record: payload length, name offset, payload, padding up to
/// a multiple of four bytes. All of it must lie within `input`, and the
/// name offset must resolve in the strings block.
pub open spec fn spec_property(input: Seq<u8>, strings_block: Seq<u8>) -> Result<
    (Seq<u8>, PropertyModel),
    DtbError,
> {
    if input.len() < 8 {
        Err(DtbError::MalformedHeader)
    } else {
        let length = be_u32(input, 0) as int;
        let padded = length + DtbToken::spec_padding(length);
        if input.len() - 8 < padded {
            Err(DtbError::MalformedHeader)
        } else {
            match spec_property_name(strings_block, be_u32(input, 4) as int) {
                Err(e) => Err(e),
                Ok(name) => Ok(
                    (
                        input.subrange(8 + padded, input.len() as int),
                        PropertyModel { name, value: spec_decode(input.subrange(8, 8 + length)) },
                    ),
                ),
            }
        }
    }
}

/// What one token does to the builder.
pub enum BuildStep {
    /// Go on with the rest of the input and this stack of open nodes.
    Next(Seq<u8>, Seq<NodeModel>),
    /// Stop with this result.
    Done(Result<NodeModel, DtbError>),
}

/// A fresh node called `name`.
pub open spec fn empty_node(name: Seq<u8>) -> NodeModel {
    NodeModel { name, properties: Seq::empty(), children: Seq::empty() }
}

/// The stack after a property was attached to its top node.
pub open spec fn with_property(stack: Seq<NodeModel>, property: PropertyModel) -> Seq<NodeModel>
    recommends
        stack.len() > 0,
{
    stack.drop_last().push(
        NodeModel { properties: stack.last().properties.push(property), ..stack.last() },
    )
}

/// The stack after its top node was closed and became the last child of
/// the node below it.
pub open spec fn with_top_closed(stack: Seq<NodeModel>) -> Seq<NodeModel>
    recommends
        stack.len() > 1,
{
    let parent = stack[stack.len() - 2];
    stack.drop_last().drop_last().push(
        NodeModel { children: parent.children.push(stack.last()), ..parent },
    )
}

/// Reads one token and what belongs to it, and applies it to the stack of
/// open nodes:
/// - begin-node pushes a fresh node with the name that follows;
/// - property reads the record that follows and attaches it to the top
///   node, and is an invalid token where no node is open;
/// - end-node closes the top node, which is the result where it was the
///   only open node and else becomes the last child of the node below, and
///   is an invalid token where no node is open;
/// - end yields the only open node, and is an invalid token where the
///   number of open nodes is not one.
#[verifier::opaque]
pub open spec fn spec_step(
    input: Seq<u8>,
    strings_block: Seq<u8>,
    aligned: bool,
    stack: Seq<NodeModel>,
) -> BuildStep {
    match DtbToken::spec_parse(input, aligned) {
        Err(e) => BuildStep::Done(Err(e)),
        Ok((rest, token)) => match token {
            DtbToken::BeginNode => match spec_node_name(rest) {
                Err(e) => BuildStep::Done(Err(e)),
                Ok((after, name)) => BuildStep::Next(after, stack.push(empty_node(name))),
            },
            DtbToken::Property => match spec_property(rest, strings_block) {
                Err(e) => BuildStep::Done(Err(e)),
                Ok((after, property)) => if stack.len() == 0 {
                    BuildStep::Done(Err(DtbError::InvalidToken))
                } else {
                    BuildStep::Next(after, with_property(stack, property))
                },
            },
            DtbToken::EndNode => if stack.len() == 0 {
                BuildStep::Done(Err(DtbError::InvalidToken))
            } else if stack.len() == 1 {
                BuildStep::Done(Ok(stack[0]))
            } else {
                BuildStep::Next(rest, with_top_closed(stack))
            },
            DtbToken::End => if stack.len() == 1 {
                BuildStep::Done(Ok(stack[0]))
            } else {
                BuildStep::Done(Err(DtbError::InvalidToken))
            },
        },
    }
}

/// The tree that the structure block `input` describes, starting with the
/// open nodes `stack`: the steps are applied one after the other until one
/// is done.
pub open spec fn spec_build(
    input: Seq<u8>,
    strings_block: Seq<u8>,
    aligned: bool,
    stack: Seq<NodeModel>,
) -> Result<NodeModel, DtbError>
    decreases input.len(),
{
    match spec_step(input, strings_block, aligned, stack) {
        BuildStep::Done(result) => result,
        BuildStep::Next(rest, next) => if rest.len() < input.len() {
            spec_build(rest, strings_block, aligned, next)
        } else {
            Err(DtbError::MalformedHeader)
        },
    }
}

/// The tree that a whole structure block describes.
pub open spec fn spec_tree(input: Seq<u8>, strings_block: Seq<u8>, aligned: bool) -> Result<
    NodeModel,
    DtbError,
> {
    spec_build(input, strings_block, aligned, Seq::empty())
}

/// The models of a stack of nodes.
pub open spec fn stack_view(nodes: Seq<DeviceTreeNode>) -> Seq<NodeModel> {
    Seq::new(nodes.len(), |i: int| nodes[i]@)
}

/// Reads the text before the first NUL of `input`.
pub fn parse_null_terminated_string(input: &[u8]) -> (result: Result<(&[u8], &str), DtbError>)
    ensures
        text_outcome(result) == spec_text(input@),
{
    let mut k: usize = 0;
    while k < input.len() && input[k] != 0
        invariant
            k <= input.len(),
            forall|j: int| 0 <= j < k ==> input@[j] != 0,
        decreases input.len() - k,
    {
        k += 1;
    }
    proof {
        lemma_first_index_of_is(input@, 0, k as int);
    }
    if k == input.len() {
        return Err(DtbError::MalformedHeader);
    }
    match text_from_utf8(&input[0..k]) {
        Some(text) => Ok((&input[k + 1..input.len()], text)),
        None => Err(DtbError::MalformedHeader),
    }
}

/// Reads the name that follows a begin-node token, with its padding.
pub fn parse_node_name(input: &[u8]) -> (result: Result<(&[u8], &str), DtbError>)
    ensures
        text_outcome(result) == spec_node_name(input@),
{
    let (remaining, name) = match parse_null_terminated_string(input) {
        Ok(found) => found,
        Err(e) => {
            return Err(e);
        },
    };
    let name_len = input.len() - remaining.len();
    let padding = DtbToken::calculate_padding(name_len);
    if remaining.len() < padding {
        return Err(DtbError::MalformedHeader);
    }
    Ok((&remaining[padding..remaining.len()], name))
}

/// Resolves a property name at `offset` in the strings block.
pub fn resolve_property_name(strings_block: &[u8], offset: usize) -> (result: Result<
    &str,
    DtbError,
>)
    ensures
        match result {
            Ok(name) => spec_property_name(strings_block@, offset as int) == Ok::<
                Seq<u8>,
                DtbError,
            >(name.spec_bytes()),
            Err(e) => spec_property_name(strings_block@, offset as int) == Err::<
                Seq<u8>,
                DtbError,
            >(e),
        },
{
    if offset >= strings_block.len() {
        return Err(DtbError::MalformedHeader);
    }
    match parse_null_terminated_string(&strings_block[offset..strings_block.len()]) {
        Ok((_rest, name)) => Ok(name),
        Err(e) => Err(e),
    }
}

/// Reads the property record that follows a property token.
pub fn parse_property_data<'a>(input: &'a [u8], strings_block: &'a [u8]) -> (result: Result<
    (&'a [u8], Property<'a>),
    DtbError,
>)
    ensures
        property_outcome(result) == spec_property(input@, strings_block@),
{
    if input.len() < 8 {
        return Err(DtbError::MalformedHeader);
    }
    let prop_len = read_be_u32(input, 0) as usize;
    let name_offset = read_be_u32(input, 4) as usize;
    let remaining = &input[8..input.len()];
    if remaining.len() < prop_len {
        return Err(DtbError::MalformedHeader);
    }
    let padding = DtbToken::calculate_padding(prop_len);
    if remaining.len() - prop_len < padding {
        return Err(DtbError::MalformedHeader);
    }
    let prop_data = &remaining[0..prop_len];
    let next_input = &remaining[prop_len + padding..remaining.len()];
    let name = match resolve_property_name(strings_block, name_offset) {
        Ok(name) => name,
        Err(e) => {
            return Err(e);
        },
    };
    let value = parse_property_value(prop_data);
    proof {
        assert(prop_data@ =~= input@.subrange(8, 8 + prop_len));
        assert(next_input@ =~= input@.subrange(8 + prop_len + padding, input@.len() as int));
    }
    Ok((next_input, Property { name, value }))
}

/// What one step of the builder produced: the rest to go on with, or the
/// finished root, or an error.
pub open spec fn step_outcome(
    result: Result<(&[u8], Option<DeviceTreeNode>), DtbError>,
    stack: Seq<DeviceTreeNode>,
) -> BuildStep {
    match result {
        Ok((rest, None)) => BuildStep::Next(rest@, stack_view(stack)),
        Ok((rest, Some(root))) => BuildStep::Done(Ok(root@)),
        Err(e) => BuildStep::Done(Err(e)),
    }
}

/// Attaches `property` to the top open node.
fn attach_property<'a>(node_stack: &mut Vec<DeviceTreeNode<'a>>, property: Property<'a>) -> (done:
    bool)
    ensures
        done == (old(node_stack)@.len() > 0),
        done ==> stack_view(final(node_stack)@) == with_property(
            stack_view(old(node_stack)@),
            property@,
        ),
{
    match node_stack.pop() {
        Some(top) => {
            let mut top = top;
            top.add_property(property);
            node_stack.push(top);
            assert(stack_view(node_stack@) =~= with_property(
                stack_view(old(node_stack)@),
                property@,
            ));
            true
        },
        None => false,
    }
}

/// Closes the top open node: hands it back where it was the only one, and
/// else makes it the last child of the node below.
fn close_top<'a>(node_stack: &mut Vec<DeviceTreeNode<'a>>) -> (root: Option<DeviceTreeNode<'a>>)
    requires
        old(node_stack)@.len() > 0,
    ensures
        match root {
            Some(node) => old(node_stack)@.len() == 1 && node@ == stack_view(old(node_stack)@)[0],
            None => old(node_stack)@.len() > 1 && stack_view(final(node_stack)@)
                == with_top_closed(stack_view(old(node_stack)@)),
        },
{
    let completed = match node_stack.pop() {
        Some(node) => node,
        None => {
            return None;
        },
    };
    match node_stack.pop() {
        Some(parent) => {
            let mut parent = parent;
            parent.add_child(completed);
            node_stack.push(parent);
            assert(stack_view(node_stack@) =~= with_top_closed(stack_view(old(node_stack)@)));
            None
        },
        None => Some(completed),
    }
}

/// Reads one token with what belongs to it and applies it to the stack.
fn advance<'a>(
    current: &'a [u8],
    strings_block: &'a [u8],
    aligned: bool,
    node_stack: &mut Vec<DeviceTreeNode<'a>>,
) -> (result: Result<(&'a [u8], Option<DeviceTreeNode<'a>>), DtbError>)
    ensures
        step_outcome(result, final(node_stack)@) == spec_step(
            current@,
            strings_block@,
            aligned,
            stack_view(old(node_stack)@),
        ),
        result matches Ok((rest, None)) ==> rest@.len() < current@.len() && (current@.len()
            - rest@.len()) % 4 == 0,
{
    reveal(spec_step);
    let (rest, token) = match DtbToken::parse_aligned(current, aligned) {
        Ok(read) => read,
        Err(e) => {
            return Err(e);
        },
    };
    match token {
        DtbToken::BeginNode => {
            let (after, name) = match parse_node_name(rest) {
                Ok(read) => read,
                Err(e) => {
                    return Err(e);
                },
            };
            node_stack.push(DeviceTreeNode::new(name));
            proof {
                assert(stack_view(node_stack@) =~= stack_view(old(node_stack)@).push(
                    empty_node(name.spec_bytes()),
                ));
                lemma_padding_step(rest@.len() - spec_text(rest@)->Ok_0.0.len());
            }
            Ok((after, None))
        },
        DtbToken::Property => {
            let (after, property) = match parse_property_data(rest, strings_block) {
                Ok(read) => read,
                Err(e) => {
                    return Err(e);
                },
            };
            proof {
                lemma_padding_step(be_u32(rest@, 0) as int);
            }
            if attach_property(node_stack, property) {
                Ok((after, None))
            } else {
                Err(DtbError::InvalidToken)
            }
        },
        DtbToken::EndNode => {
            if node_stack.len() == 0 {
                return Err(DtbError::InvalidToken);
            }
            let root = close_top(node_stack);
            Ok((rest, root))
        },
        DtbToken::End => {
            if node_stack.len() != 1 {
                return Err(DtbError::InvalidToken);
            }
            let root = close_top(node_stack);
            match root {
                Some(node) => Ok((rest, Some(node))),
                None => Err(DtbError::InvalidToken),
            }
        },
    }
}

/// Builds the tree that the structure block `input` describes, the caller
/// knowing whether the block starts at a 4-byte boundary.
///
/// The open nodes are kept on an explicit stack, so that the depth of the
/// input costs no call stack. Every token lies a multiple of four bytes
/// behind the start of the block, so all reads are aligned exactly if the
/// start is.
pub fn build_tree<'a>(input: &'a [u8], strings_block: &'a [u8], aligned: bool) -> (result: Result<
    DeviceTreeNode<'a>,
    DtbError,
>)
    ensures
        tree_outcome(result) == spec_tree(input@, strings_block@, aligned),
{
    let mut node_stack: Vec<DeviceTreeNode<'a>> = Vec::new();
    let mut current: &'a [u8] = input;
    assert(stack_view(node_stack@) =~= Seq::<NodeModel>::empty());
    loop
        invariant
            current@.len() <= input@.len(),
            (input@.len() - current@.len()) % 4 == 0,
            spec_tree(input@, strings_block@, aligned) == spec_build(
                current@,
                strings_block@,
                aligned,
                stack_view(node_stack@),
            ),
        decreases current@.len(),
    {
        match advance(current, strings_block, aligned, &mut node_stack) {
            Ok((rest, None)) => {
                current = rest;
            },
            Ok((_, Some(root))) => {
                return Ok(root);
            },
            Err(e) => {
                return Err(e);
            },
        }
    }
}

/// Data followed by its padding is a whole number of 4-byte words.
proof fn lemma_padding_step(length: int)
    requires
        length >= 0,
    ensures
        (length + DtbToken::spec_padding(length)) % 4 == 0,
        0 <= DtbToken::spec_padding(length) < 4,
{
}

/// Builds the tree that the structure block `input` describes, the block
/// lying at `address` in memory: it is aligned exactly if the address is a
/// multiple of four.
pub fn build_tree_at<'a>(input: &'a [u8], strings_block: &'a [u8], address: usize) -> (result:
    Result<DeviceTreeNode<'a>, DtbError>)
    ensures
        tree_outcome(result) == spec_tree(input@, strings_block@, address % 4 == 0),
{
    build_tree(input, strings_block, address % 4 == 0)
}

/// Builds the tree that the structure block `input` describes.
///
/// Whether the block is aligned depends on where `input` lies in memory,
/// so the result is the aligned or the misaligned reading.
pub fn parse_device_tree_iterative<'a>(input: &'a [u8], strings_block: &'a [u8]) -> (result:
    Result<DeviceTreeNode<'a>, DtbError>)
    ensures
        tree_outcome(result) == spec_tree(input@, strings_block@, true) || tree_outcome(result)
            == spec_tree(input@, strings_block@, false),
{
    build_tree_at(input, strings_block, start_address(input))
}

} // verus!
