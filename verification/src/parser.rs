//! The parser facade: one borrowed blob, and the decoders applied to it.

use vstd::prelude::*;
use vstd::string::StringSliceAdditionalSpecFns;
use crate::builder::{build_tree, spec_tree, tree_outcome};
use crate::bytes::{on_double_word_boundary, on_word_boundary, start_address};
use crate::encode::{encode_node, lemma_tree_round_trip, node_model, writable_node, NodeSource};
use crate::error::DtbError;
use crate::header::DtbHeader;
use crate::memory::MemoryReservation;
use crate::node::{DeviceTreeNode, NodeModel};
use crate::search::{compatible_with, nodes_view};

verus! {

/// A parser over one device tree blob. It borrows the blob; everything it
/// decodes borrows from the blob in turn.
#[derive(Debug)]
pub struct DeviceTreeParser<'a> {
    data: &'a [u8],
}

/// The header of a blob.
pub open spec fn spec_header(data: Seq<u8>) -> Result<DtbHeader, DtbError> {
    match DtbHeader::spec_parse(data) {
        Ok((rest, header)) => Ok(header),
        Err(e) => Err(e),
    }
}

/// The reservation list of a blob, whose reservation block starts at an
/// 8-byte boundary exactly if `aligned`. A block offset behind the end of
/// the blob is malformed.
pub open spec fn spec_reservations(data: Seq<u8>, aligned: bool) -> Result<
    Seq<MemoryReservation>,
    DtbError,
> {
    match spec_header(data) {
        Err(e) => Err(e),
        Ok(header) => if header.off_mem_rsvmap > data.len() {
            Err(DtbError::MalformedHeader)
        } else {
            match MemoryReservation::spec_parse_all(
                data.subrange(header.off_mem_rsvmap as int, data.len() as int),
                aligned,
            ) {
                Ok((rest, entries)) => Ok(entries),
                Err(e) => Err(e),
            }
        },
    }
}

/// Whether the structure block and the strings block that a header names
/// start within the total size that the header states, and lie within a
/// blob of `len` bytes.
pub open spec fn blocks_in_bounds(header: DtbHeader, len: nat) -> bool {
    header.off_dt_struct <= header.totalsize && header.off_dt_strings <= header.totalsize
        && header.off_dt_struct < len && header.off_dt_struct + header.size_dt_struct <= len
        && header.off_dt_strings < len
}

/// Offset of the reservation block that the header of a blob names; zero
/// where the blob has no header.
pub open spec fn reservation_offset(data: Seq<u8>) -> int {
    match spec_header(data) {
        Ok(header) => header.off_mem_rsvmap as int,
        Err(_) => 0,
    }
}

/// Offset of the structure block that the header of a blob names; zero
/// where the blob has no header.
pub open spec fn structure_offset(data: Seq<u8>) -> int {
    match spec_header(data) {
        Ok(header) => header.off_dt_struct as int,
        Err(_) => 0,
    }
}

/// Whether the reservation block of a blob that lies at `address` in
/// memory starts at an 8-byte boundary.
pub open spec fn spec_reservations_aligned(data: Seq<u8>, address: int) -> bool {
    (address + reservation_offset(data)) % 8 == 0
}

/// Whether the structure block of a blob that lies at `address` in memory
/// starts at a 4-byte boundary.
pub open spec fn spec_structure_aligned(data: Seq<u8>, address: int) -> bool {
    (address + structure_offset(data)) % 4 == 0
}

/// The tree of a blob, whose structure block starts at a 4-byte boundary
/// exactly if `aligned`. Blocks that start behind the stated total size or
/// do not lie within the blob are malformed, and no token is read then.
pub open spec fn spec_parse_tree(data: Seq<u8>, aligned: bool) -> Result<NodeModel, DtbError> {
    match spec_header(data) {
        Err(e) => Err(e),
        Ok(header) => if !blocks_in_bounds(header, data.len()) {
            Err(DtbError::MalformedHeader)
        } else {
            spec_tree(
                data.subrange(
                    header.off_dt_struct as int,
                    header.off_dt_struct + header.size_dt_struct,
                ),
                data.subrange(header.off_dt_strings as int, data.len() as int),
                aligned,
            )
        },
    }
}

/// A query on the tree of a blob: the error where the blob has no tree.
pub open spec fn on_tree<T>(
    tree: Result<NodeModel, DtbError>,
    query: spec_fn(NodeModel) -> T,
) -> Result<T, DtbError> {
    match tree {
        Ok(root) => Ok(query(root)),
        Err(e) => Err(e),
    }
}

/// The serial port addresses of a blob.
pub open spec fn spec_uart_addresses(data: Seq<u8>, aligned: bool) -> Result<Seq<u64>, DtbError> {
    on_tree(spec_parse_tree(data, aligned), |root: NodeModel| root.spec_uart_addresses())
}

/// The timebase frequency of a blob.
pub open spec fn spec_timebase_frequency(data: Seq<u8>, aligned: bool) -> Result<
    Option<u32>,
    DtbError,
> {
    on_tree(spec_parse_tree(data, aligned), |root: NodeModel| root.spec_timebase_frequency())
}

/// The memory-mapped regions of a blob.
pub open spec fn spec_mmio_regions(data: Seq<u8>, aligned: bool) -> Result<
    Seq<(u64, u64)>,
    DtbError,
> {
    on_tree(spec_parse_tree(data, aligned), |root: NodeModel| root.spec_mmio_regions())
}

/// The node at `path` in the tree of a blob.
pub open spec fn spec_find_node(data: Seq<u8>, aligned: bool, path: Seq<u8>) -> Result<
    Option<NodeModel>,
    DtbError,
> {
    on_tree(spec_parse_tree(data, aligned), |root: NodeModel| root.find(path))
}

/// The nodes of the tree of a blob that are compatible with `compatible`.
pub open spec fn spec_find_compatible(data: Seq<u8>, aligned: bool, compatible: Seq<u8>) -> Result<
    Seq<NodeModel>,
    DtbError,
> {
    on_tree(
        spec_parse_tree(data, aligned),
        |root: NodeModel| root.preorder().filter(compatible_with(compatible)),
    )
}

/// What decoding a list produced, the list taken as a sequence.
pub open spec fn list_outcome<T>(result: Result<Vec<T>, DtbError>) -> Result<Seq<T>, DtbError> {
    match result {
        Ok(entries) => Ok(entries@),
        Err(e) => Err(e),
    }
}

/// What looking for one node produced.
pub open spec fn found_outcome(result: Result<Option<DeviceTreeNode>, DtbError>) -> Result<
    Option<NodeModel>,
    DtbError,
> {
    match result {
        Ok(Some(node)) => Ok(Some(node@)),
        Ok(None) => Ok(None),
        Err(e) => Err(e),
    }
}

/// What looking for several nodes produced.
pub open spec fn nodes_outcome(result: Result<Vec<DeviceTreeNode>, DtbError>) -> Result<
    Seq<NodeModel>,
    DtbError,
> {
    match result {
        Ok(nodes) => Ok(Seq::new(nodes@.len(), |i: int| nodes@[i]@)),
        Err(e) => Err(e),
    }
}

/// Decoding is repeatable: two decodings of one blob under the same
/// alignment give structurally equal trees, or the same error.
pub proof fn lemma_parse_is_repeatable(
    first: Result<DeviceTreeNode, DtbError>,
    second: Result<DeviceTreeNode, DtbError>,
    data: Seq<u8>,
    aligned: bool,
)
    requires
        tree_outcome(first) == spec_parse_tree(data, aligned),
        tree_outcome(second) == spec_parse_tree(data, aligned),
    ensures
        tree_outcome(first) == tree_outcome(second),
        first matches Ok(one) ==> second matches Ok(other) && one@ == other@,
        first matches Err(e) ==> second matches Err(f) && e == f,
{
}

/// Round trip of a whole blob: where the header names blocks within the
/// blob, the structure block starts with a tree written by the encoding
/// rules and the strings block holds its property names, the blob decodes
/// to exactly that tree.
pub proof fn lemma_blob_round_trip(data: Seq<u8>, tree: NodeSource, tail: Seq<u8>)
    requires
        spec_header(data) is Ok,
        blocks_in_bounds(spec_header(data)->Ok_0, data.len()),
        data.subrange(
            spec_header(data)->Ok_0.off_dt_struct as int,
            spec_header(data)->Ok_0.off_dt_struct + spec_header(data)->Ok_0.size_dt_struct,
        ) == encode_node(tree) + tail,
        writable_node(
            tree,
            data.subrange(spec_header(data)->Ok_0.off_dt_strings as int, data.len() as int),
        ),
    ensures
        spec_parse_tree(data, true) == Ok::<NodeModel, DtbError>(node_model(tree)),
{
    let header = spec_header(data)->Ok_0;
    lemma_tree_round_trip(
        tree,
        data.subrange(header.off_dt_strings as int, data.len() as int),
        tail,
    );
}

impl<'a> DeviceTreeParser<'a> {
    /// The blob that the parser reads.
    pub closed spec fn bytes(&self) -> Seq<u8> {
        self.data@
    }

    /// A parser over `data`.
    pub fn new(data: &'a [u8]) -> (parser: Self)
        ensures
            parser.bytes() == data@,
    {
        DeviceTreeParser { data }
    }

    /// The blob that the parser reads.
    pub fn data(&self) -> (data: &'a [u8])
        ensures
            data@ == self.bytes(),
    {
        self.data
    }

    /// Decodes the header.
    pub fn parse_header(&self) -> (result: Result<DtbHeader, DtbError>)
        ensures
            result == spec_header(self.bytes()),
    {
        match DtbHeader::parse(self.data) {
            Ok((_remaining, header)) => Ok(header),
            Err(e) => Err(e),
        }
    }

    /// Decodes the reservation list, the caller knowing whether the
    /// reservation block starts at an 8-byte boundary.
    pub fn parse_memory_reservations_aligned(&self, aligned: bool) -> (result: Result<
        Vec<MemoryReservation>,
        DtbError,
    >)
        ensures
            list_outcome(result) == spec_reservations(self.bytes(), aligned),
    {
        let header = match self.parse_header() {
            Ok(header) => header,
            Err(e) => {
                return Err(e);
            },
        };
        let start = header.off_mem_rsvmap as usize;
        if start > self.data.len() {
            return Err(DtbError::MalformedHeader);
        }
        let block = &self.data[start..self.data.len()];
        match MemoryReservation::parse_all_aligned(block, aligned) {
            Ok((_remaining, reservations)) => Ok(reservations),
            Err(e) => Err(e),
        }
    }

    /// Whether the reservation block starts at an 8-byte boundary, the
    /// blob lying at `address` in memory.
    pub fn reservations_aligned(&self, address: usize) -> (aligned: bool)
        ensures
            aligned == spec_reservations_aligned(self.bytes(), address as int),
    {
        let offset: u32 = match self.parse_header() {
            Ok(header) => header.off_mem_rsvmap,
            Err(_) => 0,
        };
        on_double_word_boundary(address, offset)
    }

    /// Decodes the reservation list, the blob lying at `address` in
    /// memory: the reservation block is aligned exactly if the address
    /// plus the block's offset is a multiple of eight.
    pub fn parse_memory_reservations_at(&self, address: usize) -> (result: Result<
        Vec<MemoryReservation>,
        DtbError,
    >)
        ensures
            list_outcome(result) == spec_reservations(
                self.bytes(),
                spec_reservations_aligned(self.bytes(), address as int),
            ),
    {
        self.parse_memory_reservations_aligned(self.reservations_aligned(address))
    }

    /// Decodes the reservation list.
    ///
    /// Whether the reservation block is aligned depends on where the blob
    /// lies in memory, so the result is the aligned or the misaligned
    /// reading.
    pub fn parse_memory_reservations(&self) -> (result: Result<Vec<MemoryReservation>, DtbError>)
        ensures
            list_outcome(result) == spec_reservations(self.bytes(), true)
                || list_outcome(result) == spec_reservations(self.bytes(), false),
    {
        self.parse_memory_reservations_at(start_address(self.data))
    }

    /// Decodes the tree, the caller knowing whether the structure block
    /// starts at a 4-byte boundary.
    pub fn parse_tree_aligned(&self, aligned: bool) -> (result: Result<
        DeviceTreeNode<'a>,
        DtbError,
    >)
        ensures
            tree_outcome(result) == spec_parse_tree(self.bytes(), aligned),
            spec_header(self.bytes()) matches Ok(header) && !blocks_in_bounds(
                header,
                self.bytes().len(),
            ) ==> result matches Err(DtbError::MalformedHeader),
    {
        let header = match self.parse_header() {
            Ok(header) => header,
            Err(e) => {
                return Err(e);
            },
        };
        if header.off_dt_struct > header.totalsize || header.off_dt_strings > header.totalsize {
            return Err(DtbError::MalformedHeader);
        }
        let len = self.data.len() as u64;
        let struct_start = header.off_dt_struct as u64;
        let struct_end = struct_start + header.size_dt_struct as u64;
        let strings_start = header.off_dt_strings as u64;
        if struct_start >= len || struct_end > len || strings_start >= len {
            return Err(DtbError::MalformedHeader);
        }
        let struct_block = &self.data[struct_start as usize..struct_end as usize];
        let strings_block = &self.data[strings_start as usize..self.data.len()];
        Self::parse_structure_block(struct_block, strings_block, aligned)
    }

    /// Whether the structure block starts at a 4-byte boundary, the blob
    /// lying at `address` in memory.
    pub fn structure_aligned(&self, address: usize) -> (aligned: bool)
        ensures
            aligned == spec_structure_aligned(self.bytes(), address as int),
    {
        let offset: u32 = match self.parse_header() {
            Ok(header) => header.off_dt_struct,
            Err(_) => 0,
        };
        on_word_boundary(address, offset)
    }

    /// Decodes the tree, the blob lying at `address` in memory: the
    /// structure block is aligned exactly if the address plus the block's
    /// offset is a multiple of four.
    pub fn parse_tree_at(&self, address: usize) -> (result: Result<DeviceTreeNode<'a>, DtbError>)
        ensures
            tree_outcome(result) == spec_parse_tree(
                self.bytes(),
                spec_structure_aligned(self.bytes(), address as int),
            ),
            spec_header(self.bytes()) matches Ok(header) && !blocks_in_bounds(
                header,
                self.bytes().len(),
            ) ==> result matches Err(DtbError::MalformedHeader),
    {
        self.parse_tree_aligned(self.structure_aligned(address))
    }

    /// Decodes the tree.
    ///
    /// Whether the structure block is aligned depends on where the blob
    /// lies in memory, so the result is the aligned or the misaligned
    /// reading.
    pub fn parse_tree(&self) -> (result: Result<DeviceTreeNode<'a>, DtbError>)
        ensures
            tree_outcome(result) == spec_parse_tree(self.bytes(), true) || tree_outcome(result)
                == spec_parse_tree(self.bytes(), false),
            spec_header(self.bytes()) matches Ok(header) && !blocks_in_bounds(
                header,
                self.bytes().len(),
            ) ==> result matches Err(DtbError::MalformedHeader),
    {
        self.parse_tree_at(start_address(self.data))
    }

    /// The base addresses of the serial ports that the blob describes.
    pub fn uart_addresses(&self) -> (result: Result<Vec<u64>, DtbError>)
        ensures
            list_outcome(result) == spec_uart_addresses(self.bytes(), true) || list_outcome(result)
                == spec_uart_addresses(self.bytes(), false),
    {
        match self.parse_tree() {
            Ok(root) => Ok(root.uart_addresses()),
            Err(e) => Err(e),
        }
    }

    /// The timebase frequency that the blob states, if any.
    pub fn timebase_frequency(&self) -> (result: Result<Option<u32>, DtbError>)
        ensures
            result == spec_timebase_frequency(self.bytes(), true) || result
                == spec_timebase_frequency(self.bytes(), false),
    {
        match self.parse_tree() {
            Ok(root) => Ok(root.timebase_frequency()),
            Err(e) => Err(e),
        }
    }

    /// The memory-mapped regions that the blob describes.
    pub fn discover_mmio_regions(&self) -> (result: Result<Vec<(u64, u64)>, DtbError>)
        ensures
            list_outcome(result) == spec_mmio_regions(self.bytes(), true) || list_outcome(result)
                == spec_mmio_regions(self.bytes(), false),
    {
        match self.parse_tree() {
            Ok(root) => Ok(root.discover_mmio_regions()),
            Err(e) => Err(e),
        }
    }

    /// A copy of the node at `path`, if there is one.
    pub fn find_node(&self, path: &str) -> (result: Result<Option<DeviceTreeNode<'a>>, DtbError>)
        ensures
            found_outcome(result) == spec_find_node(self.bytes(), true, path.spec_bytes())
                || found_outcome(result) == spec_find_node(self.bytes(), false, path.spec_bytes()),
    {
        let root = match self.parse_tree() {
            Ok(root) => root,
            Err(e) => {
                return Err(e);
            },
        };
        match root.find_node(path) {
            Some(node) => Ok(Some(node.deep_copy())),
            None => Ok(None),
        }
    }

    /// Copies of the nodes compatible with `compatible`, in pre-order.
    pub fn find_compatible_nodes(&self, compatible: &str) -> (result: Result<
        Vec<DeviceTreeNode<'a>>,
        DtbError,
    >)
        ensures
            nodes_outcome(result) == spec_find_compatible(
                self.bytes(),
                true,
                compatible.spec_bytes(),
            ) || nodes_outcome(result) == spec_find_compatible(
                self.bytes(),
                false,
                compatible.spec_bytes(),
            ),
    {
        let root = match self.parse_tree() {
            Ok(root) => root,
            Err(e) => {
                return Err(e);
            },
        };
        let found = root.find_compatible_nodes(compatible);
        let mut copies: Vec<DeviceTreeNode<'a>> = Vec::new();
        let mut i: usize = 0;
        while i < found.len()
            invariant
                i <= found.len(),
                copies@.len() == i,
                forall|j: int| 0 <= j < i ==> copies@[j]@ == found@[j]@,
            decreases found.len() - i,
        {
            copies.push(found[i].deep_copy());
            i += 1;
        }
        assert(Seq::new(copies@.len(), |i: int| copies@[i]@) =~= nodes_view(found@));
        Ok(copies)
    }

    /// Builds the tree of a structure block.
    fn parse_structure_block(
        struct_block: &'a [u8],
        strings_block: &'a [u8],
        aligned: bool,
    ) -> (result: Result<DeviceTreeNode<'a>, DtbError>)
        ensures
            tree_outcome(result) == spec_tree(struct_block@, strings_block@, aligned),
    {
        build_tree(struct_block, strings_block, aligned)
    }
}

} // verus!
