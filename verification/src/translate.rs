//! Address translation: cell counts with inheritance, `ranges` decoding,
//! and single- and multi-level translation.

use vstd::prelude::*;
use vstd::string::StringSliceAdditionalSpecFns;
use crate::address::{
    parse_address_from_bytes, spec_address, valid_address_cells, valid_size_cells, AddressRange,
    AddressSpec, RangeModel, SpecModel,
};
use crate::error::DtbError;
use crate::node::{DeviceTreeNode, NodeModel};
use crate::search::nodes_view;
use crate::value::{PropertyValue, ValueModel};

verus! {

/// Name of the property that states the address cells.
pub open spec fn address_cells_key() -> Seq<u8> {
    "#address-cells".spec_bytes()
}

/// Name of the property that states the size cells.
pub open spec fn size_cells_key() -> Seq<u8> {
    "#size-cells".spec_bytes()
}

/// Name of the property that holds the translation ranges.
pub open spec fn ranges_key() -> Seq<u8> {
    "ranges".spec_bytes()
}

/// Name of the property that holds a node's own addresses and sizes.
pub open spec fn reg_key() -> Seq<u8> {
    "reg".spec_bytes()
}

/// A stated number of address cells, checked; two where none is stated.
pub open spec fn checked_address_cells(stated: Option<u32>) -> Result<u32, DtbError> {
    match stated {
        Some(cells) => if valid_address_cells(cells) {
            Ok(cells)
        } else {
            Err(DtbError::InvalidAddressCells(cells))
        },
        None => Ok(2),
    }
}

/// A stated number of size cells, checked; one where none is stated.
pub open spec fn checked_size_cells(stated: Option<u32>) -> Result<u32, DtbError> {
    match stated {
        Some(cells) => if valid_size_cells(cells) {
            Ok(cells)
        } else {
            Err(DtbError::InvalidSizeCells(cells))
        },
        None => Ok(1),
    }
}

/// The model of an optional parent node.
pub open spec fn parent_view(parent: Option<&DeviceTreeNode>) -> Option<NodeModel> {
    match parent {
        Some(node) => Some(node@),
        None => None,
    }
}

/// The models of a list of ranges.
pub open spec fn ranges_view(ranges: Seq<AddressRange>) -> Seq<RangeModel> {
    Seq::new(ranges.len(), |i: int| ranges[i]@)
}

/// One `ranges` entry at offset `at`: child address, parent address and
/// size, each of its own number of cells. The first field that does not
/// decode decides the error; a range that overflows is rejected.
pub open spec fn range_entry(
    data: Seq<u8>,
    at: int,
    child_cells: u32,
    parent_cells: u32,
    size_cells: u32,
) -> Result<RangeModel, DtbError> {
    let child_end = at + 4 * child_cells;
    let parent_end = child_end + 4 * parent_cells;
    let size_end = parent_end + 4 * size_cells;
    match spec_address(data.subrange(at, child_end), child_cells) {
        Err(e) => Err(e),
        Ok(child_address) => match spec_address(
            data.subrange(child_end, parent_end),
            parent_cells,
        ) {
            Err(e) => Err(e),
            Ok(parent_address) => match spec_address(
                data.subrange(parent_end, size_end),
                size_cells,
            ) {
                Err(e) => Err(e),
                Ok(size) => {
                    let range = RangeModel { child_address, parent_address, size };
                    if range.fits() {
                        Ok(range)
                    } else {
                        Err(range.overflow_error())
                    }
                },
            },
        },
    }
}

/// The entries of `data` from offset `at` on, in order, up to the first
/// that is rejected.
pub open spec fn range_entries(
    data: Seq<u8>,
    at: int,
    child_cells: u32,
    parent_cells: u32,
    size_cells: u32,
) -> Result<Seq<RangeModel>, DtbError>
    decreases data.len() - at,
{
    let entry_size = 4 * child_cells + 4 * parent_cells + 4 * size_cells;
    if entry_size <= 0 || at < 0 || at + entry_size > data.len() {
        Ok(Seq::empty())
    } else {
        match range_entry(data, at, child_cells, parent_cells, size_cells) {
            Err(e) => Err(e),
            Ok(range) => match range_entries(
                data,
                at + entry_size,
                child_cells,
                parent_cells,
                size_cells,
            ) {
                Err(e) => Err(e),
                Ok(rest) => Ok(seq![range] + rest),
            },
        }
    }
}

/// Index of the first range at or after `from` that contains `address`.
pub open spec fn containing_from(ranges: Seq<RangeModel>, address: u64, from: int) -> Option<int>
    decreases ranges.len() - from,
{
    if from < 0 || from >= ranges.len() {
        None
    } else if ranges[from].contains(address) {
        Some(from)
    } else {
        containing_from(ranges, address, from + 1)
    }
}

/// Whether the node at position `at` of a chain has the identity of an
/// earlier node of the chain.
pub open spec fn revisited_at(chain: Seq<(usize, NodeModel)>, at: int) -> bool {
    exists|j: int| 0 <= j < at && chain[j].0 == chain[at].0
}

/// Translation through a chain of nodes from position `from` on. Each
/// node comes with its identity and stands before its parent. Every node
/// translates one level under the two guards, with as many levels used as
/// nodes were passed; the first node without a `ranges` property is the
/// root of its address space and ends the walk, as does the end of the
/// chain.
pub open spec fn spec_translate_chain(
    chain: Seq<(usize, NodeModel)>,
    address: u64,
    child_cells: u32,
    max_depth: u32,
    from: int,
) -> Result<u64, DtbError>
    decreases chain.len() - from,
{
    if from < 0 || from >= chain.len() {
        Ok(address)
    } else if from >= max_depth {
        Err(DtbError::MaxTranslationDepthExceeded)
    } else {
        match chain[from].1.spec_translate_guarded(
            address,
            child_cells,
            max_depth,
            from as u32,
            revisited_at(chain, from),
        ) {
            Err(e) => Err(e),
            Ok(next) => if chain[from].1.lookup(ranges_key()) is None {
                Ok(next)
            } else {
                spec_translate_chain(chain, next, child_cells, max_depth, from + 1)
            },
        }
    }
}

/// The models of a chain of nodes with their identities.
pub open spec fn chain_view(chain: Seq<(usize, &DeviceTreeNode)>) -> Seq<(usize, NodeModel)> {
    Seq::new(chain.len(), |i: int| (chain[i].0, chain[i].1@))
}

/// A chain of nodes, each with its position as its identity.
pub open spec fn numbered(nodes: Seq<NodeModel>, identities: Seq<usize>) -> Seq<
    (usize, NodeModel),
> {
    Seq::new(nodes.len(), |i: int| (identities[i], nodes[i]))
}

/// The low 64 bits of the number that big-endian 32-bit cells spell out.
pub open spec fn cells_value(cells: Seq<u32>) -> u64
    decreases cells.len(),
{
    if cells.len() == 0 {
        0
    } else {
        ((cells_value(cells.drop_last()) % 0x1_0000_0000) * 0x1_0000_0000 + cells.last()) as u64
    }
}

impl NodeModel {
    /// The node's own `#address-cells`, checked; two where it has none.
    pub open spec fn spec_address_cells(self) -> Result<u32, DtbError> {
        checked_address_cells(self.u32_of(address_cells_key()))
    }

    /// The node's own `#size-cells`, checked; one where it has none.
    pub open spec fn spec_size_cells(self) -> Result<u32, DtbError> {
        checked_size_cells(self.u32_of(size_cells_key()))
    }

    /// What the node states for `key`, or else what the given parent
    /// states. No further ancestor is asked.
    pub open spec fn inherited_cells(self, parent: Option<NodeModel>, key: Seq<u8>) -> Option<u32> {
        match self.u32_of(key) {
            Some(cells) => Some(cells),
            None => match parent {
                Some(node) => node.u32_of(key),
                None => None,
            },
        }
    }

    /// `#address-cells` of the node or else of the parent, checked; two
    /// where neither states it.
    pub open spec fn inherited_address_cells(self, parent: Option<NodeModel>) -> Result<
        u32,
        DtbError,
    > {
        checked_address_cells(self.inherited_cells(parent, address_cells_key()))
    }

    /// `#size-cells` of the node or else of the parent, checked; one where
    /// neither states it.
    pub open spec fn inherited_size_cells(self, parent: Option<NodeModel>) -> Result<
        u32,
        DtbError,
    > {
        checked_size_cells(self.inherited_cells(parent, size_cells_key()))
    }

    /// The cell geometry of the node with inheritance; the address cells
    /// are checked first.
    pub open spec fn spec_geometry(self, parent: Option<NodeModel>) -> Result<SpecModel, DtbError> {
        match self.inherited_address_cells(parent) {
            Err(e) => Err(e),
            Ok(address_cells) => match self.inherited_size_cells(parent) {
                Err(e) => Err(e),
                Ok(size_cells) => Ok(SpecModel { address_cells, size_cells }),
            },
        }
    }

    /// The ranges that a `ranges` payload holds. The parent address and the
    /// size take the inherited cell counts; the payload must be a whole
    /// number of entries.
    pub open spec fn ranges_of(
        self,
        data: Seq<u8>,
        parent: Option<NodeModel>,
        child_cells: u32,
    ) -> Result<Seq<RangeModel>, DtbError> {
        match self.inherited_address_cells(parent) {
            Err(e) => Err(e),
            Ok(parent_cells) => match self.inherited_size_cells(parent) {
                Err(e) => Err(e),
                Ok(size_cells) => if (data.len() as int) % (4 * child_cells + 4 * parent_cells
                    + 4 * size_cells) != 0 {
                    Err(DtbError::InvalidRangesFormat)
                } else {
                    range_entries(data, 0, child_cells, parent_cells, size_cells)
                },
            },
        }
    }

    /// The ranges of the node. None where the node has no `ranges`
    /// property or an empty one; a payload typed as anything but raw bytes
    /// or a 32-bit array is an invalid format.
    pub open spec fn spec_ranges(self, parent: Option<NodeModel>, child_cells: u32) -> Result<
        Seq<RangeModel>,
        DtbError,
    > {
        match self.lookup(ranges_key()) {
            None => Ok(Seq::empty()),
            Some(ValueModel::Empty) => Ok(Seq::empty()),
            Some(ValueModel::Bytes(data)) => self.ranges_of(data, parent, child_cells),
            Some(ValueModel::U32Array(data)) => self.ranges_of(data, parent, child_cells),
            Some(_) => Err(DtbError::InvalidRangesFormat),
        }
    }

    /// One level of translation. Without any range, a node with a `ranges`
    /// property maps every address to itself and a node without one
    /// translates nothing. With ranges, the first one that contains the
    /// address translates it.
    pub open spec fn spec_translate(
        self,
        address: u64,
        parent: Option<NodeModel>,
        child_cells: u32,
    ) -> Result<u64, DtbError> {
        match self.spec_ranges(parent, child_cells) {
            Err(e) => Err(e),
            Ok(ranges) => if ranges.len() == 0 {
                if self.lookup(ranges_key()) is Some {
                    Ok(address)
                } else {
                    Err(DtbError::AddressTranslationError(address))
                }
            } else {
                match containing_from(ranges, address, 0) {
                    Some(i) => ranges[i].translate(address),
                    None => Err(DtbError::AddressTranslationError(address)),
                }
            },
        }
    }

    /// What multi-level translation does at one node: a node without a
    /// `ranges` property is the root of its address space and keeps the
    /// address; any other translates one level, without a parent.
    pub open spec fn spec_translate_level(self, address: u64, child_cells: u32) -> Result<
        u64,
        DtbError,
    > {
        if self.lookup(ranges_key()) is None {
            Ok(address)
        } else {
            match self.spec_translate(address, None, child_cells) {
                Ok(translated) => Ok(translated),
                Err(DtbError::AddressTranslationError(_)) => if self.lookup(ranges_key()) == Some(
                    ValueModel::Empty,
                ) {
                    Ok(address)
                } else {
                    Err(DtbError::AddressTranslationError(address))
                },
                Err(e) => Err(e),
            }
        }
    }

    /// Multi-level translation under its two guards: the depth limit is
    /// checked first, then whether the node was visited before.
    pub open spec fn spec_translate_guarded(
        self,
        address: u64,
        child_cells: u32,
        max_depth: u32,
        depth: u32,
        revisited: bool,
    ) -> Result<u64, DtbError> {
        if depth >= max_depth {
            Err(DtbError::MaxTranslationDepthExceeded)
        } else if revisited {
            Err(DtbError::TranslationCycle)
        } else {
            self.spec_translate_level(address, child_cells)
        }
    }

    /// The address and size pairs of `reg` from cell `at` on, each address
    /// translated one level and kept as it is where that fails.
    pub open spec fn reg_entries(
        self,
        parent: Option<NodeModel>,
        reg: Seq<u32>,
        at: int,
        address_cells: u32,
        size_cells: u32,
    ) -> Seq<(u64, u64)>
        decreases reg.len() - at,
    {
        let entry = address_cells + size_cells;
        if entry <= 0 || at < 0 || at + entry > reg.len() {
            Seq::empty()
        } else {
            let address = cells_value(reg.subrange(at, at + address_cells));
            let size = cells_value(reg.subrange(at + address_cells, at + entry));
            let translated = match self.spec_translate(address, parent, address_cells) {
                Ok(t) => t,
                Err(_) => address,
            };
            seq![(translated, size)] + self.reg_entries(
                parent,
                reg,
                at + entry,
                address_cells,
                size_cells,
            )
        }
    }

    /// The translated `reg` pairs of the node; none where it has no `reg`
    /// property that reads as 32-bit integers.
    pub open spec fn spec_reg_addresses(self, parent: Option<NodeModel>) -> Result<
        Seq<(u64, u64)>,
        DtbError,
    > {
        match self.u32_seq_of(reg_key()) {
            None => Ok(Seq::empty()),
            Some(cells) => match self.inherited_address_cells(parent) {
                Err(e) => Err(e),
                Ok(address_cells) => match self.inherited_size_cells(parent) {
                    Err(e) => Err(e),
                    Ok(size_cells) => Ok(
                        self.reg_entries(parent, cells, 0, address_cells, size_cells),
                    ),
                },
            },
        }
    }
}

/// Checks a stated number of address cells.
fn check_address_cells(stated: Option<u32>) -> (result: Result<u32, DtbError>)
    ensures
        result == checked_address_cells(stated),
{
    match stated {
        Some(cells) => {
            if cells == 0 || cells > AddressSpec::MAX_ADDRESS_CELLS {
                Err(DtbError::InvalidAddressCells(cells))
            } else {
                Ok(cells)
            }
        },
        None => Ok(AddressSpec::DEFAULT_ADDRESS_CELLS),
    }
}

/// Checks a stated number of size cells.
fn check_size_cells(stated: Option<u32>) -> (result: Result<u32, DtbError>)
    ensures
        result == checked_size_cells(stated),
{
    match stated {
        Some(cells) => {
            if cells > AddressSpec::MAX_SIZE_CELLS {
                Err(DtbError::InvalidSizeCells(cells))
            } else {
                Ok(cells)
            }
        },
        None => Ok(AddressSpec::DEFAULT_SIZE_CELLS),
    }
}

/// Joins the 32-bit cells `reg[at..at + count]` into one number, keeping
/// its low 64 bits.
fn join_cells(reg: &Vec<u32>, at: usize, count: usize) -> (value: u64)
    requires
        at + count <= reg.len(),
    ensures
        value == cells_value(reg@.subrange(at as int, at + count)),
{
    let mut value: u64 = 0;
    let mut j: usize = 0;
    assert(reg@.subrange(at as int, at as int).len() == 0);
    while j < count
        invariant
            j <= count,
            at + count <= reg.len(),
            value == cells_value(reg@.subrange(at as int, at + j)),
        decreases count - j,
    {
        proof {
            let next = reg@.subrange(at as int, at + j + 1);
            assert(next.drop_last() =~= reg@.subrange(at as int, at + j));
            assert(next.last() == reg@[at + j]);
        }
        value = (value % 0x1_0000_0000) * 0x1_0000_0000 + reg[at + j] as u64;
        j += 1;
    }
    value
}

impl<'a> DeviceTreeNode<'a> {
    /// The node's own `#address-cells`; two where it states none, and
    /// `InvalidAddressCells` where the value is not in `1..=4`.
    pub fn address_cells(&self) -> (result: Result<u32, DtbError>)
        ensures
            result == self@.spec_address_cells(),
    {
        check_address_cells(self.prop_u32("#address-cells"))
    }

    /// The node's own `#size-cells`; one where it states none, and
    /// `InvalidSizeCells` where the value is above four.
    pub fn size_cells(&self) -> (result: Result<u32, DtbError>)
        ensures
            result == self@.spec_size_cells(),
    {
        check_size_cells(self.prop_u32("#size-cells"))
    }

    /// `#address-cells` of this node, or else of `parent`, or else two.
    pub fn address_cells_with_parent(&self, parent: Option<&DeviceTreeNode<'a>>) -> (result: Result<
        u32,
        DtbError,
    >)
        ensures
            result == self@.inherited_address_cells(parent_view(parent)),
    {
        let own = self.prop_u32("#address-cells");
        if own.is_some() {
            return check_address_cells(own);
        }
        match parent {
            Some(node) => check_address_cells(node.prop_u32("#address-cells")),
            None => Ok(AddressSpec::DEFAULT_ADDRESS_CELLS),
        }
    }

    /// `#size-cells` of this node, or else of `parent`, or else one.
    pub fn size_cells_with_parent(&self, parent: Option<&DeviceTreeNode<'a>>) -> (result: Result<
        u32,
        DtbError,
    >)
        ensures
            result == self@.inherited_size_cells(parent_view(parent)),
    {
        let own = self.prop_u32("#size-cells");
        if own.is_some() {
            return check_size_cells(own);
        }
        match parent {
            Some(node) => check_size_cells(node.prop_u32("#size-cells")),
            None => Ok(AddressSpec::DEFAULT_SIZE_CELLS),
        }
    }

    /// The cell geometry of this node, with inheritance from `parent`.
    pub fn create_address_spec(&self, parent: Option<&DeviceTreeNode<'a>>) -> (result: Result<
        AddressSpec,
        DtbError,
    >)
        ensures
            match result {
                Ok(spec) => self@.spec_geometry(parent_view(parent)) == Ok::<SpecModel, DtbError>(
                    spec@,
                ),
                Err(e) => self@.spec_geometry(parent_view(parent)) == Err::<SpecModel, DtbError>(e),
            },
    {
        let address_cells = match self.address_cells_with_parent(parent) {
            Ok(cells) => cells,
            Err(e) => {
                return Err(e);
            },
        };
        let size_cells = match self.size_cells_with_parent(parent) {
            Ok(cells) => cells,
            Err(e) => {
                return Err(e);
            },
        };
        AddressSpec::new(address_cells, size_cells)
    }

    /// Decodes one `ranges` entry at offset `at`.
    fn range_at(
        data: &[u8],
        at: usize,
        child_cells: u32,
        parent_cells: u32,
        size_cells: u32,
    ) -> (result: Result<AddressRange, DtbError>)
        requires
            at + 4 * child_cells + 4 * parent_cells + 4 * size_cells <= data.len(),
        ensures
            match result {
                Ok(range) => range_entry(data@, at as int, child_cells, parent_cells, size_cells)
                    == Ok::<RangeModel, DtbError>(range@),
                Err(e) => range_entry(data@, at as int, child_cells, parent_cells, size_cells)
                    == Err::<RangeModel, DtbError>(e),
            },
    {
        let child_end = at + (child_cells as usize) * 4;
        let parent_end = child_end + (parent_cells as usize) * 4;
        let size_end = parent_end + (size_cells as usize) * 4;
        let child_address = match parse_address_from_bytes(&data[at..child_end], child_cells) {
            Ok(address) => address,
            Err(e) => {
                return Err(e);
            },
        };
        let parent_address = match parse_address_from_bytes(
            &data[child_end..parent_end],
            parent_cells,
        ) {
            Ok(address) => address,
            Err(e) => {
                return Err(e);
            },
        };
        let size = match parse_address_from_bytes(&data[parent_end..size_end], size_cells) {
            Ok(size) => size,
            Err(e) => {
                return Err(e);
            },
        };
        AddressRange::new(child_address, parent_address, size)
    }

    /// The translation ranges of this node. `child_address_cells` is the
    /// width of the child address field; the node's inherited cell counts
    /// give the widths of the parent address and the size.
    pub fn ranges(&self, parent: Option<&DeviceTreeNode<'a>>, child_address_cells: u32) -> (result:
        Result<Vec<AddressRange>, DtbError>)
        ensures
            match result {
                Ok(ranges) => self@.spec_ranges(parent_view(parent), child_address_cells) == Ok::<
                    Seq<RangeModel>,
                    DtbError,
                >(ranges_view(ranges@)),
                Err(e) => self@.spec_ranges(parent_view(parent), child_address_cells) == Err::<
                    Seq<RangeModel>,
                    DtbError,
                >(e),
            },
    {
        let data: &[u8] = match self.find_property("ranges") {
            Some(property) => match &property.value {
                PropertyValue::Bytes(data) => *data,
                PropertyValue::U32Array(data) => *data,
                PropertyValue::Empty => {
                    assert(ranges_view(Seq::<AddressRange>::empty()) =~= Seq::<
                        RangeModel,
                    >::empty());
                    return Ok(Vec::new());
                },
                _ => {
                    return Err(DtbError::InvalidRangesFormat);
                },
            },
            None => {
                assert(ranges_view(Seq::<AddressRange>::empty()) =~= Seq::<RangeModel>::empty());
                return Ok(Vec::new());
            },
        };
        let parent_cells = match self.address_cells_with_parent(parent) {
            Ok(cells) => cells,
            Err(e) => {
                return Err(e);
            },
        };
        let size_cells = match self.size_cells_with_parent(parent) {
            Ok(cells) => cells,
            Err(e) => {
                return Err(e);
            },
        };
        let entry_size: u64 = (child_address_cells as u64) * 4 + (parent_cells as u64) * 4 + (
        size_cells as u64) * 4;
        if (data.len() as u64) % entry_size != 0 {
            return Err(DtbError::InvalidRangesFormat);
        }
        let mut ranges: Vec<AddressRange> = Vec::new();
        let mut offset: usize = 0;
        proof {
            let all = range_entries(data@, 0, child_address_cells, parent_cells, size_cells);
            if all is Ok {
                assert(ranges_view(ranges@) + all->Ok_0 =~= all->Ok_0);
            }
        }
        while (data.len() - offset) as u64 >= entry_size
            invariant
                offset <= data.len(),
                entry_size == 4 * child_address_cells + 4 * parent_cells + 4 * size_cells,
                entry_size > 0,
                self@.spec_ranges(parent_view(parent), child_address_cells) == range_entries(
                    data@,
                    0,
                    child_address_cells,
                    parent_cells,
                    size_cells,
                ),
                range_entries(data@, 0, child_address_cells, parent_cells, size_cells)
                    == match range_entries(
                    data@,
                    offset as int,
                    child_address_cells,
                    parent_cells,
                    size_cells,
                ) {
                    Ok(rest) => Ok::<Seq<RangeModel>, DtbError>(ranges_view(ranges@) + rest),
                    Err(e) => Err(e),
                },
            decreases data.len() - offset,
        {
            let range = match Self::range_at(
                data,
                offset,
                child_address_cells,
                parent_cells,
                size_cells,
            ) {
                Ok(range) => range,
                Err(e) => {
                    return Err(e);
                },
            };
            proof {
                let rest = range_entries(
                    data@,
                    offset + entry_size,
                    child_address_cells,
                    parent_cells,
                    size_cells,
                );
                if rest is Ok {
                    assert(ranges_view(ranges@.push(range)) + rest->Ok_0 =~= ranges_view(ranges@)
                        + (seq![range@] + rest->Ok_0));
                }
            }
            ranges.push(range);
            offset += entry_size as usize;
        }
        proof {
            assert(ranges_view(ranges@) + Seq::<RangeModel>::empty() =~= ranges_view(ranges@));
        }
        Ok(ranges)
    }

    /// Translates `child_address` one level up through this node's ranges.
    pub fn translate_address(
        &self,
        child_address: u64,
        parent: Option<&DeviceTreeNode<'a>>,
        child_address_cells: u32,
    ) -> (result: Result<u64, DtbError>)
        ensures
            result == self@.spec_translate(child_address, parent_view(parent), child_address_cells),
    {
        let ranges = match self.ranges(parent, child_address_cells) {
            Ok(ranges) => ranges,
            Err(e) => {
                return Err(e);
            },
        };
        if ranges.len() == 0 {
            if self.has_property("ranges") {
                return Ok(child_address);
            }
            return Err(DtbError::AddressTranslationError(child_address));
        }
        let mut i: usize = 0;
        while i < ranges.len()
            invariant
                i <= ranges.len(),
                self@.spec_ranges(parent_view(parent), child_address_cells) == Ok::<
                    Seq<RangeModel>,
                    DtbError,
                >(ranges_view(ranges@)),
                containing_from(ranges_view(ranges@), child_address, 0) == containing_from(
                    ranges_view(ranges@),
                    child_address,
                    i as int,
                ),
            decreases ranges.len() - i,
        {
            if ranges[i].contains(child_address) {
                return ranges[i].translate(child_address);
            }
            i += 1;
        }
        Err(DtbError::AddressTranslationError(child_address))
    }

    /// Translates `current_address` at this node under the depth and cycle
    /// guards, the caller knowing whether the node was visited before.
    pub fn translate_guarded(
        &self,
        current_address: u64,
        child_address_cells: u32,
        max_depth: u32,
        current_depth: u32,
        revisited: bool,
    ) -> (result: Result<u64, DtbError>)
        ensures
            result == self@.spec_translate_guarded(
                current_address,
                child_address_cells,
                max_depth,
                current_depth,
                revisited,
            ),
    {
        if current_depth >= max_depth {
            return Err(DtbError::MaxTranslationDepthExceeded);
        }
        if revisited {
            return Err(DtbError::TranslationCycle);
        }
        if !self.has_property("ranges") {
            return Ok(current_address);
        }
        match self.translate_address(current_address, None, child_address_cells) {
            Ok(translated) => Ok(translated),
            Err(DtbError::AddressTranslationError(_)) => {
                if let Some(property) = self.find_property("ranges") {
                    if let PropertyValue::Empty = property.value {
                        return Ok(current_address);
                    }
                }
                Err(DtbError::AddressTranslationError(current_address))
            },
            Err(e) => Err(e),
        }
    }

    /// Whether this node is one of `visited`, by identity.
    fn was_visited(&self, visited: &Vec<&DeviceTreeNode<'a>>) -> (revisited: bool)
        ensures
            visited@.len() == 0 ==> !revisited,
    {
        let mut i: usize = 0;
        while i < visited.len()
            invariant
                i <= visited.len(),
            decreases visited.len() - i,
        {
            if same_node(self, visited[i]) {
                return true;
            }
            i += 1;
        }
        false
    }

    /// Multi-level translation at this node with the list of nodes visited
    /// so far and the depth reached. The list is left as it was.
    ///
    /// Whether a node counts as visited depends on where the nodes lie in
    /// memory, so with a non-empty list the result is the cycle error or
    /// the translation.
    pub fn translate_address_recursive_internal<'b>(
        &'b self,
        current_address: u64,
        child_address_cells: u32,
        max_depth: u32,
        visited_nodes: &mut Vec<&'b DeviceTreeNode<'a>>,
        current_depth: u32,
    ) -> (result: Result<u64, DtbError>)
        ensures
            final(visited_nodes)@ == old(visited_nodes)@,
            result == self@.spec_translate_guarded(
                current_address,
                child_address_cells,
                max_depth,
                current_depth,
                false,
            ) || (old(visited_nodes)@.len() > 0 && result == self@.spec_translate_guarded(
                current_address,
                child_address_cells,
                max_depth,
                current_depth,
                true,
            )),
    {
        let revisited = current_depth < max_depth && self.was_visited(visited_nodes);
        visited_nodes.push(self);
        let result = self.translate_guarded(
            current_address,
            child_address_cells,
            max_depth,
            current_depth,
            revisited,
        );
        visited_nodes.pop();
        assert(visited_nodes@ =~= old(visited_nodes)@);
        result
    }

    /// Translates `child_address` towards the root address space, starting
    /// at this node with no node visited and no level used. A node knows no
    /// parent, so the walk takes this node's level and ends; to go on
    /// through the ancestors, hand them to `translate_address_through`.
    /// With `max_depth == 0` the depth limit is reached at once, whatever
    /// the address.
    pub fn translate_address_recursive(
        &self,
        child_address: u64,
        child_address_cells: u32,
        max_depth: u32,
    ) -> (result: Result<u64, DtbError>)
        ensures
            result == self@.spec_translate_guarded(
                child_address,
                child_address_cells,
                max_depth,
                0,
                false,
            ),
            max_depth == 0 ==> result == Err::<u64, DtbError>(
                DtbError::MaxTranslationDepthExceeded,
            ),
    {
        let mut visited: Vec<&DeviceTreeNode<'a>> = Vec::new();
        self.translate_address_recursive_internal(
            child_address,
            child_address_cells,
            max_depth,
            &mut visited,
            0,
        )
    }

    /// The address and size pairs of the `reg` property, each address
    /// translated one level through this node and kept untranslated where
    /// that fails.
    pub fn translate_reg_addresses(&self, parent: Option<&DeviceTreeNode<'a>>) -> (result: Result<
        Vec<(u64, u64)>,
        DtbError,
    >)
        ensures
            match result {
                Ok(pairs) => self@.spec_reg_addresses(parent_view(parent)) == Ok::<
                    Seq<(u64, u64)>,
                    DtbError,
                >(pairs@),
                Err(e) => self@.spec_reg_addresses(parent_view(parent)) == Err::<
                    Seq<(u64, u64)>,
                    DtbError,
                >(e),
            },
    {
        let mut addresses: Vec<(u64, u64)> = Vec::new();
        let reg = match self.prop_u32_array("reg") {
            Some(reg) => reg,
            None => {
                return Ok(addresses);
            },
        };
        let address_cells = match self.address_cells_with_parent(parent) {
            Ok(cells) => cells,
            Err(e) => {
                return Err(e);
            },
        };
        let size_cells = match self.size_cells_with_parent(parent) {
            Ok(cells) => cells,
            Err(e) => {
                return Err(e);
            },
        };
        let entry_size = (address_cells + size_cells) as usize;
        let mut i: usize = 0;
        proof {
            let all = self@.reg_entries(parent_view(parent), reg@, 0, address_cells, size_cells);
            assert(addresses@ + all =~= all);
        }
        while reg.len() - i >= entry_size
            invariant
                i <= reg.len(),
                valid_address_cells(address_cells),
                valid_size_cells(size_cells),
                entry_size == address_cells + size_cells,
                self@.reg_entries(parent_view(parent), reg@, 0, address_cells, size_cells)
                    == addresses@ + self@.reg_entries(
                    parent_view(parent),
                    reg@,
                    i as int,
                    address_cells,
                    size_cells,
                ),
            decreases reg.len() - i,
        {
            let address = join_cells(&reg, i, address_cells as usize);
            let size = join_cells(&reg, i + address_cells as usize, size_cells as usize);
            let translated = match self.translate_address(address, parent, address_cells) {
                Ok(t) => t,
                Err(_) => address,
            };
            proof {
                let rest = self@.reg_entries(
                    parent_view(parent),
                    reg@,
                    i + entry_size,
                    address_cells,
                    size_cells,
                );
                assert(addresses@.push((translated, size)) + rest =~= addresses@ + (seq![
                    (translated, size),
                ] + rest));
            }
            addresses.push((translated, size));
            i += entry_size;
        }
        proof {
            assert(addresses@ + Seq::<(u64, u64)>::empty() =~= addresses@);
        }
        Ok(addresses)
    }

    /// The memory-mapped regions of this node: its translated `reg` pairs.
    pub fn mmio_regions(&self, parent: Option<&DeviceTreeNode<'a>>) -> (result: Result<
        Vec<(u64, u64)>,
        DtbError,
    >)
        ensures
            match result {
                Ok(pairs) => self@.spec_reg_addresses(parent_view(parent)) == Ok::<
                    Seq<(u64, u64)>,
                    DtbError,
                >(pairs@),
                Err(e) => self@.spec_reg_addresses(parent_view(parent)) == Err::<
                    Seq<(u64, u64)>,
                    DtbError,
                >(e),
            },
    {
        self.translate_reg_addresses(parent)
    }
}

/// Whether the identity at position `at` occurs before `at`.
fn seen_before(chain: &[(usize, &DeviceTreeNode)], at: usize) -> (seen: bool)
    requires
        at < chain.len(),
    ensures
        seen == revisited_at(chain_view(chain@), at as int),
{
    let mut j: usize = 0;
    while j < at
        invariant
            j <= at,
            at < chain.len(),
            forall|k: int| 0 <= k < j ==> chain@[k].0 != chain@[at as int].0,
        decreases at - j,
    {
        if chain[j].0 == chain[at].0 {
            assert(chain_view(chain@)[j as int].0 == chain_view(chain@)[at as int].0);
            return true;
        }
        j += 1;
    }
    assert forall|k: int| 0 <= k < at implies chain_view(chain@)[k].0 != chain_view(
        chain@,
    )[at as int].0 by {
        assert(chain_view(chain@)[k].0 == chain@[k].0);
    }
    false
}

/// Translates `address` through a chain of nodes, each standing before its
/// parent and each with an identity that the caller gives it: equal
/// identities mean the same node. A node met again is a
/// `TranslationCycle`; once `max_depth` levels are used up the walk fails
/// with `MaxTranslationDepthExceeded`; the first node without a `ranges`
/// property ends the walk with the address reached.
pub fn translate_along(
    chain: &[(usize, &DeviceTreeNode)],
    address: u64,
    child_address_cells: u32,
    max_depth: u32,
) -> (result: Result<u64, DtbError>)
    ensures
        result == spec_translate_chain(
            chain_view(chain@),
            address,
            child_address_cells,
            max_depth,
            0,
        ),
{
    let mut current = address;
    let mut i: usize = 0;
    let mut depth: u32 = 0;
    while i < chain.len()
        invariant
            i <= chain.len(),
            depth == i,
            spec_translate_chain(chain_view(chain@), address, child_address_cells, max_depth, 0)
                == spec_translate_chain(
                chain_view(chain@),
                current,
                child_address_cells,
                max_depth,
                i as int,
            ),
        decreases chain.len() - i,
    {
        if depth >= max_depth {
            return Err(DtbError::MaxTranslationDepthExceeded);
        }
        let node = chain[i].1;
        let revisited = seen_before(chain, i);
        current = match node.translate_guarded(
            current,
            child_address_cells,
            max_depth,
            depth,
            revisited,
        ) {
            Ok(next) => next,
            Err(e) => {
                return Err(e);
            },
        };
        if !node.has_property("ranges") {
            return Ok(current);
        }
        i += 1;
        depth += 1;
    }
    Ok(current)
}

/// Gives every node of a chain an identity: the position of the first node
/// of the chain that lies at the same place in memory.
fn identify<'b, 'a>(nodes: &[&'b DeviceTreeNode<'a>]) -> (chain: Vec<
    (usize, &'b DeviceTreeNode<'a>),
>)
    ensures
        chain@.len() == nodes@.len(),
        forall|i: int| 0 <= i < nodes@.len() ==> (#[trigger] chain@[i]).1 == nodes@[i],
{
    let mut chain: Vec<(usize, &'b DeviceTreeNode<'a>)> = Vec::new();
    let mut i: usize = 0;
    while i < nodes.len()
        invariant
            i <= nodes.len(),
            chain@.len() == i,
            forall|k: int| 0 <= k < i ==> (#[trigger] chain@[k]).1 == nodes@[k],
        decreases nodes.len() - i,
    {
        let mut j: usize = 0;
        while j < i && !same_node(nodes[j], nodes[i])
            invariant
                j <= i,
                i < nodes.len(),
            decreases i - j,
        {
            j += 1;
        }
        chain.push((j, nodes[i]));
        i += 1;
    }
    chain
}

/// Translates `address` through a chain of nodes, each standing before its
/// parent, up to the first node that is the root of its address space.
///
/// Which nodes count as the same depends on where they lie in memory, so
/// the result is that of `translate_along` for some identities.
pub fn translate_address_through(
    nodes: &[&DeviceTreeNode],
    address: u64,
    child_address_cells: u32,
    max_depth: u32,
) -> (result: Result<u64, DtbError>)
    ensures
        exists|identities: Seq<usize>|
            identities.len() == nodes@.len() && result == spec_translate_chain(
                numbered(nodes_view(nodes@), identities),
                address,
                child_address_cells,
                max_depth,
                0,
            ),
{
    let chain = identify(nodes);
    let result = translate_along(chain.as_slice(), address, child_address_cells, max_depth);
    proof {
        let identities = Seq::new(chain@.len(), |i: int| chain@[i].0);
        assert(numbered(nodes_view(nodes@), identities) =~= chain_view(chain@));
    }
    result
}

/// Whether two references point at the same node in memory.
///
/// Trusted: calls `core::ptr::eq`, which compares the two addresses.
/// Nothing is promised of the answer.
#[verifier::external_body]
fn same_node(left: &DeviceTreeNode, right: &DeviceTreeNode) -> (same: bool) {
    core::ptr::eq(left, right)
}

} // verus!
