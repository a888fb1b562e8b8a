//! Cell geometry, address ranges, and multi-cell address decoding.

use vstd::prelude::*;
use crate::bytes::{be_u32, be_u64, read_be_u32, read_be_u64};
use crate::error::DtbError;

verus! {

/// How many 32-bit cells an address and a size take in a node's children.
///
/// Always holds between one and four address cells and at most four size
/// cells.
#[derive(Debug, Clone, Copy, PartialEq, Eq)]
pub struct AddressSpec {
    address_cells: u32,
    size_cells: u32,
}

/// A cell geometry as plain data.
pub struct SpecModel {
    pub address_cells: u32,
    pub size_cells: u32,
}

/// Whether a cell count is a valid number of address cells.
pub open spec fn valid_address_cells(cells: u32) -> bool {
    1 <= cells <= 4
}

/// Whether a cell count is a valid number of size cells.
pub open spec fn valid_size_cells(cells: u32) -> bool {
    cells <= 4
}

impl View for AddressSpec {
    type V = SpecModel;

    closed spec fn view(&self) -> SpecModel {
        SpecModel { address_cells: self.address_cells, size_cells: self.size_cells }
    }
}

impl AddressSpec {
    /// Address cells where a node states none.
    pub const DEFAULT_ADDRESS_CELLS: u32 = 2;

    /// Size cells where a node states none.
    pub const DEFAULT_SIZE_CELLS: u32 = 1;

    /// Largest number of address cells.
    pub const MAX_ADDRESS_CELLS: u32 = 4;

    /// Largest number of size cells.
    pub const MAX_SIZE_CELLS: u32 = 4;

    #[verifier::type_invariant]
    spec fn in_range(self) -> bool {
        valid_address_cells(self.address_cells) && valid_size_cells(self.size_cells)
    }

    /// The geometry with the given cell counts. Address cells outside
    /// `1..=4` are rejected first, then size cells above four.
    pub fn new(address_cells: u32, size_cells: u32) -> (result: Result<Self, DtbError>)
        ensures
            match result {
                Ok(spec) => valid_address_cells(address_cells) && valid_size_cells(size_cells)
                    && spec@ == (SpecModel { address_cells, size_cells }),
                Err(e) => if !valid_address_cells(address_cells) {
                    e == DtbError::InvalidAddressCells(address_cells)
                } else {
                    !valid_size_cells(size_cells) && e == DtbError::InvalidSizeCells(size_cells)
                },
            },
    {
        if address_cells == 0 || address_cells > Self::MAX_ADDRESS_CELLS {
            return Err(DtbError::InvalidAddressCells(address_cells));
        }
        if size_cells > Self::MAX_SIZE_CELLS {
            return Err(DtbError::InvalidSizeCells(size_cells));
        }
        Ok(AddressSpec { address_cells, size_cells })
    }

    /// Number of cells in an address.
    pub fn address_cells(&self) -> (cells: u32)
        ensures
            cells == self@.address_cells,
            valid_address_cells(cells),
    {
        proof {
            use_type_invariant(self);
        }
        self.address_cells
    }

    /// Number of cells in a size.
    pub fn size_cells(&self) -> (cells: u32)
        ensures
            cells == self@.size_cells,
            valid_size_cells(cells),
    {
        proof {
            use_type_invariant(self);
        }
        self.size_cells
    }

    /// Number of cells in an address with its size.
    pub fn total_cells(&self) -> (cells: u32)
        ensures
            cells == self@.address_cells + self@.size_cells,
    {
        proof {
            use_type_invariant(self);
        }
        self.address_cells + self.size_cells
    }

    /// Number of bytes in an address.
    pub fn address_size_bytes(&self) -> (bytes: usize)
        ensures
            bytes == 4 * self@.address_cells,
    {
        proof {
            use_type_invariant(self);
        }
        (self.address_cells * 4) as usize
    }

    /// Number of bytes in a size.
    pub fn size_size_bytes(&self) -> (bytes: usize)
        ensures
            bytes == 4 * self@.size_cells,
    {
        proof {
            use_type_invariant(self);
        }
        (self.size_cells * 4) as usize
    }

    /// Number of bytes in an address with its size.
    pub fn total_size_bytes(&self) -> (bytes: usize)
        ensures
            bytes == 4 * (self@.address_cells + self@.size_cells),
    {
        proof {
            use_type_invariant(self);
        }
        (self.total_cells() * 4) as usize
    }
}

impl Default for AddressSpec {
    /// Two address cells and one size cell.
    fn default() -> (spec: Self)
        ensures
            spec@ == (SpecModel { address_cells: 2, size_cells: 1 }),
    {
        AddressSpec {
            address_cells: Self::DEFAULT_ADDRESS_CELLS,
            size_cells: Self::DEFAULT_SIZE_CELLS,
        }
    }
}

/// One entry of a `ranges` property: `size` bytes at `child_address` in
/// the child bus appear at `parent_address` in the parent bus.
///
/// Neither end of the range overflows 64 bits.
#[derive(Debug, Clone, Copy, PartialEq, Eq)]
pub struct AddressRange {
    child_address: u64,
    parent_address: u64,
    size: u64,
}

/// A range as plain data.
pub struct RangeModel {
    pub child_address: u64,
    pub parent_address: u64,
    pub size: u64,
}

impl RangeModel {
    /// Whether both ends of the range fit in 64 bits.
    pub open spec fn fits(self) -> bool {
        self.child_address + self.size <= u64::MAX && self.parent_address + self.size <= u64::MAX
    }

    /// Whether `address` lies in the half-open child interval.
    pub open spec fn contains(self, address: u64) -> bool {
        self.child_address <= address < self.child_address + self.size
    }

    /// The parent address that `address` maps to.
    pub open spec fn translate(self, address: u64) -> Result<u64, DtbError> {
        if self.contains(address) {
            Ok((self.parent_address + (address - self.child_address)) as u64)
        } else {
            Err(DtbError::AddressTranslationError(address))
        }
    }

    /// Why a range that does not fit is rejected: the child address where
    /// the child end overflows, else the parent address.
    pub open spec fn overflow_error(self) -> DtbError {
        if self.child_address + self.size > u64::MAX {
            DtbError::AddressTranslationError(self.child_address)
        } else {
            DtbError::AddressTranslationError(self.parent_address)
        }
    }
}

impl View for AddressRange {
    type V = RangeModel;

    closed spec fn view(&self) -> RangeModel {
        RangeModel {
            child_address: self.child_address,
            parent_address: self.parent_address,
            size: self.size,
        }
    }
}

impl AddressRange {
    #[verifier::type_invariant]
    spec fn no_overflow(self) -> bool {
        self.child_address + self.size <= u64::MAX && self.parent_address + self.size <= u64::MAX
    }

    /// The range with the given fields; rejected where an end overflows.
    pub fn new(child_address: u64, parent_address: u64, size: u64) -> (result: Result<
        Self,
        DtbError,
    >)
        ensures
            match result {
                Ok(range) => range@ == (RangeModel { child_address, parent_address, size })
                    && range@.fits(),
                Err(e) => !(RangeModel { child_address, parent_address, size }).fits() && e == (
                RangeModel { child_address, parent_address, size }).overflow_error(),
            },
    {
        if child_address.checked_add(size).is_none() {
            return Err(DtbError::AddressTranslationError(child_address));
        }
        if parent_address.checked_add(size).is_none() {
            return Err(DtbError::AddressTranslationError(parent_address));
        }
        Ok(AddressRange { child_address, parent_address, size })
    }

    /// First address of the range in the child bus.
    pub fn child_address(&self) -> (address: u64)
        ensures
            address == self@.child_address,
    {
        self.child_address
    }

    /// First address of the range in the parent bus.
    pub fn parent_address(&self) -> (address: u64)
        ensures
            address == self@.parent_address,
    {
        self.parent_address
    }

    /// Length of the range in bytes.
    pub fn size(&self) -> (size: u64)
        ensures
            size == self@.size,
            self@.fits(),
    {
        proof {
            use_type_invariant(self);
        }
        self.size
    }

    /// First address behind the range in the child bus.
    pub fn child_end(&self) -> (end: u64)
        ensures
            end == self@.child_address + self@.size,
    {
        proof {
            use_type_invariant(self);
        }
        self.child_address + self.size
    }

    /// First address behind the range in the parent bus.
    pub fn parent_end(&self) -> (end: u64)
        ensures
            end == self@.parent_address + self@.size,
    {
        proof {
            use_type_invariant(self);
        }
        self.parent_address + self.size
    }

    /// Whether a child address lies in the range: start included, end not.
    pub fn contains(&self, address: u64) -> (inside: bool)
        ensures
            inside == self@.contains(address),
    {
        address >= self.child_address && address < self.child_end()
    }

    /// Maps a child address to the parent bus; fails for an address
    /// outside the range.
    pub fn translate(&self, child_addr: u64) -> (result: Result<u64, DtbError>)
        ensures
            result == self@.translate(child_addr),
    {
        if !self.contains(child_addr) {
            return Err(DtbError::AddressTranslationError(child_addr));
        }
        proof {
            use_type_invariant(self);
        }
        let offset = child_addr - self.child_address;
        Ok(self.parent_address + offset)
    }
}

/// The low 64 bits of an address of `cells` cells; malformed where the
/// number of bytes is not four per cell, and an invalid cell count where
/// there are not one to four cells.
pub open spec fn spec_address(bytes: Seq<u8>, cells: u32) -> Result<u64, DtbError> {
    if bytes.len() != 4 * cells {
        Err(DtbError::MalformedHeader)
    } else if cells == 1 {
        Ok(be_u32(bytes, 0) as u64)
    } else if cells == 2 {
        Ok(be_u64(bytes, 0))
    } else if cells == 3 {
        Ok(be_u64(bytes, 4))
    } else if cells == 4 {
        Ok(be_u64(bytes, 8))
    } else {
        Err(DtbError::InvalidAddressCells(cells))
    }
}

/// Decodes a big-endian address of `cells` cells, keeping its low 64 bits.
pub fn parse_address_from_bytes(bytes: &[u8], cells: u32) -> (result: Result<u64, DtbError>)
    ensures
        result == spec_address(bytes@, cells),
{
    if bytes.len() as u64 != (cells as u64) * 4 {
        return Err(DtbError::MalformedHeader);
    }
    if cells == 1 {
        Ok(read_be_u32(bytes, 0) as u64)
    } else if cells == 2 {
        Ok(read_be_u64(bytes, 0))
    } else if cells == 3 {
        Ok(read_be_u64(bytes, 4))
    } else if cells == 4 {
        Ok(read_be_u64(bytes, 8))
    } else {
        Err(DtbError::InvalidAddressCells(cells))
    }
}

} // verus!
