//! The error taxonomy shared by every decoding step.

use vstd::prelude::*;

verus! {

/// Why a device tree blob, or a query against a decoded tree, was rejected.
#[derive(Debug, Clone, Copy, PartialEq, Eq, Structural)]
pub enum DtbError {
    /// The first header field is not the device tree magic number.
    InvalidMagic,
    /// The data is truncated or structurally inconsistent.
    MalformedHeader,
    /// A structure token is unknown, or appears where the tree state forbids it.
    InvalidToken,
    /// A read position violates the 4- or 8-byte alignment the format demands.
    AlignmentError,
    /// `#address-cells` lies outside `1..=4`; carries the offending value.
    InvalidAddressCells(u32),
    /// `#size-cells` lies outside `0..=4`; carries the offending value.
    InvalidSizeCells(u32),
    /// No range translates the carried address, or a range would overflow.
    AddressTranslationError(u64),
    /// A `ranges` payload is not a whole number of entries.
    InvalidRangesFormat,
    /// Multi-level translation came back to a node it had already visited.
    TranslationCycle,
    /// Multi-level translation reached the caller's depth limit.
    MaxTranslationDepthExceeded,
}

} // verus!
