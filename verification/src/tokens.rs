//! The four structure-block tokens and the 4-byte padding rule.

use vstd::prelude::*;
use crate::bytes::{be_u32, outcome, read_be_u32, start_address};
use crate::error::DtbError;

verus! {

/// One token of the structure block.
#[derive(Debug, Clone, Copy, PartialEq, Eq, Structural)]
pub enum DtbToken {
    /// Opens a node; a NUL-terminated, padded name follows.
    BeginNode,
    /// Closes the node opened last.
    EndNode,
    /// Introduces a property: length, name offset, payload, padding.
    Property,
    /// Ends the structure block.
    End,
}

impl DtbToken {
    /// Wire value of [`DtbToken::BeginNode`].
    pub const FDT_BEGIN_NODE: u32 = 0x0000_0001;

    /// Wire value of [`DtbToken::EndNode`].
    pub const FDT_END_NODE: u32 = 0x0000_0002;

    /// Wire value of [`DtbToken::Property`].
    pub const FDT_PROP: u32 = 0x0000_0003;

    /// Wire value of [`DtbToken::End`].
    pub const FDT_END: u32 = 0x0000_0009;

    /// The token that a wire value stands for, if any.
    pub open spec fn spec_from_u32(value: u32) -> Result<DtbToken, DtbError> {
        if value == 1 {
            Ok(DtbToken::BeginNode)
        } else if value == 2 {
            Ok(DtbToken::EndNode)
        } else if value == 3 {
            Ok(DtbToken::Property)
        } else if value == 9 {
            Ok(DtbToken::End)
        } else {
            Err(DtbError::InvalidToken)
        }
    }

    /// The wire value of a token.
    pub open spec fn spec_to_u32(self) -> u32 {
        match self {
            DtbToken::BeginNode => 1,
            DtbToken::EndNode => 2,
            DtbToken::Property => 3,
            DtbToken::End => 9,
        }
    }

    /// Reading one token from the front of `input`, which starts at a
    /// 4-byte boundary exactly if `aligned`.
    pub open spec fn spec_parse(input: Seq<u8>, aligned: bool) -> Result<
        (Seq<u8>, DtbToken),
        DtbError,
    > {
        if input.len() < 4 {
            Err(DtbError::MalformedHeader)
        } else if !aligned {
            Err(DtbError::AlignmentError)
        } else {
            match Self::spec_from_u32(be_u32(input, 0)) {
                Ok(token) => Ok((input.subrange(4, input.len() as int), token)),
                Err(e) => Err(e),
            }
        }
    }

    /// Number of bytes that bring `offset` up to the next multiple of four.
    pub open spec fn spec_padding(offset: int) -> int {
        (4 - offset % 4) % 4
    }

    /// Maps a wire value to its token; any value but the four defined ones
    /// is an `InvalidToken`.
    pub fn from_u32(value: u32) -> (token: Result<Self, DtbError>)
        ensures
            token == Self::spec_from_u32(value),
    {
        if value == Self::FDT_BEGIN_NODE {
            Ok(DtbToken::BeginNode)
        } else if value == Self::FDT_END_NODE {
            Ok(DtbToken::EndNode)
        } else if value == Self::FDT_PROP {
            Ok(DtbToken::Property)
        } else if value == Self::FDT_END {
            Ok(DtbToken::End)
        } else {
            Err(DtbError::InvalidToken)
        }
    }

    /// The wire value of this token.
    pub fn to_u32(self) -> (value: u32)
        ensures
            value == self.spec_to_u32(),
            Self::spec_from_u32(value) == Ok::<DtbToken, DtbError>(self),
    {
        match self {
            DtbToken::BeginNode => Self::FDT_BEGIN_NODE,
            DtbToken::EndNode => Self::FDT_END_NODE,
            DtbToken::Property => Self::FDT_PROP,
            DtbToken::End => Self::FDT_END,
        }
    }

    /// Reads one token from the front of `input`, which the caller knows
    /// to start at a 4-byte boundary or not.
    pub fn parse_aligned(input: &[u8], aligned: bool) -> (result: Result<(&[u8], Self), DtbError>)
        ensures
            outcome(result) == Self::spec_parse(input@, aligned),
    {
        if input.len() < 4 {
            return Err(DtbError::MalformedHeader);
        }
        if !aligned {
            return Err(DtbError::AlignmentError);
        }
        let value = read_be_u32(input, 0);
        match Self::from_u32(value) {
            Ok(token) => Ok((&input[4..input.len()], token)),
            Err(e) => Err(e),
        }
    }

    /// Reads one token from the front of `input`, which lies at `address`
    /// in memory: the read is aligned exactly if the address is a multiple
    /// of four.
    pub fn parse_at(input: &[u8], address: usize) -> (result: Result<(&[u8], Self), DtbError>)
        ensures
            outcome(result) == Self::spec_parse(input@, address % 4 == 0),
    {
        Self::parse_aligned(input, address % 4 == 0)
    }

    /// Reads one token from the front of `input`.
    ///
    /// Whether the read is aligned depends on where `input` lies in memory,
    /// so the result is the aligned or the misaligned reading.
    pub fn parse(input: &[u8]) -> (result: Result<(&[u8], Self), DtbError>)
        ensures
            outcome(result) == Self::spec_parse(input@, true) || outcome(result)
                == Self::spec_parse(input@, false),
    {
        Self::parse_at(input, start_address(input))
    }

    /// Number of pad bytes (0 to 3) that follow `offset` bytes of data.
    pub fn calculate_padding(offset: usize) -> (padding: usize)
        ensures
            padding == Self::spec_padding(offset as int),
            padding < 4,
            (offset + padding) % 4 == 0,
    {
        (4 - (offset % 4)) % 4
    }

    /// Drops the pad bytes that follow `current_offset` bytes of data from
    /// the front of `input`; leaves `input` as it is where it is too short.
    pub fn skip_padding(input: &[u8], current_offset: usize) -> (rest: &[u8])
        ensures
            rest@ == if Self::spec_padding(current_offset as int) <= input@.len() {
                input@.subrange(Self::spec_padding(current_offset as int), input@.len() as int)
            } else {
                input@
            },
    {
        let padding = Self::calculate_padding(current_offset);
        if padding > 0 && input.len() >= padding {
            &input[padding..input.len()]
        } else {
            assert(padding == 0 ==> input@.subrange(0, input@.len() as int) =~= input@);
            input
        }
    }
}

} // verus!
