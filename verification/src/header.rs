//! The fixed 40-byte header that opens every device tree blob.

use vstd::prelude::*;
use crate::bytes::{be_u32, outcome, read_be_u32};
use crate::error::DtbError;

verus! {

/// The ten header fields, in wire order.
#[derive(Debug, Clone, Copy, PartialEq, Eq, Structural)]
pub struct DtbHeader {
    /// Magic number; always [`DtbHeader::MAGIC`] in a decoded header.
    pub magic: u32,
    /// Size of the whole blob in bytes.
    pub totalsize: u32,
    /// Offset of the structure block.
    pub off_dt_struct: u32,
    /// Offset of the strings block.
    pub off_dt_strings: u32,
    /// Offset of the memory reservation block.
    pub off_mem_rsvmap: u32,
    /// Format version.
    pub version: u32,
    /// Oldest version this blob is compatible with.
    pub last_comp_version: u32,
    /// Physical id of the boot CPU.
    pub boot_cpuid_phys: u32,
    /// Size of the strings block in bytes.
    pub size_dt_strings: u32,
    /// Size of the structure block in bytes.
    pub size_dt_struct: u32,
}

impl DtbHeader {
    /// The magic number that opens a device tree blob.
    pub const MAGIC: u32 = 0xd00d_feed;

    /// Size of the header in bytes.
    pub const SIZE: usize = 40;

    /// The header that the first 40 bytes of `input` spell out.
    pub open spec fn spec_fields(input: Seq<u8>) -> DtbHeader {
        DtbHeader {
            magic: be_u32(input, 0),
            totalsize: be_u32(input, 4),
            off_dt_struct: be_u32(input, 8),
            off_dt_strings: be_u32(input, 12),
            off_mem_rsvmap: be_u32(input, 16),
            version: be_u32(input, 20),
            last_comp_version: be_u32(input, 24),
            boot_cpuid_phys: be_u32(input, 28),
            size_dt_strings: be_u32(input, 32),
            size_dt_struct: be_u32(input, 36),
        }
    }

    /// Decoding a header from the front of `input`: too short an input is
    /// malformed, a wrong first field is an invalid magic, and no other
    /// field is checked.
    pub open spec fn spec_parse(input: Seq<u8>) -> Result<(Seq<u8>, DtbHeader), DtbError> {
        if input.len() < 40 {
            Err(DtbError::MalformedHeader)
        } else if be_u32(input, 0) != 0xd00d_feed {
            Err(DtbError::InvalidMagic)
        } else {
            Ok((input.subrange(40, input.len() as int), Self::spec_fields(input)))
        }
    }

    /// Decodes the header at the front of `input` and hands back the bytes
    /// that follow it.
    pub fn parse(input: &[u8]) -> (result: Result<(&[u8], Self), DtbError>)
        ensures
            outcome(result) == Self::spec_parse(input@),
            input@.len() < 40 ==> result matches Err(DtbError::MalformedHeader),
            input@.len() >= 40 && be_u32(input@, 0) != Self::MAGIC ==> result matches Err(
                DtbError::InvalidMagic,
            ),
    {
        if input.len() < Self::SIZE {
            return Err(DtbError::MalformedHeader);
        }
        let magic = read_be_u32(input, 0);
        if magic != Self::MAGIC {
            return Err(DtbError::InvalidMagic);
        }
        let header = DtbHeader {
            magic,
            totalsize: read_be_u32(input, 4),
            off_dt_struct: read_be_u32(input, 8),
            off_dt_strings: read_be_u32(input, 12),
            off_mem_rsvmap: read_be_u32(input, 16),
            version: read_be_u32(input, 20),
            last_comp_version: read_be_u32(input, 24),
            boot_cpuid_phys: read_be_u32(input, 28),
            size_dt_strings: read_be_u32(input, 32),
            size_dt_struct: read_be_u32(input, 36),
        };
        Ok((&input[Self::SIZE..input.len()], header))
    }
}

} // verus!
