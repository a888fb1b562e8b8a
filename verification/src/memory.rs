//! The memory reservation block: 16-byte entries closed by an all-zero one.

use vstd::prelude::*;
use crate::bytes::{be_u64, read_be_u64, start_address};
use crate::error::DtbError;

verus! {

/// A region of physical memory that must be left alone.
#[derive(Debug, Clone, Copy, PartialEq, Eq, Structural)]
pub struct MemoryReservation {
    /// Physical address at which the region starts.
    pub address: u64,
    /// Size of the region in bytes.
    pub size: u64,
}

impl MemoryReservation {
    /// Size of one entry in bytes.
    pub const SIZE: usize = 16;

    /// Whether this entry is the all-zero one that closes the list.
    pub open spec fn is_sentinel(self) -> bool {
        self.address == 0 && self.size == 0
    }

    /// The entry that the 16 bytes starting at `at` spell out.
    pub open spec fn spec_entry(input: Seq<u8>, at: int) -> MemoryReservation {
        MemoryReservation { address: be_u64(input, at), size: be_u64(input, at + 8) }
    }

    /// The entries before the first sentinel, and the bytes after the
    /// sentinel; malformed where the input ends before a sentinel.
    pub open spec fn spec_entries(input: Seq<u8>) -> Result<
        (Seq<u8>, Seq<MemoryReservation>),
        DtbError,
    >
        decreases input.len(),
    {
        if input.len() < 16 {
            Err(DtbError::MalformedHeader)
        } else if Self::spec_entry(input, 0).is_sentinel() {
            Ok((input.subrange(16, input.len() as int), Seq::empty()))
        } else {
            match Self::spec_entries(input.subrange(16, input.len() as int)) {
                Ok((rest, entries)) => Ok((rest, seq![Self::spec_entry(input, 0)] + entries)),
                Err(e) => Err(e),
            }
        }
    }

    /// Decoding the reservation list at the front of `input`, which starts
    /// at an 8-byte boundary exactly if `aligned`.
    pub open spec fn spec_parse_all(input: Seq<u8>, aligned: bool) -> Result<
        (Seq<u8>, Seq<MemoryReservation>),
        DtbError,
    > {
        if !aligned {
            Err(DtbError::AlignmentError)
        } else {
            Self::spec_entries(input)
        }
    }

    /// What `parse_all` and its variants hand back, with the rest and the
    /// entries taken as sequences.
    pub open spec fn list_outcome(result: Result<(&[u8], Vec<Self>), DtbError>) -> Result<
        (Seq<u8>, Seq<MemoryReservation>),
        DtbError,
    > {
        match result {
            Ok((rest, entries)) => Ok((rest@, entries@)),
            Err(e) => Err(e),
        }
    }

    /// Decodes the reservation list at the front of `input`, which the
    /// caller knows to start at an 8-byte boundary or not.
    pub fn parse_all_aligned(input: &[u8], aligned: bool) -> (result: Result<
        (&[u8], Vec<Self>),
        DtbError,
    >)
        ensures
            Self::list_outcome(result) == Self::spec_parse_all(input@, aligned),
    {
        if !aligned {
            return Err(DtbError::AlignmentError);
        }
        let mut reservations: Vec<MemoryReservation> = Vec::new();
        let mut at: usize = 0;
        assert(input@.subrange(0, input@.len() as int) =~= input@);
        assert(Seq::<MemoryReservation>::empty() + Self::spec_entries(input@)->Ok_0.1
            =~= Self::spec_entries(input@)->Ok_0.1);
        loop
            invariant
                aligned,
                at <= input.len(),
                at == 16 * reservations@.len(),
                forall|i: int|
                    0 <= i < reservations@.len() ==> !(#[trigger] reservations@[i]).is_sentinel(),
                Self::spec_entries(input@) == match Self::spec_entries(
                    input@.subrange(at as int, input@.len() as int),
                ) {
                    Ok((rest, entries)) => Ok::<(Seq<u8>, Seq<MemoryReservation>), DtbError>(
                        (rest, reservations@ + entries),
                    ),
                    Err(e) => Err(e),
                },
            decreases input@.len() - at,
        {
            let ghost tail = input@.subrange(at as int, input@.len() as int);
            if input.len() - at < Self::SIZE {
                return Err(DtbError::MalformedHeader);
            }
            let address_field = read_be_u64(input, at);
            let size_field = read_be_u64(input, at + 8);
            proof {
                assert(Self::spec_entry(tail, 0) == Self::spec_entry(input@, at as int));
                assert(tail.subrange(16, tail.len() as int) =~= input@.subrange(
                    at + 16,
                    input@.len() as int,
                ));
            }
            if address_field == 0 && size_field == 0 {
                proof {
                    assert(reservations@ + Seq::<MemoryReservation>::empty() =~= reservations@);
                }
                return Ok((&input[at + Self::SIZE..input.len()], reservations));
            }
            let entry = MemoryReservation { address: address_field, size: size_field };
            proof {
                let next = input@.subrange(at + 16, input@.len() as int);
                match Self::spec_entries(next) {
                    Ok((rest, entries)) => {
                        assert(reservations@ + (seq![entry] + entries) =~= reservations@.push(
                            entry,
                        ) + entries);
                    },
                    Err(e) => {},
                }
            }
            reservations.push(entry);
            at += Self::SIZE;
        }
    }

    /// Decodes the reservation list at the front of `input`, which lies at
    /// `address` in memory: the list is aligned exactly if the address is a
    /// multiple of eight.
    pub fn parse_all_at(input: &[u8], address: usize) -> (result: Result<
        (&[u8], Vec<Self>),
        DtbError,
    >)
        ensures
            Self::list_outcome(result) == Self::spec_parse_all(input@, address % 8 == 0),
    {
        Self::parse_all_aligned(input, address % 8 == 0)
    }

    /// Decodes the reservation list at the front of `input`.
    ///
    /// Whether the list is aligned depends on where `input` lies in memory,
    /// so the result is the aligned or the misaligned reading.
    pub fn parse_all(input: &[u8]) -> (result: Result<(&[u8], Vec<Self>), DtbError>)
        ensures
            Self::list_outcome(result) == Self::spec_parse_all(input@, true) || Self::list_outcome(
                result,
            ) == Self::spec_parse_all(input@, false),
    {
        Self::parse_all_at(input, start_address(input))
    }
}

} // verus!
