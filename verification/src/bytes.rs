//! Byte-level building blocks: big-endian integers, NUL-terminated text and
//! the memory address of a buffer.

use vstd::prelude::*;
use vstd::string::StringSliceAdditionalSpecFns;
use vstd::utf8::{
    is_leading_byte_width_1, partial_valid_utf8, partial_valid_utf8_extend_ascii_block, valid_utf8,
};
use crate::error::DtbError;

verus! {

/// The 32-bit value that the four big-endian bytes starting at `at` encode.
pub open spec fn be_u32(bytes: Seq<u8>, at: int) -> u32
    recommends
        0 <= at,
        at + 4 <= bytes.len(),
{
    (bytes[at] as int * 0x100_0000 + bytes[at + 1] as int * 0x1_0000 + bytes[at + 2] as int * 0x100
        + bytes[at + 3] as int) as u32
}

/// The 64-bit value that the eight big-endian bytes starting at `at` encode.
pub open spec fn be_u64(bytes: Seq<u8>, at: int) -> u64
    recommends
        0 <= at,
        at + 8 <= bytes.len(),
{
    (be_u32(bytes, at) as int * 0x1_0000_0000 + be_u32(bytes, at + 4) as int) as u64
}

/// Reads a big-endian `u32` at byte offset `at`.
pub fn read_be_u32(data: &[u8], at: usize) -> (value: u32)
    requires
        at + 4 <= data.len(),
    ensures
        value == be_u32(data@, at as int),
{
    let b0: u32 = data[at] as u32;
    let b1: u32 = data[at + 1] as u32;
    let b2: u32 = data[at + 2] as u32;
    let b3: u32 = data[at + 3] as u32;
    b0 * 0x100_0000 + b1 * 0x1_0000 + b2 * 0x100 + b3
}

/// Reads a big-endian `u64` at byte offset `at`.
pub fn read_be_u64(data: &[u8], at: usize) -> (value: u64)
    requires
        at + 8 <= data.len(),
    ensures
        value == be_u64(data@, at as int),
{
    let high: u64 = read_be_u32(data, at) as u64;
    let low: u64 = read_be_u32(data, at + 4) as u64;
    high * 0x1_0000_0000 + low
}

/// What a decoder that hands back the unread rest of its input produced,
/// with the rest taken as a byte sequence.
pub open spec fn outcome<T>(result: Result<(&[u8], T), DtbError>) -> Result<
    (Seq<u8>, T),
    DtbError,
> {
    match result {
        Ok((rest, value)) => Ok((rest@, value)),
        Err(e) => Err(e),
    }
}

/// Index of the first occurrence of `target` in `bytes`, or the length of
/// `bytes` where it does not occur.
pub open spec fn first_index_of(bytes: Seq<u8>, target: u8) -> int
    decreases bytes.len(),
{
    if bytes.len() == 0 || bytes[0] == target {
        0
    } else {
        1 + first_index_of(bytes.drop_first(), target)
    }
}

/// `first_index_of` lies within the sequence, no earlier byte is the
/// target, and the byte it points at, if any, is the target.
pub proof fn lemma_first_index_of(bytes: Seq<u8>, target: u8)
    ensures
        0 <= first_index_of(bytes, target) <= bytes.len(),
        forall|i: int| 0 <= i < first_index_of(bytes, target) ==> bytes[i] != target,
        first_index_of(bytes, target) < bytes.len() ==> bytes[first_index_of(bytes, target)]
            == target,
    decreases bytes.len(),
{
    if bytes.len() == 0 || bytes[0] == target {
    } else {
        let tail = bytes.drop_first();
        lemma_first_index_of(tail, target);
        assert forall|i: int| 0 <= i < first_index_of(bytes, target) implies bytes[i]
            != target by {
            if i > 0 {
                assert(bytes[i] == tail[i - 1]);
            }
        }
        assert(first_index_of(bytes, target) < bytes.len() ==> bytes[first_index_of(bytes, target)]
            == tail[first_index_of(tail, target)]);
    }
}

/// A position with no target before it, at which the sequence ends or
/// holds the target, is `first_index_of`.
pub proof fn lemma_first_index_of_is(bytes: Seq<u8>, target: u8, k: int)
    requires
        0 <= k <= bytes.len(),
        forall|i: int| 0 <= i < k ==> bytes[i] != target,
        k < bytes.len() ==> bytes[k] == target,
    ensures
        first_index_of(bytes, target) == k,
{
    lemma_first_index_of(bytes, target);
    let f = first_index_of(bytes, target);
    if f < k {
        assert(bytes[f] == target);
    } else if k < f {
        assert(bytes[k] == target);
    }
}

/// Bytes below `0x80` always form valid UTF-8.
pub proof fn lemma_ascii_is_utf8(bytes: Seq<u8>)
    requires
        forall|i: int| 0 <= i < bytes.len() ==> bytes[i] < 0x80,
    ensures
        valid_utf8(bytes),
{
    assert forall|i: int| 0 <= i < bytes.len() implies #[trigger] is_leading_byte_width_1(
        bytes[i],
    ) by {
        let b = bytes[i];
        assert(b < 0x80 ==> (0x00 <= b <= 0x7f));
    }
    assert(bytes.subrange(0, 0) =~= Seq::<u8>::empty());
    assert(partial_valid_utf8(bytes, 0));
    partial_valid_utf8_extend_ascii_block(bytes, 0, bytes.len() as int);
    assert(bytes.subrange(0, bytes.len() as int) =~= bytes);
}

/// Decodes `bytes` as UTF-8 text without copying.
///
/// Trusted: calls `core::str::from_utf8`, which succeeds exactly on valid
/// UTF-8 and then hands back text whose encoding is the given bytes.
#[verifier::external_body]
pub(crate) fn text_from_utf8<'a>(bytes: &'a [u8]) -> (text: Option<&'a str>)
    ensures
        text is Some <==> valid_utf8(bytes@),
        text is Some ==> text->0.spec_bytes() == bytes@,
{
    core::str::from_utf8(bytes).ok()
}

/// The address at which a byte slice starts in memory.
///
/// Trusted: calls `<[u8]>::as_ptr`. Nothing is promised of the address.
#[verifier::external_body]
pub(crate) fn start_address(data: &[u8]) -> (address: usize) {
    data.as_ptr() as usize
}

/// Whether a block that starts `offset` bytes behind `address` starts at a
/// 4-byte boundary.
pub fn on_word_boundary(address: usize, offset: u32) -> (aligned: bool)
    ensures
        aligned == ((address + offset) % 4 == 0),
{
    (address % 4 + (offset % 4) as usize) % 4 == 0
}

/// Whether a block that starts `offset` bytes behind `address` starts at an
/// 8-byte boundary.
pub fn on_double_word_boundary(address: usize, offset: u32) -> (aligned: bool)
    ensures
        aligned == ((address + offset) % 8 == 0),
{
    (address % 8 + (offset % 8) as usize) % 8 == 0
}

/// Whether two texts hold the same bytes.
pub fn same_text(left: &str, right: &str) -> (same: bool)
    ensures
        same == (left.spec_bytes() == right.spec_bytes()),
{
    same_bytes(left.as_bytes(), right.as_bytes())
}

/// Whether two byte slices hold the same bytes.
pub fn same_bytes(left: &[u8], right: &[u8]) -> (same: bool)
    ensures
        same == (left@ == right@),
{
    if left.len() != right.len() {
        return false;
    }
    let mut i: usize = 0;
    while i < left.len()
        invariant
            i <= left@.len(),
            left@.len() == right@.len(),
            forall|j: int| 0 <= j < i ==> left@[j] == right@[j],
        decreases left@.len() - i,
    {
        if left[i] != right[i] {
            return false;
        }
        i += 1;
    }
    assert(left@ =~= right@);
    true
}

} // verus!
