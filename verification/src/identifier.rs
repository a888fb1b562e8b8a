//! Device tree source identifiers.

use vstd::prelude::*;
use vstd::string::StringSliceAdditionalSpecFns;
use crate::error::DtbError;

verus! {

/// The keyword that opens an identifier.
pub open spec fn keyword() -> Seq<u8> {
    "device".spec_bytes()
}

/// What is left of `input` behind its first `count` bytes.
pub open spec fn behind(input: Seq<u8>, count: nat) -> Seq<u8> {
    input.subrange(count as int, input.len() as int)
}

/// What is left of `input` behind the keyword.
pub open spec fn behind_keyword(input: Seq<u8>) -> Seq<u8> {
    behind(input, keyword().len())
}

/// Matches `tag` at the front of `input`.
///
/// Trusted: calls the parser that `nom::bytes::complete::tag` makes for
/// `tag`. That parser compares the input with the tag byte by byte and
/// succeeds exactly if the input starts with the tag; it then splits the
/// input behind the tag and hands back the rest and the tag's part. Its
/// error, which only repeats the input, is dropped.
#[verifier::external_body]
fn match_tag<'a>(tag: &str, input: &'a str) -> (result: Option<(&'a str, &'a str)>)
    ensures
        result is Some <==> tag.spec_bytes().is_prefix_of(input.spec_bytes()),
        result matches Some((rest, matched)) ==> matched.spec_bytes() == tag.spec_bytes()
            && rest.spec_bytes() == behind(input.spec_bytes(), tag.spec_bytes().len()),
{
    nom::bytes::complete::tag::<&str, &str, nom::error::Error<&str>>(tag)(input).ok()
}

/// Reads an identifier from the front of `input`: the keyword `device`.
/// Hands back what follows the keyword, and the keyword as it stands in
/// the input; input that does not start with it is an invalid token.
pub fn parse_identifier(input: &str) -> (result: Result<(&str, &str), DtbError>)
    ensures
        match result {
            Ok((rest, matched)) => keyword().is_prefix_of(input.spec_bytes())
                && matched.spec_bytes() == keyword() && rest.spec_bytes() == behind_keyword(
                input.spec_bytes(),
            ),
            Err(e) => e == DtbError::InvalidToken && !keyword().is_prefix_of(input.spec_bytes()),
        },
{
    match match_tag("device", input) {
        Some(found) => Ok(found),
        None => Err(DtbError::InvalidToken),
    }
}

} // verus!
