//! Property payloads and the fixed-priority rule that gives each a type.

use vstd::prelude::*;
use vstd::string::StringSliceAdditionalSpecFns;
use crate::bytes::{
    be_u32, be_u64, first_index_of, lemma_ascii_is_utf8, lemma_first_index_of_is,
    read_be_u32, read_be_u64, text_from_utf8,
};
use crate::error::DtbError;

verus! {

/// A property payload as plain data: texts are byte sequences.
pub enum ValueModel {
    Empty,
    String(Seq<u8>),
    StringList(Seq<Seq<u8>>),
    U32(u32),
    U32Array(Seq<u8>),
    U64(u64),
    U64Array(Seq<u8>),
    Bytes(Seq<u8>),
}

/// A typed property payload. Texts and byte spans borrow from the blob.
#[derive(Debug, Clone, PartialEq)]
pub enum PropertyValue<'a> {
    /// The property is present and carries nothing.
    Empty,
    /// One text.
    String(&'a str),
    /// Several texts, in payload order.
    StringList(Vec<&'a str>),
    /// One 32-bit integer.
    U32(u32),
    /// Big-endian 32-bit integers, kept as the raw payload.
    U32Array(&'a [u8]),
    /// One 64-bit integer.
    U64(u64),
    /// Big-endian 64-bit integers, kept as the raw payload.
    U64Array(&'a [u8]),
    /// Anything else, as raw bytes.
    Bytes(&'a [u8]),
}

/// The bytes of each text of a list.
pub open spec fn texts_view(texts: Seq<&str>) -> Seq<Seq<u8>> {
    Seq::new(texts.len(), |i: int| texts[i].spec_bytes())
}

/// The 32-bit integers that `bytes` holds, four bytes each; a rest of fewer
/// than four bytes is left out.
pub open spec fn be_u32_seq(bytes: Seq<u8>) -> Seq<u32> {
    Seq::new((bytes.len() / 4) as nat, |i: int| be_u32(bytes, 4 * i))
}

/// Whether a byte may occur in a text payload: printable ASCII, tab, line
/// feed, carriage return or NUL.
pub open spec fn is_text_byte(byte: u8) -> bool {
    byte == 0 || (32 <= byte <= 126) || byte == 9 || byte == 10 || byte == 13
}

/// Whether every byte of `data` may occur in a text payload.
pub open spec fn is_text(data: Seq<u8>) -> bool {
    forall|i: int| 0 <= i < data.len() ==> is_text_byte(#[trigger] data[i])
}

/// The non-empty runs of bytes between the NULs of `data`, in order. A run
/// that reaches the end without a closing NUL counts too.
pub open spec fn text_runs(data: Seq<u8>) -> Seq<Seq<u8>>
    decreases data.len(),
{
    if data.len() == 0 {
        Seq::empty()
    } else {
        let k = first_index_of(data, 0);
        let rest = if 0 <= k < data.len() {
            text_runs(data.subrange(k + 1, data.len() as int))
        } else {
            Seq::empty()
        };
        if k > 0 {
            seq![data.subrange(0, k)] + rest
        } else {
            rest
        }
    }
}

/// The value that a list of text runs stands for.
pub open spec fn text_value(runs: Seq<Seq<u8>>) -> ValueModel {
    if runs.len() == 0 {
        ValueModel::Empty
    } else if runs.len() == 1 {
        ValueModel::String(runs[0])
    } else {
        ValueModel::StringList(runs)
    }
}

/// The type inferred for a payload. The interpretations are tried in a fixed
/// order and the first that fits wins: text, then 32-bit integers, then
/// 64-bit integers, then raw bytes.
pub open spec fn spec_decode(data: Seq<u8>) -> ValueModel {
    if data.len() == 0 {
        ValueModel::Empty
    } else if is_text(data) {
        text_value(text_runs(data))
    } else if data.len() % 4 == 0 {
        if data.len() == 4 {
            ValueModel::U32(be_u32(data, 0))
        } else {
            ValueModel::U32Array(data)
        }
    } else if data.len() % 8 == 0 {
        if data.len() == 8 {
            ValueModel::U64(be_u64(data, 0))
        } else {
            ValueModel::U64Array(data)
        }
    } else {
        ValueModel::Bytes(data)
    }
}

/// The 64-bit reading never wins: whatever has a length divisible by eight
/// is text or is taken as 32-bit integers first.
pub proof fn lemma_decode_never_u64(data: Seq<u8>)
    ensures
        !(spec_decode(data) is U64),
        !(spec_decode(data) is U64Array),
{
}

/// A payload made of text bytes is never read as numbers or raw bytes, and
/// a payload that is not text is read as 32-bit integers exactly if its
/// length is a positive multiple of four.
pub proof fn lemma_decode_priority(data: Seq<u8>)
    ensures
        data.len() > 0 && is_text(data) ==> (spec_decode(data) is Empty
            || spec_decode(data) is String || spec_decode(data) is StringList),
        !is_text(data) && data.len() == 4 ==> spec_decode(data) == ValueModel::U32(be_u32(data, 0)),
        !is_text(data) && data.len() > 4 && data.len() % 4 == 0 ==> spec_decode(data)
            == ValueModel::U32Array(data),
        !is_text(data) && data.len() % 4 != 0 ==> spec_decode(data) == ValueModel::Bytes(data),
{
}

impl<'a> View for PropertyValue<'a> {
    type V = ValueModel;

    open spec fn view(&self) -> ValueModel {
        match self {
            PropertyValue::Empty => ValueModel::Empty,
            PropertyValue::String(text) => ValueModel::String(text.spec_bytes()),
            PropertyValue::StringList(texts) => ValueModel::StringList(texts_view(texts@)),
            PropertyValue::U32(value) => ValueModel::U32(*value),
            PropertyValue::U32Array(bytes) => ValueModel::U32Array(bytes@),
            PropertyValue::U64(value) => ValueModel::U64(*value),
            PropertyValue::U64Array(bytes) => ValueModel::U64Array(bytes@),
            PropertyValue::Bytes(bytes) => ValueModel::Bytes(bytes@),
        }
    }
}

impl ValueModel {
    /// The value read as one 32-bit integer: a `U32`, or the first integer
    /// of a `U32Array` of at least four bytes.
    pub open spec fn as_u32(self) -> Option<u32> {
        match self {
            ValueModel::U32(value) => Some(value),
            ValueModel::U32Array(bytes) => if bytes.len() >= 4 {
                Some(be_u32(bytes, 0))
            } else {
                None
            },
            _ => None,
        }
    }

    /// The value read as one 64-bit integer: a `U64`, or the first integer
    /// of a `U64Array` of at least eight bytes.
    pub open spec fn as_u64(self) -> Option<u64> {
        match self {
            ValueModel::U64(value) => Some(value),
            ValueModel::U64Array(bytes) => if bytes.len() >= 8 {
                Some(be_u64(bytes, 0))
            } else {
                None
            },
            _ => None,
        }
    }

    /// The value widened to 64 bits: what `as_u64` gives, or else what
    /// `as_u32` gives.
    pub open spec fn as_wide(self) -> Option<u64> {
        match self.as_u64() {
            Some(value) => Some(value),
            None => match self.as_u32() {
                Some(value) => Some(value as u64),
                None => None,
            },
        }
    }

    /// The value read as one text: a `String`, or the first text of a
    /// non-empty `StringList`.
    pub open spec fn as_text(self) -> Option<Seq<u8>> {
        match self {
            ValueModel::String(text) => Some(text),
            ValueModel::StringList(texts) => if texts.len() > 0 {
                Some(texts[0])
            } else {
                None
            },
            _ => None,
        }
    }

    /// The value read as 32-bit integers: those of a `U32Array`, or the one
    /// of a `U32`.
    pub open spec fn as_u32_seq(self) -> Option<Seq<u32>> {
        match self {
            ValueModel::U32Array(bytes) => Some(be_u32_seq(bytes)),
            ValueModel::U32(value) => Some(seq![value]),
            _ => None,
        }
    }

    /// The payload of a `Bytes` value.
    pub open spec fn as_raw(self) -> Option<Seq<u8>> {
        match self {
            ValueModel::Bytes(bytes) => Some(bytes),
            _ => None,
        }
    }

    /// The raw payload of a `Bytes`, `U32Array` or `U64Array` value.
    pub open spec fn as_span(self) -> Option<Seq<u8>> {
        match self {
            ValueModel::Bytes(bytes) => Some(bytes),
            ValueModel::U32Array(bytes) => Some(bytes),
            ValueModel::U64Array(bytes) => Some(bytes),
            _ => None,
        }
    }
}

/// Decodes the 32-bit integers that `bytes` holds.
pub fn decode_u32_array(bytes: &[u8]) -> (values: Vec<u32>)
    ensures
        values@ == be_u32_seq(bytes@),
{
    let mut values: Vec<u32> = Vec::new();
    let count = bytes.len() / 4;
    let mut i: usize = 0;
    while i < count
        invariant
            count == bytes.len() / 4,
            i <= count,
            values@.len() == i,
            forall|j: int| 0 <= j < i ==> values@[j] == be_u32(bytes@, 4 * j),
        decreases count - i,
    {
        values.push(read_be_u32(bytes, 4 * i));
        i += 1;
    }
    assert(values@ =~= be_u32_seq(bytes@));
    values
}

impl<'a> PropertyValue<'a> {
    /// The value as one 32-bit integer, if it holds one.
    pub fn to_u32(&self) -> (value: Option<u32>)
        ensures
            value == self@.as_u32(),
    {
        match self {
            PropertyValue::U32(value) => Some(*value),
            PropertyValue::U32Array(bytes) => if bytes.len() >= 4 {
                Some(read_be_u32(bytes, 0))
            } else {
                None
            },
            _ => None,
        }
    }

    /// The value as one 64-bit integer, if it holds one.
    pub fn to_u64(&self) -> (value: Option<u64>)
        ensures
            value == self@.as_u64(),
    {
        match self {
            PropertyValue::U64(value) => Some(*value),
            PropertyValue::U64Array(bytes) => if bytes.len() >= 8 {
                Some(read_be_u64(bytes, 0))
            } else {
                None
            },
            _ => None,
        }
    }

    /// The value as one text, if it holds one.
    pub fn to_text(&self) -> (text: Option<&'a str>)
        ensures
            match text {
                Some(t) => self@.as_text() == Some(t.spec_bytes()),
                None => self@.as_text() is None,
            },
    {
        match self {
            PropertyValue::String(text) => Some(*text),
            PropertyValue::StringList(texts) => if texts.len() > 0 {
                Some(texts[0])
            } else {
                None
            },
            _ => None,
        }
    }

    /// The value as a list of 32-bit integers, if it holds any.
    pub fn to_u32_array(&self) -> (values: Option<Vec<u32>>)
        ensures
            match values {
                Some(v) => self@.as_u32_seq() == Some(v@),
                None => self@.as_u32_seq() is None,
            },
    {
        match self {
            PropertyValue::U32Array(bytes) => Some(decode_u32_array(bytes)),
            PropertyValue::U32(value) => {
                let mut values: Vec<u32> = Vec::new();
                values.push(*value);
                assert(values@ =~= seq![*value]);
                Some(values)
            },
            _ => None,
        }
    }

    /// The payload of a `Bytes` value.
    pub fn to_raw(&self) -> (bytes: Option<&'a [u8]>)
        ensures
            match bytes {
                Some(b) => self@.as_raw() == Some(b@),
                None => self@.as_raw() is None,
            },
    {
        match self {
            PropertyValue::Bytes(bytes) => Some(*bytes),
            _ => None,
        }
    }
}

/// Reads `data` as text: `Err` unless every byte is a text byte, and
/// otherwise the value that its non-empty NUL-separated runs stand for.
pub fn parse_as_strings<'a>(data: &'a [u8]) -> (result: Result<PropertyValue<'a>, ()>)
    ensures
        result is Ok <==> is_text(data@),
        result is Ok ==> result->Ok_0@ == text_value(text_runs(data@)),
{
    let mut k: usize = 0;
    while k < data.len()
        invariant
            k <= data.len(),
            forall|j: int| 0 <= j < k ==> is_text_byte(#[trigger] data@[j]),
        decreases data.len() - k,
    {
        let b = data[k];
        if !(b == 0 || (32 <= b && b <= 126) || b == 9 || b == 10 || b == 13) {
            return Err(());
        }
        k += 1;
    }
    let mut strings: Vec<&'a str> = Vec::new();
    let mut start: usize = 0;
    let mut i: usize = 0;
    proof {
        assert(data@.subrange(0, data@.len() as int) =~= data@);
        assert(texts_view(strings@) + text_runs(data@) =~= text_runs(data@));
    }
    while i < data.len()
        invariant
            is_text(data@),
            start <= i <= data.len(),
            forall|j: int| start <= j < i ==> data@[j] != 0,
            text_runs(data@) == texts_view(strings@) + text_runs(
                data@.subrange(start as int, data@.len() as int),
            ),
        decreases data.len() - i,
    {
        if data[i] == 0 {
            let ghost tail = data@.subrange(start as int, data@.len() as int);
            proof {
                lemma_first_index_of_is(tail, 0, i - start);
                assert(tail.subrange(i - start + 1, tail.len() as int) =~= data@.subrange(
                    i + 1,
                    data@.len() as int,
                ));
                assert(tail.subrange(0, i - start) =~= data@.subrange(start as int, i as int));
            }
            if start < i {
                let run = &data[start..i];
                proof {
                    lemma_ascii_is_utf8(run@);
                }
                match text_from_utf8(run) {
                    Some(text) => {
                        proof {
                            let rest = text_runs(data@.subrange(i + 1, data@.len() as int));
                            assert(texts_view(strings@.push(text)) =~= texts_view(strings@).push(
                                run@,
                            ));
                            assert(texts_view(strings@) + (seq![run@] + rest) =~= texts_view(
                                strings@,
                            ).push(run@) + rest);
                        }
                        strings.push(text);
                    },
                    None => {
                        return Err(());
                    },
                }
            }
            start = i + 1;
        }
        i += 1;
    }
    if start < data.len() {
        let run = &data[start..data.len()];
        proof {
            let tail = data@.subrange(start as int, data@.len() as int);
            lemma_first_index_of_is(tail, 0, tail.len() as int);
            lemma_ascii_is_utf8(run@);
            assert(tail.subrange(0, tail.len() as int) =~= tail);
        }
        match text_from_utf8(run) {
            Some(text) => {
                proof {
                    assert(texts_view(strings@.push(text)) =~= texts_view(strings@).push(run@));
                    assert(texts_view(strings@) + (seq![run@] + Seq::<Seq<u8>>::empty())
                        =~= texts_view(strings@).push(run@));
                }
                strings.push(text);
            },
            None => {
                return Err(());
            },
        }
    } else {
        proof {
            assert(texts_view(strings@) + Seq::<Seq<u8>>::empty() =~= texts_view(strings@));
        }
    }
    assert(texts_view(strings@) == text_runs(data@));
    if strings.len() == 0 {
        Ok(PropertyValue::Empty)
    } else if strings.len() == 1 {
        Ok(PropertyValue::String(strings[0]))
    } else {
        Ok(PropertyValue::StringList(strings))
    }
}

/// Gives a payload its type by the fixed priority order.
pub fn parse_property_value<'a>(data: &'a [u8]) -> (value: PropertyValue<'a>)
    ensures
        value@ == spec_decode(data@),
{
    if data.len() == 0 {
        return PropertyValue::Empty;
    }
    if let Ok(text_value) = parse_as_strings(data) {
        return text_value;
    }
    if data.len() % 4 == 0 {
        if data.len() == 4 {
            return PropertyValue::U32(read_be_u32(data, 0));
        }
        return PropertyValue::U32Array(data);
    }
    if data.len() % 8 == 0 {
        if data.len() == 8 {
            return PropertyValue::U64(read_be_u64(data, 0));
        }
        return PropertyValue::U64Array(data);
    }
    PropertyValue::Bytes(data)
}

impl<'a> TryFrom<&PropertyValue<'a>> for u32 {
    type Error = DtbError;

    /// The value as one 32-bit integer; `InvalidToken` where it holds none.
    fn try_from(value: &PropertyValue<'a>) -> (result: Result<u32, DtbError>) {
        match value.to_u32() {
            Some(v) => Ok(v),
            None => Err(DtbError::InvalidToken),
        }
    }
}

impl<'a> vstd::std_specs::convert::TryFromSpecImpl<&PropertyValue<'a>> for u32 {
    open spec fn obeys_try_from_spec() -> bool {
        true
    }

    open spec fn try_from_spec(value: &PropertyValue<'a>) -> Result<u32, DtbError> {
        match value@.as_u32() {
            Some(v) => Ok(v),
            None => Err(DtbError::InvalidToken),
        }
    }
}

impl<'a> TryFrom<&PropertyValue<'a>> for u64 {
    type Error = DtbError;

    /// The value as one 64-bit integer, a 32-bit one being widened;
    /// `InvalidToken` where it holds neither.
    fn try_from(value: &PropertyValue<'a>) -> (result: Result<u64, DtbError>) {
        match value.to_u64() {
            Some(v) => Ok(v),
            None => match value.to_u32() {
                Some(v) => Ok(v as u64),
                None => Err(DtbError::InvalidToken),
            },
        }
    }
}

impl<'a> vstd::std_specs::convert::TryFromSpecImpl<&PropertyValue<'a>> for u64 {
    open spec fn obeys_try_from_spec() -> bool {
        true
    }

    open spec fn try_from_spec(value: &PropertyValue<'a>) -> Result<u64, DtbError> {
        match value@.as_wide() {
            Some(v) => Ok(v),
            None => Err(DtbError::InvalidToken),
        }
    }
}

impl<'a> TryFrom<&PropertyValue<'a>> for &'a str {
    type Error = DtbError;

    /// The value as one text; `InvalidToken` where it holds none.
    fn try_from(value: &PropertyValue<'a>) -> (result: Result<&'a str, DtbError>) {
        match value {
            PropertyValue::String(text) => Ok(*text),
            PropertyValue::StringList(texts) => if texts.len() > 0 {
                Ok(texts[0])
            } else {
                Err(DtbError::InvalidToken)
            },
            _ => Err(DtbError::InvalidToken),
        }
    }
}

impl<'a> vstd::std_specs::convert::TryFromSpecImpl<&PropertyValue<'a>> for &'a str {
    open spec fn obeys_try_from_spec() -> bool {
        true
    }

    open spec fn try_from_spec(value: &PropertyValue<'a>) -> Result<&'a str, DtbError> {
        match value {
            PropertyValue::String(text) => Ok(*text),
            PropertyValue::StringList(texts) => if texts@.len() > 0 {
                Ok(texts@[0])
            } else {
                Err(DtbError::InvalidToken)
            },
            _ => Err(DtbError::InvalidToken),
        }
    }
}

impl<'a> TryFrom<&PropertyValue<'a>> for &'a [u8] {
    type Error = DtbError;

    /// The raw payload of a `Bytes`, `U32Array` or `U64Array` value;
    /// `InvalidToken` for any other.
    fn try_from(value: &PropertyValue<'a>) -> (result: Result<&'a [u8], DtbError>) {
        match value {
            PropertyValue::Bytes(bytes) => Ok(*bytes),
            PropertyValue::U32Array(bytes) => Ok(*bytes),
            PropertyValue::U64Array(bytes) => Ok(*bytes),
            _ => Err(DtbError::InvalidToken),
        }
    }
}

impl<'a> vstd::std_specs::convert::TryFromSpecImpl<&PropertyValue<'a>> for &'a [u8] {
    open spec fn obeys_try_from_spec() -> bool {
        true
    }

    open spec fn try_from_spec(value: &PropertyValue<'a>) -> Result<&'a [u8], DtbError> {
        match value {
            PropertyValue::Bytes(bytes) => Ok(*bytes),
            PropertyValue::U32Array(bytes) => Ok(*bytes),
            PropertyValue::U64Array(bytes) => Ok(*bytes),
            _ => Err(DtbError::InvalidToken),
        }
    }
}

impl<'a> TryFrom<&PropertyValue<'a>> for Vec<u32> {
    type Error = DtbError;

    /// The value as a list of 32-bit integers; `InvalidToken` where it
    /// holds none.
    fn try_from(value: &PropertyValue<'a>) -> (result: Result<Vec<u32>, DtbError>)
        ensures
            match result {
                Ok(v) => value@.as_u32_seq() == Some(v@),
                Err(e) => e == DtbError::InvalidToken && value@.as_u32_seq() is None,
            },
    {
        match value.to_u32_array() {
            Some(v) => Ok(v),
            None => Err(DtbError::InvalidToken),
        }
    }
}

impl<'a> vstd::std_specs::convert::TryFromSpecImpl<&PropertyValue<'a>> for Vec<u32> {
    open spec fn obeys_try_from_spec() -> bool {
        false
    }

    open spec fn try_from_spec(value: &PropertyValue<'a>) -> Result<Vec<u32>, DtbError> {
        Err(DtbError::InvalidToken)
    }
}

impl<'a> Default for PropertyValue<'a> {
    fn default() -> (value: Self)
        ensures
            value@ == ValueModel::Empty,
    {
        PropertyValue::Empty
    }
}

} // verus!
