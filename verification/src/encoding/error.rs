//! Why bytes cannot be decoded.

use crate::text::{around, join_around};
use vstd::prelude::*;
use vstd::string::StringExecFns;

verus! {

/// Why bytes are not the encoding of any value of the requested type.
#[derive(Clone, Copy, PartialEq, Eq, Debug, Structural)]
pub enum DecodeError {
    /// There are too few or too many bytes.
    InvalidByteLength { len: usize, expected: usize },
    /// There are too few bytes for an offset.
    InvalidLengthPrefix { len: usize, expected: usize },
    /// An offset points into the fixed part.
    OffsetIntoFixedPortion(usize),
    /// The first offset does not point to the end of the fixed part.
    OffsetSkipsVariableBytes(usize),
    /// An offset is lower than the one before.
    OffsetsAreDecreasing(usize),
    /// An offset points behind the last byte.
    OffsetOutOfBounds(usize),
    /// The first offset of a list is not that of a whole number of items.
    InvalidListFixedBytesLen(usize),
    /// A list has more items than it may have.
    TooManyItems { items: usize, max: usize },
    /// Bytes are left over after the last item of a list.
    PartialItem { items: usize, bytes: usize },
    /// A list of items of varying size has more items than it may have.
    TooManyVariableItems { items: usize, max: usize },
    /// A vector does not have the number of items that it must have.
    WrongVectorLength { expected: usize, items: usize },
    /// A bit list has no byte.
    NoBits,
    /// A bit list does not tell its length.
    BitLengthMissing,
    /// A bit list has bytes behind the one that tells its length.
    ExcessBitBytes { given: usize, expected: usize },
    /// A bit list has more bits than it may have.
    TooManyBits { max: usize },
    /// There are more bytes than offsets can address.
    TooLong { len: usize },
}

/// A text, two numbers and what stands between and behind them.
pub open spec fn around_two(
    before: Seq<char>,
    a: nat,
    between: Seq<char>,
    b: nat,
    after: Seq<char>,
) -> Seq<char> {
    around(before, a, around(between, b, after))
}

fn join_two(before: &str, a: usize, between: &str, b: usize, after: &str) -> (r: String)
    ensures
        r@ == around_two(before@, a as nat, between@, b as nat, after@),
{
    let rest = join_around(between, b as u64, after);
    join_around(before, a as u64, rest.as_str())
}

impl DecodeError {
    /// The text of the error.
    pub open spec fn message(&self) -> Seq<char> {
        match self {
            DecodeError::InvalidByteLength { len, expected } => around_two(
                "InvalidByteLength { len: "@,
                *len as nat,
                ", expected: "@,
                *expected as nat,
                " }"@,
            ),
            DecodeError::InvalidLengthPrefix { len, expected } => around_two(
                "InvalidLengthPrefix { len: "@,
                *len as nat,
                ", expected: "@,
                *expected as nat,
                " }"@,
            ),
            DecodeError::OffsetIntoFixedPortion(i) => around(
                "OffsetIntoFixedPortion("@,
                *i as nat,
                ")"@,
            ),
            DecodeError::OffsetSkipsVariableBytes(i) => around(
                "OffsetSkipsVariableBytes("@,
                *i as nat,
                ")"@,
            ),
            DecodeError::OffsetsAreDecreasing(i) => around(
                "OffsetsAreDecreasing("@,
                *i as nat,
                ")"@,
            ),
            DecodeError::OffsetOutOfBounds(i) => around("OffsetOutOfBounds("@, *i as nat, ")"@),
            DecodeError::InvalidListFixedBytesLen(i) => around(
                "InvalidListFixedBytesLen("@,
                *i as nat,
                ")"@,
            ),
            DecodeError::TooManyItems { items, max } => around_two(
                "BytesInvalid(\"VariableList of "@,
                *items as nat,
                " items exceeds maximum of "@,
                *max as nat,
                "\")"@,
            ),
            DecodeError::PartialItem { items, bytes } => around_two(
                "BytesInvalid(\"VariableList of "@,
                *items as nat,
                " items has "@,
                *bytes as nat,
                " bytes\")"@,
            ),
            DecodeError::TooManyVariableItems { items, max } => around_two(
                "BytesInvalid(\"Variable length list of "@,
                *items as nat,
                " items exceeds maximum of Some("@,
                *max as nat,
                ")\")"@,
            ),
            DecodeError::WrongVectorLength { expected, items } => around_two(
                "BytesInvalid(\"FixedVector of "@,
                *expected as nat,
                " items has "@,
                *items as nat,
                " items\")"@,
            ),
            DecodeError::NoBits => "BytesInvalid(\"BitList failed to decode: ExcessBits\")"@,
            DecodeError::BitLengthMissing =>
                "BytesInvalid(\"BitList failed to decode: MissingLengthInformation\")"@,
            DecodeError::ExcessBitBytes { given, expected } => around_two(
                "BytesInvalid(\"BitList failed to decode: InvalidByteCount { given: "@,
                *given as nat,
                ", expected: "@,
                *expected as nat,
                " }\")"@,
            ),
            DecodeError::TooManyBits { max } => around_two(
                "BytesInvalid(\"BitList failed to decode: OutOfBounds { i: "@,
                *max as nat,
                ", len: "@,
                *max as nat,
                " }\")"@,
            ),
            DecodeError::TooLong { len } => around("TooLong { len: "@, *len as nat, " }"@),
        }
    }

    /// The text of the error.
    pub fn text(&self) -> (r: String)
        ensures
            r@ == self.message(),
    {
        match self {
            DecodeError::InvalidByteLength { len, expected } => join_two(
                "InvalidByteLength { len: ",
                *len,
                ", expected: ",
                *expected,
                " }",
            ),
            DecodeError::InvalidLengthPrefix { len, expected } => join_two(
                "InvalidLengthPrefix { len: ",
                *len,
                ", expected: ",
                *expected,
                " }",
            ),
            DecodeError::OffsetIntoFixedPortion(i) => join_around(
                "OffsetIntoFixedPortion(",
                *i as u64,
                ")",
            ),
            DecodeError::OffsetSkipsVariableBytes(i) => join_around(
                "OffsetSkipsVariableBytes(",
                *i as u64,
                ")",
            ),
            DecodeError::OffsetsAreDecreasing(i) => join_around(
                "OffsetsAreDecreasing(",
                *i as u64,
                ")",
            ),
            DecodeError::OffsetOutOfBounds(i) => join_around("OffsetOutOfBounds(", *i as u64, ")"),
            DecodeError::InvalidListFixedBytesLen(i) => join_around(
                "InvalidListFixedBytesLen(",
                *i as u64,
                ")",
            ),
            DecodeError::TooManyItems { items, max } => join_two(
                "BytesInvalid(\"VariableList of ",
                *items,
                " items exceeds maximum of ",
                *max,
                "\")",
            ),
            DecodeError::PartialItem { items, bytes } => join_two(
                "BytesInvalid(\"VariableList of ",
                *items,
                " items has ",
                *bytes,
                " bytes\")",
            ),
            DecodeError::TooManyVariableItems { items, max } => join_two(
                "BytesInvalid(\"Variable length list of ",
                *items,
                " items exceeds maximum of Some(",
                *max,
                ")\")",
            ),
            DecodeError::WrongVectorLength { expected, items } => join_two(
                "BytesInvalid(\"FixedVector of ",
                *expected,
                " items has ",
                *items,
                " items\")",
            ),
            DecodeError::NoBits => {
                "BytesInvalid(\"BitList failed to decode: ExcessBits\")".to_owned()
            },
            DecodeError::BitLengthMissing => {
                "BytesInvalid(\"BitList failed to decode: MissingLengthInformation\")".to_owned()
            },
            DecodeError::ExcessBitBytes { given, expected } => join_two(
                "BytesInvalid(\"BitList failed to decode: InvalidByteCount { given: ",
                *given,
                ", expected: ",
                *expected,
                " }\")",
            ),
            DecodeError::TooManyBits { max } => join_two(
                "BytesInvalid(\"BitList failed to decode: OutOfBounds { i: ",
                *max,
                ", len: ",
                *max,
                " }\")",
            ),
            DecodeError::TooLong { len } => join_around("TooLong { len: ", *len as u64, " }"),
        }
    }

    /// The text of the error behind another text.
    pub fn text_after(&self, before: &str) -> (r: String)
        ensures
            r@ == before@ + self.message(),
    {
        let mut s = before.to_owned();
        let own = self.text();
        s.append(own.as_str());
        s
    }
}

} // verus!
