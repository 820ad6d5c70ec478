//! The errors that reading a set of ranges can end in.
use vstd::prelude::*;

use crate::range_type::RangeType;

verus! {

/// Why a range, or a set of ranges, was refused.
#[derive(Debug, Clone)]
pub enum Error {
    /// A set of ranges held no element at all.
    EmptyRange,
    /// The first element named no known numeric type.
    InvalidRangeType(String),
    /// A bound or a count did not parse as a number of the range's type.
    RangeParse { range: String, range_type: RangeType },
    /// An exclusive end bound below which no value of the type lies.
    InvalidBoundEnd { range: String, range_type: RangeType },
    /// A range whose end lies before its start.
    ImpossibleRange(String),
    /// A number of one kind where a range of another type was expected.
    RangeNumberType { found: RangeType, expected: RangeType },
}

/// An [`Error`] with its texts taken as character sequences.
pub enum ErrorView {
    EmptyRange,
    InvalidRangeType(Seq<char>),
    RangeParse { range: Seq<char>, range_type: RangeType },
    InvalidBoundEnd { range: Seq<char>, range_type: RangeType },
    ImpossibleRange(Seq<char>),
    RangeNumberType { found: RangeType, expected: RangeType },
}

impl View for Error {
    type V = ErrorView;

    open spec fn view(&self) -> ErrorView {
        match self {
            Error::EmptyRange => ErrorView::EmptyRange,
            Error::InvalidRangeType(s) => ErrorView::InvalidRangeType(s@),
            Error::RangeParse { range, range_type } => ErrorView::RangeParse {
                range: range@,
                range_type: *range_type,
            },
            Error::InvalidBoundEnd { range, range_type } => ErrorView::InvalidBoundEnd {
                range: range@,
                range_type: *range_type,
            },
            Error::ImpossibleRange(s) => ErrorView::ImpossibleRange(s@),
            Error::RangeNumberType { found, expected } => ErrorView::RangeNumberType {
                found: *found,
                expected: *expected,
            },
        }
    }
}

/// `std::iter::FromIterator<char> for String`: collects the characters of
/// `chars`, in order, into a new `String`.
#[verifier::external_body]
pub(crate) fn string_from_chars(chars: &[char]) -> (s: String)
    ensures
        s@ == chars@,
{
    chars.iter().collect()
}

} // verus!
