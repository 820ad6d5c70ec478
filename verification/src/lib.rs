//! Numeric range patterns for plural-aware localized messages: reading range
//! texts such as `0..=5 | 10..`, checking a plural's ranges, and the
//! pattern tokens each range expands to in a `match` arm.
use vstd::prelude::*;

pub mod condition;
pub mod de;
pub mod error;
pub mod number;
pub mod pattern;
pub mod range;
pub mod range_type;
pub mod ranges;
pub mod text;

pub use error::Error;
pub use number::{RangeFloats, RangeInteger, RangeNumber};
pub use pattern::PatternToken;
pub use range::{Bound, Range};
pub use range_type::RangeType;
pub use ranges::{Ranges, RangesInner, TypeOrRange};

verus! {
} // verus!
