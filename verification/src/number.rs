//! The integer types a range can count in, and what the ranges need of them.
use vstd::prelude::*;

use crate::range::Bound;
use crate::range_type::RangeType;
use crate::text::{parse_integer, parse_integer_chars};

verus! {

/// A numeric type that the bounds of a range can have.
///
/// A value is seen through its mathematical integer, `spec_value`; the
/// type's values are exactly the integers `spec_min()..=spec_max()`.
pub trait RangeNumber: Sized + Copy {
    spec fn spec_value(self) -> int;

    spec fn spec_min() -> int;

    spec fn spec_max() -> int;

    spec fn spec_type() -> RangeType;

    proof fn lemma_limits()
        ensures
            -0x1_0000_0000_0000_0000 <= Self::spec_min() <= 0 < Self::spec_max()
                <= 0x1_0000_0000_0000_0000,
    ;

    proof fn lemma_value_in_limits(self)
        ensures
            Self::spec_min() <= self.spec_value() <= Self::spec_max(),
    ;

    proof fn lemma_value_injective(a: Self, b: Self)
        ensures
            a.spec_value() == b.spec_value() ==> a == b,
    ;

    /// The range type that stands for this numeric type.
    fn range_type() -> (t: RangeType)
        ensures
            t == Self::spec_type(),
    ;

    fn min_value() -> (v: i128)
        ensures
            v == Self::spec_min(),
    ;

    fn max_value() -> (v: i128)
        ensures
            v == Self::spec_max(),
    ;

    fn to_i128(self) -> (v: i128)
        ensures
            v == self.spec_value(),
    ;

    fn from_i128(v: i128) -> (r: Self)
        requires
            Self::spec_min() <= v <= Self::spec_max(),
        ensures
            r.spec_value() == v,
    ;

    /// The inclusive end that stands for the exclusive end `self`: the
    /// value just below it, or `None` where `self` is the type's least value.
    fn range_end_bound(self) -> (r: Option<Bound<Self>>)
        ensures
            match r {
                Some(Bound::Included(e)) => self.spec_value() > Self::spec_min()
                    && e.spec_value() == self.spec_value() - 1,
                Some(_) => false,
                None => self.spec_value() == Self::spec_min(),
            },
    {
        proof {
            Self::lemma_limits();
            self.lemma_value_in_limits();
        }
        let v = self.to_i128();
        if v > Self::min_value() {
            Some(Bound::Included(Self::from_i128(v - 1)))
        } else {
            None
        }
    }

    /// The value `v` in this type, if it has one.
    fn from_u64(v: u64) -> (r: Option<Self>)
        ensures
            match r {
                Some(x) => x.spec_value() == v,
                None => v > Self::spec_max(),
            },
    {
        proof {
            Self::lemma_limits();
        }
        let w = v as i128;
        if w <= Self::max_value() {
            Some(Self::from_i128(w))
        } else {
            None
        }
    }

    /// The value `v` in this type, if it has one.
    fn from_i64(v: i64) -> (r: Option<Self>)
        ensures
            match r {
                Some(x) => x.spec_value() == v,
                None => v < Self::spec_min() || v > Self::spec_max(),
            },
    {
        proof {
            Self::lemma_limits();
        }
        let w = v as i128;
        if Self::min_value() <= w && w <= Self::max_value() {
            Some(Self::from_i128(w))
        } else {
            None
        }
    }

    /// Parses `s` as `str::parse` parses a value of this type.
    fn parse_chars(s: &[char]) -> (r: Option<Self>)
        ensures
            match r {
                Some(x) => parse_integer(s@, Self::spec_min(), Self::spec_max()) == Some(
                    x.spec_value(),
                ),
                None => parse_integer(s@, Self::spec_min(), Self::spec_max()) is None,
            },
    {
        proof {
            Self::lemma_limits();
        }
        match parse_integer_chars(s, Self::min_value(), Self::max_value()) {
            Some(v) => Some(Self::from_i128(v)),
            None => None,
        }
    }
}

/// The integer types among the range types.
pub trait RangeInteger: RangeNumber {

}

/// The floating-point types among the range types.
pub trait RangeFloats: RangeNumber {

}

impl RangeNumber for i8 {

    open spec fn spec_value(self) -> int {
        self as int
    }

    open spec fn spec_min() -> int {
        -0x80
    }

    open spec fn spec_max() -> int {
        0x7f
    }

    open spec fn spec_type() -> RangeType {
        RangeType::I8
    }

    proof fn lemma_limits() {
        assert(Self::spec_min() == -0x80);
        assert(Self::spec_max() == 0x7f);

    }

    proof fn lemma_value_in_limits(self) {
        assert(Self::spec_min() == -0x80);
        assert(Self::spec_max() == 0x7f);
    }

    proof fn lemma_value_injective(a: Self, b: Self) {
    }

    fn range_type() -> (t: RangeType) {
        RangeType::I8
    }

    fn min_value() -> (v: i128) {
        -0x80
    }

    fn max_value() -> (v: i128) {
        0x7f
    }

    fn to_i128(self) -> (v: i128) {
        self as i128
    }

    fn from_i128(v: i128) -> (r: Self) {
        proof {
            assert(Self::spec_min() == -0x80);
            assert(Self::spec_max() == 0x7f);
        }
        v as i8
    }
}

impl RangeInteger for i8 {

}

impl RangeNumber for i16 {
    open spec fn spec_value(self) -> int {
        self as int
    }

    open spec fn spec_min() -> int {
        -0x8000
    }

    open spec fn spec_max() -> int {
        0x7fff
    }

    open spec fn spec_type() -> RangeType {
        RangeType::I16
    }

    proof fn lemma_limits() {
        assert(Self::spec_min() == -0x8000);
        assert(Self::spec_max() == 0x7fff);
    }

    proof fn lemma_value_in_limits(self) {
        assert(Self::spec_min() == -0x8000);
        assert(Self::spec_max() == 0x7fff);
    }

    proof fn lemma_value_injective(a: Self, b: Self) {
    }

    fn range_type() -> (t: RangeType) {
        RangeType::I16
    }

    fn min_value() -> (v: i128) {
        -0x8000
    }

    fn max_value() -> (v: i128) {
        0x7fff
    }

    fn to_i128(self) -> (v: i128) {
        self as i128
    }

    fn from_i128(v: i128) -> (r: Self) {
        proof {
            assert(Self::spec_min() == -0x8000);
            assert(Self::spec_max() == 0x7fff);
        }
        v as i16
    }
}

impl RangeInteger for i16 {

}

impl RangeNumber for i32 {
    open spec fn spec_value(self) -> int {
        self as int
    }

    open spec fn spec_min() -> int {
        -0x8000_0000
    }

    open spec fn spec_max() -> int {
        0x7fff_ffff
    }

    open spec fn spec_type() -> RangeType {
        RangeType::I32
    }

    proof fn lemma_limits() {
        assert(Self::spec_min() == -0x8000_0000);
        assert(Self::spec_max() == 0x7fff_ffff);
    }

    proof fn lemma_value_in_limits(self) {
        assert(Self::spec_min() == -0x8000_0000);
        assert(Self::spec_max() == 0x7fff_ffff);
    }

    proof fn lemma_value_injective(a: Self, b: Self) {
    }

    fn range_type() -> (t: RangeType) {
        RangeType::I32
    }

    fn min_value() -> (v: i128) {
        -0x8000_0000
    }

    fn max_value() -> (v: i128) {
        0x7fff_ffff
    }

    fn to_i128(self) -> (v: i128) {
        self as i128
    }

    fn from_i128(v: i128) -> (r: Self) {
        proof {
            assert(Self::spec_min() == -0x8000_0000);
            assert(Self::spec_max() == 0x7fff_ffff);
        }
        v as i32
    }
}

impl RangeInteger for i32 {

}

impl RangeNumber for i64 {
    open spec fn spec_value(self) -> int {
        self as int
    }

    open spec fn spec_min() -> int {
        -0x8000_0000_0000_0000
    }

    open spec fn spec_max() -> int {
        0x7fff_ffff_ffff_ffff
    }

    open spec fn spec_type() -> RangeType {
        RangeType::I64
    }

    proof fn lemma_limits() {
        assert(Self::spec_min() == -0x8000_0000_0000_0000);
        assert(Self::spec_max() == 0x7fff_ffff_ffff_ffff);
    }

    proof fn lemma_value_in_limits(self) {
        assert(Self::spec_min() == -0x8000_0000_0000_0000);
        assert(Self::spec_max() == 0x7fff_ffff_ffff_ffff);
    }

    proof fn lemma_value_injective(a: Self, b: Self) {
    }

    fn range_type() -> (t: RangeType) {
        RangeType::I64
    }

    fn min_value() -> (v: i128) {
        -0x8000_0000_0000_0000
    }

    fn max_value() -> (v: i128) {
        0x7fff_ffff_ffff_ffff
    }

    fn to_i128(self) -> (v: i128) {
        self as i128
    }

    fn from_i128(v: i128) -> (r: Self) {
        proof {
            assert(Self::spec_min() == -0x8000_0000_0000_0000);
            assert(Self::spec_max() == 0x7fff_ffff_ffff_ffff);
        }
        v as i64
    }
}

impl RangeInteger for i64 {

}

impl RangeNumber for u8 {
    open spec fn spec_value(self) -> int {
        self as int
    }

    open spec fn spec_min() -> int {
        0
    }

    open spec fn spec_max() -> int {
        0xff
    }

    open spec fn spec_type() -> RangeType {
        RangeType::U8
    }

    proof fn lemma_limits() {
        assert(Self::spec_min() == 0);
        assert(Self::spec_max() == 0xff);
    }

    proof fn lemma_value_in_limits(self) {
        assert(Self::spec_min() == 0);
        assert(Self::spec_max() == 0xff);
    }

    proof fn lemma_value_injective(a: Self, b: Self) {
    }

    fn range_type() -> (t: RangeType) {
        RangeType::U8
    }

    fn min_value() -> (v: i128) {
        0
    }

    fn max_value() -> (v: i128) {
        0xff
    }

    fn to_i128(self) -> (v: i128) {
        self as i128
    }

    fn from_i128(v: i128) -> (r: Self) {
        proof {
            assert(Self::spec_min() == 0);
            assert(Self::spec_max() == 0xff);
        }
        v as u8
    }
}

impl RangeInteger for u8 {

}

impl RangeNumber for u16 {
    open spec fn spec_value(self) -> int {
        self as int
    }

    open spec fn spec_min() -> int {
        0
    }

    open spec fn spec_max() -> int {
        0xffff
    }

    open spec fn spec_type() -> RangeType {
        RangeType::U16
    }

    proof fn lemma_limits() {
        assert(Self::spec_min() == 0);
        assert(Self::spec_max() == 0xffff);
    }

    proof fn lemma_value_in_limits(self) {
        assert(Self::spec_min() == 0);
        assert(Self::spec_max() == 0xffff);
    }

    proof fn lemma_value_injective(a: Self, b: Self) {
    }

    fn range_type() -> (t: RangeType) {
        RangeType::U16
    }

    fn min_value() -> (v: i128) {
        0
    }

    fn max_value() -> (v: i128) {
        0xffff
    }

    fn to_i128(self) -> (v: i128) {
        self as i128
    }

    fn from_i128(v: i128) -> (r: Self) {
        proof {
            assert(Self::spec_min() == 0);
            assert(Self::spec_max() == 0xffff);
        }
        v as u16
    }
}

impl RangeInteger for u16 {

}

impl RangeNumber for u32 {
    open spec fn spec_value(self) -> int {
        self as int
    }

    open spec fn spec_min() -> int {
        0
    }

    open spec fn spec_max() -> int {
        0xffff_ffff
    }

    open spec fn spec_type() -> RangeType {
        RangeType::U32
    }

    proof fn lemma_limits() {
        assert(Self::spec_min() == 0);
        assert(Self::spec_max() == 0xffff_ffff);
    }

    proof fn lemma_value_in_limits(self) {
        assert(Self::spec_min() == 0);
        assert(Self::spec_max() == 0xffff_ffff);
    }

    proof fn lemma_value_injective(a: Self, b: Self) {
    }

    fn range_type() -> (t: RangeType) {
        RangeType::U32
    }

    fn min_value() -> (v: i128) {
        0
    }

    fn max_value() -> (v: i128) {
        0xffff_ffff
    }

    fn to_i128(self) -> (v: i128) {
        self as i128
    }

    fn from_i128(v: i128) -> (r: Self) {
        proof {
            assert(Self::spec_min() == 0);
            assert(Self::spec_max() == 0xffff_ffff);
        }
        v as u32
    }
}

impl RangeInteger for u32 {

}

impl RangeNumber for u64 {
    open spec fn spec_value(self) -> int {
        self as int
    }

    open spec fn spec_min() -> int {
        0
    }

    open spec fn spec_max() -> int {
        0xffff_ffff_ffff_ffff
    }

    open spec fn spec_type() -> RangeType {
        RangeType::U64
    }

    proof fn lemma_limits() {
        assert(Self::spec_min() == 0);
        assert(Self::spec_max() == 0xffff_ffff_ffff_ffff);
    }

    proof fn lemma_value_in_limits(self) {
        assert(Self::spec_min() == 0);
        assert(Self::spec_max() == 0xffff_ffff_ffff_ffff);
    }

    proof fn lemma_value_injective(a: Self, b: Self) {
    }

    fn range_type() -> (t: RangeType) {
        RangeType::U64
    }

    fn min_value() -> (v: i128) {
        0
    }

    fn max_value() -> (v: i128) {
        0xffff_ffff_ffff_ffff
    }

    fn to_i128(self) -> (v: i128) {
        self as i128
    }

    fn from_i128(v: i128) -> (r: Self) {
        proof {
            assert(Self::spec_min() == 0);
            assert(Self::spec_max() == 0xffff_ffff_ffff_ffff);
        }
        v as u64
    }
}

impl RangeInteger for u64 {

}

} // verus!
