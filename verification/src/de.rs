//! The decisions taken while reading ranges from a serialized document:
//! what a sequence of ranges, a bare number, or the fields of a range
//! entry become.
use vstd::prelude::*;

use crate::error::{Error, ErrorView};
use crate::number::RangeNumber;
use crate::range::{Range, RangeModel};
use crate::range_type::RangeType;
use crate::ranges::{Ranges, TypeOrRange};
use crate::text::to_chars;

verus! {

/// The range a sequence of ranges stands for: none is a fallback, one is
/// itself, and several are alternatives, the first of them moved to the
/// end.
pub fn range_from_sequence<T>(elements: Vec<Range<T>>) -> (r: Range<T>)
    ensures
        elements@.len() == 0 ==> r == Range::<T>::Fallback,
        elements@.len() == 1 ==> r == elements@[0],
        elements@.len() >= 2 ==> (r matches Range::Multiple(v) && v@ == elements@.subrange(
            1,
            elements@.len() as int,
        ).push(elements@[0])),
{
    if elements.len() == 0 {
        return Range::Fallback;
    }
    let ghost all = elements@;
    let mut rest = elements;
    let first = rest.remove(0);
    if rest.len() == 0 {
        return first;
    }
    rest.push(first);
    assert(rest@ =~= all.subrange(1, all.len() as int).push(all[0]));
    Range::Multiple(rest)
}

/// An exact count of `v`, where `T` holds it.
pub fn range_from_i64<T: RangeNumber>(v: i64) -> (r: Result<Range<T>, Error>)
    ensures
        match r {
            Ok(x) => T::spec_min() <= v <= T::spec_max() && x@ == RangeModel::Exact(v as int),
            Err(e) => !(T::spec_min() <= v <= T::spec_max()) && e@ == (ErrorView::RangeNumberType {
                found: RangeType::I64,
                expected: T::spec_type(),
            }),
        },
{
    match T::from_i64(v) {
        Some(x) => {
            proof {
                x.lemma_value_in_limits();
            }
            Ok(Range::Exact(x))
        },
        None => Err(Error::RangeNumberType { found: RangeType::I64, expected: T::range_type() }),
    }
}

/// An exact count of `v`, where `T` holds it.
pub fn range_from_u64<T: RangeNumber>(v: u64) -> (r: Result<Range<T>, Error>)
    ensures
        match r {
            Ok(x) => v <= T::spec_max() && x@ == RangeModel::Exact(v as int),
            Err(e) => v > T::spec_max() && e@ == (ErrorView::RangeNumberType {
                found: RangeType::U64,
                expected: T::spec_type(),
            }),
        },
{
    match T::from_u64(v) {
        Some(x) => {
            proof {
                x.lemma_value_in_limits();
            }
            Ok(Range::Exact(x))
        },
        None => Err(Error::RangeNumberType { found: RangeType::U64, expected: T::range_type() }),
    }
}

/// A field of a range entry written as a map.
#[derive(Debug, PartialEq, Eq, Clone, Copy, Structural)]
pub enum RangeField {
    /// The field `count`, which holds the range.
    Range,
    /// The field `value`, which holds what is shown.
    Value,
}

/// The names of the fields of a range entry.
pub open spec fn spec_field_from_name(s: Seq<char>) -> Option<RangeField> {
    if s == seq!['c', 'o', 'u', 'n', 't'] {
        Some(RangeField::Range)
    } else if s == seq!['v', 'a', 'l', 'u', 'e'] {
        Some(RangeField::Value)
    } else {
        None
    }
}

/// The field named `s`, if any.
pub fn field_from_str(s: &str) -> (r: Option<RangeField>)
    ensures
        r == spec_field_from_name(s@),
{
    let c = to_chars(s);
    if c.len() == 5 && c[0] == 'c' && c[1] == 'o' && c[2] == 'u' && c[3] == 'n' && c[4] == 't' {
        assert(s@ =~= seq!['c', 'o', 'u', 'n', 't']);
        Some(RangeField::Range)
    } else if c.len() == 5 && c[0] == 'v' && c[1] == 'a' && c[2] == 'l' && c[3] == 'u' && c[4]
        == 'e' {
        assert(s@ =~= seq!['v', 'a', 'l', 'u', 'e']);
        Some(RangeField::Value)
    } else {
        None
    }
}

/// Why the fields of a range entry were refused.
#[derive(Debug, PartialEq, Eq, Clone, Copy)]
pub enum FieldError {
    /// A field was given twice; the name it reports is always `count`.
    DuplicateField(&'static str),
    /// The field of this name was not given.
    MissingField(&'static str),
}

pub open spec fn count_name() -> Seq<char> {
    seq!['c', 'o', 'u', 'n', 't']
}

pub open spec fn value_name() -> Seq<char> {
    seq!['v', 'a', 'l', 'u', 'e']
}

/// The fields of a range entry written as a map, gathered one at a time.
pub struct RangeEntryFields<T, V> {
    pub range: Option<Range<T>>,
    pub value: Option<V>,
}

impl<T, V> RangeEntryFields<T, V> {
    /// No field yet.
    pub fn new() -> (r: Self)
        ensures
            r.range is None,
            r.value is None,
    {
        RangeEntryFields { range: None, value: None }
    }

    /// Takes the `count` field; a second one is refused, as a duplicate
    /// `count`, after it replaced the first.
    pub fn accept_range(&mut self, r: Range<T>) -> (res: Result<(), FieldError>)
        ensures
            final(self).range == Some(r),
            final(self).value == old(self).value,
            match res {
                Ok(()) => old(self).range is None,
                Err(FieldError::DuplicateField(name)) => old(self).range is Some && name@
                    == count_name(),
                Err(_) => false,
            },
    {
        let had = self.range.is_some();
        self.range = Some(r);
        if had {
            proof {
                reveal_strlit("count");
            }
            Err(FieldError::DuplicateField("count"))
        } else {
            Ok(())
        }
    }

    /// Takes the `value` field; a second one is refused, as a duplicate
    /// `count`, after it replaced the first.
    pub fn accept_value(&mut self, v: V) -> (res: Result<(), FieldError>)
        ensures
            final(self).value == Some(v),
            final(self).range == old(self).range,
            match res {
                Ok(()) => old(self).value is None,
                Err(FieldError::DuplicateField(name)) => old(self).value is Some && name@
                    == count_name(),
                Err(_) => false,
            },
    {
        let had = self.value.is_some();
        self.value = Some(v);
        if had {
            proof {
                reveal_strlit("count");
            }
            Err(FieldError::DuplicateField("count"))
        } else {
            Ok(())
        }
    }

    /// The entry: a missing range is a fallback, and a missing value is
    /// refused.
    pub fn finish(self) -> (res: Result<(Range<T>, V), FieldError>)
        ensures
            match res {
                Ok((r, v)) => self.value == Some(v) && match self.range {
                    Some(x) => r == x,
                    None => r == Range::<T>::Fallback,
                },
                Err(FieldError::MissingField(name)) => self.value is None && name@ == value_name(),
                Err(_) => false,
            },
    {
        let range = match self.range {
            Some(x) => x,
            None => Range::Fallback,
        };
        match self.value {
            Some(v) => Ok((range, v)),
            None => {
                proof {
                    reveal_strlit("value");
                }
                Err(FieldError::MissingField("value"))
            },
        }
    }
}

impl<V> Ranges<V> {
    /// The ranges that the first element of a plural starts: none of the
    /// type it names, or its range; `Ok(None)` for a floating-point type,
    /// which these ranges do not hold, and an error where there is no
    /// element.
    pub fn from_first(first: Option<TypeOrRange<V>>) -> (r: Result<Option<Self>, Error>)
        ensures
            match r {
                Err(e) => first is None && e@ == ErrorView::EmptyRange,
                Ok(None) => first matches Some(TypeOrRange::Type(t))
                    && t.spec_should_have_fallback(),
                Ok(Some(x)) => match first {
                    Some(TypeOrRange::Type(t)) => x.spec_type() == t && x.len() == 0,
                    Some(TypeOrRange::Range(p)) => x.spec_type() == RangeType::I32
                        && x.values() == seq![p.1] && x.range_models() == seq![p.0@],
                    None => false,
                },
            },
    {
        match first {
            None => Err(Error::EmptyRange),
            Some(TypeOrRange::Type(t)) => Ok(Self::from_type(t)),
            Some(TypeOrRange::Range(p)) => {
                let ghost pm = p.0@;
                let ghost pv = p.1;
                let v = vec![p];
                let x = Ranges::I32(v);
                proof {
                    crate::ranges::lemma_pair_models(v@);
                    assert(x.values() =~= seq![pv]);
                    assert(x.range_models() =~= seq![pm]);
                }
                Ok(Some(x))
            },
        }
    }
}

} // verus!
