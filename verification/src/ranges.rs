//! A whole plural: ranges of one integer type, each paired with the value
//! shown when the count falls in it.
use vstd::prelude::*;

use crate::number::RangeNumber;
use crate::range::{has_fallback, lemma_models_of, models_of, Range, RangeModel};
use crate::range_type::{spec_type_from_name, type_from_name, RangeType};
use crate::text::{to_chars, trim, trim_chars};

verus! {

/// The ranges of a plural, with their values, in the order written.
pub type RangesInner<T, V> = Vec<(Range<T>, V)>;

/// The ranges of a plural, for each integer type the count can have.
#[derive(Debug, PartialEq, Clone)]
pub enum Ranges<V> {
    I8(RangesInner<i8, V>),
    I16(RangesInner<i16, V>),
    I32(RangesInner<i32, V>),
    I64(RangesInner<i64, V>),
    U8(RangesInner<u8, V>),
    U16(RangesInner<u16, V>),
    U32(RangesInner<u32, V>),
    U64(RangesInner<u64, V>),
}

/// The models of the ranges of `pairs`, in order.
pub open spec fn pair_models<T: RangeNumber, V>(pairs: Seq<(Range<T>, V)>) -> Seq<RangeModel> {
    models_of(pairs.map_values(|p: (Range<T>, V)| p.0))
}

/// The values of `pairs`, in order.
pub open spec fn pair_values<T, V>(pairs: Seq<(Range<T>, V)>) -> Seq<V> {
    pairs.map_values(|p: (Range<T>, V)| p.1)
}

pub proof fn lemma_pair_models<T: RangeNumber, V>(pairs: Seq<(Range<T>, V)>)
    ensures
        pair_models(pairs).len() == pairs.len(),
        forall|i: int| 0 <= i < pairs.len() ==> #[trigger] pair_models(pairs)[i] == pairs[i].0@,
{
    lemma_models_of(pairs.map_values(|p: (Range<T>, V)| p.0));
}

/// A range that is, or holds, a fallback.
pub open spec fn is_or_holds_fallback(m: RangeModel) -> bool {
    match m {
        RangeModel::Fallback => true,
        RangeModel::Multiple(rs) => has_fallback(rs),
        _ => false,
    }
}

/// Whether a range other than the last is, or holds, a fallback: such a
/// range shadows those after it.
pub open spec fn misplaced_fallback(ms: Seq<RangeModel>) -> bool {
    exists|i: int| 0 <= i < ms.len() - 1 && is_or_holds_fallback(#[trigger] ms[i])
}

/// How many of the ranges `ms` are a fallback.
pub open spec fn fallback_count(ms: Seq<RangeModel>) -> nat
    decreases ms.len(),
{
    if ms.len() == 0 {
        0
    } else {
        fallback_count(ms.drop_last()) + if ms.last() is Fallback {
            1nat
        } else {
            0nat
        }
    }
}

/// What the check of a plural reports for ranges `ms` of type `t`: whether
/// a fallback is misplaced, how many fallbacks there are, and whether the
/// type needs one.
pub open spec fn spec_check(ms: Seq<RangeModel>, t: RangeType) -> (bool, nat, bool) {
    (misplaced_fallback(ms), fallback_count(ms), t.spec_should_have_fallback())
}

/// Whether the range `r`, of any number type, is a fallback or holds one
/// among its alternatives.
pub open spec fn range_is_or_holds_fallback<T>(r: Range<T>) -> bool {
    match r {
        Range::Fallback => true,
        Range::Multiple(v) => exists|i: int| 0 <= i < v@.len() && (#[trigger] v@[i]) is Fallback,
        _ => false,
    }
}

/// How many of the ranges of `pairs`, of any number type, are a fallback.
pub open spec fn range_fallback_count<T, V>(pairs: Seq<(Range<T>, V)>) -> nat
    decreases pairs.len(),
{
    if pairs.len() == 0 {
        0
    } else {
        range_fallback_count(pairs.drop_last()) + if pairs.last().0 is Fallback {
            1nat
        } else {
            0nat
        }
    }
}

/// What the check of a plural reports for the pairs `pairs` of the type
/// `t`, the ranges being of any number type.
pub open spec fn spec_check_ranges<T, V>(pairs: Seq<(Range<T>, V)>, t: RangeType) -> (
    bool,
    nat,
    bool,
) {
    (
        exists|i: int| 0 <= i < pairs.len() - 1 && range_is_or_holds_fallback(#[trigger] pairs[i].0),
        range_fallback_count(pairs),
        t.spec_should_have_fallback(),
    )
}

/// Law: the check reports a misplaced fallback exactly when some range
/// other than the last, at any position, is a fallback or holds one among
/// its alternatives; a fallback in the last range alone is in its place.
pub proof fn law_check_reports_misplaced_fallback(ms: Seq<RangeModel>, t: RangeType)
    ensures
        spec_check(ms, t).0 <==> exists|i: int|
            0 <= i < ms.len() - 1 && {
                ||| (#[trigger] ms[i]) is Fallback
                ||| ms[i] matches RangeModel::Multiple(rs) && exists|j: int|
                    0 <= j < rs.len() && (#[trigger] rs[j]) is Fallback
            },
{
}

/// Law: the check of pairs over any number type reports a misplaced
/// fallback exactly when the range of some pair other than the last, at any
/// position, is a fallback or holds one among its alternatives.
pub proof fn law_check_ranges_reports_misplaced_fallback<T, V>(
    pairs: Seq<(Range<T>, V)>,
    t: RangeType,
)
    ensures
        spec_check_ranges(pairs, t).0 <==> exists|i: int|
            0 <= i < pairs.len() - 1 && {
                ||| (#[trigger] pairs[i]).0 is Fallback
                ||| pairs[i].0 matches Range::Multiple(v) && exists|j: int|
                    0 <= j < v@.len() && (#[trigger] v@[j]) is Fallback
            },
{
}

/// Law: the check counts the ranges that are a fallback, wherever they
/// stand, and says that a fallback is needed exactly for the
/// floating-point count types.
pub proof fn law_check_counts_fallbacks(ms: Seq<RangeModel>, t: RangeType)
    ensures
        spec_check(ms, t).1 == ms.filter(|m: RangeModel| m is Fallback).len(),
        spec_check(ms, t).2 <==> (t == RangeType::F32 || t == RangeType::F64),
    decreases ms.len(),
{
    reveal_with_fuel(Seq::filter, 1);
    if ms.len() > 0 {
        law_check_counts_fallbacks(ms.drop_last(), t);
    }
}

/// Law: the check of pairs over any number type counts the pairs whose
/// range is a fallback, wherever they stand, and says that a fallback is
/// needed exactly for the floating-point count types.
pub proof fn law_check_ranges_counts_fallbacks<T, V>(pairs: Seq<(Range<T>, V)>, t: RangeType)
    ensures
        spec_check_ranges(pairs, t).1 == pairs.filter(|p: (Range<T>, V)| p.0 is Fallback).len(),
        spec_check_ranges(pairs, t).2 <==> (t == RangeType::F32 || t == RangeType::F64),
    decreases pairs.len(),
{
    reveal_with_fuel(Seq::filter, 1);
    if pairs.len() > 0 {
        law_check_ranges_counts_fallbacks(pairs.drop_last(), t);
    }
}

/// Whether the range `r` is a fallback or holds one among its alternatives.
#[verifier::loop_isolation(false)]
pub fn holds_fallback<T>(r: &Range<T>) -> (b: bool)
    ensures
        b == range_is_or_holds_fallback(*r),
{
    match r {
        Range::Fallback => true,
        Range::Multiple(rs) => {
            let mut i: usize = 0;
            while i < rs.len()
                invariant
                    i <= rs@.len(),
                    forall|j: int| 0 <= j < i ==> !((#[trigger] rs@[j]) is Fallback),
                decreases rs@.len() - i,
            {
                if matches!(rs[i], Range::Fallback) {
                    assert(rs@[i as int] is Fallback);
                    return true;
                }
                i = i + 1;
            }
            false
        },
        _ => false,
    }
}

/// The check of the pairs `ranges` of one plural whose counts have the type
/// `range_type`: whether a range other than the last is or holds a
/// fallback, how many ranges are a fallback, and whether the type needs
/// one. It looks at the shape of the ranges only, so it serves plurals over
/// any number type.
pub fn check_ranges<T, V>(ranges: &[(Range<T>, V)], range_type: RangeType) -> (r: (
    bool,
    usize,
    bool,
))
    ensures
        (r.0, r.1 as nat, r.2) == spec_check_ranges(ranges@, range_type),
{
    let n = ranges.len();
    let mut invalid = false;
    let mut count: usize = 0;
    let mut i: usize = 0;
    while i < n
        invariant
            i <= n == ranges@.len(),
            invalid == exists|j: int| 0 <= j < i && j < n - 1 && range_is_or_holds_fallback(
                #[trigger] ranges@[j].0,
            ),
            count == range_fallback_count(ranges@.take(i as int)),
            count <= i,
        decreases n - i,
    {
        let r = &ranges[i].0;
        let h = holds_fallback(r);
        if h && i + 1 < n {
            invalid = true;
        }
        assert(ranges@.take(i + 1).drop_last() =~= ranges@.take(i as int));
        if matches!(r, Range::Fallback) {
            count = count + 1;
        }
        i = i + 1;
        assert(invalid == exists|j: int| 0 <= j < i && j < n - 1 && range_is_or_holds_fallback(
            #[trigger] ranges@[j].0,
        )) by {
            if h && i < n {
                assert(range_is_or_holds_fallback(ranges@[i - 1].0));
            }
        }
    }
    assert(ranges@.take(n as int) =~= ranges@);
    (invalid, count, range_type.should_have_fallback())
}

proof fn lemma_fallback_shape<T: RangeNumber>(r: Range<T>)
    ensures
        range_is_or_holds_fallback(r) == is_or_holds_fallback(r@),
{
    if let Range::Multiple(v) = r {
        lemma_models_of(v@);
        if range_is_or_holds_fallback(r) {
            let i = choose|i: int| 0 <= i < v@.len() && (#[trigger] v@[i]) is Fallback;
            assert(models_of(v@)[i] is Fallback);
        }
        if is_or_holds_fallback(r@) {
            let i = choose|i: int| 0 <= i < models_of(v@).len() && models_of(v@)[i] is Fallback;
            assert(v@[i] is Fallback);
        }
    }
}

proof fn lemma_fallback_count_shape<T: RangeNumber, V>(pairs: Seq<(Range<T>, V)>)
    ensures
        range_fallback_count(pairs) == fallback_count(pair_models(pairs)),
    decreases pairs.len(),
{
    if pairs.len() > 0 {
        let p = pairs.drop_last();
        lemma_fallback_count_shape(p);
        lemma_pair_models(pairs);
        lemma_pair_models(p);
        assert(pair_models(pairs).drop_last() =~= pair_models(p));
    }
}

/// The check of the ranges `ranges` of one plural.
pub fn check_de_inner<T: RangeNumber, V>(ranges: &[(Range<T>, V)]) -> (r: (bool, usize, bool))
    ensures
        (r.0, r.1 as nat, r.2) == spec_check(pair_models(ranges@), T::spec_type()),
{
    let r = check_ranges(ranges, T::range_type());
    proof {
        let ms = pair_models(ranges@);
        lemma_pair_models(ranges@);
        lemma_fallback_count_shape(ranges@);
        assert forall|i: int| 0 <= i < ranges@.len() implies range_is_or_holds_fallback(
            #[trigger] ranges@[i].0,
        ) == is_or_holds_fallback(ms[i]) by {
            lemma_fallback_shape(ranges@[i].0);
        }
        if r.0 {
            let i = choose|i: int| 0 <= i < ranges@.len() - 1 && range_is_or_holds_fallback(
                #[trigger] ranges@[i].0,
            );
            assert(is_or_holds_fallback(ms[i]));
        }
        if misplaced_fallback(ms) {
            let i = choose|i: int| 0 <= i < ms.len() - 1 && is_or_holds_fallback(#[trigger] ms[i]);
            assert(range_is_or_holds_fallback(ranges@[i].0));
        }
    }
    r
}

/// Calls `f` on the values of `pairs` in order, stopping at the first error.
pub fn try_for_each_pair_value<T, V, F, E>(pairs: &[(Range<T>, V)], f: F) -> (r: Result<(), E>) where
    F: Fn(&V) -> Result<(), E>,

    requires
        forall|i: int|
            0 <= i < pair_values(pairs@).len() ==> f.requires((&pair_values(pairs@)[i],)),
    ensures
        match r {
            Ok(()) => forall|i: int|
                0 <= i < pair_values(pairs@).len() ==> f.ensures(
                    (&pair_values(pairs@)[i],),
                    Ok(()),
                ),
            Err(e) => exists|k: int|
                0 <= k < pair_values(pairs@).len() && f.ensures(
                    (&pair_values(pairs@)[k],),
                    Err(e),
                ) && forall|i: int|
                    0 <= i < k ==> f.ensures((&pair_values(pairs@)[i],), Ok(())),
        },
{
    let ghost vals = pair_values(pairs@);
    assert(vals.len() == pairs@.len());
    assert(forall|j: int| 0 <= j < pairs@.len() ==> vals[j] == (#[trigger] pairs@[j]).1);
    let mut i: usize = 0;
    while i < pairs.len()
        invariant
            i <= pairs@.len() == vals.len(),
            vals == pair_values(pairs@),
            forall|j: int| 0 <= j < pairs@.len() ==> vals[j] == (#[trigger] pairs@[j]).1,
            forall|j: int| 0 <= j < vals.len() ==> f.requires((&vals[j],)),
            forall|j: int| 0 <= j < i ==> f.ensures((&vals[j],), Ok(())),
        decreases pairs@.len() - i,
    {
        let x: &V = &pairs[i].1;
        assert(*x == vals[i as int]);
        let res = f(x);
        assert(f.ensures((x,), res));
        match res {
            Ok(u) => {
                assert(u == ());
                assert(res == Ok::<(), E>(()));
                assert(f.ensures((x,), Ok(())));
                assert(f.ensures((&vals[i as int],), Ok(())));
            },
            Err(e) => {
                assert(0 <= i < vals.len() && f.ensures((&vals[i as int],), Err(e)) && forall|j: int|
                    0 <= j < i ==> f.ensures((&vals[j],), Ok(())));
                return Err(e);
            },
        }
        i = i + 1;
    }
    Ok(())
}

impl<V> Ranges<V> {
    /// The integer type of the counts.
    pub open spec fn spec_type(&self) -> RangeType {
        match self {
            Ranges::I8(_) => RangeType::I8,
            Ranges::I16(_) => RangeType::I16,
            Ranges::I32(_) => RangeType::I32,
            Ranges::I64(_) => RangeType::I64,
            Ranges::U8(_) => RangeType::U8,
            Ranges::U16(_) => RangeType::U16,
            Ranges::U32(_) => RangeType::U32,
            Ranges::U64(_) => RangeType::U64,
        }
    }

    /// How many pairs of a range and a value there are.
    pub open spec fn len(&self) -> nat {
        match self {
            Ranges::I8(v) => v@.len(),
            Ranges::I16(v) => v@.len(),
            Ranges::I32(v) => v@.len(),
            Ranges::I64(v) => v@.len(),
            Ranges::U8(v) => v@.len(),
            Ranges::U16(v) => v@.len(),
            Ranges::U32(v) => v@.len(),
            Ranges::U64(v) => v@.len(),
        }
    }

    /// The models of the ranges, in order.
    pub open spec fn range_models(&self) -> Seq<RangeModel> {
        match self {
            Ranges::I8(v) => pair_models(v@),
            Ranges::I16(v) => pair_models(v@),
            Ranges::I32(v) => pair_models(v@),
            Ranges::I64(v) => pair_models(v@),
            Ranges::U8(v) => pair_models(v@),
            Ranges::U16(v) => pair_models(v@),
            Ranges::U32(v) => pair_models(v@),
            Ranges::U64(v) => pair_models(v@),
        }
    }

    /// The values, in the order of their ranges.
    pub open spec fn values(&self) -> Seq<V> {
        match self {
            Ranges::I8(v) => pair_values(v@),
            Ranges::I16(v) => pair_values(v@),
            Ranges::I32(v) => pair_values(v@),
            Ranges::I64(v) => pair_values(v@),
            Ranges::U8(v) => pair_values(v@),
            Ranges::U16(v) => pair_values(v@),
            Ranges::U32(v) => pair_values(v@),
            Ranges::U64(v) => pair_values(v@),
        }
    }

    /// Law: the type that the ranges report is the type of their counts:
    /// each kind of ranges holds numbers of the type it names, with that
    /// type's least and greatest values.
    pub proof fn law_type_is_count_type(self)
        ensures
            match self {
                Ranges::I8(_) => {
                    &&& self.spec_type() == <i8 as RangeNumber>::spec_type()
                    &&& <i8 as RangeNumber>::spec_min() == -0x80
                    &&& <i8 as RangeNumber>::spec_max() == 0x7f
                },
                Ranges::I16(_) => {
                    &&& self.spec_type() == <i16 as RangeNumber>::spec_type()
                    &&& <i16 as RangeNumber>::spec_min() == -0x8000
                    &&& <i16 as RangeNumber>::spec_max() == 0x7fff
                },
                Ranges::I32(_) => {
                    &&& self.spec_type() == <i32 as RangeNumber>::spec_type()
                    &&& <i32 as RangeNumber>::spec_min() == -0x8000_0000
                    &&& <i32 as RangeNumber>::spec_max() == 0x7fff_ffff
                },
                Ranges::I64(_) => {
                    &&& self.spec_type() == <i64 as RangeNumber>::spec_type()
                    &&& <i64 as RangeNumber>::spec_min() == -0x8000_0000_0000_0000
                    &&& <i64 as RangeNumber>::spec_max() == 0x7fff_ffff_ffff_ffff
                },
                Ranges::U8(_) => {
                    &&& self.spec_type() == <u8 as RangeNumber>::spec_type()
                    &&& <u8 as RangeNumber>::spec_min() == 0
                    &&& <u8 as RangeNumber>::spec_max() == 0xff
                },
                Ranges::U16(_) => {
                    &&& self.spec_type() == <u16 as RangeNumber>::spec_type()
                    &&& <u16 as RangeNumber>::spec_min() == 0
                    &&& <u16 as RangeNumber>::spec_max() == 0xffff
                },
                Ranges::U32(_) => {
                    &&& self.spec_type() == <u32 as RangeNumber>::spec_type()
                    &&& <u32 as RangeNumber>::spec_min() == 0
                    &&& <u32 as RangeNumber>::spec_max() == 0xffff_ffff
                },
                Ranges::U64(_) => {
                    &&& self.spec_type() == <u64 as RangeNumber>::spec_type()
                    &&& <u64 as RangeNumber>::spec_min() == 0
                    &&& <u64 as RangeNumber>::spec_max() == 0xffff_ffff_ffff_ffff
                },
            },
    {
    }

    /// The integer type of the counts.
    pub fn get_type(&self) -> (t: RangeType)
        ensures
            t == self.spec_type(),
    {
        match self {
            Ranges::I8(_) => RangeType::I8,
            Ranges::I16(_) => RangeType::I16,
            Ranges::I32(_) => RangeType::I32,
            Ranges::I64(_) => RangeType::I64,
            Ranges::U8(_) => RangeType::U8,
            Ranges::U16(_) => RangeType::U16,
            Ranges::U32(_) => RangeType::U32,
            Ranges::U64(_) => RangeType::U64,
        }
    }

    /// No ranges yet, of the type `range_type`; `None` for the
    /// floating-point types, which these ranges do not hold.
    pub fn from_type(range_type: RangeType) -> (r: Option<Self>)
        ensures
            match r {
                Some(x) => x.spec_type() == range_type && x.len() == 0 && x.values().len() == 0
                    && x.range_models().len() == 0,
                None => range_type.spec_should_have_fallback(),
            },
    {
        match range_type {
            RangeType::I8 => Some(Ranges::I8(Vec::new())),
            RangeType::I16 => Some(Ranges::I16(Vec::new())),
            RangeType::I32 => Some(Ranges::I32(Vec::new())),
            RangeType::I64 => Some(Ranges::I64(Vec::new())),
            RangeType::U8 => Some(Ranges::U8(Vec::new())),
            RangeType::U16 => Some(Ranges::U16(Vec::new())),
            RangeType::U32 => Some(Ranges::U32(Vec::new())),
            RangeType::U64 => Some(Ranges::U64(Vec::new())),
            RangeType::F32 | RangeType::F64 => None,
        }
    }

    /// Calls `f` on the values in order, stopping at the first error, which
    /// it returns.
    pub fn try_for_each_value<F, E>(&self, f: F) -> (r: Result<(), E>) where
        F: Fn(&V) -> Result<(), E>,

        requires
            forall|i: int| 0 <= i < self.values().len() ==> f.requires((&self.values()[i],)),
        ensures
            match r {
                Ok(()) => forall|i: int|
                    0 <= i < self.values().len() ==> f.ensures((&self.values()[i],), Ok(())),
                Err(e) => exists|k: int|
                    0 <= k < self.values().len() && f.ensures((&self.values()[k],), Err(e))
                        && forall|i: int|
                        0 <= i < k ==> f.ensures((&self.values()[i],), Ok(())),
            },
    {
        match self {
            Ranges::I8(v) => {
                assert(self.values() == pair_values(v@));
                try_for_each_pair_value(v.as_slice(), f)
            },
            Ranges::I16(v) => {
                assert(self.values() == pair_values(v@));
                try_for_each_pair_value(v.as_slice(), f)
            },
            Ranges::I32(v) => {
                assert(self.values() == pair_values(v@));
                try_for_each_pair_value(v.as_slice(), f)
            },
            Ranges::I64(v) => {
                assert(self.values() == pair_values(v@));
                try_for_each_pair_value(v.as_slice(), f)
            },
            Ranges::U8(v) => {
                assert(self.values() == pair_values(v@));
                try_for_each_pair_value(v.as_slice(), f)
            },
            Ranges::U16(v) => {
                assert(self.values() == pair_values(v@));
                try_for_each_pair_value(v.as_slice(), f)
            },
            Ranges::U32(v) => {
                assert(self.values() == pair_values(v@));
                try_for_each_pair_value(v.as_slice(), f)
            },
            Ranges::U64(v) => {
                assert(self.values() == pair_values(v@));
                try_for_each_pair_value(v.as_slice(), f)
            },
        }
    }

    /// Walks the values in order with the state `init`, each step giving `f`
    /// the state and the value and taking the state it returns; stops at
    /// the first error, which it returns.
    pub fn try_fold_values<S, F, E>(&self, init: S, f: F) -> (r: Result<S, E>) where
        F: Fn(S, &V) -> Result<S, E>,

        requires
            forall|s: S, i: int|
                0 <= i < self.values().len() ==> f.requires((s, &self.values()[i])),
        ensures
            match r {
                Ok(s) => exists|states: Seq<S>|
                    {
                        &&& fold_steps(f, self.values(), states)
                        &&& states.len() == self.values().len() + 1
                        &&& states[0] == init
                        &&& #[trigger] states[states.len() - 1] == s
                    },
                Err(e) => exists|states: Seq<S>|
                    {
                        &&& fold_steps(f, self.values(), states)
                        &&& states.len() <= self.values().len()
                        &&& states[0] == init
                        &&& f.ensures(
                            (
                                #[trigger] states[states.len() - 1],
                                &self.values()[states.len() - 1],
                            ),
                            Err(e),
                        )
                    },
            },
    {
        match self {
            Ranges::I8(v) => {
                assert(self.values() == pair_values(v@));
                try_fold_pair_values(v.as_slice(), init, f)
            },
            Ranges::I16(v) => {
                assert(self.values() == pair_values(v@));
                try_fold_pair_values(v.as_slice(), init, f)
            },
            Ranges::I32(v) => {
                assert(self.values() == pair_values(v@));
                try_fold_pair_values(v.as_slice(), init, f)
            },
            Ranges::I64(v) => {
                assert(self.values() == pair_values(v@));
                try_fold_pair_values(v.as_slice(), init, f)
            },
            Ranges::U8(v) => {
                assert(self.values() == pair_values(v@));
                try_fold_pair_values(v.as_slice(), init, f)
            },
            Ranges::U16(v) => {
                assert(self.values() == pair_values(v@));
                try_fold_pair_values(v.as_slice(), init, f)
            },
            Ranges::U32(v) => {
                assert(self.values() == pair_values(v@));
                try_fold_pair_values(v.as_slice(), init, f)
            },
            Ranges::U64(v) => {
                assert(self.values() == pair_values(v@));
                try_fold_pair_values(v.as_slice(), init, f)
            },
        }
    }

    /// Calls `f` on each value in order, letting it change the value, and
    /// stops at the first error, which it returns; the type and the ranges
    /// stay as they are; on `Ok` the first value is what `f` made of the old
    /// one, and an error is one that `f` returned. What `f` made of every
    /// value, on `Ok` and on an error, is stated for the pairs of each type
    /// by `try_for_each_pair_value_mut`, which this calls on the pairs.
    pub fn try_for_each_value_mut<F, E>(&mut self, f: F) -> (r: Result<(), E>) where
        F: Fn(&mut V) -> Result<(), E>,

        requires
            forall|x: &mut V| f.requires((x,)),
        ensures
            final(self).spec_type() == old(self).spec_type(),
            final(self).range_models() == old(self).range_models(),
            final(self).values().len() == old(self).values().len(),
            r is Ok && old(self).values().len() > 0 ==> exists|x: &mut V|
                *x == old(self).values()[0] && *final(x) == final(self).values()[0]
                    && f.ensures((x,), Ok(())),
            r matches Err(e) ==> exists|x: &mut V| #[trigger] f.ensures((x,), Err(e)),
    {
        match self {
            Ranges::I8(v) => {
                let ghost before = v@;
                let r = try_for_each_pair_value_mut(v, f);
                proof {
                    lemma_pair_models_same_ranges(before, v@);
                    if r is Ok && before.len() > 0 {
                        assert(pair_models(v@)[0] == pair_models(before)[0]);
                    }
                }
                r
            },
            Ranges::I16(v) => {
                let ghost before = v@;
                let r = try_for_each_pair_value_mut(v, f);
                proof {
                    lemma_pair_models_same_ranges(before, v@);
                    if r is Ok && before.len() > 0 {
                        assert(pair_models(v@)[0] == pair_models(before)[0]);
                    }
                }
                r
            },
            Ranges::I32(v) => {
                let ghost before = v@;
                let r = try_for_each_pair_value_mut(v, f);
                proof {
                    lemma_pair_models_same_ranges(before, v@);
                    if r is Ok && before.len() > 0 {
                        assert(pair_models(v@)[0] == pair_models(before)[0]);
                    }
                }
                r
            },
            Ranges::I64(v) => {
                let ghost before = v@;
                let r = try_for_each_pair_value_mut(v, f);
                proof {
                    lemma_pair_models_same_ranges(before, v@);
                    if r is Ok && before.len() > 0 {
                        assert(pair_models(v@)[0] == pair_models(before)[0]);
                    }
                }
                r
            },
            Ranges::U8(v) => {
                let ghost before = v@;
                let r = try_for_each_pair_value_mut(v, f);
                proof {
                    lemma_pair_models_same_ranges(before, v@);
                    if r is Ok && before.len() > 0 {
                        assert(pair_models(v@)[0] == pair_models(before)[0]);
                    }
                }
                r
            },
            Ranges::U16(v) => {
                let ghost before = v@;
                let r = try_for_each_pair_value_mut(v, f);
                proof {
                    lemma_pair_models_same_ranges(before, v@);
                    if r is Ok && before.len() > 0 {
                        assert(pair_models(v@)[0] == pair_models(before)[0]);
                    }
                }
                r
            },
            Ranges::U32(v) => {
                let ghost before = v@;
                let r = try_for_each_pair_value_mut(v, f);
                proof {
                    lemma_pair_models_same_ranges(before, v@);
                    if r is Ok && before.len() > 0 {
                        assert(pair_models(v@)[0] == pair_models(before)[0]);
                    }
                }
                r
            },
            Ranges::U64(v) => {
                let ghost before = v@;
                let r = try_for_each_pair_value_mut(v, f);
                proof {
                    lemma_pair_models_same_ranges(before, v@);
                    if r is Ok && before.len() > 0 {
                        assert(pair_models(v@)[0] == pair_models(before)[0]);
                    }
                }
                r
            },
        }
    }

    /// Whether a range other than the last is or holds a fallback, how many
    /// ranges are a fallback, and whether the type of the counts needs one.
    pub fn check_deserialization(&self) -> (r: (bool, usize, bool))
        ensures
            (r.0, r.1 as nat, r.2) == spec_check(self.range_models(), self.spec_type()),
    {
        match self {
            Ranges::I8(ranges) => check_de_inner(ranges.as_slice()),
            Ranges::I16(ranges) => check_de_inner(ranges.as_slice()),
            Ranges::I32(ranges) => check_de_inner(ranges.as_slice()),
            Ranges::I64(ranges) => check_de_inner(ranges.as_slice()),
            Ranges::U8(ranges) => check_de_inner(ranges.as_slice()),
            Ranges::U16(ranges) => check_de_inner(ranges.as_slice()),
            Ranges::U32(ranges) => check_de_inner(ranges.as_slice()),
            Ranges::U64(ranges) => check_de_inner(ranges.as_slice()),
        }
    }
}

/// The first element of a plural: the type of its counts, or already its
/// first range (of the default type `i32`) with its value.
pub enum TypeOrRange<V> {
    Type(RangeType),
    Range((Range<i32>, V)),
}

impl<V> TypeOrRange<V> {
    /// The type that `s` names, surrounding whitespace ignored.
    pub fn from_str(s: &str) -> (r: Option<Self>)
        ensures
            match r {
                Some(TypeOrRange::Type(t)) => spec_type_from_name(trim(s@)) == Some(t),
                Some(TypeOrRange::Range(_)) => false,
                None => spec_type_from_name(trim(s@)) is None,
            },
    {
        let chars = to_chars(s);
        let t = trim_chars(chars.as_slice());
        match type_from_name(t.as_slice()) {
            Some(ty) => Some(TypeOrRange::Type(ty)),
            None => None,
        }
    }
}

/// Calls `f` on each value of `pairs`, in order, letting it change the
/// value, and stops at the first error, which it returns; the ranges stay
/// as they are.
///
/// On `Ok`, each value is what `f` made of the old one, returning `Ok`. On
/// `Err(e)`, there is a `k` such that the values before `k` are what `f`
/// made of the old ones returning `Ok`, the value at `k` is what `f` left
/// when it returned `Err(e)`, and those after `k` are unchanged.
pub fn try_for_each_pair_value_mut<T: RangeNumber, V, F, E>(
    pairs: &mut Vec<(Range<T>, V)>,
    f: F,
) -> (r: Result<(), E>) where F: Fn(&mut V) -> Result<(), E>,

    requires
        forall|x: &mut V| f.requires((x,)),
    ensures
        final(pairs)@.len() == old(pairs)@.len(),
        forall|i: int|
            0 <= i < old(pairs)@.len() ==> (#[trigger] final(pairs)@[i]).0 == old(pairs)@[i].0,
        r is Ok ==> forall|i: int|
            0 <= i < old(pairs)@.len() ==> {
                &&& #[trigger] pair_models(final(pairs)@)[i] == pair_models(old(pairs)@)[i]
                &&& exists|x: &mut V|
                    *x == pair_values(old(pairs)@)[i] && *final(x) == pair_values(final(pairs)@)[i]
                        && f.ensures((x,), Ok(()))
            },
        r matches Err(e) ==> exists|k: int|
            #![trigger pair_values(final(pairs)@)[k]]
            {
                &&& 0 <= k < old(pairs)@.len()
                &&& exists|x: &mut V|
                    *x == pair_values(old(pairs)@)[k] && *final(x) == pair_values(final(pairs)@)[k]
                        && f.ensures((x,), Err(e))
                &&& forall|i: int|
                    0 <= i < k ==> {
                        &&& #[trigger] pair_models(final(pairs)@)[i] == pair_models(
                            old(pairs)@,
                        )[i]
                        &&& exists|x: &mut V|
                            *x == pair_values(old(pairs)@)[i] && *final(x) == pair_values(
                                final(pairs)@,
                            )[i] && f.ensures((x,), Ok(()))
                    }
                &&& forall|i: int|
                    k < i < old(pairs)@.len() ==> #[trigger] pair_values(final(pairs)@)[i]
                        == pair_values(old(pairs)@)[i]
            },
{
    let ghost start = pairs@;
    let mut i: usize = 0;
    while i < pairs.len()
        invariant
            start == old(pairs)@,
            pairs@.len() == start.len(),
            i <= start.len(),
            forall|x: &mut V| f.requires((x,)),
            forall|j: int| 0 <= j < start.len() ==> (#[trigger] pairs@[j]).0 == start[j].0,
            forall|j: int| i <= j < start.len() ==> #[trigger] pairs@[j] == start[j],
            forall|j: int|
                0 <= j < i ==> {
                    &&& (#[trigger] pairs@[j]).0 == start[j].0
                    &&& exists|x: &mut V|
                        *x == start[j].1 && *final(x) == pairs@[j].1 && f.ensures((x,), Ok(()))
                },
        decreases start.len() - i,
    {
        let ghost before = pairs@;
        let res = f(&mut pairs[i].1);
        proof {
            assert(exists|y: &mut V|
                *y == before[i as int].1 && *final(y) == pairs@[i as int].1 && #[trigger] f.ensures(
                    (y,),
                    res,
                ));
            assert(forall|j: int| 0 <= j < pairs@.len() && j != i ==> pairs@[j] == before[j]);
        }
        match res {
            Ok(u) => {
                assert(u == ());
            },
            Err(e) => {
                proof {
                    let k = i as int;
                    lemma_pair_models(start);
                    lemma_pair_models(pairs@);
                    assert forall|j: int| 0 <= j < k implies {
                        &&& #[trigger] pair_models(pairs@)[j] == pair_models(start)[j]
                        &&& exists|x: &mut V|
                            *x == pair_values(start)[j] && *final(x) == pair_values(pairs@)[j]
                                && f.ensures((x,), Ok(()))
                    } by {
                        assert(before[j].0 == start[j].0);
                        assert(pairs@[j] == before[j]);
                        assert(pair_values(pairs@)[j] == pairs@[j].1);
                        assert(pair_values(start)[j] == start[j].1);
                    }
                    assert forall|j: int| k < j < start.len() implies #[trigger] pair_values(
                        pairs@,
                    )[j] == pair_values(start)[j] by {
                        assert(pairs@[j] == before[j]);
                        assert(before[j] == start[j]);
                    }
                    assert(pair_values(pairs@)[k] == pairs@[k].1);
                    assert(pair_values(start)[k] == start[k].1);
                }
                return Err(e);
            },
        }
        let ghost prev = i as int;
        i = i + 1;
        proof {
            assert forall|j: int| 0 <= j < i implies {
                &&& (#[trigger] pairs@[j]).0 == start[j].0
                &&& exists|x: &mut V|
                    *x == start[j].1 && *final(x) == pairs@[j].1 && f.ensures((x,), Ok(()))
            } by {
                if j != prev {
                    assert(before[j].0 == start[j].0);
                    assert(pairs@[j] == before[j]);
                }
            }
        }
    }
    proof {
        lemma_pair_models(start);
        lemma_pair_models(pairs@);
        assert forall|j: int| 0 <= j < start.len() implies {
            &&& #[trigger] pair_models(pairs@)[j] == pair_models(start)[j]
            &&& exists|x: &mut V|
                *x == pair_values(start)[j] && *final(x) == pair_values(pairs@)[j] && f.ensures(
                    (x,),
                    Ok(()),
                )
        } by {
            assert(pairs@[j].0 == start[j].0);
            assert(pair_values(pairs@)[j] == pairs@[j].1);
            assert(pair_values(start)[j] == start[j].1);
        }
    }
    Ok(())
}

proof fn lemma_pair_models_same_ranges<T: RangeNumber, V>(a: Seq<(Range<T>, V)>, b: Seq<(Range<T>, V)>)
    requires
        a.len() == b.len(),
        forall|j: int| 0 <= j < a.len() ==> (#[trigger] b[j]).0 == a[j].0,
    ensures
        pair_models(a) == pair_models(b),
{
    lemma_pair_models(a);
    lemma_pair_models(b);
    assert(pair_models(a) =~= pair_models(b));
}

/// Whether `states` are the states a walk with `f` over `vals` goes
/// through: each next state is what `f` gave, with `Ok`, on the state
/// before and the value at that step.
pub open spec fn fold_steps<S, V, F: Fn(S, &V) -> Result<S, E>, E>(
    f: F,
    vals: Seq<V>,
    states: Seq<S>,
) -> bool {
    &&& 1 <= states.len() <= vals.len() + 1
    &&& forall|i: int|
        0 <= i < states.len() - 1 ==> f.ensures((states[i], &vals[i]), Ok(#[trigger] states[i + 1]))
}

/// Walks the values of `pairs` in order with the state `init`, each step
/// giving `f` the state and the value; stops at the first error.
pub fn try_fold_pair_values<T, V, S, F, E>(pairs: &[(Range<T>, V)], init: S, f: F) -> (r: Result<
    S,
    E,
>) where F: Fn(S, &V) -> Result<S, E>,

    requires
        forall|s: S, i: int|
            0 <= i < pair_values(pairs@).len() ==> f.requires((s, &pair_values(pairs@)[i])),
    ensures
        match r {
            Ok(s) => exists|states: Seq<S>|
                {
                    &&& fold_steps(f, pair_values(pairs@), states)
                    &&& states.len() == pairs@.len() + 1
                    &&& states[0] == init
                    &&& #[trigger] states[states.len() - 1] == s
                },
            Err(e) => exists|states: Seq<S>|
                {
                    &&& fold_steps(f, pair_values(pairs@), states)
                    &&& states.len() <= pairs@.len()
                    &&& states[0] == init
                    &&& f.ensures(
                        (#[trigger] states[states.len() - 1], &pair_values(pairs@)[states.len() - 1]),
                        Err(e),
                    )
                },
        },
{
    let ghost vals = pair_values(pairs@);
    let ghost mut states: Seq<S> = seq![init];
    let mut acc = init;
    let mut i: usize = 0;
    while i < pairs.len()
        invariant
            i <= pairs@.len() == vals.len(),
            vals == pair_values(pairs@),
            forall|j: int| 0 <= j < pairs@.len() ==> vals[j] == (#[trigger] pairs@[j]).1,
            forall|s: S, j: int| 0 <= j < vals.len() ==> f.requires((s, &vals[j])),
            fold_steps(f, vals, states),
            states.len() == i + 1,
            states[0] == init,
            states[states.len() - 1] == acc,
        decreases pairs@.len() - i,
    {
        let x: &V = &pairs[i].1;
        assert(*x == vals[i as int]);
        let ghost before = acc;
        match f(acc, x) {
            Ok(next) => {
                proof {
                    let old_states = states;
                    states = states.push(next);
                    assert forall|k: int| 0 <= k < states.len() - 1 implies f.ensures(
                        (states[k], &vals[k]),
                        Ok(#[trigger] states[k + 1]),
                    ) by {
                        if k < old_states.len() - 1 {
                            assert(states[k] == old_states[k]);
                            assert(states[k + 1] == old_states[k + 1]);
                        }
                    }
                }
                acc = next;
            },
            Err(e) => {
                assert(states[states.len() - 1] == before);
                return Err(e);
            },
        }
        i = i + 1;
    }
    Ok(acc)
}

} // verus!
