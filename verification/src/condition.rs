//! The test a range puts on a count, written as a condition rather than as
//! a pattern: what a plural over counts that a `match` cannot take apart
//! checks, one arm after the other.
use vstd::prelude::*;

use crate::number::RangeNumber;
use crate::range::{Bound, Range};

verus! {

/// The test that a range puts on a count.
#[derive(Debug, PartialEq)]
pub enum Condition<T> {
    /// The count equals this value.
    Equals(T),
    /// The count lies from the start (or from the least value) to the end.
    Within(Option<T>, Bound<T>),
    /// The count passes one of these tests.
    AnyOf(Vec<Condition<T>>),
}

/// A [`Condition`] with its list of tests taken as a sequence.
pub enum ConditionModel<T> {
    Equals(T),
    Within(Option<T>, Bound<T>),
    AnyOf(Seq<ConditionModel<T>>),
}

impl<T> Condition<T> {
    pub open spec fn model(self) -> ConditionModel<T>
        decreases self,
    {
        match self {
            Condition::Equals(x) => ConditionModel::Equals(x),
            Condition::Within(start, end) => ConditionModel::Within(start, end),
            Condition::AnyOf(v) => ConditionModel::AnyOf(condition_models(v@)),
        }
    }
}

/// The models of the tests `cs`, in order.
pub open spec fn condition_models<T>(cs: Seq<Condition<T>>) -> Seq<ConditionModel<T>>
    decreases cs,
{
    if cs.len() == 0 {
        Seq::empty()
    } else {
        condition_models(cs.subrange(0, cs.len() - 1)).push(cs[cs.len() - 1].model())
    }
}

/// The model of a test that may be absent.
pub open spec fn option_condition_model<T>(c: Option<Condition<T>>) -> Option<ConditionModel<T>> {
    match c {
        Some(c) => Some(c.model()),
        None => None,
    }
}

/// The test of the range `r`: none for a fallback, which every count
/// passes; for alternatives, any of the tests of those that have one.
pub open spec fn spec_condition<T>(r: Range<T>) -> Option<ConditionModel<T>>
    decreases r,
{
    match r {
        Range::Exact(x) => Some(ConditionModel::Equals(x)),
        Range::Bounds { start, end } => Some(ConditionModel::Within(start, end)),
        Range::Multiple(v) => Some(ConditionModel::AnyOf(conditions_of(v@))),
        Range::Fallback => None,
    }
}

/// The tests of those ranges of `rs` that have one, in order.
pub open spec fn conditions_of<T>(rs: Seq<Range<T>>) -> Seq<ConditionModel<T>>
    decreases rs,
{
    if rs.len() == 0 {
        Seq::empty()
    } else {
        let before = conditions_of(rs.subrange(0, rs.len() - 1));
        match spec_condition(rs[rs.len() - 1]) {
            Some(c) => before.push(c),
            None => before,
        }
    }
}

/// Whether the integer count `n` passes the test `c` over integer values.
pub open spec fn condition_passes<T: RangeNumber>(c: ConditionModel<T>, n: int) -> bool
    decreases c,
{
    match c {
        ConditionModel::Equals(x) => n == x.spec_value(),
        ConditionModel::Within(start, end) => {
            &&& start matches Some(a) ==> a.spec_value() <= n
            &&& match end {
                Bound::Included(e) => n <= e.spec_value(),
                Bound::Excluded(e) => n < e.spec_value(),
                Bound::Unbounded => true,
            }
        },
        ConditionModel::AnyOf(cs) => any_passes(cs, n),
    }
}

/// Whether the count `n` passes one of the tests `cs`.
pub open spec fn any_passes<T: RangeNumber>(cs: Seq<ConditionModel<T>>, n: int) -> bool
    decreases cs,
{
    if cs.len() == 0 {
        false
    } else {
        any_passes(cs.subrange(0, cs.len() - 1), n) || condition_passes(cs[cs.len() - 1], n)
    }
}

/// Whether the range `r` has a test and the count `n` passes it.
pub open spec fn has_passing_test<T: RangeNumber>(r: Range<T>, n: int) -> bool {
    match spec_condition(r) {
        Some(c) => condition_passes(c, n),
        None => false,
    }
}

/// Law: the test of an exact count or of bounds lets through exactly the
/// counts that the range accepts: the count itself, or the counts from the
/// range's own start (if it has one) that its end lets through. A fallback
/// has no test, since every count passes it.
pub proof fn law_condition_passes_accepted_counts<T: RangeNumber>(r: Range<T>, n: int)
    ensures
        r is Fallback <==> spec_condition(r) is None,
        r matches Range::Exact(x) ==> spec_condition(r) matches Some(c) && (condition_passes(c, n)
            <==> n == x.spec_value()),
        r matches Range::Bounds { start, end } ==> spec_condition(r) matches Some(c) && (
        condition_passes(c, n) <==> {
            &&& start matches Some(a) ==> a.spec_value() <= n
            &&& end matches Bound::Included(e) ==> n <= e.spec_value()
            &&& end matches Bound::Excluded(e) ==> n < e.spec_value()
        }),
{
}

/// The tests of the ranges `rs` let a count through exactly when one of
/// the ranges has a test that it passes.
proof fn lemma_any_passes_of<T: RangeNumber>(rs: Seq<Range<T>>, n: int)
    ensures
        any_passes(conditions_of(rs), n) <==> exists|i: int|
            0 <= i < rs.len() && has_passing_test(#[trigger] rs[i], n),
    decreases rs.len(),
{
    if rs.len() > 0 {
        let p = rs.subrange(0, rs.len() - 1);
        lemma_any_passes_of::<T>(p, n);
        let cp = conditions_of(p);
        let last = rs[rs.len() - 1];
        if let Some(c) = spec_condition(last) {
            assert(cp.push(c).subrange(0, cp.len() as int) =~= cp);
        }
        if exists|i: int| 0 <= i < p.len() && has_passing_test(#[trigger] p[i], n) {
            let j = choose|j: int| 0 <= j < p.len() && has_passing_test(#[trigger] p[j], n);
            assert(rs[j] == p[j]);
        }
        if exists|i: int| 0 <= i < rs.len() && has_passing_test(#[trigger] rs[i], n) {
            let i = choose|i: int| 0 <= i < rs.len() && has_passing_test(#[trigger] rs[i], n);
            if i < rs.len() - 1 {
                assert(p[i] == rs[i]);
            }
        }
    }
}

/// Law: a list of alternatives has a test, and a count passes it exactly
/// when it passes the test of one of the alternatives (a fallback among
/// them adds no test of its own).
pub proof fn law_condition_of_list<T: RangeNumber>(v: Vec<Range<T>>, n: int)
    ensures
        spec_condition(Range::Multiple(v)) is Some,
        has_passing_test(Range::Multiple(v), n) <==> exists|i: int|
            0 <= i < v@.len() && has_passing_test(#[trigger] v@[i], n),
{
    lemma_any_passes_of::<T>(v@, n);
}

/// The test of the range `r`; `None` for a fallback.
#[verifier::loop_isolation(false)]
pub fn condition<T: Copy>(r: &Range<T>) -> (c: Option<Condition<T>>)
    ensures
        option_condition_model(c) == spec_condition(*r),
    decreases r,
{
    match r {
        Range::Exact(x) => Some(Condition::Equals(*x)),
        Range::Bounds { start, end } => Some(Condition::Within(*start, *end)),
        Range::Multiple(v) => {
            let mut out: Vec<Condition<T>> = Vec::new();
            let mut i: usize = 0;
            while i < v.len()
                invariant
                    i <= v@.len(),
                    condition_models(out@) == conditions_of(v@.subrange(0, i as int)),
                decreases v@.len() - i,
            {
                proof {
                    assert(decreases_to!(*v => v[i as int]));
                    assert(decreases_to!(*r => *v));
                }
                let ghost before = out@;
                let ghost seen = v@.subrange(0, i + 1);
                proof {
                    assert(seen.subrange(0, i as int) =~= v@.subrange(0, i as int));
                    assert(seen[i as int] == v@[i as int]);
                }
                match condition(&v[i]) {
                    Some(c) => {
                        out.push(c);
                        proof {
                            assert(out@.subrange(0, out@.len() - 1) =~= before);
                        }
                    },
                    None => {},
                }
                i = i + 1;
            }
            assert(v@.subrange(0, v@.len() as int) =~= v@);
            Some(Condition::AnyOf(out))
        },
        Range::Fallback => None,
    }
}

/// The tests of the arms of a plural, in order: the test of each range,
/// `None` for a fallback, whose arm is taken without one.
pub fn arm_conditions<T: Copy, V>(ranges: &[(Range<T>, V)]) -> (r: Vec<Option<Condition<T>>>)
    ensures
        r@.len() == ranges@.len(),
        forall|i: int|
            0 <= i < ranges@.len() ==> option_condition_model(#[trigger] r@[i]) == spec_condition(
                ranges@[i].0,
            ),
{
    let mut out: Vec<Option<Condition<T>>> = Vec::new();
    let mut i: usize = 0;
    while i < ranges.len()
        invariant
            i <= ranges@.len(),
            out@.len() == i,
            forall|j: int|
                0 <= j < i ==> option_condition_model(#[trigger] out@[j]) == spec_condition(
                    ranges@[j].0,
                ),
        decreases ranges@.len() - i,
    {
        let c = condition(&ranges[i].0);
        out.push(c);
        i = i + 1;
    }
    out
}

} // verus!
