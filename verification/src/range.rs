//! A single range pattern: what it is, how it is read, and what it means.
use vstd::prelude::*;

use crate::error::{string_from_chars, Error, ErrorView};
use crate::number::RangeNumber;
use crate::text::{
    copy_range, dots_at, find_dots, find_dots_chars, lemma_split_on_pieces, lemma_trim_contains,
    lemma_trim_idempotent, parse_integer, split_chars, split_on, to_chars, trim, trim_chars,
    trim_start, trim_start_chars,
};

verus! {

/// The end of a range, as `std::ops::Bound` has it.
#[derive(Debug, Hash, PartialEq, Eq, Clone, Copy)]
pub enum Bound<T> {
    Included(T),
    Excluded(T),
    Unbounded,
}

/// The counts that one arm of a plural match accepts.
#[derive(Debug, Hash, PartialEq, Eq)]
pub enum Range<T> {
    /// Exactly this count.
    Exact(T),
    /// The counts from `start` (or from the least value) up to `end`.
    Bounds { start: Option<T>, end: Bound<T> },
    /// Any count that one of these ranges accepts.
    Multiple(Vec<Range<T>>),
    /// Any count at all.
    Fallback,
}

/// A [`Bound`] with its value taken as a mathematical integer.
pub enum BoundModel {
    Included(int),
    Excluded(int),
    Unbounded,
}

/// A [`Range`] with its values taken as mathematical integers.
pub enum RangeModel {
    Exact(int),
    Bounds { start: Option<int>, end: BoundModel },
    Multiple(Seq<RangeModel>),
    Fallback,
}

pub open spec fn option_model<T: RangeNumber>(o: Option<T>) -> Option<int> {
    match o {
        Some(x) => Some(x.spec_value()),
        None => None,
    }
}

impl<T: RangeNumber> Bound<T> {
    pub open spec fn model(self) -> BoundModel {
        match self {
            Bound::Included(x) => BoundModel::Included(x.spec_value()),
            Bound::Excluded(x) => BoundModel::Excluded(x.spec_value()),
            Bound::Unbounded => BoundModel::Unbounded,
        }
    }
}

impl<T: RangeNumber> Range<T> {
    pub open spec fn model(self) -> RangeModel
        decreases self,
    {
        match self {
            Range::Exact(n) => RangeModel::Exact(n.spec_value()),
            Range::Bounds { start, end } => RangeModel::Bounds {
                start: option_model(start),
                end: end.model(),
            },
            Range::Multiple(v) => RangeModel::Multiple(models_of(v@)),
            Range::Fallback => RangeModel::Fallback,
        }
    }
}

/// The models of the ranges `rs`, in order.
pub open spec fn models_of<T: RangeNumber>(rs: Seq<Range<T>>) -> Seq<RangeModel>
    decreases rs,
{
    if rs.len() == 0 {
        Seq::empty()
    } else {
        models_of(rs.subrange(0, rs.len() - 1)).push(rs[rs.len() - 1].model())
    }
}

impl<T: RangeNumber> Range<T> {
    /// A copy of `self`, with the same model.
    #[verifier::loop_isolation(false)]
    pub fn duplicate(&self) -> (r: Self)
        ensures
            r@ == self@,
        decreases self,
    {
        match self {
            Range::Exact(n) => {
                let r = Range::Exact(*n);
                assert(r.model() == RangeModel::Exact(n.spec_value()));
                r
            },
            Range::Bounds { start, end } => Range::Bounds { start: *start, end: *end },
            Range::Multiple(v) => {
                let mut out: Vec<Range<T>> = Vec::new();
                let mut i: usize = 0;
                while i < v.len()
                    invariant
                        i <= v@.len(),
                        models_of(out@) == models_of(v@.subrange(0, i as int)),
                    decreases v@.len() - i,
                {
                    proof {
                        assert(decreases_to!(*v => v[i as int]));
                        assert(decreases_to!(*self => *v));
                    }
                    let r = v[i].duplicate();
                    let ghost before = out@;
                    out.push(r);
                    proof {
                        assert(out@.subrange(0, out@.len() - 1) =~= before);
                        assert(v@.subrange(0, i + 1).subrange(0, i as int) =~= v@.subrange(
                            0,
                            i as int,
                        ));
                    }
                    i = i + 1;
                }
                assert(v@.subrange(0, v@.len() as int) =~= v@);
                Range::Multiple(out)
            },
            Range::Fallback => Range::Fallback,
        }
    }
}

impl<T: RangeNumber> Clone for Range<T> {
    fn clone(&self) -> (r: Self)
        ensures
            r@ == self@,
    {
        self.duplicate()
    }
}

impl<T: RangeNumber> View for Range<T> {
    type V = RangeModel;

    open spec fn view(&self) -> RangeModel {
        self.model()
    }
}

pub proof fn lemma_models_of<T: RangeNumber>(rs: Seq<Range<T>>)
    ensures
        models_of(rs).len() == rs.len(),
        forall|i: int| 0 <= i < rs.len() ==> #[trigger] models_of(rs)[i] == rs[i].model(),
    decreases rs.len(),
{
    if rs.len() > 0 {
        let p = rs.subrange(0, rs.len() - 1);
        lemma_models_of(p);
        assert forall|i: int| 0 <= i < rs.len() implies #[trigger] models_of(rs)[i]
            == rs[i].model() by {
            if i < rs.len() - 1 {
                assert(p[i] == rs[i]);
            }
        }
    }
}

pub proof fn lemma_models_of_push<T: RangeNumber>(rs: Seq<Range<T>>, r: Range<T>)
    ensures
        models_of(rs.push(r)) == models_of(rs).push(r.model()),
{
    assert(rs.push(r).subrange(0, rs.len() as int) =~= rs);
}

/// Whether the ranges `rs` hold a fallback.
pub open spec fn has_fallback(rs: Seq<RangeModel>) -> bool {
    exists|i: int| 0 <= i < rs.len() && rs[i] is Fallback
}

/// A set of alternatives that holds a fallback is itself a fallback.
pub open spec fn flatten_model(m: RangeModel) -> RangeModel {
    match m {
        RangeModel::Multiple(rs) => if has_fallback(rs) {
            RangeModel::Fallback
        } else {
            RangeModel::Multiple(rs)
        },
        _ => m,
    }
}

/// The value that the characters `s` denote in the number type `T`.
pub open spec fn spec_number<T: RangeNumber>(s: Seq<char>) -> Result<int, ErrorView> {
    match parse_integer(s, T::spec_min(), T::spec_max()) {
        Some(v) => Ok(v),
        None => Err(ErrorView::RangeParse { range: s, range_type: T::spec_type() }),
    }
}

/// The start of a bounded range, written as `s` (trimmed) before `..`.
pub open spec fn spec_start<T: RangeNumber>(s: Seq<char>) -> Result<Option<int>, ErrorView> {
    if s.len() == 0 {
        Ok(None)
    } else {
        match spec_number::<T>(s) {
            Ok(v) => Ok(Some(v)),
            Err(e) => Err(e),
        }
    }
}

/// The end of the bounded range `t`, written as `s` (trimmed) after `..`:
/// nothing, `=` and an inclusive end, or an exclusive end, which becomes
/// the inclusive end just below it.
pub open spec fn spec_end<T: RangeNumber>(t: Seq<char>, s: Seq<char>) -> Result<
    BoundModel,
    ErrorView,
> {
    if s.len() == 0 {
        Ok(BoundModel::Unbounded)
    } else if s[0] == '=' {
        match spec_number::<T>(trim_start(s.drop_first())) {
            Ok(v) => Ok(BoundModel::Included(v)),
            Err(e) => Err(e),
        }
    } else {
        match spec_number::<T>(s) {
            Err(e) => Err(e),
            Ok(v) => if v > T::spec_min() {
                Ok(BoundModel::Included(v - 1))
            } else {
                Err(ErrorView::InvalidBoundEnd { range: t, range_type: T::spec_type() })
            },
        }
    }
}

/// Whether a range from `start` to `end` holds no value at all.
pub open spec fn is_impossible(start: Option<int>, end: BoundModel) -> bool {
    match start {
        Some(a) => match end {
            BoundModel::Excluded(e) => e <= a,
            BoundModel::Included(e) => e < a,
            BoundModel::Unbounded => false,
        },
        None => false,
    }
}

/// The bounded range `t`, whose first `..` starts at `i`.
pub open spec fn spec_bounds<T: RangeNumber>(t: Seq<char>, i: int) -> Result<RangeModel, ErrorView> {
    match spec_start::<T>(trim(t.take(i))) {
        Err(e) => Err(e),
        Ok(start) => match spec_end::<T>(t, trim(t.skip(i + 2))) {
            Err(e) => Err(e),
            Ok(end) => if is_impossible(start, end) {
                Err(ErrorView::ImpossibleRange(t))
            } else {
                Ok(RangeModel::Bounds { start, end })
            },
        },
    }
}

/// The trimmed text `t` of one alternative: a bounded range where it holds
/// `..`, else an exact count.
pub open spec fn spec_single<T: RangeNumber>(t: Seq<char>) -> Result<RangeModel, ErrorView> {
    match find_dots(t) {
        Some(i) => spec_bounds::<T>(t, i),
        None => match spec_number::<T>(t) {
            Ok(v) => Ok(RangeModel::Exact(v)),
            Err(e) => Err(e),
        },
    }
}

/// Whether the trimmed text `t` is one of the two ways to write a fallback.
pub open spec fn is_fallback_text(t: Seq<char>) -> bool {
    t == seq!['_'] || t == seq!['.', '.']
}

/// One alternative, written as `s`.
pub open spec fn spec_piece<T: RangeNumber>(s: Seq<char>) -> Result<RangeModel, ErrorView> {
    let t = trim(s);
    if is_fallback_text(t) {
        Ok(RangeModel::Fallback)
    } else {
        spec_single::<T>(t)
    }
}

/// The alternatives `ps`, read in order; the first that is refused decides
/// the error.
pub open spec fn spec_pieces<T: RangeNumber>(ps: Seq<Seq<char>>) -> Result<
    Seq<RangeModel>,
    ErrorView,
>
    decreases ps.len(),
{
    if ps.len() == 0 {
        Ok(Seq::empty())
    } else {
        match spec_pieces::<T>(ps.drop_last()) {
            Err(e) => Err(e),
            Ok(rs) => match spec_piece::<T>(ps.last()) {
                Err(e) => Err(e),
                Ok(r) => Ok(rs.push(r)),
            },
        }
    }
}

/// The range that `Range::new` reads from `s`: a fallback (`_` or `..`),
/// alternatives separated by `|`, a bounded range, or an exact count, all
/// ignoring surrounding whitespace.
pub open spec fn spec_new<T: RangeNumber>(s: Seq<char>) -> Result<RangeModel, ErrorView> {
    let t = trim(s);
    if is_fallback_text(t) {
        Ok(RangeModel::Fallback)
    } else if t.contains('|') {
        match spec_pieces::<T>(split_on(t, '|')) {
            Err(e) => Err(e),
            Ok(rs) => Ok(flatten_model(RangeModel::Multiple(rs))),
        }
    } else {
        spec_single::<T>(t)
    }
}

pub open spec fn result_model<T: RangeNumber>(r: Result<Range<T>, Error>) -> Result<
    RangeModel,
    ErrorView,
> {
    match r {
        Ok(x) => Ok(x@),
        Err(e) => Err(e@),
    }
}

fn is_fallback_chars(t: &[char]) -> (b: bool)
    ensures
        b == is_fallback_text(t@),
{
    if t.len() == 1 && t[0] == '_' {
        assert(t@ =~= seq!['_']);
        true
    } else if t.len() == 2 && t[0] == '.' && t[1] == '.' {
        assert(t@ =~= seq!['.', '.']);
        true
    } else {
        false
    }
}

fn contains_char(t: &[char], c: char) -> (b: bool)
    ensures
        b == t@.contains(c),
{
    let mut i: usize = 0;
    while i < t.len()
        invariant
            i <= t@.len(),
            forall|j: int| 0 <= j < i ==> t@[j] != c,
        decreases t@.len() - i,
    {
        if t[i] == c {
            assert(t@[i as int] == c);
            return true;
        }
        i = i + 1;
    }
    false
}

impl<T: RangeNumber> Range<T> {
    /// The value that `s` denotes in `T`, or the error naming `s`.
    fn parse_number(s: &[char]) -> (r: Result<T, Error>)
        ensures
            match r {
                Ok(x) => spec_number::<T>(s@) == Ok::<int, ErrorView>(x.spec_value()),
                Err(e) => spec_number::<T>(s@) == Err::<int, ErrorView>(e@),
            },
    {
        match T::parse_chars(s) {
            Some(x) => Ok(x),
            None => Err(Error::RangeParse { range: string_from_chars(s), range_type: T::range_type() }),
        }
    }

    fn parse_start(s: &[char]) -> (r: Result<Option<T>, Error>)
        ensures
            match r {
                Ok(x) => spec_start::<T>(s@) == Ok::<Option<int>, ErrorView>(option_model(x)),
                Err(e) => spec_start::<T>(s@) == Err::<Option<int>, ErrorView>(e@),
            },
    {
        if s.len() == 0 {
            Ok(None)
        } else {
            match Self::parse_number(s) {
                Ok(x) => Ok(Some(x)),
                Err(e) => Err(e),
            }
        }
    }

    fn parse_end(t: &[char], s: &[char]) -> (r: Result<Bound<T>, Error>)
        ensures
            match r {
                Ok(b) => spec_end::<T>(t@, s@) == Ok::<BoundModel, ErrorView>(b.model()),
                Err(e) => spec_end::<T>(t@, s@) == Err::<BoundModel, ErrorView>(e@),
            },
    {
        if s.len() == 0 {
            Ok(Bound::Unbounded)
        } else if s[0] == '=' {
            let rest = copy_tail(s);
            let e = trim_start_chars(rest.as_slice());
            match Self::parse_number(e.as_slice()) {
                Ok(x) => Ok(Bound::Included(x)),
                Err(err) => Err(err),
            }
        } else {
            match Self::parse_number(s) {
                Err(err) => Err(err),
                Ok(x) => match x.range_end_bound() {
                    Some(b) => Ok(b),
                    None => Err(
                        Error::InvalidBoundEnd {
                            range: string_from_chars(t),
                            range_type: T::range_type(),
                        },
                    ),
                },
            }
        }
    }

    fn impossible(start: Option<T>, end: Bound<T>) -> (b: bool)
        ensures
            b == is_impossible(option_model(start), end.model()),
    {
        match start {
            Some(a) => match end {
                Bound::Excluded(e) => e.to_i128() <= a.to_i128(),
                Bound::Included(e) => e.to_i128() < a.to_i128(),
                Bound::Unbounded => false,
            },
            None => false,
        }
    }

    fn new_bounds(t: &[char], i: usize) -> (r: Result<Self, Error>)
        requires
            i + 2 <= t@.len(),
        ensures
            result_model(r) == spec_bounds::<T>(t@, i as int),
    {
        let head = copy_range(t, 0, i);
        let start_text = trim_chars(head.as_slice());
        let n = t.len();
        let tail = copy_range(t, i + 2, n);
        let end_text = trim_chars(tail.as_slice());
        assert(head@ =~= t@.take(i as int));
        assert(tail@ =~= t@.skip(i + 2));
        let start = match Self::parse_start(start_text.as_slice()) {
            Ok(x) => x,
            Err(e) => return Err(e),
        };
        let end = match Self::parse_end(t, end_text.as_slice()) {
            Ok(b) => b,
            Err(e) => return Err(e),
        };
        if Self::impossible(start, end) {
            return Err(Error::ImpossibleRange(string_from_chars(t)));
        }
        Ok(Range::Bounds { start, end })
    }

    fn new_single(t: &[char]) -> (r: Result<Self, Error>)
        ensures
            result_model(r) == spec_single::<T>(t@),
    {
        match find_dots_chars(t) {
            Some(i) => {
                proof {
                    lemma_dots_in_bounds(t@, i as int);
                }
                Self::new_bounds(t, i)
            },
            None => match Self::parse_number(t) {
                Ok(x) => Ok(Range::Exact(x)),
                Err(e) => Err(e),
            },
        }
    }

    fn new_piece(s: &[char]) -> (r: Result<Self, Error>)
        ensures
            result_model(r) == spec_piece::<T>(s@),
    {
        let t = trim_chars(s);
        if is_fallback_chars(t.as_slice()) {
            return Ok(Range::Fallback);
        }
        Self::new_single(t.as_slice())
    }

    /// The range itself, or a fallback where it is a set of alternatives
    /// that holds a fallback.
    #[verifier::loop_isolation(false)]
    pub fn flatten(self) -> (r: Self)
        ensures
            r@ == flatten_model(self@),
    {
        match self {
            Range::Multiple(ranges) => {
                proof {
                    lemma_models_of(ranges@);
                }
                let mut i: usize = 0;
                while i < ranges.len()
                    invariant
                        i <= ranges@.len(),
                        forall|j: int| 0 <= j < i ==> !(ranges@[j] is Fallback),
                    decreases ranges@.len() - i,
                {
                    if matches!(ranges[i], Range::Fallback) {
                        proof {
                            assert(models_of(ranges@)[i as int] is Fallback);
                        }
                        return Range::Fallback;
                    }
                    i = i + 1;
                }
                proof {
                    assert forall|j: int| 0 <= j < ranges@.len() implies !(#[trigger] models_of(
                        ranges@,
                    )[j] is Fallback) by {
                        assert(!(ranges@[j] is Fallback));
                    }
                }
                Range::Multiple(ranges)
            },
            other => other,
        }
    }

    #[verifier::loop_isolation(false)]
    fn new_chars(s: &[char]) -> (r: Result<Self, Error>)
        ensures
            result_model(r) == spec_new::<T>(s@),
    {
        let t = trim_chars(s);
        if is_fallback_chars(t.as_slice()) {
            return Ok(Range::Fallback);
        }
        if !contains_char(t.as_slice(), '|') {
            return Self::new_single(t.as_slice());
        }
        let pieces = split_chars(t.as_slice(), '|');
        let ghost ps = split_on(t@, '|');
        let mut ranges: Vec<Range<T>> = Vec::new();
        let mut i: usize = 0;
        while i < pieces.len()
            invariant
                i <= pieces@.len() == ps.len(),
                forall|k: int| 0 <= k < pieces@.len() ==> (#[trigger] pieces@[k])@ == ps[k],
                spec_pieces::<T>(ps.take(i as int)) == Ok::<Seq<RangeModel>, ErrorView>(
                    models_of(ranges@),
                ),
            decreases pieces@.len() - i,
        {
            assert(ps.take(i + 1).drop_last() =~= ps.take(i as int));
            assert(ps.take(i + 1).last() == pieces@[i as int]@);
            match Self::new_piece(pieces[i].as_slice()) {
                Ok(r) => {
                    proof {
                        lemma_models_of_push(ranges@, r);
                    }
                    ranges.push(r);
                },
                Err(e) => {
                    proof {
                        assert(spec_pieces::<T>(ps.take(i + 1)) == Err::<Seq<RangeModel>, ErrorView>(e@));
                        lemma_spec_pieces_error::<T>(ps, i + 1, e@);
                    }
                    return Err(e);
                },
            }
            i = i + 1;
        }
        assert(ps.take(ps.len() as int) =~= ps);
        Ok(Range::Multiple(ranges).flatten())
    }

    /// Reads a range from `s`: `_` or `..` for any count, alternatives
    /// separated by `|`, `start..end`, `start..=end`, `start..`, `..end`,
    /// `..=end`, or an exact count; either bound of a bounded range may be
    /// left out, and whitespace around each part is ignored.
    pub fn new(s: &str) -> (r: Result<Self, Error>)
        ensures
            result_model(r) == spec_new::<T>(s@),
    {
        let chars = to_chars(s);
        Self::new_chars(chars.as_slice())
    }
}

/// Where the first `..` of `t` lies, both of its characters lie in `t`.
proof fn lemma_dots_in_bounds(t: Seq<char>, i: int)
    requires
        find_dots(t) == Some(i),
    ensures
        dots_at(t, i),
        forall|j: int| 0 <= j < i ==> !dots_at(t, j),
{
    let w = choose|k: int| dots_at(t, k);
    lemma_first_dots(t, w);
}

proof fn lemma_first_dots(t: Seq<char>, w: int)
    requires
        dots_at(t, w),
    ensures
        exists|k: int| dots_at(t, k) && forall|j: int| 0 <= j < k ==> !dots_at(t, j),
    decreases w,
{
    if exists|j: int| 0 <= j < w && dots_at(t, j) {
        let j = choose|j: int| 0 <= j < w && dots_at(t, j);
        lemma_first_dots(t, j);
    } else {
        assert(dots_at(t, w) && forall|j: int| 0 <= j < w ==> !dots_at(t, j));
    }
}

/// Once an alternative is refused, the whole list is refused with its error.
proof fn lemma_spec_pieces_error<T: RangeNumber>(ps: Seq<Seq<char>>, k: int, e: ErrorView)
    requires
        0 <= k <= ps.len(),
        spec_pieces::<T>(ps.take(k)) == Err::<Seq<RangeModel>, ErrorView>(e),
    ensures
        spec_pieces::<T>(ps) == Err::<Seq<RangeModel>, ErrorView>(e),
    decreases ps.len() - k,
{
    if k == ps.len() {
        assert(ps.take(k) =~= ps);
    } else {
        assert(ps.take(k + 1).drop_last() =~= ps.take(k));
        lemma_spec_pieces_error::<T>(ps, k + 1, e);
    }
}

/// The characters of `s` after the first.
fn copy_tail(s: &[char]) -> (r: Vec<char>)
    requires
        s@.len() > 0,
    ensures
        r@ == s@.drop_first(),
{
    let r = copy_range(s, 1, s.len());
    assert(r@ =~= s@.drop_first());
    r
}

/// Whether `v` is a value of the number type `T`.
pub open spec fn in_type<T: RangeNumber>(v: int) -> bool {
    T::spec_min() <= v <= T::spec_max()
}

/// An exact count or a bounded range that holds at least one value of `T`,
/// whose end, if any, is inclusive.
pub open spec fn is_simple_well_formed<T: RangeNumber>(m: RangeModel) -> bool {
    match m {
        RangeModel::Exact(v) => in_type::<T>(v),
        RangeModel::Bounds { start, end } => {
            &&& (start matches Some(a) ==> in_type::<T>(a))
            &&& !(end is Excluded)
            &&& (end matches BoundModel::Included(e) ==> in_type::<T>(e))
            &&& !is_impossible(start, end)
        },
        _ => false,
    }
}

/// What `Range::new` can give: a fallback, a well-formed simple range, or
/// at least two well-formed simple alternatives.
pub open spec fn is_well_formed<T: RangeNumber>(m: RangeModel) -> bool {
    match m {
        RangeModel::Fallback => true,
        RangeModel::Multiple(rs) => rs.len() >= 2 && forall|i: int|
            0 <= i < rs.len() ==> is_simple_well_formed::<T>(#[trigger] rs[i]),
        _ => is_simple_well_formed::<T>(m),
    }
}

proof fn lemma_number_in_type<T: RangeNumber>(s: Seq<char>)
    ensures
        spec_number::<T>(s) matches Ok(v) ==> in_type::<T>(v),
{
}

proof fn lemma_start_in_type<T: RangeNumber>(s: Seq<char>)
    ensures
        spec_start::<T>(s) matches Ok(Some(a)) ==> in_type::<T>(a),
{
    lemma_number_in_type::<T>(s);
}

proof fn lemma_end_well_formed<T: RangeNumber>(t: Seq<char>, s: Seq<char>)
    ensures
        spec_end::<T>(t, s) matches Ok(b) ==> {
            &&& !(b is Excluded)
            &&& (b matches BoundModel::Included(e) ==> in_type::<T>(e))
        },
{
    lemma_number_in_type::<T>(s);
    if s.len() > 0 {
        lemma_number_in_type::<T>(trim_start(s.drop_first()));
    }
}

proof fn lemma_bounds_well_formed<T: RangeNumber>(t: Seq<char>, i: int)
    ensures
        spec_bounds::<T>(t, i) matches Ok(m) ==> is_simple_well_formed::<T>(m),
{
    lemma_start_in_type::<T>(trim(t.take(i)));
    lemma_end_well_formed::<T>(t, trim(t.skip(i + 2)));
}

proof fn lemma_single_well_formed<T: RangeNumber>(t: Seq<char>)
    ensures
        spec_single::<T>(t) matches Ok(m) ==> is_simple_well_formed::<T>(m),
{
    match find_dots(t) {
        Some(i) => {
            lemma_bounds_well_formed::<T>(t, i);
        },
        None => {
            lemma_number_in_type::<T>(t);
        },
    }
}

proof fn lemma_spec_pieces_ok<T: RangeNumber>(ps: Seq<Seq<char>>)
    ensures
        spec_pieces::<T>(ps) matches Ok(rs) ==> {
            &&& rs.len() == ps.len()
            &&& forall|i: int|
                0 <= i < ps.len() ==> spec_piece::<T>(#[trigger] ps[i]) == Ok::<
                    RangeModel,
                    ErrorView,
                >(rs[i])
        },
    decreases ps.len(),
{
    if ps.len() > 0 {
        let q = ps.drop_last();
        lemma_spec_pieces_ok::<T>(q);
        if let Ok(rs) = spec_pieces::<T>(ps) {
            assert forall|i: int| 0 <= i < ps.len() implies spec_piece::<T>(#[trigger] ps[i])
                == Ok::<RangeModel, ErrorView>(rs[i]) by {
                if i < ps.len() - 1 {
                    assert(ps[i] == q[i]);
                }
            }
        }
    }
}

/// Law: `Range::new` reads the same range from a text with or without the
/// whitespace around it.
pub proof fn law_new_ignores_outer_whitespace<T: RangeNumber>(s: Seq<char>)
    ensures
        spec_new::<T>(trim(s)) == spec_new::<T>(s),
{
    lemma_trim_idempotent(s);
}

/// Law: a range that `Range::new` accepts is well formed: its values lie in
/// the type, no bounded range is empty or ends exclusively, and a list of
/// alternatives holds at least two simple ranges and no fallback.
pub proof fn law_new_well_formed<T: RangeNumber>(s: Seq<char>)
    ensures
        spec_new::<T>(s) matches Ok(m) ==> is_well_formed::<T>(m),
{
    let t = trim(s);
    if !is_fallback_text(t) {
        if t.contains('|') {
            let ps = split_on(t, '|');
            lemma_split_on_pieces(t, '|');
            lemma_spec_pieces_ok::<T>(ps);
            if let Ok(rs) = spec_pieces::<T>(ps) {
                if !has_fallback(rs) {
                    assert forall|i: int| 0 <= i < rs.len() implies is_simple_well_formed::<T>(
                        #[trigger] rs[i],
                    ) by {
                        assert(spec_piece::<T>(ps[i]) == Ok::<RangeModel, ErrorView>(rs[i]));
                        lemma_single_well_formed::<T>(trim(ps[i]));
                        assert(!(rs[i] is Fallback));
                    }
                }
            }
        } else {
            lemma_single_well_formed::<T>(t);
        }
    }
}

/// Law: each alternative of a list that `Range::new` accepts is the range
/// that `Range::new` reads from that alternative's text alone.
pub proof fn law_new_alternatives<T: RangeNumber>(s: Seq<char>)
    ensures
        ({
            let t = trim(s);
            let ps = split_on(t, '|');
            spec_new::<T>(s) matches Ok(RangeModel::Multiple(rs)) ==> {
                &&& rs.len() == ps.len()
                &&& forall|i: int|
                    0 <= i < ps.len() ==> spec_new::<T>(#[trigger] ps[i]) == Ok::<
                        RangeModel,
                        ErrorView,
                    >(rs[i])
            }
        }),
{
    let t = trim(s);
    let ps = split_on(t, '|');
    if !is_fallback_text(t) && t.contains('|') {
        lemma_split_on_pieces(t, '|');
        lemma_spec_pieces_ok::<T>(ps);
        assert forall|i: int| 0 <= i < ps.len() implies spec_new::<T>(#[trigger] ps[i])
            == spec_piece::<T>(ps[i]) by {
            lemma_trim_contains(ps[i], '|');
        }
    } else if !is_fallback_text(t) {
        lemma_single_well_formed::<T>(t);
    }
}

/// When every alternative is accepted, the list reads as the ranges of the
/// alternatives, in order.
proof fn lemma_spec_pieces_all_ok<T: RangeNumber>(ps: Seq<Seq<char>>)
    requires
        forall|i: int| 0 <= i < ps.len() ==> spec_piece::<T>(#[trigger] ps[i]) is Ok,
    ensures
        spec_pieces::<T>(ps) == Ok::<Seq<RangeModel>, ErrorView>(
            Seq::new(ps.len(), |i: int| spec_piece::<T>(ps[i])->Ok_0),
        ),
    decreases ps.len(),
{
    if ps.len() == 0 {
        assert(Seq::new(ps.len(), |i: int| spec_piece::<T>(ps[i])->Ok_0) =~= Seq::<
            RangeModel,
        >::empty());
    } else {
        let q = ps.drop_last();
        assert forall|i: int| 0 <= i < q.len() implies spec_piece::<T>(#[trigger] q[i]) is Ok by {
            assert(q[i] == ps[i]);
        }
        lemma_spec_pieces_all_ok::<T>(q);
        assert(spec_piece::<T>(ps[ps.len() - 1]) is Ok);
        assert(Seq::new(q.len(), |i: int| spec_piece::<T>(q[i])->Ok_0).push(
            spec_piece::<T>(ps.last())->Ok_0,
        ) =~= Seq::new(ps.len(), |i: int| spec_piece::<T>(ps[i])->Ok_0));
    }
}

/// Law: a list of alternatives separated by `|` reads its alternatives in
/// order. Where one is refused, the first refused one decides the error;
/// otherwise the list is the ranges of the alternatives, each as
/// `Range::new` reads it alone, and a fallback among them makes the whole
/// list a fallback.
pub proof fn law_new_list<T: RangeNumber>(s: Seq<char>)
    requires
        !is_fallback_text(trim(s)),
        trim(s).contains('|'),
    ensures
        ({
            let ps = split_on(trim(s), '|');
            &&& (forall|i: int| 0 <= i < ps.len() ==> (#[trigger] spec_new::<T>(ps[i])) is Ok)
                ==> spec_new::<T>(s) == Ok::<RangeModel, ErrorView>(
                flatten_model(
                    RangeModel::Multiple(
                        Seq::new(ps.len(), |i: int| spec_new::<T>(ps[i])->Ok_0),
                    ),
                ),
            )
            &&& forall|k: int|
                0 <= k < ps.len() && (#[trigger] spec_new::<T>(ps[k])) is Err && (forall|i: int|
                    0 <= i < k ==> (#[trigger] spec_new::<T>(ps[i])) is Ok) ==> spec_new::<T>(s)
                    == spec_new::<T>(ps[k])
        }),
{
    let t = trim(s);
    let ps = split_on(t, '|');
    lemma_split_on_pieces(t, '|');
    assert forall|i: int| 0 <= i < ps.len() implies #[trigger] spec_new::<T>(ps[i])
        == spec_piece::<T>(ps[i]) by {
        lemma_trim_contains(ps[i], '|');
    }
    if forall|i: int| 0 <= i < ps.len() ==> (#[trigger] spec_new::<T>(ps[i])) is Ok {
        assert forall|i: int| 0 <= i < ps.len() implies spec_piece::<T>(#[trigger] ps[i]) is Ok by {
            assert(spec_new::<T>(ps[i]) == spec_piece::<T>(ps[i]));
        }
        lemma_spec_pieces_all_ok::<T>(ps);
        assert(Seq::new(ps.len(), |i: int| spec_new::<T>(ps[i])->Ok_0) =~= Seq::new(
            ps.len(),
            |i: int| spec_piece::<T>(ps[i])->Ok_0,
        ));
    }
    assert forall|k: int|
        0 <= k < ps.len() && (#[trigger] spec_new::<T>(ps[k])) is Err && (forall|i: int|
            0 <= i < k ==> (#[trigger] spec_new::<T>(ps[i])) is Ok) implies spec_new::<T>(s)
        == spec_new::<T>(ps[k]) by {
        let pre = ps.take(k);
        assert forall|i: int| 0 <= i < pre.len() implies spec_piece::<T>(#[trigger] pre[i]) is Ok by {
            assert(pre[i] == ps[i]);
            assert(spec_new::<T>(ps[i]) is Ok);
        }
        lemma_spec_pieces_all_ok::<T>(pre);
        let e = spec_piece::<T>(ps[k])->Err_0;
        assert(ps.take(k + 1).drop_last() =~= pre);
        assert(ps.take(k + 1).last() == ps[k]);
        assert(spec_pieces::<T>(ps.take(k + 1)) == Err::<Seq<RangeModel>, ErrorView>(e));
        lemma_spec_pieces_error::<T>(ps, k + 1, e);
    }
}

/// Whether the end `b` lets the count `n` through.
pub open spec fn end_accepts(b: BoundModel, n: int) -> bool {
    match b {
        BoundModel::Included(e) => n <= e,
        BoundModel::Excluded(e) => n < e,
        BoundModel::Unbounded => true,
    }
}

/// Whether the range `m` accepts the count `n`.
pub open spec fn accepts(m: RangeModel, n: int) -> bool
    decreases m,
{
    match m {
        RangeModel::Exact(v) => n == v,
        RangeModel::Bounds { start, end } => (start matches Some(a) ==> a <= n) && end_accepts(
            end,
            n,
        ),
        RangeModel::Multiple(rs) => exists|i: int| 0 <= i < rs.len() && accepts(rs[i], n),
        RangeModel::Fallback => true,
    }
}

/// Law: an exclusive end `..e` that `Range::new` accepts lets through
/// exactly the counts of the type below `e`, though it is kept as an
/// inclusive end.
pub proof fn law_exclusive_end_accepts_below<T: RangeNumber>(t: Seq<char>, s: Seq<char>, n: int)
    requires
        s.len() > 0,
        s[0] != '=',
        spec_end::<T>(t, s) is Ok,
        in_type::<T>(n),
    ensures
        spec_number::<T>(s) matches Ok(e) && (end_accepts(spec_end::<T>(t, s)->Ok_0, n) <==> n
            < e),
{
}

/// Law: folding a list of alternatives that holds a fallback into a
/// fallback does not change which counts the range accepts.
pub proof fn law_flatten_keeps_accepted_counts(m: RangeModel, n: int)
    ensures
        accepts(flatten_model(m), n) == accepts(m, n),
{
    if let RangeModel::Multiple(rs) = m {
        if has_fallback(rs) {
            let i = choose|i: int| 0 <= i < rs.len() && rs[i] is Fallback;
            assert(accepts(rs[i], n));
        }
    }
}

} // verus!
