//! The tokens of the `match` pattern that a range expands to.
use vstd::prelude::*;

use crate::number::RangeNumber;
use crate::range::{lemma_models_of, models_of, Bound, BoundModel, Range, RangeModel};

verus! {

/// One token of a pattern: an integer literal suffixed with its type, a
/// punctuation character (joined to the next one or standing alone), or
/// the wildcard `_`.
#[derive(Debug, PartialEq, Eq, Clone, Copy)]
pub enum PatternToken<T> {
    Number(T),
    Punct { ch: char, joint: bool },
    Underscore,
}

/// A [`PatternToken`] with its number taken as a mathematical integer.
pub enum TokenModel {
    Number(int),
    Punct(char, bool),
    Underscore,
}

impl<T: RangeNumber> PatternToken<T> {
    pub open spec fn model(self) -> TokenModel {
        match self {
            PatternToken::Number(n) => TokenModel::Number(n.spec_value()),
            PatternToken::Punct { ch, joint } => TokenModel::Punct(ch, joint),
            PatternToken::Underscore => TokenModel::Underscore,
        }
    }
}

pub open spec fn token_models<T: RangeNumber>(ts: Seq<PatternToken<T>>) -> Seq<TokenModel> {
    ts.map_values(|t: PatternToken<T>| t.model())
}

/// The tokens of an optional start bound.
pub open spec fn start_pattern(start: Option<int>) -> Seq<TokenModel> {
    match start {
        Some(a) => seq![TokenModel::Number(a)],
        None => Seq::empty(),
    }
}

/// The tokens of `..=e`, `..e` or `..`.
pub open spec fn end_pattern(end: BoundModel) -> Seq<TokenModel> {
    match end {
        BoundModel::Included(e) => seq![
            TokenModel::Punct('.', true),
            TokenModel::Punct('.', true),
            TokenModel::Punct('=', false),
            TokenModel::Number(e),
        ],
        BoundModel::Excluded(e) => seq![
            TokenModel::Punct('.', true),
            TokenModel::Punct('.', false),
            TokenModel::Number(e),
        ],
        BoundModel::Unbounded => seq![TokenModel::Punct('.', true), TokenModel::Punct('.', false)],
    }
}

/// The pattern a range expands to: its number, its bounds around `..` or
/// `..=`, `_`, or its alternatives separated by `|`.
pub open spec fn spec_pattern(m: RangeModel) -> Seq<TokenModel>
    decreases m,
{
    match m {
        RangeModel::Exact(v) => seq![TokenModel::Number(v)],
        RangeModel::Bounds { start, end } => start_pattern(start) + end_pattern(end),
        RangeModel::Fallback => seq![TokenModel::Underscore],
        RangeModel::Multiple(rs) => spec_alternatives(rs),
    }
}

/// The patterns of `rs`, separated by `|`.
pub open spec fn spec_alternatives(rs: Seq<RangeModel>) -> Seq<TokenModel>
    decreases rs,
{
    if rs.len() == 0 {
        Seq::empty()
    } else if rs.len() == 1 {
        spec_pattern(rs[0])
    } else {
        spec_alternatives(rs.subrange(0, rs.len() - 1)) + seq![TokenModel::Punct('|', false)]
            + spec_pattern(rs[rs.len() - 1])
    }
}

/// The end that the tokens `ts` write after a start, as a Rust range
/// pattern reads them: `..=e`, `..e` or `..`; `None` for anything else.
pub open spec fn read_end(ts: Seq<TokenModel>) -> Option<BoundModel> {
    if ts.len() == 4 && ts[0] == TokenModel::Punct('.', true) && ts[1] == TokenModel::Punct(
        '.',
        true,
    ) && ts[2] == TokenModel::Punct('=', false) && ts[3] is Number {
        Some(BoundModel::Included(ts[3]->Number_0))
    } else if ts.len() == 3 && ts[0] == TokenModel::Punct('.', true) && ts[1]
        == TokenModel::Punct('.', false) && ts[2] is Number {
        Some(BoundModel::Excluded(ts[2]->Number_0))
    } else if ts.len() == 2 && ts[0] == TokenModel::Punct('.', true) && ts[1]
        == TokenModel::Punct('.', false) {
        Some(BoundModel::Unbounded)
    } else {
        None
    }
}

/// The range that a pattern of one piece, `ts`, stands for as a Rust
/// pattern reads it: `_`, a number, or an optional number followed by an
/// end; `None` for anything else.
pub open spec fn read_simple_pattern(ts: Seq<TokenModel>) -> Option<RangeModel> {
    if ts == seq![TokenModel::Underscore] {
        Some(RangeModel::Fallback)
    } else if ts.len() == 1 && ts[0] is Number {
        Some(RangeModel::Exact(ts[0]->Number_0))
    } else if ts.len() >= 1 && ts[0] is Number {
        match read_end(ts.drop_first()) {
            Some(end) => Some(RangeModel::Bounds { start: Some(ts[0]->Number_0), end }),
            None => None,
        }
    } else {
        match read_end(ts) {
            Some(end) => Some(RangeModel::Bounds { start: None, end }),
            None => None,
        }
    }
}

/// Law: the pattern of a range that is not a list of alternatives reads
/// back, as a Rust range pattern, as that very range: the same number, or
/// the same start and the same end.
pub proof fn law_pattern_reads_back(m: RangeModel)
    requires
        !(m is Multiple),
    ensures
        read_simple_pattern(spec_pattern(m)) == Some(m),
{
    let ts = spec_pattern(m);
    match m {
        RangeModel::Exact(v) => {},
        RangeModel::Fallback => {},
        RangeModel::Bounds { start, end } => {
            match start {
                Some(a) => {
                    assert(ts.drop_first() =~= end_pattern(end));
                    assert(ts[0] == TokenModel::Number(a));
                    assert(ts.len() >= 3);
                },
                None => {
                    assert(ts =~= end_pattern(end));
                },
            }
        },
        RangeModel::Multiple(_) => {},
    }
}

fn push_token<T: RangeNumber>(out: &mut Vec<PatternToken<T>>, t: PatternToken<T>)
    ensures
        final(out)@ == old(out)@.push(t),
        token_models(final(out)@) == token_models(old(out)@).push(t.model()),
{
    out.push(t);
    assert(token_models(out@) =~= token_models(old(out)@).push(t.model()));
}

fn append_tokens<T: RangeNumber>(out: &mut Vec<PatternToken<T>>, more: Vec<PatternToken<T>>)
    ensures
        token_models(final(out)@) == token_models(old(out)@) + token_models(more@),
{
    let mut i: usize = 0;
    while i < more.len()
        invariant
            i <= more@.len(),
            token_models(out@) == token_models(old(out)@) + token_models(more@.subrange(0, i as int)),
        decreases more@.len() - i,
    {
        let ghost before = out@;
        push_token(out, more[i]);
        assert(more@.subrange(0, i + 1) =~= more@.subrange(0, i as int).push(more@[i as int]));
        assert(token_models(more@.subrange(0, i + 1)) =~= token_models(
            more@.subrange(0, i as int),
        ).push(more@[i as int].model()));
        i = i + 1;
    }
    assert(more@.subrange(0, more@.len() as int) =~= more@);
}

impl<T: RangeNumber> Range<T> {
    /// The tokens of the pattern this range expands to in a `match` arm.
    #[verifier::loop_isolation(false)]
    pub fn pattern_tokens(&self) -> (r: Vec<PatternToken<T>>)
        ensures
            token_models(r@) == spec_pattern(self@),
        decreases self,
    {
        let mut out: Vec<PatternToken<T>> = Vec::new();
        match self {
            Range::Exact(n) => {
                push_token(&mut out, PatternToken::Number(*n));
            },
            Range::Bounds { start, end } => {
                if let Some(a) = start {
                    push_token(&mut out, PatternToken::Number(*a));
                }
                match end {
                    Bound::Included(e) => {
                        push_token(&mut out, PatternToken::Punct { ch: '.', joint: true });
                        push_token(&mut out, PatternToken::Punct { ch: '.', joint: true });
                        push_token(&mut out, PatternToken::Punct { ch: '=', joint: false });
                        push_token(&mut out, PatternToken::Number(*e));
                    },
                    Bound::Excluded(e) => {
                        push_token(&mut out, PatternToken::Punct { ch: '.', joint: true });
                        push_token(&mut out, PatternToken::Punct { ch: '.', joint: false });
                        push_token(&mut out, PatternToken::Number(*e));
                    },
                    Bound::Unbounded => {
                        push_token(&mut out, PatternToken::Punct { ch: '.', joint: true });
                        push_token(&mut out, PatternToken::Punct { ch: '.', joint: false });
                    },
                }
                assert(token_models(out@) =~= spec_pattern(self@));
            },
            Range::Fallback => {
                push_token(&mut out, PatternToken::Underscore);
            },
            Range::Multiple(v) => {
                let ghost ms = models_of(v@);
                proof {
                    lemma_models_of(v@);
                }
                let mut i: usize = 0;
                while i < v.len()
                    invariant
                        i <= v@.len(),
                        token_models(out@) == spec_alternatives(ms.subrange(0, i as int)),
                    decreases v@.len() - i,
                {
                    if i > 0 {
                        push_token(&mut out, PatternToken::Punct { ch: '|', joint: false });
                    }
                    proof {
                        assert(decreases_to!(*v => v[i as int]));
                        assert(decreases_to!(*self => *v));
                    }
                    let sub = v[i].pattern_tokens();
                    append_tokens(&mut out, sub);
                    proof {
                        let p = ms.subrange(0, i + 1);
                        assert(p.subrange(0, i as int) =~= ms.subrange(0, i as int));
                        assert(p[i as int] == v@[i as int]@);
                        if i == 0 {
                            assert(ms.subrange(0, 0) =~= Seq::<RangeModel>::empty());
                            assert(token_models(out@) =~= spec_alternatives(p));
                        }
                    }
                    i = i + 1;
                }
                assert(ms.subrange(0, v@.len() as int) =~= ms);
            },
        }
        out
    }
}

/// The patterns of the arms of a plural's `match`, one per range, in order.
pub fn match_arms<T: RangeNumber, V>(ranges: &[(Range<T>, V)]) -> (r: Vec<Vec<PatternToken<T>>>)
    ensures
        r@.len() == ranges@.len(),
        forall|i: int|
            0 <= i < ranges@.len() ==> token_models((#[trigger] r@[i])@) == spec_pattern(
                ranges@[i].0@,
            ),
{
    let mut arms: Vec<Vec<PatternToken<T>>> = Vec::new();
    let mut i: usize = 0;
    while i < ranges.len()
        invariant
            i <= ranges@.len(),
            arms@.len() == i,
            forall|j: int|
                0 <= j < i ==> token_models((#[trigger] arms@[j])@) == spec_pattern(ranges@[j].0@),
        decreases ranges@.len() - i,
    {
        let arm = ranges[i].0.pattern_tokens();
        arms.push(arm);
        i = i + 1;
    }
    arms
}

} // verus!
