//! Character-level helpers: whitespace trimming, splitting and decimal
//! integer parsing, each with the specification it is proved against.
use vstd::prelude::*;
use vstd::std_specs::iter::IteratorSpec;

verus! {

/// The Unicode `White_Space` property, which `char::is_whitespace` tests.
pub open spec fn is_space(c: char) -> bool {
    let n = c as u32;
    ||| 9 <= n <= 13
    ||| n == 32
    ||| n == 0x85
    ||| n == 0xa0
    ||| n == 0x1680
    ||| 0x2000 <= n <= 0x200a
    ||| n == 0x2028
    ||| n == 0x2029
    ||| n == 0x202f
    ||| n == 0x205f
    ||| n == 0x3000
}

/// `s` without its leading whitespace.
pub open spec fn trim_start(s: Seq<char>) -> Seq<char>
    decreases s.len(),
{
    if s.len() > 0 && is_space(s[0]) {
        trim_start(s.drop_first())
    } else {
        s
    }
}

/// `s` without its trailing whitespace.
pub open spec fn trim_end(s: Seq<char>) -> Seq<char>
    decreases s.len(),
{
    if s.len() > 0 && is_space(s.last()) {
        trim_end(s.drop_last())
    } else {
        s
    }
}

/// `s` without leading and trailing whitespace, as `str::trim` gives it.
pub open spec fn trim(s: Seq<char>) -> Seq<char> {
    trim_end(trim_start(s))
}

/// The pieces of `s` between occurrences of `c`, as `str::split` with a
/// `char` pattern yields them (an empty `s` gives one empty piece).
pub open spec fn split_on(s: Seq<char>, c: char) -> Seq<Seq<char>>
    decreases s.len(),
{
    if s.len() == 0 {
        seq![Seq::<char>::empty()]
    } else {
        let p = split_on(s.drop_last(), c);
        if s.last() == c {
            p.push(Seq::<char>::empty())
        } else {
            p.update(p.len() - 1, p.last().push(s.last()))
        }
    }
}

/// Whether `s` holds the two characters `..` starting at index `i`.
pub open spec fn dots_at(s: Seq<char>, i: int) -> bool {
    0 <= i && i + 1 < s.len() && s[i] == '.' && s[i + 1] == '.'
}

/// The first index at which `..` starts in `s`, if any.
pub open spec fn find_dots(s: Seq<char>) -> Option<int> {
    if exists|i: int| dots_at(s, i) {
        Some(choose|i: int| dots_at(s, i) && forall|j: int| 0 <= j < i ==> !dots_at(s, j))
    } else {
        None
    }
}

pub open spec fn is_digit(c: char) -> bool {
    48 <= (c as u32) <= 57
}

pub open spec fn all_digits(s: Seq<char>) -> bool {
    forall|i: int| 0 <= i < s.len() ==> is_digit(#[trigger] s[i])
}

/// The value of the decimal digits `s`, most significant first.
pub open spec fn digits_value(s: Seq<char>) -> int
    decreases s.len(),
{
    if s.len() == 0 {
        0
    } else {
        digits_value(s.drop_last()) * 10 + ((s.last() as u32) - 48)
    }
}

/// What `str::parse` gives for an integer type whose values are
/// `min..=max`: an optional sign (`-` only where the type is signed)
/// followed by at least one ASCII digit, and a value within the type.
pub open spec fn parse_integer(s: Seq<char>, min: int, max: int) -> Option<int> {
    let negative = s.len() > 0 && s[0] == '-' && min < 0;
    let digits = if s.len() > 0 && (s[0] == '+' || negative) {
        s.drop_first()
    } else {
        s
    };
    if digits.len() == 0 || !all_digits(digits) {
        None
    } else {
        let v = if negative {
            -digits_value(digits)
        } else {
            digits_value(digits)
        };
        if min <= v <= max {
            Some(v)
        } else {
            None
        }
    }
}

pub fn is_space_char(c: char) -> (b: bool)
    ensures
        b == is_space(c),
{
    let n = c as u32;
    (9 <= n && n <= 13) || n == 32 || n == 0x85 || n == 0xa0 || n == 0x1680 || (0x2000 <= n && n
        <= 0x200a) || n == 0x2028 || n == 0x2029 || n == 0x202f || n == 0x205f || n == 0x3000
}

/// The characters of `s`, in order.
pub fn to_chars(s: &str) -> (r: Vec<char>)
    ensures
        r@ == s@,
{
    let mut r: Vec<char> = Vec::new();
    broadcast use vstd::string::group_string_axioms;
    for c in iter: s.chars()
        invariant
            iter.seq() == s@,
            r@ == iter.seq().take(iter.index() as int),
    {
        r.push(c);
    }
    r
}

/// The characters `s[a..b]`, copied.
pub fn copy_range(s: &[char], a: usize, b: usize) -> (r: Vec<char>)
    requires
        a <= b <= s@.len(),
    ensures
        r@ == s@.subrange(a as int, b as int),
{
    let mut r: Vec<char> = Vec::new();
    let mut i = a;
    while i < b
        invariant
            a <= i <= b <= s@.len(),
            r@ == s@.subrange(a as int, i as int),
        decreases b - i,
    {
        r.push(s[i]);
        i = i + 1;
        proof {
            assert(r@ =~= s@.subrange(a as int, i as int));
        }
    }
    r
}

pub proof fn lemma_trim_start_skip(s: Seq<char>, k: int)
    requires
        0 <= k <= s.len(),
        forall|i: int| 0 <= i < k ==> is_space(#[trigger] s[i]),
        k == s.len() || !is_space(s[k]),
    ensures
        trim_start(s) == s.skip(k),
    decreases k,
{
    if k == 0 {
        assert(s.skip(0) =~= s);
    } else {
        assert(is_space(s[0]));
        let t = s.drop_first();
        assert forall|i: int| 0 <= i < k - 1 implies is_space(#[trigger] t[i]) by {
            assert(t[i] == s[i + 1]);
        }
        lemma_trim_start_skip(t, k - 1);
        assert(t.skip(k - 1) =~= s.skip(k));
    }
}

pub proof fn lemma_trim_end_take(s: Seq<char>, k: int)
    requires
        0 <= k <= s.len(),
        forall|i: int| k <= i < s.len() ==> is_space(#[trigger] s[i]),
        k == 0 || !is_space(s[k - 1]),
    ensures
        trim_end(s) == s.take(k),
    decreases s.len() - k,
{
    if k == s.len() {
        assert(s.take(k) =~= s);
        if s.len() > 0 {
            assert(s.last() == s[k - 1]);
        }
    } else {
        assert(is_space(s.last()));
        let t = s.drop_last();
        assert forall|i: int| k <= i < t.len() implies is_space(#[trigger] t[i]) by {
            assert(t[i] == s[i]);
        }
        if k > 0 {
            assert(t[k - 1] == s[k - 1]);
        }
        lemma_trim_end_take(t, k);
        assert(t.take(k) =~= s.take(k));
    }
}

/// `s` without leading and trailing whitespace.
pub fn trim_chars(s: &[char]) -> (r: Vec<char>)
    ensures
        r@ == trim(s@),
{
    let n = s.len();
    let mut a: usize = 0;
    while a < n && is_space_char(s[a])
        invariant
            a <= n == s@.len(),
            forall|i: int| 0 <= i < a ==> is_space(#[trigger] s@[i]),
        decreases n - a,
    {
        a = a + 1;
    }
    let mut b: usize = n;
    while b > a && is_space_char(s[b - 1])
        invariant
            a <= b <= n == s@.len(),
            forall|i: int| b <= i < n ==> is_space(#[trigger] s@[i]),
        decreases b - a,
    {
        b = b - 1;
    }
    proof {
        lemma_trim_start_skip(s@, a as int);
        let u = s@.skip(a as int);
        assert forall|i: int| b - a <= i < u.len() implies is_space(#[trigger] u[i]) by {
            assert(u[i] == s@[a + i]);
        }
        if b - a > 0 {
            assert(u[b - a - 1] == s@[b - 1]);
        }
        lemma_trim_end_take(u, (b - a) as int);
        assert(u.take((b - a) as int) =~= s@.subrange(a as int, b as int));
    }
    copy_range(s, a, b)
}

/// `s` without leading whitespace.
pub fn trim_start_chars(s: &[char]) -> (r: Vec<char>)
    ensures
        r@ == trim_start(s@),
{
    let n = s.len();
    let mut a: usize = 0;
    while a < n && is_space_char(s[a])
        invariant
            a <= n == s@.len(),
            forall|i: int| 0 <= i < a ==> is_space(#[trigger] s@[i]),
        decreases n - a,
    {
        a = a + 1;
    }
    proof {
        lemma_trim_start_skip(s@, a as int);
        assert(s@.skip(a as int) =~= s@.subrange(a as int, n as int));
    }
    copy_range(s, a, n)
}

pub proof fn lemma_digits_value_nonneg(s: Seq<char>)
    requires
        all_digits(s),
    ensures
        digits_value(s) >= 0,
    decreases s.len(),
{
    if s.len() > 0 {
        assert(is_digit(s[s.len() - 1]));
        lemma_digits_value_nonneg(s.drop_last());
    }
}

/// A prefix of a run of digits has no greater value than the whole run.
pub proof fn lemma_digits_value_prefix(s: Seq<char>, k: int)
    requires
        all_digits(s),
        0 <= k <= s.len(),
    ensures
        digits_value(s.take(k)) <= digits_value(s),
    decreases s.len(),
{
    if k == s.len() {
        assert(s.take(k) =~= s);
    } else {
        let t = s.drop_last();
        assert(is_digit(s[s.len() - 1]));
        lemma_digits_value_nonneg(t);
        lemma_digits_value_prefix(t, k);
        assert(t.take(k) =~= s.take(k));
    }
}

/// Parses `s` as `str::parse` parses an integer type whose values are
/// `min..=max`.
#[verifier::loop_isolation(false)]
pub fn parse_integer_chars(s: &[char], min: i128, max: i128) -> (r: Option<i128>)
    requires
        -0x1_0000_0000_0000_0000 <= min <= 0 < max <= 0x1_0000_0000_0000_0000,
    ensures
        match r {
            Some(v) => parse_integer(s@, min as int, max as int) == Some(v as int),
            None => parse_integer(s@, min as int, max as int) is None,
        },
{
    let n = s.len();
    let negative = n > 0 && s[0] == '-' && min < 0;
    let start: usize = if n > 0 && (s[0] == '+' || negative) {
        1
    } else {
        0
    };
    let ghost digits = if n > 0 && (s@[0] == '+' || negative) {
        s@.drop_first()
    } else {
        s@
    };
    assert(digits =~= s@.skip(start as int));
    if start == n {
        return None;
    }
    let limit: i128 = if negative {
        -min
    } else {
        max
    };
    let mut acc: i128 = 0;
    let mut i: usize = start;
    while i < n
        invariant
            start <= i <= n == s@.len(),
            digits == s@.skip(start as int),
            0 <= acc <= limit <= 0x1_0000_0000_0000_0000,
            all_digits(digits.take(i - start)),
            acc == digits_value(digits.take(i - start)),
        decreases n - i,
    {
        let c = s[i];
        let d = c as u32;
        if d < 48 || d > 57 {
            proof {
                assert(digits[i - start] == c);
                assert(!is_digit(digits[i - start]));
                assert(!all_digits(digits));
            }
            return None;
        }
        let ghost prev = digits.take(i - start);
        let ghost next = digits.take(i - start + 1);
        assert(next.drop_last() =~= prev);
        assert(next.last() == c);
        acc = acc * 10 + (d - 48) as i128;
        i = i + 1;
        assert(all_digits(next)) by {
            assert forall|j: int| 0 <= j < next.len() implies is_digit(#[trigger] next[j]) by {
                if j < next.len() - 1 {
                    assert(next[j] == prev[j]);
                }
            }
        }
        if acc > limit {
            proof {
                assert(i - start <= digits.len());
                if all_digits(digits) {
                    lemma_digits_value_prefix(digits, i - start);
                    assert(digits_value(digits) > limit);
                }
            }
            return None;
        }
    }
    assert(digits.take(n - start) =~= digits);
    if negative {
        Some(-acc)
    } else {
        Some(acc)
    }
}

/// The first index at which `..` starts in `s`, if any.
pub fn find_dots_chars(s: &[char]) -> (r: Option<usize>)
    ensures
        match r {
            Some(i) => find_dots(s@) == Some(i as int),
            None => find_dots(s@) is None,
        },
{
    let n = s.len();
    let mut i: usize = 0;
    while i < n
        invariant
            i <= n == s@.len(),
            forall|j: int| 0 <= j < i ==> !dots_at(s@, j),
        decreases n - i,
    {
        if i + 1 < n && s[i] == '.' && s[i + 1] == '.' {
            proof {
                assert(dots_at(s@, i as int));
                let k = choose|k: int| dots_at(s@, k) && forall|j: int| 0 <= j < k ==> !dots_at(s@, j);
                assert(dots_at(s@, k) && forall|j: int| 0 <= j < k ==> !dots_at(s@, j));
                if k < i {
                } else if k > i {
                    assert(!dots_at(s@, i as int));
                }
            }
            return Some(i);
        }
        i = i + 1;
    }
    proof {
        assert forall|j: int| !dots_at(s@, j) by {
            if 0 <= j < i {
            }
        }
    }
    None
}

pub proof fn lemma_split_on_nonempty(s: Seq<char>, c: char)
    ensures
        split_on(s, c).len() >= 1,
    decreases s.len(),
{
    if s.len() > 0 {
        lemma_split_on_nonempty(s.drop_last(), c);
    }
}

/// The pieces of `s` between occurrences of `c`.
pub fn split_chars(s: &[char], c: char) -> (r: Vec<Vec<char>>)
    ensures
        r@.len() == split_on(s@, c).len(),
        forall|k: int| 0 <= k < r@.len() ==> (#[trigger] r@[k])@ == split_on(s@, c)[k],
{
    let n = s.len();
    let mut pieces: Vec<Vec<char>> = Vec::new();
    let mut current: Vec<char> = Vec::new();
    let mut i: usize = 0;
    while i < n
        invariant
            i <= n == s@.len(),
            pieces@.len() + 1 == split_on(s@.take(i as int), c).len(),
            forall|k: int|
                0 <= k < pieces@.len() ==> (#[trigger] pieces@[k])@ == split_on(
                    s@.take(i as int),
                    c,
                )[k],
            current@ == split_on(s@.take(i as int), c).last(),
        decreases n - i,
    {
        let ghost prev = split_on(s@.take(i as int), c);
        let ghost t = s@.take(i + 1);
        assert(t.drop_last() =~= s@.take(i as int));
        assert(t.last() == s@[i as int]);
        proof {
            lemma_split_on_nonempty(s@.take(i as int), c);
        }
        if s[i] == c {
            let done = current;
            pieces.push(done);
            current = Vec::new();
        } else {
            current.push(s[i]);
        }
        i = i + 1;
    }
    assert(s@.take(n as int) =~= s@);
    pieces.push(current);
    pieces
}

pub proof fn lemma_trim_start_shape(s: Seq<char>)
    ensures
        trim_start(s).len() <= s.len(),
        trim_start(s).len() == 0 || !is_space(trim_start(s)[0]),
        forall|i: int|
            0 <= i < trim_start(s).len() ==> trim_start(s)[i] == s[i + (s.len() - trim_start(
                s,
            ).len())],
    decreases s.len(),
{
    if s.len() > 0 && is_space(s[0]) {
        let t = s.drop_first();
        lemma_trim_start_shape(t);
        assert forall|i: int| 0 <= i < trim_start(s).len() implies trim_start(s)[i] == s[i + (
        s.len() - trim_start(s).len())] by {
            assert(trim_start(s)[i] == t[i + (t.len() - trim_start(t).len())]);
        }
    }
}

pub proof fn lemma_trim_end_shape(s: Seq<char>)
    ensures
        trim_end(s).len() <= s.len(),
        forall|i: int| 0 <= i < trim_end(s).len() ==> trim_end(s)[i] == s[i],
        trim_end(s).len() == 0 || !is_space(trim_end(s).last()),
    decreases s.len(),
{
    if s.len() > 0 && is_space(s.last()) {
        let t = s.drop_last();
        lemma_trim_end_shape(t);
        assert forall|i: int| 0 <= i < trim_end(s).len() implies trim_end(s)[i] == s[i] by {
            assert(trim_end(s)[i] == t[i]);
        }
    }
}

/// Trimming twice is trimming once.
pub proof fn lemma_trim_idempotent(s: Seq<char>)
    ensures
        trim(trim(s)) == trim(s),
{
    let u = trim_start(s);
    lemma_trim_start_shape(s);
    lemma_trim_end_shape(u);
    let r = trim_end(u);
    if r.len() > 0 {
        assert(r[0] == u[0]);
    }
    assert(trim_start(r) == r);
    assert(trim_end(r) == r);
}

pub proof fn lemma_split_on_pieces(s: Seq<char>, c: char)
    ensures
        split_on(s, c).len() >= 1,
        s.contains(c) ==> split_on(s, c).len() >= 2,
        forall|i: int| 0 <= i < split_on(s, c).len() ==> !(#[trigger] split_on(s, c)[i]).contains(c),
    decreases s.len(),
{
    if s.len() > 0 {
        let t = s.drop_last();
        lemma_split_on_pieces(t, c);
        let p = split_on(t, c);
        if s.contains(c) && s.last() != c {
            let k = choose|k: int| 0 <= k < s.len() && s[k] == c;
            assert(t[k] == c);
        }
        let q = split_on(s, c);
        assert forall|i: int| 0 <= i < q.len() implies !(#[trigger] q[i]).contains(c) by {
            if s.last() == c {
                if i < p.len() {
                    assert(q[i] == p[i]);
                } else {
                    assert(q[i] =~= Seq::<char>::empty());
                }
            } else if i < p.len() - 1 {
                assert(q[i] == p[i]);
            } else {
                let piece = p.last();
                assert(!p[p.len() - 1].contains(c));
                assert(q[i] == piece.push(s.last()));
                if q[i].contains(c) {
                    let k = choose|k: int| 0 <= k < q[i].len() && q[i][k] == c;
                    if k < piece.len() {
                        assert(piece[k] == c);
                    }
                }
            }
        }
    }
}

/// Trimming only removes characters.
pub proof fn lemma_trim_contains(s: Seq<char>, c: char)
    ensures
        trim(s).contains(c) ==> s.contains(c),
{
    let u = trim_start(s);
    lemma_trim_start_shape(s);
    lemma_trim_end_shape(u);
    if trim(s).contains(c) {
        let k = choose|k: int| 0 <= k < trim(s).len() && trim(s)[k] == c;
        assert(u[k] == c);
        assert(s[k + (s.len() - u.len())] == c);
    }
}

} // verus!
