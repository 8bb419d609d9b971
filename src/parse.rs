//! The range-expression grammar and its parser.
use vstd::prelude::*;

use crate::interval::{FilterError, Interval};

verus! {

pub open spec fn is_digit(c: char) -> bool {
    '0' <= c && c <= '9'
}

pub open spec fn digit_value(c: char) -> int {
    (c as int) - ('0' as int)
}

pub open spec fn all_digits(s: Seq<char>) -> bool {
    forall|i: int| 0 <= i < s.len() ==> is_digit(#[trigger] s[i])
}

/// The number that the decimal digits `s` write, most significant first.
pub open spec fn value_of(s: Seq<char>) -> int
    decreases s.len(),
{
    if s.len() == 0 {
        0
    } else {
        value_of(s.drop_last()) * 10 + digit_value(s.last())
    }
}

/// `s` is a non-empty run of decimal digits whose value fits in `usize`.
pub open spec fn is_number(s: Seq<char>) -> bool {
    s.len() > 0 && all_digits(s) && value_of(s) <= usize::MAX
}

/// One less than `n`, but never below zero.
pub open spec fn pred(n: int) -> int {
    if n <= 0 {
        0
    } else {
        n - 1
    }
}

/// `n` dots stand in `s` from index `i` on.
pub open spec fn dots_at(s: Seq<char>, i: int, n: int) -> bool {
    0 <= i && i + n <= s.len() && forall|j: int| i <= j < i + n ==> #[trigger] s[j] == '.'
}

/// The first index, from `i` on, where `n` dots stand in `s`.
pub open spec fn find_dots(s: Seq<char>, n: int, i: int) -> Option<int>
    decreases s.len() - i,
{
    if i < 0 || i + n > s.len() {
        None
    } else if dots_at(s, i, n) {
        Some(i)
    } else if i < s.len() {
        find_dots(s, n, i + 1)
    } else {
        None
    }
}

/// The interval that the bounds `a` and `b` around a separator stand for; an
/// empty bound is open. With `inclusive` the end `b` is itself selected.
pub open spec fn bounded(a: Seq<char>, b: Seq<char>, inclusive: bool) -> Option<Interval> {
    if (a.len() == 0 || is_number(a)) && (b.len() == 0 || is_number(b)) {
        let start = if a.len() == 0 { 0 } else { pred(value_of(a)) };
        let end = if b.len() == 0 {
            usize::MAX as int
        } else if inclusive {
            value_of(b)
        } else {
            pred(value_of(b))
        };
        if start <= end {
            Some(Interval { start: start as usize, end: end as usize })
        } else {
            None
        }
    } else {
        None
    }
}

/// What the expression `s` means: `A...B` (both ends selected), else `A..B`
/// (end excluded), else a single line number `N`. The empty expression
/// selects everything.
pub open spec fn interval_of(s: Seq<char>) -> Option<Interval> {
    match find_dots(s, 3, 0) {
        Some(i) => bounded(s.take(i), s.skip(i + 3), true),
        None => match find_dots(s, 2, 0) {
            Some(i) => bounded(s.take(i), s.skip(i + 2), false),
            None => if s.len() == 0 {
                Some(Interval { start: 0, end: usize::MAX })
            } else if is_number(s) {
                Some(Interval { start: pred(value_of(s)) as usize, end: value_of(s) as usize })
            } else {
                None
            },
        },
    }
}

/// The parser's answer for an expression whose meaning is `o`.
pub open spec fn parse_result(o: Option<Interval>) -> Result<Interval, FilterError> {
    match o {
        Some(iv) => Ok(iv),
        None => Err(FilterError::InvalidRangeSyntax),
    }
}

pub proof fn lemma_value_nonneg(s: Seq<char>)
    requires
        all_digits(s),
    ensures
        value_of(s) >= 0,
    decreases s.len(),
{
    if s.len() > 0 {
        lemma_value_nonneg(s.drop_last());
    }
}

/// A prefix of a run of digits is worth no more than the whole.
proof fn lemma_prefix_value_le(s: Seq<char>, k: int)
    requires
        all_digits(s),
        0 <= k <= s.len(),
    ensures
        value_of(s.take(k)) <= value_of(s),
    decreases s.len(),
{
    if k < s.len() {
        assert(s.drop_last().take(k) =~= s.take(k));
        lemma_prefix_value_le(s.drop_last(), k);
        lemma_value_nonneg(s.drop_last());
    } else {
        assert(s.take(k) =~= s);
    }
}

fn chars_of(s: &str) -> (r: Vec<char>)
    ensures
        r@ == s@,
{
    let n = s.unicode_len();
    let mut r: Vec<char> = Vec::new();
    let mut i: usize = 0;
    while i < n
        invariant
            n == s@.len(),
            i <= n,
            r@ == s@.take(i as int),
        decreases n - i,
    {
        r.push(s.get_char(i));
        i += 1;
        assert(r@ =~= s@.take(i as int));
    }
    assert(r@ =~= s@);
    r
}

/// The number written by `cs[lo..hi]`, if it is one.
fn parse_number(cs: &Vec<char>, lo: usize, hi: usize) -> (r: Option<usize>)
    requires
        lo <= hi <= cs@.len(),
    ensures
        r == (if is_number(cs@.subrange(lo as int, hi as int)) {
            Some(value_of(cs@.subrange(lo as int, hi as int)) as usize)
        } else {
            None::<usize>
        }),
        r matches Some(v) ==> v as int == value_of(cs@.subrange(lo as int, hi as int)),
{
    let ghost s = cs@.subrange(lo as int, hi as int);
    if lo == hi {
        return None;
    }
    let mut v: usize = 0;
    let mut k: usize = lo;
    while k < hi
        invariant
            lo <= k <= hi <= cs@.len(),
            s == cs@.subrange(lo as int, hi as int),
            all_digits(s.take(k - lo)),
            v as int == value_of(s.take(k - lo)),
        decreases hi - k,
    {
        let c = cs[k];
        assert(s[k - lo] == c);
        if !('0' <= c && c <= '9') {
            return None;
        }
        let ghost before = s.take(k - lo);
        let ghost after = s.take(k - lo + 1);
        assert(after.drop_last() =~= before);
        assert(all_digits(after));
        let d = (c as u32 - '0' as u32) as usize;
        let next = match v.checked_mul(10) {
            Some(t) => t.checked_add(d),
            None => None,
        };
        match next {
            Some(t) => {
                v = t;
            },
            None => {
                proof {
                    assert(value_of(after) > usize::MAX);
                    if all_digits(s) {
                        lemma_prefix_value_le(s, k - lo + 1);
                    }
                }
                return None;
            },
        }
        k += 1;
    }
    assert(s.take(hi - lo) =~= s);
    proof {
        lemma_value_nonneg(s);
    }
    Some(v)
}

/// Whether `n` dots stand in `cs` from index `i` on.
fn dots_at_exec(cs: &Vec<char>, i: usize, n: usize) -> (r: bool)
    requires
        i <= cs@.len(),
    ensures
        r == dots_at(cs@, i as int, n as int),
{
    if n > cs.len() - i {
        return false;
    }
    let mut j: usize = 0;
    while j < n
        invariant
            i + n <= cs.len(),
            j <= n,
            forall|t: int| i <= t < i + j ==> #[trigger] cs@[t] == '.',
        decreases n - j,
    {
        if cs[i + j] != '.' {
            return false;
        }
        j += 1;
    }
    true
}

/// The first index where `n` dots stand in `cs`.
fn find_dots_exec(cs: &Vec<char>, n: usize) -> (r: Option<usize>)
    requires
        n >= 1,
    ensures
        match r {
            Some(i) => find_dots(cs@, n as int, 0) == Some(i as int) && dots_at(
                cs@,
                i as int,
                n as int,
            ),
            None => find_dots(cs@, n as int, 0) is None,
        },
{
    let mut i: usize = 0;
    while i < cs.len()
        invariant
            n >= 1,
            i <= cs@.len(),
            find_dots(cs@, n as int, 0) == find_dots(cs@, n as int, i as int),
        decreases cs@.len() - i,
    {
        if dots_at_exec(cs, i, n) {
            return Some(i);
        }
        i += 1;
    }
    None
}

/// Both bounds around the separator `cs[sep..sep + width]`.
fn parse_bounded(cs: &Vec<char>, sep: usize, width: usize, inclusive: bool) -> (r: Result<
    Interval,
    FilterError,
>)
    requires
        sep + width <= cs@.len(),
    ensures
        r == parse_result(
            bounded(cs@.take(sep as int), cs@.skip(sep + width), inclusive),
        ),
{
    let ghost a = cs@.take(sep as int);
    let ghost b = cs@.skip(sep + width);
    assert(a =~= cs@.subrange(0, sep as int));
    assert(b =~= cs@.subrange(sep + width, cs@.len() as int));
    let len = cs.len();
    let start: usize = if sep == 0 {
        0
    } else {
        match parse_number(cs, 0, sep) {
            Some(v) => if v == 0 {
                0
            } else {
                v - 1
            },
            None => return Err(FilterError::InvalidRangeSyntax),
        }
    };
    let end: usize = if sep + width == len {
        usize::MAX
    } else {
        match parse_number(cs, sep + width, len) {
            Some(v) => if inclusive || v == 0 {
                v
            } else {
                v - 1
            },
            None => return Err(FilterError::InvalidRangeSyntax),
        }
    };
    if start <= end {
        Ok(Interval { start, end })
    } else {
        Err(FilterError::InvalidRangeSyntax)
    }
}

/// Parses a range expression into the half-open interval of 0-based line
/// indices it selects.
///
/// `A...B` selects lines `A` to `B`, `A..B` lines `A` to `B - 1`, and `N`
/// line `N` alone (all 1-based). An empty `A` starts at the first line, an
/// empty `B` runs to the end of the input. No whitespace is trimmed. An
/// expression that fits none of these forms, has a bound that is not a
/// decimal number fitting in `usize`, or starts after it ends is refused.
pub fn parse_range(range: &str) -> (r: Result<Interval, FilterError>)
    ensures
        r == parse_result(interval_of(range@)),
        r matches Ok(iv) ==> iv.start <= iv.end,
{
    let cs = chars_of(range);
    match find_dots_exec(&cs, 3) {
        Some(i) => parse_bounded(&cs, i, 3, true),
        None => match find_dots_exec(&cs, 2) {
            Some(i) => parse_bounded(&cs, i, 2, false),
            None => {
                if cs.len() == 0 {
                    return Ok(Interval { start: 0, end: usize::MAX });
                }
                match parse_number(&cs, 0, cs.len()) {
                    Some(v) => {
                        assert(cs@.subrange(0, cs@.len() as int) =~= cs@);
                        Ok(Interval { start: if v == 0 { 0 } else { v - 1 }, end: v })
                    },
                    None => {
                        assert(cs@.subrange(0, cs@.len() as int) =~= cs@);
                        Err(FilterError::InvalidRangeSyntax)
                    },
                }
            },
        },
    }
}

} // verus!
