//! Properties that relate the grammar to the selection it drives.
use vstd::prelude::*;

use crate::interval::{selection, Interval};
use crate::parse::{
    all_digits, bounded, dots_at, find_dots, interval_of, is_digit, is_number, lemma_value_nonneg,
    value_of,
};
use crate::select::render;

verus! {

proof fn lemma_find_none(s: Seq<char>, n: int, i: int)
    requires
        forall|j: int| j >= i ==> !dots_at(s, j, n),
    ensures
        find_dots(s, n, i) is None,
    decreases s.len() - i,
{
    if i >= 0 && i + n <= s.len() && i < s.len() {
        lemma_find_none(s, n, i + 1);
    }
}

proof fn lemma_find_some(s: Seq<char>, n: int, i: int, k: int)
    requires
        0 <= i <= k,
        dots_at(s, k, n),
        forall|j: int| i <= j < k ==> !dots_at(s, j, n),
    ensures
        find_dots(s, n, i) == Some(k),
    decreases k - i,
{
    if i < k {
        lemma_find_some(s, n, i + 1, k);
    }
}

/// No run of dots stands in a run of digits.
proof fn lemma_digits_have_no_dots(s: Seq<char>, n: int)
    requires
        all_digits(s),
        n >= 1,
    ensures
        find_dots(s, n, 0) is None,
{
    assert forall|j: int| j >= 0 implies !dots_at(s, j, n) by {
        if dots_at(s, j, n) {
            assert(s[j] == '.');
            assert(is_digit(s[j]));
        }
    }
    lemma_find_none(s, n, 0);
}

/// A single line number `N` (1-based, at least 1) selects the `N`-th line
/// alone, or nothing where the input has fewer than `N` lines.
pub proof fn lemma_single_line<T>(s: Seq<char>, lines: Seq<T>)
    requires
        is_number(s),
        value_of(s) >= 1,
    ensures
        interval_of(s) == Some(
            Interval { start: (value_of(s) - 1) as usize, end: value_of(s) as usize },
        ),
        selection(interval_of(s).unwrap(), lines) == if value_of(s) <= lines.len() {
            seq![lines[value_of(s) - 1]]
        } else {
            Seq::<T>::empty()
        },
{
    lemma_digits_have_no_dots(s, 3);
    lemma_digits_have_no_dots(s, 2);
    let iv = interval_of(s).unwrap();
    if value_of(s) <= lines.len() {
        assert(selection(iv, lines) =~= seq![lines[value_of(s) - 1]]);
    }
}

/// With both bounds given and `B > A`, the exclusive `A..B` means the same as
/// the inclusive `A...C` where `C` is `B - 1`.
pub proof fn lemma_exclusive_as_inclusive(a: Seq<char>, b: Seq<char>, c: Seq<char>)
    requires
        is_number(a),
        is_number(b),
        is_number(c),
        value_of(b) > value_of(a),
        value_of(c) == value_of(b) - 1,
    ensures
        interval_of(a + seq!['.', '.'] + b) is Some,
        interval_of(a + seq!['.', '.'] + b) == interval_of(a + seq!['.', '.', '.'] + c),
{
    let x = a + seq!['.', '.'] + b;
    let y = a + seq!['.', '.', '.'] + c;
    let m = a.len() as int;
    assert(forall|k: int| 0 <= k < x.len() && x[k] == '.' ==> m <= k < m + 2) by {
        assert forall|k: int| 0 <= k < x.len() && x[k] == '.' implies m <= k < m + 2 by {
            if k < m {
                assert(is_digit(a[k]));
            } else if k >= m + 2 {
                assert(is_digit(b[k - m - 2]));
            }
        }
    }
    assert forall|j: int| j >= 0 implies !dots_at(x, j, 3) by {
        if dots_at(x, j, 3) {
            assert(x[j] == '.');
            assert(x[j + 2] == '.');
        }
    }
    lemma_find_none(x, 3, 0);
    assert forall|j: int| 0 <= j < m implies !dots_at(x, j, 2) by {
        assert(x[j] == a[j]);
        assert(is_digit(a[j]));
    }
    assert(dots_at(x, m, 2));
    lemma_find_some(x, 2, 0, m);
    assert forall|j: int| 0 <= j < m implies !dots_at(y, j, 3) by {
        assert(y[j] == a[j]);
        assert(is_digit(a[j]));
    }
    assert(dots_at(y, m, 3));
    lemma_find_some(y, 3, 0, m);
    assert(x.take(m) =~= a);
    assert(x.skip(m + 2) =~= b);
    assert(y.take(m) =~= a);
    assert(y.skip(m + 3) =~= c);
    lemma_value_nonneg(a);
    assert(interval_of(x) == bounded(a, b, false));
    assert(interval_of(y) == bounded(a, c, true));
}

/// Selecting `1...N` from the `N` lines that a selection produced gives
/// back those lines unchanged.
pub proof fn lemma_reselect_all<T>(iv: Interval, lines: Seq<T>, n: Seq<char>)
    requires
        is_number(n),
        value_of(n) == selection(iv, lines).len(),
    ensures
        interval_of(seq!['1', '.', '.', '.'] + n) is Some,
        selection(interval_of(seq!['1', '.', '.', '.'] + n).unwrap(), selection(iv, lines))
            == selection(iv, lines),
{
    let y = seq!['1', '.', '.', '.'] + n;
    let sel = selection(iv, lines);
    assert(!dots_at(y, 0, 3)) by {
        assert(y[0] == '1');
    }
    assert(dots_at(y, 1, 3));
    lemma_find_some(y, 3, 0, 1);
    let one = y.take(1);
    assert(one =~= seq!['1']);
    assert(one.drop_last() =~= Seq::<char>::empty());
    assert(one.last() == '1');
    assert(value_of(one.drop_last()) == 0);
    assert(value_of(one) == 1);
    assert(is_number(one));
    assert(y.skip(4) =~= n);
    assert(interval_of(y) == Some(Interval { start: 0, end: value_of(n) as usize }));
    assert(selection(interval_of(y).unwrap(), sel) =~= sel);
}

/// An expression whose start lies past the last line of the input selects
/// nothing, and so produces no output at all.
pub proof fn lemma_start_past_end(s: Seq<char>, lines: Seq<Seq<char>>)
    requires
        interval_of(s) matches Some(iv) && iv.start >= lines.len(),
    ensures
        selection(interval_of(s).unwrap(), lines) == Seq::<Seq<char>>::empty(),
        render(selection(interval_of(s).unwrap(), lines)) == Seq::<char>::empty(),
{
}

} // verus!
