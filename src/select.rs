//! Selecting the lines of an interval, one line at a time or over a whole
//! input, and rendering them as output text.
use vstd::prelude::*;

use crate::interval::{selection, FilterError, Interval};
use crate::parse::{interval_of, parse_range};

verus! {

/// What to do with the next line of input.
#[derive(Clone, Copy, Debug, PartialEq, Eq, Structural)]
pub enum Action {
    /// Read the line and write it out.
    Take,
    /// Read the line and drop it.
    Skip,
    /// Read no more input: every selected line has been taken.
    Stop,
}

/// The action owed to the line at 0-based index `p` for the interval `iv`.
pub open spec fn action_at(iv: Interval, p: int) -> Action {
    if p >= iv.end {
        Action::Stop
    } else if iv.holds(p) {
        Action::Take
    } else {
        Action::Skip
    }
}

/// A cursor over a stream of lines that decides, line by line, whether each
/// one is selected, and stops as soon as the interval is passed.
pub struct Selector {
    interval: Interval,
    position: usize,
}

impl Selector {
    /// The interval being selected.
    pub closed spec fn interval(&self) -> Interval {
        self.interval
    }

    /// The 0-based index of the next line of input.
    pub closed spec fn position(&self) -> int {
        self.position as int
    }

    /// A selector that has seen no line yet.
    pub fn new(interval: Interval) -> (r: Selector)
        ensures
            r.interval() == interval,
            r.position() == 0,
    {
        Selector { interval, position: 0 }
    }

    /// Decides the fate of the next line, before it is read, and moves past
    /// it unless the answer is `Stop`.
    pub fn next_action(&mut self) -> (a: Action)
        ensures
            a == action_at(old(self).interval(), old(self).position()),
            final(self).interval() == old(self).interval(),
            final(self).position() == if a == Action::Stop {
                old(self).position()
            } else {
                old(self).position() + 1
            },
    {
        if self.position >= self.interval.end {
            return Action::Stop;
        }
        let a = if self.interval.contains(self.position) {
            Action::Take
        } else {
            Action::Skip
        };
        self.position = self.position + 1;
        a
    }
}

/// The characters of each line.
pub open spec fn texts(lines: Seq<String>) -> Seq<Seq<char>> {
    lines.map_values(|l: String| l@)
}

/// The lines written one after another, each followed by a newline.
pub open spec fn render(lines: Seq<Seq<char>>) -> Seq<char>
    decreases lines.len(),
{
    if lines.len() == 0 {
        Seq::empty()
    } else {
        render(lines.drop_last()) + lines.last() + seq!['\n']
    }
}

proof fn lemma_selection_step<T>(iv: Interval, ls: Seq<T>, k: int)
    requires
        0 <= k < ls.len(),
        k < iv.end,
    ensures
        selection(iv, ls.take(k + 1)) == if iv.holds(k) {
            selection(iv, ls.take(k)).push(ls[k])
        } else {
            selection(iv, ls.take(k))
        },
{
    if iv.holds(k) {
        assert(selection(iv, ls.take(k + 1)) =~= selection(iv, ls.take(k)).push(ls[k]));
    } else {
        assert(selection(iv, ls.take(k + 1)) =~= selection(iv, ls.take(k)));
    }
}

proof fn lemma_selection_past_end<T>(iv: Interval, ls: Seq<T>, k: int)
    requires
        iv.end <= k <= ls.len(),
    ensures
        selection(iv, ls.take(k)) == selection(iv, ls),
{
    assert(selection(iv, ls.take(k)) =~= selection(iv, ls));
}

proof fn lemma_render_push(lines: Seq<Seq<char>>, l: Seq<char>)
    ensures
        render(lines.push(l)) == render(lines) + l + seq!['\n'],
{
    assert(lines.push(l).drop_last() =~= lines);
}

/// The output for the lines of `lines` that `iv` selects: each selected line
/// in its original order, followed by a newline. Input past the end of the
/// interval is not looked at.
pub fn select_lines(iv: Interval, lines: &Vec<String>) -> (out: String)
    ensures
        out@ == render(selection(iv, texts(lines@))),
{
    let ghost ls = texts(lines@);
    let mut sel = Selector::new(iv);
    let mut out = String::new();
    let mut k: usize = 0;
    let mut done = false;
    proof {
        assert(selection(iv, ls.take(0)) =~= Seq::<Seq<char>>::empty());
    }
    while k < lines.len() && !done
        invariant
            ls == texts(lines@),
            sel.interval() == iv,
            sel.position() == k,
            k <= lines.len(),
            done ==> k >= iv.end,
            out@ == render(selection(iv, ls.take(k as int))),
        decreases (lines.len() - k) * 2 + if done { 0int } else { 1int },
    {
        let a = sel.next_action();
        match a {
            Action::Stop => {
                done = true;
            },
            Action::Skip => {
                proof {
                    lemma_selection_step(iv, ls, k as int);
                }
                k += 1;
            },
            Action::Take => {
                proof {
                    reveal_strlit("\n");
                    lemma_selection_step(iv, ls, k as int);
                    lemma_render_push(selection(iv, ls.take(k as int)), ls[k as int]);
                }
                out.append(lines[k].as_str());
                out.append("\n");
                k += 1;
            },
        }
    }
    proof {
        if done {
            lemma_selection_past_end(iv, ls, k as int);
        } else {
            assert(ls.take(k as int) =~= ls);
        }
    }
    out
}

/// Runs the filter on a whole input: parses `range`, then renders the lines
/// of `lines` that it selects.
pub fn process_range(range: &str, lines: &Vec<String>) -> (r: Result<String, FilterError>)
    ensures
        match interval_of(range@) {
            Some(iv) => r matches Ok(out) && out@ == render(selection(iv, texts(lines@))),
            None => r == Err::<String, FilterError>(FilterError::InvalidRangeSyntax),
        },
{
    match parse_range(range) {
        Ok(iv) => Ok(select_lines(iv, lines)),
        Err(e) => Err(e),
    }
}

} // verus!
