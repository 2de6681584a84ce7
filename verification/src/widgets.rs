//! Selection state of a list whose rows are owned by somebody else.

use vstd::prelude::*;
use vstd::arithmetic::div_mod::lemma_fundamental_div_mod_converse;
use vstd::arithmetic::div_mod::lemma_fundamental_div_mod;
use vstd::arithmetic::div_mod::lemma_mod_bound;
use vstd::arithmetic::div_mod::lemma_mod_twice;
use vstd::arithmetic::div_mod::lemma_small_mod;

verus! {

/// The row that `next` highlights, given the row highlighted before and the
/// number `n` of rows: the first row when nothing was highlighted, else the
/// row after it, going round from the last row to the first. With no rows
/// there is nothing to highlight.
pub open spec fn next_selection(selected: Option<int>, n: int) -> Option<int> {
    if n <= 0 {
        None
    } else {
        match selected {
            None => Some(0),
            Some(i) => Some((i + 1) % n),
        }
    }
}

/// The row that `previous` highlights: the first row when nothing was
/// highlighted, the last row when the first one was, else the row before.
/// An index beyond the list is taken round the list like any other.
pub open spec fn previous_selection(selected: Option<int>, n: int) -> Option<int> {
    if n <= 0 {
        None
    } else {
        match selected {
            None => Some(0),
            Some(i) => if i == 0 {
                Some(n - 1)
            } else {
                Some((i - 1) % n)
            },
        }
    }
}

/// The row that stays highlighted when the list shrinks or grows to `n`
/// rows: the same row while it exists, else the last one, and none at all in
/// an empty list.
pub open spec fn clamped_selection(selected: Option<int>, n: int) -> Option<int> {
    match selected {
        None => None,
        Some(i) => if n <= 0 {
            None
        } else if i < n {
            Some(i)
        } else {
            Some(n - 1)
        },
    }
}

/// Whether `selected` names a row of a list of `n` rows, or no row.
pub open spec fn selection_in_range(selected: Option<int>, n: int) -> bool {
    match selected {
        None => true,
        Some(i) => 0 <= i < n,
    }
}

/// The remainder of `i + 1` from the remainder of `i`.
proof fn lemma_mod_of_successor(i: int, n: int)
    requires
        0 <= i,
        0 < n,
    ensures
        (i + 1) % n == if i % n == n - 1 {
            0
        } else {
            i % n + 1
        },
{
    let q = i / n;
    let r = i % n;
    lemma_fundamental_div_mod(i, n);
    if r == n - 1 {
        assert(i + 1 == (q + 1) * n + 0) by (nonlinear_arith)
            requires
                i == n * q + r,
                r == n - 1,
        ;
        lemma_fundamental_div_mod_converse(i + 1, n, q + 1, 0);
    } else {
        assert(i + 1 == q * n + (r + 1)) by (nonlinear_arith)
            requires
                i == n * q + r,
        ;
        lemma_fundamental_div_mod_converse(i + 1, n, q, r + 1);
    }
}

/// The highlighted row of a list, if any. The list itself lives elsewhere;
/// every operation is told how many rows it currently has.
#[derive(Clone, Copy, Debug, PartialEq, Eq)]
pub struct StatefulList {
    pub selected: Option<usize>,
}

impl View for StatefulList {
    type V = Option<int>;

    open spec fn view(&self) -> Option<int> {
        match self.selected {
            None => None,
            Some(i) => Some(i as int),
        }
    }
}

impl StatefulList {
    /// A list with no row highlighted.
    pub fn new() -> (list: StatefulList)
        ensures
            list@ == None::<int>,
    {
        StatefulList { selected: None }
    }

    /// The highlighted row.
    pub fn selected(&self) -> (row: Option<usize>)
        ensures
            row == self.selected,
    {
        self.selected
    }

    /// Moves the highlight one row down in a list of `n` rows, from the last
    /// row back to the first. In an empty list the highlight is removed.
    pub fn next(&mut self, n: usize)
        ensures
            final(self)@ == next_selection(old(self)@, n as int),
            selection_in_range(final(self)@, n as int),
            n == 0 ==> final(self)@ == None::<int>,
    {
        if n == 0 {
            self.selected = None;
        } else {
            let row: usize = match self.selected {
                None => 0,
                Some(i) => {
                    let r: usize = i % n;
                    proof {
                        lemma_mod_of_successor(i as int, n as int);
                    }
                    if r == n - 1 {
                        0
                    } else {
                        r + 1
                    }
                },
            };
            self.selected = Some(row);
        }
    }

    /// Moves the highlight one row up in a list of `n` rows, from the first
    /// row round to the last. In an empty list the highlight is removed.
    pub fn previous(&mut self, n: usize)
        ensures
            final(self)@ == previous_selection(old(self)@, n as int),
            selection_in_range(final(self)@, n as int),
            n == 0 ==> final(self)@ == None::<int>,
    {
        if n == 0 {
            self.selected = None;
        } else {
            let row: usize = match self.selected {
                None => 0,
                Some(i) => if i == 0 {
                    n - 1
                } else {
                    (i - 1) % n
                },
            };
            self.selected = Some(row);
        }
    }

    /// Removes the highlight.
    pub fn unselect(&mut self)
        ensures
            final(self)@ == None::<int>,
    {
        self.selected = None;
    }

    /// Brings the highlight back into a list that now has `n` rows.
    pub fn clamp(&mut self, n: usize)
        ensures
            final(self)@ == clamped_selection(old(self)@, n as int),
            selection_in_range(final(self)@, n as int),
    {
        match self.selected {
            None => {},
            Some(i) => {
                if n == 0 {
                    self.selected = None;
                } else if i >= n {
                    self.selected = Some(n - 1);
                }
            },
        }
    }
}

/// The highlight after `k` moves down, one after the other, in a list of
/// `n` rows.
pub open spec fn next_repeated(selected: Option<int>, n: int, k: nat) -> Option<int>
    decreases k,
{
    if k == 0 {
        selected
    } else {
        next_selection(next_repeated(selected, n, (k - 1) as nat), n)
    }
}

/// Starting without a highlight, `k + 1` moves down end on row `k mod n`: the
/// highlight walks down the list and starts again at the top after the last
/// row.
pub proof fn lemma_next_goes_round(n: int, k: nat)
    requires
        0 < n,
    ensures
        next_repeated(None, n, k + 1) == Some(k as int % n),
    decreases k,
{
    assert(next_repeated(None, n, 1) == next_selection(next_repeated(None, n, 0), n));
    if k == 0 {
        lemma_small_mod(0, n as nat);
    } else {
        let before = (k - 1) as nat;
        lemma_next_goes_round(n, before);
        lemma_mod_bound(before as int, n);
        lemma_mod_of_successor(before as int % n, n);
        lemma_mod_of_successor(before as int, n);
        lemma_mod_twice(before as int, n);
    }
}

/// On a row of the list, a move down and a move up undo each other, in
/// either order: the list is a ring.
pub proof fn lemma_moves_undo_each_other(i: int, n: int)
    requires
        0 <= i < n,
    ensures
        previous_selection(next_selection(Some(i), n), n) == Some(i),
        next_selection(previous_selection(Some(i), n), n) == Some(i),
{
    lemma_mod_of_successor(i, n);
    lemma_small_mod(i as nat, n as nat);
    if i > 0 {
        lemma_small_mod((i - 1) as nat, n as nat);
    } else {
        lemma_mod_of_successor(n - 1, n);
        lemma_small_mod((n - 1) as nat, n as nat);
    }
}

} // verus!
