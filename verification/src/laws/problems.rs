//! Which problem comes next, and in what order problems are shown.

use vstd::prelude::*;
#[allow(unused_imports)]
use crate::editing::{Direction, Position};
#[allow(unused_imports)]
use crate::session::documents::{marked_of, worst_first};
#[allow(unused_imports)]
use crate::session::finding::{lemma_first_start, next_start};
#[allow(unused_imports)]
use crate::session::state::{Diagnostic, Severity};

verus! {

/// Whether one place is before another.
pub open spec fn comes_before(a: Position, b: Position) -> bool {
    a.line < b.line || (a.line == b.line && a.character < b.character)
}

/// Going on, the next problem is one that starts behind the caret with none that starts between, or,
/// where none starts behind it, one with none that starts before it.
pub proof fn law_the_next_problem(list: Seq<Diagnostic>, cursor: Position, i: int)
    requires
        0 <= i < list.len(),
    ensures
        next_start(list, cursor, Direction::Next) is Some,
        ({
            let start = next_start(list, cursor, Direction::Next)->Some_0;
            &&& exists|k: int| 0 <= k < list.len() && (#[trigger] list[k]).range.start == start
            &&& comes_before(cursor, list[i].range.start) ==> comes_before(cursor, start)
                && !comes_before(list[i].range.start, start)
            &&& !comes_before(cursor, start) ==> !comes_before(list[i].range.start, start)
        }),
{
    lemma_first_start(list, Some(cursor), Direction::Next);
    lemma_first_start(list, None, Direction::Next);
}

/// Going back, the previous problem is one that starts before the caret with none that starts
/// between, or, where none starts before it, one with none that starts behind it.
pub proof fn law_the_previous_problem(list: Seq<Diagnostic>, cursor: Position, i: int)
    requires
        0 <= i < list.len(),
    ensures
        next_start(list, cursor, Direction::Prev) is Some,
        ({
            let start = next_start(list, cursor, Direction::Prev)->Some_0;
            &&& exists|k: int| 0 <= k < list.len() && (#[trigger] list[k]).range.start == start
            &&& comes_before(list[i].range.start, cursor) ==> comes_before(start, cursor)
                && !comes_before(start, list[i].range.start)
            &&& !comes_before(start, cursor) ==> !comes_before(start, list[i].range.start)
        }),
{
    lemma_first_start(list, Some(cursor), Direction::Prev);
    lemma_first_start(list, None, Direction::Prev);
}

/// How bad a problem is: the worse, the smaller.
pub open spec fn rank(severity: Severity) -> int {
    match severity {
        Severity::Error => 0,
        Severity::Warning => 1,
        Severity::Information => 2,
        Severity::Hint => 3,
    }
}

proof fn lemma_marked(list: Seq<Diagnostic>, marks: Seq<bool>, severity: Severity) -> (at: Seq<int>)
    requires
        marks.len() == list.len(),
    ensures
        at.len() == marked_of(list, marks, severity).len(),
        forall|k: int|
            0 <= k < at.len() ==> 0 <= #[trigger] at[k] < list.len() && marks[at[k]]
                && list[at[k]].severity == severity && marked_of(list, marks, severity)[k]
                == list[at[k]],
        forall|j: int, k: int| 0 <= j < k < at.len() ==> #[trigger] at[j] < #[trigger] at[k],
        forall|i: int|
            0 <= i < list.len() && marks[i] && (#[trigger] list[i]).severity == severity
                ==> at.contains(i),
    decreases list.len(),
{
    if list.len() == 0 {
        Seq::empty()
    } else {
        let rest = list.drop_last();
        let before = lemma_marked(rest, marks.drop_last(), severity);
        let n = list.len() - 1;
        let taken = marks.last() && list.last().severity == severity;
        let at = if taken {
            before.push(n)
        } else {
            before
        };
        assert forall|k: int| 0 <= k < at.len() implies 0 <= #[trigger] at[k] < list.len()
            && marks[at[k]] && list[at[k]].severity == severity && marked_of(
            list,
            marks,
            severity,
        )[k] == list[at[k]] by {
            if k < before.len() {
                assert(at[k] == before[k]);
                assert(rest[before[k]] == list[before[k]]);
                assert(marks.drop_last()[before[k]] == marks[before[k]]);
            }
        }
        assert forall|j: int, k: int| 0 <= j < k < at.len() implies #[trigger] at[j]
            < #[trigger] at[k] by {
            assert(at[j] == before[j]);
            if k < before.len() {
                assert(at[k] == before[k]);
            }
        }
        assert forall|i: int| 0 <= i < list.len() && marks[i] && (#[trigger] list[i]).severity
            == severity implies at.contains(i) by {
            if i < n {
                assert(rest[i] == list[i]);
                assert(marks.drop_last()[i]);
                let k = choose|k: int| 0 <= k < before.len() && before[k] == i;
                assert(at[k] == i);
            } else {
                assert(at[at.len() - 1] == n);
            }
        }
        at
    }
}

/// The problems at a place are shown with no worse one behind a better one, and those that are
/// equally bad in the order they were published in; each that is there is shown, and none that is
/// not.
pub proof fn law_the_worst_problem_comes_first(list: Seq<Diagnostic>, marks: Seq<bool>) -> (at: Seq<
    int,
>)
    requires
        marks.len() == list.len(),
    ensures
        at.len() == worst_first(list, marks).len(),
        forall|k: int|
            0 <= k < at.len() ==> 0 <= #[trigger] at[k] < list.len() && marks[at[k]]
                && worst_first(list, marks)[k] == list[at[k]],
        forall|j: int, k: int|
            0 <= j < k < at.len() ==> {
                let a = list[#[trigger] at[j]].severity;
                let b = list[#[trigger] at[k]].severity;
                rank(a) < rank(b) || (rank(a) == rank(b) && at[j] < at[k])
            },
        forall|i: int| 0 <= i < list.len() && #[trigger] marks[i] ==> at.contains(i),
{
    let a = lemma_marked(list, marks, Severity::Error);
    let b = lemma_marked(list, marks, Severity::Warning);
    let c = lemma_marked(list, marks, Severity::Information);
    let d = lemma_marked(list, marks, Severity::Hint);
    let at = a + b + c + d;
    let n = a.len();
    let m = n + b.len();
    let l = m + c.len();
    assert forall|k: int| 0 <= k < at.len() implies 0 <= #[trigger] at[k] < list.len()
        && marks[at[k]] && worst_first(list, marks)[k] == list[at[k]] && rank(
        list[at[k]].severity,
    ) == if k < n {
        0int
    } else if k < m {
        1
    } else if k < l {
        2
    } else {
        3
    } by {
        if k < n {
            assert(at[k] == a[k]);
        } else if k < m {
            assert(at[k] == b[k - n]);
        } else if k < l {
            assert(at[k] == c[k - m]);
        } else {
            assert(at[k] == d[k - l]);
        }
    }
    assert forall|j: int, k: int| 0 <= j < k < at.len() implies {
        let a = list[#[trigger] at[j]].severity;
        let b = list[#[trigger] at[k]].severity;
        rank(a) < rank(b) || (rank(a) == rank(b) && at[j] < at[k])
    } by {
        if k < n {
            assert(a[j] < a[k]);
        } else if n <= j && k < m {
            assert(b[j - n] < b[k - n]);
        } else if m <= j && k < l {
            assert(c[j - m] < c[k - m]);
        } else if l <= j {
            assert(d[j - l] < d[k - l]);
        }
    }
    assert forall|i: int| 0 <= i < list.len() && #[trigger] marks[i] implies at.contains(i) by {
        match list[i].severity {
            Severity::Error => {
                let k = choose|k: int| 0 <= k < a.len() && a[k] == i;
                assert(at[k] == i);
            },
            Severity::Warning => {
                let k = choose|k: int| 0 <= k < b.len() && b[k] == i;
                assert(at[k + n] == i);
            },
            Severity::Information => {
                let k = choose|k: int| 0 <= k < c.len() && c[k] == i;
                assert(at[k + m] == i);
            },
            Severity::Hint => {
                let k = choose|k: int| 0 <= k < d.len() && d[k] == i;
                assert(at[k + l] == i);
            },
        }
    }
    at
}

} // verus!
