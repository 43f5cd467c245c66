//! Where the lines of two texts stand side by side, and what the rows show of them.

use vstd::prelude::*;
#[allow(unused_imports)]
use crate::comparison::{
    aligned, aligned_rows, context_rows, hunk_rows, hunks_within, in_step, left_lines, left_texts,
    line_behind, right_lines, right_texts, rows_through, source_lines, ComparisonLineKind, Hunk,
    Row, Side,
};
#[allow(unused_imports)]
use crate::text::joined_with;

verus! {

/// The rows of the first hunks are the first rows: what follows them is returned.
proof fn lemma_first_rows(hunks: Seq<Hunk>, n: int) -> (below: Seq<Row>)
    requires
        0 <= n <= hunks.len(),
    ensures
        rows_through(hunks) == rows_through(hunks.take(n)) + below,
    decreases hunks.len(),
{
    if n == hunks.len() {
        assert(hunks.take(n) =~= hunks);
        let below = Seq::<Row>::empty();
        assert(rows_through(hunks) + below =~= rows_through(hunks));
        below
    } else {
        let rest = hunks.drop_last();
        let above = lemma_first_rows(rest, n);
        assert(rest.take(n) =~= hunks.take(n));
        let at = line_behind(rest);
        let hunk = hunks.last();
        let context = context_rows(
            at.0,
            at.1,
            hunk.head_start as int,
            hunk.working_start as int,
        );
        let below = above + context + hunk_rows(hunk);
        assert(rows_through(hunks) =~= rows_through(hunks.take(n)) + below);
        below
    }
}

/// The rows before a hunk, those of the unchanged lines before it included, and the hunk's own are
/// among the rows, one behind the other.
proof fn lemma_rows_of_hunk(hunks: Seq<Hunk>, lefts: int, rights: int, j: int)
    requires
        0 <= j < hunks.len(),
    ensures
        ({
            let at = line_behind(hunks.take(j));
            let above = rows_through(hunks.take(j));
            let context = context_rows(
                at.0,
                at.1,
                hunks[j].head_start as int,
                hunks[j].working_start as int,
            );
            let own = hunk_rows(hunks[j]);
            let rows = aligned_rows(hunks, lefts, rights);
            &&& (above + context + own).len() > 0 ==> rows.len() >= (above + context + own).len()
            &&& forall|k: int|
                0 <= k < (above + context + own).len() ==> #[trigger] rows[k] == (above + context
                    + own)[k]
        }),
{
    let below = lemma_first_rows(hunks, j + 1);
    let now = hunks.take(j + 1);
    assert(now.drop_last() =~= hunks.take(j));
    assert(now.last() == hunks[j]);
}

/// The lines of a hunk stand face to face from its first row on, each beside the one that is as far
/// from the hunk's start on the other side: both are modified. Where one side has run out of lines,
/// the other's are removed or added, and face a gap.
pub proof fn law_where_a_changed_line_stands(
    original: Seq<char>,
    modified: Seq<char>,
    hunks: Seq<Hunk>,
    left: Side,
    right: Side,
    j: int,
    i: int,
) -> (k: int)
    requires
        aligned(original, modified, hunks, left, right),
        hunks_within(
            hunks,
            source_lines(original).len() as int,
            source_lines(modified).len() as int,
        ),
        0 <= j < hunks.len(),
        0 <= i,
        i < hunks[j].head_end - hunks[j].head_start || i < hunks[j].working_end
            - hunks[j].working_start,
    ensures
        0 <= k < left.lines@.len(),
        left.lines@.len() == right.lines@.len(),
        ({
            let hunk = hunks[j];
            let heads = hunk.head_end - hunk.head_start;
            let works = hunk.working_end - hunk.working_start;
            let a = left.lines@[k];
            let b = right.lines@[k];
            &&& i < heads ==> a.number is Some && a.number->Some_0 == hunk.head_start + i + 1
            &&& i < works ==> b.number is Some && b.number->Some_0 == hunk.working_start + i + 1
            &&& i < heads && i < works ==> a.kind == ComparisonLineKind::Modified && b.kind
                == ComparisonLineKind::Modified
            &&& i >= works ==> a.kind == ComparisonLineKind::Removed && b.kind
                == ComparisonLineKind::Empty && b.number is None
            &&& i >= heads ==> b.kind == ComparisonLineKind::Added && a.kind
                == ComparisonLineKind::Empty && a.number is None
        }),
{
    let lefts = source_lines(original).len() as int;
    let rights = source_lines(modified).len() as int;
    let rows = aligned_rows(hunks, lefts, rights);
    let hunk = hunks[j];
    let at = line_behind(hunks.take(j));
    let above = rows_through(hunks.take(j)) + context_rows(
        at.0,
        at.1,
        hunk.head_start as int,
        hunk.working_start as int,
    );
    lemma_rows_of_hunk(hunks, lefts, rights, j);
    let k = above.len() + i;
    assert(0 <= i < hunk_rows(hunk).len());
    assert((above + hunk_rows(hunk))[k] == hunk_rows(hunk)[i]);
    assert(rows[k] == hunk_rows(hunk)[i]);
    assert(left.lines@[k] == left_lines(rows)[k]);
    assert(right.lines@[k] == right_lines(rows)[k]);
    k
}

/// A line between two hunks, before the first or behind the last stands beside the one that is as
/// far from the hunk before on the other side, and both are context.
pub proof fn law_where_an_unchanged_line_stands(
    original: Seq<char>,
    modified: Seq<char>,
    hunks: Seq<Hunk>,
    left: Side,
    right: Side,
    j: int,
    i: int,
) -> (k: int)
    requires
        aligned(original, modified, hunks, left, right),
        in_step(
            hunks,
            source_lines(original).len() as int,
            source_lines(modified).len() as int,
        ),
        source_lines(original).len() <= usize::MAX,
        source_lines(modified).len() <= usize::MAX,
        0 <= j <= hunks.len(),
        0 <= i,
        i + (if j == 0 {
            0
        } else {
            hunks[j - 1].head_end as int
        }) < (if j == hunks.len() {
            source_lines(original).len() as int
        } else {
            hunks[j].head_start as int
        }),
    ensures
        0 <= k < left.lines@.len(),
        left.lines@.len() == right.lines@.len(),
        left.lines@[k].kind == ComparisonLineKind::Context,
        right.lines@[k].kind == ComparisonLineKind::Context,
        left.lines@[k].number is Some,
        right.lines@[k].number is Some,
        left.lines@[k].number->Some_0 == i + 1 + (if j == 0 {
            0
        } else {
            hunks[j - 1].head_end as int
        }),
        right.lines@[k].number->Some_0 == i + 1 + (if j == 0 {
            0
        } else {
            hunks[j - 1].working_end as int
        }),
{
    let lefts = source_lines(original).len() as int;
    let rights = source_lines(modified).len() as int;
    let rows = aligned_rows(hunks, lefts, rights);
    let at = line_behind(hunks.take(j));
    let above = rows_through(hunks.take(j));
    let k = above.len() + i;
    if j > 0 {
        assert(hunks.take(j).last() == hunks[j - 1]);
    }
    if j < hunks.len() {
        let hunk = hunks[j];
        let context = context_rows(
            at.0,
            at.1,
            hunk.head_start as int,
            hunk.working_start as int,
        );
        lemma_rows_of_hunk(hunks, lefts, rights, j);
        assert(0 <= i < context.len());
        assert((above + context + hunk_rows(hunk))[k] == context[i]);
        assert(rows[k] == context[i]);
    } else {
        assert(hunks.take(j) =~= hunks);
        let context = context_rows(at.0, at.1, lefts, rights);
        assert(0 <= i < context.len());
        assert(rows[k] == context[i]);
    }
    assert(left.lines@[k] == left_lines(rows)[k]);
    assert(right.lines@[k] == right_lines(rows)[k]);
    k
}

/// Whether rows show lines of texts that have so many.
spec fn rows_within(rows: Seq<Row>, lefts: int, rights: int) -> bool {
    forall|k: int|
        0 <= k < rows.len() ==> {
            &&& (#[trigger] rows[k]).left is Some ==> 0 <= rows[k].left->Some_0 < lefts
            &&& rows[k].right is Some ==> 0 <= rows[k].right->Some_0 < rights
        }
}

proof fn lemma_rows_within(hunks: Seq<Hunk>, lefts: int, rights: int)
    requires
        hunks_within(hunks, lefts, rights),
    ensures
        rows_within(rows_through(hunks), lefts, rights),
    decreases hunks.len(),
{
    if hunks.len() > 0 {
        let rest = hunks.drop_last();
        assert forall|i: int| 0 <= i < rest.len() implies {
            &&& (#[trigger] rest[i]).head_start <= rest[i].head_end <= lefts
            &&& rest[i].working_start <= rest[i].working_end <= rights
        } by {
            assert(rest[i] == hunks[i]);
        }
        lemma_rows_within(rest, lefts, rights);
        assert(hunks.last() == hunks[hunks.len() - 1]);
        assert(rows_within(rows_through(hunks), lefts, rights));
    }
}

/// A side's text has one line for each of its rows: the line of the source that the row is numbered
/// after, and an empty one where the row is a gap.
pub proof fn law_a_row_shows_the_line_of_its_number(
    original: Seq<char>,
    modified: Seq<char>,
    hunks: Seq<Hunk>,
    left: Side,
    right: Side,
) -> (r: (Seq<Seq<char>>, Seq<Seq<char>>))
    requires
        aligned(original, modified, hunks, left, right),
        hunks_within(
            hunks,
            source_lines(original).len() as int,
            source_lines(modified).len() as int,
        ),
        source_lines(original).len() <= usize::MAX,
        source_lines(modified).len() <= usize::MAX,
    ensures
        r.0.len() == left.lines@.len(),
        r.1.len() == right.lines@.len(),
        left.text@ == joined_with(r.0, "\n"@),
        right.text@ == joined_with(r.1, "\n"@),
        forall|k: int|
            0 <= k < r.0.len() ==> #[trigger] r.0[k] == match left.lines@[k].number {
                Some(n) => source_lines(original)[n - 1],
                None => Seq::empty(),
            },
        forall|k: int|
            0 <= k < r.1.len() ==> #[trigger] r.1[k] == match right.lines@[k].number {
                Some(n) => source_lines(modified)[n - 1],
                None => Seq::empty(),
            },
{
    let lefts = source_lines(original);
    let rights = source_lines(modified);
    let rows = aligned_rows(hunks, lefts.len() as int, rights.len() as int);
    lemma_rows_within(hunks, lefts.len() as int, rights.len() as int);
    if hunks.len() > 0 {
        assert(hunks.last() == hunks[hunks.len() - 1]);
    }
    assert(rows_within(rows, lefts.len() as int, rights.len() as int));
    let a = left_texts(rows, lefts);
    let b = right_texts(rows, rights);
    assert forall|k: int| 0 <= k < a.len() implies #[trigger] a[k] == match left.lines@[k].number {
        Some(n) => lefts[n - 1],
        None => Seq::empty(),
    } by {
        assert(left.lines@[k] == left_lines(rows)[k]);
        assert(rows[k].left is Some ==> 0 <= rows[k].left->Some_0 < lefts.len());
    }
    assert forall|k: int| 0 <= k < b.len() implies #[trigger] b[k]
        == match right.lines@[k].number {
        Some(n) => rights[n - 1],
        None => Seq::empty(),
    } by {
        assert(right.lines@[k] == right_lines(rows)[k]);
        assert(rows[k].right is Some ==> 0 <= rows[k].right->Some_0 < rights.len());
    }
    (a, b)
}

} // verus!
