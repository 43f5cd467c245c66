//! Two texts side by side, aligned so that corresponding runs occupy the same rows.

use vstd::prelude::*;
use crate::connection::strip_return;
#[allow(unused_imports)]
use crate::connection::bare;
use crate::text::{join, split_lines};
#[allow(unused_imports)]
use crate::text::{joined_with, views, yielded};

verus! {

/// The source line represented by one aligned row of a comparison.
#[derive(Debug, Clone, Copy, PartialEq, Eq, Structural)]
pub struct ComparisonLine {
    /// One-based line number in the source, or `None` for an alignment gap.
    pub number: Option<usize>,
    /// What the row means on this side of the comparison.
    pub kind: ComparisonLineKind,
}

/// How one side of a comparison should decorate an aligned row.
#[derive(Debug, Clone, Copy, PartialEq, Eq, Structural)]
pub enum ComparisonLineKind {
    Context,
    Added,
    Removed,
    Modified,
    Empty,
}

/// A run of lines that differs: the lines it takes on either side, up to but not with `end`.
#[derive(Debug, Clone, Copy, PartialEq, Eq, Structural)]
pub struct Hunk {
    pub head_start: usize,
    pub head_end: usize,
    pub working_start: usize,
    pub working_end: usize,
}

/// One aligned row: the line it shows on either side, if it shows one there, and whether it
/// belongs to a run that differs.
#[verifier::ext_equal]
pub struct Row {
    pub left: Option<int>,
    pub right: Option<int>,
    pub changed: bool,
}

/// The lines of a text, without their ends.
pub open spec fn source_lines(text: Seq<char>) -> Seq<Seq<char>> {
    let lines = yielded(text, '\n');
    Seq::new(lines.len(), |i: int| bare(lines[i]))
}

/// The smaller of two numbers.
pub open spec fn lesser(a: int, b: int) -> int {
    if a < b {
        a
    } else {
        b
    }
}

/// The rows of unchanged lines from `a` and `b` on, while both sides have them.
pub open spec fn context_rows(a: int, b: int, a_end: int, b_end: int) -> Seq<Row> {
    let n = lesser(a_end - a, b_end - b);
    Seq::new(
        if n > 0 {
            n as nat
        } else {
            0
        },
        |i: int| Row { left: Some(a + i), right: Some(b + i), changed: false },
    )
}

/// The rows of a run that differs: as many as its longer side has lines.
pub open spec fn hunk_rows(hunk: Hunk) -> Seq<Row> {
    let heads = hunk.head_end - hunk.head_start;
    let works = hunk.working_end - hunk.working_start;
    let n = if heads < works {
        works
    } else {
        heads
    };
    Seq::new(
        n as nat,
        |i: int|
            Row {
                left: if i < heads {
                    Some(hunk.head_start + i)
                } else {
                    None
                },
                right: if i < works {
                    Some(hunk.working_start + i)
                } else {
                    None
                },
                changed: true,
            },
    )
}

/// The line on either side behind the first `hunks`.
pub open spec fn line_behind(hunks: Seq<Hunk>) -> (int, int) {
    if hunks.len() == 0 {
        (0, 0)
    } else {
        (hunks.last().head_end as int, hunks.last().working_end as int)
    }
}

/// The rows up to the end of the last hunk.
pub open spec fn rows_through(hunks: Seq<Hunk>) -> Seq<Row>
    decreases hunks.len(),
{
    if hunks.len() == 0 {
        Seq::empty()
    } else {
        let at = line_behind(hunks.drop_last());
        let hunk = hunks.last();
        rows_through(hunks.drop_last()) + context_rows(
            at.0,
            at.1,
            hunk.head_start as int,
            hunk.working_start as int,
        ) + hunk_rows(hunk)
    }
}

/// Every row of the comparison. Two empty texts show one empty row.
pub open spec fn aligned_rows(hunks: Seq<Hunk>, lefts: int, rights: int) -> Seq<Row> {
    let at = line_behind(hunks);
    let rows = rows_through(hunks) + context_rows(at.0, at.1, lefts, rights);
    if rows.len() == 0 {
        seq![Row { left: None, right: None, changed: true }]
    } else {
        rows
    }
}

/// What a row is on the left.
pub open spec fn left_line(row: Row) -> ComparisonLine {
    ComparisonLine {
        number: match row.left {
            Some(i) => Some((i + 1) as usize),
            None => None,
        },
        kind: if !row.changed {
            ComparisonLineKind::Context
        } else if row.left is None {
            ComparisonLineKind::Empty
        } else if row.right is Some {
            ComparisonLineKind::Modified
        } else {
            ComparisonLineKind::Removed
        },
    }
}

/// What a row is on the right.
pub open spec fn right_line(row: Row) -> ComparisonLine {
    ComparisonLine {
        number: match row.right {
            Some(i) => Some((i + 1) as usize),
            None => None,
        },
        kind: if !row.changed {
            ComparisonLineKind::Context
        } else if row.right is None {
            ComparisonLineKind::Empty
        } else if row.left is Some {
            ComparisonLineKind::Modified
        } else {
            ComparisonLineKind::Added
        },
    }
}

/// What a row shows of `lines`.
pub open spec fn shown(line: Option<int>, lines: Seq<Seq<char>>) -> Seq<char> {
    match line {
        Some(i) => lines[i],
        None => Seq::empty(),
    }
}

/// The decorations of the left side.
pub open spec fn left_lines(rows: Seq<Row>) -> Seq<ComparisonLine> {
    Seq::new(rows.len(), |i: int| left_line(rows[i]))
}

/// The decorations of the right side.
pub open spec fn right_lines(rows: Seq<Row>) -> Seq<ComparisonLine> {
    Seq::new(rows.len(), |i: int| right_line(rows[i]))
}

/// The rows' texts on the left.
pub open spec fn left_texts(rows: Seq<Row>, lines: Seq<Seq<char>>) -> Seq<Seq<char>> {
    Seq::new(rows.len(), |i: int| shown(rows[i].left, lines))
}

/// The rows' texts on the right.
pub open spec fn right_texts(rows: Seq<Row>, lines: Seq<Seq<char>>) -> Seq<Seq<char>> {
    Seq::new(rows.len(), |i: int| shown(rows[i].right, lines))
}

/// Whether the hunks are runs of lines of texts that have so many.
pub open spec fn hunks_within(hunks: Seq<Hunk>, lefts: int, rights: int) -> bool {
    forall|i: int|
        0 <= i < hunks.len() ==> {
            &&& (#[trigger] hunks[i]).head_start <= hunks[i].head_end <= lefts
            &&& hunks[i].working_start <= hunks[i].working_end <= rights
        }
}

/// One side of a comparison.
#[derive(Debug, PartialEq, Eq)]
pub struct Side {
    /// The side's rows as one text.
    pub text: String,
    /// One entry per row.
    pub lines: Vec<ComparisonLine>,
}

/// Whether these are the sides of two texts whose hunks are these.
pub open spec fn aligned(
    original: Seq<char>,
    modified: Seq<char>,
    hunks: Seq<Hunk>,
    left: Side,
    right: Side,
) -> bool {
    let lefts = source_lines(original);
    let rights = source_lines(modified);
    let rows = aligned_rows(hunks, lefts.len() as int, rights.len() as int);
    &&& left.text@ == joined_with(left_texts(rows, lefts), "\n"@)
    &&& right.text@ == joined_with(right_texts(rows, rights), "\n"@)
    &&& left.lines@ == left_lines(rows)
    &&& right.lines@ == right_lines(rows)
}

/// Both sides while rows are added to them.
struct Builder {
    left_text: Vec<String>,
    right_text: Vec<String>,
    left_lines: Vec<ComparisonLine>,
    right_lines: Vec<ComparisonLine>,
}

impl Builder {
    spec fn shows(&self, rows: Seq<Row>, left: Seq<Seq<char>>, right: Seq<Seq<char>>) -> bool {
        &&& views(self.left_text@) == left_texts(rows, left)
        &&& views(self.right_text@) == right_texts(rows, right)
        &&& self.left_lines@ == left_lines(rows)
        &&& self.right_lines@ == right_lines(rows)
    }

    /// Adds one row.
    fn push(
        &mut self,
        left: &Vec<String>,
        right: &Vec<String>,
        at_left: Option<usize>,
        at_right: Option<usize>,
        changed: bool,
        Ghost(rows): Ghost<Seq<Row>>,
    )
        requires
            old(self).shows(rows, views(left@), views(right@)),
            at_left matches Some(i) ==> i < left.len(),
            at_right matches Some(i) ==> i < right.len(),
            !changed ==> at_left is Some && at_right is Some,
        ensures
            final(self).shows(
                rows.push(
                    Row {
                        left: match at_left {
                            Some(i) => Some(i as int),
                            None => None,
                        },
                        right: match at_right {
                            Some(i) => Some(i as int),
                            None => None,
                        },
                        changed,
                    },
                ),
                views(left@),
                views(right@),
            ),
    {
        let ghost lefts = views(self.left_text@);
        let ghost rights = views(self.right_text@);
        let left_text: String = match at_left {
            Some(i) => left[i].clone(),
            None => String::new(),
        };
        let right_text: String = match at_right {
            Some(i) => right[i].clone(),
            None => String::new(),
        };
        let ghost left_shown = left_text@;
        let ghost right_shown = right_text@;
        self.left_text.push(left_text);
        self.right_text.push(right_text);
        let left_kind: ComparisonLineKind = if !changed {
            ComparisonLineKind::Context
        } else if at_left.is_none() {
            ComparisonLineKind::Empty
        } else if at_right.is_some() {
            ComparisonLineKind::Modified
        } else {
            ComparisonLineKind::Removed
        };
        let right_kind: ComparisonLineKind = if !changed {
            ComparisonLineKind::Context
        } else if at_right.is_none() {
            ComparisonLineKind::Empty
        } else if at_left.is_some() {
            ComparisonLineKind::Modified
        } else {
            ComparisonLineKind::Added
        };
        let left_number: Option<usize> = match at_left {
            Some(i) => Some(i + 1),
            None => None,
        };
        let right_number: Option<usize> = match at_right {
            Some(i) => Some(i + 1),
            None => None,
        };
        self.left_lines.push(ComparisonLine { number: left_number, kind: left_kind });
        self.right_lines.push(ComparisonLine { number: right_number, kind: right_kind });
        proof {
            let row = Row {
                left: match at_left {
                    Some(i) => Some(i as int),
                    None => None,
                },
                right: match at_right {
                    Some(i) => Some(i as int),
                    None => None,
                },
                changed,
            };
            let now = rows.push(row);
            assert(views(self.left_text@) =~= lefts.push(left_shown));
            assert(views(self.right_text@) =~= rights.push(right_shown));
            assert(left_texts(now, views(left@)) =~= lefts.push(left_shown));
            assert(right_texts(now, views(right@)) =~= rights.push(right_shown));
            assert(self.left_lines@ =~= left_lines(now));
            assert(self.right_lines@ =~= right_lines(now));
        }
    }

    /// Adds the rows of unchanged lines.
    fn push_context(
        &mut self,
        left: &Vec<String>,
        right: &Vec<String>,
        from: (usize, usize),
        end: (usize, usize),
        Ghost(rows): Ghost<Seq<Row>>,
    )
        requires
            old(self).shows(rows, views(left@), views(right@)),
            end.0 <= left@.len(),
            end.1 <= right@.len(),
        ensures
            final(self).shows(
                rows + context_rows(from.0 as int, from.1 as int, end.0 as int, end.1 as int),
                views(left@),
                views(right@),
            ),
    {
        let ghost more = context_rows(from.0 as int, from.1 as int, end.0 as int, end.1 as int);
        let mut a: usize = from.0;
        let mut b: usize = from.1;
        assert(rows + more.take(0) =~= rows);
        while a < end.0 && b < end.1
            invariant
                end.0 <= left@.len(),
                end.1 <= right@.len(),
                from.0 <= a,
                from.1 <= b,
                a - from.0 == b - from.1,
                a - from.0 <= more.len(),
                more == context_rows(from.0 as int, from.1 as int, end.0 as int, end.1 as int),
                self.shows(rows + more.take(a - from.0), views(left@), views(right@)),
            decreases end.0 - a,
        {
            self.push(
                left,
                right,
                Some(a),
                Some(b),
                false,
                Ghost(rows + more.take(a - from.0)),
            );
            proof {
                let k = a - from.0;
                assert((rows + more.take(k)).push(more[k]) =~= rows + more.take(k + 1));
            }
            a = a + 1;
            b = b + 1;
        }
        assert(more.take(more.len() as int) =~= more);
        assert(a - from.0 == more.len());
    }

    /// Adds the rows of a run that differs.
    fn push_hunk(
        &mut self,
        left: &Vec<String>,
        right: &Vec<String>,
        hunk: &Hunk,
        Ghost(rows): Ghost<Seq<Row>>,
    )
        requires
            old(self).shows(rows, views(left@), views(right@)),
            hunk.head_start <= hunk.head_end <= left@.len(),
            hunk.working_start <= hunk.working_end <= right@.len(),
        ensures
            final(self).shows(rows + hunk_rows(*hunk), views(left@), views(right@)),
    {
        let heads: usize = hunk.head_end - hunk.head_start;
        let works: usize = hunk.working_end - hunk.working_start;
        let n: usize = if heads < works {
            works
        } else {
            heads
        };
        let ghost more = hunk_rows(*hunk);
        let mut i: usize = 0;
        assert(rows + more.take(0) =~= rows);
        while i < n
            invariant
                i <= n,
                more == hunk_rows(*hunk),
                n == more.len(),
                heads == hunk.head_end - hunk.head_start,
                works == hunk.working_end - hunk.working_start,
                hunk.head_start <= hunk.head_end <= left@.len(),
                hunk.working_start <= hunk.working_end <= right@.len(),
                self.shows(rows + more.take(i as int), views(left@), views(right@)),
            decreases n - i,
        {
            let at_left: Option<usize> = if i < heads {
                Some(hunk.head_start + i)
            } else {
                None
            };
            let at_right: Option<usize> = if i < works {
                Some(hunk.working_start + i)
            } else {
                None
            };
            self.push(left, right, at_left, at_right, true, Ghost(rows + more.take(i as int)));
            proof {
                assert((rows + more.take(i as int)).push(more[i as int]) =~= rows + more.take(
                    i + 1,
                ));
            }
            i = i + 1;
        }
        assert(more.take(more.len() as int) =~= more);
    }
}

/// The lines of a text, without their ends.
fn clean_lines(text: &str) -> (r: Vec<String>)
    ensures
        views(r@) == source_lines(text@),
{
    let pieces: Vec<String> = split_lines(text);
    let mut r: Vec<String> = Vec::new();
    let mut i: usize = 0;
    while i < pieces.len()
        invariant
            i <= pieces@.len(),
            r@.len() == i,
            forall|j: int| 0 <= j < i ==> (#[trigger] r@[j])@ == bare(pieces@[j]@),
        decreases pieces@.len() - i,
    {
        r.push(strip_return(&pieces[i]));
        i = i + 1;
    }
    proof {
        assert forall|j: int| 0 <= j < pieces@.len() implies views(pieces@)[j]
            == pieces@[j]@ by {}
        assert(views(r@) =~= source_lines(text@));
    }
    r
}

/// Aligns two texts so that corresponding changed runs occupy the same screen rows.
///
/// `hunks` are the runs that differ, in order.
pub fn comparison_rows(original: &str, modified: &str, hunks: &Vec<Hunk>) -> (r: (Side, Side))
    requires
        hunks_within(
            hunks@,
            source_lines(original@).len() as int,
            source_lines(modified@).len() as int,
        ),
    ensures
        aligned(original@, modified@, hunks@, r.0, r.1),
{
    let left: Vec<String> = clean_lines(original);
    let right: Vec<String> = clean_lines(modified);
    let mut builder: Builder = Builder {
        left_text: Vec::new(),
        right_text: Vec::new(),
        left_lines: Vec::new(),
        right_lines: Vec::new(),
    };
    let mut at: (usize, usize) = (0, 0);
    let mut i: usize = 0;
    assert(builder.shows(rows_through(hunks@.take(0)), views(left@), views(right@))) by {
        let none = rows_through(hunks@.take(0));
        assert(views(builder.left_text@) =~= left_texts(none, views(left@)));
        assert(views(builder.right_text@) =~= right_texts(none, views(right@)));
        assert(builder.left_lines@ =~= left_lines(none));
        assert(builder.right_lines@ =~= right_lines(none));
    }
    while i < hunks.len()
        invariant
            i <= hunks@.len(),
            hunks_within(hunks@, left@.len() as int, right@.len() as int),
            (at.0 as int, at.1 as int) == line_behind(hunks@.take(i as int)),
            builder.shows(rows_through(hunks@.take(i as int)), views(left@), views(right@)),
        decreases hunks@.len() - i,
    {
        let hunk: Hunk = hunks[i];
        let ghost before = rows_through(hunks@.take(i as int));
        let ghost context = context_rows(
            at.0 as int,
            at.1 as int,
            hunk.head_start as int,
            hunk.working_start as int,
        );
        builder.push_context(
            &left,
            &right,
            at,
            (hunk.head_start, hunk.working_start),
            Ghost(before),
        );
        builder.push_hunk(&left, &right, &hunk, Ghost(before + context));
        proof {
            assert(hunks@.take(i + 1).drop_last() =~= hunks@.take(i as int));
            assert(hunks@.take(i + 1).last() == hunk);
        }
        at = (hunk.head_end, hunk.working_end);
        i = i + 1;
    }
    assert(hunks@.take(hunks@.len() as int) =~= hunks@);
    let ghost through = rows_through(hunks@);
    builder.push_context(&left, &right, at, (left.len(), right.len()), Ghost(through));
    let ghost rows = through + context_rows(
        at.0 as int,
        at.1 as int,
        left@.len() as int,
        right@.len() as int,
    );
    if builder.left_lines.len() == 0 {
        assert(rows =~= Seq::<Row>::empty());
        builder.push(&left, &right, None, None, true, Ghost(rows));
        assert(rows.push(Row { left: None, right: None, changed: true }) =~= seq![
            Row { left: None, right: None, changed: true },
        ]);
    }
    (
        Side { text: join(&builder.left_text, "\n"), lines: builder.left_lines },
        Side { text: join(&builder.right_text, "\n"), lines: builder.right_lines },
    )
}

// ---------------------------------------------------------------------------
// Laws
// ---------------------------------------------------------------------------

/// Both sides have one entry for every row, so they scroll together.
pub proof fn law_both_sides_have_the_same_rows(rows: Seq<Row>)
    ensures
        left_lines(rows).len() == right_lines(rows).len(),
{
}

/// A comparison is never empty.
pub proof fn law_a_comparison_has_a_row(hunks: Seq<Hunk>, lefts: int, rights: int)
    ensures
        aligned_rows(hunks, lefts, rights).len() > 0,
{
}

/// The line that a row shows on a side, if it shows one there.
pub open spec fn line_on(row: Row, right: bool) -> Option<int> {
    if right {
        row.right
    } else {
        row.left
    }
}

/// The lines that the rows show on a side, from top to bottom.
pub open spec fn lines_on(rows: Seq<Row>, right: bool) -> Seq<int>
    decreases rows.len(),
{
    if rows.len() == 0 {
        Seq::empty()
    } else {
        let above = lines_on(rows.drop_last(), right);
        match line_on(rows.last(), right) {
            Some(line) => above.push(line),
            None => above,
        }
    }
}

/// The numbers from one up to but not with another.
pub open spec fn numbers(from: int, end: int) -> Seq<int> {
    Seq::new(
        if from < end {
            (end - from) as nat
        } else {
            0
        },
        |i: int| from + i,
    )
}

/// Whether the hunks come in order, apart, with as many unchanged lines before each on either
/// side, and behind the last.
pub open spec fn in_step(hunks: Seq<Hunk>, lefts: int, rights: int) -> bool {
    &&& hunks_within(hunks, lefts, rights)
    &&& forall|i: int|
        0 <= i < hunks.len() ==> {
            let at = line_behind(hunks.take(i));
            &&& at.0 <= (#[trigger] hunks[i]).head_start
            &&& hunks[i].head_start - at.0 == hunks[i].working_start - at.1
        }
    &&& lefts - line_behind(hunks).0 == rights - line_behind(hunks).1
}

proof fn lemma_lines_joined(a: Seq<Row>, b: Seq<Row>, right: bool)
    ensures
        lines_on(a + b, right) == lines_on(a, right) + lines_on(b, right),
    decreases b.len(),
{
    if b.len() == 0 {
        assert(a + b =~= a);
        assert(lines_on(a, right) + lines_on(b, right) =~= lines_on(a, right));
    } else {
        assert((a + b).drop_last() =~= a + b.drop_last());
        lemma_lines_joined(a, b.drop_last(), right);
        assert(lines_on(a + b, right) =~= lines_on(a, right) + lines_on(b, right));
    }
}

/// Rows whose first lines on a side count up from one number, and whose others show none there.
proof fn lemma_lines_counted(rows: Seq<Row>, right: bool, from: int, n: int)
    requires
        0 <= n <= rows.len(),
        forall|i: int|
            0 <= i < rows.len() ==> line_on(#[trigger] rows[i], right) == if i < n {
                Some(from + i)
            } else {
                None
            },
    ensures
        lines_on(rows, right) == numbers(from, from + n),
    decreases rows.len(),
{
    if rows.len() > 0 {
        let above = rows.drop_last();
        assert forall|i: int| 0 <= i < above.len() implies line_on(#[trigger] above[i], right)
            == if i < n {
            Some(from + i)
        } else {
            None
        } by {
            assert(above[i] == rows[i]);
        }
        if n == rows.len() {
            assert forall|i: int| 0 <= i < above.len() implies line_on(#[trigger] above[i], right)
                == if i < n - 1 {
                Some(from + i)
            } else {
                None
            } by {
                assert(above[i] == rows[i]);
            }
            lemma_lines_counted(above, right, from, n - 1);
            assert(line_on(rows[rows.len() - 1], right) == Some(from + n - 1));
        } else {
            lemma_lines_counted(above, right, from, n);
            assert(line_on(rows[rows.len() - 1], right) is None);
        }
        assert(lines_on(rows, right) =~= numbers(from, from + n));
    } else {
        assert(lines_on(rows, right) =~= numbers(from, from + n));
    }
}

proof fn lemma_lines_of_context(a: int, b: int, a_end: int, b_end: int, right: bool)
    requires
        a <= a_end,
        a_end - a == b_end - b,
    ensures
        lines_on(context_rows(a, b, a_end, b_end), right) == if right {
            numbers(b, b_end)
        } else {
            numbers(a, a_end)
        },
{
    let rows = context_rows(a, b, a_end, b_end);
    lemma_lines_counted(
        rows,
        right,
        if right {
            b
        } else {
            a
        },
        a_end - a,
    );
}

proof fn lemma_lines_of_hunk(hunk: Hunk, right: bool)
    requires
        hunk.head_start <= hunk.head_end,
        hunk.working_start <= hunk.working_end,
    ensures
        lines_on(hunk_rows(hunk), right) == if right {
            numbers(hunk.working_start as int, hunk.working_end as int)
        } else {
            numbers(hunk.head_start as int, hunk.head_end as int)
        },
{
    if right {
        lemma_lines_counted(
            hunk_rows(hunk),
            right,
            hunk.working_start as int,
            hunk.working_end - hunk.working_start,
        );
    } else {
        lemma_lines_counted(
            hunk_rows(hunk),
            right,
            hunk.head_start as int,
            hunk.head_end - hunk.head_start,
        );
    }
}

proof fn lemma_numbers_joined(a: int, b: int, c: int)
    requires
        a <= b <= c,
    ensures
        numbers(a, b) + numbers(b, c) == numbers(a, c),
{
    assert(numbers(a, b) + numbers(b, c) =~= numbers(a, c));
}

/// The lines of one more stretch of context, and of the hunk behind it.
proof fn lemma_lines_further(at: (int, int), rows: Seq<Row>, hunk: Hunk, right: bool)
    requires
        0 <= at.0 <= hunk.head_start <= hunk.head_end,
        0 <= at.1,
        hunk.working_start <= hunk.working_end,
        hunk.head_start - at.0 == hunk.working_start - at.1,
        lines_on(rows, right) == numbers(
            0,
            if right {
                at.1
            } else {
                at.0
            },
        ),
    ensures
        lines_on(
            rows + context_rows(
                at.0,
                at.1,
                hunk.head_start as int,
                hunk.working_start as int,
            ) + hunk_rows(hunk),
            right,
        ) == numbers(
            0,
            if right {
                hunk.working_end as int
            } else {
                hunk.head_end as int
            },
        ),
{
    let context = context_rows(at.0, at.1, hunk.head_start as int, hunk.working_start as int);
    lemma_lines_of_context(
        at.0,
        at.1,
        hunk.head_start as int,
        hunk.working_start as int,
        right,
    );
    lemma_lines_of_hunk(hunk, right);
    lemma_lines_joined(rows, context, right);
    lemma_lines_joined(rows + context, hunk_rows(hunk), right);
    if right {
        lemma_numbers_joined(0, at.1, hunk.working_start as int);
        lemma_numbers_joined(0, hunk.working_start as int, hunk.working_end as int);
    } else {
        lemma_numbers_joined(0, at.0, hunk.head_start as int);
        lemma_numbers_joined(0, hunk.head_start as int, hunk.head_end as int);
    }
}

proof fn lemma_lines_through(hunks: Seq<Hunk>, lefts: int, rights: int, n: int, right: bool)
    requires
        in_step(hunks, lefts, rights),
        0 <= n <= hunks.len(),
    ensures
        0 <= line_behind(hunks.take(n)).0,
        0 <= line_behind(hunks.take(n)).1,
        lines_on(rows_through(hunks.take(n)), right) == numbers(
            0,
            if right {
                line_behind(hunks.take(n)).1
            } else {
                line_behind(hunks.take(n)).0
            },
        ),
    decreases n,
{
    let now = hunks.take(n);
    if n == 0 {
        assert(lines_on(rows_through(now), right) =~= numbers(0, 0));
    } else {
        lemma_lines_through(hunks, lefts, rights, n - 1, right);
        assert(now.drop_last() =~= hunks.take(n - 1));
        let hunk = hunks[n - 1];
        assert(now.last() == hunk);
        let at = line_behind(hunks.take(n - 1));
        lemma_lines_further(at, rows_through(hunks.take(n - 1)), hunk, right);
    }
}

/// Where the hunks come in step, every line of both texts is shown exactly once, from the first to
/// the last.
pub proof fn law_every_line_is_shown_once(hunks: Seq<Hunk>, lefts: int, rights: int)
    requires
        0 <= lefts,
        0 <= rights,
        in_step(hunks, lefts, rights),
    ensures
        lines_on(aligned_rows(hunks, lefts, rights), false) == numbers(0, lefts),
        lines_on(aligned_rows(hunks, lefts, rights), true) == numbers(0, rights),
{
    let at = line_behind(hunks);
    let through = rows_through(hunks);
    let context = context_rows(at.0, at.1, lefts, rights);
    assert(hunks.take(hunks.len() as int) =~= hunks);
    if hunks.len() > 0 {
        assert(hunks.last() == hunks[hunks.len() - 1]);
    }
    lemma_lines_through(hunks, lefts, rights, hunks.len() as int, false);
    lemma_lines_through(hunks, lefts, rights, hunks.len() as int, true);
    lemma_lines_of_context(at.0, at.1, lefts, rights, false);
    lemma_lines_of_context(at.0, at.1, lefts, rights, true);
    lemma_lines_joined(through, context, false);
    lemma_lines_joined(through, context, true);
    lemma_numbers_joined(0, at.0, lefts);
    lemma_numbers_joined(0, at.1, rights);
    if (through + context).len() == 0 {
        let gap = seq![Row { left: None, right: None, changed: true }];
        reveal_with_fuel(lines_on, 2);
        assert(gap.drop_last() =~= Seq::<Row>::empty());
        assert(lines_on(gap, false) =~= Seq::<int>::empty());
        assert(lines_on(gap, true) =~= Seq::<int>::empty());
    }
}

/// Identical texts show each line once, on both sides, as context.
pub proof fn law_identical_texts_are_all_context(lines: int, i: int)
    requires
        0 <= i < lines,
    ensures
        aligned_rows(Seq::empty(), lines, lines).len() == lines,
        aligned_rows(Seq::empty(), lines, lines)[i] == (Row {
            left: Some(i),
            right: Some(i),
            changed: false,
        }),
{
    let rows = rows_through(Seq::<Hunk>::empty()) + context_rows(0, 0, lines, lines);
    assert(rows.len() == lines);
}

/// A row of a differing run is an addition exactly where the left side has a gap, and a removal
/// exactly where the right side has one.
pub proof fn law_a_gap_faces_an_addition_or_a_removal(row: Row)
    requires
        row.changed,
        row.left is Some || row.right is Some,
    ensures
        (right_line(row).kind == ComparisonLineKind::Added) == (left_line(row).kind
            == ComparisonLineKind::Empty),
        (left_line(row).kind == ComparisonLineKind::Removed) == (right_line(row).kind
            == ComparisonLineKind::Empty),
{
}

} // verus!
