//! How a stream is cut into lines, and which lines are kept.

use vstd::prelude::*;
#[allow(unused_imports)]
use crate::connection::{
    logged, recorded, silent, spoken, stream_lines, without_end, ERROR_LOG_LINES,
};
#[allow(unused_imports)]
use crate::laws::picking::{lemma_picked, picked, picks};
#[allow(unused_imports)]
use crate::text::{pieces, trim_end_of, yielded};

verus! {

proof fn lemma_pieces_nonempty<A>(s: Seq<A>, separator: A)
    ensures
        pieces(s, separator).len() > 0,
    decreases s.len(),
{
    if s.len() > 0 {
        lemma_pieces_nonempty(s.drop_last(), separator);
    }
}

proof fn lemma_one_piece<A>(a: Seq<A>, separator: A)
    requires
        forall|i: int| 0 <= i < a.len() ==> #[trigger] a[i] != separator,
    ensures
        pieces(a, separator) == seq![a],
    decreases a.len(),
{
    if a.len() == 0 {
        assert(a =~= Seq::empty());
    } else {
        let rest = a.drop_last();
        assert forall|i: int| 0 <= i < rest.len() implies #[trigger] rest[i] != separator by {
            assert(rest[i] == a[i]);
        }
        lemma_one_piece(rest, separator);
        assert(a[a.len() - 1] != separator);
        assert(rest.push(a.last()) =~= a);
        assert(pieces(a, separator) =~= seq![a]);
    }
}

proof fn lemma_pieces_go_on<A>(a: Seq<A>, separator: A, b: Seq<A>)
    requires
        forall|i: int| 0 <= i < a.len() ==> #[trigger] a[i] != separator,
    ensures
        pieces(a + seq![separator] + b, separator) == seq![a] + pieces(b, separator),
    decreases b.len(),
{
    let s = a + seq![separator] + b;
    lemma_one_piece(a, separator);
    if b.len() == 0 {
        assert(s.drop_last() =~= a);
        assert(s.last() == separator);
        assert(pieces(s, separator) =~= seq![a] + pieces(b, separator));
    } else {
        let rest = b.drop_last();
        lemma_pieces_go_on(a, separator, rest);
        assert(s.drop_last() =~= a + seq![separator] + rest);
        assert(s.last() == b.last());
        lemma_pieces_nonempty(rest, separator);
        let tail = pieces(rest, separator);
        let all = seq![a] + tail;
        assert(all.last() == tail.last());
        assert(pieces(s, separator) =~= seq![a] + pieces(b, separator));
    }
}

/// What is read up to a line end is a line, and what follows is read on its own; what follows the
/// last line end is a line only where there is anything.
pub proof fn law_each_line_end_ends_a_line<A>(a: Seq<A>, separator: A, b: Seq<A>)
    requires
        forall|i: int| 0 <= i < a.len() ==> #[trigger] a[i] != separator,
    ensures
        yielded(a + seq![separator] + b, separator) == seq![a] + yielded(b, separator),
        yielded(a, separator) == if a.len() == 0 {
            Seq::<Seq<A>>::empty()
        } else {
            seq![a]
        },
{
    lemma_pieces_go_on(a, separator, b);
    lemma_one_piece(a, separator);
    lemma_pieces_nonempty(b, separator);
    let tail = pieces(b, separator);
    let all = seq![a] + tail;
    assert(all.last() == tail.last());
    assert(yielded(a + seq![separator] + b, separator) =~= seq![a] + yielded(b, separator));
    assert(yielded(a, separator) =~= if a.len() == 0 {
        Seq::<Seq<A>>::empty()
    } else {
        seq![a]
    });
}

/// Of a line that ends in a carriage return and a line feed, or in a line feed alone, what is before
/// them is read; a carriage return elsewhere in it stays.
pub proof fn law_line_ends_of_both_kinds_are_dropped(a: Seq<u8>, b: Seq<u8>)
    requires
        forall|i: int| 0 <= i < a.len() ==> #[trigger] a[i] != 10,
        a.len() > 0 ==> a[a.len() - 1] != 13,
    ensures
        stream_lines(a + seq![10u8] + b) == seq![a] + stream_lines(b),
        stream_lines(a + seq![13u8] + seq![10u8] + b) == seq![a] + stream_lines(b),
        without_end(a + seq![10u8]) == a,
        without_end(a + seq![13u8] + seq![10u8]) == a,
        without_end(a) == a,
{
    law_each_line_end_ends_a_line(a, 10u8, b);
    let marked = a + seq![13u8];
    assert forall|i: int| 0 <= i < marked.len() implies #[trigger] marked[i] != 10 by {
        if i < a.len() {
            assert(marked[i] == a[i]);
        }
    }
    law_each_line_end_ends_a_line(marked, 10u8, b);
    let plain = a + seq![10u8] + b;
    let full = marked + seq![10u8] + b;
    if b.len() > 0 {
        assert(plain.last() == b.last());
        assert(full.last() == b.last());
    } else {
        assert(plain.last() == 10);
        assert(full.last() == 10);
        lemma_one_piece(b, 10u8);
        assert(yielded(b, 10u8) =~= Seq::<Seq<u8>>::empty());
    }
    assert(marked.drop_last() =~= a);
    assert(marked.last() == 13);
    if b.len() > 0 {
        lemma_something(b);
    }
    assert(stream_lines(plain) =~= seq![a] + stream_lines(b));
    assert(stream_lines(full) =~= seq![a] + stream_lines(b));
    assert((a + seq![10u8]).drop_last() =~= a);
    assert((marked + seq![10u8]).drop_last() =~= marked);
}

/// What is not empty is read as one line at least.
proof fn lemma_something(b: Seq<u8>)
    requires
        b.len() > 0,
    ensures
        yielded(b, 10u8).len() > 0,
{
    lemma_pieces_nonempty(b.drop_last(), 10u8);
    let all = pieces(b, 10u8);
    if b.last() != 10 {
        assert(all.last().len() > 0);
    }
}

/// Which lines say something.
pub open spec fn spoken_marks(lines: Seq<Seq<u8>>) -> Seq<bool> {
    Seq::new(lines.len(), |i: int| !silent(lines[i]))
}

/// Every line that says something is taken, as it is and in order, and no other.
pub proof fn law_every_line_that_says_something_is_taken(lines: Seq<Seq<u8>>) -> (at: Seq<int>)
    ensures
        picks(at, spoken_marks(lines)),
        at.len() == spoken(lines).len(),
        forall|k: int| 0 <= k < at.len() ==> spoken(lines)[k] == lines[#[trigger] at[k]],
    decreases lines.len(),
{
    if lines.len() == 0 {
        Seq::empty()
    } else {
        let rest = lines.drop_last();
        let before = law_every_line_that_says_something_is_taken(rest);
        let says = !silent(lines.last());
        lemma_picked(before, spoken_marks(rest), says);
        assert(spoken_marks(lines) =~= spoken_marks(rest).push(says));
        let at = picked(before, spoken_marks(rest), says);
        assert forall|k: int| 0 <= k < at.len() implies spoken(lines)[k]
            == lines[#[trigger] at[k]] by {
            if k < before.len() {
                assert(at[k] == before[k]);
                assert(rest[before[k]] == lines[before[k]]);
            }
        }
        at
    }
}

/// A log gains each line behind the others, and loses its oldest only once it is full.
pub proof fn law_a_log_loses_its_oldest_line_alone(log: Seq<Seq<char>>, line: Seq<char>, i: int)
    requires
        log.len() <= ERROR_LOG_LINES,
    ensures
        logged(log, line).len() > 0,
        logged(log, line).last() == line,
        log.len() < ERROR_LOG_LINES ==> logged(log, line).len() == log.len() + 1 && (0 <= i
            < log.len() ==> logged(log, line)[i] == log[i]),
        log.len() == ERROR_LOG_LINES ==> logged(log, line).len() == log.len() && (0 < i < log.len()
            ==> logged(log, line)[i - 1] == log[i]),
        trim_end_of(line).len() == 0 ==> recorded(log, line) == log,
        trim_end_of(line).len() > 0 ==> recorded(log, line) == logged(log, trim_end_of(line)),
{
}

} // verus!
