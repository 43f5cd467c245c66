//! What is offered, and what an answer leads to.

use vstd::prelude::*;
#[allow(unused_imports)]
use crate::editing::{Position, Selection};
#[allow(unused_imports)]
use crate::laws::words::law_a_written_number_reads_back;
#[allow(unused_imports)]
use crate::path::{normal_parts, parts_of, Part, PathBuf};
#[allow(unused_imports)]
use crate::session::outcome::Outcome;
#[allow(unused_imports)]
use crate::session::prompts::{
    by_recency, caret_at, choice_recency, goes_to_line, lemma_recency_bound, line_wanted, place_of,
    ranked, recency, Choice,
};
#[allow(unused_imports)]
use crate::session::state::Session;
#[allow(unused_imports)]
use crate::text::{all_digits, decimal_of, first_at, is_white, split_at_char, trim_of, u32_of};

verus! {

/// The first place at which a separator stands is where a text is cut.
pub proof fn law_a_text_is_cut_at_the_first_separator(
    front: Seq<char>,
    separator: char,
    back: Seq<char>,
)
    requires
        forall|i: int| 0 <= i < front.len() ==> #[trigger] front[i] != separator,
    ensures
        split_at_char(front + seq![separator] + back, separator) == Some((front, back)),
        split_at_char(front, separator) is None,
{
    let s = front + seq![separator] + back;
    let n = front.len() as int;
    assert(s[n] == separator);
    assert forall|j: int| 0 <= j < n implies s[j] != separator by {
        assert(s[j] == front[j]);
    }
    assert(first_at(s, separator, n));
    let i = choose|i: int| first_at(s, separator, i);
    if i < n {
        assert(s[i] == front[i]);
    }
    assert(i == n) by {
        if n < i {
            assert(s[n] != separator);
        }
    }
    assert(s.take(n) =~= front);
    assert(s.skip(n + 1) =~= back);
    assert forall|i: int| !first_at(front, separator, i) by {
        if first_at(front, separator, i) {
            assert(front[i] == separator);
        }
    }
}

proof fn lemma_digits_stay(s: Seq<char>)
    requires
        all_digits(s),
    ensures
        trim_of(s) == s,
{
    assert('0' <= s[0] <= '9');
    assert('0' <= s[s.len() - 1] <= '9');
    assert(!is_white(s[0]));
    assert(!is_white(s.last()));
}

/// Typing a line's number goes to the start of that line, and a column behind a colon to that column,
/// both counted from one and with white space around them or not; a line that the document does not
/// have is not gone to.
pub proof fn law_going_to_a_line<B, S, M, C: Fn(Position) -> Position>(
    before: Session<B, S, M>,
    after: Session<B, S, M>,
    text: Seq<char>,
    lines: u32,
    clamp: C,
    outcome: Outcome,
    line: u32,
    column: u32,
) -> (target: Position)
    requires
        goes_to_line(before, after, text, lines, clamp, outcome),
        column > 0,
        ({
            ||| trim_of(text) == decimal_of(line as nat) && column == 1
            ||| trim_of(text) == decimal_of(line as nat) + seq![':'] + decimal_of(column as nat)
        }),
    ensures
        line == 0 || line > lines ==> after == before,
        1 <= line <= lines ==> {
            &&& clamp.ensures(
                (Position { line: (line - 1) as u32, character: (column - 1) as u32 },),
                target,
            )
            &&& after.active.document == before.active.document
            &&& after.active.view.selections.primary == (Selection {
                anchor: target,
                active: target,
            })
            &&& after.active.view.selections.others@.len() == 0
        },
{
    let front = decimal_of(line as nat);
    let back = decimal_of(column as nat);
    law_a_written_number_reads_back(line as nat);
    law_a_written_number_reads_back(column as nat);
    lemma_digits_stay(front);
    lemma_digits_stay(back);
    assert forall|i: int| 0 <= i < front.len() implies #[trigger] front[i] != ':' by {
        assert('0' <= front[i] <= '9');
    }
    law_a_text_is_cut_at_the_first_separator(front, ':', back);
    assert('0' <= front[0] <= '9');
    assert('0' <= back[0] <= '9');
    assert(u32_of(front) == Some(line));
    assert(u32_of(back) == Some(column));
    assert(line_wanted(trim_of(text)) == Some((line, column)));
    choose|target: Position|
        #[trigger] clamp.ensures((place_of(line, column),), target) && caret_at(
            before,
            after,
            target,
        )
}

/// A list by recency puts what was on screen last first, keeps the order of what is equally recent,
/// and keeps every choice once: a choice is as recent as the place of its file in the list of files
/// that were on screen.
pub proof fn law_recent_files_come_first(
    recent: Seq<PathBuf>,
    list: Seq<Choice>,
    n: int,
) -> (at: Seq<int>)
    requires
        n >= 0,
    ensures
        at.len() == by_recency(recent, list, n).len(),
        forall|k: int|
            0 <= k < at.len() ==> 0 <= #[trigger] at[k] < list.len() && by_recency(
                recent,
                list,
                n,
            )[k] == list[at[k]],
        forall|j: int, k: int|
            0 <= j < k < at.len() ==> {
                let a = choice_recency(recent, list[#[trigger] at[j]]);
                let b = choice_recency(recent, list[#[trigger] at[k]]);
                a < b || (a == b && at[j] < at[k])
            },
        forall|i: int|
            0 <= i < list.len() && choice_recency(recent, #[trigger] list[i]) < n ==> at.contains(i),
        forall|k: int|
            0 <= k < at.len() ==> choice_recency(recent, list[#[trigger] at[k]]) < n,
    decreases n,
{
    if n <= 0 {
        assert forall|i: int|
            0 <= i < list.len() && choice_recency(recent, #[trigger] list[i]) < n implies false by {
            lemma_recency_bound(recent, parts_of(list[i].id));
        }
        Seq::empty()
    } else {
        let before = law_recent_files_come_first(recent, list, n - 1);
        let more = lemma_ranked(recent, list, n - 1);
        let at = before + more;
        let m = before.len() as int;
        let all = by_recency(recent, list, n);
        assert forall|k: int| 0 <= k < at.len() implies 0 <= #[trigger] at[k] < list.len()
            && all[k] == list[at[k]] && choice_recency(recent, list[at[k]]) < n by {
            if k < m {
                assert(at[k] == before[k]);
            } else {
                assert(at[k] == more[k - m]);
            }
        }
        assert forall|j: int, k: int| 0 <= j < k < at.len() implies {
            let a = choice_recency(recent, list[#[trigger] at[j]]);
            let b = choice_recency(recent, list[#[trigger] at[k]]);
            a < b || (a == b && at[j] < at[k])
        } by {
            if k < m {
                assert(at[j] == before[j] && at[k] == before[k]);
            } else if j < m {
                assert(at[j] == before[j] && at[k] == more[k - m]);
            } else {
                assert(at[j] == more[j - m] && at[k] == more[k - m]);
            }
        }
        assert forall|i: int|
            0 <= i < list.len() && choice_recency(recent, #[trigger] list[i]) < n implies
            at.contains(i) by {
            if choice_recency(recent, list[i]) < n - 1 {
                let k = choose|k: int| 0 <= k < before.len() && before[k] == i;
                assert(at[k] == i);
            } else {
                let k = choose|k: int| 0 <= k < more.len() && more[k] == i;
                assert(at[k + m] == i);
            }
        }
        at
    }
}

proof fn lemma_ranked(recent: Seq<PathBuf>, list: Seq<Choice>, rank: int) -> (at: Seq<int>)
    ensures
        at.len() == ranked(recent, list, rank).len(),
        forall|k: int|
            0 <= k < at.len() ==> 0 <= #[trigger] at[k] < list.len() && ranked(
                recent,
                list,
                rank,
            )[k] == list[at[k]] && choice_recency(recent, list[at[k]]) == rank,
        forall|j: int, k: int| 0 <= j < k < at.len() ==> #[trigger] at[j] < #[trigger] at[k],
        forall|i: int|
            0 <= i < list.len() && choice_recency(recent, #[trigger] list[i]) == rank
                ==> at.contains(i),
    decreases list.len(),
{
    if list.len() == 0 {
        Seq::empty()
    } else {
        let rest = list.drop_last();
        let before = lemma_ranked(recent, rest, rank);
        let n = list.len() - 1;
        let taken = choice_recency(recent, list.last()) == rank;
        let at = if taken {
            before.push(n)
        } else {
            before
        };
        assert forall|k: int| 0 <= k < at.len() implies 0 <= #[trigger] at[k] < list.len()
            && ranked(recent, list, rank)[k] == list[at[k]] && choice_recency(
            recent,
            list[at[k]],
        ) == rank by {
            if k < before.len() {
                assert(at[k] == before[k]);
                assert(rest[before[k]] == list[before[k]]);
            }
        }
        assert forall|j: int, k: int| 0 <= j < k < at.len() implies #[trigger] at[j]
            < #[trigger] at[k] by {
            assert(at[j] == before[j]);
            if k < before.len() {
                assert(at[k] == before[k]);
            }
        }
        assert forall|i: int|
            0 <= i < list.len() && choice_recency(recent, #[trigger] list[i]) == rank implies
            at.contains(i) by {
            if i < n {
                assert(rest[i] == list[i]);
                let k = choose|k: int| 0 <= k < before.len() && before[k] == i;
                assert(at[k] == i);
            } else {
                assert(at[at.len() - 1] == n);
            }
        }
        at
    }
}

/// How recent a file is, is the first place it has among those that were on screen, however its path
/// is spelled; one that is not among them comes behind all that are.
pub proof fn law_how_recent_a_file_is(recent: Seq<PathBuf>, path: Seq<Part>)
    ensures
        ({
            let n = recency(recent, path);
            &&& 0 <= n <= recent.len()
            &&& n < recent.len() ==> normal_parts(recent[n]@) == normal_parts(path)
            &&& forall|i: int|
                0 <= i < n ==> normal_parts((#[trigger] recent[i])@) != normal_parts(path)
        }),
    decreases recent.len(),
{
    if recent.len() > 0 && normal_parts(recent[0]@) != normal_parts(path) {
        let rest = recent.skip(1);
        law_how_recent_a_file_is(rest, path);
        let n = recency(rest, path);
        if n < rest.len() {
            assert(rest[n] == recent[n + 1]);
        }
        assert forall|i: int| 0 <= i < n + 1 implies normal_parts((#[trigger] recent[i])@)
            != normal_parts(path) by {
            if i > 0 {
                assert(rest[i - 1] == recent[i]);
            }
        }
    }
}

} // verus!
