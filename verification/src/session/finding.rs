//! Finding and replacing in the active document, and going from problem to problem.

use vstd::prelude::*;
use crate::editing::{Change, Direction, Position, Range, Selection, SelectionSet, TextEdit};
#[allow(unused_imports)]
use crate::editing::precedes;
#[allow(unused_imports)]
use crate::session::documents::{marks_at, worst_first};
use crate::session::edits::{EditError, Edited, Engine};
#[allow(unused_imports)]
use crate::session::edits::{clamped, edits_active, end_fits, range_replaced, ready};
#[allow(unused_imports)]
use crate::session::layout::refreshed;
use crate::session::outcome::Outcome;
#[allow(unused_imports)]
use crate::session::prompts::caret_at;
use crate::session::state::{Diagnostic, Find, Session};
#[allow(unused_imports)]
use crate::session::state::{Tab, Viewport};
use crate::snippet::ActiveSnippet;
use crate::text::{decimal, same};
#[allow(unused_imports)]
use crate::text::decimal_of;

verus! {

/// What reads a text: what stands in a range of it, and the word at a place of it.
pub struct Reader<T, W> {
    pub text_in: T,
    pub word_at: W,
}

/// What a find bar does: how it opens with a seed and an origin, for finding or for replacing; how
/// it finds its query in a text; which of its matches is the nearest to a place; how it takes a
/// text of the document as its query; and what each match is to be replaced by.
pub struct Finder<P, R, N, Q, X> {
    pub open: P,
    pub refresh: R,
    pub nearest: N,
    pub seeded: Q,
    pub expand: X,
}

/// Whether the reader can be asked about anything.
pub open spec fn reads<
    B,
    T: Fn(&B, Range) -> String,
    W: Fn(&B, Position) -> Option<Range>,
>(reader: Reader<T, W>) -> bool {
    &&& forall|body: &B, range: Range| reader.text_in.requires((body, range))
    &&& forall|body: &B, at: Position| reader.word_at.requires((body, at))
}

/// Whether the find bar can be asked to do anything.
pub open spec fn finds<
    B,
    P: Fn(Find, Option<String>, Position, bool) -> Find,
    R: Fn(Find, &B) -> Find,
    N: Fn(&Find, Position, Direction) -> Option<Range>,
    Q: Fn(Find, String) -> Find,
    X: Fn(&Find, &B) -> Vec<(Range, String)>,
>(finder: Finder<P, R, N, Q, X>) -> bool {
    &&& forall|bar: Find, seed: Option<String>, at: Position, replacing: bool|
        finder.open.requires((bar, seed, at, replacing))
    &&& forall|bar: Find, body: &B| finder.refresh.requires((bar, body))
    &&& forall|bar: &Find, at: Position, direction: Direction|
        finder.nearest.requires((bar, at, direction))
    &&& forall|bar: Find, text: String| finder.seeded.requires((bar, text))
    &&& forall|bar: &Find, body: &B| finder.expand.requires((bar, body))
}

/// Whether `seed` is what is selected, or the word under the caret, with where it stands.
pub open spec fn seed_found<
    B,
    S,
    T: Fn(&B, Range) -> String,
    W: Fn(&B, Position) -> Option<Range>,
>(reader: Reader<T, W>, tab: Tab<B, S>, seed: Option<(String, Range)>) -> bool {
    let primary = tab.view.selections.primary;
    if primary.anchor != primary.active {
        exists|text: String|
            #[trigger] reader.text_in.ensures((&tab.document.body, primary.span()), text)
                && if text@.len() > 0 {
                seed == Some((text, primary.span()))
            } else {
                seed is None
            }
    } else {
        exists|word: Option<Range>|
            #[trigger] reader.word_at.ensures((&tab.document.body, primary.active), word)
                && match word {
                None => seed is None,
                Some(range) => seed matches Some(found) && found.1 == range
                    && reader.text_in.ensures((&tab.document.body, range), found.0),
            }
    }
}

/// The session with another find bar.
pub open spec fn with_find<B, S, M>(s: Session<B, S, M>, bar: Find) -> Session<B, S, M> {
    Session { active: Tab { find: bar, ..s.active }, ..s }
}

/// Whether `after` is `before` with a range selected, to be brought on screen.
pub open spec fn range_selected<B, S, M>(
    before: Session<B, S, M>,
    after: Session<B, S, M>,
    range: Range,
) -> bool {
    let view = after.active.view;
    &&& after == (Session { active: Tab { view, ..before.active }, ..before })
    &&& view == (Viewport { selections: view.selections, reveal: true, ..before.active.view })
    &&& view.selections.is_single(Selection { anchor: range.start, active: range.end })
}

/// Whether `after` is `before` with the range, if there is one, selected.
pub open spec fn maybe_selected<B, S, M>(
    before: Session<B, S, M>,
    after: Session<B, S, M>,
    range: Option<Range>,
) -> bool {
    match range {
        None => after == before,
        Some(range) => range_selected(before, after, range),
    }
}

/// Where a search starts: where it was begun, or at another place.
pub open spec fn starting_at(bar: Find, from_origin: bool, at: Position) -> Position {
    if from_origin {
        bar.origin
    } else {
        at
    }
}

/// Whether `after` is `before` with the query found again, and the first match from where the
/// search was begun, or from `at`, selected.
pub open spec fn found_from<
    B,
    S,
    M,
    R: Fn(Find, &B) -> Find,
    N: Fn(&Find, Position, Direction) -> Option<Range>,
>(
    refresh: R,
    nearest: N,
    before: Session<B, S, M>,
    after: Session<B, S, M>,
    from_origin: bool,
    at: Position,
) -> bool {
    exists|bar: Find, near: Option<Range>|
        {
            &&& #[trigger] refresh.ensures((before.active.find, &before.active.document.body), bar)
            &&& #[trigger] nearest.ensures(
                (
                    &bar,
                    starting_at(bar, from_origin, at),
                    Direction::Next,
                ),
                near,
            )
            &&& maybe_selected(with_find(before, bar), after, near)
        }
}

/// Whether `after` is `before` with its query found again, from where the search was begun: so
/// typing a query does not walk down the file.
pub open spec fn query_found<
    B,
    S,
    M,
    R: Fn(Find, &B) -> Find,
    N: Fn(&Find, Position, Direction) -> Option<Range>,
>(refresh: R, nearest: N, before: Session<B, S, M>, after: Session<B, S, M>) -> bool {
    found_from(refresh, nearest, before, after, true, Position { line: 0, character: 0 })
}

/// Whether `after` is `before` with the find bar open: for what is selected, if anything is, and
/// from where the selection starts, so that the selected match is the current one.
pub open spec fn find_opened<
    B,
    S,
    M,
    T: Fn(&B, Range) -> String,
    W,
    P: Fn(Find, Option<String>, Position, bool) -> Find,
    R: Fn(Find, &B) -> Find,
    N: Fn(&Find, Position, Direction) -> Option<Range>,
    Q,
    X,
>(
    reader: Reader<T, W>,
    finder: Finder<P, R, N, Q, X>,
    before: Session<B, S, M>,
    after: Session<B, S, M>,
    replacing: bool,
) -> bool {
    let primary = before.active.view.selections.primary;
    exists|seed: Option<String>, bar: Find|
        {
            &&& match seed {
                Some(text) => primary.anchor != primary.active && reader.text_in.ensures(
                    (&before.active.document.body, primary.span()),
                    text,
                ),
                None => primary.anchor == primary.active,
            }
            &&& #[trigger] finder.open.ensures(
                (before.active.find, seed, primary.span().start, replacing),
                bar,
            )
            &&& query_found(finder.refresh, finder.nearest, with_find(before, bar), after)
        }
}

/// Whether it is said that the query was not found: what is wrong with it, if anything is.
pub open spec fn no_results(bar: Find, outcome: Outcome) -> bool {
    match bar.error {
        Some(error) => outcome.says(error@),
        None => outcome.says("no results for `"@ + bar.query@ + "`"@),
    }
}

/// The number of a match, counted from one; none where the range is no match.
pub open spec fn ordinal_of(matches: Seq<Range>, range: Range) -> Option<nat>
    decreases matches.len(),
{
    if matches.len() == 0 {
        None
    } else if matches[0] == range {
        Some(1)
    } else {
        match ordinal_of(matches.skip(1), range) {
            Some(n) => Some(n + 1),
            None => None,
        }
    }
}

/// Whether the match is counted: only while the bar, which shows that, is closed.
pub open spec fn counts_match(bar: Find, range: Range, outcome: Outcome) -> bool {
    match ordinal_of(bar.matches@, range) {
        Some(n) => if bar.visible {
            outcome is Handled
        } else {
            outcome.says(
                decimal_of(n) + " of "@ + decimal_of(bar.matches@.len()) + " for `"@ + bar.query@
                    + "`"@,
            )
        },
        None => outcome is Handled,
    }
}

/// Where a search goes on from: behind the selection, or before it.
pub open spec fn search_from(selection: Selection, direction: Direction) -> Position {
    match direction {
        Direction::Next => selection.span().end,
        Direction::Prev => selection.span().start,
    }
}

/// Whether going to the next match comes to `outcome`, once there is a query.
pub open spec fn steps_to<
    B,
    S,
    M,
    R: Fn(Find, &B) -> Find,
    N: Fn(&Find, Position, Direction) -> Option<Range>,
>(
    refresh: R,
    nearest: N,
    before: Session<B, S, M>,
    after: Session<B, S, M>,
    direction: Direction,
    outcome: Outcome,
) -> bool {
    exists|bar: Find|
        #[trigger] refresh.ensures((before.active.find, &before.active.document.body), bar)
            && if bar.matches@.len() == 0 {
            after == with_find(before, bar) && no_results(bar, outcome)
        } else {
            exists|near: Option<Range>|
                {
                    &&& #[trigger] nearest.ensures(
                        (
                            &bar,
                            search_from(before.active.view.selections.primary, direction),
                            direction,
                        ),
                        near,
                    )
                    &&& maybe_selected(with_find(before, bar), after, near)
                    &&& match near {
                        None => outcome is Handled,
                        Some(range) => counts_match(bar, range, outcome),
                    }
                }
        }
}

/// Whether going to the next or the previous match comes to `outcome`. Without a query, what is
/// selected or under the caret becomes it, and is selected, so that the step goes past it.
pub open spec fn steps_find<
    B,
    S,
    M,
    T: Fn(&B, Range) -> String,
    W: Fn(&B, Position) -> Option<Range>,
    P,
    R: Fn(Find, &B) -> Find,
    N: Fn(&Find, Position, Direction) -> Option<Range>,
    Q: Fn(Find, String) -> Find,
    X,
>(
    reader: Reader<T, W>,
    finder: Finder<P, R, N, Q, X>,
    before: Session<B, S, M>,
    after: Session<B, S, M>,
    direction: Direction,
    outcome: Outcome,
) -> bool {
    if before.active.find.query@.len() > 0 {
        steps_to(finder.refresh, finder.nearest, before, after, direction, outcome)
    } else {
        exists|seed: Option<(String, Range)>|
            #[trigger] seed_found(reader, before.active, seed) && match seed {
                None => after == before && outcome.says("nothing to search for"@),
                Some(seed) => exists|bar: Find, mid: Session<B, S, M>|
                    {
                        &&& #[trigger] finder.seeded.ensures((before.active.find, seed.0), bar)
                        &&& #[trigger] range_selected(with_find(before, bar), mid, seed.1)
                        &&& steps_to(
                            finder.refresh,
                            finder.nearest,
                            mid,
                            after,
                            direction,
                            outcome,
                        )
                    },
            }
    }
}

/// The first of the replacements that is for the range; their number where none is.
pub open spec fn replacement_for(list: Seq<(Range, String)>, range: Range) -> int
    decreases list.len(),
{
    if list.len() == 0 {
        0
    } else if list[0].0 == range {
        0
    } else {
        1 + replacement_for(list.skip(1), range)
    }
}

/// Whether whatever a match is replaced by ends where a position can say.
pub open spec fn replacements_fit<
    B,
    X: Fn(&Find, &B) -> Vec<(Range, String)>,
    C: Fn(&B, Position) -> Position,
>(expand: X, clamp: C, body: B) -> bool {
    forall|bar: Find, list: Vec<(Range, String)>, i: int|
        #![trigger expand.ensures((&bar, &body), list), list@[i]]
        expand.ensures((&bar, &body), list) && 0 <= i < list@.len() ==> end_fits(
            clamp,
            body,
            list@[i].0,
            list@[i].1@,
        )
}

proof fn lemma_replacement_for(list: Seq<(Range, String)>, range: Range)
    ensures
        0 <= replacement_for(list, range) <= list.len(),
        replacement_for(list, range) < list.len() ==> list[replacement_for(list, range)].0 == range,
    decreases list.len(),
{
    if list.len() > 0 && list[0].0 != range {
        lemma_replacement_for(list.skip(1), range);
        let k = replacement_for(list.skip(1), range);
        if k < list.skip(1).len() {
            assert(list.skip(1)[k] == list[k + 1]);
        }
    }
}

/// Whether replacing the selected match comes to `outcome`: the next one is then selected. Where
/// no match is selected, the next one is, and nothing is replaced.
pub open spec fn replaces_one<
    B,
    S,
    M,
    T: Fn(&B, Range) -> String,
    W: Fn(&B, Position) -> Option<Range>,
    P,
    R: Fn(Find, &B) -> Find,
    N: Fn(&Find, Position, Direction) -> Option<Range>,
    Q: Fn(Find, String) -> Find,
    X: Fn(&Find, &B) -> Vec<(Range, String)>,
    C: Fn(&B, Position) -> Position,
    K: Fn(&B, &Option<ActiveSnippet>, &Vec<Change>, &SelectionSet, Option<u64>, Position) -> Edited<
        B,
    >,
>(
    reader: Reader<T, W>,
    finder: Finder<P, R, N, Q, X>,
    clamp: C,
    commit: K,
    before: Session<B, S, M>,
    after: Session<B, S, M>,
    outcome: Outcome,
) -> bool {
    if before.active.find.query@.len() == 0 {
        after == before && outcome.says("nothing to replace"@)
    } else {
        exists|bar: Find|
            {
                let current = before.active.view.selections.primary.span();
                let s = with_find(before, bar);
                &&& #[trigger] finder.refresh.ensures(
                    (before.active.find, &before.active.document.body),
                    bar,
                )
                &&& if bar.matches@.len() == 0 {
                    after == s && no_results(bar, outcome)
                } else if ordinal_of(bar.matches@, current) is None {
                    steps_find(reader, finder, s, after, Direction::Next, outcome)
                } else {
                    replaces_current(
                        reader,
                        finder,
                        clamp,
                        commit,
                        s,
                        after,
                        current,
                        outcome,
                    )
                }
            }
    }
}

/// Whether replacing the match at `current` comes to `outcome`.
pub open spec fn replaces_current<
    B,
    S,
    M,
    T: Fn(&B, Range) -> String,
    W: Fn(&B, Position) -> Option<Range>,
    P,
    R: Fn(Find, &B) -> Find,
    N: Fn(&Find, Position, Direction) -> Option<Range>,
    Q: Fn(Find, String) -> Find,
    X: Fn(&Find, &B) -> Vec<(Range, String)>,
    C: Fn(&B, Position) -> Position,
    K: Fn(&B, &Option<ActiveSnippet>, &Vec<Change>, &SelectionSet, Option<u64>, Position) -> Edited<
        B,
    >,
>(
    reader: Reader<T, W>,
    finder: Finder<P, R, N, Q, X>,
    clamp: C,
    commit: K,
    before: Session<B, S, M>,
    after: Session<B, S, M>,
    current: Range,
    outcome: Outcome,
) -> bool {
    exists|list: Vec<(Range, String)>|
        {
            let i = replacement_for(list@, current);
            &&& #[trigger] finder.expand.ensures(
                (&before.active.find, &before.active.document.body),
                list,
            )
            &&& if i >= list@.len() {
                steps_find(reader, finder, before, after, Direction::Next, outcome)
            } else {
                &&& outcome is Handled
                &&& exists|end: Position, put: Session<B, S, M>, mid: Session<B, S, M>|
                    {
                        &&& #[trigger] range_replaced(
                            clamp,
                            commit,
                            before,
                            put,
                            current,
                            list@[i].1@,
                            end,
                        )
                        &&& #[trigger] refreshed(put, mid)
                        &&& found_from(finder.refresh, finder.nearest, mid, after, false, end)
                    }
            }
        }
}

/// Whether the edits are those replacements that change something.
pub open spec fn changing<B, T: Fn(&B, Range) -> String>(
    text_in: T,
    body: B,
    list: Seq<(Range, String)>,
    edits: Seq<TextEdit>,
) -> bool
    decreases list.len(),
{
    if list.len() == 0 {
        edits.len() == 0
    } else {
        let last = list.last();
        exists|text: String|
            #[trigger] text_in.ensures((&body, last.0), text) && if text@ == last.1@ {
                changing(text_in, body, list.drop_last(), edits)
            } else {
                &&& edits.len() > 0
                &&& edits.last().range == last.0
                &&& edits.last().new_text@ == last.1@
                &&& changing(text_in, body, list.drop_last(), edits.drop_last())
            }
    }
}

/// What is said where every match already reads as it should.
pub open spec fn unchanged_text(bar: Find) -> Seq<char> {
    if bar.options.regex {
        "every match already reads as its replacement"@
    } else {
        "every match already reads `"@ + bar.replace@ + "`"@
    }
}

/// What is said of replacements that were made.
pub open spec fn replaced_text(n: nat) -> Seq<char> {
    "replaced "@ + decimal_of(n) + " "@ + (if n == 1 {
        "occurrence"@
    } else {
        "occurrences"@
    })
}

/// Whether replacing every match, as one step, comes to `outcome`. A match that already reads as
/// its replacement is not touched.
pub open spec fn replaces_all<
    B,
    S,
    M,
    T: Fn(&B, Range) -> String,
    W,
    P,
    R: Fn(Find, &B) -> Find,
    N,
    Q,
    X: Fn(&Find, &B) -> Vec<(Range, String)>,
    C: Fn(&B, Position) -> Position,
    I: Fn(&TextEdit) -> bool,
    O: Fn(&Vec<Change>) -> bool,
    K: Fn(&B, &Option<ActiveSnippet>, &Vec<Change>, &SelectionSet, Option<u64>, Position) -> Edited<
        B,
    >,
>(
    reader: Reader<T, W>,
    finder: Finder<P, R, N, Q, X>,
    engine: Engine<C, I, O, K>,
    before: Session<B, S, M>,
    after: Session<B, S, M>,
    outcome: Outcome,
) -> bool {
    if before.active.find.query@.len() == 0 {
        after == before && outcome.says("nothing to replace"@)
    } else {
        exists|bar: Find|
            {
                let s = with_find(before, bar);
                &&& #[trigger] finder.refresh.ensures(
                    (before.active.find, &before.active.document.body),
                    bar,
                )
                &&& if bar.matches@.len() == 0 {
                    after == s && no_results(bar, outcome)
                } else {
                    exists|list: Vec<(Range, String)>, edits: Vec<TextEdit>|
                        {
                            &&& #[trigger] finder.expand.ensures(
                                (&bar, &before.active.document.body),
                                list,
                            )
                            &&& #[trigger] changing(
                                reader.text_in,
                                before.active.document.body,
                                list@,
                                edits@,
                            )
                            &&& if edits@.len() == 0 {
                                after == s && outcome.says(unchanged_text(bar))
                            } else {
                                replaces_matches(
                                    finder.refresh,
                                    engine,
                                    s,
                                    after,
                                    edits@,
                                    outcome,
                                )
                            }
                        }
                }
            }
    }
}

/// Whether making the replacements comes to `outcome`.
pub open spec fn replaces_matches<
    B,
    S,
    M,
    R: Fn(Find, &B) -> Find,
    C: Fn(&B, Position) -> Position,
    I: Fn(&TextEdit) -> bool,
    O: Fn(&Vec<Change>) -> bool,
    K: Fn(&B, &Option<ActiveSnippet>, &Vec<Change>, &SelectionSet, Option<u64>, Position) -> Edited<
        B,
    >,
>(
    refresh: R,
    engine: Engine<C, I, O, K>,
    before: Session<B, S, M>,
    after: Session<B, S, M>,
    edits: Seq<TextEdit>,
    outcome: Outcome,
) -> bool {
    exists|mid: Session<B, S, M>, result: Result<usize, EditError>|
        #[trigger] edits_active(engine, before, mid, edits, result) && match result {
            Err(_) => after == mid && outcome.says(
                "the server sent overlapping edits, which have no well-defined result"@,
            ),
            Ok(n) => outcome.says(replaced_text(n as nat)) && exists|bar: Find|
                #[trigger] refresh.ensures((mid.active.find, &mid.active.document.body), bar)
                    && after == with_find(mid, bar),
        }
}

/// Whether a problem starts beyond a place, in a direction.
pub open spec fn is_beyond(start: Position, beyond: Option<Position>, direction: Direction) -> bool {
    match beyond {
        None => true,
        Some(at) => match direction {
            Direction::Next => precedes(at, start),
            Direction::Prev => precedes(start, at),
        },
    }
}

/// Whether `a` is met before `b`, in a direction.
pub open spec fn is_met_first(a: Position, b: Position, direction: Direction) -> bool {
    match direction {
        Direction::Next => precedes(a, b),
        Direction::Prev => precedes(b, a),
    }
}

/// Where the first problem starts that is met beyond a place, in a direction.
pub open spec fn first_start(
    list: Seq<Diagnostic>,
    beyond: Option<Position>,
    direction: Direction,
) -> Option<Position>
    decreases list.len(),
{
    if list.len() == 0 {
        None
    } else {
        let rest = first_start(list.drop_last(), beyond, direction);
        let start = list.last().range.start;
        if !is_beyond(start, beyond, direction) {
            rest
        } else {
            match rest {
                Some(other) => if is_met_first(start, other, direction) {
                    Some(start)
                } else {
                    rest
                },
                None => Some(start),
            }
        }
    }
}

/// Where the next problem starts, going round at the end of the document.
pub open spec fn next_start(
    list: Seq<Diagnostic>,
    cursor: Position,
    direction: Direction,
) -> Option<Position> {
    match first_start(list, Some(cursor), direction) {
        Some(start) => Some(start),
        None => first_start(list, None, direction),
    }
}

/// What is said at a problem: what the worst one there says, or the line.
pub open spec fn marker_text(there: Seq<Diagnostic>, at: Position) -> Seq<char> {
    if there.len() > 0 {
        there[0].label@
    } else {
        "line "@ + decimal_of((at.line + 1) as nat)
    }
}

/// Whether going to the next or the previous problem comes to `outcome`.
pub open spec fn goes_to_marker<
    B,
    S,
    M,
    C: Fn(&B, Position) -> Position,
    F: Fn(&Diagnostic, Position) -> bool,
>(
    clamp: C,
    covers: F,
    before: Session<B, S, M>,
    after: Session<B, S, M>,
    direction: Direction,
    outcome: Outcome,
) -> bool {
    let list = before.active.diagnostics@;
    match next_start(list, before.active.view.selections.primary.active, direction) {
        None => after == before && outcome.says("no problems in this file"@),
        Some(start) => exists|target: Position, marks: Seq<bool>|
            {
                &&& #[trigger] clamped(clamp, before.active.document.body, start, target)
                &&& caret_at(before, after, target)
                &&& #[trigger] marks_at(covers, list, target, marks)
                &&& outcome.says(marker_text(worst_first(list, marks), target))
            },
    }
}

/// Where the first problem starts that is met beyond a place, in a direction.
fn start_beyond(list: &Vec<Diagnostic>, beyond: Option<Position>, direction: Direction) -> (r:
    Option<Position>)
    ensures
        r == first_start(list@, beyond, direction),
{
    let mut r: Option<Position> = None;
    let mut i: usize = 0;
    while i < list.len()
        invariant
            i <= list@.len(),
            r == first_start(list@.take(i as int), beyond, direction),
        decreases list@.len() - i,
    {
        assert(list@.take(i + 1).drop_last() =~= list@.take(i as int));
        let start: Position = list[i].range.start;
        let wanted: bool = match beyond {
            None => true,
            Some(at) => match direction {
                Direction::Next => at.before(&start),
                Direction::Prev => start.before(&at),
            },
        };
        if wanted {
            let first: bool = match r {
                None => true,
                Some(other) => match direction {
                    Direction::Next => start.before(&other),
                    Direction::Prev => other.before(&start),
                },
            };
            if first {
                r = Some(start);
            }
        }
        i = i + 1;
    }
    assert(list@.take(i as int) =~= list@);
    r
}

/// The number of a match, counted from one.
fn ordinal(matches: &Vec<Range>, range: Range) -> (r: Option<usize>)
    ensures
        match r {
            Some(n) => ordinal_of(matches@, range) == Some(n as nat),
            None => ordinal_of(matches@, range) is None,
        },
{
    let mut i: usize = 0;
    assert(matches@.skip(0) =~= matches@);
    while i < matches.len()
        invariant
            i <= matches@.len(),
            match ordinal_of(matches@.skip(i as int), range) {
                Some(n) => ordinal_of(matches@, range) == Some(n + i as nat),
                None => ordinal_of(matches@, range) is None,
            },
        decreases matches@.len() - i,
    {
        assert(matches@.skip(i as int)[0] == matches@[i as int]);
        if matches[i] == range {
            return Some(i + 1);
        }
        assert(matches@.skip(i as int).skip(1) =~= matches@.skip(i + 1));
        i = i + 1;
    }
    None
}

/// The first of the replacements that is for the range.
fn index_for(list: &Vec<(Range, String)>, range: Range) -> (r: usize)
    ensures
        r == replacement_for(list@, range),
        r <= list@.len(),
{
    let mut i: usize = 0;
    assert(list@.skip(0) =~= list@);
    while i < list.len()
        invariant
            i <= list@.len(),
            replacement_for(list@, range) == i + replacement_for(list@.skip(i as int), range),
        decreases list@.len() - i,
    {
        assert(list@.skip(i as int)[0] == list@[i as int]);
        if list[i].0 == range {
            return i;
        }
        assert(list@.skip(i as int).skip(1) =~= list@.skip(i + 1));
        i = i + 1;
    }
    i
}

/// Those replacements that change something.
fn changing_edits<B, T: Fn(&B, Range) -> String>(
    text_in: &T,
    body: &B,
    list: &Vec<(Range, String)>,
) -> (r: Vec<TextEdit>)
    requires
        forall|body: &B, range: Range| text_in.requires((body, range)),
    ensures
        changing(*text_in, *body, list@, r@),
{
    let mut r: Vec<TextEdit> = Vec::new();
    let mut i: usize = 0;
    while i < list.len()
        invariant
            i <= list@.len(),
            forall|body: &B, range: Range| text_in.requires((body, range)),
            changing(*text_in, *body, list@.take(i as int), r@),
        decreases list@.len() - i,
    {
        let ghost now = r@;
        proof {
            assert(list@.take(i + 1).drop_last() =~= list@.take(i as int));
            assert(list@.take(i + 1).last() == list@[i as int]);
        }
        let text: String = text_in(body, list[i].0);
        assert(text_in.ensures((body, list@.take(i + 1).last().0), text));
        if !same(text.as_str(), list[i].1.as_str()) {
            r.push(TextEdit { range: list[i].0, new_text: list[i].1.clone() });
            assert(r@.drop_last() =~= now);
        }
        i = i + 1;
    }
    assert(list@.take(i as int) =~= list@);
    r
}

impl Find {
    /// Says that the query was not found, or what is wrong with it.
    pub fn no_find_results(&self) -> (r: Outcome)
        ensures
            no_results(*self, r),
    {
        match &self.error {
            Some(error) => Outcome::Message(error.clone()),
            None => {
                let mut message: String = "no results for `".to_owned();
                message.append(self.query.as_str());
                message.append("`");
                Outcome::Message(message)
            },
        }
    }

    /// Counts the match, where the bar that shows its number is closed.
    fn count_match(&self, range: Range) -> (r: Outcome)
        ensures
            counts_match(*self, range, r),
    {
        match ordinal(&self.matches, range) {
            Some(n) => {
                if self.visible {
                    return Outcome::Handled;
                }
                let mut message: String = decimal(n as u64);
                message.append(" of ");
                let number: String = decimal(self.matches.len() as u64);
                message.append(number.as_str());
                message.append(" for `");
                message.append(self.query.as_str());
                message.append("`");
                Outcome::Message(message)
            },
            None => Outcome::Handled,
        }
    }
}

impl<B, S, M> Session<B, S, M> {
    /// What is selected, or the word under the caret, with where it stands.
    pub fn seed_from_document<
        T: Fn(&B, Range) -> String,
        W: Fn(&B, Position) -> Option<Range>,
    >(&self, reader: &Reader<T, W>) -> (r: Option<(String, Range)>)
        requires
            reads::<B, T, W>(*reader),
        ensures
            seed_found(*reader, self.active, r),
    {
        let primary: Selection = self.active.view.selections.primary;
        if !primary.is_empty() {
            let range: Range = primary.range();
            let text: String = (reader.text_in)(&self.active.document.body, range);
            assert(reader.text_in.ensures((&self.active.document.body, primary.span()), text));
            if text.as_str().is_empty() {
                return None;
            }
            return Some((text, range));
        }
        let word: Option<Range> = (reader.word_at)(&self.active.document.body, primary.active);
        assert(reader.word_at.ensures((&self.active.document.body, primary.active), word));
        match word {
            None => None,
            Some(range) => {
                let text: String = (reader.text_in)(&self.active.document.body, range);
                Some((text, range))
            },
        }
    }

    /// Selects a range, to be brought on screen.
    pub fn select_match(&mut self, range: Range)
        ensures
            range_selected(*old(self), *final(self), range),
    {
        self.active.view.selections = SelectionSet::single(
            Selection::new(range.start, range.end),
        );
        self.active.view.reveal = true;
    }

    /// Selects the range, if there is one.
    fn select_if(&mut self, range: Option<Range>)
        ensures
            maybe_selected(*old(self), *final(self), range),
    {
        if let Some(range) = range {
            self.select_match(range);
        }
    }

    /// The find bar, taken out to be handed on.
    fn take_bar(&mut self) -> (r: Find)
        ensures
            r == old(self).active.find,
            *final(self) == with_find(*old(self), final(self).active.find),
    {
        let mut bar: Find = Find::new();
        std::mem::swap(&mut bar, &mut self.active.find);
        bar
    }

    /// Finds the query again.
    fn refresh_matches<R: Fn(Find, &B) -> Find>(&mut self, refresh: &R)
        requires
            forall|bar: Find, body: &B| refresh.requires((bar, body)),
        ensures
            *final(self) == with_find(*old(self), final(self).active.find),
            refresh.ensures(
                (old(self).active.find, &old(self).active.document.body),
                final(self).active.find,
            ),
    {
        let bar: Find = self.take_bar();
        self.active.find = refresh(bar, &self.active.document.body);
    }

    /// Finds the query again, and selects the first match from where the search was begun.
    pub fn find_query_changed<P, R: Fn(Find, &B) -> Find, N: Fn(&Find, Position, Direction) -> Option<
        Range,
    >, Q, X>(&mut self, finder: &Finder<P, R, N, Q, X>) -> (r: Outcome)
        requires
            forall|bar: Find, body: &B| finder.refresh.requires((bar, body)),
            forall|bar: &Find, at: Position, direction: Direction|
                finder.nearest.requires((bar, at, direction)),
        ensures
            r is Handled,
            query_found(finder.refresh, finder.nearest, *old(self), *final(self)),
    {
        let ghost before = *self;
        self.refresh_matches(&finder.refresh);
        let ghost bar = self.active.find;
        let near: Option<Range> = (finder.nearest)(
            &self.active.find,
            self.active.find.origin,
            Direction::Next,
        );
        self.select_if(near);
        proof {
            assert(finder.refresh.ensures((before.active.find, &before.active.document.body), bar));
            let zero = Position { line: 0, character: 0 };
            assert(finder.nearest.ensures(
                (&bar, starting_at(bar, true, zero), Direction::Next),
                near,
            ));
        }
        Outcome::Handled
    }

    /// Opens the find bar, for what is selected if anything is.
    pub fn open_find<
        T: Fn(&B, Range) -> String,
        W,
        P: Fn(Find, Option<String>, Position, bool) -> Find,
        R: Fn(Find, &B) -> Find,
        N: Fn(&Find, Position, Direction) -> Option<Range>,
        Q,
        X,
    >(
        &mut self,
        replacing: bool,
        reader: &Reader<T, W>,
        finder: &Finder<P, R, N, Q, X>,
    ) -> (r: Outcome)
        requires
            forall|body: &B, range: Range| reader.text_in.requires((body, range)),
            forall|bar: Find, seed: Option<String>, at: Position, replacing: bool|
                finder.open.requires((bar, seed, at, replacing)),
            forall|bar: Find, body: &B| finder.refresh.requires((bar, body)),
            forall|bar: &Find, at: Position, direction: Direction|
                finder.nearest.requires((bar, at, direction)),
        ensures
            r is Handled,
            find_opened(*reader, *finder, *old(self), *final(self), replacing),
    {
        let ghost before = *self;
        let primary: Selection = self.active.view.selections.primary;
        let seed: Option<String> = if primary.is_empty() {
            None
        } else {
            Some((reader.text_in)(&self.active.document.body, primary.range()))
        };
        let ghost seeded = seed;
        let bar: Find = self.take_bar();
        self.active.find = (finder.open)(bar, seed, primary.range().start, replacing);
        let ghost opened = self.active.find;
        assert(finder.open.ensures(
            (before.active.find, seeded, primary.span().start, replacing),
            opened,
        ));
        self.find_query_changed(finder)
    }

    /// Goes to the next or the previous match of a query that there is.
    fn step_to<R: Fn(Find, &B) -> Find, N: Fn(&Find, Position, Direction) -> Option<Range>>(
        &mut self,
        direction: Direction,
        refresh: &R,
        nearest: &N,
    ) -> (r: Outcome)
        requires
            forall|bar: Find, body: &B| refresh.requires((bar, body)),
            forall|bar: &Find, at: Position, direction: Direction|
                nearest.requires((bar, at, direction)),
        ensures
            steps_to(*refresh, *nearest, *old(self), *final(self), direction, r),
    {
        let ghost before = *self;
        self.refresh_matches(refresh);
        let ghost bar = self.active.find;
        assert(refresh.ensures((before.active.find, &before.active.document.body), bar));
        if self.active.find.matches.len() == 0 {
            return self.active.find.no_find_results();
        }
        let range: Range = self.active.view.selections.primary.range();
        let from: Position = match direction {
            Direction::Next => range.end,
            Direction::Prev => range.start,
        };
        let near: Option<Range> = nearest(&self.active.find, from, direction);
        assert(nearest.ensures(
            (&bar, search_from(before.active.view.selections.primary, direction), direction),
            near,
        ));
        self.select_if(near);
        match near {
            None => Outcome::Handled,
            Some(range) => self.active.find.count_match(range),
        }
    }

    /// Goes to the next or the previous match.
    pub fn step_find<
        T: Fn(&B, Range) -> String,
        W: Fn(&B, Position) -> Option<Range>,
        P,
        R: Fn(Find, &B) -> Find,
        N: Fn(&Find, Position, Direction) -> Option<Range>,
        Q: Fn(Find, String) -> Find,
        X,
    >(
        &mut self,
        direction: Direction,
        reader: &Reader<T, W>,
        finder: &Finder<P, R, N, Q, X>,
    ) -> (r: Outcome)
        requires
            reads::<B, T, W>(*reader),
            forall|bar: Find, body: &B| finder.refresh.requires((bar, body)),
            forall|bar: &Find, at: Position, direction: Direction|
                finder.nearest.requires((bar, at, direction)),
            forall|bar: Find, text: String| finder.seeded.requires((bar, text)),
        ensures
            steps_find(*reader, *finder, *old(self), *final(self), direction, r),
    {
        let ghost before = *self;
        if self.active.find.query.as_str().is_empty() {
            let seed: Option<(String, Range)> = self.seed_from_document(reader);
            assert(seed_found(*reader, before.active, seed));
            match seed {
                None => {
                    return Outcome::Message("nothing to search for".to_owned());
                },
                Some((text, range)) => {
                    let ghost text_taken = text;
                    let bar: Find = self.take_bar();
                    self.active.find = (finder.seeded)(bar, text);
                    let ghost seeded = self.active.find;
                    assert(finder.seeded.ensures((before.active.find, text_taken), seeded));
                    self.select_match(range);
                    let ghost mid = *self;
                    assert(range_selected(with_find(before, seeded), mid, range));
                    return self.step_to(direction, &finder.refresh, &finder.nearest);
                },
            }
        }
        self.step_to(direction, &finder.refresh, &finder.nearest)
    }

    /// Replaces the match at `current` by what the bar says, and selects the next one.
    fn replace_current<
        T: Fn(&B, Range) -> String,
        W: Fn(&B, Position) -> Option<Range>,
        P,
        R: Fn(Find, &B) -> Find,
        N: Fn(&Find, Position, Direction) -> Option<Range>,
        Q: Fn(Find, String) -> Find,
        X: Fn(&Find, &B) -> Vec<(Range, String)>,
        C: Fn(&B, Position) -> Position,
        I,
        O,
        K: Fn(&B, &Option<ActiveSnippet>, &Vec<Change>, &SelectionSet, Option<u64>, Position) -> Edited<
            B,
        >,
    >(
        &mut self,
        current: Range,
        reader: &Reader<T, W>,
        finder: &Finder<P, R, N, Q, X>,
        engine: &Engine<C, I, O, K>,
    ) -> (r: Outcome)
        requires
            reads::<B, T, W>(*reader),
            forall|bar: Find, body: &B| finder.refresh.requires((bar, body)),
            forall|bar: &Find, at: Position, direction: Direction|
                finder.nearest.requires((bar, at, direction)),
            forall|bar: Find, text: String| finder.seeded.requires((bar, text)),
            forall|bar: &Find, body: &B| finder.expand.requires((bar, body)),
            forall|body: &B, at: Position| engine.clamp.requires((body, at)),
            forall|
                body: &B,
                snippet: &Option<ActiveSnippet>,
                changes: &Vec<Change>,
                selections: &SelectionSet,
                group: Option<u64>,
                caret: Position,
            |
                engine.commit.requires((body, snippet, changes, selections, group, caret)),
            replacements_fit(finder.expand, engine.clamp, old(self).active.document.body),
        ensures
            replaces_current(
                *reader,
                *finder,
                engine.clamp,
                engine.commit,
                *old(self),
                *final(self),
                current,
                r,
            ),
    {
        let ghost before = *self;
        let list: Vec<(Range, String)> = (finder.expand)(
            &self.active.find,
            &self.active.document.body,
        );
        assert(finder.expand.ensures((&before.active.find, &before.active.document.body), list));
        let i: usize = index_for(&list, current);
        if i >= list.len() {
            return self.step_find(Direction::Next, reader, finder);
        }
        proof {
            lemma_replacement_for(list@, current);
            assert(list@[i as int].0 == current);
        }
        let end: Position = self.replace_range(current, list[i].1.as_str(), engine);
        let ghost mid = *self;
        proof {
            let put = choose|put: Session<B, S, M>|
                range_replaced(
                    engine.clamp,
                    engine.commit,
                    before,
                    put,
                    current,
                    list@[i as int].1@,
                    end,
                ) && #[trigger] refreshed(put, mid);
            assert(range_replaced(
                engine.clamp,
                engine.commit,
                before,
                put,
                current,
                list@[i as int].1@,
                end,
            ));
        }
        self.refresh_matches(&finder.refresh);
        let ghost bar = self.active.find;
        let near: Option<Range> = (finder.nearest)(&self.active.find, end, Direction::Next);
        self.select_if(near);
        proof {
            assert(finder.refresh.ensures((mid.active.find, &mid.active.document.body), bar));
            assert(finder.nearest.ensures(
                (&bar, starting_at(bar, false, end), Direction::Next),
                near,
            ));
            assert(found_from(finder.refresh, finder.nearest, mid, *self, false, end));
        }
        Outcome::Handled
    }

    /// Replaces the selected match and selects the next one. Where no match is selected, the next
    /// one is, and nothing is replaced.
    pub fn replace_one<
        T: Fn(&B, Range) -> String,
        W: Fn(&B, Position) -> Option<Range>,
        P,
        R: Fn(Find, &B) -> Find,
        N: Fn(&Find, Position, Direction) -> Option<Range>,
        Q: Fn(Find, String) -> Find,
        X: Fn(&Find, &B) -> Vec<(Range, String)>,
        C: Fn(&B, Position) -> Position,
        I,
        O,
        K: Fn(&B, &Option<ActiveSnippet>, &Vec<Change>, &SelectionSet, Option<u64>, Position) -> Edited<
            B,
        >,
    >(
        &mut self,
        reader: &Reader<T, W>,
        finder: &Finder<P, R, N, Q, X>,
        engine: &Engine<C, I, O, K>,
    ) -> (r: Outcome)
        requires
            reads::<B, T, W>(*reader),
            forall|bar: Find, body: &B| finder.refresh.requires((bar, body)),
            forall|bar: &Find, at: Position, direction: Direction|
                finder.nearest.requires((bar, at, direction)),
            forall|bar: Find, text: String| finder.seeded.requires((bar, text)),
            forall|bar: &Find, body: &B| finder.expand.requires((bar, body)),
            forall|body: &B, at: Position| engine.clamp.requires((body, at)),
            forall|
                body: &B,
                snippet: &Option<ActiveSnippet>,
                changes: &Vec<Change>,
                selections: &SelectionSet,
                group: Option<u64>,
                caret: Position,
            |
                engine.commit.requires((body, snippet, changes, selections, group, caret)),
            replacements_fit(finder.expand, engine.clamp, old(self).active.document.body),
        ensures
            replaces_one(
                *reader,
                *finder,
                engine.clamp,
                engine.commit,
                *old(self),
                *final(self),
                r,
            ),
    {
        let ghost before = *self;
        if self.active.find.query.as_str().is_empty() {
            return Outcome::Message("nothing to replace".to_owned());
        }
        self.refresh_matches(&finder.refresh);
        let ghost bar = self.active.find;
        assert(finder.refresh.ensures((before.active.find, &before.active.document.body), bar));
        if self.active.find.matches.len() == 0 {
            return self.active.find.no_find_results();
        }
        let current: Range = self.active.view.selections.primary.range();
        if ordinal(&self.active.find.matches, current).is_none() {
            return self.step_find(Direction::Next, reader, finder);
        }
        self.replace_current(current, reader, finder, engine)
    }

    /// Makes the replacements as one step, and says how many there were.
    fn replace_matches<
        R: Fn(Find, &B) -> Find,
        C: Fn(&B, Position) -> Position,
        I: Fn(&TextEdit) -> bool,
        O: Fn(&Vec<Change>) -> bool,
        K: Fn(&B, &Option<ActiveSnippet>, &Vec<Change>, &SelectionSet, Option<u64>, Position) -> Edited<
            B,
        >,
    >(&mut self, edits: &Vec<TextEdit>, refresh: &R, engine: &Engine<C, I, O, K>) -> (r: Outcome)
        requires
            forall|bar: Find, body: &B| refresh.requires((bar, body)),
            ready::<B, C, I, O, K>(*engine),
        ensures
            replaces_matches(*refresh, *engine, *old(self), *final(self), edits@, r),
    {
        let ghost before = *self;
        let result: Result<usize, EditError> = self.apply_edits(edits, engine);
        let ghost mid = *self;
        assert(edits_active(*engine, before, mid, edits@, result));
        let n: usize = match result {
            Ok(n) => n,
            Err(error) => {
                return Outcome::Message(error.message());
            },
        };
        self.refresh_matches(refresh);
        assert(refresh.ensures(
            (mid.active.find, &mid.active.document.body),
            self.active.find,
        ));
        let mut message: String = "replaced ".to_owned();
        let number: String = decimal(n as u64);
        message.append(number.as_str());
        message.append(" ");
        if n == 1 {
            message.append("occurrence");
        } else {
            message.append("occurrences");
        }
        Outcome::Message(message)
    }

    /// Replaces every match as one step.
    pub fn replace_all<
        T: Fn(&B, Range) -> String,
        W,
        P,
        R: Fn(Find, &B) -> Find,
        N,
        Q,
        X: Fn(&Find, &B) -> Vec<(Range, String)>,
        C: Fn(&B, Position) -> Position,
        I: Fn(&TextEdit) -> bool,
        O: Fn(&Vec<Change>) -> bool,
        K: Fn(&B, &Option<ActiveSnippet>, &Vec<Change>, &SelectionSet, Option<u64>, Position) -> Edited<
            B,
        >,
    >(
        &mut self,
        reader: &Reader<T, W>,
        finder: &Finder<P, R, N, Q, X>,
        engine: &Engine<C, I, O, K>,
    ) -> (r: Outcome)
        requires
            forall|body: &B, range: Range| reader.text_in.requires((body, range)),
            forall|bar: Find, body: &B| finder.refresh.requires((bar, body)),
            forall|bar: &Find, body: &B| finder.expand.requires((bar, body)),
            ready::<B, C, I, O, K>(*engine),
        ensures
            replaces_all(*reader, *finder, *engine, *old(self), *final(self), r),
    {
        let ghost before = *self;
        if self.active.find.query.as_str().is_empty() {
            return Outcome::Message("nothing to replace".to_owned());
        }
        self.refresh_matches(&finder.refresh);
        let ghost bar = self.active.find;
        assert(finder.refresh.ensures((before.active.find, &before.active.document.body), bar));
        if self.active.find.matches.len() == 0 {
            return self.active.find.no_find_results();
        }
        let list: Vec<(Range, String)> = (finder.expand)(
            &self.active.find,
            &self.active.document.body,
        );
        assert(finder.expand.ensures((&bar, &before.active.document.body), list));
        let edits: Vec<TextEdit> = changing_edits(
            &reader.text_in,
            &self.active.document.body,
            &list,
        );
        assert(changing(reader.text_in, before.active.document.body, list@, edits@));
        if edits.len() == 0 {
            if self.active.find.options.regex {
                return Outcome::Message("every match already reads as its replacement".to_owned());
            }
            let mut message: String = "every match already reads `".to_owned();
            message.append(self.active.find.replace.as_str());
            message.append("`");
            return Outcome::Message(message);
        }
        self.replace_matches(&edits, &finder.refresh, engine)
    }

    /// Goes to the next or the previous problem of the document, going round at its end.
    pub fn goto_marker<
        C: Fn(&B, Position) -> Position,
        F: Fn(&Diagnostic, Position) -> bool,
    >(&mut self, direction: Direction, clamp: &C, covers: &F) -> (r: Outcome)
        requires
            forall|body: &B, at: Position| clamp.requires((body, at)),
            forall|d: &Diagnostic, at: Position| covers.requires((d, at)),
        ensures
            goes_to_marker(*clamp, *covers, *old(self), *final(self), direction, r),
    {
        let ghost before = *self;
        let cursor: Position = self.active.view.selections.primary.active;
        let found: Option<Position> = match start_beyond(
            &self.active.diagnostics,
            Some(cursor),
            direction,
        ) {
            Some(start) => Some(start),
            None => start_beyond(&self.active.diagnostics, None, direction),
        };
        let start: Position = match found {
            Some(start) => start,
            None => {
                return Outcome::Message("no problems in this file".to_owned());
            },
        };
        let target: Position = clamp(&self.active.document.body, start);
        assert(clamped(*clamp, before.active.document.body, start, target));
        self.put_caret(target);
        let there: Vec<&Diagnostic> = self.diagnostics_at(target, covers);
        let ghost list = self.active.diagnostics@;
        proof {
            let marks = choose|marks: Seq<bool>|
                #[trigger] marks_at(*covers, list, target, marks) && Seq::new(
                    there@.len(),
                    |i: int| *there@[i],
                ) == worst_first(list, marks);
            assert(marks_at(*covers, list, target, marks));
            if there@.len() > 0 {
                assert(worst_first(list, marks)[0] == *there@[0]);
            }
        }
        if there.len() > 0 {
            return Outcome::Message(there[0].label.clone());
        }
        let mut message: String = "line ".to_owned();
        let number: String = decimal(target.line as u64 + 1);
        message.append(number.as_str());
        Outcome::Message(message)
    }
}

// ---------------------------------------------------------------------------
// Laws
// ---------------------------------------------------------------------------

/// Where there is a problem, there is a next one: going round meets one.
pub proof fn law_there_is_always_a_next_problem(
    list: Seq<Diagnostic>,
    cursor: Position,
    direction: Direction,
)
    requires
        list.len() > 0,
    ensures
        next_start(list, cursor, direction) is Some,
{
    lemma_first_start(list, None, direction);
}

pub(crate) proof fn lemma_first_start(list: Seq<Diagnostic>, beyond: Option<Position>, direction: Direction)
    ensures
        first_start(list, beyond, direction) is None ==> forall|i: int|
            0 <= i < list.len() ==> !is_beyond(
                (#[trigger] list[i]).range.start,
                beyond,
                direction,
            ),
        first_start(list, beyond, direction) matches Some(start) ==> {
            &&& is_beyond(start, beyond, direction)
            &&& exists|i: int| 0 <= i < list.len() && (#[trigger] list[i]).range.start == start
            &&& forall|i: int|
                0 <= i < list.len() && is_beyond(
                    (#[trigger] list[i]).range.start,
                    beyond,
                    direction,
                ) ==> !is_met_first(list[i].range.start, start, direction)
        },
    decreases list.len(),
{
    if list.len() > 0 {
        let rest = list.drop_last();
        lemma_first_start(rest, beyond, direction);
        assert forall|i: int| 0 <= i < rest.len() implies rest[i] == #[trigger] list[i] by {}
        match first_start(rest, beyond, direction) {
            Some(other) => {
                let k = choose|k: int|
                    0 <= k < rest.len() && (#[trigger] rest[k]).range.start == other;
                assert(list[k].range.start == other);
            },
            None => {},
        }
        assert(list[list.len() - 1] == list.last());
    }
}

/// The next problem is the nearest that starts behind the caret, where one does; and the previous
/// one the nearest before it.
pub proof fn law_the_next_problem_is_the_nearest(
    list: Seq<Diagnostic>,
    cursor: Position,
    direction: Direction,
    i: int,
)
    requires
        0 <= i < list.len(),
        is_beyond(list[i].range.start, Some(cursor), direction),
    ensures
        next_start(list, cursor, direction) matches Some(start) && is_beyond(
            start,
            Some(cursor),
            direction,
        ) && !is_met_first(list[i].range.start, start, direction),
{
    lemma_first_start(list, Some(cursor), direction);
}

/// With no match selected, nothing is replaced: the next match is only shown.
pub proof fn law_an_unseen_match_is_not_replaced<
    B,
    S,
    M,
    T: Fn(&B, Range) -> String,
    W: Fn(&B, Position) -> Option<Range>,
    P,
    R: Fn(Find, &B) -> Find,
    N: Fn(&Find, Position, Direction) -> Option<Range>,
    Q: Fn(Find, String) -> Find,
    X,
>(
    reader: Reader<T, W>,
    finder: Finder<P, R, N, Q, X>,
    before: Session<B, S, M>,
    after: Session<B, S, M>,
    direction: Direction,
    outcome: Outcome,
)
    requires
        steps_find(reader, finder, before, after, direction, outcome),
    ensures
        after.active.document == before.active.document,
        after.left == before.left,
        after.right == before.right,
{
}

} // verus!
