//! Where a search in the document on screen looks, and what it looks for.

use vstd::prelude::*;
#[allow(unused_imports)]
use crate::editing::{Direction, Position, Range, Selection};
#[allow(unused_imports)]
use crate::laws::problems::comes_before;
#[allow(unused_imports)]
use crate::session::finding::{
    find_opened, maybe_selected, query_found, range_selected, search_from, seed_found, starting_at,
    steps_find, steps_to, with_find, Finder, Reader,
};
#[allow(unused_imports)]
use crate::session::outcome::Outcome;
#[allow(unused_imports)]
use crate::session::state::{Find, Session};

verus! {

/// Whether `p` is the end of a selection that comes last in the text, or the one that comes first.
pub open spec fn is_end_of(selection: Selection, last: bool, p: Position) -> bool {
    &&& p == selection.anchor || p == selection.active
    &&& last ==> !comes_before(p, selection.anchor) && !comes_before(p, selection.active)
    &&& !last ==> !comes_before(selection.anchor, p) && !comes_before(selection.active, p)
}

/// Whether a range, if there is one, is all that is selected afterwards; else the selections are
/// those of before.
pub open spec fn is_selected<B, S, M>(
    before: Session<B, S, M>,
    after: Session<B, S, M>,
    range: Option<Range>,
) -> bool {
    match range {
        Some(range) => {
            &&& after.active.view.selections.primary.anchor == range.start
            &&& after.active.view.selections.primary.active == range.end
            &&& after.active.view.selections.others@.len() == 0
            &&& after.active.view.reveal
        },
        None => after.active.view == before.active.view,
    }
}

/// Going to the next match looks from the end of what is selected on, and going to the previous one
/// from its start back; the match that is nearest there is selected. Without any match nothing moves.
/// The text stays.
pub proof fn law_a_step_goes_past_what_is_selected<
    B,
    S,
    M,
    R: Fn(Find, &B) -> Find,
    N: Fn(&Find, Position, Direction) -> Option<Range>,
>(
    refresh: R,
    nearest: N,
    before: Session<B, S, M>,
    after: Session<B, S, M>,
    direction: Direction,
    outcome: Outcome,
) -> (r: (Find, Option<Range>, Position))
    requires
        steps_to(refresh, nearest, before, after, direction, outcome),
    ensures
        refresh.ensures((before.active.find, &before.active.document.body), r.0),
        after.active.find == r.0,
        after.active.document == before.active.document,
        r.0.matches@.len() == 0 ==> after.active.view == before.active.view && outcome is Message,
        r.0.matches@.len() > 0 ==> {
            &&& is_end_of(before.active.view.selections.primary, direction == Direction::Next, r.2)
            &&& nearest.ensures((&r.0, r.2, direction), r.1)
            &&& is_selected(before, after, r.1)
        },
{
    let bar = choose|bar: Find|
        #[trigger] refresh.ensures((before.active.find, &before.active.document.body), bar)
            && if bar.matches@.len() == 0 {
            after == with_find(before, bar) && crate::session::finding::no_results(bar, outcome)
        } else {
            exists|near: Option<Range>|
                {
                    &&& #[trigger] nearest.ensures(
                        (
                            &bar,
                            search_from(before.active.view.selections.primary, direction),
                            direction,
                        ),
                        near,
                    )
                    &&& maybe_selected(with_find(before, bar), after, near)
                    &&& match near {
                        None => outcome is Handled,
                        Some(range) => crate::session::finding::counts_match(bar, range, outcome),
                    }
                }
        };
    let from = search_from(before.active.view.selections.primary, direction);
    if bar.matches@.len() == 0 {
        (bar, None, from)
    } else {
        let near = choose|near: Option<Range>|
            {
                &&& #[trigger] nearest.ensures((&bar, from, direction), near)
                &&& maybe_selected(with_find(before, bar), after, near)
                &&& match near {
                    None => outcome is Handled,
                    Some(range) => crate::session::finding::counts_match(bar, range, outcome),
                }
            };
        (bar, near, from)
    }
}

/// Whatever is typed into the query, what is looked for is looked for from where the search was
/// begun on, and the nearest match is selected.
pub proof fn law_typing_a_query_starts_where_the_search_did<
    B,
    S,
    M,
    R: Fn(Find, &B) -> Find,
    N: Fn(&Find, Position, Direction) -> Option<Range>,
>(refresh: R, nearest: N, before: Session<B, S, M>, after: Session<B, S, M>) -> (r: (
    Find,
    Option<Range>,
))
    requires
        query_found(refresh, nearest, before, after),
    ensures
        refresh.ensures((before.active.find, &before.active.document.body), r.0),
        nearest.ensures((&r.0, r.0.origin, Direction::Next), r.1),
        after.active.find == r.0,
        is_selected(before, after, r.1),
        after.active.document == before.active.document,
{
    let zero = Position { line: 0, character: 0 };
    let (bar, near) = choose|bar: Find, near: Option<Range>|
        {
            &&& #[trigger] refresh.ensures((before.active.find, &before.active.document.body), bar)
            &&& #[trigger] nearest.ensures(
                (&bar, starting_at(bar, true, zero), Direction::Next),
                near,
            )
            &&& maybe_selected(with_find(before, bar), after, near)
        };
    (bar, near)
}

/// The find bar opens with what is selected, where anything is, and begins where the selection
/// starts in the text.
pub proof fn law_the_find_bar_opens_with_what_is_selected<
    B,
    S,
    M,
    T: Fn(&B, Range) -> String,
    W,
    P: Fn(Find, Option<String>, Position, bool) -> Find,
    R: Fn(Find, &B) -> Find,
    N: Fn(&Find, Position, Direction) -> Option<Range>,
    Q,
    X,
>(
    reader: Reader<T, W>,
    finder: Finder<P, R, N, Q, X>,
    before: Session<B, S, M>,
    after: Session<B, S, M>,
    replacing: bool,
) -> (r: (Option<String>, Position, Find))
    requires
        find_opened(reader, finder, before, after, replacing),
    ensures
        ({
            let primary = before.active.view.selections.primary;
            &&& primary.anchor == primary.active ==> r.0 is None
            &&& primary.anchor != primary.active ==> r.0 is Some && exists|range: Range|
                #[trigger] reader.text_in.ensures(
                    (&before.active.document.body, range),
                    r.0->Some_0,
                ) && is_end_of(primary, false, range.start) && is_end_of(primary, true, range.end)
            &&& is_end_of(primary, false, r.1)
            &&& finder.open.ensures((before.active.find, r.0, r.1, replacing), r.2)
            &&& query_found(finder.refresh, finder.nearest, with_find(before, r.2), after)
        }),
{
    let primary = before.active.view.selections.primary;
    let (seed, bar) = choose|seed: Option<String>, bar: Find|
        {
            &&& match seed {
                Some(text) => primary.anchor != primary.active && reader.text_in.ensures(
                    (&before.active.document.body, primary.span()),
                    text,
                ),
                None => primary.anchor == primary.active,
            }
            &&& #[trigger] finder.open.ensures(
                (before.active.find, seed, primary.span().start, replacing),
                bar,
            )
            &&& query_found(finder.refresh, finder.nearest, with_find(before, bar), after)
        };
    if primary.anchor != primary.active {
        let range = primary.span();
        assert(reader.text_in.ensures((&before.active.document.body, range), seed->Some_0));
        assert(is_end_of(primary, false, range.start) && is_end_of(primary, true, range.end));
    }
    (seed, primary.span().start, bar)
}

/// A step without a query takes what is selected for it, or the word under the caret where nothing
/// is; it becomes what is selected, so that the step goes past it. Without either, nothing happens.
pub proof fn law_a_step_without_a_query_takes_one_from_the_text<
    B,
    S,
    M,
    T: Fn(&B, Range) -> String,
    W: Fn(&B, Position) -> Option<Range>,
    P,
    R: Fn(Find, &B) -> Find,
    N: Fn(&Find, Position, Direction) -> Option<Range>,
    Q: Fn(Find, String) -> Find,
    X,
>(
    reader: Reader<T, W>,
    finder: Finder<P, R, N, Q, X>,
    before: Session<B, S, M>,
    after: Session<B, S, M>,
    direction: Direction,
    outcome: Outcome,
) -> (r: (Option<(String, Range)>, Find, Session<B, S, M>))
    requires
        steps_find(reader, finder, before, after, direction, outcome),
        before.active.find.query@.len() == 0,
    ensures
        r.0 is None ==> after == before && outcome is Message,
        r.0 is Some ==> {
            let text = r.0->Some_0.0;
            let range = r.0->Some_0.1;
            let primary = before.active.view.selections.primary;
            &&& reader.text_in.ensures((&before.active.document.body, range), text)
            &&& primary.anchor != primary.active ==> is_end_of(primary, false, range.start)
                && is_end_of(primary, true, range.end) && text@.len() > 0
            &&& primary.anchor == primary.active ==> reader.word_at.ensures(
                (&before.active.document.body, primary.active),
                Some(range),
            )
            &&& finder.seeded.ensures((before.active.find, text), r.1)
            &&& r.2.active.find == r.1
            &&& is_selected(before, r.2, Some(range))
            &&& r.2.active.document == before.active.document
            &&& steps_to(finder.refresh, finder.nearest, r.2, after, direction, outcome)
        },
{
    let seed = choose|seed: Option<(String, Range)>|
        #[trigger] seed_found(reader, before.active, seed) && match seed {
            None => after == before && outcome.says("nothing to search for"@),
            Some(seed) => exists|bar: Find, mid: Session<B, S, M>|
                {
                    &&& #[trigger] finder.seeded.ensures((before.active.find, seed.0), bar)
                    &&& #[trigger] range_selected(with_find(before, bar), mid, seed.1)
                    &&& steps_to(
                        finder.refresh,
                        finder.nearest,
                        mid,
                        after,
                        direction,
                        outcome,
                    )
                },
        };
    match seed {
        None => (None, before.active.find, before),
        Some(found) => {
            let (bar, mid) = choose|bar: Find, mid: Session<B, S, M>|
                {
                    &&& #[trigger] finder.seeded.ensures((before.active.find, found.0), bar)
                    &&& #[trigger] range_selected(with_find(before, bar), mid, found.1)
                    &&& steps_to(
                        finder.refresh,
                        finder.nearest,
                        mid,
                        after,
                        direction,
                        outcome,
                    )
                };
            (Some(found), bar, mid)
        },
    }
}

} // verus!
