//! What edits and replacements do to the text of a document.

use vstd::prelude::*;
#[allow(unused_imports)]
use crate::editing::{Change, Direction, Position, Range, SelectionSet, TextEdit};
#[allow(unused_imports)]
use crate::laws::picking::{lemma_picked, picked, picks};
#[allow(unused_imports)]
use crate::session::edits::{
    applies_edits, builds, changes_of, clamped, commits_changes, edits_active, position_of,
    range_clamped, range_replaced, EditError, Edited, Engine,
};
#[allow(unused_imports)]
use crate::session::finding::{
    changing, found_from, ordinal_of, replacement_for, replaces_all, replaces_current,
    replaces_matches, replaces_one, steps_find, with_find, Finder, Reader,
};
#[allow(unused_imports)]
use crate::session::layout::refreshed;
#[allow(unused_imports)]
use crate::session::outcome::Outcome;
#[allow(unused_imports)]
use crate::session::state::{Find, Session, Tab};
#[allow(unused_imports)]
use crate::snippet::{inserted_end, place, ActiveSnippet};

verus! {

/// Whether a range is the given one with both ends brought inside the text, the earlier one first.
pub open spec fn brought_inside<B, C: Fn(&B, Position) -> Position>(
    clamp: C,
    body: B,
    given: Range,
    range: Range,
) -> bool {
    exists|start: Position, end: Position|
        {
            &&& #[trigger] clamp.ensures((&body, given.start), start)
            &&& #[trigger] clamp.ensures((&body, given.end), end)
            &&& if end.line < start.line || (end.line == start.line && end.character
                < start.character) {
                range.start == end && range.end == start
            } else {
                range.start == start && range.end == end
            }
        }
}

/// What became of the edits of a batch: which of them do something, and which of them each change
/// stands for.
pub struct Batch {
    pub acting: Seq<bool>,
    pub at: Seq<int>,
}

/// Whether the changes are the edits that do something, in order, each with its own text and with
/// its range inside the text.
pub open spec fn batch_made<B, C: Fn(&B, Position) -> Position, N: Fn(&TextEdit) -> bool>(
    clamp: C,
    noop: N,
    body: B,
    edits: Seq<TextEdit>,
    changes: Seq<Change>,
    batch: Batch,
) -> bool {
    &&& batch.acting.len() == edits.len()
    &&& forall|i: int|
        0 <= i < edits.len() ==> noop.ensures((&edits[i],), !#[trigger] batch.acting[i])
    &&& picks(batch.at, batch.acting)
    &&& changes.len() == batch.at.len()
    &&& forall|k: int|
        0 <= k < changes.len() ==> (#[trigger] changes[k]).text@ == edits[batch.at[k]].new_text@
            && brought_inside(clamp, body, edits[batch.at[k]].range, changes[k].range)
}

pub(crate) proof fn lemma_batch<B, C: Fn(&B, Position) -> Position, N: Fn(&TextEdit) -> bool>(
    clamp: C,
    noop: N,
    body: B,
    edits: Seq<TextEdit>,
    changes: Seq<Change>,
) -> (batch: Batch)
    requires
        changes_of(clamp, noop, body, edits, changes),
    ensures
        batch_made(clamp, noop, body, edits, changes, batch),
    decreases edits.len(),
{
    if edits.len() == 0 {
        let batch = Batch { acting: Seq::empty(), at: Seq::empty() };
        batch
    } else {
        let edit = edits.last();
        let idle = noop.ensures((&edit,), true) && changes_of(
            clamp,
            noop,
            body,
            edits.drop_last(),
            changes,
        );
        let kept = if idle {
            changes
        } else {
            changes.drop_last()
        };
        let before = lemma_batch(clamp, noop, body, edits.drop_last(), kept);
        let batch = Batch {
            acting: before.acting.push(!idle),
            at: picked(before.at, before.acting, !idle),
        };
        lemma_picked(before.at, before.acting, !idle);
        assert forall|i: int| 0 <= i < edits.len() implies noop.ensures(
            (&edits[i],),
            !#[trigger] batch.acting[i],
        ) by {
            if i < before.acting.len() {
                assert(batch.acting[i] == before.acting[i]);
                assert(edits.drop_last()[i] == edits[i]);
            }
        }
        if !idle {
            let last = changes.last();
            let (start, end) = choose|start: Position, end: Position|
                #[trigger] clamped(clamp, body, edit.range.start, start) && #[trigger] clamped(
                    clamp,
                    body,
                    edit.range.end,
                    end,
                ) && last.range == crate::editing::range_between(start, end);
            assert(clamp.ensures((&body, edit.range.start), start));
            assert(clamp.ensures((&body, edit.range.end), end));
            assert(brought_inside(clamp, body, edit.range, last.range));
        }
        assert forall|k: int| 0 <= k < changes.len() implies (#[trigger] changes[k]).text@
            == edits[batch.at[k]].new_text@ && brought_inside(
            clamp,
            body,
            edits[batch.at[k]].range,
            changes[k].range,
        ) by {
            if k < kept.len() {
                assert(changes[k] == kept[k]);
                assert(batch.at[k] == before.at[k]);
                assert(edits.drop_last()[before.at[k]] == edits[before.at[k]]);
            } else {
                assert(batch.at[k] == edits.len() - 1);
            }
        }
        batch
    }
}

/// Edits that are applied to a document are made, each with its own text and where it says, but
/// for those that do nothing: they are handed to the text as one step, and what the text then is,
/// the document holds, as a change that is not saved. Where all of them do nothing, the tab is as it
/// was.
pub proof fn law_every_edit_is_made<
    B,
    S,
    C: Fn(&B, Position) -> Position,
    N: Fn(&TextEdit) -> bool,
    O: Fn(&Vec<Change>) -> bool,
    K: Fn(&B, &Option<ActiveSnippet>, &Vec<Change>, &SelectionSet, Option<u64>, Position) -> Edited<
        B,
    >,
>(
    engine: Engine<C, N, O, K>,
    before: Tab<B, S>,
    after: Tab<B, S>,
    edits: Seq<TextEdit>,
    n: usize,
) -> (r: (Vec<Change>, Batch, Edited<B>))
    requires
        applies_edits(engine, before, after, edits, Ok(n)),
    ensures
        n == 0 ==> {
            &&& after == before
            &&& batch_made(
                engine.clamp,
                engine.noop,
                before.document.body,
                edits,
                Seq::empty(),
                r.1,
            )
        },
        n > 0 ==> {
            &&& n == r.0@.len()
            &&& batch_made(engine.clamp, engine.noop, before.document.body, edits, r.0@, r.1)
            &&& engine.overlaps.ensures((&r.0,), false)
            &&& engine.commit.ensures(
                (
                    &before.document.body,
                    &before.document.snippet,
                    &r.0,
                    &before.view.selections,
                    None,
                    before.view.selections.primary.active,
                ),
                r.2,
            )
            &&& after.document.body == r.2.text.body
            &&& after.document.version == r.2.text.version
            &&& after.document.snippet == r.2.text.snippet
            &&& after.document.undo_group == r.2.text.undo_group
            &&& after.document.redo_group == r.2.text.redo_group
            &&& after.document.dirty
            &&& after.document.path == before.document.path
            &&& after.view.selections.primary.anchor == r.2.cursor
            &&& after.view.selections.primary.active == r.2.cursor
            &&& after.view.selections.others@.len() == 0
        },
{
    let result = Ok::<usize, EditError>(n);
    let built = choose|built: Result<Option<Vec<Change>>, EditError>|
        #[trigger] builds(engine, before.document.body, edits, built) && match built {
            Err(error) => after == before && result == Err::<usize, EditError>(error),
            Ok(None) => after == before && result == Ok::<usize, EditError>(0),
            Ok(Some(changes)) => result matches Ok(n) && commits_changes(
                engine.commit,
                before,
                after,
                changes,
                None,
                n,
            ),
        };
    match built {
        Ok(Some(changes)) => {
            let batch = lemma_batch(
                engine.clamp,
                engine.noop,
                before.document.body,
                edits,
                changes@,
            );
            let edited = choose|edited: Edited<B>|
                {
                    &&& #[trigger] engine.commit.ensures(
                        (
                            &before.document.body,
                            &before.document.snippet,
                            &changes,
                            &before.view.selections,
                            None,
                            crate::session::edits::caret_of(before.view.selections),
                        ),
                        edited,
                    )
                    &&& crate::session::edits::tab_edited(before, after, edited)
                    &&& n == changes@.len()
                };
            (changes, batch, edited)
        },
        _ => {
            let batch = lemma_batch(
                engine.clamp,
                engine.noop,
                before.document.body,
                edits,
                Seq::empty(),
            );
            (arbitrary(), batch, arbitrary())
        },
    }
}

/// Edits are refused only where those that do something overlap, and then the tab is as it was.
pub proof fn law_only_overlapping_edits_are_refused<
    B,
    S,
    C: Fn(&B, Position) -> Position,
    N: Fn(&TextEdit) -> bool,
    O: Fn(&Vec<Change>) -> bool,
    K: Fn(&B, &Option<ActiveSnippet>, &Vec<Change>, &SelectionSet, Option<u64>, Position) -> Edited<
        B,
    >,
>(
    engine: Engine<C, N, O, K>,
    before: Tab<B, S>,
    after: Tab<B, S>,
    edits: Seq<TextEdit>,
    error: EditError,
) -> (r: (Vec<Change>, Batch))
    requires
        applies_edits(engine, before, after, edits, Err(error)),
    ensures
        after == before,
        batch_made(engine.clamp, engine.noop, before.document.body, edits, r.0@, r.1),
        engine.overlaps.ensures((&r.0,), true),
        r.0@.len() > 0,
{
    let result = Err::<usize, EditError>(error);
    let built = choose|built: Result<Option<Vec<Change>>, EditError>|
        #[trigger] builds(engine, before.document.body, edits, built) && match built {
            Err(error) => after == before && result == Err::<usize, EditError>(error),
            Ok(None) => after == before && result == Ok::<usize, EditError>(0),
            Ok(Some(changes)) => result matches Ok(n) && commits_changes(
                engine.commit,
                before,
                after,
                changes,
                None,
                n,
            ),
        };
    let changes = choose|changes: Vec<Change>|
        {
            &&& changes@.len() > 0
            &&& changes_of(engine.clamp, engine.noop, before.document.body, edits, changes@)
            &&& #[trigger] engine.overlaps.ensures((&changes,), true)
        };
    let batch = lemma_batch(engine.clamp, engine.noop, before.document.body, edits, changes@);
    (changes, batch)
}

/// What was found out about the matches: what each reads, whether that differs from what is to take
/// its place, and which of them each edit stands for.
pub struct Matches {
    pub texts: Seq<String>,
    pub differs: Seq<bool>,
    pub at: Seq<int>,
}

/// Whether the edits put every replacement, the empty one too, where the text does not read like it
/// already.
pub open spec fn matches_replaced<B, T: Fn(&B, Range) -> String>(
    text_in: T,
    body: B,
    list: Seq<(Range, String)>,
    edits: Seq<TextEdit>,
    found: Matches,
) -> bool {
    &&& found.texts.len() == list.len()
    &&& found.differs.len() == list.len()
    &&& forall|i: int|
        0 <= i < list.len() ==> text_in.ensures((&body, list[i].0), #[trigger] found.texts[i])
    &&& forall|i: int|
        0 <= i < list.len() ==> #[trigger] found.differs[i] == (found.texts[i]@ != list[i].1@)
    &&& picks(found.at, found.differs)
    &&& edits.len() == found.at.len()
    &&& forall|k: int|
        0 <= k < edits.len() ==> (#[trigger] edits[k]).range == list[found.at[k]].0
            && edits[k].new_text@ == list[found.at[k]].1@
}

proof fn lemma_matches<B, T: Fn(&B, Range) -> String>(
    text_in: T,
    body: B,
    list: Seq<(Range, String)>,
    edits: Seq<TextEdit>,
) -> (found: Matches)
    requires
        changing(text_in, body, list, edits),
    ensures
        matches_replaced(text_in, body, list, edits, found),
    decreases list.len(),
{
    if list.len() == 0 {
        let found = Matches { texts: Seq::empty(), differs: Seq::empty(), at: Seq::empty() };
        found
    } else {
        let last = list.last();
        let rest = list.drop_last();
        let text = choose|text: String|
            #[trigger] text_in.ensures((&body, last.0), text) && if text@ == last.1@ {
                changing(text_in, body, rest, edits)
            } else {
                &&& edits.len() > 0
                &&& edits.last().range == last.0
                &&& edits.last().new_text@ == last.1@
                &&& changing(text_in, body, rest, edits.drop_last())
            };
        let differs = text@ != last.1@;
        let kept = if differs {
            edits.drop_last()
        } else {
            edits
        };
        let before = lemma_matches(text_in, body, rest, kept);
        let found = Matches {
            texts: before.texts.push(text),
            differs: before.differs.push(differs),
            at: picked(before.at, before.differs, differs),
        };
        lemma_picked(before.at, before.differs, differs);
        assert forall|i: int| 0 <= i < list.len() implies text_in.ensures(
            (&body, list[i].0),
            #[trigger] found.texts[i],
        ) by {
            if i < rest.len() {
                assert(found.texts[i] == before.texts[i]);
                assert(rest[i] == list[i]);
            }
        }
        assert forall|i: int| 0 <= i < list.len() implies #[trigger] found.differs[i] == (
        found.texts[i]@ != list[i].1@) by {
            if i < rest.len() {
                assert(found.differs[i] == before.differs[i]);
                assert(rest[i] == list[i]);
            }
        }
        assert forall|k: int| 0 <= k < edits.len() implies (#[trigger] edits[k]).range
            == list[found.at[k]].0 && edits[k].new_text@ == list[found.at[k]].1@ by {
            if k < kept.len() {
                assert(edits[k] == kept[k]);
                assert(found.at[k] == before.at[k]);
                assert(rest[before.at[k]] == list[before.at[k]]);
            } else {
                assert(found.at[k] == list.len() - 1);
            }
        }
        found
    }
}

/// Replacing every match hands on an edit for each match that does not already read as what is to
/// take its place, whatever that is, in one batch, and touches nothing else. Where there is no such
/// match the document is as it was.
pub proof fn law_every_match_is_replaced<
    B,
    S,
    M,
    T: Fn(&B, Range) -> String,
    W,
    P,
    R: Fn(Find, &B) -> Find,
    N,
    Q,
    X: Fn(&Find, &B) -> Vec<(Range, String)>,
    C: Fn(&B, Position) -> Position,
    I: Fn(&TextEdit) -> bool,
    O: Fn(&Vec<Change>) -> bool,
    K: Fn(&B, &Option<ActiveSnippet>, &Vec<Change>, &SelectionSet, Option<u64>, Position) -> Edited<
        B,
    >,
>(
    reader: Reader<T, W>,
    finder: Finder<P, R, N, Q, X>,
    engine: Engine<C, I, O, K>,
    before: Session<B, S, M>,
    after: Session<B, S, M>,
    outcome: Outcome,
) -> (r: (Find, Vec<(Range, String)>, Vec<TextEdit>, Matches))
    requires
        replaces_all(reader, finder, engine, before, after, outcome),
    ensures
        after.left == before.left,
        after.right == before.right,
        before.active.find.query@.len() == 0 ==> after == before,
        before.active.find.query@.len() > 0 ==> {
            &&& finder.refresh.ensures((before.active.find, &before.active.document.body), r.0)
            &&& r.0.matches@.len() == 0 ==> after.active.document == before.active.document
            &&& r.0.matches@.len() > 0 ==> {
                &&& finder.expand.ensures((&r.0, &before.active.document.body), r.1)
                &&& matches_replaced(
                    reader.text_in,
                    before.active.document.body,
                    r.1@,
                    r.2@,
                    r.3,
                )
                &&& r.2@.len() == 0 ==> after.active.document == before.active.document
                &&& r.2@.len() > 0 ==> exists|tab: Tab<B, S>, result: Result<usize, EditError>|
                    {
                        &&& #[trigger] applies_edits(
                            engine,
                            Tab { find: r.0, ..before.active },
                            tab,
                            r.2@,
                            result,
                        )
                        &&& after.active.document.body == tab.document.body
                        &&& after.active.document.dirty == tab.document.dirty
                        &&& after.active.document.path == before.active.document.path
                    }
            }
        },
{
    if before.active.find.query@.len() == 0 {
        (arbitrary(), arbitrary(), arbitrary(), arbitrary())
    } else {
        let bar = choose|bar: Find|
            {
                let s = with_find(before, bar);
                &&& #[trigger] finder.refresh.ensures(
                    (before.active.find, &before.active.document.body),
                    bar,
                )
                &&& if bar.matches@.len() == 0 {
                    after == s && crate::session::finding::no_results(bar, outcome)
                } else {
                    exists|list: Vec<(Range, String)>, edits: Vec<TextEdit>|
                        {
                            &&& #[trigger] finder.expand.ensures(
                                (&bar, &before.active.document.body),
                                list,
                            )
                            &&& #[trigger] changing(
                                reader.text_in,
                                before.active.document.body,
                                list@,
                                edits@,
                            )
                            &&& if edits@.len() == 0 {
                                after == s && outcome.says(
                                    crate::session::finding::unchanged_text(bar),
                                )
                            } else {
                                replaces_matches(finder.refresh, engine, s, after, edits@, outcome)
                            }
                        }
                }
            };
        let s = with_find(before, bar);
        if bar.matches@.len() == 0 {
            (bar, arbitrary(), arbitrary(), arbitrary())
        } else {
            let (list, edits) = choose|list: Vec<(Range, String)>, edits: Vec<TextEdit>|
                {
                    &&& #[trigger] finder.expand.ensures(
                        (&bar, &before.active.document.body),
                        list,
                    )
                    &&& #[trigger] changing(
                        reader.text_in,
                        before.active.document.body,
                        list@,
                        edits@,
                    )
                    &&& if edits@.len() == 0 {
                        after == s && outcome.says(crate::session::finding::unchanged_text(bar))
                    } else {
                        replaces_matches(finder.refresh, engine, s, after, edits@, outcome)
                    }
                };
            let found = lemma_matches(reader.text_in, before.active.document.body, list@, edits@);
            if edits@.len() > 0 {
                lemma_made(finder.refresh, engine, s, after, edits@, outcome);
            }
            (bar, list, edits, found)
        }
    }
}

proof fn lemma_made<
    B,
    S,
    M,
    R: Fn(Find, &B) -> Find,
    C: Fn(&B, Position) -> Position,
    I: Fn(&TextEdit) -> bool,
    O: Fn(&Vec<Change>) -> bool,
    K: Fn(&B, &Option<ActiveSnippet>, &Vec<Change>, &SelectionSet, Option<u64>, Position) -> Edited<
        B,
    >,
>(
    refresh: R,
    engine: Engine<C, I, O, K>,
    before: Session<B, S, M>,
    after: Session<B, S, M>,
    edits: Seq<TextEdit>,
    outcome: Outcome,
)
    requires
        replaces_matches(refresh, engine, before, after, edits, outcome),
    ensures
        after.left == before.left,
        after.right == before.right,
        exists|tab: Tab<B, S>, result: Result<usize, EditError>|
            {
                &&& #[trigger] applies_edits(engine, before.active, tab, edits, result)
                &&& after.active.document.body == tab.document.body
                &&& after.active.document.dirty == tab.document.dirty
                &&& after.active.document.path == before.active.document.path
            },
{
    let (mid, result) = choose|mid: Session<B, S, M>, result: Result<usize, EditError>|
        #[trigger] edits_active(engine, before, mid, edits, result) && match result {
            Err(_) => after == mid,
            Ok(n) => exists|bar: Find|
                #[trigger] refresh.ensures((mid.active.find, &mid.active.document.body), bar)
                    && after == with_find(mid, bar),
        };
    let tab = choose|tab: Tab<B, S>|
        #[trigger] applies_edits(engine, before.active, tab, edits, result) && {
            let made = Session { active: tab, ..before };
            if result matches Ok(n) && n > 0 {
                refreshed(made, mid)
            } else {
                mid == made
            }
        };
    assert(mid.active.document.body == tab.document.body);
    assert(applies_edits(engine, before.active, tab, edits, result));
}

/// Replacing one match puts its own replacement, and no other, where the selected match is, as one
/// step; the rest of the text is not touched.
pub proof fn law_the_selected_match_is_replaced<
    B,
    S,
    M,
    T: Fn(&B, Range) -> String,
    W: Fn(&B, Position) -> Option<Range>,
    P,
    R: Fn(Find, &B) -> Find,
    N: Fn(&Find, Position, Direction) -> Option<Range>,
    Q: Fn(Find, String) -> Find,
    X: Fn(&Find, &B) -> Vec<(Range, String)>,
    C: Fn(&B, Position) -> Position,
    K: Fn(&B, &Option<ActiveSnippet>, &Vec<Change>, &SelectionSet, Option<u64>, Position) -> Edited<
        B,
    >,
>(
    reader: Reader<T, W>,
    finder: Finder<P, R, N, Q, X>,
    clamp: C,
    commit: K,
    before: Session<B, S, M>,
    after: Session<B, S, M>,
    current: Range,
    outcome: Outcome,
) -> (r: (Vec<(Range, String)>, int, Vec<Change>, Edited<B>, Position))
    requires
        replaces_current(reader, finder, clamp, commit, before, after, current, outcome),
    ensures
        finder.expand.ensures((&before.active.find, &before.active.document.body), r.0),
        (forall|i: int| 0 <= i < r.0@.len() ==> (#[trigger] r.0@[i]).0 != current)
            ==> after.active.document == before.active.document,
        (exists|i: int| 0 <= i < r.0@.len() && (#[trigger] r.0@[i]).0 == current) ==> {
            &&& 0 <= r.1 < r.0@.len()
            &&& r.0@[r.1].0 == current
            &&& forall|i: int| 0 <= i < r.1 ==> (#[trigger] r.0@[i]).0 != current
            &&& r.2@.len() == 1
            &&& r.2@[0].text@ == r.0@[r.1].1@
            &&& brought_inside(clamp, before.active.document.body, current, r.2@[0].range)
            &&& commit.ensures(
                (
                    &before.active.document.body,
                    &before.active.document.snippet,
                    &r.2,
                    &before.active.view.selections,
                    None,
                    r.4,
                ),
                r.3,
            )
            &&& after.active.document.body == r.3.text.body
            &&& after.active.document.dirty
        },
{
    let list = choose|list: Vec<(Range, String)>|
        {
            let i = replacement_for(list@, current);
            &&& #[trigger] finder.expand.ensures(
                (&before.active.find, &before.active.document.body),
                list,
            )
            &&& if i >= list@.len() {
                steps_find(reader, finder, before, after, Direction::Next, outcome)
            } else {
                &&& outcome is Handled
                &&& exists|end: Position, put: Session<B, S, M>, mid: Session<B, S, M>|
                    {
                        &&& #[trigger] range_replaced(
                            clamp,
                            commit,
                            before,
                            put,
                            current,
                            list@[i].1@,
                            end,
                        )
                        &&& #[trigger] refreshed(put, mid)
                        &&& found_from(finder.refresh, finder.nearest, mid, after, false, end)
                    }
            }
        };
    lemma_first_for(list@, current);
    let i = replacement_for(list@, current);
    if i >= list@.len() {
        crate::session::finding::law_an_unseen_match_is_not_replaced(
            reader,
            finder,
            before,
            after,
            Direction::Next,
            outcome,
        );
        (list, i, arbitrary(), arbitrary(), arbitrary())
    } else {
        let (end, put, mid) = choose|
            end: Position,
            put: Session<B, S, M>,
            mid: Session<B, S, M>,
        |
            {
                &&& #[trigger] range_replaced(
                    clamp,
                    commit,
                    before,
                    put,
                    current,
                    list@[i].1@,
                    end,
                )
                &&& #[trigger] refreshed(put, mid)
                &&& found_from(finder.refresh, finder.nearest, mid, after, false, end)
            };
        let (changes, edited, caret) = law_a_range_is_replaced(
            clamp,
            commit,
            before,
            put,
            current,
            list@[i].1@,
            end,
        );
        (list, i, changes, edited, caret)
    }
}

/// A range has a number among the matches exactly where it is one of them.
proof fn lemma_ordinal(matches: Seq<Range>, range: Range)
    ensures
        ordinal_of(matches, range) is Some <==> matches.contains(range),
        ordinal_of(matches, range) matches Some(n) ==> 1 <= n <= matches.len() && matches[n - 1]
            == range && forall|i: int| 0 <= i < n - 1 ==> #[trigger] matches[i] != range,
    decreases matches.len(),
{
    if matches.len() > 0 {
        let rest = matches.skip(1);
        lemma_ordinal(rest, range);
        if matches[0] == range {
            assert(matches.contains(range));
        } else {
            if rest.contains(range) {
                let k = choose|k: int| 0 <= k < rest.len() && rest[k] == range;
                assert(matches[k + 1] == range);
            }
            if matches.contains(range) {
                let k = choose|k: int| 0 <= k < matches.len() && matches[k] == range;
                assert(rest[k - 1] == range);
            }
            if ordinal_of(matches, range) is Some {
                let n = ordinal_of(matches, range)->Some_0;
                assert(rest[n - 2] == matches[n - 1]);
                assert forall|i: int| 0 <= i < n - 1 implies #[trigger] matches[i] != range by {
                    if i > 0 {
                        assert(rest[i - 1] == matches[i]);
                    }
                }
            }
        }
    }
}

/// The number of a match is its place among the matches, counted from one.
pub proof fn law_matches_are_counted_from_one(matches: Seq<Range>, i: int)
    requires
        0 <= i < matches.len(),
        forall|j: int| 0 <= j < i ==> matches[j] != matches[i],
    ensures
        ordinal_of(matches, matches[i]) == Some((i + 1) as nat),
{
    lemma_ordinal(matches, matches[i]);
    assert(matches.contains(matches[i]));
    let n = ordinal_of(matches, matches[i])->Some_0;
    assert(matches[n - 1] == matches[i]);
    if i < n - 1 {
        assert(matches[i] != matches[i]);
    }
}

/// Replacing the selected match changes the text only where what is selected is one of the matches;
/// it is then replaced, as [`law_the_selected_match_is_replaced`] says.
pub proof fn law_only_a_match_is_replaced<
    B,
    S,
    M,
    T: Fn(&B, Range) -> String,
    W: Fn(&B, Position) -> Option<Range>,
    P,
    R: Fn(Find, &B) -> Find,
    N: Fn(&Find, Position, Direction) -> Option<Range>,
    Q: Fn(Find, String) -> Find,
    X: Fn(&Find, &B) -> Vec<(Range, String)>,
    C: Fn(&B, Position) -> Position,
    K: Fn(&B, &Option<ActiveSnippet>, &Vec<Change>, &SelectionSet, Option<u64>, Position) -> Edited<
        B,
    >,
>(
    reader: Reader<T, W>,
    finder: Finder<P, R, N, Q, X>,
    clamp: C,
    commit: K,
    before: Session<B, S, M>,
    after: Session<B, S, M>,
    outcome: Outcome,
) -> (bar: Find)
    requires
        replaces_one(reader, finder, clamp, commit, before, after, outcome),
    ensures
        before.active.find.query@.len() == 0 ==> after == before,
        before.active.find.query@.len() > 0 ==> {
            let current = before.active.view.selections.primary.span();
            &&& finder.refresh.ensures((before.active.find, &before.active.document.body), bar)
            &&& !bar.matches@.contains(current) ==> after.active.document
                == before.active.document
            &&& bar.matches@.contains(current) ==> replaces_current(
                reader,
                finder,
                clamp,
                commit,
                Session { active: Tab { find: bar, ..before.active }, ..before },
                after,
                current,
                outcome,
            )
        },
{
    if before.active.find.query@.len() == 0 {
        arbitrary()
    } else {
        let current = before.active.view.selections.primary.span();
        let bar = choose|bar: Find|
            {
                let s = with_find(before, bar);
                &&& #[trigger] finder.refresh.ensures(
                    (before.active.find, &before.active.document.body),
                    bar,
                )
                &&& if bar.matches@.len() == 0 {
                    after == s && crate::session::finding::no_results(bar, outcome)
                } else if ordinal_of(bar.matches@, current) is None {
                    steps_find(reader, finder, s, after, Direction::Next, outcome)
                } else {
                    replaces_current(reader, finder, clamp, commit, s, after, current, outcome)
                }
            };
        lemma_ordinal(bar.matches@, current);
        if bar.matches@.len() > 0 && ordinal_of(bar.matches@, current) is None {
            crate::session::finding::law_an_unseen_match_is_not_replaced(
                reader,
                finder,
                with_find(before, bar),
                after,
                Direction::Next,
                outcome,
            );
        }
        bar
    }
}

proof fn lemma_first_for(list: Seq<(Range, String)>, range: Range)
    ensures
        0 <= replacement_for(list, range) <= list.len(),
        replacement_for(list, range) < list.len() ==> list[replacement_for(list, range)].0 == range,
        forall|i: int| 0 <= i < replacement_for(list, range) ==> (#[trigger] list[i]).0 != range,
    decreases list.len(),
{
    if list.len() > 0 && list[0].0 != range {
        let rest = list.skip(1);
        lemma_first_for(rest, range);
        let k = replacement_for(rest, range);
        if k < rest.len() {
            assert(rest[k] == list[k + 1]);
        }
        assert forall|i: int| 0 <= i < replacement_for(list, range) implies (#[trigger] list[i]).0
            != range by {
            if i > 0 {
                assert(rest[i - 1] == list[i]);
            }
        }
    }
}

/// Replacing a range makes one change, of that range inside the text and to that text, as one step;
/// the caret is then behind what was put there, no snippet is followed any longer, and no other tab
/// is touched.
pub proof fn law_a_range_is_replaced<
    B,
    S,
    M,
    C: Fn(&B, Position) -> Position,
    K: Fn(&B, &Option<ActiveSnippet>, &Vec<Change>, &SelectionSet, Option<u64>, Position) -> Edited<
        B,
    >,
>(
    clamp: C,
    commit: K,
    before: Session<B, S, M>,
    after: Session<B, S, M>,
    given: Range,
    text: Seq<char>,
    end: Position,
) -> (r: (Vec<Change>, Edited<B>, Position))
    requires
        range_replaced(clamp, commit, before, after, given, text, end),
    ensures
        r.0@.len() == 1,
        r.0@[0].text@ == text,
        brought_inside(clamp, before.active.document.body, given, r.0@[0].range),
        commit.ensures(
            (
                &before.active.document.body,
                &before.active.document.snippet,
                &r.0,
                &before.active.view.selections,
                None,
                r.2,
            ),
            r.1,
        ),
        after.active.document.body == r.1.text.body,
        after.active.document.dirty,
        after.active.document.snippet is None,
        after.active.document.path == before.active.document.path,
        end == r.1.cursor,
        after.active.view.selections.primary.anchor == end,
        after.active.view.selections.primary.active == end,
        after.active.view.selections.others@.len() == 0,
        r.2 == position_of(inserted_end(place(r.0@[0].range.start), text)),
        after.left == before.left,
        after.right == before.right,
{
    let (changes, edited) = choose|changes: Vec<Change>, edited: Edited<B>|
        {
            &&& changes@.len() == 1
            &&& changes@[0].text@ == text
            &&& range_clamped(clamp, before.active.document.body, given, changes@[0].range)
            &&& #[trigger] commit.ensures(
                (
                    &before.active.document.body,
                    &before.active.document.snippet,
                    &changes,
                    &before.active.view.selections,
                    None,
                    position_of(inserted_end(place(changes@[0].range.start), text)),
                ),
                edited,
            )
            &&& end == edited.cursor
            &&& after == (Session { active: after.active, ..before })
            &&& crate::session::edits::tab_edited(
                before.active,
                after.active,
                Edited {
                    text: crate::session::tabs::TextState { snippet: None, ..edited.text },
                    ..edited
                },
            )
        };
    let body = before.active.document.body;
    let (start, stop) = choose|start: Position, stop: Position|
        #[trigger] clamped(clamp, body, given.start, start) && #[trigger] clamped(
            clamp,
            body,
            given.end,
            stop,
        ) && changes@[0].range == crate::editing::range_between(start, stop);
    assert(clamp.ensures((&body, given.start), start));
    assert(clamp.ensures((&body, given.end), stop));
    assert(brought_inside(clamp, body, given, changes@[0].range));
    (changes, edited, position_of(inserted_end(place(changes@[0].range.start), text)))
}

} // verus!
