//! What applying a plan does to the documents it names, and to no other.

use vstd::prelude::*;
#[allow(unused_imports)]
use crate::editing::{Change, Position, SelectionSet, TextEdit};
#[allow(unused_imports)]
use crate::laws::planning::holds_file;
#[allow(unused_imports)]
use crate::laws::replacing::{batch_made, lemma_batch, Batch};
#[allow(unused_imports)]
use crate::path::{normal_parts, PathBuf};
#[allow(unused_imports)]
use crate::session::bulk::{
    all_applied, all_prepared, background_tab, changes_made, group_taken, lemma_holding,
    plan_applied, share_applied, share_prepared, tab_at_path, Share,
};
#[allow(unused_imports)]
use crate::session::edits::{builds, Edited, Engine};
#[allow(unused_imports)]
use crate::session::history::{files_apart, lemma_same_tab};
#[allow(unused_imports)]
use crate::session::layout::{laid_out, law_laying_out_changes_sizes_alone, refreshed};
#[allow(unused_imports)]
use crate::session::state::{Document, Session, Tab};
#[allow(unused_imports)]
use crate::snippet::ActiveSnippet;
#[allow(unused_imports)]
use crate::workspace::{Applied, PlannedDocument};

verus! {

/// Whether the document of a tab is as it was, and all the edits do nothing; or it has the text that
/// comes of all those that do something, as one step that belongs to the group.
pub open spec fn document_edited<
    B,
    S,
    C: Fn(&B, Position) -> Position,
    N: Fn(&TextEdit) -> bool,
    O: Fn(&Vec<Change>) -> bool,
    K: Fn(&B, &Option<ActiveSnippet>, &Vec<Change>, &SelectionSet, Option<u64>, Position) -> Edited<
        B,
    >,
>(
    engine: Engine<C, N, O, K>,
    start: Tab<B, S>,
    now: Document<B>,
    edits: Seq<TextEdit>,
    group: u64,
) -> bool {
    let body = start.document.body;
    ||| {
        &&& now.body == body
        &&& now.dirty == start.document.dirty
        &&& exists|batch: Batch| #[trigger]
            batch_made(engine.clamp, engine.noop, body, edits, Seq::empty(), batch)
    }
    ||| exists|changes: Vec<Change>, batch: Batch, edited: Edited<B>|
        {
            &&& changes@.len() > 0
            &&& #[trigger] batch_made(
                engine.clamp,
                engine.noop,
                body,
                edits,
                changes@,
                batch,
            )
            &&& engine.overlaps.ensures((&changes,), false)
            &&& #[trigger] engine.commit.ensures(
                (
                    &body,
                    &start.document.snippet,
                    &changes,
                    &start.view.selections,
                    Some(group),
                    start.view.selections.primary.active,
                ),
                edited,
            )
            &&& now.body == edited.text.body
            &&& now.undo_group == edited.text.undo_group
            &&& now.redo_group == edited.text.redo_group
            &&& now.dirty
        }
}

proof fn lemma_edited<
    B,
    S,
    C: Fn(&B, Position) -> Position,
    N: Fn(&TextEdit) -> bool,
    O: Fn(&Vec<Change>) -> bool,
    K: Fn(&B, &Option<ActiveSnippet>, &Vec<Change>, &SelectionSet, Option<u64>, Position) -> Edited<
        B,
    >,
>(
    engine: Engine<C, N, O, K>,
    start: Tab<B, S>,
    now: Tab<B, S>,
    edits: Seq<TextEdit>,
    changes: Option<Vec<Change>>,
    group: u64,
    made: Option<usize>,
)
    requires
        builds(engine, start.document.body, edits, Ok(changes)),
        changes_made(engine.commit, start, now, changes, group, made),
    ensures
        document_edited(engine, start, now.document, edits, group),
        now.document.path == start.document.path,
{
    let body = start.document.body;
    match changes {
        None => {
            let batch = lemma_batch(engine.clamp, engine.noop, body, edits, Seq::empty());
            assert(batch_made(engine.clamp, engine.noop, body, edits, Seq::empty(), batch));
        },
        Some(changes) => {
            let batch = lemma_batch(engine.clamp, engine.noop, body, edits, changes@);
            let edited = choose|edited: Edited<B>|
                {
                    &&& #[trigger] engine.commit.ensures(
                        (
                            &start.document.body,
                            &start.document.snippet,
                            &changes,
                            &start.view.selections,
                            Some(group),
                            crate::session::edits::caret_of(start.view.selections),
                        ),
                        edited,
                    )
                    &&& crate::session::edits::tab_edited(start, now, edited)
                };
            assert(batch_made(engine.clamp, engine.noop, body, edits, changes@, batch));
        },
    }
}

/// Where a planned document is once the plan is applied: in the tab that held its file, or in one
/// that was opened behind the others for it.
pub open spec fn taken_at<
    B,
    S,
    M,
    C: Fn(&B, Position) -> Position,
    N: Fn(&TextEdit) -> bool,
    O: Fn(&Vec<Change>) -> bool,
    K: Fn(&B, &Option<ActiveSnippet>, &Vec<Change>, &SelectionSet, Option<u64>, Position) -> Edited<
        B,
    >,
    D: Fn(&PathBuf, &String) -> Document<B>,
>(
    engine: Engine<C, N, O, K>,
    from_file: D,
    before: Session<B, S, M>,
    tabs: Seq<Tab<B, S>>,
    document: PlannedDocument,
    group: u64,
    k: int,
    start: Tab<B, S>,
) -> bool {
    &&& 0 <= k < tabs.len()
    &&& document_edited(engine, start, tabs[k].document, document.edits@, group)
    &&& tabs[k].document.path == start.document.path
    &&& if document.open {
        holds_file(before, k, document.path) && start == before.tabs()[k]
    } else {
        &&& k >= before.tabs().len()
        &&& document.contents is Some
        &&& from_file.ensures((&document.path, &document.contents->Some_0), start.document)
    }
}

/// Whether the tabs there were are still in their places, and hold their files.
spec fn in_place<B, S, M>(before: Session<B, S, M>, now: Session<B, S, M>) -> bool {
    &&& now.left@.len() == before.left@.len()
    &&& before.tabs().len() <= now.tabs().len()
    &&& forall|k: int|
        0 <= k < before.tabs().len() ==> (#[trigger] now.tabs()[k]).document.path
            == before.tabs()[k].document.path
}

/// Whether the file of the tab at `k` is none of those planned.
pub open spec fn unplanned<B, S, M>(
    before: Session<B, S, M>,
    documents: Seq<PlannedDocument>,
    k: int,
) -> bool {
    forall|i: int|
        0 <= i < documents.len() ==> !holds_file(before, k, (#[trigger] documents[i]).path)
}

/// One more share: it touches one tab, which is its own.
proof fn lemma_one_share<
    B,
    S,
    M,
    C: Fn(&B, Position) -> Position,
    N: Fn(&TextEdit) -> bool,
    O: Fn(&Vec<Change>) -> bool,
    K: Fn(&B, &Option<ActiveSnippet>, &Vec<Change>, &SelectionSet, Option<u64>, Position) -> Edited<
        B,
    >,
    D: Fn(&PathBuf, &String) -> Document<B>,
>(
    engine: Engine<C, N, O, K>,
    from_file: D,
    before: Session<B, S, M>,
    mid: Session<B, S, M>,
    after: Session<B, S, M>,
    document: PlannedDocument,
    share: Share<B>,
    group: u64,
    counts: (Applied, Applied),
) -> (r: (int, Tab<B, S>))
    requires
        in_place(before, mid),
        share_prepared(engine, from_file, before, document, share),
        share_applied(engine.commit, mid, after, document, share, group, counts),
        document.open ==> mid.tabs()[tab_at_path(before, document.path@)]
            == before.tabs()[tab_at_path(before, document.path@)],
    ensures
        in_place(before, after),
        taken_at(engine, from_file, before, after.tabs(), document, group, r.0, r.1),
        mid.tabs().len() <= after.tabs().len(),
        document.open ==> after.tabs().len() == mid.tabs().len(),
        !document.open ==> r.0 == mid.tabs().len(),
        forall|k: int|
            0 <= k < mid.tabs().len() && k != r.0 ==> #[trigger] after.tabs()[k] == mid.tabs()[k],
{
    if document.open {
        lemma_same_tab(before, mid, document.path@);
        let k = tab_at_path(mid, document.path@);
        let made = choose|made: Option<usize>|
            {
                &&& #[trigger] changes_made(
                    engine.commit,
                    mid.tabs()[k],
                    after.tabs()[k],
                    share.changes,
                    group,
                    made,
                )
                &&& after.tabs() == mid.tabs().update(k, after.tabs()[k])
                &&& after.left@.len() == mid.left@.len()
            };
        lemma_edited(
            engine,
            before.tabs()[k],
            after.tabs()[k],
            document.edits@,
            share.changes,
            group,
            made,
        );
        assert(holds_file(before, k, document.path));
        (k, before.tabs()[k])
    } else {
        let fresh = share.fresh->Some_0;
        let (made, opened) = choose|made: Option<usize>, opened: Tab<B, S>|
            {
                &&& background_tab(opened, fresh, mid.active.view)
                &&& after.right@.len() == mid.right@.len() + 1
                &&& #[trigger] changes_made(
                    engine.commit,
                    opened,
                    after.right@.last(),
                    share.changes,
                    group,
                    made,
                )
                &&& after.right@ == mid.right@.push(after.right@.last())
                &&& after == (Session { right: after.right, ..mid })
            };
        let k = mid.tabs().len() as int;
        assert(after.tabs() =~= mid.tabs().push(after.right@.last()));
        lemma_edited(
            engine,
            opened,
            after.tabs()[k],
            document.edits@,
            share.changes,
            group,
            made,
        );
        (k, opened)
    }
}

/// What the shares did, one by one.
proof fn lemma_all_shares<
    B,
    S,
    M,
    C: Fn(&B, Position) -> Position,
    N: Fn(&TextEdit) -> bool,
    O: Fn(&Vec<Change>) -> bool,
    K: Fn(&B, &Option<ActiveSnippet>, &Vec<Change>, &SelectionSet, Option<u64>, Position) -> Edited<
        B,
    >,
    D: Fn(&PathBuf, &String) -> Document<B>,
>(
    engine: Engine<C, N, O, K>,
    from_file: D,
    before: Session<B, S, M>,
    after: Session<B, S, M>,
    documents: Seq<PlannedDocument>,
    shares: Seq<Share<B>>,
    group: u64,
    applied: Applied,
) -> (r: Seq<(int, Tab<B, S>)>)
    requires
        all_prepared(engine, from_file, before, documents, shares),
        all_applied(engine.commit, before, after, documents, shares, group, applied),
        files_apart(documents),
    ensures
        in_place(before, after),
        r.len() == documents.len(),
        forall|i: int|
            0 <= i < documents.len() ==> taken_at(
                engine,
                from_file,
                before,
                after.tabs(),
                documents[i],
                group,
                (#[trigger] r[i]).0,
                r[i].1,
            ),
        forall|k: int|
            0 <= k < before.tabs().len() && #[trigger] unplanned(before, documents, k)
                ==> after.tabs()[k] == before.tabs()[k],
    decreases documents.len(),
{
    if documents.len() == 0 {
        Seq::empty()
    } else {
        let earlier = documents.drop_last();
        let kept = shares.drop_last();
        let last = documents[documents.len() - 1];
        let (mid, so_far) = choose|mid: Session<B, S, M>, so_far: Applied|
            all_applied(engine.commit, before, mid, earlier, kept, group, so_far)
                && #[trigger] share_applied(
                engine.commit,
                mid,
                after,
                documents.last(),
                shares.last(),
                group,
                (so_far, applied),
            );
        assert forall|i: int| 0 <= i < earlier.len() implies share_prepared(
            engine,
            from_file,
            before,
            earlier[i],
            #[trigger] kept[i],
        ) by {
            assert(kept[i] == shares[i]);
            assert(earlier[i] == documents[i]);
        }
        assert forall|i: int, j: int| 0 <= i < j < earlier.len() implies normal_parts(
            (#[trigger] earlier[i]).path@,
        ) != normal_parts((#[trigger] earlier[j]).path@) by {
            assert(earlier[i] == documents[i]);
            assert(earlier[j] == documents[j]);
        }
        let taken = lemma_all_shares(
            engine,
            from_file,
            before,
            mid,
            earlier,
            kept,
            group,
            so_far,
        );
        assert(shares[shares.len() - 1] == shares.last());
        let own = tab_at_path(before, last.path@);
        if last.open {
            lemma_holding(before.tabs(), last.path@);
            assert(before.tabs()[before.left@.len() as int] == before.active);
            assert(holds_file(before, own, last.path));
            assert forall|i: int| 0 <= i < earlier.len() implies !holds_file(
                before,
                own,
                (#[trigger] earlier[i]).path,
            ) by {
                assert(earlier[i] == documents[i]);
                assert(normal_parts(documents[i].path@) != normal_parts(
                    documents[documents.len() - 1].path@,
                ));
            }
            assert(unplanned(before, earlier, own));
        }
        let one = lemma_one_share(
            engine,
            from_file,
            before,
            mid,
            after,
            last,
            shares.last(),
            group,
            (so_far, applied),
        );
        let r = taken.push(one);
        assert forall|i: int| 0 <= i < documents.len() implies taken_at(
            engine,
            from_file,
            before,
            after.tabs(),
            documents[i],
            group,
            (#[trigger] r[i]).0,
            r[i].1,
        ) by {
            if i < earlier.len() {
                assert(r[i] == taken[i]);
                assert(earlier[i] == documents[i]);
                let k = taken[i].0;
                assert(normal_parts(documents[i].path@) != normal_parts(
                    documents[documents.len() - 1].path@,
                ));
                assert(k != one.0);
                assert(after.tabs()[k] == mid.tabs()[k]);
            }
        }
        assert forall|k: int|
            0 <= k < before.tabs().len() && #[trigger] unplanned(before, documents, k) implies
            after.tabs()[k] == before.tabs()[k] by {
            assert forall|i: int| 0 <= i < earlier.len() implies !holds_file(
                before,
                k,
                (#[trigger] earlier[i]).path,
            ) by {
                assert(earlier[i] == documents[i]);
            }
            assert(unplanned(before, earlier, k));
            assert(!holds_file(before, k, documents[documents.len() - 1].path));
            assert(k != one.0);
        }
        r
    }
}

/// Applying a plan makes every edit of every file it names, in the tab that holds the file or in one
/// opened behind the others for it, as one step of each document, all of the same group; and it
/// leaves the documents of every other tab as they were.
pub proof fn law_every_planned_edit_is_made<
    B,
    S,
    M,
    C: Fn(&B, Position) -> Position,
    N: Fn(&TextEdit) -> bool,
    O: Fn(&Vec<Change>) -> bool,
    K: Fn(&B, &Option<ActiveSnippet>, &Vec<Change>, &SelectionSet, Option<u64>, Position) -> Edited<
        B,
    >,
    D: Fn(&PathBuf, &String) -> Document<B>,
>(
    engine: Engine<C, N, O, K>,
    from_file: D,
    before: Session<B, S, M>,
    after: Session<B, S, M>,
    documents: Seq<PlannedDocument>,
    applied: Applied,
) -> (r: Seq<(int, Tab<B, S>)>)
    requires
        plan_applied(engine, from_file, before, after, documents, applied),
        files_apart(documents),
    ensures
        r.len() == documents.len(),
        forall|i: int|
            0 <= i < documents.len() ==> taken_at(
                engine,
                from_file,
                before,
                after.tabs(),
                documents[i],
                before.next_group,
                (#[trigger] r[i]).0,
                r[i].1,
            ),
        forall|k: int|
            0 <= k < before.tabs().len() && #[trigger] unplanned(before, documents, k) ==> {
                &&& after.tabs()[k].document.body == before.tabs()[k].document.body
                &&& after.tabs()[k].document.dirty == before.tabs()[k].document.dirty
                &&& after.tabs()[k].document.path == before.tabs()[k].document.path
            },
        before.tabs().len() <= after.tabs().len(),
{
    let (shares, made) = choose|shares: Seq<Share<B>>, made: Session<B, S, M>|
        {
            &&& #[trigger] all_prepared(engine, from_file, before, documents, shares)
            &&& #[trigger] all_applied(
                engine.commit,
                group_taken(before),
                made,
                documents,
                shares,
                before.next_group,
                applied,
            )
            &&& refreshed(laid_out(made), after)
        };
    let start = group_taken(before);
    assert(start.tabs() =~= before.tabs());
    assert forall|i: int| 0 <= i < documents.len() implies share_prepared(
        engine,
        from_file,
        start,
        documents[i],
        #[trigger] shares[i],
    ) by {
        assert(share_prepared(engine, from_file, before, documents[i], shares[i]));
        assert(tab_at_path(start, documents[i].path@) == tab_at_path(before, documents[i].path@));
    }
    let r = lemma_all_shares(
        engine,
        from_file,
        start,
        made,
        documents,
        shares,
        before.next_group,
        applied,
    );
    law_laying_out_changes_sizes_alone(made);
    let shown = laid_out(made);
    assert forall|k: int| 0 <= k < made.tabs().len() implies {
        let a = (#[trigger] after.tabs()[k]).document;
        let b = made.tabs()[k].document;
        a.body == b.body && a.dirty == b.dirty && a.path == b.path && a.undo_group == b.undo_group
            && a.redo_group == b.redo_group
    } by {
        lemma_shown(made, after, k);
    }
    assert forall|i: int| 0 <= i < documents.len() implies taken_at(
        engine,
        from_file,
        before,
        after.tabs(),
        documents[i],
        before.next_group,
        (#[trigger] r[i]).0,
        r[i].1,
    ) by {
        let k = r[i].0;
        lemma_shown(made, after, k);
        if documents[i].open {
            assert(holds_file(start, k, documents[i].path));
        }
    }
    assert forall|k: int| 0 <= k < before.tabs().len() && #[trigger] unplanned(
        before,
        documents,
        k,
    ) implies {
        &&& after.tabs()[k].document.body == before.tabs()[k].document.body
        &&& after.tabs()[k].document.dirty == before.tabs()[k].document.dirty
        &&& after.tabs()[k].document.path == before.tabs()[k].document.path
    } by {
        assert forall|i: int| 0 <= i < documents.len() implies !holds_file(
            start,
            k,
            (#[trigger] documents[i]).path,
        ) by {
            assert(!holds_file(before, k, documents[i].path));
        }
        assert(unplanned(start, documents, k));
        lemma_shown(made, after, k);
    }
    r
}

/// Bringing the session up to date keeps every document's text, file and history.
proof fn lemma_shown<B, S, M>(made: Session<B, S, M>, after: Session<B, S, M>, k: int)
    requires
        refreshed(laid_out(made), after),
        0 <= k < made.tabs().len(),
    ensures
        after.tabs().len() == made.tabs().len(),
        after.tabs()[k].document.body == made.tabs()[k].document.body,
        after.tabs()[k].document.dirty == made.tabs()[k].document.dirty,
        after.tabs()[k].document.path == made.tabs()[k].document.path,
        after.tabs()[k].document.undo_group == made.tabs()[k].document.undo_group,
        after.tabs()[k].document.redo_group == made.tabs()[k].document.redo_group,
{
    law_laying_out_changes_sizes_alone(made);
    let n = made.left@.len() as int;
    assert(made.tabs()[n] == made.active);
}

} // verus!
