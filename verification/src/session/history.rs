//! What undoing gives back of a change that several documents share.

use vstd::prelude::*;
#[allow(unused_imports)]
use crate::editing::{Change, Position, SelectionSet, TextEdit};
#[allow(unused_imports)]
use crate::path::{normal_parts, Part, PathBuf};
#[allow(unused_imports)]
use crate::session::bulk::{
    all_applied, all_prepared, background_tab, changes_made, count_set, counted_share, group_taken,
    group_text, is_open, lemma_holding, next_group_of, plan_applied, share_applied,
    share_prepared, step_undone, steps_undone, tab_at_path, undoes_group, Share,
};
#[allow(unused_imports)]
use crate::session::edits::{commits_changes, tab_edited, Edited, Engine};
#[allow(unused_imports)]
use crate::session::layout::{laid_out, law_laying_out_changes_sizes_alone, refreshed};
#[allow(unused_imports)]
use crate::session::outcome::Outcome;
#[allow(unused_imports)]
use crate::session::routes::{lemma_routes_of_undoing, route_of, Route, TextRoute};
#[allow(unused_imports)]
use crate::session::run::{finishes, reported_in, runs, Ran, Work};
#[allow(unused_imports)]
use crate::session::state::{Document, Focus, Session, Tab};
#[allow(unused_imports)]
use crate::session::tabs::{is_at, TextState};
#[allow(unused_imports)]
use crate::snippet::ActiveSnippet;
#[allow(unused_imports)]
use crate::workspace::{Applied, PlannedDocument};

verus! {

/// Whether the history of a text keeps what is changed in it as part of a group: its next step
/// back is then of that group and gives back the text from before, and the next step forward
/// after that gives back the changed text. `text` says what a body holds.
pub open spec fn keeps_steps<
    B,
    K: Fn(&B, &Option<ActiveSnippet>, &Vec<Change>, &SelectionSet, Option<u64>, Position) -> Edited<
        B,
    >,
    U: Fn(&B, bool) -> Option<(TextState<B>, SelectionSet)>,
>(commit: K, step: U, text: spec_fn(B) -> Seq<char>, group: u64) -> bool {
    forall|
        body: B,
        snippet: Option<ActiveSnippet>,
        changes: Vec<Change>,
        selections: SelectionSet,
        caret: Position,
        edited: Edited<B>,
    | #[trigger]
        commit.ensures((&body, &snippet, &changes, &selections, Some(group), caret), edited)
            && changes@.len() > 0 ==> {
            &&& edited.text.undo_group == Some(group)
            &&& goes_back(step, text, group, body, edited.text.body)
        }
}

/// Whether a step back from `changed` gives back the text of `body`, and a step forward from
/// there the changed text.
pub open spec fn goes_back<B, U: Fn(&B, bool) -> Option<(TextState<B>, SelectionSet)>>(
    step: U,
    text: spec_fn(B) -> Seq<char>,
    group: u64,
    body: B,
    changed: B,
) -> bool {
    forall|back: Option<(TextState<B>, SelectionSet)>| #[trigger]
        step.ensures((&changed, false), back) ==> {
            &&& back matches Some(was)
            &&& text(was.0.body) == text(body)
            &&& was.0.redo_group == Some(group)
            &&& goes_forward(step, text, was.0.body, changed)
        }
}

/// Whether a step forward from `body` gives the text of `changed`.
pub open spec fn goes_forward<B, U: Fn(&B, bool) -> Option<(TextState<B>, SelectionSet)>>(
    step: U,
    text: spec_fn(B) -> Seq<char>,
    body: B,
    changed: B,
) -> bool {
    forall|forward: Option<(TextState<B>, SelectionSet)>| #[trigger]
        step.ensures((&body, true), forward) ==> {
            &&& forward matches Some(again)
            &&& text(again.0.body) == text(changed)
        }
}

/// Whether neither step of the document belongs to the group.
pub open spec fn apart_from<B>(document: Document<B>, group: u64) -> bool {
    document.undo_group != Some(group) && document.redo_group != Some(group)
}

/// Whether no two of the documents are the same file.
pub open spec fn files_apart(documents: Seq<PlannedDocument>) -> bool {
    forall|i: int, j: int|
        0 <= i < j < documents.len() ==> normal_parts((#[trigger] documents[i]).path@)
            != normal_parts((#[trigger] documents[j]).path@)
}

/// Whether a tab was changed as part of the group, in one place at least.
pub open spec fn changed_in<
    B,
    S,
    K: Fn(&B, &Option<ActiveSnippet>, &Vec<Change>, &SelectionSet, Option<u64>, Position) -> Edited<
        B,
    >,
>(commit: K, start: Tab<B, S>, now: Tab<B, S>, group: u64) -> bool {
    exists|changes: Vec<Change>, n: usize| #[trigger]
        commits_changes(commit, start, now, changes, Some(group), n) && n > 0
}

/// Whether the tabs began as `starts`, and those that are flagged were changed as part of the
/// group.
pub open spec fn began_as<
    B,
    S,
    K: Fn(&B, &Option<ActiveSnippet>, &Vec<Change>, &SelectionSet, Option<u64>, Position) -> Edited<
        B,
    >,
>(commit: K, starts: Seq<Tab<B, S>>, now: Seq<Tab<B, S>>, flags: Seq<bool>, group: u64) -> bool {
    &&& starts.len() == now.len()
    &&& flags.len() == now.len()
    &&& forall|i: int|
        0 <= i < now.len() ==> {
            &&& apart_from((#[trigger] starts[i]).document, group)
            &&& now[i].document.path == starts[i].document.path
            &&& if flags[i] {
                changed_in(commit, starts[i], now[i], group)
            } else {
                now[i] == starts[i]
            }
        }
}

/// Whether each flagged tab that was there before is one of the documents.
spec fn flagged_are_named<B, S, M>(
    before: Session<B, S, M>,
    documents: Seq<PlannedDocument>,
    flags: Seq<bool>,
) -> bool {
    forall|i: int|
        0 <= i < before.tabs().len() && #[trigger] flags[i] ==> exists|k: int|
            0 <= k < documents.len() && is_at(
                before.tabs()[i].document,
                (#[trigger] documents[k]).path@,
            )
}

proof fn lemma_count_push(flags: Seq<bool>, flag: bool)
    ensures
        count_set(flags.push(flag)) == count_set(flags) + if flag {
            1nat
        } else {
            0nat
        },
{
    assert(flags.push(flag).drop_last() =~= flags);
}

proof fn lemma_count_update(flags: Seq<bool>, i: int)
    requires
        0 <= i < flags.len(),
        !flags[i],
    ensures
        count_set(flags.update(i, true)) == count_set(flags) + 1,
    decreases flags.len(),
{
    let now = flags.update(i, true);
    if i == flags.len() - 1 {
        assert(now.drop_last() =~= flags.drop_last());
    } else {
        assert(now.drop_last() =~= flags.drop_last().update(i, true));
        lemma_count_update(flags.drop_last(), i);
    }
}

/// A file that is open stays in its tab while others are opened behind the last one.
pub(crate) proof fn lemma_same_tab<B, S, M>(
    before: Session<B, S, M>,
    now: Session<B, S, M>,
    path: Seq<Part>,
)
    requires
        is_open(before, path),
        now.left@.len() == before.left@.len(),
        before.tabs().len() <= now.tabs().len(),
        forall|k: int|
            0 <= k < before.tabs().len() ==> (#[trigger] now.tabs()[k]).document.path
                == before.tabs()[k].document.path,
    ensures
        tab_at_path(now, path) == tab_at_path(before, path),
        0 <= tab_at_path(before, path) < before.tabs().len(),
        is_at(before.tabs()[tab_at_path(before, path)].document, path),
{
    lemma_holding(before.tabs(), path);
    lemma_holding(now.tabs(), path);
    assert(before.tabs()[before.left@.len() as int] == before.active);
    assert(now.tabs()[now.left@.len() as int] == now.active);
    if !is_at(before.active.document, path) {
        let i = tab_at_path(before, path);
        let j = tab_at_path(now, path);
        assert(is_at(now.tabs()[i].document, path));
        if j < i {
            assert(!is_at(before.tabs()[j].document, path));
            assert(is_at(now.tabs()[j].document, path));
        }
        if i < j {
            assert(!is_at(now.tabs()[i].document, path));
        }
    }
}

/// Whether the tabs began as `starts`: as those there were, and behind them as those that were
/// opened; and whether those are flagged that a plan changed, each of which is counted.
spec fn shaped<
    B,
    S,
    M,
    K: Fn(&B, &Option<ActiveSnippet>, &Vec<Change>, &SelectionSet, Option<u64>, Position) -> Edited<
        B,
    >,
>(
    commit: K,
    before: Session<B, S, M>,
    after: Session<B, S, M>,
    documents: Seq<PlannedDocument>,
    shares: Seq<Share<B>>,
    group: u64,
    applied: Applied,
    starts: Seq<Tab<B, S>>,
    flags: Seq<bool>,
) -> bool {
    &&& began_as(commit, starts, after.tabs(), flags, group)
    &&& after.left@.len() == before.left@.len()
    &&& before.tabs().len() <= after.tabs().len()
    &&& forall|i: int| 0 <= i < before.tabs().len() ==> #[trigger] starts[i] == before.tabs()[i]
    &&& forall|i: int|
        before.tabs().len() <= i < starts.len() ==> was_opened(
            shares,
            (#[trigger] starts[i]).document,
        )
    &&& count_set(flags) == applied.documents
    &&& applied.documents <= documents.len()
    &&& flagged_are_named(before, documents, flags)
}

/// Whether the document was prepared to be opened.
pub open spec fn was_opened<B>(shares: Seq<Share<B>>, document: Document<B>) -> bool {
    exists|k: int| 0 <= k < shares.len() && (#[trigger] shares[k]).fresh == Some(document)
}

proof fn lemma_named_carried<B, S, M>(
    before: Session<B, S, M>,
    documents: Seq<PlannedDocument>,
    flags: Seq<bool>,
    now: Seq<bool>,
    i: int,
)
    requires
        documents.len() > 0,
        flagged_are_named(before, documents.drop_last(), flags),
        before.tabs().len() <= flags.len() <= now.len(),
        forall|j: int| 0 <= j < flags.len() && j != i ==> #[trigger] now[j] == flags[j],
        0 <= i < before.tabs().len() ==> is_at(before.tabs()[i].document, documents.last().path@),
    ensures
        flagged_are_named(before, documents, now),
{
    let earlier = documents.drop_last();
    assert forall|j: int| 0 <= j < before.tabs().len() && #[trigger] now[j] implies exists|k: int|
        0 <= k < documents.len() && is_at(
            before.tabs()[j].document,
            (#[trigger] documents[k]).path@,
        ) by {
        if j == i {
            assert(is_at(before.tabs()[j].document, documents[documents.len() - 1].path@));
        } else {
            assert(flags[j]);
            let k = choose|k: int|
                0 <= k < earlier.len() && is_at(
                    before.tabs()[j].document,
                    (#[trigger] earlier[k]).path@,
                );
            assert(documents[k] == earlier[k]);
        }
    }
}

/// One more share, of a document that is open.
proof fn lemma_open_share<
    B,
    S,
    M,
    K: Fn(&B, &Option<ActiveSnippet>, &Vec<Change>, &SelectionSet, Option<u64>, Position) -> Edited<
        B,
    >,
>(
    commit: K,
    before: Session<B, S, M>,
    mid: Session<B, S, M>,
    after: Session<B, S, M>,
    documents: Seq<PlannedDocument>,
    shares: Seq<Share<B>>,
    group: u64,
    so_far: Applied,
    applied: Applied,
    starts: Seq<Tab<B, S>>,
    flags: Seq<bool>,
) -> (now: Seq<bool>)
    requires
        0 < documents.len() <= usize::MAX,
        shares.len() == documents.len(),
        files_apart(documents),
        shares.last().fresh is None,
        shares.last().changes matches Some(changes) ==> changes@.len() > 0,
        is_open(before, documents.last().path@),
        shaped(
            commit,
            before,
            mid,
            documents.drop_last(),
            shares.drop_last(),
            group,
            so_far,
            starts,
            flags,
        ),
        share_applied(
            commit,
            mid,
            after,
            documents.last(),
            shares.last(),
            group,
            (so_far, applied),
        ),
    ensures
        shaped(commit, before, after, documents, shares, group, applied, starts, now),
{
    let earlier = documents.drop_last();
    let path = documents.last().path@;
    let count = before.tabs().len() as int;
    assert forall|k: int| 0 <= k < count implies (#[trigger] mid.tabs()[k]).document.path
        == before.tabs()[k].document.path by {
        assert(starts[k] == before.tabs()[k]);
    }
    lemma_same_tab(before, mid, path);
    let i = tab_at_path(before, path);
    let made = choose|made: Option<usize>|
        {
            &&& #[trigger] changes_made(
                commit,
                mid.tabs()[i],
                after.tabs()[i],
                shares.last().changes,
                group,
                made,
            )
            &&& after.tabs() == mid.tabs().update(i, after.tabs()[i])
            &&& after.left@.len() == mid.left@.len()
            &&& applied == counted_share(so_far, false, made)
        };
    if flags[i] {
        let k = choose|k: int|
            0 <= k < earlier.len() && is_at(
                before.tabs()[i].document,
                (#[trigger] earlier[k]).path@,
            );
        assert(earlier[k] == documents[k]);
        assert(documents[documents.len() - 1] == documents.last());
        assert(false);
    }
    assert(starts[i] == before.tabs()[i]);
    assert(mid.tabs()[i] == starts[i]);
    let now = if made is Some {
        flags.update(i, true)
    } else {
        flags
    };
    if made is Some {
        lemma_count_update(flags, i);
        assert(commits_changes(
            commit,
            starts[i],
            after.tabs()[i],
            shares.last().changes->Some_0,
            Some(group),
            made->Some_0,
        ));
        assert(changed_in(commit, starts[i], after.tabs()[i], group));
    }
    assert(after.tabs()[i].document.path == starts[i].document.path);
    assert forall|j: int| 0 <= j < after.tabs().len() implies {
        &&& apart_from((#[trigger] starts[j]).document, group)
        &&& after.tabs()[j].document.path == starts[j].document.path
        &&& if now[j] {
            changed_in(commit, starts[j], after.tabs()[j], group)
        } else {
            after.tabs()[j] == starts[j]
        }
    } by {
        if j != i {
            assert(after.tabs()[j] == mid.tabs()[j]);
        }
    }
    lemma_named_carried(before, documents, flags, now, i);
    assert forall|j: int| count <= j < starts.len() implies was_opened(
        shares,
        (#[trigger] starts[j]).document,
    ) by {
        lemma_fresh_carried(shares, starts[j].document);
    }
    now
}

/// One more share, of a document that is opened for it.
proof fn lemma_opened_share<
    B,
    S,
    M,
    K: Fn(&B, &Option<ActiveSnippet>, &Vec<Change>, &SelectionSet, Option<u64>, Position) -> Edited<
        B,
    >,
>(
    commit: K,
    before: Session<B, S, M>,
    mid: Session<B, S, M>,
    after: Session<B, S, M>,
    documents: Seq<PlannedDocument>,
    shares: Seq<Share<B>>,
    group: u64,
    so_far: Applied,
    applied: Applied,
    starts: Seq<Tab<B, S>>,
    flags: Seq<bool>,
) -> (r: (Seq<Tab<B, S>>, Seq<bool>))
    requires
        0 < documents.len() <= usize::MAX,
        shares.len() == documents.len(),
        shares.last().fresh is Some,
        shares.last().changes matches Some(changes) ==> changes@.len() > 0,
        apart_from(shares.last().fresh->Some_0, group),
        shaped(
            commit,
            before,
            mid,
            documents.drop_last(),
            shares.drop_last(),
            group,
            so_far,
            starts,
            flags,
        ),
        share_applied(
            commit,
            mid,
            after,
            documents.last(),
            shares.last(),
            group,
            (so_far, applied),
        ),
    ensures
        shaped(commit, before, after, documents, shares, group, applied, r.0, r.1),
{
    let fresh = shares.last().fresh->Some_0;
    let count = before.tabs().len() as int;
    let (made, opened) = choose|made: Option<usize>, opened: Tab<B, S>|
        {
            &&& background_tab(opened, fresh, mid.active.view)
            &&& after.right@.len() == mid.right@.len() + 1
            &&& #[trigger] changes_made(
                commit,
                opened,
                after.right@.last(),
                shares.last().changes,
                group,
                made,
            )
            &&& after.right@ == mid.right@.push(after.right@.last())
            &&& after == (Session { right: after.right, ..mid })
            &&& applied == counted_share(so_far, true, made)
        };
    let begun = starts.push(opened);
    let now = flags.push(made is Some);
    lemma_count_push(flags, made is Some);
    assert(after.tabs() =~= mid.tabs().push(after.right@.last()));
    if made is Some {
        assert(commits_changes(
            commit,
            opened,
            after.right@.last(),
            shares.last().changes->Some_0,
            Some(group),
            made->Some_0,
        ));
        assert(changed_in(commit, opened, after.right@.last(), group));
    }
    assert forall|j: int| 0 <= j < after.tabs().len() implies {
        &&& apart_from((#[trigger] begun[j]).document, group)
        &&& after.tabs()[j].document.path == begun[j].document.path
        &&& if now[j] {
            changed_in(commit, begun[j], after.tabs()[j], group)
        } else {
            after.tabs()[j] == begun[j]
        }
    } by {
        if j < starts.len() {
            assert(begun[j] == starts[j]);
            assert(after.tabs()[j] == mid.tabs()[j]);
        }
    }
    lemma_named_carried(before, documents, flags, now, -1);
    assert forall|j: int| 0 <= j < count implies #[trigger] begun[j] == before.tabs()[j] by {
        assert(begun[j] == starts[j]);
    }
    assert forall|j: int| count <= j < begun.len() implies was_opened(
        shares,
        (#[trigger] begun[j]).document,
    ) by {
        if j < starts.len() {
            assert(begun[j] == starts[j]);
            lemma_fresh_carried(shares, starts[j].document);
        } else {
            assert(shares[shares.len() - 1].fresh == Some(begun[j].document));
        }
    }
    (begun, now)
}

/// What the tabs began as, and which of them a plan changed.
proof fn lemma_applied<
    B,
    S,
    M,
    K: Fn(&B, &Option<ActiveSnippet>, &Vec<Change>, &SelectionSet, Option<u64>, Position) -> Edited<
        B,
    >,
>(
    commit: K,
    before: Session<B, S, M>,
    after: Session<B, S, M>,
    documents: Seq<PlannedDocument>,
    shares: Seq<Share<B>>,
    group: u64,
    applied: Applied,
) -> (r: (Seq<Tab<B, S>>, Seq<bool>))
    requires
        all_applied(commit, before, after, documents, shares, group, applied),
        shares.len() == documents.len(),
        documents.len() <= usize::MAX,
        files_apart(documents),
        forall|i: int|
            0 <= i < before.tabs().len() ==> apart_from(
                (#[trigger] before.tabs()[i]).document,
                group,
            ),
        forall|i: int|
            0 <= i < shares.len() ==> match (#[trigger] shares[i]).fresh {
                None => is_open(before, documents[i].path@),
                Some(fresh) => apart_from(fresh, group),
            },
        forall|i: int|
            0 <= i < shares.len() && (#[trigger] shares[i]).changes is Some
                ==> shares[i].changes->Some_0@.len() > 0,
    ensures
        shaped(commit, before, after, documents, shares, group, applied, r.0, r.1),
    decreases documents.len(),
{
    if documents.len() == 0 {
        let flags = Seq::new(before.tabs().len(), |i: int| false);
        lemma_none_set(flags);
        (before.tabs(), flags)
    } else {
        let (mid, so_far) = choose|mid: Session<B, S, M>, so_far: Applied|
            all_applied(
                commit,
                before,
                mid,
                documents.drop_last(),
                shares.drop_last(),
                group,
                so_far,
            ) && #[trigger] share_applied(
                commit,
                mid,
                after,
                documents.last(),
                shares.last(),
                group,
                (so_far, applied),
            );
        let earlier = documents.drop_last();
        assert forall|i: int| 0 <= i < shares.drop_last().len() implies match (
        #[trigger] shares.drop_last()[i]).fresh {
            None => is_open(before, earlier[i].path@),
            Some(fresh) => apart_from(fresh, group),
        } by {
            assert(shares.drop_last()[i] == shares[i]);
            assert(earlier[i] == documents[i]);
        }
        assert forall|i: int|
            0 <= i < shares.drop_last().len() && (
            #[trigger] shares.drop_last()[i]).changes is Some implies shares.drop_last()[i].changes
            ->Some_0@.len() > 0 by {
            assert(shares.drop_last()[i] == shares[i]);
        }
        assert forall|i: int, j: int| 0 <= i < j < earlier.len() implies normal_parts(
            (#[trigger] earlier[i]).path@,
        ) != normal_parts((#[trigger] earlier[j]).path@) by {
            assert(earlier[i] == documents[i]);
            assert(earlier[j] == documents[j]);
        }
        let (starts, flags) = lemma_applied(
            commit,
            before,
            mid,
            earlier,
            shares.drop_last(),
            group,
            so_far,
        );
        assert(shares[shares.len() - 1] == shares.last());
        if shares.last().fresh is None {
            let now = lemma_open_share(
                commit,
                before,
                mid,
                after,
                documents,
                shares,
                group,
                so_far,
                applied,
                starts,
                flags,
            );
            (starts, now)
        } else {
            lemma_opened_share(
                commit,
                before,
                mid,
                after,
                documents,
                shares,
                group,
                so_far,
                applied,
                starts,
                flags,
            )
        }
    }
}

proof fn lemma_none_set(flags: Seq<bool>)
    requires
        forall|i: int| 0 <= i < flags.len() ==> !#[trigger] flags[i],
    ensures
        count_set(flags) == 0,
    decreases flags.len(),
{
    if flags.len() > 0 {
        assert forall|i: int| 0 <= i < flags.drop_last().len() implies !#[trigger] flags.drop_last()[i] by {
            assert(flags.drop_last()[i] == flags[i]);
        }
        lemma_none_set(flags.drop_last());
    }
}

proof fn lemma_fresh_carried<B>(shares: Seq<Share<B>>, document: Document<B>)
    requires
        shares.len() > 0,
        was_opened(shares.drop_last(), document),
    ensures
        was_opened(shares, document),
{
    let k = choose|k: int|
        0 <= k < shares.drop_last().len() && (#[trigger] shares.drop_last()[k]).fresh == Some(
            document,
        );
    assert(shares[k].fresh == Some(document));
}

/// Whether two sessions hold the same texts with the same histories, in the same tabs.
spec fn same_texts<B, S, M>(a: Session<B, S, M>, b: Session<B, S, M>) -> bool {
    &&& a.tabs().len() == b.tabs().len()
    &&& forall|i: int|
        0 <= i < a.tabs().len() ==> {
            &&& (#[trigger] a.tabs()[i]).document.body == b.tabs()[i].document.body
            &&& a.tabs()[i].document.undo_group == b.tabs()[i].document.undo_group
            &&& a.tabs()[i].document.redo_group == b.tabs()[i].document.redo_group
        }
}

proof fn lemma_laying_out_keeps_texts<B, S, M>(s: Session<B, S, M>)
    ensures
        same_texts(s, laid_out(s)),
{
    law_laying_out_changes_sizes_alone(s);
    let now = laid_out(s);
    assert forall|i: int| 0 <= i < s.tabs().len() implies {
        &&& (#[trigger] s.tabs()[i]).document.body == now.tabs()[i].document.body
        &&& s.tabs()[i].document.undo_group == now.tabs()[i].document.undo_group
        &&& s.tabs()[i].document.redo_group == now.tabs()[i].document.redo_group
    } by {
        if i != s.left@.len() {
            assert(now.tabs()[i] == s.tabs()[i]);
        }
    }
}

proof fn lemma_refreshing_keeps_texts<B, S, M>(s: Session<B, S, M>, now: Session<B, S, M>)
    requires
        refreshed(s, now),
    ensures
        same_texts(s, now),
{
    assert forall|i: int| 0 <= i < s.tabs().len() implies {
        &&& (#[trigger] s.tabs()[i]).document.body == now.tabs()[i].document.body
        &&& s.tabs()[i].document.undo_group == now.tabs()[i].document.undo_group
        &&& s.tabs()[i].document.redo_group == now.tabs()[i].document.redo_group
    } by {
        if i != s.left@.len() {
            assert(now.tabs()[i] == s.tabs()[i]);
        }
    }
}

/// A tab that was changed as part of the group can be taken back.
proof fn lemma_changed_goes_back<
    B,
    S,
    K: Fn(&B, &Option<ActiveSnippet>, &Vec<Change>, &SelectionSet, Option<u64>, Position) -> Edited<
        B,
    >,
    U: Fn(&B, bool) -> Option<(TextState<B>, SelectionSet)>,
>(
    commit: K,
    step: U,
    text: spec_fn(B) -> Seq<char>,
    group: u64,
    start: Tab<B, S>,
    now: Tab<B, S>,
)
    requires
        keeps_steps(commit, step, text, group),
        changed_in(commit, start, now, group),
    ensures
        now.document.undo_group == Some(group),
        goes_back(step, text, group, start.document.body, now.document.body),
{
    let (changes, n) = choose|changes: Vec<Change>, n: usize| #[trigger]
        commits_changes(commit, start, now, changes, Some(group), n) && n > 0;
    let edited = choose|edited: Edited<B>|
        {
            &&& #[trigger] commit.ensures(
                (
                    &start.document.body,
                    &start.document.snippet,
                    &changes,
                    &start.view.selections,
                    Some(group),
                    crate::session::edits::caret_of(start.view.selections),
                ),
                edited,
            )
            &&& tab_edited(start, now, edited)
        };
    assert(edited.text.undo_group == Some(group));
}

/// Which tabs' next steps belong to a group is which of them undoing it, or redoing it, goes a
/// step in.
proof fn lemma_steps<B, S, M, U: Fn(&B, bool) -> Option<(TextState<B>, SelectionSet)>>(
    step: U,
    before: Session<B, S, M>,
    after: Session<B, S, M>,
    group: u64,
    redo: bool,
    outcome: Outcome,
    flags: Seq<bool>,
)
    requires
        undoes_group(step, before, after, group, redo, outcome),
        flags.len() == before.tabs().len(),
        forall|i: int|
            0 <= i < flags.len() ==> #[trigger] flags[i] == (next_group_of(
                before.tabs()[i].document,
                redo,
            ) == Some(group)),
        forall|i: int, result: Option<(TextState<B>, SelectionSet)>|
            0 <= i < flags.len() && flags[i] && #[trigger] step.ensures(
                (&before.tabs()[i].document.body, redo),
                result,
            ) ==> result is Some,
    ensures
        after.tabs().len() == before.tabs().len(),
        outcome.says(group_text(redo, count_set(flags))),
        forall|i: int|
            0 <= i < flags.len() ==> if flags[i] {
                exists|result: (TextState<B>, SelectionSet)| #[trigger]
                    step.ensures((&before.tabs()[i].document.body, redo), Some(result)) && (
                    #[trigger] after.tabs()[i]).document.body == result.0.body
                        && after.tabs()[i].document.undo_group == result.0.undo_group
                        && after.tabs()[i].document.redo_group == result.0.redo_group
            } else {
                &&& (#[trigger] after.tabs()[i]).document.body == before.tabs()[i].document.body
                &&& after.tabs()[i].document.undo_group == before.tabs()[i].document.undo_group
                &&& after.tabs()[i].document.redo_group == before.tabs()[i].document.redo_group
            },
{
    let (mid, done) = choose|mid: Session<B, S, M>, done: Seq<bool>|
        {
            &&& #[trigger] steps_undone(step, before.tabs(), mid.tabs(), group, redo, done)
            &&& mid.left@.len() == before.left@.len()
            &&& after == laid_out(mid)
            &&& outcome.says(group_text(redo, count_set(done)))
        };
    lemma_laying_out_keeps_texts(mid);
    assert forall|i: int| 0 <= i < flags.len() implies done[i] == #[trigger] flags[i] by {
        assert(step_undone(step, before.tabs()[i], mid.tabs()[i], group, redo, done[i]));
    }
    assert(done =~= flags);
    assert forall|i: int| 0 <= i < flags.len() implies if flags[i] {
        exists|result: (TextState<B>, SelectionSet)| #[trigger]
            step.ensures((&before.tabs()[i].document.body, redo), Some(result)) && (
            #[trigger] after.tabs()[i]).document.body == result.0.body
                && after.tabs()[i].document.undo_group == result.0.undo_group
                && after.tabs()[i].document.redo_group == result.0.redo_group
    } else {
        &&& (#[trigger] after.tabs()[i]).document.body == before.tabs()[i].document.body
        &&& after.tabs()[i].document.undo_group == before.tabs()[i].document.undo_group
        &&& after.tabs()[i].document.redo_group == before.tabs()[i].document.redo_group
    } by {
        assert(step_undone(step, before.tabs()[i], mid.tabs()[i], group, redo, done[i]));
        assert(mid.tabs()[i].document.body == after.tabs()[i].document.body);
        if flags[i] {
            let result = choose|result: Option<(TextState<B>, SelectionSet)>|
                #[trigger] step.ensures((&before.tabs()[i].document.body, redo), result)
                    && match result {
                    None => false,
                    Some((text, selections)) => mid.tabs()[i].document.body == text.body
                        && mid.tabs()[i].document.undo_group == text.undo_group
                        && mid.tabs()[i].document.redo_group == text.redo_group,
                };
            assert(step.ensures(
                (&before.tabs()[i].document.body, redo),
                Some(result->Some_0),
            ));
        }
    }
}

/// What one undoing of a workspace edit gives back, and one redoing that is asked for once the
/// session is brought up to date as `resumed`.
proof fn lemma_back_and_again<
    B,
    S,
    M,
    C: Fn(&B, Position) -> Position,
    N: Fn(&TextEdit) -> bool,
    O: Fn(&Vec<Change>) -> bool,
    K: Fn(&B, &Option<ActiveSnippet>, &Vec<Change>, &SelectionSet, Option<u64>, Position) -> Edited<
        B,
    >,
    D: Fn(&PathBuf, &String) -> Document<B>,
    U: Fn(&B, bool) -> Option<(TextState<B>, SelectionSet)>,
>(
    engine: Engine<C, N, O, K>,
    from_file: D,
    step: U,
    text: spec_fn(B) -> Seq<char>,
    before: Session<B, S, M>,
    after: Session<B, S, M>,
    undone: Session<B, S, M>,
    resumed: Session<B, S, M>,
    redone: Session<B, S, M>,
    documents: Seq<PlannedDocument>,
    applied: Applied,
    undoing: Outcome,
    redoing: Outcome,
)
    requires
        plan_applied(engine, from_file, before, after, documents, applied),
        documents.len() <= usize::MAX,
        files_apart(documents),
        keeps_steps(engine.commit, step, text, before.next_group),
        forall|i: int|
            0 <= i < before.tabs().len() ==> apart_from(
                (#[trigger] before.tabs()[i]).document,
                before.next_group,
            ),
        forall|path: PathBuf, contents: String, fresh: Document<B>| #[trigger]
            from_file.ensures((&path, &contents), fresh) ==> apart_from(fresh, before.next_group),
        undoes_group(step, after, undone, before.next_group, false, undoing),
        same_texts(undone, resumed),
        undoes_group(step, resumed, redone, before.next_group, true, redoing),
    ensures
        before.tabs().len() <= after.tabs().len(),
        undone.tabs().len() == after.tabs().len(),
        redone.tabs().len() == after.tabs().len(),
        forall|i: int|
            0 <= i < before.tabs().len() ==> text((#[trigger] undone.tabs()[i]).document.body)
                == text(before.tabs()[i].document.body),
        forall|i: int|
            before.tabs().len() <= i < undone.tabs().len() ==> opened_with(
                from_file,
                text,
                (#[trigger] undone.tabs()[i]).document.body,
            ),
        forall|i: int|
            0 <= i < redone.tabs().len() ==> text((#[trigger] redone.tabs()[i]).document.body)
                == text(after.tabs()[i].document.body),
        undoing.says(group_text(false, applied.documents as nat)),
        redoing.says(group_text(true, applied.documents as nat)),
        forall|i: int|
            0 <= i < before.tabs().len() && (#[trigger] after.tabs()[i]).document.undo_group
                != Some(before.next_group) ==> after.tabs()[i].document.body
                == before.tabs()[i].document.body,
        forall|i: int|
            0 <= i < after.tabs().len() && (#[trigger] after.tabs()[i]).document.undo_group == Some(
                before.next_group,
            ) ==> undone.tabs()[i].document.redo_group == Some(before.next_group),
{
    let group = before.next_group;
    let (shares, made) = choose|shares: Seq<Share<B>>, made: Session<B, S, M>|
        {
            &&& #[trigger] all_prepared(engine, from_file, before, documents, shares)
            &&& #[trigger] all_applied(
                engine.commit,
                group_taken(before),
                made,
                documents,
                shares,
                group,
                applied,
            )
            &&& refreshed(laid_out(made), after)
        };
    let start = group_taken(before);
    assert(start.tabs() =~= before.tabs());
    assert forall|i: int| 0 <= i < shares.len() implies match (#[trigger] shares[i]).fresh {
        None => is_open(start, documents[i].path@),
        Some(fresh) => apart_from(fresh, group),
    } by {
        assert(share_prepared(engine, from_file, before, documents[i], shares[i]));
    }
    assert forall|i: int| 0 <= i < shares.len() && (#[trigger] shares[i]).changes is Some implies
        shares[i].changes->Some_0@.len() > 0 by {
        assert(share_prepared(engine, from_file, before, documents[i], shares[i]));
    }
    let (starts, flags) = lemma_applied(
        engine.commit,
        start,
        made,
        documents,
        shares,
        group,
        applied,
    );
    lemma_laying_out_keeps_texts(made);
    lemma_refreshing_keeps_texts(laid_out(made), after);
    assert forall|i: int| 0 <= i < flags.len() implies {
        &&& made.tabs()[i].document.body == after.tabs()[i].document.body
        &&& made.tabs()[i].document.undo_group == after.tabs()[i].document.undo_group
        &&& made.tabs()[i].document.redo_group == after.tabs()[i].document.redo_group
        &&& #[trigger] flags[i] == (after.tabs()[i].document.undo_group == Some(group))
        &&& if flags[i] {
            goes_back(
                step,
                text,
                group,
                starts[i].document.body,
                after.tabs()[i].document.body,
            )
        } else {
            after.tabs()[i].document.body == starts[i].document.body && apart_from(
                after.tabs()[i].document,
                group,
            )
        }
    } by {
        assert(made.tabs()[i].document.body == laid_out(made).tabs()[i].document.body);
        assert(laid_out(made).tabs()[i].document.body == after.tabs()[i].document.body);
        assert(apart_from(starts[i].document, group));
        if flags[i] {
            lemma_changed_goes_back(engine.commit, step, text, group, starts[i], made.tabs()[i]);
        }
    }
    assert forall|i: int, result: Option<(TextState<B>, SelectionSet)>|
        0 <= i < flags.len() && flags[i] && #[trigger] step.ensures(
            (&after.tabs()[i].document.body, false),
            result,
        ) implies result is Some by {
        assert(goes_back(
            step,
            text,
            group,
            starts[i].document.body,
            after.tabs()[i].document.body,
        ));
    }
    lemma_steps(step, after, undone, group, false, undoing, flags);
    assert forall|i: int| 0 <= i < flags.len() implies {
        &&& text((#[trigger] undone.tabs()[i]).document.body) == text(starts[i].document.body)
        &&& flags[i] == (undone.tabs()[i].document.redo_group == Some(group))
        &&& flags[i] ==> goes_forward(
            step,
            text,
            undone.tabs()[i].document.body,
            after.tabs()[i].document.body,
        )
        &&& !flags[i] ==> undone.tabs()[i].document.body == after.tabs()[i].document.body
    } by {
        assert(flags[i] == (after.tabs()[i].document.undo_group == Some(group)));
        if flags[i] {
            let result = choose|result: (TextState<B>, SelectionSet)| #[trigger]
                step.ensures((&after.tabs()[i].document.body, false), Some(result))
                    && undone.tabs()[i].document.body == result.0.body
                    && undone.tabs()[i].document.redo_group == result.0.redo_group;
            assert(goes_back(
                step,
                text,
                group,
                starts[i].document.body,
                after.tabs()[i].document.body,
            ));
        }
    }
    assert forall|i: int| 0 <= i < flags.len() implies {
        &&& text((#[trigger] resumed.tabs()[i]).document.body) == text(starts[i].document.body)
        &&& flags[i] == (resumed.tabs()[i].document.redo_group == Some(group))
        &&& flags[i] ==> goes_forward(
            step,
            text,
            resumed.tabs()[i].document.body,
            after.tabs()[i].document.body,
        )
        &&& !flags[i] ==> resumed.tabs()[i].document.body == after.tabs()[i].document.body
    } by {
        assert(undone.tabs()[i].document.body == resumed.tabs()[i].document.body);
    }
    assert forall|i: int| 0 <= i < flags.len() implies #[trigger] flags[i] == (next_group_of(
        resumed.tabs()[i].document,
        true,
    ) == Some(group)) by {
        assert(text(resumed.tabs()[i].document.body) == text(starts[i].document.body));
    }
    assert forall|i: int, result: Option<(TextState<B>, SelectionSet)>|
        0 <= i < flags.len() && flags[i] && #[trigger] step.ensures(
            (&resumed.tabs()[i].document.body, true),
            result,
        ) implies result is Some by {
        assert(goes_forward(
            step,
            text,
            resumed.tabs()[i].document.body,
            after.tabs()[i].document.body,
        ));
    }
    lemma_steps(step, resumed, redone, group, true, redoing, flags);
    assert forall|i: int| 0 <= i < redone.tabs().len() implies text(
        (#[trigger] redone.tabs()[i]).document.body,
    ) == text(after.tabs()[i].document.body) by {
        assert(text(resumed.tabs()[i].document.body) == text(starts[i].document.body));
        if flags[i] {
            let result = choose|result: (TextState<B>, SelectionSet)| #[trigger]
                step.ensures((&resumed.tabs()[i].document.body, true), Some(result))
                    && redone.tabs()[i].document.body == result.0.body;
            assert(goes_forward(
                step,
                text,
                resumed.tabs()[i].document.body,
                after.tabs()[i].document.body,
            ));
        }
    }
    assert forall|i: int| before.tabs().len() <= i < undone.tabs().len() implies opened_with(
        from_file,
        text,
        (#[trigger] undone.tabs()[i]).document.body,
    ) by {
        assert(was_opened(shares, starts[i].document));
        let k = choose|k: int|
            0 <= k < shares.len() && (#[trigger] shares[k]).fresh == Some(starts[i].document);
        assert(share_prepared(engine, from_file, before, documents[k], shares[k]));
        let contents = documents[k].contents->Some_0;
        assert(from_file.ensures((&documents[k].path, &contents), starts[i].document));
    }
    assert forall|i: int|
        0 <= i < before.tabs().len() && (#[trigger] after.tabs()[i]).document.undo_group != Some(
            group,
        ) implies after.tabs()[i].document.body == before.tabs()[i].document.body by {
        assert(starts[i] == start.tabs()[i]);
        assert(!flags[i]);
    }
    assert forall|i: int| 0 <= i < before.tabs().len() implies text(
        (#[trigger] undone.tabs()[i]).document.body,
    ) == text(before.tabs()[i].document.body) by {
        assert(starts[i] == start.tabs()[i]);
    }
    assert forall|i: int|
        0 <= i < after.tabs().len() && (#[trigger] after.tabs()[i]).document.undo_group == Some(
            group,
        ) implies undone.tabs()[i].document.redo_group == Some(group) by {
        assert(flags[i]);
        assert(text(undone.tabs()[i].document.body) == text(starts[i].document.body));
    }
}

/// One undoing takes the whole of a workspace edit back, where texts keep their histories: every
/// document that was open has its text from before, every one that was opened for the edit has the
/// text it was opened with, and as many files are reported as the edit changed. One redoing gives
/// all of them the edited text back.
pub proof fn law_one_undo_takes_the_whole_edit_back<
    B,
    S,
    M,
    C: Fn(&B, Position) -> Position,
    N: Fn(&TextEdit) -> bool,
    O: Fn(&Vec<Change>) -> bool,
    K: Fn(&B, &Option<ActiveSnippet>, &Vec<Change>, &SelectionSet, Option<u64>, Position) -> Edited<
        B,
    >,
    D: Fn(&PathBuf, &String) -> Document<B>,
    U: Fn(&B, bool) -> Option<(TextState<B>, SelectionSet)>,
>(
    engine: Engine<C, N, O, K>,
    from_file: D,
    step: U,
    text: spec_fn(B) -> Seq<char>,
    before: Session<B, S, M>,
    after: Session<B, S, M>,
    undone: Session<B, S, M>,
    redone: Session<B, S, M>,
    documents: Seq<PlannedDocument>,
    applied: Applied,
    undoing: Outcome,
    redoing: Outcome,
)
    requires
        plan_applied(engine, from_file, before, after, documents, applied),
        documents.len() <= usize::MAX,
        files_apart(documents),
        keeps_steps(engine.commit, step, text, before.next_group),
        forall|i: int|
            0 <= i < before.tabs().len() ==> apart_from(
                (#[trigger] before.tabs()[i]).document,
                before.next_group,
            ),
        forall|path: PathBuf, contents: String, fresh: Document<B>| #[trigger]
            from_file.ensures((&path, &contents), fresh) ==> apart_from(fresh, before.next_group),
        undoes_group(step, after, undone, before.next_group, false, undoing),
        undoes_group(step, undone, redone, before.next_group, true, redoing),
    ensures
        before.tabs().len() <= after.tabs().len(),
        undone.tabs().len() == after.tabs().len(),
        redone.tabs().len() == after.tabs().len(),
        forall|i: int|
            0 <= i < before.tabs().len() ==> text((#[trigger] undone.tabs()[i]).document.body)
                == text(before.tabs()[i].document.body),
        forall|i: int|
            before.tabs().len() <= i < undone.tabs().len() ==> opened_with(
                from_file,
                text,
                (#[trigger] undone.tabs()[i]).document.body,
            ),
        forall|i: int|
            0 <= i < redone.tabs().len() ==> text((#[trigger] redone.tabs()[i]).document.body)
                == text(after.tabs()[i].document.body),
        undoing.says(group_text(false, applied.documents as nat)),
        redoing.says(group_text(true, applied.documents as nat)),
        forall|i: int|
            0 <= i < before.tabs().len() && (#[trigger] after.tabs()[i]).document.undo_group
                != Some(before.next_group) ==> after.tabs()[i].document.body
                == before.tabs()[i].document.body,
{
    lemma_back_and_again(
        engine,
        from_file,
        step,
        text,
        before,
        after,
        undone,
        undone,
        redone,
        documents,
        applied,
        undoing,
        redoing,
    );
}

/// Undoing with a command, where the document on screen is one of those that a workspace edit
/// changed and has the keyboard: the command asks for the whole edit to be undone, and once that is
/// done and reported every document has its text from before. Redoing with a command likewise gives
/// all of them the edited text back. Both say how many files the edit changed.
pub proof fn law_running_undo_takes_the_whole_edit_back<
    B,
    S,
    M,
    C: Fn(&B, Position) -> Position,
    N: Fn(&TextEdit) -> bool,
    O: Fn(&Vec<Change>) -> bool,
    K: Fn(&B, &Option<ActiveSnippet>, &Vec<Change>, &SelectionSet, Option<u64>, Position) -> Edited<
        B,
    >,
    D: Fn(&PathBuf, &String) -> Document<B>,
    U: Fn(&B, bool) -> Option<(TextState<B>, SelectionSet)>,
>(
    engine: Engine<C, N, O, K>,
    from_file: D,
    step: U,
    text: spec_fn(B) -> Seq<char>,
    before: Session<B, S, M>,
    after: Session<B, S, M>,
    documents: Seq<PlannedDocument>,
    applied: Applied,
    undo: Commanded<B, S, M>,
    redo: Commanded<B, S, M>,
)
    requires
        plan_applied(engine, from_file, before, after, documents, applied),
        documents.len() <= usize::MAX,
        files_apart(documents),
        keeps_steps(engine.commit, step, text, before.next_group),
        forall|i: int|
            0 <= i < before.tabs().len() ==> apart_from(
                (#[trigger] before.tabs()[i]).document,
                before.next_group,
            ),
        forall|path: PathBuf, contents: String, fresh: Document<B>| #[trigger]
            from_file.ensures((&path, &contents), fresh) ==> apart_from(fresh, before.next_group),
        after.groups.comparison is None,
        after.groups.lent is None,
        after.chrome.focus == Focus::Editor,
        after.active.document.undo_group == Some(before.next_group),
        commanded(step, after, undo, "undo"@, before.next_group, false),
        commanded(step, undo.shown, redo, "redo"@, before.next_group, true),
    ensures
        undo.ran == Ran::Wanted(Work::UndoGroup { group: before.next_group, redo: false }),
        redo.ran == Ran::Wanted(Work::UndoGroup { group: before.next_group, redo: true }),
        undo.passed.says(group_text(false, applied.documents as nat)),
        redo.passed.says(group_text(true, applied.documents as nat)),
        before.tabs().len() <= after.tabs().len(),
        undo.shown.tabs().len() == after.tabs().len(),
        redo.shown.tabs().len() == after.tabs().len(),
        forall|i: int|
            0 <= i < before.tabs().len() ==> text((#[trigger] undo.shown.tabs()[i]).document.body)
                == text(before.tabs()[i].document.body),
        forall|i: int|
            0 <= i < after.tabs().len() ==> text((#[trigger] redo.shown.tabs()[i]).document.body)
                == text(after.tabs()[i].document.body),
{
    let group = before.next_group;
    lemma_routes_of_undoing();
    lemma_wanted(after, undo, "undo"@);
    assert(undo.wanted == after);
    lemma_group_frame(step, after, undo.done, group, false, undo.outcome);
    lemma_finishing_keeps_texts(undo.done, undo.shown, "undo"@, undo.outcome, undo.passed);
    let n = after.left@.len() as int;
    assert(after.tabs()[n] == after.active);
    lemma_wanted(undo.shown, redo, "redo"@);
    lemma_back_and_again(
        engine,
        from_file,
        step,
        text,
        before,
        after,
        undo.done,
        undo.shown,
        redo.done,
        documents,
        applied,
        undo.outcome,
        redo.outcome,
    );
    assert(undo.done.tabs()[n].document.redo_group == Some(group));
    assert(undo.shown.tabs()[n] == undo.shown.active);
    assert(undo.shown.active.document.redo_group == Some(group));
    lemma_group_frame(step, undo.shown, redo.done, group, true, redo.outcome);
    lemma_finishing_keeps_texts(redo.done, redo.shown, "redo"@, redo.outcome, redo.passed);
    assert forall|i: int| 0 <= i < before.tabs().len() implies text(
        (#[trigger] undo.shown.tabs()[i]).document.body,
    ) == text(before.tabs()[i].document.body) by {
        assert(undo.done.tabs()[i].document.body == undo.shown.tabs()[i].document.body);
    }
    assert forall|i: int| 0 <= i < after.tabs().len() implies text(
        (#[trigger] redo.shown.tabs()[i]).document.body,
    ) == text(after.tabs()[i].document.body) by {
        assert(redo.done.tabs()[i].document.body == redo.shown.tabs()[i].document.body);
    }
}

/// One command that undoes or redoes: what running it came to, the session then, the session once
/// the group was undone or redone, and the session once that was reported.
pub struct Commanded<B, S, M> {
    pub blank: Document<B>,
    pub ran: Ran,
    pub wanted: Session<B, S, M>,
    pub outcome: Outcome,
    pub done: Session<B, S, M>,
    pub passed: Outcome,
    pub shown: Session<B, S, M>,
}

/// Whether a command was run, the group then undone or redone, and that reported.
pub open spec fn commanded<B, S, M, U: Fn(&B, bool) -> Option<(TextState<B>, SelectionSet)>>(
    step: U,
    before: Session<B, S, M>,
    run: Commanded<B, S, M>,
    command: Seq<char>,
    group: u64,
    redo: bool,
) -> bool {
    &&& runs(before, run.wanted, command, run.blank, run.ran)
    &&& undoes_group(step, run.wanted, run.done, group, redo, run.outcome)
    &&& finishes(run.done, run.shown, command, run.outcome, None, run.passed)
}

/// A command for the text that wants work changes nothing itself.
proof fn lemma_wanted<B, S, M>(before: Session<B, S, M>, run: Commanded<B, S, M>, command: Seq<char>)
    requires
        before.groups.comparison is None,
        before.chrome.focus == Focus::Editor,
        runs(before, run.wanted, command, run.blank, run.ran),
        route_of(command) == Route::Text(TextRoute::Undo) || route_of(command) == Route::Text(
            TextRoute::Redo,
        ),
    ensures
        run.wanted == before,
        route_of(command) == Route::Text(TextRoute::Undo)
            && before.active.document.undo_group is Some ==> run.ran == Ran::Wanted(
            Work::UndoGroup { group: before.active.document.undo_group->Some_0, redo: false },
        ),
        route_of(command) == Route::Text(TextRoute::Redo)
            && before.active.document.redo_group is Some ==> run.ran == Ran::Wanted(
            Work::UndoGroup { group: before.active.document.redo_group->Some_0, redo: true },
        ),
{
}

/// Undoing a group leaves the window and the groups as they are.
proof fn lemma_group_frame<B, S, M, U: Fn(&B, bool) -> Option<(TextState<B>, SelectionSet)>>(
    step: U,
    before: Session<B, S, M>,
    after: Session<B, S, M>,
    group: u64,
    redo: bool,
    outcome: Outcome,
)
    requires
        undoes_group(step, before, after, group, redo, outcome),
    ensures
        after.chrome == before.chrome,
        after.groups.comparison is None == before.groups.comparison is None,
        after.groups.lent == before.groups.lent,
        after.left@.len() == before.left@.len(),
        after.tabs().len() == before.tabs().len(),
        outcome is Message,
{
    let (mid, flags) = choose|mid: Session<B, S, M>, flags: Seq<bool>|
        {
            &&& #[trigger] steps_undone(step, before.tabs(), mid.tabs(), group, redo, flags)
            &&& mid.left@.len() == before.left@.len()
            &&& mid == (Session { left: mid.left, active: mid.active, right: mid.right, ..before })
            &&& after == laid_out(mid)
            &&& outcome.says(group_text(redo, count_set(flags)))
        };
    law_laying_out_changes_sizes_alone(mid);
}

/// Reporting what a command came to keeps every text.
proof fn lemma_finishing_keeps_texts<B, S, M>(
    before: Session<B, S, M>,
    after: Session<B, S, M>,
    command: Seq<char>,
    outcome: Outcome,
    passed: Outcome,
)
    requires
        finishes(before, after, command, outcome, None, passed),
        before.groups.lent is None,
        outcome is Message,
    ensures
        passed == outcome,
        same_texts(before, after),
        after.chrome == before.chrome,
        after.groups == before.groups,
        after.left == before.left,
{
    let (said, shown) = choose|said: Session<B, S, M>, shown: Session<B, S, M>|
        {
            &&& #[trigger] reported_in(before, said, command, passed)
            &&& #[trigger] refreshed(said, shown)
            &&& after == shown
        };
    lemma_refreshing_keeps_texts(said, shown);
    assert(said.tabs() =~= before.tabs());
}

/// Whether a body holds the text that some file was opened with.
pub open spec fn opened_with<B, D: Fn(&PathBuf, &String) -> Document<B>>(
    from_file: D,
    text: spec_fn(B) -> Seq<char>,
    body: B,
) -> bool {
    exists|path: PathBuf, contents: String, fresh: Document<B>| #[trigger]
        from_file.ensures((&path, &contents), fresh) && text(body) == text(fresh.body)
}

} // verus!
