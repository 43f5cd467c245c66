//! What a plan holds of a server's changes.

use vstd::prelude::*;
#[allow(unused_imports)]
use crate::editing::{replacements, Replacement};
#[allow(unused_imports)]
use crate::path::{normal_parts, Part, PathBuf};
#[allow(unused_imports)]
use crate::workspace::{lemma_planned_at_bound, plan_of, planned_at, DocumentChange, Fault, Planned};

verus! {

/// All that the changes list for a file, in order.
pub open spec fn listed_for(changes: Seq<DocumentChange>, path: Seq<Part>) -> Seq<Replacement>
    decreases changes.len(),
{
    if changes.len() == 0 {
        Seq::empty()
    } else {
        let change = changes.last();
        listed_for(changes.drop_last(), path) + if change.path is Some && change.path->Some_0@
            == path {
            replacements(change.edits@)
        } else {
            Seq::empty()
        }
    }
}

/// Whether a change can be planned: it names a file, and the version it was made for, where it says
/// one, is the one that is open, where that is known.
pub open spec fn can_be_planned(change: DocumentChange) -> bool {
    &&& change.path is Some
    &&& change.version is Some && change.actual is Some ==> change.version == change.actual
}

/// Whether the documents are the files that the changes name, in the order in which they are first
/// named, each with all that is listed for it: `first` says which change names each first.
pub open spec fn gathers(
    changes: Seq<DocumentChange>,
    open: Seq<PathBuf>,
    docs: Seq<Planned>,
    first: Seq<int>,
) -> bool {
    &&& first.len() == docs.len()
    &&& forall|k: int|
        0 <= k < docs.len() ==> {
            &&& 0 <= #[trigger] first[k] < changes.len()
            &&& changes[first[k]].path == Some(docs[k].path)
            &&& changes[first[k]].version == docs[k].version
            &&& docs[k].contents is None
            &&& docs[k].edits == listed_for(changes, docs[k].path@)
            &&& docs[k].open == exists|i: int|
                0 <= i < open.len() && normal_parts((#[trigger] open[i])@) == normal_parts(
                    docs[k].path@,
                )
        }
    &&& forall|j: int, k: int|
        0 <= j < k < docs.len() ==> #[trigger] first[j] < #[trigger] first[k] && docs[j].path@
            != docs[k].path@
}

/// Whether each change's file is one of the documents.
spec fn all_named(changes: Seq<DocumentChange>, docs: Seq<Planned>) -> bool {
    forall|i: int|
        0 <= i < changes.len() ==> (#[trigger] changes[i]).path is Some && planned_at(
            docs,
            changes[i].path->Some_0@,
        ) < docs.len()
}

proof fn lemma_planned_still(docs: Seq<Planned>, now: Seq<Planned>, path: Seq<Part>)
    requires
        docs.len() <= now.len(),
        forall|k: int| 0 <= k < docs.len() ==> (#[trigger] now[k]).path == docs[k].path,
        planned_at(docs, path) < docs.len(),
    ensures
        planned_at(now, path) < now.len(),
{
    lemma_planned_at_bound(docs, path);
    lemma_planned_at_bound(now, path);
    let k = planned_at(docs, path);
    assert(now[k].path == docs[k].path);
}

proof fn lemma_not_listed(changes: Seq<DocumentChange>, path: Seq<Part>)
    requires
        forall|i: int|
            0 <= i < changes.len() ==> (#[trigger] changes[i]).path is Some
                && changes[i].path->Some_0@ != path,
    ensures
        listed_for(changes, path) == Seq::<Replacement>::empty(),
    decreases changes.len(),
{
    if changes.len() > 0 {
        let rest = changes.drop_last();
        assert forall|i: int| 0 <= i < rest.len() implies (#[trigger] rest[i]).path is Some
            && rest[i].path->Some_0@ != path by {
            assert(rest[i] == changes[i]);
        }
        lemma_not_listed(rest, path);
        assert(changes[changes.len() - 1].path->Some_0@ != path);
        assert(listed_for(changes, path) =~= Seq::<Replacement>::empty());
    }
}

proof fn lemma_gathers(changes: Seq<DocumentChange>, open: Seq<PathBuf>) -> (first: Seq<int>)
    requires
        plan_of(changes, open) is Ok,
    ensures
        gathers(changes, open, plan_of(changes, open)->Ok_0, first),
        all_named(changes, plan_of(changes, open)->Ok_0),
    decreases changes.len(),
{
    let now = plan_of(changes, open)->Ok_0;
    if changes.len() == 0 {
        Seq::empty()
    } else {
        let rest = changes.drop_last();
        let before = plan_of(rest, open)->Ok_0;
        let first = lemma_gathers(rest, open);
        let change = changes.last();
        let path = change.path->Some_0;
        lemma_planned_at_bound(before, path@);
        let i = planned_at(before, path@);
        if i < before.len() {
            assert forall|k: int| 0 <= k < now.len() implies {
                &&& 0 <= #[trigger] first[k] < changes.len()
                &&& changes[first[k]].path == Some(now[k].path)
                &&& changes[first[k]].version == now[k].version
                &&& now[k].contents is None
                &&& now[k].edits == listed_for(changes, now[k].path@)
                &&& now[k].open == exists|i: int|
                    0 <= i < open.len() && normal_parts((#[trigger] open[i])@) == normal_parts(
                        now[k].path@,
                    )
            } by {
                assert(rest[first[k]] == changes[first[k]]);
                assert(now[k].path == before[k].path);
                if k != i {
                    if k < i {
                        assert(first[k] < first[i]);
                    } else {
                        assert(first[i] < first[k]);
                    }
                    assert(listed_for(changes, now[k].path@) =~= listed_for(rest, now[k].path@));
                }
            }
            assert forall|j: int, k: int| 0 <= j < k < now.len() implies #[trigger] first[j]
                < #[trigger] first[k] && now[j].path@ != now[k].path@ by {
                assert(now[j].path == before[j].path);
                assert(now[k].path == before[k].path);
            }
            assert forall|j: int| 0 <= j < changes.len() implies (
            #[trigger] changes[j]).path is Some && planned_at(now, changes[j].path->Some_0@)
                < now.len() by {
                if j < rest.len() {
                    assert(rest[j] == changes[j]);
                }
                lemma_planned_still(before, now, changes[j].path->Some_0@);
            }
            first
        } else {
            let more = first.push(changes.len() - 1);
            assert forall|j: int| 0 <= j < rest.len() implies (#[trigger] rest[j]).path is Some
                && rest[j].path->Some_0@ != path@ by {
                lemma_planned_at_bound(before, rest[j].path->Some_0@);
            }
            lemma_not_listed(rest, path@);
            assert(listed_for(changes, path@) =~= replacements(change.edits@));
            assert forall|k: int| 0 <= k < now.len() implies {
                &&& 0 <= #[trigger] more[k] < changes.len()
                &&& changes[more[k]].path == Some(now[k].path)
                &&& changes[more[k]].version == now[k].version
                &&& now[k].contents is None
                &&& now[k].edits == listed_for(changes, now[k].path@)
                &&& now[k].open == exists|i: int|
                    0 <= i < open.len() && normal_parts((#[trigger] open[i])@) == normal_parts(
                        now[k].path@,
                    )
            } by {
                if k < before.len() {
                    assert(more[k] == first[k]);
                    assert(rest[first[k]] == changes[first[k]]);
                    assert(now[k] == before[k]);
                    assert(listed_for(changes, now[k].path@) =~= listed_for(rest, now[k].path@));
                }
            }
            assert forall|j: int, k: int| 0 <= j < k < now.len() implies #[trigger] more[j]
                < #[trigger] more[k] && now[j].path@ != now[k].path@ by {
                assert(more[j] == first[j]);
                assert(now[j] == before[j]);
                if k < before.len() {
                    assert(more[k] == first[k]);
                    assert(now[k] == before[k]);
                }
            }
            assert forall|j: int| 0 <= j < changes.len() implies (
            #[trigger] changes[j]).path is Some && planned_at(now, changes[j].path->Some_0@)
                < now.len() by {
                if j < rest.len() {
                    assert(rest[j] == changes[j]);
                    lemma_planned_still(before, now, changes[j].path->Some_0@);
                } else {
                    lemma_planned_at_bound(now, path@);
                    assert(now[now.len() - 1].path == path);
                }
            }
            more
        }
    }
}

/// A plan holds the files that the changes name, each once, in the order in which they are first
/// named, and for each all that the changes list for it, in order; and it knows which of them are
/// open. No file that is named is left out.
pub proof fn law_a_plan_gathers_each_files_edits(
    changes: Seq<DocumentChange>,
    open: Seq<PathBuf>,
    i: int,
) -> (r: (Seq<int>, int))
    requires
        plan_of(changes, open) is Ok,
        0 <= i < changes.len(),
    ensures
        gathers(changes, open, plan_of(changes, open)->Ok_0, r.0),
        changes[i].path is Some,
        0 <= r.1 < plan_of(changes, open)->Ok_0.len(),
        plan_of(changes, open)->Ok_0[r.1].path@ == changes[i].path->Some_0@,
{
    let first = lemma_gathers(changes, open);
    let docs = plan_of(changes, open)->Ok_0;
    lemma_planned_at_bound(docs, changes[i].path->Some_0@);
    (first, planned_at(docs, changes[i].path->Some_0@))
}

/// Changes are planned exactly where each of them can be. Where one cannot, the first that cannot is
/// what the refusal is about.
pub proof fn law_when_changes_are_planned(changes: Seq<DocumentChange>, open: Seq<PathBuf>, i: int)
    requires
        0 <= i < changes.len(),
        forall|j: int| 0 <= j < i ==> can_be_planned(#[trigger] changes[j]),
    ensures
        can_be_planned(changes[i]) && i == changes.len() - 1 ==> plan_of(changes, open) is Ok,
        !can_be_planned(changes[i]) ==> plan_of(changes, open) == if changes[i].path is None {
            Err::<Seq<Planned>, Fault>(Fault::NotAFile(changes[i].uri@))
        } else {
            Err::<Seq<Planned>, Fault>(
                Fault::Stale {
                    path: changes[i].path->Some_0,
                    expected: changes[i].version->Some_0,
                    actual: changes[i].actual->Some_0,
                },
            )
        },
    decreases changes.len(),
{
    let rest = changes.drop_last();
    if i == changes.len() - 1 {
        if rest.len() > 0 {
            assert forall|j: int| 0 <= j < rest.len() - 1 implies can_be_planned(
                #[trigger] rest[j],
            ) by {
                assert(rest[j] == changes[j]);
            }
            assert(can_be_planned(changes[rest.len() - 1]));
            law_when_changes_are_planned(rest, open, rest.len() - 1);
        }
    } else {
        assert forall|j: int| 0 <= j < i implies can_be_planned(#[trigger] rest[j]) by {
            assert(rest[j] == changes[j]);
        }
        law_when_changes_are_planned(rest, open, i);
    }
}

} // verus!
