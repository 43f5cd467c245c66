//! What follows from an operation on a file, whether it succeeded, failed or is to be undone.

use vstd::prelude::*;
#[allow(unused_imports)]
use crate::laws::moving::{begins, inside_dir};
#[allow(unused_imports)]
use crate::laws::picking::{lemma_picked, picked, picks};
#[allow(unused_imports)]
use crate::path::{normal_parts, parent_of, under, Part, PathBuf};
#[allow(unused_imports)]
use crate::session::files::{inverse_of, Operation, Stamp};
#[allow(unused_imports)]
use crate::session::moves::{committed_after, operation_done, operation_failed, stamped, undoes};
#[allow(unused_imports)]
use crate::session::outcome::Outcome;
#[allow(unused_imports)]
use crate::session::state::{
    CommittedEntry, EditorSettings, Focus, Session, Tab, TreeRequest,
};
#[allow(unused_imports)]
use crate::session::tree::{committed_beside, paths_under, recorded_undo, under_indices};
#[allow(unused_imports)]
use crate::text::view_of;

verus! {

proof fn lemma_begins(path: Seq<Part>, dir: Seq<Part>)
    ensures
        under(path, dir) == begins(path, dir),
{
    if begins(path, dir) {
        assert(path.take(dir.len() as int) =~= dir);
    }
    if under(path, dir) {
        assert forall|i: int| 0 <= i < dir.len() implies #[trigger] path[i] == dir[i] by {
            assert(path.take(dir.len() as int)[i] == path[i]);
        }
    }
}

/// Which tabs hold a file that is `dir`, or inside it.
pub open spec fn inside_marks<B, S>(tabs: Seq<Tab<B, S>>, dir: PathBuf) -> Seq<bool> {
    Seq::new(tabs.len(), |i: int| inside_dir(tabs[i], dir))
}

/// The tabs under a directory, and the files they hold, are exactly those whose file is in it, in
/// the order of the tabs.
pub proof fn law_which_tabs_are_in_a_directory<B, S>(tabs: Seq<Tab<B, S>>, dir: PathBuf)
    ensures
        picks(under_indices(tabs, dir@), inside_marks(tabs, dir)),
        paths_under(tabs, dir@).len() == under_indices(tabs, dir@).len(),
        forall|k: int|
            0 <= k < paths_under(tabs, dir@).len() ==> Some(
                #[trigger] paths_under(tabs, dir@)[k],
            ) == tabs[under_indices(tabs, dir@)[k]].document.path,
    decreases tabs.len(),
{
    if tabs.len() > 0 {
        let rest = tabs.drop_last();
        law_which_tabs_are_in_a_directory(rest, dir);
        let mark = inside_dir(tabs.last(), dir);
        if let Some(own) = tabs.last().document.path {
            lemma_begins(normal_parts(own@), normal_parts(dir@));
        }
        let before = under_indices(rest, dir@);
        lemma_picked(before, inside_marks(rest, dir), mark);
        assert(inside_marks(rest, dir).push(mark) =~= inside_marks(tabs, dir));
        let at = under_indices(tabs, dir@);
        assert(at == picked(before, inside_marks(rest, dir), mark));
        assert forall|k: int| 0 <= k < paths_under(tabs, dir@).len() implies Some(
            #[trigger] paths_under(tabs, dir@)[k],
        ) == tabs[at[k]].document.path by {
            if k < before.len() {
                assert(paths_under(tabs, dir@)[k] == paths_under(rest, dir@)[k]);
                assert(at[k] == before[k]);
                assert(rest[before[k]] == tabs[before[k]]);
            }
        }
    }
}

/// What is undone is what was done last and can be: its inverse is asked for, and is no longer among
/// what can be undone. What was done before it can be undone after it.
pub proof fn law_the_last_operation_is_undone_first<B, S, M>(
    before: Session<B, S, M>,
    middle: Session<B, S, M>,
    after: Session<B, S, M>,
    operation: Operation,
    outcome: Outcome,
)
    requires
        recorded_undo(before.tree, middle.tree, operation),
        inverse_of(operation) is Some,
        !(inverse_of(operation)->Some_0 is Rename),
        undoes(middle, after, outcome),
    ensures
        outcome == Outcome::FileOperation(inverse_of(operation)->Some_0),
        after.tree.undo@ == before.tree.undo@,
        after.tree.pending_undo == inverse_of(operation),
        after.tabs() == middle.tabs(),
{
    assert(after.tree.undo@ =~= before.tree.undo@);
}

/// A rename is undone likewise, unless a tab holds a file where it would go back to: then nothing
/// happens, and that is said.
pub proof fn law_a_rename_is_not_undone_onto_a_tab<B, S, M>(
    before: Session<B, S, M>,
    after: Session<B, S, M>,
    outcome: Outcome,
    to: PathBuf,
)
    requires
        before.tree.undo@.len() > 0,
        before.tree.undo@.last() is Rename,
        before.tree.undo@.last()->to == to,
        undoes(before, after, outcome),
    ensures
        (exists|k: int| 0 <= k < before.tabs().len() && inside_dir(#[trigger] before.tabs()[k], to))
            ==> outcome is Message && after == before,
        (forall|k: int|
            0 <= k < before.tabs().len() ==> !inside_dir(#[trigger] before.tabs()[k], to))
            ==> outcome == Outcome::FileOperation(before.tree.undo@.last()) && after.tree.undo@
            == before.tree.undo@.drop_last(),
{
    let tabs = before.tabs();
    law_which_tabs_are_in_a_directory(tabs, to);
    let at = under_indices(tabs, to@);
    let marks = inside_marks(tabs, to);
    if exists|k: int| 0 <= k < tabs.len() && inside_dir(#[trigger] tabs[k], to) {
        let k = choose|k: int| 0 <= k < tabs.len() && inside_dir(#[trigger] tabs[k], to);
        assert(marks[k]);
        assert(at.contains(k));
    } else if at.len() > 0 {
        assert(marks[at[0]]);
    }
}

/// What was asked for and failed is not among what can be undone; an undoing that failed is again,
/// and can be tried once more. No document changes, and what failed is said with its reason.
pub proof fn law_what_can_be_undone_after_a_failure<B, S, M>(
    before: Session<B, S, M>,
    middle: Session<B, S, M>,
    after: Session<B, S, M>,
    operation: Operation,
    described: Seq<char>,
    reason: Seq<char>,
)
    requires
        operation_failed(middle, after, operation, described, reason),
    ensures
        recorded_undo(before.tree, middle.tree, operation) && middle.tree.pending_undo is None
            && inverse_of(operation) is Some ==> after.tree.undo@ == before.tree.undo@,
        middle.tree.pending_undo == Some(operation) ==> after.tree.undo@
            == middle.tree.undo@.push(operation),
        after.tree.pending_undo is None,
        after.tabs() == middle.tabs(),
        view_of(after.status) == Some("could not "@ + described + ": "@ + reason),
{
    if recorded_undo(before.tree, middle.tree, operation) && middle.tree.pending_undo is None
        && inverse_of(operation) is Some {
        assert(after.tree.undo@ =~= before.tree.undo@);
    }
}

/// Once an operation succeeded, the directory it was in is read again; a directory that was deleted
/// is forgotten; what was made, or got another name, is shown in the tree, and what was remembered
/// under the old name is under the new one.
pub proof fn law_what_the_tree_is_told<
    B,
    S,
    M,
    I: Fn(&PathBuf) -> Option<String>,
    R: Fn(&Option<String>) -> EditorSettings,
>(
    before: Session<B, S, M>,
    after: Session<B, S, M>,
    operation: Operation,
    described: Seq<char>,
    infer: I,
    resolve: R,
) -> (r: (PathBuf, Seq<TreeRequest>))
    requires
        operation_done(before, after, operation, described, infer, resolve),
        before.tree.explorer is Some,
        parent_of(operation.subject().text@) is Some,
    ensures
        after.tree.explorer is Some,
        after.tree.explorer->Some_0.requests@ == before.tree.explorer->Some_0.requests@ + r.1,
        Some(r.0.text@) == parent_of(operation.subject().text@),
        r.1.contains(TreeRequest::Invalidate(r.0)),
        operation is CreateFile ==> r.1.last() == TreeRequest::Reveal(operation->CreateFile_0),
        operation is CreateFolder ==> r.1.last() == TreeRequest::Reveal(operation->CreateFolder_0),
        operation is Rename ==> r.1.last() == TreeRequest::Reveal(operation->to) && r.1.contains(
            TreeRequest::RekeyUnder(operation->from, operation->to),
        ),
        operation is Delete && operation->Delete_directory ==> r.1.contains(
            TreeRequest::ForgetUnder(operation->Delete_path),
        ),
        operation is DeleteIfEmpty && operation->DeleteIfEmpty_directory ==> r.1.contains(
            TreeRequest::ForgetUnder(operation->DeleteIfEmpty_path),
        ),
        after.chrome.focus == if operation is CreateFile {
            Focus::Editor
        } else {
            before.chrome.focus
        },
        after.scm.wanted,
        after.tree.pending_undo is None,
        !(operation is Delete) ==> after.tree.undo@ == before.tree.undo@,
{
    let parent = choose|parent: PathBuf|
        parent.text@ == parent_of(operation.subject().text@)->Some_0
            && crate::session::tree::explorer_asked(
            before.tree.explorer,
            after.tree.explorer,
            #[trigger] crate::session::moves::requests_after(operation, parent),
        );
    let more = crate::session::moves::requests_after(operation, parent);
    assert(more[0] == TreeRequest::Invalidate(parent));
    if operation is Delete && operation->Delete_directory {
        assert(more[1] == TreeRequest::ForgetUnder(operation->Delete_path));
    }
    if operation is DeleteIfEmpty && operation->DeleteIfEmpty_directory {
        assert(more[1] == TreeRequest::ForgetUnder(operation->DeleteIfEmpty_path));
    }
    if operation is Rename {
        assert(more[2] == TreeRequest::RekeyUnder(operation->from, operation->to));
        assert(more[3] == TreeRequest::Reveal(operation->to));
    }
    (parent, more)
}

/// Which committed texts are of files that are not `path`, nor inside it.
pub open spec fn outside_marks<M>(list: Seq<CommittedEntry<M>>, path: Seq<Part>) -> Seq<bool> {
    Seq::new(list.len(), |i: int| !begins(list[i].path@, path))
}

/// What was committed is forgotten of the files at or under a path, and of no other.
pub proof fn law_which_committed_texts_stay<M>(list: Seq<CommittedEntry<M>>, path: Seq<Part>) -> (at:
    Seq<int>)
    ensures
        picks(at, outside_marks(list, path)),
        committed_beside(list, path).len() == at.len(),
        forall|k: int|
            0 <= k < at.len() ==> #[trigger] committed_beside(list, path)[k] == list[at[k]],
    decreases list.len(),
{
    if list.len() == 0 {
        Seq::empty()
    } else {
        let rest = list.drop_last();
        let before = law_which_committed_texts_stay(rest, path);
        lemma_begins(list.last().path@, path);
        let mark = !begins(list.last().path@, path);
        lemma_picked(before, outside_marks(rest, path), mark);
        assert(outside_marks(rest, path).push(mark) =~= outside_marks(list, path));
        let at = picked(before, outside_marks(rest, path), mark);
        assert forall|k: int| 0 <= k < at.len() implies #[trigger] committed_beside(list, path)[k]
            == list[at[k]] by {
            if k < before.len() {
                assert(committed_beside(list, path)[k] == committed_beside(rest, path)[k]);
                assert(at[k] == before[k]);
                assert(rest[before[k]] == list[before[k]]);
            }
        }
        at
    }
}

/// Nothing that was committed is kept of a place that an operation filled or emptied, and what is
/// kept of any other place stays.
pub proof fn law_no_committed_text_is_kept_of_a_changed_place<M>(
    list: Seq<CommittedEntry<M>>,
    operation: Operation,
    entry: CommittedEntry<M>,
)
    ensures
        ({
            let gone = match operation {
                Operation::CreateFile(path) => begins(entry.path@, path@),
                Operation::CreateFolder(path) => begins(entry.path@, path@),
                Operation::Rename { from, to, .. } => begins(entry.path@, from@) || begins(
                    entry.path@,
                    to@,
                ),
                Operation::Delete { path, .. } => begins(entry.path@, path@),
                Operation::DeleteIfEmpty { path, .. } => begins(entry.path@, path@),
            };
            committed_after(list, operation).contains(entry) == (list.contains(entry) && !gone)
        }),
{
    match operation {
        Operation::CreateFile(path) => lemma_beside(list, path@, entry),
        Operation::CreateFolder(path) => lemma_beside(list, path@, entry),
        Operation::Rename { from, to, .. } => {
            lemma_beside(list, to@, entry);
            lemma_beside(committed_beside(list, to@), from@, entry);
        },
        Operation::Delete { path, .. } => lemma_beside(list, path@, entry),
        Operation::DeleteIfEmpty { path, .. } => lemma_beside(list, path@, entry),
    }
}

proof fn lemma_beside<M>(list: Seq<CommittedEntry<M>>, path: Seq<Part>, entry: CommittedEntry<M>)
    ensures
        committed_beside(list, path).contains(entry) == (list.contains(entry) && !begins(
            entry.path@,
            path,
        )),
{
    let at = law_which_committed_texts_stay(list, path);
    let now = committed_beside(list, path);
    let marks = outside_marks(list, path);
    if now.contains(entry) {
        let k = choose|k: int| 0 <= k < now.len() && now[k] == entry;
        assert(marks[at[k]]);
        assert(list[at[k]] == entry);
    }
    if list.contains(entry) && !begins(entry.path@, path) {
        let i = choose|i: int| 0 <= i < list.len() && list[i] == entry;
        assert(marks[i]);
        assert(at.contains(i));
        let k = choose|k: int| 0 <= k < at.len() && at[k] == i;
        assert(now[k] == entry);
    }
}

/// What an operation may be asked to expect is what a file looked like: that alone is added to it,
/// and only to one that moves or deletes.
pub proof fn law_an_operation_expects_its_file(operation: Operation, stamp: Stamp)
    ensures
        operation is CreateFile || operation is CreateFolder || operation is Delete ==> stamped(
            operation,
            stamp,
        ) == operation,
        operation is Rename ==> stamped(operation, stamp) is Rename && stamped(
            operation,
            stamp,
        )->from == operation->from && stamped(operation, stamp)->to == operation->to && stamped(
            operation,
            stamp,
        )->Rename_directory == operation->Rename_directory && stamped(
            operation,
            stamp,
        )->Rename_expect == Some(stamp),
        operation is DeleteIfEmpty ==> stamped(operation, stamp) is DeleteIfEmpty && stamped(
            operation,
            stamp,
        )->DeleteIfEmpty_path == operation->DeleteIfEmpty_path && stamped(
            operation,
            stamp,
        )->DeleteIfEmpty_directory == operation->DeleteIfEmpty_directory && stamped(
            operation,
            stamp,
        )->DeleteIfEmpty_expect == Some(stamp),
{
}

} // verus!
