//! What is asked of a repository, and what is kept of what it holds.

use vstd::prelude::*;
#[allow(unused_imports)]
use crate::laws::picking::{lemma_picked, picked, picks};
#[allow(unused_imports)]
use crate::path::{Part, PathBuf};
#[allow(unused_imports)]
use crate::session::outcome::{ComparisonKind, Outcome, ScmOperation};
#[allow(unused_imports)]
use crate::session::scm::{
    asks_commit, branch_choices, branches_offered, committed_apart, committed_at, committed_filled,
    current_branch, diff_step, first_unread, keys_list, operation_noted, stages, stages_all,
    unstages, Branch,
};
#[allow(unused_imports)]
use crate::session::state::{
    Committed, CommittedEntry, Focus, PromptKind, ScmGroup, ScmRow, Session, SideBarView, Tab,
};
#[allow(unused_imports)]
use crate::text::view_of;

verus! {

/// Only what is not staged is staged, and only what is staged is taken back; a file that was renamed
/// is taken back under both of its names. Anything else comes to words.
pub proof fn law_what_is_staged_and_taken_back(row: ScmRow, staged: Outcome, back: Outcome)
    requires
        stages(Some(row), staged),
        unstages(Some(row), back),
    ensures
        row.group == ScmGroup::Staged ==> staged is Message && back is GitOperation
            && back->GitOperation_0 is Unstage && back->GitOperation_0->path == row.path && (
        row.renamed ==> back->GitOperation_0->original == row.original) && (!row.renamed
            ==> back->GitOperation_0->original is None),
        row.group != ScmGroup::Staged ==> back is Message && staged == Outcome::GitOperation(
            ScmOperation::Stage(row.path),
        ),
{
}

/// Everything is staged where there is a row that is not; a message is asked for where there is one
/// that is.
pub proof fn law_there_is_something_to_stage_or_to_commit<B, S, M>(
    before: Session<B, S, M>,
    after: Session<B, S, M>,
    all: Outcome,
    commit: Outcome,
    i: int,
)
    requires
        0 <= i < before.scm.rows@.len(),
        stages_all(before.scm.rows@, all),
        asks_commit(before, after, commit),
    ensures
        before.scm.rows@[i].group != ScmGroup::Staged ==> all == Outcome::GitOperation(
            ScmOperation::StageAll,
        ),
        (forall|k: int|
            0 <= k < before.scm.rows@.len() ==> (#[trigger] before.scm.rows@[k]).group
                == ScmGroup::Staged) ==> all is Message,
        before.scm.status is Some && before.scm.rows@[i].group == ScmGroup::Staged ==> commit
            is Handled && after.prompt is Some && after.prompt->Some_0.kind
            == PromptKind::CommitMessage,
        (forall|k: int|
            0 <= k < before.scm.rows@.len() ==> (#[trigger] before.scm.rows@[k]).group
                != ScmGroup::Staged) ==> commit is Message && after == before,
        before.scm.status is None ==> commit is Message && after == before,
{
}

/// Which branches are not checked out.
pub open spec fn other_marks(branches: Seq<Branch>) -> Seq<bool> {
    Seq::new(branches.len(), |i: int| !branches[i].current)
}

/// The branches that can be switched to are those that are not checked out, in their order.
pub proof fn law_which_branches_are_offered(branches: Seq<Branch>) -> (at: Seq<int>)
    ensures
        picks(at, other_marks(branches)),
        branch_choices(branches).len() == at.len(),
        forall|k: int|
            0 <= k < at.len() ==> (#[trigger] branch_choices(branches)[k]).id
                == branches[at[k]].name@ && branch_choices(branches)[k].title
                == branches[at[k]].name@,
    decreases branches.len(),
{
    if branches.len() == 0 {
        Seq::empty()
    } else {
        let rest = branches.drop_last();
        let before = law_which_branches_are_offered(rest);
        let mark = !branches.last().current;
        lemma_picked(before, other_marks(rest), mark);
        assert(other_marks(rest).push(mark) =~= other_marks(branches));
        let at = picked(before, other_marks(rest), mark);
        assert forall|k: int| 0 <= k < at.len() implies (
        #[trigger] branch_choices(branches)[k]).id == branches[at[k]].name@
            && branch_choices(branches)[k].title == branches[at[k]].name@ by {
            if k < before.len() {
                assert(branch_choices(branches)[k] == branch_choices(rest)[k]);
                assert(at[k] == before[k]);
                assert(rest[before[k]] == branches[before[k]]);
            }
        }
        at
    }
}

proof fn lemma_current(branches: Seq<Branch>)
    ensures
        0 <= current_branch(branches) <= branches.len(),
        current_branch(branches) < branches.len() ==> branches[current_branch(branches)].current,
        forall|i: int| 0 <= i < current_branch(branches) ==> !(#[trigger] branches[i]).current,
    decreases branches.len(),
{
    if branches.len() > 0 && !branches[0].current {
        let rest = branches.skip(1);
        lemma_current(rest);
        assert forall|i: int| 0 <= i < current_branch(branches) implies !(
        #[trigger] branches[i]).current by {
            if i > 0 {
                assert(rest[i - 1] == branches[i]);
            }
        }
    }
}

/// While branches are chosen from, it is said which one is checked out. Where there is no other, it
/// is said that there is none, and nothing is asked.
pub proof fn law_the_branch_checked_out_is_named<B, S, M>(
    before: Session<B, S, M>,
    after: Session<B, S, M>,
    branches: Seq<Branch>,
    i: int,
)
    requires
        branches_offered(before, after, branches),
        0 <= i < branches.len(),
    ensures
        branches[i].current && (forall|k: int|
            0 <= k < branches.len() && k != i ==> !(#[trigger] branches[k]).current) ==> if branches.len()
            > 1 {
            &&& after.prompt is Some
            &&& after.prompt->Some_0.kind == PromptKind::Branches
            &&& view_of(after.status) == Some("currently on "@ + branches[i].name@)
        } else {
            &&& after.prompt == before.prompt
            &&& after.status is Some
        },
{
    let at = law_which_branches_are_offered(branches);
    lemma_current(branches);
    let marks = other_marks(branches);
    if branches[i].current && (forall|k: int|
        0 <= k < branches.len() && k != i ==> !(#[trigger] branches[k]).current) {
        if branches.len() > 1 {
            let k: int = if i == 0 {
                1
            } else {
                0
            };
            assert(!branches[k].current);
            assert(marks[k]);
            assert(at.contains(k));
            let c = current_branch(branches);
            if c == branches.len() {
                assert(!branches[i].current);
            }
            assert(c == i);
        } else if at.len() > 0 {
            assert(marks[at[0]]);
        }
    }
}

/// Once something was done to the repository it is read again, and that is said; only a switch of
/// branches closes the comparison and has the open files read again.
pub proof fn law_a_switch_has_files_read_again<B, S, M>(
    before: Session<B, S, M>,
    after: Session<B, S, M>,
    operation: ScmOperation,
    described: Seq<char>,
)
    requires
        operation_noted(before, after, operation, described),
    ensures
        after.scm.wanted,
        view_of(after.status) == Some(described),
        operation is Checkout ==> after.scm.checkout_completed && after.groups.comparison is None,
        !(operation is Checkout) ==> after.scm.checkout_completed == before.scm.checkout_completed
            && after.groups == before.groups,
        after.tabs() == before.tabs(),
{
}

/// Selecting a row opens what is staged of it beside what is committed, or else what is in the
/// working tree beside what is staged; a conflict opens nothing.
pub proof fn law_which_states_of_a_file_are_compared<B, S, M>(
    before: Session<B, S, M>,
    after: Session<B, S, M>,
    row: ScmRow,
    outcome: Outcome,
)
    requires
        keys_list(before, after, "list.select"@, outcome),
        before.chrome.focus == Focus::SideBar,
        before.chrome.side_bar_view == SideBarView::SourceControl,
        before.scm.selected is Some,
        before.scm.selected->Some_0 < before.scm.rows@.len(),
        row == before.scm.rows@[before.scm.selected->Some_0 as int],
    ensures
        row.group == ScmGroup::Conflicts ==> outcome is Message && after == before,
        row.group != ScmGroup::Conflicts ==> {
            &&& outcome is GitComparison
            &&& outcome->GitComparison_0.path == row.path
            &&& row.group == ScmGroup::Staged ==> outcome->GitComparison_0.kind
                == ComparisonKind::Staged && outcome->GitComparison_0.original == row.original
            &&& row.group != ScmGroup::Staged ==> outcome->GitComparison_0.kind
                == ComparisonKind::WorkingTree && outcome->GitComparison_0.original is None
            &&& after.chrome.focus == Focus::Editor
        },
{
}

/// A key that moves in the list moves the selection its way, and the list scrolls after it.
pub proof fn law_a_list_key_moves_its_way<B, S, M>(
    before: Session<B, S, M>,
    after: Session<B, S, M>,
    command: Seq<char>,
    outcome: Outcome,
)
    requires
        keys_list(before, after, command, outcome),
        before.chrome.focus == Focus::SideBar,
        before.chrome.side_bar_view == SideBarView::SourceControl,
        command == "list.focusDown"@ || command == "list.focusUp"@ || command
            == "list.focusFirst"@ || command == "list.focusLast"@,
    ensures
        after.scm.requests@.len() == before.scm.requests@.len() + 2,
        after.scm.requests@.take(before.scm.requests@.len() as int) == before.scm.requests@,
        ({
            let n = before.scm.requests@.len() as int;
            &&& command == "list.focusDown"@ ==> after.scm.requests@[n] is SelectNext
            &&& command == "list.focusUp"@ ==> after.scm.requests@[n] is SelectPrevious
            &&& command == "list.focusFirst"@ ==> after.scm.requests@[n] is SelectFirst
            &&& command == "list.focusLast"@ ==> after.scm.requests@[n] is SelectLast
            &&& after.scm.requests@[n + 1] is ScrollIntoView
        }),
{
    reveal_strlit("list.focusDown");
    reveal_strlit("list.focusUp");
    reveal_strlit("list.focusFirst");
    reveal_strlit("list.focusLast");
    reveal_strlit("list.select");
    assert("list.focusDown"@[10] == 'D');
    assert("list.focusUp"@[10] == 'U');
    assert("list.focusFirst"@[10] == 'F');
    assert("list.focusLast"@[10] == 'L');
    assert("list.select"@[5] == 's');
    assert("list.focusDown"@[5] == 'f');
    assert("list.focusUp"@[5] == 'f');
    assert("list.focusFirst"@[5] == 'f');
    assert("list.focusLast"@[5] == 'f');
    assert(after.scm.requests@.take(before.scm.requests@.len() as int) =~= before.scm.requests@);
}

proof fn lemma_kept_at<M>(list: Seq<CommittedEntry<M>>, path: Seq<Part>)
    ensures
        0 <= committed_at(list, path) <= list.len(),
        committed_at(list, path) < list.len() ==> list[committed_at(list, path)].path@ == path,
        forall|i: int| 0 <= i < committed_at(list, path) ==> (#[trigger] list[i]).path@ != path,
    decreases list.len(),
{
    if list.len() > 0 && list[0].path@ != path {
        let rest = list.skip(1);
        lemma_kept_at(rest, path);
        assert forall|i: int| 0 <= i < committed_at(list, path) implies (
        #[trigger] list[i]).path@ != path by {
            if i > 0 {
                assert(rest[i - 1] == list[i]);
            }
        }
    }
}

/// What was committed of a file is kept under that file, in place of what was kept of it before, and
/// what is kept of every other file stays; how the text differs from it is to be found out anew.
pub proof fn law_what_was_committed_is_kept_by_file<M>(
    list: Seq<CommittedEntry<M>>,
    path: PathBuf,
    text: Option<String>,
    i: int,
)
    requires
        0 <= i < committed_filled(list, path, text).len(),
        committed_apart(list),
    ensures
        ({
            let now = committed_filled(list, path, text);
            &&& now.len() >= list.len()
            &&& now[i].path@ == path@ ==> now[i].committed.text == text && now[i].committed.marks
                is None
            &&& now[i].path@ != path@ ==> i < list.len() && now[i] == list[i]
            &&& exists|k: int| 0 <= k < now.len() && (#[trigger] now[k]).path@ == path@
            &&& committed_apart(now)
        }),
{
    lemma_kept_at(list, path@);
    let k = committed_at(list, path@);
    let now = committed_filled(list, path, text);
    assert(now[k].path@ == path@);
    if i < list.len() && i != k {
        assert(now[i] == list[i]);
        if k < list.len() {
            if i < k {
                assert(list[i].path@ != list[k].path@);
            } else {
                assert(list[k].path@ != list[i].path@);
            }
        }
    }
    assert forall|a: int, b: int| 0 <= a < b < now.len() implies #[trigger] now[a].path@
        != #[trigger] now[b].path@ by {
        if b < list.len() {
            assert(list[a].path@ != list[b].path@);
        }
    }
}

/// The file whose committed text is wanted next is the first of the open ones of which nothing is
/// kept; nothing is wanted once something is kept of each.
pub proof fn law_which_committed_text_is_wanted<M>(
    paths: Seq<PathBuf>,
    list: Seq<CommittedEntry<M>>,
) -> (i: int)
    ensures
        first_unread(paths, list) is Some ==> 0 <= i < paths.len() && first_unread(paths, list)
            == Some(paths[i]) && forall|k: int|
            0 <= k < list.len() ==> (#[trigger] list[k]).path@ != paths[i]@,
        first_unread(paths, list) is None ==> i == paths.len(),
        forall|j: int|
            0 <= j < i ==> exists|k: int|
                0 <= k < list.len() && (#[trigger] list[k]).path@ == (#[trigger] paths[j])@,
    decreases paths.len(),
{
    if paths.len() == 0 {
        0
    } else {
        lemma_kept_at(list, paths[0]@);
        let k = committed_at(list, paths[0]@);
        if k >= list.len() {
            0
        } else {
            let rest = paths.skip(1);
            let i = law_which_committed_text_is_wanted(rest, list);
            assert forall|j: int| 0 <= j < i + 1 implies exists|k: int|
                0 <= k < list.len() && (#[trigger] list[k]).path@ == (#[trigger] paths[j])@ by {
                if j == 0 {
                    assert(list[k].path@ == paths[0]@);
                } else {
                    assert(rest[j - 1] == paths[j]);
                }
            }
            i + 1
        }
    }
}

/// Bringing the marks of a document up to date finds out how its text differs from what was
/// committed, from an empty text where nothing was; what is kept of other files stays.
pub proof fn law_marks_are_found_against_what_was_committed<
    B,
    S,
    M,
    D: Fn(&String, &B) -> M,
>(
    before: Seq<CommittedEntry<M>>,
    after: Seq<CommittedEntry<M>>,
    tab: Tab<B, S>,
    diff: D,
    k: int,
)
    requires
        diff_step(before, after, tab, diff),
        committed_apart(before),
        0 <= k < before.len(),
    ensures
        after.len() == before.len(),
        after[k].path == before[k].path,
        after[k].committed.text == before[k].committed.text,
        tab.document.path is None || tab.document.path->Some_0@ != before[k].path@ ==> after[k]
            == before[k],
        tab.document.path is Some && tab.document.path->Some_0@ == before[k].path@ ==> {
            &&& after[k].committed.marks is Some
            &&& after[k].committed.marks->Some_0.0 == tab.document.version
            &&& before[k].committed.marks is Some && before[k].committed.marks->Some_0.0
                == tab.document.version ==> after[k] == before[k]
            &&& before[k].committed.marks is None || before[k].committed.marks->Some_0.0
                != tab.document.version ==> exists|head: String|
                #[trigger] diff.ensures(
                    (&head, &tab.document.body),
                    after[k].committed.marks->Some_0.1,
                ) && head@ == match before[k].committed.text {
                    Some(text) => text@,
                    None => Seq::empty(),
                }
        },
{
    if let Some(path) = tab.document.path {
        lemma_kept_at(before, path@);
        let at = committed_at(before, path@);
        if at < before.len() && before[k].path@ == path@ && at != k {
            if at < k {
                assert(before[at].path@ != before[k].path@);
            } else {
                assert(before[k].path@ != before[at].path@);
            }
        }
        if before[k].path@ == path@ && !crate::session::scm::marked_at(
            before[k].committed,
            tab.document.version,
        ) {
            assert(at == k);
            let (head, m) = choose|head: String, m: M|
                {
                    &&& #[trigger] diff.ensures((&head, &tab.document.body), m)
                    &&& head@ == match before[k].committed.text {
                        Some(text) => text@,
                        None => Seq::empty(),
                    }
                    &&& after == before.update(
                        k,
                        CommittedEntry {
                            committed: Committed {
                                marks: Some((tab.document.version, m)),
                                ..before[k].committed
                            },
                            ..before[k]
                        },
                    )
                };
            assert(after[k].committed.marks->Some_0.1 == m);
        }
    }
}

} // verus!
