//! What is asked of the file tree, and where.

use vstd::prelude::*;
#[allow(unused_imports)]
use crate::laws::moving::inside_dir;
#[allow(unused_imports)]
use crate::laws::planning::holds_file;
#[allow(unused_imports)]
use crate::path::{join_text, parent_of, PathBuf};
#[allow(unused_imports)]
use crate::session::bulk::lemma_holding;
#[allow(unused_imports)]
use crate::session::files::Operation;
#[allow(unused_imports)]
use crate::session::layout::refreshed;
#[allow(unused_imports)]
use crate::session::outcome::Outcome;
#[allow(unused_imports)]
use crate::session::state::{Explorer, Session, Tab};
#[allow(unused_imports)]
use crate::session::tabs::{is_at, tab_holding};
#[allow(unused_imports)]
use crate::session::tree::{
    creates, deletes, inside_gives, paths_under, recorded_undo, renames, renames_to, tab_under,
    target_text,
};

verus! {

/// The directory a new entry goes into: the selected one, the one that the selected file is in, or
/// the root where nothing is selected.
pub open spec fn goes_into(explorer: Explorer, dir: Seq<char>) -> bool {
    match explorer.selection {
        None => dir == explorer.root.text@,
        Some(row) => if row.is_dir {
            dir == row.path.text@
        } else {
            parent_of(row.path.text@) == Some(dir)
        },
    }
}

/// Whether a tree shows an entry at a path.
pub open spec fn is_listed(explorer: Explorer, path: PathBuf) -> bool {
    exists|i: int| 0 <= i < explorer.rows@.len() && (#[trigger] explorer.rows@[i]).path@ == path@
}

/// Whether what was asked for is remembered with what undoes it.
pub open spec fn undone_by<B, S, M>(
    before: Session<B, S, M>,
    after: Session<B, S, M>,
    inverse: Operation,
) -> bool {
    after.tree.undo@ == before.tree.undo@.push(inverse)
}

/// Whether a path was found to be inside the workspace.
pub open spec fn said_inside<I: Fn(&PathBuf, &PathBuf) -> Result<(), String>>(
    inside: I,
    root: PathBuf,
    path: PathBuf,
) -> bool {
    exists|answer: Result<(), String>| #[trigger]
        inside.ensures((&root, &path), answer) && answer is Ok
}

/// A new entry is asked for only under a name that may be one, inside the workspace, in the directory
/// that is selected, where there is no entry yet and no tab still open on one; and what undoes it,
/// deleting it again while it is empty, is remembered. Otherwise nothing changes.
pub proof fn law_where_a_new_entry_goes<B, S, M, I: Fn(&PathBuf, &PathBuf) -> Result<(), String>>(
    before: Session<B, S, M>,
    after: Session<B, S, M>,
    name: Result<String, String>,
    folder: bool,
    inside: I,
    outcome: Outcome,
)
    requires
        creates(before, after, name, folder, inside, outcome),
    ensures
        !(outcome is FileOperation) ==> after == before,
        outcome matches Outcome::FileOperation(operation) ==> {
            &&& name is Ok
            &&& before.tree.explorer is Some
            &&& operation is CreateFolder == folder
            &&& operation is CreateFile == !folder
            &&& ({
                let explorer = before.tree.explorer->Some_0;
                let path = if folder {
                    operation->CreateFolder_0
                } else {
                    operation->CreateFile_0
                };
                &&& exists|dir: Seq<char>|
                    goes_into(explorer, dir) && path.text@ == #[trigger] join_text(
                        dir,
                        name->Ok_0@,
                    )
                &&& said_inside(inside, explorer.root, path)
                &&& !is_listed(explorer, path)
                &&& forall|k: int| !#[trigger] holds_file(before, k, path)
                &&& undone_by(
                    before,
                    after,
                    Operation::DeleteIfEmpty { path, directory: folder, expect: None },
                )
            })
            &&& after.tabs().len() == before.tabs().len()
        },
{
    if outcome is FileOperation {
        let explorer = before.tree.explorer->Some_0;
        let dir = target_text(explorer)->Some_0;
        let name = name->Ok_0;
        let (path, answer) = choose|path: PathBuf, answer: Result<(), String>|
            {
                &&& path.text@ == join_text(dir, name@)
                &&& #[trigger] inside_gives(inside, explorer.root, path, answer)
                &&& match answer {
                    Err(error) => after == before && outcome.says(error@),
                    Ok(()) => if crate::session::tree::row_at(explorer.rows@, path@) {
                        after == before && !(outcome is FileOperation)
                    } else if tab_holding(before.tabs(), path@) < before.tabs().len() {
                        after == before && !(outcome is FileOperation)
                    } else {
                        let operation = if folder {
                            Operation::CreateFolder(path)
                        } else {
                            Operation::CreateFile(path)
                        };
                        &&& outcome == Outcome::FileOperation(operation)
                        &&& exists|mid: Session<B, S, M>|
                            {
                                &&& mid == (Session { tree: mid.tree, ..before })
                                &&& recorded_undo(before.tree, mid.tree, operation)
                                &&& #[trigger] refreshed(mid, after)
                            }
                    },
                }
            };
        assert(inside.ensures((&explorer.root, &path), answer));
        assert(goes_into(explorer, dir) && path.text@ == join_text(dir, name@));
        lemma_holding(before.tabs(), path@);
        assert forall|k: int| !#[trigger] holds_file(before, k, path) by {
            if holds_file(before, k, path) {
                assert(is_at(before.tabs()[k].document, path@));
            }
        }
    }
}

/// A new entry that may be made is asked for.
pub proof fn law_an_entry_that_may_be_made_is_asked_for<
    B,
    S,
    M,
    I: Fn(&PathBuf, &PathBuf) -> Result<(), String>,
>(
    before: Session<B, S, M>,
    after: Session<B, S, M>,
    name: Result<String, String>,
    folder: bool,
    inside: I,
    outcome: Outcome,
    dir: Seq<char>,
)
    requires
        creates(before, after, name, folder, inside, outcome),
        before.tree.explorer is Some,
        name is Ok,
        goes_into(before.tree.explorer->Some_0, dir),
        forall|path: PathBuf, answer: Result<(), String>|
            path.text@ == join_text(dir, name->Ok_0@) && #[trigger] inside.ensures(
                (&before.tree.explorer->Some_0.root, &path),
                answer,
            ) ==> answer is Ok,
        forall|path: PathBuf|
            path.text@ == join_text(dir, name->Ok_0@) ==> !#[trigger] is_listed(
                before.tree.explorer->Some_0,
                path,
            ),
        forall|path: PathBuf, k: int|
            path.text@ == join_text(dir, name->Ok_0@) ==> !#[trigger] holds_file(before, k, path),
    ensures
        outcome is FileOperation,
{
    let explorer = before.tree.explorer->Some_0;
    let name = name->Ok_0;
    assert(target_text(explorer) == Some(dir));
    let (path, answer) = choose|path: PathBuf, answer: Result<(), String>|
        {
            &&& path.text@ == join_text(dir, name@)
            &&& #[trigger] inside_gives(inside, explorer.root, path, answer)
            &&& match answer {
                Err(error) => after == before && outcome.says(error@),
                Ok(()) => crate::session::tree::row_at(explorer.rows@, path@) || tab_holding(
                    before.tabs(),
                    path@,
                ) < before.tabs().len() || outcome is FileOperation,
            }
        };
    assert(inside.ensures((&explorer.root, &path), answer));
    assert(!is_listed(explorer, path));
    lemma_holding(before.tabs(), path@);
    let k = tab_holding(before.tabs(), path@);
    assert(!holds_file(before, k, path));
}

/// An entry is renamed only to a name that may be one, inside the workspace, in the directory it is
/// in, where there is no entry yet and no tab still open on or under one; and what undoes it, the
/// same rename the other way round, is remembered. Otherwise nothing changes.
pub proof fn law_where_an_entry_is_renamed_to<
    B,
    S,
    M,
    I: Fn(&PathBuf, &PathBuf) -> Result<(), String>,
>(
    before: Session<B, S, M>,
    after: Session<B, S, M>,
    name: Seq<char>,
    checked: Result<String, String>,
    inside: I,
    outcome: Outcome,
)
    requires
        renames(before, after, name, checked, inside, outcome),
    ensures
        !(outcome is FileOperation) ==> after == before,
        outcome matches Outcome::FileOperation(operation) ==> {
            &&& checked is Ok
            &&& before.tree.explorer is Some
            &&& before.tree.explorer->Some_0.selection is Some
            &&& operation is Rename
            &&& ({
                let explorer = before.tree.explorer->Some_0;
                let row = explorer.selection->Some_0;
                &&& name != row.name@
                &&& operation->from == row.path
                &&& operation->Rename_directory == row.is_dir
                &&& parent_of(row.path.text@) is Some
                &&& operation->to.text@ == join_text(
                    parent_of(row.path.text@)->Some_0,
                    checked->Ok_0@,
                )
                &&& operation->to@ != row.path@
                &&& said_inside(inside, explorer.root, operation->to)
                &&& !is_listed(explorer, operation->to)
                &&& forall|k: int|
                    0 <= k < before.tabs().len() ==> !inside_dir(
                        #[trigger] before.tabs()[k],
                        operation->to,
                    )
                &&& undone_by(
                    before,
                    after,
                    Operation::Rename {
                        directory: row.is_dir,
                        from: operation->to,
                        to: row.path,
                        expect: None,
                    },
                )
            })
        },
{
    if outcome is FileOperation {
        let explorer = before.tree.explorer->Some_0;
        let row = explorer.selection->Some_0;
        let dir = parent_of(row.path.text@)->Some_0;
        let own = checked->Ok_0;
        let (to, answer) = choose|to: PathBuf, answer: Result<(), String>|
            {
                &&& to.text@ == join_text(dir, own@)
                &&& to@ != row.path@ ==> inside_gives(inside, explorer.root, to, answer)
                &&& #[trigger] renames_to(
                    before,
                    after,
                    explorer,
                    row,
                    own@,
                    to,
                    answer,
                    outcome,
                )
            };
        assert(inside.ensures((&explorer.root, &to), answer));
        lemma_none_under(before.tabs(), to);
    }
}

proof fn lemma_none_under<B, S>(tabs: Seq<Tab<B, S>>, path: PathBuf)
    requires
        paths_under(tabs, path@).len() == 0,
    ensures
        forall|k: int| 0 <= k < tabs.len() ==> !inside_dir(#[trigger] tabs[k], path),
    decreases tabs.len(),
{
    if tabs.len() > 0 {
        lemma_none_under(tabs.drop_last(), path);
        assert forall|k: int| 0 <= k < tabs.len() implies !inside_dir(#[trigger] tabs[k], path) by {
            if k < tabs.len() - 1 {
                assert(tabs.drop_last()[k] == tabs[k]);
            } else if inside_dir(tabs[k], path) {
                let own = crate::path::normal_parts(tabs[k].document.path->Some_0@);
                let dir = crate::path::normal_parts(path@);
                assert(own.take(dir.len() as int) =~= dir);
                assert(tab_under(tabs.last(), path@));
            }
        }
    }
}

/// What is deleted is the selected entry, only where it is inside the workspace and not the whole of
/// it; and asking changes nothing yet.
pub proof fn law_what_is_deleted<B, S, M, I: Fn(&PathBuf, &PathBuf) -> Result<(), String>>(
    before: Session<B, S, M>,
    after: Session<B, S, M>,
    inside: I,
    outcome: Outcome,
)
    requires
        deletes(before, after, inside, outcome),
    ensures
        after == before,
        outcome matches Outcome::FileOperation(operation) ==> {
            &&& before.tree.explorer is Some
            &&& before.tree.explorer->Some_0.selection is Some
            &&& ({
                let explorer = before.tree.explorer->Some_0;
                let row = explorer.selection->Some_0;
                &&& operation == (Operation::Delete { directory: row.is_dir, path: row.path })
                &&& said_inside(inside, explorer.root, row.path)
                &&& row.path@ != explorer.root@
            })
        },
{
    if outcome is FileOperation {
        let explorer = before.tree.explorer->Some_0;
        let row = explorer.selection->Some_0;
        let answer = choose|answer: Result<(), String>|
            {
                &&& #[trigger] inside_gives(inside, explorer.root, row.path, answer)
                &&& match answer {
                    Err(error) => outcome.says(error@),
                    Ok(()) => if row.path@ == explorer.root@ {
                        !(outcome is FileOperation)
                    } else {
                        outcome == Outcome::FileOperation(
                            Operation::Delete { directory: row.is_dir, path: row.path },
                        )
                    },
                }
            };
        assert(inside.ensures((&explorer.root, &row.path), answer));
    }
}

/// What undoes an operation is what leads back: where it made something, that is deleted while it is
/// empty; where it moved something, that is moved back. A deletion is not undone.
pub proof fn law_what_undoes_an_operation(operation: Operation)
    ensures
        match operation {
            Operation::CreateFile(path) => crate::session::files::inverse_of(operation) == Some(
                Operation::DeleteIfEmpty { path, directory: false, expect: None },
            ),
            Operation::CreateFolder(path) => crate::session::files::inverse_of(operation) == Some(
                Operation::DeleteIfEmpty { path, directory: true, expect: None },
            ),
            Operation::Rename { directory, from, to, expect } => crate::session::files::inverse_of(
                operation,
            ) == Some(Operation::Rename { directory, from: to, to: from, expect: None }),
            _ => crate::session::files::inverse_of(operation) is None,
        },
{
}

} // verus!
