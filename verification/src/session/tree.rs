//! The file tree: creating, renaming and deleting, following what moved, and undoing it.

use vstd::prelude::*;
use crate::path::{normalise, PathBuf};
#[allow(unused_imports)]
use crate::path::{join_text, normal_parts, parent_of, under, Part};
#[allow(unused_imports)]
use crate::session::documents::with_settings;
use crate::session::files::Operation;
#[allow(unused_imports)]
use crate::session::files::inverse_of;
#[allow(unused_imports)]
use crate::session::layout::refreshed;
use crate::session::outcome::Outcome;
use crate::session::state::{
    clone_path, Document, EditorSettings, Explorer, Session, Tab, TreeRequest, TreeRow, TreeState,
};
#[allow(unused_imports)]
use crate::session::state::CommittedEntry;
#[allow(unused_imports)]
use crate::session::tabs::tab_holding;
use crate::text::same;
#[allow(unused_imports)]
use crate::text::view_of;

verus! {

impl Clone for TreeRow {
    fn clone(&self) -> (r: TreeRow)
        ensures
            r == *self,
    {
        TreeRow { path: self.path.clone(), name: self.name.clone(), is_dir: self.is_dir }
    }
}

/// Whether the tree, if there is one, has been asked for `more` after what it was asked for
/// before.
pub open spec fn explorer_asked(
    before: Option<Explorer>,
    after: Option<Explorer>,
    more: Seq<TreeRequest>,
) -> bool {
    match before {
        None => after == before,
        Some(e) => after matches Some(x) && x == (Explorer { requests: x.requests, ..e })
            && x.requests@ == e.requests@ + more,
    }
}

/// Whether the tree has been asked for `more`, and nothing else about it changed.
pub open spec fn asked(before: TreeState, after: TreeState, more: Seq<TreeRequest>) -> bool {
    &&& after == (TreeState { explorer: after.explorer, ..before })
    &&& explorer_asked(before.explorer, after.explorer, more)
}

/// The text of the directory in which something new is made: the selected one, or the one that
/// the selected file is in, or the root where nothing is selected.
pub open spec fn target_text(explorer: Explorer) -> Option<Seq<char>> {
    match explorer.selection {
        Some(row) => if row.is_dir {
            Some(row.path.text@)
        } else {
            parent_text(row.path)
        },
        None => Some(explorer.root.text@),
    }
}

/// The text of the directory that a path is in.
pub open spec fn parent_text(path: PathBuf) -> Option<Seq<char>> {
    parent_of(path.text@)
}

/// Whether the tree shows an entry at `path`.
pub open spec fn row_at(rows: Seq<TreeRow>, path: Seq<Part>) -> bool {
    exists|i: int| 0 <= i < rows.len() && (#[trigger] rows[i]).path@ == path
}

/// Whether the tab holds a file at or under `path`, once both are resolved.
pub open spec fn tab_under<B, S>(tab: Tab<B, S>, path: Seq<Part>) -> bool {
    tab.document.path matches Some(own) && under(normal_parts(own@), normal_parts(path))
}

/// The display indices of the tabs that hold a file at or under `path`.
pub open spec fn under_indices<B, S>(tabs: Seq<Tab<B, S>>, path: Seq<Part>) -> Seq<int>
    decreases tabs.len(),
{
    if tabs.len() == 0 {
        Seq::empty()
    } else if tab_under(tabs.last(), path) {
        under_indices(tabs.drop_last(), path).push(tabs.len() - 1)
    } else {
        under_indices(tabs.drop_last(), path)
    }
}

/// The files at or under `path` that are open, in tab order.
pub open spec fn paths_under<B, S>(tabs: Seq<Tab<B, S>>, path: Seq<Part>) -> Seq<PathBuf>
    decreases tabs.len(),
{
    if tabs.len() == 0 {
        Seq::empty()
    } else if tab_under(tabs.last(), path) {
        paths_under(tabs.drop_last(), path).push(tabs.last().document.path->Some_0)
    } else {
        paths_under(tabs.drop_last(), path)
    }
}

/// What is said of a name that is taken.
pub open spec fn exists_text(before: Seq<char>, name: Seq<char>, after: Seq<char>) -> Seq<char> {
    before + name + after
}

/// What is said of a name that a tab is still open on.
pub open spec fn still_open_text(name: Seq<char>, before_doing: Seq<char>) -> Seq<char> {
    "a tab is still open on `"@ + name + "` — close it before "@ + before_doing
}

/// Whether `inside` may answer `answer` about the path.
pub open spec fn inside_gives<I: Fn(&PathBuf, &PathBuf) -> Result<(), String>>(
    inside: I,
    root: PathBuf,
    path: PathBuf,
    answer: Result<(), String>,
) -> bool {
    inside.ensures((&root, &path), answer)
}

/// Whether recording `operation` leads from `before` to `after`: what undoes it is remembered.
pub open spec fn recorded_undo(before: TreeState, after: TreeState, operation: Operation) -> bool {
    &&& after == (TreeState { undo: after.undo, ..before })
    &&& after.undo@ == match inverse_of(operation) {
        Some(inverse) => before.undo@.push(inverse),
        None => before.undo@,
    }
}

/// Whether asking for a new entry named `name` comes to `outcome`.
pub open spec fn creates<B, S, M, I: Fn(&PathBuf, &PathBuf) -> Result<(), String>>(
    before: Session<B, S, M>,
    after: Session<B, S, M>,
    name: Result<String, String>,
    folder: bool,
    inside: I,
    outcome: Outcome,
) -> bool {
    match before.tree.explorer {
        None => after == before && outcome.says("no workspace to create anything in"@),
        Some(explorer) => match name {
            Err(error) => after == before && outcome.says(error@),
            Ok(name) => match target_text(explorer) {
                None => after == before && outcome.says(before.wording.no_selection@),
                Some(dir) => exists|path: PathBuf, answer: Result<(), String>|
                    {
                        &&& path.text@ == join_text(dir, name@)
                        &&& #[trigger] inside_gives(inside, explorer.root, path, answer)
                        &&& match answer {
                            Err(error) => after == before && outcome.says(error@),
                            Ok(()) => if row_at(explorer.rows@, path@) {
                                after == before && outcome.says(
                                    exists_text(
                                        before.wording.exists_before@,
                                        name@,
                                        before.wording.exists_after@,
                                    ),
                                )
                            } else if tab_holding(before.tabs(), path@) < before.tabs().len() {
                                after == before && outcome.says(
                                    still_open_text(name@, "making a new one"@),
                                )
                            } else {
                                let operation = if folder {
                                    Operation::CreateFolder(path)
                                } else {
                                    Operation::CreateFile(path)
                                };
                                &&& outcome == Outcome::FileOperation(operation)
                                &&& exists|mid: Session<B, S, M>|
                                    {
                                        &&& mid == (Session { tree: mid.tree, ..before })
                                        &&& recorded_undo(before.tree, mid.tree, operation)
                                        &&& #[trigger] refreshed(mid, after)
                                    }
                            },
                        }
                    },
            },
        },
    }
}

/// Whether asking for the selected entry to be called `name` comes to `outcome`.
pub open spec fn renames<B, S, M, I: Fn(&PathBuf, &PathBuf) -> Result<(), String>>(
    before: Session<B, S, M>,
    after: Session<B, S, M>,
    name: Seq<char>,
    checked: Result<String, String>,
    inside: I,
    outcome: Outcome,
) -> bool {
    match before.tree.explorer {
        None => after == before && outcome.says("no workspace to rename anything in"@),
        Some(explorer) => match explorer.selection {
            None => after == before && outcome.says(before.wording.no_selection@),
            Some(row) => if name == row.name@ {
                after == before && outcome is Handled
            } else {
                match checked {
                    Err(error) => after == before && outcome.says(error@),
                    Ok(name) => match parent_text(row.path) {
                        None => after == before && outcome.says(before.wording.no_selection@),
                        Some(dir) => exists|to: PathBuf, answer: Result<(), String>|
                            {
                                &&& to.text@ == join_text(dir, name@)
                                &&& to@ != row.path@ ==> inside_gives(
                                    inside,
                                    explorer.root,
                                    to,
                                    answer,
                                )
                                &&& #[trigger] renames_to(
                                    before,
                                    after,
                                    explorer,
                                    row,
                                    name@,
                                    to,
                                    answer,
                                    outcome,
                                )
                            },
                    },
                }
            },
        },
    }
}

/// Whether asking for `row` to be moved to `to` comes to `outcome`, where `answer` says whether
/// that is inside the workspace.
pub open spec fn renames_to<B, S, M>(
    before: Session<B, S, M>,
    after: Session<B, S, M>,
    explorer: Explorer,
    row: TreeRow,
    name: Seq<char>,
    to: PathBuf,
    answer: Result<(), String>,
    outcome: Outcome,
) -> bool {
    if to@ == row.path@ {
        after == before && outcome is Handled
    } else {
        match answer {
            Err(error) => after == before && outcome.says(error@),
            Ok(()) => if row_at(explorer.rows@, to@) {
                after == before && outcome.says(
                    exists_text(
                        before.wording.exists_before@,
                        name,
                        before.wording.exists_after@,
                    ),
                )
            } else if paths_under(before.tabs(), to@).len() > 0 {
                after == before && outcome.says(still_open_text(name, "renaming onto it"@))
            } else {
                let operation = Operation::Rename {
                    directory: row.is_dir,
                    from: row.path,
                    to,
                    expect: None,
                };
                &&& outcome == Outcome::FileOperation(operation)
                &&& after == (Session { tree: after.tree, ..before })
                &&& recorded_undo(before.tree, after.tree, operation)
            },
        }
    }
}

/// Whether asking for the selected entry to be deleted comes to `outcome`.
pub open spec fn deletes<B, S, M, I: Fn(&PathBuf, &PathBuf) -> Result<(), String>>(
    before: Session<B, S, M>,
    after: Session<B, S, M>,
    inside: I,
    outcome: Outcome,
) -> bool {
    match before.tree.explorer {
        None => after == before && outcome.says("no workspace to delete anything from"@),
        Some(explorer) => match explorer.selection {
            None => after == before && outcome.says(before.wording.no_selection@),
            Some(row) => exists|answer: Result<(), String>|
                {
                    &&& #[trigger] inside_gives(inside, explorer.root, row.path, answer)
                    &&& after == before
                    &&& match answer {
                        Err(error) => outcome.says(error@),
                        Ok(()) => if row.path@ == explorer.root@ {
                            outcome.says("the workspace itself cannot be deleted"@)
                        } else {
                            outcome == Outcome::FileOperation(
                                Operation::Delete { directory: row.is_dir, path: row.path },
                            )
                        },
                    }
                },
        },
    }
}

/// Whether a tab no longer stands for any file, and nothing published for that file is kept.
pub open spec fn detached<B, S>(before: Tab<B, S>, after: Tab<B, S>) -> bool {
    &&& after == (Tab {
        document: Document { path: None, dirty: true, ..before.document },
        diagnostics: after.diagnostics,
        semantic: after.semantic,
        ..before
    })
    &&& after.diagnostics@.len() == 0
    &&& after.semantic@.len() == 0
}

/// Whether every tab at or under `path` has been detached and every other one left alone.
pub open spec fn all_detached<B, S>(
    before: Seq<Tab<B, S>>,
    after: Seq<Tab<B, S>>,
    path: Seq<Part>,
) -> bool {
    &&& after.len() == before.len()
    &&& forall|i: int|
        0 <= i < before.len() ==> if tab_under(before[i], path) {
            detached(before[i], #[trigger] after[i])
        } else {
            after[i] == before[i]
        }
}

/// A document at another path, in `inferred` where its language was not chosen by hand, with the
/// settings for its language.
pub open spec fn retargeted<B>(
    document: Document<B>,
    to: PathBuf,
    inferred: Option<String>,
    settings: EditorSettings,
) -> Document<B> {
    let moved = Document { path: Some(to), ..document };
    let spoken = if !document.language_pinned && view_of(inferred) != view_of(document.language_id) {
        Document { language_id: inferred, relex: true, ..moved }
    } else {
        moved
    };
    with_settings(spoken, settings)
}

/// Whether moving a document changes its language.
pub open spec fn changes_language<B>(document: Document<B>, inferred: Option<String>) -> bool {
    !document.language_pinned && view_of(inferred) != view_of(document.language_id)
}

/// Whether a tab has followed its file: what a server published for it is dropped where it is in
/// another language now.
pub open spec fn followed<B, S>(
    before: Tab<B, S>,
    after: Tab<B, S>,
    to: PathBuf,
    inferred: Option<String>,
    settings: EditorSettings,
) -> bool {
    &&& after == (Tab {
        document: retargeted(before.document, to, inferred, settings),
        diagnostics: after.diagnostics,
        semantic: after.semantic,
        ..before
    })
    &&& if changes_language(before.document, inferred) {
        after.diagnostics@.len() == 0 && after.semantic@.len() == 0
    } else {
        after.diagnostics == before.diagnostics && after.semantic == before.semantic
    }
}

/// The committed texts without those of files at or under `path`.
pub open spec fn committed_beside<M>(list: Seq<CommittedEntry<M>>, path: Seq<Part>) -> Seq<
    CommittedEntry<M>,
>
    decreases list.len(),
{
    if list.len() == 0 {
        list
    } else if under(list.last().path@, path) {
        committed_beside(list.drop_last(), path)
    } else {
        committed_beside(list.drop_last(), path).push(list.last())
    }
}

/// The selected row of the tree.
pub open spec fn tree_selection(explorer: Option<Explorer>) -> Option<TreeRow> {
    match explorer {
        Some(e) => e.selection,
        None => None,
    }
}

/// A copy of the selected row of the tree.
fn selection_of(explorer: &Option<Explorer>) -> (r: Option<TreeRow>)
    ensures
        r == tree_selection(*explorer),
{
    match explorer {
        Some(e) => match &e.selection {
            Some(row) => Some(row.clone()),
            None => None,
        },
        None => None,
    }
}

/// Whether the tree shows an entry at `path`.
fn has_row_at(rows: &Vec<TreeRow>, path: &PathBuf) -> (r: bool)
    ensures
        r == row_at(rows@, path@),
{
    let mut i: usize = 0;
    while i < rows.len()
        invariant
            i <= rows@.len(),
            forall|j: int| 0 <= j < i ==> (#[trigger] rows@[j]).path@ != path@,
        decreases rows@.len() - i,
    {
        if rows[i].path.same_as(path) {
            assert(rows@[i as int].path@ == path@);
            return true;
        }
        i = i + 1;
    }
    false
}

/// The words for a name that a tab is still open on.
fn still_open_message(name: &str, before_doing: &str) -> (r: String)
    ensures
        r@ == still_open_text(name@, before_doing@),
{
    let mut r: String = "a tab is still open on `".to_owned();
    r.append(name);
    r.append("` — close it before ");
    r.append(before_doing);
    r
}

/// Those of the paths that are `path` or under it, in order.
pub open spec fn listed_under(list: Seq<PathBuf>, path: Seq<Part>) -> Seq<PathBuf>
    decreases list.len(),
{
    if list.len() == 0 {
        Seq::empty()
    } else if under(list.last()@, path) {
        listed_under(list.drop_last(), path).push(list.last())
    } else {
        listed_under(list.drop_last(), path)
    }
}

impl<B, S, M> Session<B, S, M> {
    /// The selected row of the tree.
    pub fn tree_selection(&self) -> (r: Option<TreeRow>)
        ensures
            r == tree_selection(self.tree.explorer),
    {
        selection_of(&self.tree.explorer)
    }

    /// Asks the tree for something.
    pub fn ask_tree(&mut self, request: TreeRequest)
        ensures
            *final(self) == (Session { tree: final(self).tree, ..*old(self) }),
            asked(old(self).tree, final(self).tree, seq![request]),
    {
        match self.tree.explorer.take() {
            Some(explorer) => {
                let mut explorer: Explorer = explorer;
                let ghost before = explorer.requests@;
                explorer.requests.push(request);
                assert(explorer.requests@ =~= before + seq![request]);
                self.tree.explorer = Some(explorer);
            },
            None => {},
        }
    }

    /// Has a directory read again.
    pub fn invalidate_directory(&mut self, dir: &PathBuf)
        ensures
            *final(self) == (Session { tree: final(self).tree, ..*old(self) }),
            asked(old(self).tree, final(self).tree, seq![TreeRequest::Invalidate(*dir)]),
    {
        self.ask_tree(TreeRequest::Invalidate(dir.clone()));
    }

    /// Has everything remembered under a path forgotten.
    pub fn forget_subtree(&mut self, dir: &PathBuf)
        ensures
            *final(self) == (Session { tree: final(self).tree, ..*old(self) }),
            asked(old(self).tree, final(self).tree, seq![TreeRequest::ForgetUnder(*dir)]),
    {
        self.ask_tree(TreeRequest::ForgetUnder(dir.clone()));
    }

    /// Has every directory under a path read again.
    pub fn invalidate_subtree(&mut self, dir: &PathBuf)
        ensures
            *final(self) == (Session { tree: final(self).tree, ..*old(self) }),
            asked(old(self).tree, final(self).tree, seq![TreeRequest::InvalidateUnder(*dir)]),
    {
        self.ask_tree(TreeRequest::InvalidateUnder(dir.clone()));
    }

    /// Forgets how to undo what was done in the tree.
    pub fn clear_file_undo(&mut self)
        ensures
            final(self).tree.undo@.len() == 0,
            final(self).tree.pending_undo is None,
            *final(self) == (Session {
                tree: TreeState {
                    undo: final(self).tree.undo,
                    pending_undo: None,
                    ..old(self).tree
                },
                ..*old(self)
            }),
    {
        self.tree.undo = Vec::new();
        self.tree.pending_undo = None;
    }

    /// The documents that a server has to be told are closed, which are then no longer kept.
    pub fn take_closed_documents(&mut self) -> (r: Vec<PathBuf>)
        ensures
            r@ == old(self).tree.closed_documents@,
            final(self).tree.closed_documents@.len() == 0,
            *final(self) == (Session {
                tree: TreeState {
                    closed_documents: final(self).tree.closed_documents,
                    ..old(self).tree
                },
                ..*old(self)
            }),
    {
        let mut r: Vec<PathBuf> = Vec::new();
        std::mem::swap(&mut r, &mut self.tree.closed_documents);
        r
    }

    /// Whether the tree has anything to undo.
    pub fn can_undo_file_operation(&self) -> (r: bool)
        ensures
            r == (self.tree.undo@.len() > 0),
    {
        self.tree.undo.len() > 0
    }

    /// The directory in which something new is made.
    pub fn target_dir(&self) -> (r: Option<PathBuf>)
        ensures
            match self.tree.explorer {
                None => r is None,
                Some(explorer) => match (r, target_text(explorer)) {
                    (Some(dir), Some(text)) => dir.text@ == text,
                    (None, None) => true,
                    _ => false,
                },
            },
    {
        match &self.tree.explorer {
            None => None,
            Some(explorer) => match &explorer.selection {
                Some(row) => if row.is_dir {
                    Some(row.path.clone())
                } else {
                    row.path.parent()
                },
                None => Some(explorer.root.clone()),
            },
        }
    }

    /// The display indices of the tabs that hold a file at or under `path`.
    pub fn tabs_under(&self, path: &PathBuf) -> (r: Vec<usize>)
        requires
            self.tabs().len() <= usize::MAX,
        ensures
            Seq::new(r@.len(), |i: int| r@[i] as int) == under_indices(self.tabs(), path@),
    {
        let wanted: PathBuf = normalise(path);
        let count: usize = self.tab_count();
        let mut r: Vec<usize> = Vec::new();
        let mut i: usize = 0;
        assert(Seq::new(r@.len(), |k: int| r@[k] as int) =~= under_indices(
            self.tabs().take(0),
            path@,
        ));
        while i < count
            invariant
                i <= count,
                count == self.tabs().len(),
                wanted@ == normal_parts(path@),
                Seq::new(r@.len(), |k: int| r@[k] as int) == under_indices(
                    self.tabs().take(i as int),
                    path@,
                ),
            decreases count - i,
        {
            let ghost before = Seq::new(r@.len(), |k: int| r@[k] as int);
            proof {
                assert(self.tabs().take(i + 1).drop_last() =~= self.tabs().take(i as int));
            }
            if let Some(own) = &self.tab_at(i).document.path {
                let own: PathBuf = normalise(own);
                if own.starts_with(&wanted) {
                    r.push(i);
                    assert(Seq::new(r@.len(), |k: int| r@[k] as int) =~= before.push(i as int));
                }
            }
            i = i + 1;
        }
        assert(self.tabs().take(count as int) =~= self.tabs());
        r
    }

    /// The path of the tab at a display index.
    pub fn path_of_tab(&self, index: usize) -> (r: Option<PathBuf>)
        requires
            self.tabs().len() <= usize::MAX,
        ensures
            r == if index < self.tabs().len() {
                self.tabs()[index as int].document.path
            } else {
                None
            },
    {
        if index < self.tab_count() {
            clone_path(&self.tab_at(index).document.path)
        } else {
            None
        }
    }

    /// The files at or under `path` that are open, in tab order.
    pub fn open_paths_under(&self, path: &PathBuf) -> (r: Vec<PathBuf>)
        requires
            self.tabs().len() <= usize::MAX,
        ensures
            r@ == paths_under(self.tabs(), path@),
    {
        let wanted: PathBuf = normalise(path);
        let count: usize = self.tab_count();
        let mut r: Vec<PathBuf> = Vec::new();
        let mut i: usize = 0;
        assert(r@ =~= paths_under(self.tabs().take(0), path@));
        while i < count
            invariant
                i <= count,
                count == self.tabs().len(),
                wanted@ == normal_parts(path@),
                r@ == paths_under(self.tabs().take(i as int), path@),
            decreases count - i,
        {
            proof {
                assert(self.tabs().take(i + 1).drop_last() =~= self.tabs().take(i as int));
            }
            if let Some(own) = &self.tab_at(i).document.path {
                let resolved: PathBuf = normalise(own);
                if resolved.starts_with(&wanted) {
                    r.push(own.clone());
                }
            }
            i = i + 1;
        }
        assert(self.tabs().take(count as int) =~= self.tabs());
        r
    }

    /// The directory that the tree needs read next, if there is one. A deep reveal is loaded a
    /// level at a time: once this one has been read, another may be wanted.
    pub fn directory_wanted(&self) -> (r: Option<PathBuf>)
        ensures
            r == match self.tree.explorer {
                Some(explorer) => explorer.wanted,
                None => None,
            },
    {
        match &self.tree.explorer {
            Some(explorer) => clone_path(&explorer.wanted),
            None => None,
        }
    }

    /// Every path at or under `path` that the tree knows of.
    pub fn known_paths_under(&self, path: &PathBuf) -> (r: Vec<PathBuf>)
        ensures
            r@ == match self.tree.explorer {
                Some(explorer) => listed_under(explorer.known@, path@),
                None => Seq::empty(),
            },
    {
        let mut r: Vec<PathBuf> = Vec::new();
        if let Some(explorer) = &self.tree.explorer {
            let mut i: usize = 0;
            assert(r@ =~= listed_under(explorer.known@.take(0), path@));
            while i < explorer.known.len()
                invariant
                    i <= explorer.known@.len(),
                    r@ == listed_under(explorer.known@.take(i as int), path@),
                decreases explorer.known@.len() - i,
            {
                assert(explorer.known@.take(i + 1).drop_last() =~= explorer.known@.take(i as int));
                if explorer.known[i].starts_with(path) {
                    r.push(explorer.known[i].clone());
                }
                i = i + 1;
            }
            assert(explorer.known@.take(i as int) =~= explorer.known@);
        }
        r
    }

    /// Remembers what undoes an operation, if something does.
    ///
    /// An operation without an inverse does not clear what was remembered: it may still fail.
    fn record_file_operation(&mut self, operation: &Operation)
        ensures
            *final(self) == (Session { tree: final(self).tree, ..*old(self) }),
            recorded_undo(old(self).tree, final(self).tree, *operation),
    {
        if let Some(inverse) = operation.inverse() {
            self.tree.undo.push(inverse);
        }
    }

    /// Asks for a new file or directory called `name`, as it was checked, in the directory that
    /// is selected. `inside` says whether a path is inside the workspace.
    pub fn create_in_tree<I: Fn(&PathBuf, &PathBuf) -> Result<(), String>>(
        &mut self,
        name: Result<String, String>,
        folder: bool,
        inside: &I,
    ) -> (r: Outcome)
        requires
            old(self).tabs().len() <= usize::MAX,
            forall|root: &PathBuf, path: &PathBuf| inside.requires((root, path)),
        ensures
            creates(*old(self), *final(self), name, folder, *inside, r),
    {
        let ghost before = *self;
        let root: PathBuf = match &self.tree.explorer {
            Some(explorer) => explorer.root.clone(),
            None => {
                return Outcome::Message("no workspace to create anything in".to_owned());
            },
        };
        let name: String = match name {
            Ok(name) => name,
            Err(error) => {
                return Outcome::Message(error);
            },
        };
        let dir: PathBuf = match self.target_dir() {
            Some(dir) => dir,
            None => {
                return Outcome::Message(self.wording.no_selection.clone());
            },
        };
        let path: PathBuf = dir.join(name.as_str());
        let answer: Result<(), String> = inside(&root, &path);
        assert(inside_gives(*inside, root, path, answer));
        if let Err(error) = answer {
            return Outcome::Message(error);
        }
        let taken: bool = match &self.tree.explorer {
            Some(explorer) => has_row_at(&explorer.rows, &path),
            None => false,
        };
        if taken {
            let mut message: String = self.wording.exists_before.clone();
            message.append(name.as_str());
            message.append(self.wording.exists_after.as_str());
            return Outcome::Message(message);
        }
        if self.tab_of(&path).is_some() {
            return Outcome::Message(still_open_message(name.as_str(), "making a new one"));
        }
        let operation: Operation = if folder {
            Operation::CreateFolder(path)
        } else {
            Operation::CreateFile(path)
        };
        self.record_file_operation(&operation);
        let ghost mid = *self;
        self.refresh_context();
        assert(refreshed(mid, *self));
        Outcome::FileOperation(operation)
    }

    /// Asks for the selected entry to be called `name`; `checked` is the name as it was checked.
    pub fn rename_in_tree<I: Fn(&PathBuf, &PathBuf) -> Result<(), String>>(
        &mut self,
        name: &str,
        checked: Result<String, String>,
        inside: &I,
    ) -> (r: Outcome)
        requires
            old(self).tabs().len() <= usize::MAX,
            forall|root: &PathBuf, path: &PathBuf| inside.requires((root, path)),
        ensures
            renames(*old(self), *final(self), name@, checked, *inside, r),
    {
        let ghost before = *self;
        let root: PathBuf = match &self.tree.explorer {
            Some(explorer) => explorer.root.clone(),
            None => {
                return Outcome::Message("no workspace to rename anything in".to_owned());
            },
        };
        let row: TreeRow = match selection_of(&self.tree.explorer) {
            Some(row) => row,
            None => {
                return Outcome::Message(self.wording.no_selection.clone());
            },
        };
        if same(name, row.name.as_str()) {
            return Outcome::Handled;
        }
        let name: String = match checked {
            Ok(name) => name,
            Err(error) => {
                return Outcome::Message(error);
            },
        };
        let dir: PathBuf = match row.path.parent() {
            Some(dir) => dir,
            None => {
                return Outcome::Message(self.wording.no_selection.clone());
            },
        };
        let to: PathBuf = dir.join(name.as_str());
        let answer: Result<(), String> = if to.same_as(&row.path) {
            Ok(())
        } else {
            inside(&root, &to)
        };
        assert(to@ != row.path@ ==> inside_gives(*inside, root, to, answer));
        self.move_row(row, name.as_str(), to, answer)
    }

    /// Asks for `row` to be moved to `to`, where `answer` says whether that is inside the
    /// workspace.
    fn move_row(
        &mut self,
        row: TreeRow,
        name: &str,
        to: PathBuf,
        answer: Result<(), String>,
    ) -> (r: Outcome)
        requires
            old(self).tabs().len() <= usize::MAX,
            old(self).tree.explorer is Some,
        ensures
            renames_to(
                *old(self),
                *final(self),
                old(self).tree.explorer->Some_0,
                row,
                name@,
                to,
                answer,
                r,
            ),
    {
        if to.same_as(&row.path) {
            return Outcome::Handled;
        }
        if let Err(error) = answer {
            return Outcome::Message(error);
        }
        let taken: bool = match &self.tree.explorer {
            Some(explorer) => has_row_at(&explorer.rows, &to),
            None => false,
        };
        if taken {
            let mut message: String = self.wording.exists_before.clone();
            message.append(name);
            message.append(self.wording.exists_after.as_str());
            return Outcome::Message(message);
        }
        if self.open_paths_under(&to).len() > 0 {
            return Outcome::Message(still_open_message(name, "renaming onto it"));
        }
        let operation: Operation = Operation::Rename {
            directory: row.is_dir,
            from: row.path,
            to,
            expect: None,
        };
        self.record_file_operation(&operation);
        Outcome::FileOperation(operation)
    }

    /// Asks for the selected entry to be deleted. Nothing undoes that, so nothing is remembered.
    pub fn delete_in_tree<I: Fn(&PathBuf, &PathBuf) -> Result<(), String>>(
        &mut self,
        inside: &I,
    ) -> (r: Outcome)
        requires
            forall|root: &PathBuf, path: &PathBuf| inside.requires((root, path)),
        ensures
            deletes(*old(self), *final(self), *inside, r),
    {
        let root: PathBuf = match &self.tree.explorer {
            Some(explorer) => explorer.root.clone(),
            None => {
                return Outcome::Message("no workspace to delete anything from".to_owned());
            },
        };
        let row: TreeRow = match selection_of(&self.tree.explorer) {
            Some(row) => row,
            None => {
                return Outcome::Message(self.wording.no_selection.clone());
            },
        };
        let answer: Result<(), String> = inside(&root, &row.path);
        assert(inside_gives(*inside, root, row.path, answer));
        if let Err(error) = answer {
            return Outcome::Message(error);
        }
        if row.path.same_as(&root) {
            return Outcome::Message("the workspace itself cannot be deleted".to_owned());
        }
        let operation: Operation = Operation::Delete { directory: row.is_dir, path: row.path };
        Outcome::FileOperation(operation)
    }
}

} // verus!
