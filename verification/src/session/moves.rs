//! What follows from an operation on files: tabs that move with them or lose them, and undoing.

use vstd::prelude::*;
use crate::path::{normalise, PathBuf};
#[allow(unused_imports)]
use crate::path::{join_text, normal_parts, parent_of, render, under, Part};
#[allow(unused_imports)]
use crate::session::documents::reported;
use crate::session::files::{moved_from, Operation, Stamp};
#[allow(unused_imports)]
use crate::session::files::{arrival, departure, inverse_of};
#[allow(unused_imports)]
use crate::session::layout::refreshed;
use crate::session::outcome::Outcome;
use crate::session::state::{
    clone_path, CommittedEntry, Document, EditorSettings, Explorer, Focus, Session, Tab,
    TreeRequest, TreeRow, TreeState,
};
#[allow(unused_imports)]
use crate::session::state::{Chrome, Repository};
#[allow(unused_imports)]
use crate::session::tree::{
    all_detached, changes_language, committed_beside, detached, explorer_asked, followed,
    paths_under, still_open_text, tab_under,
};
use crate::text::{decimal, same_option};
#[allow(unused_imports)]
use crate::text::{decimal_of, view_of, views};

verus! {

// ---------------------------------------------------------------------------
// Tabs that lose their file
// ---------------------------------------------------------------------------

impl<B, S> Tab<B, S> {
    /// Whether the tab holds a file at or under `path`, once both are resolved.
    pub fn is_under(&self, path: &PathBuf) -> (r: bool)
        ensures
            r == tab_under(*self, path@),
    {
        match &self.document.path {
            Some(own) => {
                let own: PathBuf = normalise(own);
                let wanted: PathBuf = normalise(path);
                own.starts_with(&wanted)
            },
            None => false,
        }
    }

    /// Drops what was published for the document.
    pub fn clear_analysis(&mut self)
        ensures
            *final(self) == (Tab {
                diagnostics: final(self).diagnostics,
                semantic: final(self).semantic,
                ..*old(self)
            }),
            final(self).diagnostics@.len() == 0,
            final(self).semantic@.len() == 0,
    {
        self.diagnostics = Vec::new();
        self.semantic = Vec::new();
    }

    /// Takes the tab's file away: the text stays, as a document that was never saved.
    fn detach(&mut self)
        ensures
            detached(*old(self), *final(self)),
    {
        self.document.path = None;
        self.document.dirty = true;
        self.clear_analysis();
    }
}

impl<B, S, M> Session<B, S, M> {
    /// Drops what was published for the document of the tab at a display index.
    pub fn clear_analysis_of_tab(&mut self, index: usize)
        requires
            index < old(self).tabs().len(),
        ensures
            ({
                let old_tab = old(self).tabs()[index as int];
                let tab = final(self).tabs()[index as int];
                &&& final(self).tabs() == old(self).tabs().update(index as int, tab)
                &&& tab == (Tab { diagnostics: tab.diagnostics, semantic: tab.semantic, ..old_tab })
                &&& tab.diagnostics@.len() == 0
                &&& tab.semantic@.len() == 0
            }),
            final(self).left@.len() == old(self).left@.len(),
            *final(self) == (Session {
                left: final(self).left,
                active: final(self).active,
                right: final(self).right,
                ..*old(self)
            }),
    {
        self.tab_at_mut(index).clear_analysis();
    }

    /// Takes the files at or under `gone` away from the tabs that hold them, and says from how
    /// many.
    ///
    /// Their text is kept: a tab that still pointed at a file that is gone would write it again
    /// when it is saved.
    pub fn detach_tabs_under(&mut self, gone: &PathBuf) -> (r: usize)
        requires
            old(self).tabs().len() <= usize::MAX,
        ensures
            all_detached(old(self).tabs(), final(self).tabs(), gone@),
            r == paths_under(old(self).tabs(), gone@).len(),
            final(self).left@.len() == old(self).left@.len(),
            final(self).tree.closed_documents@ == old(self).tree.closed_documents@ + paths_under(
                old(self).tabs(),
                gone@,
            ),
            *final(self) == (Session {
                left: final(self).left,
                active: final(self).active,
                right: final(self).right,
                tree: TreeState {
                    closed_documents: final(self).tree.closed_documents,
                    ..old(self).tree
                },
                ..*old(self)
            }),
    {
        let count: usize = self.tab_count();
        let mut n: usize = 0;
        let mut i: usize = 0;
        let ghost before = *self;
        let ghost tabs = self.tabs();
        assert(self.tree.closed_documents@ =~= before.tree.closed_documents@ + paths_under(
            tabs.take(0),
            gone@,
        ));
        while i < count
            invariant
                i <= count,
                count == tabs.len(),
                tabs == before.tabs(),
                self.tabs().len() == tabs.len(),
                self.left@.len() == before.left@.len(),
                n == paths_under(tabs.take(i as int), gone@).len(),
                n <= i,
                self.tree.closed_documents@ == before.tree.closed_documents@ + paths_under(
                    tabs.take(i as int),
                    gone@,
                ),
                forall|j: int| i <= j < tabs.len() ==> #[trigger] self.tabs()[j] == tabs[j],
                forall|j: int|
                    0 <= j < i ==> if tab_under(tabs[j], gone@) {
                        detached(tabs[j], #[trigger] self.tabs()[j])
                    } else {
                        self.tabs()[j] == tabs[j]
                    },
                *self == (Session {
                    left: self.left,
                    active: self.active,
                    right: self.right,
                    tree: TreeState {
                        closed_documents: self.tree.closed_documents,
                        ..before.tree
                    },
                    ..before
                }),
            decreases count - i,
        {
            let ghost now = self.tabs();
            proof {
                assert(tabs.take(i + 1).drop_last() =~= tabs.take(i as int));
                assert(now[i as int] == tabs[i as int]);
            }
            if self.tab_at(i).is_under(gone) {
                let held: Option<PathBuf> = clone_path(&self.tab_at(i).document.path);
                if let Some(path) = held {
                    let ghost closed = self.tree.closed_documents@;
                    self.tree.closed_documents.push(path);
                    assert(self.tree.closed_documents@ =~= before.tree.closed_documents@
                        + paths_under(tabs.take(i + 1), gone@));
                }
                assert(self.tabs() == now);
                self.tab_at_mut(i).detach();
                n = n + 1;
            }
            i = i + 1;
        }
        assert(tabs.take(tabs.len() as int) =~= tabs);
        n
    }
}

// ---------------------------------------------------------------------------
// Tabs that follow their file
// ---------------------------------------------------------------------------

/// The text of the path that a file under `from` has once `from` is called `to`.
pub open spec fn moved_text(path: PathBuf, from: PathBuf, to: PathBuf) -> Seq<char> {
    let rest = normal_parts(path@).skip(normal_parts(from@).len() as int);
    if rest.len() == 0 {
        to.text@
    } else {
        join_text(to.text@, render(rest))
    }
}

/// What was found out while tabs followed their files: for each tab its new path, the language
/// that the new name implies, and the settings for its language.
pub struct Following {
    pub moved: Seq<PathBuf>,
    pub inferred: Seq<Option<String>>,
    pub settings: Seq<EditorSettings>,
}

/// The language a document is in once it has moved.
pub open spec fn language_after<B>(document: Document<B>, inferred: Option<String>) -> Option<
    String,
> {
    if changes_language(document, inferred) {
        inferred
    } else {
        document.language_id
    }
}

/// Whether one tab has followed its file, as `infer` and `resolve` answered.
pub open spec fn tab_followed<
    B,
    S,
    I: Fn(&PathBuf) -> Option<String>,
    R: Fn(&Option<String>) -> EditorSettings,
>(
    before: Tab<B, S>,
    after: Tab<B, S>,
    moved: PathBuf,
    inferred: Option<String>,
    settings: EditorSettings,
    infer: I,
    resolve: R,
) -> bool {
    &&& infer.ensures((&moved,), inferred)
    &&& resolve.ensures((&language_after(before.document, inferred),), settings)
    &&& followed(before, after, moved, inferred, settings)
}

/// The documents that a server has to be told are closed, because they are in another language
/// under their new names.
pub open spec fn closings<B, S>(
    tabs: Seq<Tab<B, S>>,
    from: Seq<Part>,
    inferred: Seq<Option<String>>,
) -> Seq<PathBuf>
    decreases tabs.len(),
{
    if tabs.len() == 0 || inferred.len() != tabs.len() {
        Seq::empty()
    } else {
        let rest = closings(tabs.drop_last(), from, inferred.drop_last());
        let document = tabs.last().document;
        if tab_under(tabs.last(), from) && changes_language(document, inferred.last())
            && document.language_id is Some {
            rest.push(document.path->Some_0)
        } else {
            rest
        }
    }
}

/// Whether the tab has followed its file where that is at or under `from`, and is as it was where
/// it is not.
pub open spec fn follows_at<
    B,
    S,
    I: Fn(&PathBuf) -> Option<String>,
    R: Fn(&Option<String>) -> EditorSettings,
>(
    before: Tab<B, S>,
    after: Tab<B, S>,
    from: PathBuf,
    to: PathBuf,
    moved: PathBuf,
    inferred: Option<String>,
    settings: EditorSettings,
    infer: I,
    resolve: R,
) -> bool {
    if tab_under(before, from@) {
        &&& moved.text@ == moved_text(before.document.path->Some_0, from, to)
        &&& tab_followed(before, after, moved, inferred, settings, infer, resolve)
    } else {
        after == before
    }
}

/// Whether every tab at or under `from` has followed its file, and every other one is as it was.
pub open spec fn all_followed<
    B,
    S,
    I: Fn(&PathBuf) -> Option<String>,
    R: Fn(&Option<String>) -> EditorSettings,
>(
    before: Seq<Tab<B, S>>,
    after: Seq<Tab<B, S>>,
    from: PathBuf,
    to: PathBuf,
    infer: I,
    resolve: R,
    f: Following,
) -> bool {
    &&& after.len() == before.len()
    &&& f.moved.len() == before.len()
    &&& f.inferred.len() == before.len()
    &&& f.settings.len() == before.len()
    &&& forall|i: int|
        0 <= i < before.len() ==> #[trigger] follows_at(
            before[i],
            after[i],
            from,
            to,
            f.moved[i],
            f.inferred[i],
            f.settings[i],
            infer,
            resolve,
        )
}

/// A document whose language and settings go with its new path.
fn retarget<
    B,
    S,
    I: Fn(&PathBuf) -> Option<String>,
    R: Fn(&Option<String>) -> EditorSettings,
>(tab: &mut Tab<B, S>, to: PathBuf, infer: &I, resolve: &R) -> (r: (
    Ghost<Option<String>>,
    Ghost<EditorSettings>,
    Option<PathBuf>,
))
    requires
        forall|path: &PathBuf| infer.requires((path,)),
        forall|language: &Option<String>| resolve.requires((language,)),
    ensures
        tab_followed(*old(tab), *final(tab), to, r.0@, r.1@, *infer, *resolve),
        r.2 == if changes_language(old(tab).document, r.0@) && old(tab).document.language_id is Some {
            old(tab).document.path
        } else {
            None
        },
{
    let inferred: Option<String> = infer(&to);
    let previous: Option<PathBuf> = clone_path(&tab.document.path);
    let had_language: bool = tab.document.language_id.is_some();
    let changes: bool = !tab.document.language_pinned && !same_option(
        &inferred,
        &tab.document.language_id,
    );
    let ghost implied = inferred;
    tab.document.path = Some(to);
    if changes {
        tab.document.language_id = inferred;
        tab.document.relex = true;
    }
    let settings: EditorSettings = resolve(&tab.document.language_id);
    let ghost resolved = settings;
    tab.document.set_settings(settings);
    if changes {
        tab.clear_analysis();
    }
    let closed: Option<PathBuf> = if changes && had_language {
        previous
    } else {
        None
    };
    (Ghost(implied), Ghost(resolved), closed)
}

impl<B, S, M> Session<B, S, M> {
    /// Moves every tab at or under `from` along with its file.
    ///
    /// `infer` says which language a path's name implies, and `resolve` what the settings for a
    /// language are.
    fn follow_rename<
        I: Fn(&PathBuf) -> Option<String>,
        R: Fn(&Option<String>) -> EditorSettings,
    >(&mut self, from: &PathBuf, to: &PathBuf, infer: &I, resolve: &R) -> (f: Ghost<Following>)
        requires
            old(self).tabs().len() <= usize::MAX,
            forall|path: &PathBuf| infer.requires((path,)),
            forall|language: &Option<String>| resolve.requires((language,)),
        ensures
            all_followed(
                old(self).tabs(),
                final(self).tabs(),
                *from,
                *to,
                *infer,
                *resolve,
                f@,
            ),
            final(self).left@.len() == old(self).left@.len(),
            final(self).tree.closed_documents@ == old(self).tree.closed_documents@ + closings(
                old(self).tabs(),
                from@,
                f@.inferred,
            ),
            *final(self) == (Session {
                left: final(self).left,
                active: final(self).active,
                right: final(self).right,
                tree: TreeState {
                    closed_documents: final(self).tree.closed_documents,
                    ..old(self).tree
                },
                ..*old(self)
            }),
    {
        let count: usize = self.tab_count();
        let resolved_from: PathBuf = normalise(from);
        let ghost before = *self;
        let ghost tabs = self.tabs();
        let ghost mut moved: Seq<PathBuf> = Seq::empty();
        let ghost mut inferred: Seq<Option<String>> = Seq::empty();
        let ghost mut settings: Seq<EditorSettings> = Seq::empty();
        let mut i: usize = 0;
        assert(self.tree.closed_documents@ =~= before.tree.closed_documents@ + closings(
            tabs.take(0),
            from@,
            inferred,
        ));
        while i < count
            invariant
                i <= count,
                count == tabs.len(),
                tabs == before.tabs(),
                resolved_from@ == normal_parts(from@),
                forall|path: &PathBuf| infer.requires((path,)),
                forall|language: &Option<String>| resolve.requires((language,)),
                self.tabs().len() == tabs.len(),
                self.left@.len() == before.left@.len(),
                moved.len() == i,
                inferred.len() == i,
                settings.len() == i,
                self.tree.closed_documents@ == before.tree.closed_documents@ + closings(
                    tabs.take(i as int),
                    from@,
                    inferred,
                ),
                forall|j: int| i <= j < tabs.len() ==> #[trigger] self.tabs()[j] == tabs[j],
                forall|j: int|
                    0 <= j < i ==> #[trigger] follows_at(
                        tabs[j],
                        self.tabs()[j],
                        *from,
                        *to,
                        moved[j],
                        inferred[j],
                        settings[j],
                        *infer,
                        *resolve,
                    ),
                *self == (Session {
                    left: self.left,
                    active: self.active,
                    right: self.right,
                    tree: TreeState {
                        closed_documents: self.tree.closed_documents,
                        ..before.tree
                    },
                    ..before
                }),
            decreases count - i,
        {
            let ghost now = self.tabs();
            let ghost seen = inferred;
            let ghost paths = moved;
            let ghost chosen = settings;
            proof {
                assert(tabs.take(i + 1).drop_last() =~= tabs.take(i as int));
                assert(now[i as int] == tabs[i as int]);
            }
            let mut target: Option<PathBuf> = None;
            if self.tab_at(i).is_under(from) {
                if let Some(own) = &self.tab_at(i).document.path {
                    let resolved: PathBuf = normalise(own);
                    if let Some(rest) = resolved.strip_prefix(&resolved_from) {
                        let path: PathBuf = if rest.text.as_str().is_empty() {
                            to.clone()
                        } else {
                            to.join(rest.text.as_str())
                        };
                        proof {
                            lemma_rest_empty(own.text@, from@, rest.text@);
                            assert(path.text@ == moved_text(*own, *from, *to));
                        }
                        target = Some(path);
                    }
                }
            }
            match target {
                Some(path) => {
                    let ghost new_path = path;
                    let (Ghost(implied), Ghost(resolved), closed) = retarget(
                        self.tab_at_mut(i),
                        path,
                        infer,
                        resolve,
                    );
                    proof {
                        moved = moved.push(new_path);
                        inferred = inferred.push(implied);
                        settings = settings.push(resolved);
                        assert(inferred.drop_last() =~= seen);
                    }
                    let ghost closed_before = self.tree.closed_documents@;
                    if let Some(previous) = closed {
                        self.tree.closed_documents.push(previous);
                    }
                    assert(self.tree.closed_documents@ =~= before.tree.closed_documents@ + closings(
                        tabs.take(i + 1),
                        from@,
                        inferred,
                    ));
                },
                None => {
                    proof {
                        moved = moved.push(*to);
                        inferred = inferred.push(None);
                        settings = settings.push(self.active.document.settings);
                        assert(inferred.drop_last() =~= seen);
                    }
                },
            }
            proof {
                assert forall|j: int| 0 <= j < i + 1 implies #[trigger] follows_at(
                    tabs[j],
                    self.tabs()[j],
                    *from,
                    *to,
                    moved[j],
                    inferred[j],
                    settings[j],
                    *infer,
                    *resolve,
                ) by {
                    if j < i {
                        assert(self.tabs()[j] == now[j]);
                        assert(moved[j] == paths[j]);
                        assert(inferred[j] == seen[j]);
                        assert(settings[j] == chosen[j]);
                        assert(follows_at(
                            tabs[j],
                            now[j],
                            *from,
                            *to,
                            paths[j],
                            seen[j],
                            chosen[j],
                            *infer,
                            *resolve,
                        ));
                    }
                }
            }
            i = i + 1;
        }
        assert(tabs.take(tabs.len() as int) =~= tabs);
        let ghost f = Following { moved, inferred, settings };
        Ghost(f)
    }
}

/// The rest of a path behind a prefix is written as nothing exactly where there is none.
proof fn lemma_rest_empty(own: Seq<char>, from: Seq<Part>, rest: Seq<char>)
    requires
        under(normal_parts(crate::path::parts_of(own)), normal_parts(from)),
        rest == render(
            normal_parts(crate::path::parts_of(own)).skip(normal_parts(from).len() as int),
        ),
    ensures
        (rest.len() == 0) == (normal_parts(crate::path::parts_of(own)).skip(
            normal_parts(from).len() as int,
        ).len() == 0),
{
    crate::path::lemma_parts_placed(own);
    crate::path::lemma_normal_rest_shown(
        crate::path::parts_of(own),
        normal_parts(from).len() as int,
    );
}

// ---------------------------------------------------------------------------
// Undoing
// ---------------------------------------------------------------------------

/// The name under which a path is spoken of: its last component, or all of it.
pub open spec fn spoken_name(path: PathBuf) -> Seq<char> {
    if path@.len() > 0 && path@.last() is Name {
        path@.last()->Name_0
    } else {
        path.text@
    }
}

/// Whether undoing in the tree comes to `outcome`. A rename is not undone onto an open tab.
pub open spec fn undoes<B, S, M>(
    before: Session<B, S, M>,
    after: Session<B, S, M>,
    outcome: Outcome,
) -> bool {
    if before.tree.undo@.len() == 0 {
        after == before && outcome.says("nothing in the tree to undo"@)
    } else {
        let operation = before.tree.undo@.last();
        if operation matches Operation::Rename { to, .. } && paths_under(before.tabs(), to@).len()
            > 0 {
            after == before && outcome.says(
                still_open_text(
                    spoken_name(operation->Rename_to),
                    "undoing this"@,
                ),
            )
        } else {
            &&& outcome == Outcome::FileOperation(operation)
            &&& after == (Session {
                tree: TreeState {
                    undo: after.tree.undo,
                    pending_undo: Some(operation),
                    ..before.tree
                },
                ..before
            })
            &&& after.tree.undo@ == before.tree.undo@.drop_last()
        }
    }
}

/// An operation that expects to find the file as the stamp describes it, where it can.
pub open spec fn stamped(operation: Operation, stamp: Stamp) -> Operation {
    match operation {
        Operation::Rename { directory, from, to, .. } => Operation::Rename {
            directory,
            from,
            to,
            expect: Some(stamp),
        },
        Operation::DeleteIfEmpty { path, directory, .. } => Operation::DeleteIfEmpty {
            path,
            directory,
            expect: Some(stamp),
        },
        other => other,
    }
}

/// What can be undone after an operation failed: an undoing that failed can be tried again, and
/// what was never done is not undone.
pub open spec fn undo_after_failure(
    undo: Seq<Operation>,
    pending: Option<Operation>,
    operation: Operation,
) -> Seq<Operation> {
    if pending matches Some(pending) && pending@ == operation@ {
        undo.push(pending->Some_0)
    } else {
        match inverse_of(operation) {
            Some(inverse) => if undo.len() > 0 && undo.last()@ == inverse@ {
                undo.drop_last()
            } else {
                undo
            },
            None => undo,
        }
    }
}

/// What the tree is asked for after an operation failed: what it remembers where the operation
/// was to arrive is about something that is not there.
pub open spec fn requests_after_failure(operation: Operation) -> Seq<TreeRequest> {
    match arrival(operation) {
        Some(path) => seq![TreeRequest::ForgetUnder(path)],
        None => Seq::empty(),
    }
}

/// Whether `after` is `before` once an operation failed.
pub open spec fn operation_failed<B, S, M>(
    before: Session<B, S, M>,
    after: Session<B, S, M>,
    operation: Operation,
    described: Seq<char>,
    reason: Seq<char>,
) -> bool {
    &&& after == (Session { tree: after.tree, status: after.status, ..before })
    &&& after.tree == (TreeState {
        explorer: after.tree.explorer,
        undo: after.tree.undo,
        pending_undo: None,
        ..before.tree
    })
    &&& after.tree.undo@ == undo_after_failure(
        before.tree.undo@,
        before.tree.pending_undo,
        operation,
    )
    &&& explorer_asked(
        before.tree.explorer,
        after.tree.explorer,
        requests_after_failure(operation),
    )
    &&& view_of(after.status) == Some("could not "@ + described + ": "@ + reason)
}

/// What the tree is asked for after an operation succeeded in the directory `parent`.
pub open spec fn requests_after(operation: Operation, parent: PathBuf) -> Seq<TreeRequest> {
    let again = seq![TreeRequest::Invalidate(parent)];
    let gone = match operation {
        Operation::Delete { directory, path } => if directory {
            seq![TreeRequest::ForgetUnder(path)]
        } else {
            Seq::empty()
        },
        Operation::DeleteIfEmpty { path, directory, .. } => if directory {
            seq![TreeRequest::ForgetUnder(path)]
        } else {
            Seq::empty()
        },
        _ => Seq::empty(),
    };
    let fresh = match arrival(operation) {
        Some(path) => seq![TreeRequest::ForgetUnder(path)],
        None => Seq::empty(),
    };
    let shown = match operation {
        Operation::CreateFile(path) => seq![TreeRequest::Reveal(path)],
        Operation::CreateFolder(path) => seq![TreeRequest::Reveal(path)],
        Operation::Rename { from, to, .. } => seq![
            TreeRequest::RekeyUnder(from, to),
            TreeRequest::Reveal(to),
        ],
        _ => Seq::empty(),
    };
    again + gone + fresh + shown
}

/// Whether the tree has been asked for what follows from an operation that succeeded.
pub open spec fn tree_updated(
    before: Option<Explorer>,
    after: Option<Explorer>,
    operation: Operation,
) -> bool {
    match parent_of(operation.subject().text@) {
        Some(text) => exists|parent: PathBuf|
            parent.text@ == text && explorer_asked(
                before,
                after,
                #[trigger] requests_after(operation, parent),
            ),
        None => after == before,
    }
}

/// The path whose entries an operation deletes, if it deletes any.
pub open spec fn deleted_path(operation: Operation) -> Option<PathBuf> {
    match operation {
        Operation::Delete { path, .. } => Some(path),
        Operation::DeleteIfEmpty { path, .. } => Some(path),
        _ => None,
    }
}

/// The committed texts that are still about the files they were read for.
pub open spec fn committed_after<M>(list: Seq<CommittedEntry<M>>, operation: Operation) -> Seq<
    CommittedEntry<M>,
> {
    let arrived = match arrival(operation) {
        Some(path) => committed_beside(list, path@),
        None => list,
    };
    match departure(operation) {
        Some(path) => committed_beside(arrived, path@),
        None => arrived,
    }
}

/// What an operation that succeeded is reported as, where `n` documents lost their file.
pub open spec fn done_text(described: Seq<char>, n: nat) -> Seq<char> {
    if n == 0 {
        described
    } else if n == 1 {
        described
            + " — one open document no longer lives anywhere on disk; save it somewhere to keep it"@
    } else {
        described + " — "@ + decimal_of(n)
            + " open documents no longer live anywhere on disk; save them somewhere to keep them"@
    }
}

/// Whether the tabs, the documents that a server has to be told are closed, and the problems are
/// as they should be after an operation.
#[verifier::opaque]
pub open spec fn tabs_after<
    B,
    S,
    M,
    I: Fn(&PathBuf) -> Option<String>,
    R: Fn(&Option<String>) -> EditorSettings,
>(
    before: Session<B, S, M>,
    tabs: Seq<Tab<B, S>>,
    closed: Seq<PathBuf>,
    problems: Seq<Seq<char>>,
    operation: Operation,
    infer: I,
    resolve: R,
) -> bool {
    match operation {
        Operation::Rename { from, to, .. } => exists|f: Following|
            {
                &&& #[trigger] all_followed(before.tabs(), tabs, from, to, infer, resolve, f)
                &&& closed == before.tree.closed_documents@ + closings(
                    before.tabs(),
                    from@,
                    f.inferred,
                )
                &&& problems == if tab_under(before.active, from@) {
                    reported(
                        views(before.problems@),
                        view_of(tabs[before.left@.len() as int].document.settings.unsupported),
                    )
                } else {
                    views(before.problems@)
                }
            },
        _ => match deleted_path(operation) {
            Some(path) => {
                &&& all_detached(before.tabs(), tabs, path@)
                &&& closed == before.tree.closed_documents@ + paths_under(before.tabs(), path@)
                &&& problems == views(before.problems@)
            },
            None => {
                &&& tabs == before.tabs()
                &&& closed == before.tree.closed_documents@
                &&& problems == views(before.problems@)
            },
        },
    }
}

/// Whether `after` is `before` once an operation succeeded.
pub open spec fn operation_done<
    B,
    S,
    M,
    I: Fn(&PathBuf) -> Option<String>,
    R: Fn(&Option<String>) -> EditorSettings,
>(
    before: Session<B, S, M>,
    after: Session<B, S, M>,
    operation: Operation,
    described: Seq<char>,
    infer: I,
    resolve: R,
) -> bool {
    &&& after == (Session {
        left: after.left,
        active: after.active,
        right: after.right,
        chrome: Chrome {
            focus: if operation is CreateFile {
                Focus::Editor
            } else {
                before.chrome.focus
            },
            ..before.chrome
        },
        tree: TreeState {
            explorer: after.tree.explorer,
            undo: after.tree.undo,
            pending_undo: None,
            closed_documents: after.tree.closed_documents,
        },
        scm: Repository { wanted: true, committed: after.scm.committed, ..before.scm },
        status: after.status,
        problems: after.problems,
        ..before
    })
    &&& after.left@.len() == before.left@.len()
    &&& tabs_after(
        before,
        after.tabs(),
        after.tree.closed_documents@,
        views(after.problems@),
        operation,
        infer,
        resolve,
    )
    &&& after.tree.undo@ == if operation is Delete {
        Seq::empty()
    } else {
        before.tree.undo@
    }
    &&& tree_updated(before.tree.explorer, after.tree.explorer, operation)
    &&& after.scm.committed@ == committed_after(before.scm.committed@, operation)
    &&& view_of(after.status) == Some(
        done_text(
            described,
            match deleted_path(operation) {
                Some(path) => paths_under(before.tabs(), path@).len(),
                None => 0,
            },
        ),
    )
}

/// The words for an operation that succeeded.
fn done_message(described: &str, n: usize) -> (r: String)
    ensures
        r@ == done_text(described@, n as nat),
{
    let mut r: String = described.to_owned();
    if n == 1 {
        r.append(
            " — one open document no longer lives anywhere on disk; save it somewhere to keep it",
        );
    } else if n > 1 {
        r.append(" — ");
        let number: String = decimal(n as u64);
        r.append(number.as_str());
        r.append(
            " open documents no longer live anywhere on disk; save them somewhere to keep them",
        );
    }
    r
}

/// Drops the committed texts of files at or under `path`.
fn drop_committed<M>(list: &mut Vec<CommittedEntry<M>>, path: &PathBuf)
    ensures
        final(list)@ == committed_beside(old(list)@, path@),
{
    let ghost all = list@;
    let ghost mut seen: int = 0;
    let mut i: usize = 0;
    assert(committed_beside(all.take(0), path@) + all.skip(0) =~= all);
    while i < list.len()
        invariant
            0 <= seen <= all.len(),
            i <= list@.len(),
            i == committed_beside(all.take(seen), path@).len(),
            list@ == committed_beside(all.take(seen), path@) + all.skip(seen),
        decreases all.len() - seen,
    {
        proof {
            assert(all.take(seen + 1).drop_last() =~= all.take(seen));
            assert(list@[i as int] == all[seen]);
        }
        let ghost kept = committed_beside(all.take(seen), path@);
        if list[i].path.starts_with(path) {
            list.remove(i);
            assert(list@ =~= kept + all.skip(seen + 1));
        } else {
            assert(list@ =~= kept.push(all[seen]) + all.skip(seen + 1));
            i = i + 1;
        }
        proof {
            seen = seen + 1;
        }
    }
    assert(all.take(seen) =~= all);
    assert(list@ =~= committed_beside(all, path@));
}

impl<B, S, M> Session<B, S, M> {
    /// Attaches the moved file's stamp to what undoes the move.
    ///
    /// Not while an undoing is under way: what is remembered last is then about another file.
    pub fn stamp_last_undo(&mut self, stamp: Stamp)
        ensures
            *final(self) == (Session {
                tree: TreeState { undo: final(self).tree.undo, ..old(self).tree },
                ..*old(self)
            }),
            final(self).tree.undo@ == if old(self).tree.pending_undo is Some
                || old(self).tree.undo@.len() == 0 {
                old(self).tree.undo@
            } else {
                old(self).tree.undo@.drop_last().push(
                    stamped(old(self).tree.undo@.last(), stamp),
                )
            },
    {
        if self.tree.pending_undo.is_some() {
            return;
        }
        match self.tree.undo.pop() {
            Some(operation) => {
                let operation: Operation = match operation {
                    Operation::Rename { directory, from, to, .. } => Operation::Rename {
                        directory,
                        from,
                        to,
                        expect: Some(stamp),
                    },
                    Operation::DeleteIfEmpty { path, directory, .. } => Operation::DeleteIfEmpty {
                        path,
                        directory,
                        expect: Some(stamp),
                    },
                    other => other,
                };
                self.tree.undo.push(operation);
            },
            None => {},
        }
    }

    /// Asks for what was done last in the tree to be undone.
    pub fn undo_file_operation(&mut self) -> (r: Outcome)
        requires
            old(self).tabs().len() <= usize::MAX,
        ensures
            undoes(*old(self), *final(self), r),
    {
        let n: usize = self.tree.undo.len();
        if n == 0 {
            return Outcome::Message("nothing in the tree to undo".to_owned());
        }
        let operation: Operation = self.tree.undo[n - 1].clone();
        if let Operation::Rename { to, .. } = &operation {
            if self.open_paths_under(to).len() > 0 {
                let name: String = match to.file_name() {
                    Some(name) => name,
                    None => to.display().to_owned(),
                };
                let mut message: String = "a tab is still open on `".to_owned();
                message.append(name.as_str());
                message.append("` — close it before ");
                message.append("undoing this");
                return Outcome::Message(message);
            }
        }
        self.tree.undo.pop();
        self.tree.pending_undo = Some(operation.clone());
        Outcome::FileOperation(operation)
    }

    /// Takes back what was remembered about an operation that failed.
    pub fn file_operation_failed(&mut self, operation: &Operation, described: &str, reason: &str)
        ensures
            operation_failed(*old(self), *final(self), *operation, described@, reason@),
    {
        let pending: Option<Operation> = self.tree.pending_undo.take();
        let retried: bool = match &pending {
            Some(pending) => *pending == *operation,
            None => false,
        };
        if retried {
            if let Some(pending) = pending {
                self.tree.undo.push(pending);
            }
        } else if let Some(inverse) = operation.inverse() {
            let n: usize = self.tree.undo.len();
            if n > 0 && self.tree.undo[n - 1] == inverse {
                self.tree.undo.pop();
                assert(self.tree.undo@ =~= old(self).tree.undo@.drop_last());
            }
        }
        if let Some(path) = operation.arriving() {
            self.ask_tree(TreeRequest::ForgetUnder(path.clone()));
        } else {
            proof {
                let tree = self.tree.explorer;
                if tree is Some {
                    let listed = tree->Some_0.requests@;
                    assert(listed + Seq::<TreeRequest>::empty() =~= listed);
                }
            }
        }
        let mut message: String = "could not ".to_owned();
        message.append(described);
        message.append(": ");
        message.append(reason);
        self.status = Some(message);
    }

    /// Asks the tree for what follows from an operation that succeeded.
    fn update_tree(&mut self, operation: &Operation)
        ensures
            *final(self) == (Session {
                tree: TreeState { explorer: final(self).tree.explorer, ..old(self).tree },
                ..*old(self)
            }),
            tree_updated(old(self).tree.explorer, final(self).tree.explorer, *operation),
    {
        let parent: PathBuf = match operation.parent() {
            Some(parent) => parent,
            None => {
                return;
            },
        };
        let ghost dir = parent;
        let mut requests: Vec<TreeRequest> = Vec::new();
        requests.push(TreeRequest::Invalidate(parent));
        match operation {
            Operation::Delete { directory, path } => if *directory {
                requests.push(TreeRequest::ForgetUnder(path.clone()));
            },
            Operation::DeleteIfEmpty { path, directory, .. } => if *directory {
                requests.push(TreeRequest::ForgetUnder(path.clone()));
            },
            _ => {},
        }
        if let Some(path) = operation.arriving() {
            requests.push(TreeRequest::ForgetUnder(path.clone()));
        }
        match operation {
            Operation::CreateFile(path) => {
                requests.push(TreeRequest::Reveal(path.clone()));
            },
            Operation::CreateFolder(path) => {
                requests.push(TreeRequest::Reveal(path.clone()));
            },
            Operation::Rename { from, to, .. } => {
                requests.push(TreeRequest::RekeyUnder(from.clone(), to.clone()));
                requests.push(TreeRequest::Reveal(to.clone()));
            },
            _ => {},
        }
        assert(requests@ =~= requests_after(*operation, dir));
        match self.tree.explorer.take() {
            Some(explorer) => {
                let mut explorer: Explorer = explorer;
                explorer.requests.append(&mut requests);
                self.tree.explorer = Some(explorer);
            },
            None => {},
        }
        assert(explorer_asked(
            old(self).tree.explorer,
            self.tree.explorer,
            requests_after(*operation, dir),
        ));
    }

    /// Drops the committed texts that are no longer about the files they were read for.
    fn update_committed(&mut self, operation: &Operation)
        ensures
            *final(self) == (Session {
                scm: Repository { committed: final(self).scm.committed, ..old(self).scm },
                ..*old(self)
            }),
            final(self).scm.committed@ == committed_after(old(self).scm.committed@, *operation),
    {
        if let Some(path) = operation.arriving() {
            drop_committed(&mut self.scm.committed, path);
        }
        if let Some(path) = moved_from(operation) {
            drop_committed(&mut self.scm.committed, path);
        }
    }

    /// Moves or detaches the tabs that an operation concerns, and says how many lost their file.
    fn update_tabs<
        I: Fn(&PathBuf) -> Option<String>,
        R: Fn(&Option<String>) -> EditorSettings,
    >(&mut self, operation: &Operation, infer: &I, resolve: &R) -> (n: usize)
        requires
            old(self).tabs().len() <= usize::MAX,
            forall|path: &PathBuf| infer.requires((path,)),
            forall|language: &Option<String>| resolve.requires((language,)),
        ensures
            final(self).left@.len() == old(self).left@.len(),
            tabs_after(
                *old(self),
                final(self).tabs(),
                final(self).tree.closed_documents@,
                views(final(self).problems@),
                *operation,
                *infer,
                *resolve,
            ),
            n == (match deleted_path(*operation) {
                Some(path) => paths_under(old(self).tabs(), path@).len(),
                None => 0,
            }),
            *final(self) == (Session {
                left: final(self).left,
                active: final(self).active,
                right: final(self).right,
                tree: TreeState {
                    closed_documents: final(self).tree.closed_documents,
                    ..old(self).tree
                },
                problems: final(self).problems,
                ..*old(self)
            }),
    {
        proof {
            reveal(tabs_after);
        }
        match operation {
            Operation::Delete { path, .. } => self.detach_tabs_under(path),
            Operation::DeleteIfEmpty { path, .. } => self.detach_tabs_under(path),
            Operation::Rename { from, to, .. } => {
                let shown: bool = self.active.is_under(from);
                let Ghost(f) = self.follow_rename(from, to, infer, resolve);
                let ghost mid = *self;
                if shown {
                    self.report_unsupported();
                }
                proof {
                    assert(self.tabs() == mid.tabs());
                    assert(all_followed(
                        old(self).tabs(),
                        self.tabs(),
                        *from,
                        *to,
                        *infer,
                        *resolve,
                        f,
                    ));
                }
                0
            },
            _ => 0,
        }
    }

    /// Does all that follows from an operation that succeeded.
    fn settle_operation<
        I: Fn(&PathBuf) -> Option<String>,
        R: Fn(&Option<String>) -> EditorSettings,
    >(&mut self, operation: &Operation, described: &str, infer: &I, resolve: &R)
        requires
            old(self).tabs().len() <= usize::MAX,
            forall|path: &PathBuf| infer.requires((path,)),
            forall|language: &Option<String>| resolve.requires((language,)),
        ensures
            operation_done(*old(self), *final(self), *operation, described@, *infer, *resolve),
    {
        let n: usize = self.update_tabs(operation, infer, resolve);
        self.settle_rest(operation, described, n);
    }

    /// Does all that follows from an operation that succeeded, apart from what becomes of tabs.
    fn settle_rest(&mut self, operation: &Operation, described: &str, n: usize)
        ensures
            *final(self) == (Session {
                chrome: Chrome {
                    focus: if operation is CreateFile {
                        Focus::Editor
                    } else {
                        old(self).chrome.focus
                    },
                    ..old(self).chrome
                },
                tree: TreeState {
                    explorer: final(self).tree.explorer,
                    undo: final(self).tree.undo,
                    pending_undo: None,
                    closed_documents: old(self).tree.closed_documents,
                },
                scm: Repository {
                    wanted: true,
                    committed: final(self).scm.committed,
                    ..old(self).scm
                },
                status: final(self).status,
                ..*old(self)
            }),
            final(self).tree.undo@ == if operation is Delete {
                Seq::empty()
            } else {
                old(self).tree.undo@
            },
            tree_updated(old(self).tree.explorer, final(self).tree.explorer, *operation),
            final(self).scm.committed@ == committed_after(old(self).scm.committed@, *operation),
            view_of(final(self).status) == Some(done_text(described@, n as nat)),
    {
        self.tree.pending_undo = None;
        if let Operation::CreateFile(_) = operation {
            self.chrome.focus = Focus::Editor;
        }
        if let Operation::Delete { .. } = operation {
            self.tree.undo = Vec::new();
            assert(self.tree.undo@ =~= Seq::empty());
        }
        self.scm.wanted = true;
        self.update_committed(operation);
        self.update_tree(operation);
        self.status = Some(done_message(described, n));
    }

    /// Follows an operation that succeeded: tabs go with their files or lose them, the tree is
    /// read again, and the status bar says what was done.
    ///
    /// `described` is the operation in words. `infer` says which language a path's name implies,
    /// and `resolve` what the settings for a language are.
    pub fn file_operation_done<
        I: Fn(&PathBuf) -> Option<String>,
        R: Fn(&Option<String>) -> EditorSettings,
    >(&mut self, operation: &Operation, described: &str, infer: &I, resolve: &R)
        requires
            old(self).tabs().len() <= usize::MAX,
            forall|path: &PathBuf| infer.requires((path,)),
            forall|language: &Option<String>| resolve.requires((language,)),
        ensures
            exists|mid: Session<B, S, M>|
                operation_done(*old(self), mid, *operation, described@, *infer, *resolve)
                    && #[trigger] refreshed(mid, *final(self)),
    {
        self.settle_operation(operation, described, infer, resolve);
        let ghost mid = *self;
        self.refresh_context();
        assert(refreshed(mid, *self));
    }

    /// Opens a workspace: its tree is new, and what was done in another is not undone in it.
    pub fn set_workspace_root(&mut self, root: PathBuf)
        ensures
            exists|mid: Session<B, S, M>|
                {
                    &&& mid == (Session {
                        tree: TreeState {
                            explorer: mid.tree.explorer,
                            undo: mid.tree.undo,
                            ..old(self).tree
                        },
                        ..*old(self)
                    })
                    &&& mid.tree.undo@.len() == 0
                    &&& mid.tree.explorer matches Some(e) && e.root == root && e.rows@.len() == 0
                        && e.selection is None && e.wanted == Some(root) && e.known@.len() == 0
                        && e.requests@.len() == 0
                    &&& #[trigger] refreshed(mid, *final(self))
                },
    {
        let wanted: PathBuf = root.clone();
        self.tree.explorer = Some(
            Explorer {
                root,
                rows: Vec::new(),
                selection: None,
                wanted: Some(wanted),
                known: Vec::new(),
                requests: Vec::new(),
            },
        );
        self.tree.undo = Vec::new();
        let ghost mid = *self;
        self.refresh_context();
        assert(refreshed(mid, *self));
    }

    /// Takes the tree as it is now: its rows and its selection, the directory that is to be read
    /// next, and every path that was listed.
    pub fn fill_directory(
        &mut self,
        rows: Vec<TreeRow>,
        selection: Option<TreeRow>,
        wanted: Option<PathBuf>,
        known: Vec<PathBuf>,
    )
        ensures
            exists|mid: Session<B, S, M>|
                {
                    &&& mid == (Session {
                        tree: TreeState {
                            explorer: match old(self).tree.explorer {
                                Some(e) => Some(Explorer { rows, selection, wanted, known, ..e }),
                                None => None,
                            },
                            ..old(self).tree
                        },
                        ..*old(self)
                    })
                    &&& #[trigger] refreshed(mid, *final(self))
                },
    {
        match self.tree.explorer.take() {
            Some(explorer) => {
                let mut explorer: Explorer = explorer;
                explorer.rows = rows;
                explorer.selection = selection;
                explorer.wanted = wanted;
                explorer.known = known;
                self.tree.explorer = Some(explorer);
            },
            None => {},
        }
        let ghost mid = *self;
        self.refresh_context();
        assert(refreshed(mid, *self));
    }
}

// ---------------------------------------------------------------------------
// Laws
// ---------------------------------------------------------------------------

/// Once files are deleted, no tab stands for any of them.
pub proof fn law_no_tab_points_at_a_deleted_file<B, S>(
    before: Seq<Tab<B, S>>,
    after: Seq<Tab<B, S>>,
    path: Seq<Part>,
    i: int,
)
    requires
        all_detached(before, after, path),
        0 <= i < after.len(),
    ensures
        !tab_under(after[i], path),
{
}

/// Deleting files keeps the text of every open document.
pub proof fn law_deleting_keeps_every_text<B, S>(
    before: Seq<Tab<B, S>>,
    after: Seq<Tab<B, S>>,
    path: Seq<Part>,
    i: int,
)
    requires
        all_detached(before, after, path),
        0 <= i < after.len(),
    ensures
        after[i].document.body == before[i].document.body,
        tab_under(before[i], path) ==> after[i].document.dirty,
{
}

/// Renaming files keeps the text and the unsaved changes of every open document.
pub proof fn law_renaming_keeps_every_text<
    B,
    S,
    I: Fn(&PathBuf) -> Option<String>,
    R: Fn(&Option<String>) -> EditorSettings,
>(
    before: Seq<Tab<B, S>>,
    after: Seq<Tab<B, S>>,
    from: PathBuf,
    to: PathBuf,
    infer: I,
    resolve: R,
    f: Following,
    i: int,
)
    requires
        all_followed(before, after, from, to, infer, resolve, f),
        0 <= i < after.len(),
    ensures
        after[i].document.body == before[i].document.body,
        after[i].document.dirty == before[i].document.dirty,
        before[i].document.language_pinned ==> after[i].document.language_id
            == before[i].document.language_id,
{
    assert(follows_at(
        before[i],
        after[i],
        from,
        to,
        f.moved[i],
        f.inferred[i],
        f.settings[i],
        infer,
        resolve,
    ));
}

/// An operation that failed leaves nothing to undo that was not there before it.
pub proof fn law_a_failed_operation_is_not_undone(undo: Seq<Operation>, operation: Operation)
    requires
        inverse_of(operation) is Some,
    ensures
        undo_after_failure(undo.push(inverse_of(operation)->Some_0), None, operation) == undo,
{
    assert(undo.push(inverse_of(operation)->Some_0).drop_last() =~= undo);
}

/// An undoing that failed can be tried again.
pub proof fn law_a_failed_undo_can_be_tried_again(undo: Seq<Operation>)
    requires
        undo.len() > 0,
    ensures
        undo_after_failure(undo.drop_last(), Some(undo.last()), undo.last()) == undo,
{
    assert(undo.drop_last().push(undo.last()) =~= undo);
}

/// Nothing that was done before a deletion is undone after it.
pub proof fn law_a_deletion_clears_what_can_be_undone<
    B,
    S,
    M,
    I: Fn(&PathBuf) -> Option<String>,
    R: Fn(&Option<String>) -> EditorSettings,
>(
    before: Session<B, S, M>,
    after: Session<B, S, M>,
    operation: Operation,
    described: Seq<char>,
    infer: I,
    resolve: R,
)
    requires
        operation_done(before, after, operation, described, infer, resolve),
        operation is Delete,
    ensures
        after.tree.undo@.len() == 0,
        after.tree.pending_undo is None,
{
}

} // verus!
