//! Edits across several documents, what undoes them, and files that changed outside the editor.

use vstd::prelude::*;
use crate::editing::{Change, Position, Selection, SelectionSet, TextEdit};
use crate::path::PathBuf;
#[allow(unused_imports)]
use crate::path::Part;
#[allow(unused_imports)]
use crate::session::documents::paths_open;
use crate::session::edits::{build_transaction, EditError, Edited, Engine};
#[allow(unused_imports)]
use crate::session::edits::{builds, commits_changes, ready};
#[allow(unused_imports)]
use crate::session::layout::{laid_out, refreshed};
use crate::session::outcome::Outcome;
use crate::session::state::{
    clone_text, Document, EditorSettings, Find, Session, Tab, Viewport, WordWrap,
};
#[allow(unused_imports)]
use crate::session::state::Repository;
use crate::session::tabs::TextState;
#[allow(unused_imports)]
use crate::session::tabs::{is_at, tab_holding, with_text};
use crate::snippet::ActiveSnippet;
use crate::text::decimal;
#[allow(unused_imports)]
use crate::text::decimal_of;
use crate::workspace::{Applied, DocumentChange, Plan, PlannedDocument, WorkspaceError};
#[allow(unused_imports)]
use crate::workspace::{held, plan_of, read_gives, Fault, Planned};

verus! {

/// The place of the tab that holds `path`, once both are resolved: the active one before any
/// other. Past the end where none does.
pub open spec fn tab_at_path<B, S, M>(s: Session<B, S, M>, path: Seq<Part>) -> int {
    if is_at(s.active.document, path) {
        s.left@.len() as int
    } else {
        tab_holding(s.tabs(), path)
    }
}

/// Whether a tab holds `path`.
pub open spec fn is_open<B, S, M>(s: Session<B, S, M>, path: Seq<Part>) -> bool {
    tab_at_path(s, path) < s.tabs().len()
}

pub(crate) proof fn lemma_holding<B, S>(tabs: Seq<Tab<B, S>>, path: Seq<Part>)
    ensures
        0 <= tab_holding(tabs, path) <= tabs.len(),
        tab_holding(tabs, path) < tabs.len() ==> is_at(
            tabs[tab_holding(tabs, path)].document,
            path,
        ),
        forall|i: int|
            0 <= i < tab_holding(tabs, path) ==> !is_at((#[trigger] tabs[i]).document, path),
    decreases tabs.len(),
{
    if tabs.len() > 0 && !is_at(tabs[0].document, path) {
        let rest = tabs.skip(1);
        lemma_holding(rest, path);
        let k = tab_holding(rest, path);
        if k < rest.len() {
            assert(rest[k] == tabs[k + 1]);
        }
        assert forall|i: int| 0 <= i < tab_holding(tabs, path) implies !is_at(
            (#[trigger] tabs[i]).document,
            path,
        ) by {
            if i > 0 {
                assert(rest[i - 1] == tabs[i]);
            }
        }
    }
}

/// A tab holds a file exactly where one of the open paths is that file.
pub proof fn law_an_open_file_is_held<B, S>(tabs: Seq<Tab<B, S>>, path: Seq<Part>)
    ensures
        held(paths_open(tabs), path) == (tab_holding(tabs, path) < tabs.len()),
    decreases tabs.len(),
{
    lemma_holding(tabs, path);
    if tabs.len() > 0 {
        let rest = tabs.drop_last();
        law_an_open_file_is_held(rest, path);
        lemma_holding(rest, path);
        let paths = paths_open(tabs);
        let before = paths_open(rest);
        assert forall|i: int| 0 <= i < before.len() implies before[i] == #[trigger] paths[i] by {}
        if is_at(tabs.last().document, path) {
            assert(paths[paths.len() - 1] == tabs.last().document.path->Some_0);
            assert(tabs[tabs.len() - 1] == tabs.last());
        }
        if tab_holding(tabs, path) < tabs.len() {
            let k = tab_holding(tabs, path);
            if k < rest.len() {
                assert(rest[k] == tabs[k]);
                if tab_holding(rest, path) == rest.len() {
                    assert(!is_at(rest[k].document, path));
                }
                let i = choose|i: int|
                    0 <= i < before.len() && crate::path::normal_parts((#[trigger] before[i])@)
                        == crate::path::normal_parts(path);
                assert(paths[i] == before[i]);
            }
        }
        if held(paths, path) {
            let i = choose|i: int|
                0 <= i < paths.len() && crate::path::normal_parts((#[trigger] paths[i])@)
                    == crate::path::normal_parts(path);
            if i < before.len() {
                assert(before[i] == paths[i]);
                let k = tab_holding(rest, path);
                assert(tabs[k] == rest[k]);
            }
        }
    }
}

impl<B, S, M> Session<B, S, M> {
    /// The place of the tab that holds `path`, the active one before any other.
    fn index_at_path(&self, path: &PathBuf) -> (r: usize)
        requires
            self.tabs().len() <= usize::MAX,
        ensures
            r == tab_at_path(*self, path@),
            r <= self.tabs().len(),
    {
        if self.active.document.stands_for(path) {
            return self.active_tab();
        }
        match self.tab_of(path) {
            Some(i) => i,
            None => self.tab_count(),
        }
    }

    /// The open document that stands for `path`, if there is one.
    pub fn document_at_path(&self, path: &PathBuf) -> (r: Option<&Document<B>>)
        requires
            self.tabs().len() <= usize::MAX,
        ensures
            match r {
                Some(document) => tab_at_path(*self, path@) < self.tabs().len() && *document
                    == self.tabs()[tab_at_path(*self, path@)].document,
                None => tab_at_path(*self, path@) == self.tabs().len(),
            },
    {
        let i: usize = self.index_at_path(path);
        if i < self.tab_count() {
            Some(&self.tab_at(i).document)
        } else {
            None
        }
    }

    /// Resolves a server's edit against the open documents, without changing anything.
    pub fn plan_workspace_edit(&self, changes: &Vec<DocumentChange>) -> (r: Result<
        Plan,
        WorkspaceError,
    >)
        requires
            self.tabs().len() <= usize::MAX,
        ensures
            match r {
                Ok(plan) => plan_of(changes@, paths_open(self.tabs())) == Ok::<
                    Seq<Planned>,
                    Fault,
                >(plan@),
                Err(error) => plan_of(changes@, paths_open(self.tabs())) == Err::<
                    Seq<Planned>,
                    Fault,
                >(error@),
            },
    {
        let open: Vec<PathBuf> = self.open_paths();
        Plan::build(changes, &open)
    }
}

// ---------------------------------------------------------------------------
// Replacing in files
// ---------------------------------------------------------------------------

/// Whether searching a file again comes to `found`: nothing where nothing is found. An open file
/// is searched as it is in its tab, any other as it is read.
pub open spec fn searched<
    B,
    S,
    M,
    R: Fn(&PathBuf) -> Result<String, String>,
    F: Fn(&B) -> Vec<TextEdit>,
    G: Fn(&String) -> Vec<TextEdit>,
>(
    s: Session<B, S, M>,
    path: PathBuf,
    read: R,
    in_body: F,
    in_text: G,
    found: Option<PlannedDocument>,
) -> bool {
    let i = tab_at_path(s, path@);
    if i < s.tabs().len() {
        exists|edits: Vec<TextEdit>|
            #[trigger] in_body.ensures((&s.tabs()[i].document.body,), edits) && found
                == if edits@.len() == 0 {
                None
            } else {
                Some(
                    PlannedDocument { path, version: None, edits, open: true, contents: None },
                )
            }
    } else {
        exists|text: String, edits: Vec<TextEdit>|
            #[trigger] read_gives(read, path, Ok(text)) && #[trigger] in_text.ensures(
                (&text,),
                edits,
            ) && found == if edits@.len() == 0 {
                None
            } else {
                Some(
                    PlannedDocument {
                        path,
                        version: None,
                        edits,
                        open: false,
                        contents: Some(text),
                    },
                )
            }
    }
}

/// Whether searching the files again comes to `documents`, in order.
pub open spec fn all_searched<
    B,
    S,
    M,
    R: Fn(&PathBuf) -> Result<String, String>,
    F: Fn(&B) -> Vec<TextEdit>,
    G: Fn(&String) -> Vec<TextEdit>,
>(
    s: Session<B, S, M>,
    paths: Seq<PathBuf>,
    read: R,
    in_body: F,
    in_text: G,
    documents: Seq<PlannedDocument>,
) -> bool
    decreases paths.len(),
{
    if paths.len() == 0 {
        documents.len() == 0
    } else {
        ||| searched(s, paths.last(), read, in_body, in_text, None) && all_searched(
            s,
            paths.drop_last(),
            read,
            in_body,
            in_text,
            documents,
        )
        ||| documents.len() > 0 && searched(
            s,
            paths.last(),
            read,
            in_body,
            in_text,
            Some(documents.last()),
        ) && all_searched(
            s,
            paths.drop_last(),
            read,
            in_body,
            in_text,
            documents.drop_last(),
        )
    }
}

/// Whether planning a replacement in files comes to `result`. A query that is no pattern and the
/// first file that cannot be read reject it.
pub open spec fn plans_replacements<
    B,
    S,
    M,
    R: Fn(&PathBuf) -> Result<String, String>,
    F: Fn(&B) -> Vec<TextEdit>,
    G: Fn(&String) -> Vec<TextEdit>,
>(
    s: Session<B, S, M>,
    pattern: Result<(), String>,
    paths: Seq<PathBuf>,
    read: R,
    in_body: F,
    in_text: G,
    result: Result<Plan, WorkspaceError>,
) -> bool {
    match pattern {
        Err(error) => result matches Err(fault) && fault@ == Fault::InvalidPattern(error@),
        Ok(()) => match result {
            Ok(plan) => all_searched(s, paths, read, in_body, in_text, plan.list()),
            Err(fault) => exists|i: int, reason: String, documents: Seq<PlannedDocument>|
                {
                    &&& 0 <= i < paths.len()
                    &&& #[trigger] all_searched(
                        s,
                        paths.take(i),
                        read,
                        in_body,
                        in_text,
                        documents,
                    )
                    &&& !is_open(s, paths[i]@)
                    &&& #[trigger] read_gives(read, paths[i], Err(reason))
                    &&& fault@ == (Fault::Unreadable { path: paths[i], reason: reason@ })
                },
        },
    }
}

impl<B, S, M> Session<B, S, M> {
    /// Searches one file again.
    fn search_again<
        R: Fn(&PathBuf) -> Result<String, String>,
        F: Fn(&B) -> Vec<TextEdit>,
        G: Fn(&String) -> Vec<TextEdit>,
    >(&self, path: &PathBuf, read: &R, in_body: &F, in_text: &G) -> (r: Result<
        Option<PlannedDocument>,
        WorkspaceError,
    >)
        requires
            self.tabs().len() <= usize::MAX,
            forall|path: &PathBuf| read.requires((path,)),
            forall|body: &B| in_body.requires((body,)),
            forall|text: &String| in_text.requires((text,)),
        ensures
            match r {
                Ok(found) => searched(*self, *path, *read, *in_body, *in_text, found),
                Err(fault) => exists|reason: String|
                    {
                        &&& !is_open(*self, path@)
                        &&& #[trigger] read_gives(*read, *path, Err(reason))
                        &&& fault@ == (Fault::Unreadable { path: *path, reason: reason@ })
                    },
            },
    {
        let i: usize = self.index_at_path(path);
        if i < self.tab_count() {
            let edits: Vec<TextEdit> = in_body(&self.tab_at(i).document.body);
            assert(in_body.ensures((&self.tabs()[i as int].document.body,), edits));
            if edits.len() == 0 {
                return Ok(None);
            }
            return Ok(
                Some(
                    PlannedDocument {
                        path: path.clone(),
                        version: None,
                        edits,
                        open: true,
                        contents: None,
                    },
                ),
            );
        }
        let answer: Result<String, String> = read(path);
        assert(read_gives(*read, *path, answer));
        match answer {
            Err(reason) => Err(WorkspaceError::Unreadable { path: path.clone(), reason }),
            Ok(text) => {
                let edits: Vec<TextEdit> = in_text(&text);
                assert(in_text.ensures((&text,), edits));
                if edits.len() == 0 {
                    return Ok(None);
                }
                Ok(
                    Some(
                        PlannedDocument {
                            path: path.clone(),
                            version: None,
                            edits,
                            open: false,
                            contents: Some(text),
                        },
                    ),
                )
            },
        }
    }

    /// Plans a replacement in files. Each is searched again, in its tab where it has one, because
    /// what was found before may have changed since. `pattern` says what is wrong with the query,
    /// and `in_body` and `in_text` say what is to be replaced in a text.
    pub fn plan_replacements<
        R: Fn(&PathBuf) -> Result<String, String>,
        F: Fn(&B) -> Vec<TextEdit>,
        G: Fn(&String) -> Vec<TextEdit>,
    >(
        &self,
        pattern: Result<(), String>,
        paths: &Vec<PathBuf>,
        read: &R,
        in_body: &F,
        in_text: &G,
    ) -> (r: Result<Plan, WorkspaceError>)
        requires
            self.tabs().len() <= usize::MAX,
            forall|path: &PathBuf| read.requires((path,)),
            forall|body: &B| in_body.requires((body,)),
            forall|text: &String| in_text.requires((text,)),
        ensures
            plans_replacements(*self, pattern, paths@, *read, *in_body, *in_text, r),
    {
        if let Err(error) = pattern {
            return Err(WorkspaceError::InvalidPattern(error));
        }
        let mut documents: Vec<PlannedDocument> = Vec::new();
        let mut i: usize = 0;
        while i < paths.len()
            invariant
                i <= paths@.len(),
                pattern is Ok,
                self.tabs().len() <= usize::MAX,
                forall|path: &PathBuf| read.requires((path,)),
                forall|body: &B| in_body.requires((body,)),
                forall|text: &String| in_text.requires((text,)),
                all_searched(
                    *self,
                    paths@.take(i as int),
                    *read,
                    *in_body,
                    *in_text,
                    documents@,
                ),
            decreases paths@.len() - i,
        {
            let ghost now = documents@;
            proof {
                assert(paths@.take(i + 1).drop_last() =~= paths@.take(i as int));
                assert(paths@.take(i + 1).last() == paths@[i as int]);
            }
            match self.search_again(&paths[i], read, in_body, in_text) {
                Err(fault) => {
                    return Err(fault);
                },
                Ok(None) => {},
                Ok(Some(document)) => {
                    documents.push(document);
                    assert(documents@.drop_last() =~= now);
                },
            }
            i = i + 1;
        }
        assert(paths@.take(i as int) =~= paths@);
        Ok(Plan::from_documents(documents))
    }
}

// ---------------------------------------------------------------------------
// Applying a plan
// ---------------------------------------------------------------------------

/// What was prepared for one document of a plan.
#[derive(Debug)]
pub struct Share<B> {
    /// The document, for a file that is not open.
    pub fresh: Option<Document<B>>,
    /// The changes; none where there is nothing to do.
    pub changes: Option<Vec<Change>>,
}

/// Whether `share` was prepared for the document.
pub open spec fn share_prepared<
    B,
    S,
    M,
    C: Fn(&B, Position) -> Position,
    N: Fn(&TextEdit) -> bool,
    O: Fn(&Vec<Change>) -> bool,
    K,
    D: Fn(&PathBuf, &String) -> Document<B>,
>(
    engine: Engine<C, N, O, K>,
    from_file: D,
    s: Session<B, S, M>,
    document: PlannedDocument,
    share: Share<B>,
) -> bool {
    if document.open {
        &&& is_open(s, document.path@)
        &&& share.fresh is None
        &&& builds(
            engine,
            s.tabs()[tab_at_path(s, document.path@)].document.body,
            document.edits@,
            Ok(share.changes),
        )
    } else {
        &&& document.contents matches Some(text)
        &&& share.fresh matches Some(fresh)
        &&& from_file.ensures((&document.path, &text), fresh)
        &&& builds(engine, fresh.body, document.edits@, Ok(share.changes))
    }
}

/// Whether preparing the document fails with `fault`: its edits overlap, or its text is needed
/// and was never supplied. That of a document which was open when the edit was planned, and has
/// been closed since, was not.
pub open spec fn share_refused<
    B,
    S,
    M,
    C: Fn(&B, Position) -> Position,
    N: Fn(&TextEdit) -> bool,
    O: Fn(&Vec<Change>) -> bool,
    K,
    D: Fn(&PathBuf, &String) -> Document<B>,
>(
    engine: Engine<C, N, O, K>,
    from_file: D,
    s: Session<B, S, M>,
    document: PlannedDocument,
    fault: Fault,
) -> bool {
    let overlapping = Fault::Overlapping { path: document.path };
    let unsupplied = Fault::Unreadable {
        path: document.path,
        reason: "its text was never supplied"@,
    };
    let error = Err::<Option<Vec<Change>>, EditError>(EditError::Overlapping);
    if document.open {
        if is_open(s, document.path@) {
            fault == overlapping && builds(
                engine,
                s.tabs()[tab_at_path(s, document.path@)].document.body,
                document.edits@,
                error,
            )
        } else {
            fault == unsupplied
        }
    } else {
        match document.contents {
            None => fault == unsupplied,
            Some(text) => fault == overlapping && exists|fresh: Document<B>|
                #[trigger] from_file.ensures((&document.path, &text), fresh) && builds(
                    engine,
                    fresh.body,
                    document.edits@,
                    error,
                ),
        }
    }
}

/// Whether `shares` were prepared for the documents.
pub open spec fn all_prepared<
    B,
    S,
    M,
    C: Fn(&B, Position) -> Position,
    N: Fn(&TextEdit) -> bool,
    O: Fn(&Vec<Change>) -> bool,
    K,
    D: Fn(&PathBuf, &String) -> Document<B>,
>(
    engine: Engine<C, N, O, K>,
    from_file: D,
    s: Session<B, S, M>,
    documents: Seq<PlannedDocument>,
    shares: Seq<Share<B>>,
) -> bool {
    &&& shares.len() == documents.len()
    &&& forall|i: int|
        0 <= i < documents.len() ==> share_prepared(
            engine,
            from_file,
            s,
            documents[i],
            #[trigger] shares[i],
        )
}

/// A tab that was opened in the background.
pub open spec fn background_tab<B, S>(tab: Tab<B, S>, fresh: Document<B>, view: Viewport) -> bool {
    &&& tab.document == fresh
    &&& tab.view.is_fresh(view.width, view.height)
    &&& tab.diagnostics@.len() == 0
    &&& tab.semantic@.len() == 0
    &&& tab.find.is_new()
}

/// A sum of counts, which stops at what can be counted.
pub open spec fn counted_up(a: usize, b: usize) -> usize {
    if a + b > usize::MAX {
        usize::MAX
    } else {
        (a + b) as usize
    }
}

/// The counts once a document has taken part.
pub open spec fn counted_share(before: Applied, opened: bool, made: Option<usize>) -> Applied {
    Applied {
        opened: if opened {
            counted_up(before.opened, 1)
        } else {
            before.opened
        },
        documents: if made is Some {
            counted_up(before.documents, 1)
        } else {
            before.documents
        },
        edits: match made {
            Some(n) => counted_up(before.edits, n),
            None => before.edits,
        },
    }
}

/// Whether the prepared changes, if there are any, were made in the tab as part of the group.
pub open spec fn changes_made<
    B,
    S,
    K: Fn(&B, &Option<ActiveSnippet>, &Vec<Change>, &SelectionSet, Option<u64>, Position) -> Edited<
        B,
    >,
>(
    commit: K,
    before: Tab<B, S>,
    after: Tab<B, S>,
    changes: Option<Vec<Change>>,
    group: u64,
    made: Option<usize>,
) -> bool {
    match changes {
        None => after == before && made is None,
        Some(changes) => made matches Some(n) && commits_changes(
            commit,
            before,
            after,
            changes,
            Some(group),
            n,
        ),
    }
}

/// Whether `after` is `before` with one document's share applied: in its tab, or in one opened in
/// the background.
pub open spec fn share_applied<
    B,
    S,
    M,
    K: Fn(&B, &Option<ActiveSnippet>, &Vec<Change>, &SelectionSet, Option<u64>, Position) -> Edited<
        B,
    >,
>(
    commit: K,
    before: Session<B, S, M>,
    after: Session<B, S, M>,
    document: PlannedDocument,
    share: Share<B>,
    group: u64,
    counts: (Applied, Applied),
) -> bool {
    match share.fresh {
        None => {
            let i = tab_at_path(before, document.path@);
            exists|made: Option<usize>|
                {
                    &&& #[trigger] changes_made(
                        commit,
                        before.tabs()[i],
                        after.tabs()[i],
                        share.changes,
                        group,
                        made,
                    )
                    &&& after.tabs() == before.tabs().update(i, after.tabs()[i])
                    &&& after.left@.len() == before.left@.len()
                    &&& after == (Session {
                        left: after.left,
                        active: after.active,
                        right: after.right,
                        ..before
                    })
                    &&& counts.1 == counted_share(counts.0, false, made)
                }
        },
        Some(fresh) => exists|made: Option<usize>, opened: Tab<B, S>|
            {
                &&& background_tab(opened, fresh, before.active.view)
                &&& after.right@.len() == before.right@.len() + 1
                &&& #[trigger] changes_made(
                    commit,
                    opened,
                    after.right@.last(),
                    share.changes,
                    group,
                    made,
                )
                &&& after.right@ == before.right@.push(after.right@.last())
                &&& after == (Session { right: after.right, ..before })
                &&& counts.1 == counted_share(counts.0, true, made)
            },
    }
}

/// Nothing counted yet.
pub open spec fn nothing_applied() -> Applied {
    Applied { documents: 0, edits: 0, opened: 0 }
}

/// Whether `after` is `before` with every share applied, in order.
pub open spec fn all_applied<
    B,
    S,
    M,
    K: Fn(&B, &Option<ActiveSnippet>, &Vec<Change>, &SelectionSet, Option<u64>, Position) -> Edited<
        B,
    >,
>(
    commit: K,
    before: Session<B, S, M>,
    after: Session<B, S, M>,
    documents: Seq<PlannedDocument>,
    shares: Seq<Share<B>>,
    group: u64,
    applied: Applied,
) -> bool
    decreases documents.len(),
{
    if documents.len() == 0 {
        after == before && applied == nothing_applied()
    } else {
        exists|mid: Session<B, S, M>, so_far: Applied|
            all_applied(
                commit,
                before,
                mid,
                documents.drop_last(),
                shares.drop_last(),
                group,
                so_far,
            ) && #[trigger] share_applied(
                commit,
                mid,
                after,
                documents.last(),
                shares.last(),
                group,
                (so_far, applied),
            )
    }
}

/// The session with the next group taken.
pub open spec fn group_taken<B, S, M>(s: Session<B, S, M>) -> Session<B, S, M> {
    Session {
        next_group: if s.next_group == u64::MAX {
            u64::MAX
        } else {
            (s.next_group + 1) as u64
        },
        ..s
    }
}

/// Whether applying the plan comes to `result`: every document's share is prepared before any is
/// applied, so a refusal leaves everything as it was; then all are applied, as one group.
pub open spec fn applies_plan<
    B,
    S,
    M,
    C: Fn(&B, Position) -> Position,
    N: Fn(&TextEdit) -> bool,
    O: Fn(&Vec<Change>) -> bool,
    K: Fn(&B, &Option<ActiveSnippet>, &Vec<Change>, &SelectionSet, Option<u64>, Position) -> Edited<
        B,
    >,
    D: Fn(&PathBuf, &String) -> Document<B>,
>(
    engine: Engine<C, N, O, K>,
    from_file: D,
    before: Session<B, S, M>,
    after: Session<B, S, M>,
    documents: Seq<PlannedDocument>,
    result: Result<Applied, WorkspaceError>,
) -> bool {
    match result {
        Err(error) => after == before && exists|i: int, shares: Seq<Share<B>>|
            {
                &&& 0 <= i < documents.len()
                &&& #[trigger] all_prepared(
                    engine,
                    from_file,
                    before,
                    documents.take(i),
                    shares,
                )
                &&& share_refused(engine, from_file, before, documents[i], error@)
            },
        Ok(applied) => plan_applied(engine, from_file, before, after, documents, applied),
    }
}

/// Whether every document's share was prepared and then applied, as one group.
pub open spec fn plan_applied<
    B,
    S,
    M,
    C: Fn(&B, Position) -> Position,
    N: Fn(&TextEdit) -> bool,
    O: Fn(&Vec<Change>) -> bool,
    K: Fn(&B, &Option<ActiveSnippet>, &Vec<Change>, &SelectionSet, Option<u64>, Position) -> Edited<
        B,
    >,
    D: Fn(&PathBuf, &String) -> Document<B>,
>(
    engine: Engine<C, N, O, K>,
    from_file: D,
    before: Session<B, S, M>,
    after: Session<B, S, M>,
    documents: Seq<PlannedDocument>,
    applied: Applied,
) -> bool {
    exists|shares: Seq<Share<B>>, made: Session<B, S, M>|
        {
            &&& #[trigger] all_prepared(engine, from_file, before, documents, shares)
            &&& #[trigger] all_applied(
                engine.commit,
                group_taken(before),
                made,
                documents,
                shares,
                before.next_group,
                applied,
            )
            &&& refreshed(laid_out(made), after)
        }
}

/// A sum of counts, which stops at what can be counted.
fn count_up(a: usize, b: usize) -> (r: usize)
    ensures
        r == counted_up(a, b),
{
    if a > usize::MAX - b {
        usize::MAX
    } else {
        a + b
    }
}

/// The counts once a document has taken part.
fn count_share(before: Applied, opened: bool, made: Option<usize>) -> (r: Applied)
    ensures
        r == counted_share(before, opened, made),
{
    let mut r: Applied = before;
    if opened {
        r.opened = count_up(r.opened, 1);
    }
    if let Some(n) = made {
        r.documents = count_up(r.documents, 1);
        r.edits = count_up(r.edits, n);
    }
    r
}

impl<B, S> Tab<B, S> {
    /// A tab opened in the background.
    fn in_background(fresh: Document<B>, width: usize, height: usize) -> (r: Tab<B, S>)
        ensures
            r.document == fresh,
            r.view.is_fresh(width, height),
            r.diagnostics@.len() == 0,
            r.semantic@.len() == 0,
            r.find.is_new(),
    {
        Tab {
            document: fresh,
            view: Viewport::fresh(width, height),
            diagnostics: Vec::new(),
            semantic: Vec::new(),
            find: Find::new(),
        }
    }

    /// Makes the prepared changes, if there are any.
    fn make_changes<
        K: Fn(&B, &Option<ActiveSnippet>, &Vec<Change>, &SelectionSet, Option<u64>, Position) -> Edited<
            B,
        >,
    >(&mut self, changes: &Option<Vec<Change>>, group: u64, commit: &K) -> (r: Option<usize>)
        requires
            forall|
                body: &B,
                snippet: &Option<ActiveSnippet>,
                changes: &Vec<Change>,
                selections: &SelectionSet,
                group: Option<u64>,
                caret: Position,
            |
                commit.requires((body, snippet, changes, selections, group, caret)),
        ensures
            changes_made(*commit, *old(self), *final(self), *changes, group, r),
            final(self).document.path == old(self).document.path,
    {
        match changes {
            None => None,
            Some(changes) => {
                let n: usize = self.commit(changes, Some(group), commit);
                Some(n)
            },
        }
    }
}

impl<B, S, M> Session<B, S, M> {
    /// Prepares one document's share.
    fn prepare<
        C: Fn(&B, Position) -> Position,
        N: Fn(&TextEdit) -> bool,
        O: Fn(&Vec<Change>) -> bool,
        K,
        D: Fn(&PathBuf, &String) -> Document<B>,
    >(&self, document: &PlannedDocument, engine: &Engine<C, N, O, K>, from_file: &D) -> (r: Result<
        Share<B>,
        WorkspaceError,
    >)
        requires
            self.tabs().len() <= usize::MAX,
            forall|body: &B, at: Position| engine.clamp.requires((body, at)),
            forall|edit: &TextEdit| engine.noop.requires((edit,)),
            forall|changes: &Vec<Change>| engine.overlaps.requires((changes,)),
            forall|path: &PathBuf, text: &String| from_file.requires((path, text)),
        ensures
            match r {
                Ok(share) => share_prepared(*engine, *from_file, *self, *document, share),
                Err(error) => share_refused(*engine, *from_file, *self, *document, error@),
            },
    {
        if document.open {
            let i: usize = self.index_at_path(&document.path);
            if i >= self.tab_count() {
                return Err(
                    WorkspaceError::Unreadable {
                        path: document.path.clone(),
                        reason: "its text was never supplied".to_owned(),
                    },
                );
            }
            let built: Result<Option<Vec<Change>>, EditError> = build_transaction(
                &self.tab_at(i).document.body,
                &document.edits,
                engine,
            );
            return match built {
                Ok(changes) => Ok(Share { fresh: None, changes }),
                Err(EditError::Overlapping) => Err(
                    WorkspaceError::Overlapping { path: document.path.clone() },
                ),
            };
        }
        match &document.contents {
            None => Err(
                WorkspaceError::Unreadable {
                    path: document.path.clone(),
                    reason: "its text was never supplied".to_owned(),
                },
            ),
            Some(text) => {
                let fresh: Document<B> = from_file(&document.path, text);
                assert(from_file.ensures((&document.path, text), fresh));
                let built: Result<Option<Vec<Change>>, EditError> = build_transaction(
                    &fresh.body,
                    &document.edits,
                    engine,
                );
                match built {
                    Ok(changes) => Ok(Share { fresh: Some(fresh), changes }),
                    Err(EditError::Overlapping) => Err(
                        WorkspaceError::Overlapping { path: document.path.clone() },
                    ),
                }
            },
        }
    }

    /// Applies one document's share, and counts it.
    fn apply_share<
        K: Fn(&B, &Option<ActiveSnippet>, &Vec<Change>, &SelectionSet, Option<u64>, Position) -> Edited<
            B,
        >,
    >(
        &mut self,
        document: &PlannedDocument,
        share: Share<B>,
        group: u64,
        commit: &K,
        so_far: Applied,
    ) -> (r: Applied)
        requires
            old(self).tabs().len() < usize::MAX,
            share.fresh is None ==> is_open(*old(self), document.path@),
            forall|
                body: &B,
                snippet: &Option<ActiveSnippet>,
                changes: &Vec<Change>,
                selections: &SelectionSet,
                group: Option<u64>,
                caret: Position,
            |
                commit.requires((body, snippet, changes, selections, group, caret)),
        ensures
            share_applied(
                *commit,
                *old(self),
                *final(self),
                *document,
                share,
                group,
                (so_far, r),
            ),
            final(self).left@.len() == old(self).left@.len(),
            old(self).tabs().len() <= final(self).tabs().len() <= old(self).tabs().len() + 1,
            forall|k: int|
                0 <= k < old(self).tabs().len() ==> (
                #[trigger] final(self).tabs()[k]).document.path
                    == old(self).tabs()[k].document.path,
    {
        let ghost before = *self;
        match share.fresh {
            None => {
                let i: usize = self.index_at_path(&document.path);
                let tab: &mut Tab<B, S> = self.tab_at_mut(i);
                let made: Option<usize> = tab.make_changes(&share.changes, group, commit);
                assert(changes_made(
                    *commit,
                    before.tabs()[i as int],
                    self.tabs()[i as int],
                    share.changes,
                    group,
                    made,
                ));
                count_share(so_far, false, made)
            },
            Some(fresh) => {
                let mut tab: Tab<B, S> = Tab::in_background(
                    fresh,
                    self.active.view.width,
                    self.active.view.height,
                );
                let ghost opened = tab;
                let made: Option<usize> = tab.make_changes(&share.changes, group, commit);
                self.right.push(tab);
                proof {
                    assert(self.right@.last() == tab);
                    assert(changes_made(
                        *commit,
                        opened,
                        self.right@.last(),
                        share.changes,
                        group,
                        made,
                    ));
                    assert(self.tabs() =~= before.tabs().push(tab));
                }
                count_share(so_far, true, made)
            },
        }
    }
}

proof fn lemma_still_open<B, S, M>(
    before: Session<B, S, M>,
    after: Session<B, S, M>,
    path: Seq<Part>,
)
    requires
        after.left@.len() == before.left@.len(),
        before.tabs().len() <= after.tabs().len(),
        forall|k: int|
            0 <= k < before.tabs().len() ==> (#[trigger] after.tabs()[k]).document.path
                == before.tabs()[k].document.path,
        is_open(before, path),
    ensures
        is_open(after, path),
{
    lemma_holding(before.tabs(), path);
    lemma_holding(after.tabs(), path);
    assert(before.tabs()[before.left@.len() as int] == before.active);
    assert(after.tabs()[after.left@.len() as int] == after.active);
    let i = tab_at_path(before, path);
    assert(is_at(before.tabs()[i].document, path));
    assert(is_at(after.tabs()[i].document, path));
}

impl<B, S, M> Session<B, S, M> {
    /// Prepares every document's share, or says why one cannot be.
    fn prepare_all<
        C: Fn(&B, Position) -> Position,
        N: Fn(&TextEdit) -> bool,
        O: Fn(&Vec<Change>) -> bool,
        K,
        D: Fn(&PathBuf, &String) -> Document<B>,
    >(
        &self,
        documents: &Vec<PlannedDocument>,
        engine: &Engine<C, N, O, K>,
        from_file: &D,
    ) -> (r: Result<Vec<Share<B>>, WorkspaceError>)
        requires
            self.tabs().len() <= usize::MAX,
            forall|body: &B, at: Position| engine.clamp.requires((body, at)),
            forall|edit: &TextEdit| engine.noop.requires((edit,)),
            forall|changes: &Vec<Change>| engine.overlaps.requires((changes,)),
            forall|path: &PathBuf, text: &String| from_file.requires((path, text)),
        ensures
            match r {
                Ok(shares) => all_prepared(*engine, *from_file, *self, documents@, shares@),
                Err(error) => exists|i: int, shares: Seq<Share<B>>|
                    {
                        &&& 0 <= i < documents@.len()
                        &&& #[trigger] all_prepared(
                            *engine,
                            *from_file,
                            *self,
                            documents@.take(i),
                            shares,
                        )
                        &&& share_refused(
                            *engine,
                            *from_file,
                            *self,
                            documents@[i],
                            error@,
                        )
                    },
            },
    {
        let mut shares: Vec<Share<B>> = Vec::new();
        let mut i: usize = 0;
        while i < documents.len()
            invariant
                i <= documents@.len(),
                self.tabs().len() <= usize::MAX,
                forall|body: &B, at: Position| engine.clamp.requires((body, at)),
                forall|edit: &TextEdit| engine.noop.requires((edit,)),
                forall|changes: &Vec<Change>| engine.overlaps.requires((changes,)),
                forall|path: &PathBuf, text: &String| from_file.requires((path, text)),
                all_prepared(
                    *engine,
                    *from_file,
                    *self,
                    documents@.take(i as int),
                    shares@,
                ),
            decreases documents@.len() - i,
        {
            let ghost so_far = shares@;
            match self.prepare(&documents[i], engine, from_file) {
                Err(error) => {
                    return Err(error);
                },
                Ok(share) => {
                    shares.push(share);
                },
            }
            proof {
                let now = documents@.take(i + 1);
                assert forall|k: int| 0 <= k < now.len() implies share_prepared(
                    *engine,
                    *from_file,
                    *self,
                    now[k],
                    #[trigger] shares@[k],
                ) by {
                    if k < i {
                        assert(shares@[k] == so_far[k]);
                        assert(documents@.take(i as int)[k] == now[k]);
                    }
                }
            }
            i = i + 1;
        }
        assert(documents@.take(i as int) =~= documents@);
        Ok(shares)
    }

    /// Applies every share, as one group, and counts them.
    fn apply_all<
        K: Fn(&B, &Option<ActiveSnippet>, &Vec<Change>, &SelectionSet, Option<u64>, Position) -> Edited<
            B,
        >,
    >(
        &mut self,
        documents: &Vec<PlannedDocument>,
        shares: Vec<Share<B>>,
        group: u64,
        commit: &K,
    ) -> (r: Applied)
        requires
            shares@.len() == documents@.len(),
            old(self).tabs().len() + documents@.len() <= usize::MAX,
            forall|i: int|
                0 <= i < documents@.len() && (#[trigger] shares@[i]).fresh is None ==> is_open(
                    *old(self),
                    documents@[i].path@,
                ),
            forall|
                body: &B,
                snippet: &Option<ActiveSnippet>,
                changes: &Vec<Change>,
                selections: &SelectionSet,
                group: Option<u64>,
                caret: Position,
            |
                commit.requires((body, snippet, changes, selections, group, caret)),
        ensures
            all_applied(
                *commit,
                *old(self),
                *final(self),
                documents@,
                shares@,
                group,
                r,
            ),
    {
        let ghost before = *self;
        let ghost all = shares@;
        let mut left: Vec<Share<B>> = shares;
        let mut applied: Applied = Applied { documents: 0, edits: 0, opened: 0 };
        let mut i: usize = 0;
        assert(all.skip(0) =~= all);
        while i < documents.len()
            invariant
                i <= documents@.len(),
                all.len() == documents@.len(),
                left@ == all.skip(i as int),
                before.tabs().len() + documents@.len() <= usize::MAX,
                forall|k: int|
                    0 <= k < documents@.len() && (#[trigger] all[k]).fresh is None ==> is_open(
                        before,
                        documents@[k].path@,
                    ),
                forall|
                    body: &B,
                    snippet: &Option<ActiveSnippet>,
                    changes: &Vec<Change>,
                    selections: &SelectionSet,
                    group: Option<u64>,
                    caret: Position,
                |
                    commit.requires((body, snippet, changes, selections, group, caret)),
                self.left@.len() == before.left@.len(),
                before.tabs().len() <= self.tabs().len() <= before.tabs().len() + i,
                forall|k: int|
                    0 <= k < before.tabs().len() ==> (#[trigger] self.tabs()[k]).document.path
                        == before.tabs()[k].document.path,
                all_applied(
                    *commit,
                    before,
                    *self,
                    documents@.take(i as int),
                    all.take(i as int),
                    group,
                    applied,
                ),
            decreases documents@.len() - i,
        {
            let ghost mid = *self;
            let ghost so_far = applied;
            let ghost share_now = all[i as int];
            proof {
                assert(documents@.take(i + 1).drop_last() =~= documents@.take(i as int));
                assert(all.take(i + 1).drop_last() =~= all.take(i as int));
                assert(left@[0] == all[i as int]);
                if share_now.fresh is None {
                    lemma_still_open(before, mid, documents@[i as int].path@);
                }
            }
            let share: Share<B> = left.remove(0);
            assert(left@ =~= all.skip(i + 1));
            applied = self.apply_share(&documents[i], share, group, commit, applied);
            assert(share_applied(
                *commit,
                mid,
                *self,
                documents@.take(i + 1).last(),
                all.take(i + 1).last(),
                group,
                (so_far, applied),
            ));
            i = i + 1;
        }
        assert(documents@.take(i as int) =~= documents@);
        assert(all.take(i as int) =~= all);
        applied
    }

    /// The next group number, which is then used up.
    fn take_group(&mut self) -> (r: u64)
        ensures
            r == old(self).next_group,
            *final(self) == group_taken(*old(self)),
    {
        let group: u64 = self.next_group;
        if self.next_group < u64::MAX {
            self.next_group = self.next_group + 1;
        }
        group
    }

    /// Applies a planned edit to every document it names, or to none. What may have changed since
    /// it was planned is checked again: a document that has been closed refuses the whole edit.
    /// `from_file` makes a document of a file that is not open, from its text.
    pub fn apply_workspace_edit<
        C: Fn(&B, Position) -> Position,
        N: Fn(&TextEdit) -> bool,
        O: Fn(&Vec<Change>) -> bool,
        K: Fn(&B, &Option<ActiveSnippet>, &Vec<Change>, &SelectionSet, Option<u64>, Position) -> Edited<
            B,
        >,
        D: Fn(&PathBuf, &String) -> Document<B>,
    >(&mut self, plan: Plan, engine: &Engine<C, N, O, K>, from_file: &D) -> (r: Result<
        Applied,
        WorkspaceError,
    >)
        requires
            old(self).tabs().len() + plan.list().len() <= usize::MAX,
            ready::<B, C, N, O, K>(*engine),
            forall|path: &PathBuf, text: &String| from_file.requires((path, text)),
        ensures
            applies_plan(*engine, *from_file, *old(self), *final(self), plan.list(), r),
    {
        let ghost before = *self;
        let documents: &Vec<PlannedDocument> = plan.planned_documents();
        let shares: Vec<Share<B>> = match self.prepare_all(documents, engine, from_file) {
            Ok(shares) => shares,
            Err(error) => {
                return Err(error);
            },
        };
        let ghost prepared = shares@;
        assert(all_prepared(*engine, *from_file, before, documents@, prepared));
        let group: u64 = self.take_group();
        let ghost start = *self;
        proof {
            assert(start.tabs() =~= before.tabs());
            assert forall|i: int|
                0 <= i < documents@.len() && (#[trigger] shares@[i]).fresh is None implies is_open(
                start,
                documents@[i].path@,
            ) by {
                assert(share_prepared(*engine, *from_file, before, documents@[i], prepared[i]));
            }
        }
        let applied: Applied = self.apply_all(documents, shares, group, &engine.commit);
        let ghost made = *self;
        assert(all_applied(
            engine.commit,
            group_taken(before),
            made,
            documents@,
            prepared,
            before.next_group,
            applied,
        ));
        self.lay_out();
        self.refresh_context();
        assert(refreshed(laid_out(made), *self));
        let r: Result<Applied, WorkspaceError> = Ok(applied);
        proof {
            assert(documents@ == plan.list());
            assert(all_prepared(*engine, *from_file, before, plan.list(), prepared));
            assert(all_applied(
                engine.commit,
                group_taken(before),
                made,
                plan.list(),
                prepared,
                before.next_group,
                applied,
            ));
            assert(plan_applied(*engine, *from_file, before, *self, plan.list(), applied));
        }
        r
    }
}

// ---------------------------------------------------------------------------
// Undoing a group
// ---------------------------------------------------------------------------

/// The group of the step that undoing, or redoing, would take next.
pub open spec fn next_group_of<B>(document: Document<B>, redo: bool) -> Option<u64> {
    if redo {
        document.redo_group
    } else {
        document.undo_group
    }
}

/// Whether `after` is `before` with its next step undone, or redone, where that step belongs to
/// the group; `done` says whether there was one. A later edit of its own keeps a document's part
/// in place until that is undone.
pub open spec fn step_undone<B, S, U: Fn(&B, bool) -> Option<(TextState<B>, SelectionSet)>>(
    step: U,
    before: Tab<B, S>,
    after: Tab<B, S>,
    group: u64,
    redo: bool,
    done: bool,
) -> bool {
    if next_group_of(before.document, redo) != Some(group) {
        after == before && !done
    } else {
        exists|result: Option<(TextState<B>, SelectionSet)>|
            #[trigger] step.ensures((&before.document.body, redo), result) && match result {
                None => !done && after == (Tab {
                    document: Document { relex: true, ..before.document },
                    ..before
                }),
                Some((text, selections)) => done && after == (Tab {
                    document: Document {
                        relex: true,
                        dirty: true,
                        ..with_text(before.document, text)
                    },
                    view: Viewport { selections, reveal: true, ..before.view },
                    ..before
                }),
            }
    }
}

/// How many of the flags are set.
pub open spec fn count_set(flags: Seq<bool>) -> nat
    decreases flags.len(),
{
    if flags.len() == 0 {
        0
    } else if flags.last() {
        count_set(flags.drop_last()) + 1
    } else {
        count_set(flags.drop_last())
    }
}

/// What undoing, or redoing, a group is reported as.
pub open spec fn group_text(redo: bool, documents: nat) -> Seq<char> {
    (if redo {
        "Redone"@
    } else {
        "Undone"@
    }) + " across "@ + (if documents == 1 {
        "1 file"@
    } else {
        decimal_of(documents) + " files"@
    })
}

/// Whether every tab's step of the group was undone, or redone, one flag for each that had one.
pub open spec fn steps_undone<B, S, U: Fn(&B, bool) -> Option<(TextState<B>, SelectionSet)>>(
    step: U,
    before: Seq<Tab<B, S>>,
    after: Seq<Tab<B, S>>,
    group: u64,
    redo: bool,
    flags: Seq<bool>,
) -> bool {
    &&& after.len() == before.len()
    &&& flags.len() == before.len()
    &&& forall|i: int|
        0 <= i < before.len() ==> step_undone(
            step,
            before[i],
            after[i],
            group,
            redo,
            #[trigger] flags[i],
        )
}

/// Whether undoing, or redoing, the group in every document that took part comes to `outcome`.
pub open spec fn undoes_group<B, S, M, U: Fn(&B, bool) -> Option<(TextState<B>, SelectionSet)>>(
    step: U,
    before: Session<B, S, M>,
    after: Session<B, S, M>,
    group: u64,
    redo: bool,
    outcome: Outcome,
) -> bool {
    exists|mid: Session<B, S, M>, flags: Seq<bool>|
        {
            &&& #[trigger] steps_undone(step, before.tabs(), mid.tabs(), group, redo, flags)
            &&& mid.left@.len() == before.left@.len()
            &&& mid == (Session { left: mid.left, active: mid.active, right: mid.right, ..before })
            &&& after == laid_out(mid)
            &&& outcome.says(group_text(redo, count_set(flags)))
        }
}

impl<B, S> Tab<B, S> {
    /// Undoes, or redoes, the next step where it belongs to the group, and says whether there was
    /// one.
    fn undo_step<U: Fn(&B, bool) -> Option<(TextState<B>, SelectionSet)>>(
        &mut self,
        group: u64,
        redo: bool,
        step: &U,
    ) -> (r: bool)
        requires
            forall|body: &B, redo: bool| step.requires((body, redo)),
        ensures
            step_undone(*step, *old(self), *final(self), group, redo, r),
    {
        let ghost before = *self;
        let next: Option<u64> = if redo {
            self.document.redo_group
        } else {
            self.document.undo_group
        };
        let shared: bool = match next {
            Some(own) => own == group,
            None => false,
        };
        if !shared {
            return false;
        }
        let result: Option<(TextState<B>, SelectionSet)> = step(&self.document.body, redo);
        assert(step.ensures((&before.document.body, redo), result));
        self.document.relex = true;
        match result {
            None => false,
            Some((text, selections)) => {
                self.document.set_text(text);
                self.document.dirty = true;
                self.view.selections = selections;
                self.view.reveal = true;
                true
            },
        }
    }
}

impl<B, S, M> Session<B, S, M> {
    /// Undoes, or redoes, the steps of the group in every tab, and counts them.
    fn undo_steps<U: Fn(&B, bool) -> Option<(TextState<B>, SelectionSet)>>(
        &mut self,
        group: u64,
        redo: bool,
        step: &U,
    ) -> (r: (usize, Ghost<Seq<bool>>))
        requires
            old(self).tabs().len() <= usize::MAX,
            forall|body: &B, redo: bool| step.requires((body, redo)),
        ensures
            steps_undone(*step, old(self).tabs(), final(self).tabs(), group, redo, r.1@),
            final(self).left@.len() == old(self).left@.len(),
            *final(self) == (Session {
                left: final(self).left,
                active: final(self).active,
                right: final(self).right,
                ..*old(self)
            }),
            r.0 == count_set(r.1@),
    {
        let ghost before = *self;
        let ghost mut flags: Seq<bool> = Seq::empty();
        let count: usize = self.tab_count();
        let mut n: usize = 0;
        let mut i: usize = 0;
        while i < count
            invariant
                i <= count,
                n <= i,
                count == before.tabs().len(),
                self.tabs().len() == count,
                count <= usize::MAX,
                flags.len() == i,
                n == count_set(flags),
                forall|body: &B, redo: bool| step.requires((body, redo)),
                self.left@.len() == before.left@.len(),
                *self == (Session {
                    left: self.left,
                    active: self.active,
                    right: self.right,
                    ..before
                }),
                forall|k: int| i <= k < count ==> self.tabs()[k] == before.tabs()[k],
                forall|k: int|
                    0 <= k < i ==> step_undone(
                        *step,
                        before.tabs()[k],
                        self.tabs()[k],
                        group,
                        redo,
                        #[trigger] flags[k],
                    ),
            decreases count - i,
        {
            let ghost now = self.tabs();
            let ghost flags_now = flags;
            let tab: &mut Tab<B, S> = self.tab_at_mut(i);
            let done: bool = tab.undo_step(group, redo, step);
            proof {
                flags = flags.push(done);
                assert(flags.drop_last() =~= flags_now);
                assert forall|k: int| 0 <= k < i + 1 implies step_undone(
                    *step,
                    before.tabs()[k],
                    self.tabs()[k],
                    group,
                    redo,
                    #[trigger] flags[k],
                ) by {
                    if k < i {
                        assert(flags[k] == flags_now[k]);
                        assert(self.tabs()[k] == now[k]);
                    }
                }
            }
            if done {
                n = n + 1;
            }
            i = i + 1;
        }
        (n, Ghost(flags))
    }

    /// Undoes, or redoes, a change that several documents share, in every one that took part.
    pub fn undo_group<U: Fn(&B, bool) -> Option<(TextState<B>, SelectionSet)>>(
        &mut self,
        group: u64,
        redo: bool,
        step: &U,
    ) -> (r: Outcome)
        requires
            old(self).tabs().len() <= usize::MAX,
            forall|body: &B, redo: bool| step.requires((body, redo)),
        ensures
            undoes_group(*step, *old(self), *final(self), group, redo, r),
    {
        let (n, flags): (usize, Ghost<Seq<bool>>) = self.undo_steps(group, redo, step);
        let ghost mid = *self;
        assert(steps_undone(*step, old(self).tabs(), mid.tabs(), group, redo, flags@));
        self.lay_out();
        let mut message: String = if redo {
            "Redone".to_owned()
        } else {
            "Undone".to_owned()
        };
        message.append(" across ");
        if n == 1 {
            message.append("1 file");
        } else {
            let number: String = decimal(n as u64);
            message.append(number.as_str());
            message.append(" files");
        }
        assert(message@ =~= group_text(redo, n as nat));
        Outcome::Message(message)
    }
}

// ---------------------------------------------------------------------------
// Files that changed outside the editor
// ---------------------------------------------------------------------------

/// The document in place of one whose file changed: a language and a wrapping that were chosen by
/// hand stay, because they belong to the tab.
pub open spec fn reloaded<B>(old_document: Document<B>, fresh: Document<B>) -> Document<B> {
    let named = if old_document.language_pinned {
        Document {
            language_id: old_document.language_id,
            language_pinned: true,
            relex: true,
            ..fresh
        }
    } else {
        fresh
    };
    Document {
        wrap_override: old_document.wrap_override,
        settings: match old_document.wrap_override {
            Some(wrap) => EditorSettings { word_wrap: wrap, ..fresh.settings },
            None => fresh.settings,
        },
        ..named
    }
}

/// Whether `after` is `before` with its document replaced by the file as it is now, and the caret
/// where it was, inside it.
pub open spec fn tab_reloaded<
    B,
    S,
    D: Fn(&Option<String>) -> Document<B>,
    C: Fn(&B, Position) -> Position,
>(fresh: D, clamp: C, before: Tab<B, S>, after: Tab<B, S>) -> bool {
    exists|document: Document<B>, cursor: Position|
        {
            &&& #[trigger] fresh.ensures((&before.document.language_id,), document)
            &&& #[trigger] clamp.ensures(
                (&document.body, before.view.selections.primary.active),
                cursor,
            )
            &&& after == (Tab {
                document: reloaded(before.document, document),
                view: after.view,
                ..before
            })
            &&& after.view == (Viewport {
                selections: after.view.selections,
                reveal: true,
                ..before.view
            })
            &&& after.view.selections.is_single(Selection { anchor: cursor, active: cursor })
        }
}

/// Whether `after` is `before` with the file reloaded where it is open, all that is derived not
/// yet brought up to date. What was published for it and what was known to be committed is gone.
pub open spec fn file_reloaded<
    B,
    S,
    M,
    D: Fn(&Option<String>) -> Document<B>,
    C: Fn(&B, Position) -> Position,
>(
    fresh: D,
    clamp: C,
    before: Session<B, S, M>,
    after: Session<B, S, M>,
    path: Seq<Part>,
) -> bool {
    let i = tab_at_path(before, path);
    let k = tab_holding(before.tabs(), path);
    exists|mid: Seq<Tab<B, S>>|
        {
            &&& mid.len() == before.tabs().len()
            &&& #[trigger] tab_reloaded(fresh, clamp, before.tabs()[i], mid[i])
            &&& mid == before.tabs().update(i, mid[i])
            &&& after.tabs() == mid.update(k, after.tabs()[k])
            &&& after.tabs()[k] == (Tab {
                diagnostics: after.tabs()[k].diagnostics,
                semantic: after.tabs()[k].semantic,
                ..mid[k]
            })
            &&& after.tabs()[k].diagnostics@.len() == 0
            &&& after.tabs()[k].semantic@.len() == 0
            &&& after.left@.len() == before.left@.len()
            &&& after.scm.committed@.len() == 0
            &&& after == (Session {
                left: after.left,
                active: after.active,
                right: after.right,
                scm: Repository { committed: after.scm.committed, ..before.scm },
                ..before
            })
        }
}

impl<B, S> Tab<B, S> {
    /// Replaces the document by the file as it is now.
    fn reload<D: Fn(&Option<String>) -> Document<B>, C: Fn(&B, Position) -> Position>(
        &mut self,
        fresh: &D,
        clamp: &C,
    )
        requires
            forall|language: &Option<String>| fresh.requires((language,)),
            forall|body: &B, at: Position| clamp.requires((body, at)),
        ensures
            tab_reloaded(*fresh, *clamp, *old(self), *final(self)),
    {
        let ghost before = *self;
        let pinned: bool = self.document.language_pinned;
        let language: Option<String> = clone_text(&self.document.language_id);
        let wrap: Option<WordWrap> = self.document.wrap_override;
        let mut replacement: Document<B> = fresh(&self.document.language_id);
        let ghost made = replacement;
        assert(fresh.ensures((&before.document.language_id,), made));
        let cursor: Position = clamp(&replacement.body, self.view.selections.primary.active);
        assert(clamp.ensures((&made.body, before.view.selections.primary.active), cursor));
        if pinned {
            replacement.language_id = language;
            replacement.language_pinned = true;
            replacement.relex = true;
        }
        replacement.wrap_override = wrap;
        if let Some(wrap) = wrap {
            replacement.settings.word_wrap = wrap;
        }
        self.document = replacement;
        self.view.selections = SelectionSet::caret(cursor);
        self.view.reveal = true;
    }
}

impl<B, S, M> Session<B, S, M> {
    /// Replaces the open document at `path` by the file as it is now, and says whether one was
    /// open. `fresh` makes a document of the file, for a language; its history is its own.
    pub fn reload_open<D: Fn(&Option<String>) -> Document<B>, C: Fn(&B, Position) -> Position>(
        &mut self,
        path: &PathBuf,
        fresh: &D,
        clamp: &C,
    ) -> (r: bool)
        requires
            old(self).tabs().len() <= usize::MAX,
            forall|language: &Option<String>| fresh.requires((language,)),
            forall|body: &B, at: Position| clamp.requires((body, at)),
        ensures
            r == is_open(*old(self), path@),
            !r ==> *final(self) == *old(self),
            r ==> exists|mid: Session<B, S, M>|
                #![trigger refreshed(laid_out(mid), *final(self))]
                file_reloaded(*fresh, *clamp, *old(self), mid, path@) && refreshed(
                    laid_out(mid),
                    *final(self),
                ),
    {
        let ghost before = *self;
        proof {
            lemma_holding(before.tabs(), path@);
            assert(before.tabs()[before.left@.len() as int] == before.active);
        }
        let k: usize = match self.tab_of(path) {
            Some(k) => k,
            None => {
                return false;
            },
        };
        let i: usize = self.index_at_path(path);
        let tab: &mut Tab<B, S> = self.tab_at_mut(i);
        tab.reload(fresh, clamp);
        let ghost mid = self.tabs();
        assert(tab_reloaded(*fresh, *clamp, before.tabs()[i as int], mid[i as int]));
        self.clear_analysis_of_tab(k);
        self.scm.committed = Vec::new();
        let ghost made = *self;
        assert(file_reloaded(*fresh, *clamp, before, made, path@));
        self.lay_out();
        self.refresh_context();
        assert(refreshed(laid_out(made), *self));
        true
    }
}

// ---------------------------------------------------------------------------
// Laws
// ---------------------------------------------------------------------------

/// A plan that is refused changes no document and opens no tab.
pub proof fn law_a_refused_plan_changes_nothing<
    B,
    S,
    M,
    C: Fn(&B, Position) -> Position,
    N: Fn(&TextEdit) -> bool,
    O: Fn(&Vec<Change>) -> bool,
    K: Fn(&B, &Option<ActiveSnippet>, &Vec<Change>, &SelectionSet, Option<u64>, Position) -> Edited<
        B,
    >,
    D: Fn(&PathBuf, &String) -> Document<B>,
>(
    engine: Engine<C, N, O, K>,
    from_file: D,
    before: Session<B, S, M>,
    after: Session<B, S, M>,
    documents: Seq<PlannedDocument>,
    error: WorkspaceError,
)
    requires
        applies_plan(engine, from_file, before, after, documents, Err(error)),
    ensures
        after == before,
{
}

/// A plan that has gone stale is refused, and nothing is changed: one of the documents that were
/// open when it was made has been closed since.
pub proof fn law_a_stale_plan_is_refused<
    B,
    S,
    M,
    C: Fn(&B, Position) -> Position,
    N: Fn(&TextEdit) -> bool,
    O: Fn(&Vec<Change>) -> bool,
    K: Fn(&B, &Option<ActiveSnippet>, &Vec<Change>, &SelectionSet, Option<u64>, Position) -> Edited<
        B,
    >,
    D: Fn(&PathBuf, &String) -> Document<B>,
>(
    engine: Engine<C, N, O, K>,
    from_file: D,
    before: Session<B, S, M>,
    after: Session<B, S, M>,
    documents: Seq<PlannedDocument>,
    result: Result<Applied, WorkspaceError>,
    i: int,
)
    requires
        applies_plan(engine, from_file, before, after, documents, result),
        0 <= i < documents.len(),
        documents[i].open,
        !is_open(before, documents[i].path@),
    ensures
        result is Err,
        after == before,
{
    if result is Ok {
        let (shares, made) = choose|shares: Seq<Share<B>>, made: Session<B, S, M>|
            {
                &&& #[trigger] all_prepared(engine, from_file, before, documents, shares)
                &&& #[trigger] all_applied(
                    engine.commit,
                    group_taken(before),
                    made,
                    documents,
                    shares,
                    before.next_group,
                    result->Ok_0,
                )
            };
        assert(share_prepared(engine, from_file, before, documents[i], shares[i]));
    }
}

/// Applying shares keeps every open document's file, and closes no tab.
pub proof fn law_applying_closes_nothing<
    B,
    S,
    M,
    K: Fn(&B, &Option<ActiveSnippet>, &Vec<Change>, &SelectionSet, Option<u64>, Position) -> Edited<
        B,
    >,
>(
    commit: K,
    before: Session<B, S, M>,
    after: Session<B, S, M>,
    documents: Seq<PlannedDocument>,
    shares: Seq<Share<B>>,
    group: u64,
    applied: Applied,
)
    requires
        all_applied(commit, before, after, documents, shares, group, applied),
        shares.len() == documents.len(),
        forall|i: int|
            0 <= i < documents.len() && (#[trigger] shares[i]).fresh is None ==> is_open(
                before,
                documents[i].path@,
            ),
    ensures
        after.left@.len() == before.left@.len(),
        before.tabs().len() <= after.tabs().len(),
        forall|k: int|
            0 <= k < before.tabs().len() ==> (#[trigger] after.tabs()[k]).document.path
                == before.tabs()[k].document.path,
    decreases documents.len(),
{
    if documents.len() > 0 {
        let (mid, so_far) = choose|mid: Session<B, S, M>, so_far: Applied|
            all_applied(
                commit,
                before,
                mid,
                documents.drop_last(),
                shares.drop_last(),
                group,
                so_far,
            ) && #[trigger] share_applied(
                commit,
                mid,
                after,
                documents.last(),
                shares.last(),
                group,
                (so_far, applied),
            );
        assert forall|i: int|
            0 <= i < documents.drop_last().len() && (
            #[trigger] shares.drop_last()[i]).fresh is None implies is_open(
            before,
            documents.drop_last()[i].path@,
        ) by {
            assert(shares.drop_last()[i] == shares[i]);
        }
        law_applying_closes_nothing(
            commit,
            before,
            mid,
            documents.drop_last(),
            shares.drop_last(),
            group,
            so_far,
        );
        let last = shares[documents.len() - 1];
        if last.fresh is None {
            lemma_still_open(before, mid, documents.last().path@);
            lemma_holding(mid.tabs(), documents.last().path@);
        } else {
            assert(after.tabs() =~= mid.tabs().push(after.right@.last()));
        }
    }
}

/// A document whose next step belongs to another change is not touched by undoing a group.
pub proof fn law_undoing_leaves_later_edits_alone<
    B,
    S,
    U: Fn(&B, bool) -> Option<(TextState<B>, SelectionSet)>,
>(step: U, before: Tab<B, S>, after: Tab<B, S>, group: u64, redo: bool, done: bool)
    requires
        step_undone(step, before, after, group, redo, done),
        next_group_of(before.document, redo) != Some(group),
    ensures
        after == before,
{
}

/// A language chosen by hand and a wrapping chosen from the keyboard outlive a reload.
pub proof fn law_choices_outlive_a_reload<B>(old_document: Document<B>, fresh: Document<B>)
    ensures
        old_document.language_pinned ==> reloaded(old_document, fresh).language_id
            == old_document.language_id && reloaded(old_document, fresh).language_pinned,
        reloaded(old_document, fresh).wrap_override == old_document.wrap_override,
        old_document.wrap_override matches Some(wrap) ==> reloaded(
            old_document,
            fresh,
        ).settings.word_wrap == wrap,
        reloaded(old_document, fresh).body == fresh.body,
{
}

} // verus!
