//! One edit across several documents, applied all at once or not at all.
//!
//! Half a rename leaves a project that does not build, and if the parts were separate undo steps
//! no single undo would restore it. So everything is checked before anything is changed: every
//! document is resolved, every stated version is checked, and every document's changes are built.
//! A failure at any point leaves the session unchanged. Then everything is applied, under one
//! shared group, so that undoing in any of the documents reverts the whole edit.
//!
//! Files that are not open are opened as background tabs with unsaved changes instead of being
//! written. The frontend supplies their text: a [`Plan`] lists the paths it needs and
//! [`Plan::with_contents`] receives it.

use vstd::prelude::*;
use crate::editing::TextEdit;
#[allow(unused_imports)]
use crate::editing::{replacements, Replacement};
use crate::path::{normalise, PathBuf};
#[allow(unused_imports)]
use crate::path::{normal_parts, Part};
use crate::text::decimal;
#[allow(unused_imports)]
use crate::text::{decimal_of, view_of};

verus! {

/// Why a workspace edit was refused. Every variant means nothing was changed.
#[derive(Debug, Clone, PartialEq, Eq)]
pub enum WorkspaceError {
    /// A URI that does not name a file on this machine.
    ///
    /// The whole edit is rejected rather than skipping the document, because the remaining edits
    /// are only valid as a complete change.
    NotAFile(String),
    /// The document changed after the server computed the edit.
    Stale {
        /// Which document.
        path: PathBuf,
        /// The version the server was working from.
        expected: i64,
        /// The version the document is actually at.
        actual: i64,
    },
    /// Two edits for one document covered the same text.
    Overlapping {
        /// Which document.
        path: PathBuf,
    },
    /// A file the edit needs was not open and its text was not supplied.
    Unreadable {
        /// Which document.
        path: PathBuf,
        /// What the frontend said went wrong.
        reason: String,
    },
    /// A replace-in-files query is not a valid regular expression.
    InvalidPattern(String),
}

/// A [`WorkspaceError`], as a value in contracts.
#[verifier::ext_equal]
pub enum Fault {
    NotAFile(Seq<char>),
    Stale { path: PathBuf, expected: i64, actual: i64 },
    Overlapping { path: PathBuf },
    Unreadable { path: PathBuf, reason: Seq<char> },
    InvalidPattern(Seq<char>),
}

impl View for WorkspaceError {
    type V = Fault;

    open spec fn view(&self) -> Fault {
        match self {
            WorkspaceError::NotAFile(uri) => Fault::NotAFile(uri@),
            WorkspaceError::Stale { path, expected, actual } => Fault::Stale {
                path: *path,
                expected: *expected,
                actual: *actual,
            },
            WorkspaceError::Overlapping { path } => Fault::Overlapping { path: *path },
            WorkspaceError::Unreadable { path, reason } => Fault::Unreadable {
                path: *path,
                reason: reason@,
            },
            WorkspaceError::InvalidPattern(error) => Fault::InvalidPattern(error@),
        }
    }
}

/// What the error says.
pub open spec fn fault_text(fault: Fault) -> Seq<char> {
    match fault {
        Fault::NotAFile(uri) => "the server sent an edit for `"@ + uri
            + "`, which is not a file deco can open"@,
        Fault::Stale { path, .. } => "`"@ + path.text@
            + "` has changed since the server read it — nothing was renamed"@,
        Fault::Overlapping { path } => "the server sent overlapping edits for `"@ + path.text@
            + "`, which have no well-defined result"@,
        Fault::Unreadable { path, reason } => "`"@ + path.text@ + "` could not be read: "@ + reason,
        Fault::InvalidPattern(error) => error,
    }
}

impl WorkspaceError {
    /// What the error says.
    pub fn message(&self) -> (r: String)
        ensures
            r@ == fault_text(self@),
    {
        match self {
            WorkspaceError::NotAFile(uri) => {
                let mut r: String = "the server sent an edit for `".to_owned();
                r.append(uri.as_str());
                r.append("`, which is not a file deco can open");
                r
            },
            WorkspaceError::Stale { path, .. } => {
                let mut r: String = "`".to_owned();
                r.append(path.display());
                r.append("` has changed since the server read it — nothing was renamed");
                r
            },
            WorkspaceError::Overlapping { path } => {
                let mut r: String = "the server sent overlapping edits for `".to_owned();
                r.append(path.display());
                r.append("`, which have no well-defined result");
                r
            },
            WorkspaceError::Unreadable { path, reason } => {
                let mut r: String = "`".to_owned();
                r.append(path.display());
                r.append("` could not be read: ");
                r.append(reason.as_str());
                r
            },
            WorkspaceError::InvalidPattern(error) => error.clone(),
        }
    }
}

/// One document's share of an edit as a server sent it, with what the caller found out about it.
#[derive(Debug)]
pub struct DocumentChange {
    /// The document, as the server names it.
    pub uri: String,
    /// Where the file is, if the name stands for a file on this machine.
    pub path: Option<PathBuf>,
    /// The version the server computed against, when it said.
    pub version: Option<i64>,
    /// The version last sent to the server, for a document that is tracked.
    pub actual: Option<i64>,
    /// What to change.
    pub edits: Vec<TextEdit>,
}

/// One document's share of a workspace edit, resolved to a path.
#[derive(Debug, Clone)]
pub struct PlannedDocument {
    /// Where the file is.
    pub path: PathBuf,
    /// The version the server computed against, when it said.
    pub version: Option<i64>,
    /// What to change.
    pub edits: Vec<TextEdit>,
    /// Whether a tab already holds this file.
    pub open: bool,
    /// The text to start from, for a file no tab holds.
    ///
    /// Filled in by [`Plan::with_contents`]. `None` for a file that is already open, because its
    /// buffer is the starting point: editing from the text on disk would discard unsaved changes.
    pub contents: Option<String>,
}

/// A [`PlannedDocument`], as a value in contracts.
#[verifier::ext_equal]
pub struct Planned {
    pub path: PathBuf,
    pub version: Option<i64>,
    pub edits: Seq<Replacement>,
    pub open: bool,
    pub contents: Option<Seq<char>>,
}

impl View for PlannedDocument {
    type V = Planned;

    open spec fn view(&self) -> Planned {
        Planned {
            path: self.path,
            version: self.version,
            edits: replacements(self.edits@),
            open: self.open,
            contents: view_of(self.contents),
        }
    }
}

/// The planned documents of a list.
pub open spec fn planned(list: Seq<PlannedDocument>) -> Seq<Planned> {
    Seq::new(list.len(), |i: int| list[i]@)
}

/// Whether one of `open` is the same file as `path`, once both are resolved.
pub open spec fn held(open: Seq<PathBuf>, path: Seq<Part>) -> bool {
    exists|i: int|
        0 <= i < open.len() && normal_parts((#[trigger] open[i])@) == normal_parts(path)
}

/// The place of `path` among the planned documents; their number where it is not among them.
pub open spec fn planned_at(docs: Seq<Planned>, path: Seq<Part>) -> int
    decreases docs.len(),
{
    if docs.len() == 0 {
        0
    } else if docs[0].path@ == path {
        0
    } else {
        1 + planned_at(docs.skip(1), path)
    }
}

/// The plan with one more change.
///
/// A stated version that is not the document's own is refused; where either side states none, no
/// check is made. Changes for one file are merged.
pub open spec fn with_change(
    docs: Seq<Planned>,
    change: DocumentChange,
    open: Seq<PathBuf>,
) -> Result<Seq<Planned>, Fault> {
    match change.path {
        None => Err(Fault::NotAFile(change.uri@)),
        Some(path) => match (change.version, change.actual) {
            (Some(expected), Some(actual)) if expected != actual => Err(
                Fault::Stale { path, expected, actual },
            ),
            _ => {
                let i = planned_at(docs, path@);
                if i < docs.len() {
                    Ok(
                        docs.update(
                            i,
                            Planned {
                                edits: docs[i].edits + replacements(change.edits@),
                                ..docs[i]
                            },
                        ),
                    )
                } else {
                    Ok(
                        docs.push(
                            Planned {
                                path,
                                version: change.version,
                                edits: replacements(change.edits@),
                                open: held(open, path@),
                                contents: None,
                            },
                        ),
                    )
                }
            },
        },
    }
}

/// The plan of a list of changes, or the first thing wrong with it.
pub open spec fn plan_of(changes: Seq<DocumentChange>, open: Seq<PathBuf>) -> Result<
    Seq<Planned>,
    Fault,
>
    decreases changes.len(),
{
    if changes.len() == 0 {
        Ok(Seq::empty())
    } else {
        match plan_of(changes.drop_last(), open) {
            Ok(docs) => with_change(docs, changes.last(), open),
            Err(fault) => Err(fault),
        }
    }
}

/// A copy of a list of edits.
pub fn copy_edits(list: &Vec<TextEdit>) -> (r: Vec<TextEdit>)
    ensures
        replacements(r@) == replacements(list@),
        r@ == list@,
{
    let mut r: Vec<TextEdit> = Vec::new();
    let mut i: usize = 0;
    while i < list.len()
        invariant
            i <= list@.len(),
            r@ == list@.take(i as int),
        decreases list@.len() - i,
    {
        r.push(TextEdit { range: list[i].range, new_text: list[i].new_text.clone() });
        i = i + 1;
        assert(r@ =~= list@.take(i as int));
    }
    assert(r@ =~= list@);
    r
}

/// Whether one of `open` is the same file as `path`, once both are resolved.
fn is_held(open: &Vec<PathBuf>, path: &PathBuf) -> (r: bool)
    ensures
        r == held(open@, path@),
{
    let wanted: PathBuf = normalise(path);
    let mut i: usize = 0;
    while i < open.len()
        invariant
            i <= open@.len(),
            wanted@ == normal_parts(path@),
            forall|j: int|
                0 <= j < i ==> normal_parts((#[trigger] open@[j])@) != normal_parts(path@),
        decreases open@.len() - i,
    {
        let one: PathBuf = normalise(&open[i]);
        if one.same_as(&wanted) {
            assert(normal_parts(open@[i as int]@) == normal_parts(path@));
            return true;
        }
        i = i + 1;
    }
    false
}

proof fn lemma_planned_at(docs: Seq<Planned>, path: Seq<Part>, k: int)
    requires
        0 <= k <= docs.len(),
        forall|j: int| 0 <= j < k ==> (#[trigger] docs[j]).path@ != path,
        k < docs.len() ==> docs[k].path@ == path,
    ensures
        planned_at(docs, path) == k,
    decreases docs.len(),
{
    if docs.len() > 0 && k > 0 {
        let rest = docs.skip(1);
        assert forall|j: int| 0 <= j < k - 1 implies (#[trigger] rest[j]).path@ != path by {
            assert(rest[j] == docs[j + 1]);
        }
        if k < docs.len() {
            assert(rest[k - 1] == docs[k]);
        }
        assert(docs[0].path@ != path);
        lemma_planned_at(rest, path, k - 1);
    }
}

/// A workspace edit, checked as far as it can be without touching a document.
///
/// The session checks again everything that could have
/// changed in the meantime, so a plan can be passed to a frontend to fill in and then returned.
#[derive(Debug, Clone)]
pub struct Plan {
    documents: Vec<PlannedDocument>,
}

impl View for Plan {
    type V = Seq<Planned>;

    open spec fn view(&self) -> Seq<Planned> {
        planned(self.list())
    }
}

impl Plan {
    /// The planned documents, in contracts.
    pub closed spec fn list(&self) -> Seq<PlannedDocument> {
        self.documents@
    }
}

/// The planned documents that no tab holds, in order.
pub open spec fn missing_of(docs: Seq<Planned>) -> Seq<PathBuf>
    decreases docs.len(),
{
    if docs.len() == 0 {
        Seq::empty()
    } else if docs.last().open {
        missing_of(docs.drop_last())
    } else {
        missing_of(docs.drop_last()).push(docs.last().path)
    }
}

/// How many replacements there are in total.
pub open spec fn edit_count(docs: Seq<Planned>) -> nat
    decreases docs.len(),
{
    if docs.len() == 0 {
        0
    } else {
        edit_count(docs.drop_last()) + docs.last().edits.len()
    }
}

proof fn lemma_edit_count_prefix(docs: Seq<Planned>, n: int)
    requires
        0 <= n <= docs.len(),
    ensures
        edit_count(docs.take(n)) <= edit_count(docs),
    decreases docs.len(),
{
    if n == docs.len() {
        assert(docs.take(n) =~= docs);
    } else {
        lemma_edit_count_prefix(docs.drop_last(), n);
        assert(docs.drop_last().take(n) =~= docs.take(n));
    }
}

/// Whether `read` may answer `answer` about the path.
pub open spec fn read_gives<R: Fn(&PathBuf) -> Result<String, String>>(
    read: R,
    path: PathBuf,
    answer: Result<String, String>,
) -> bool {
    read.ensures((&path,), answer)
}

/// Whether `read` may give a text for the path.
pub open spec fn was_read<R: Fn(&PathBuf) -> Result<String, String>>(read: R, path: PathBuf) -> bool {
    exists|text: String| #[trigger] read_gives(read, path, Ok(text))
}

/// Whether `after` is `before` with its text supplied by `read`, if it needs one.
pub open spec fn supplied<R: Fn(&PathBuf) -> Result<String, String>>(
    read: R,
    before: Planned,
    after: Planned,
) -> bool {
    if before.open {
        after == before
    } else {
        &&& after == (Planned { contents: after.contents, ..before })
        &&& exists|text: String|
            read_gives(read, before.path, Ok(text)) && after.contents == Some(#[trigger] text@)
    }
}

impl Plan {
    /// Resolves changes against what is open.
    pub fn build(changes: &Vec<DocumentChange>, open: &Vec<PathBuf>) -> (r: Result<
        Plan,
        WorkspaceError,
    >)
        ensures
            match r {
                Ok(plan) => plan_of(changes@, open@) == Ok::<Seq<Planned>, Fault>(plan@),
                Err(error) => plan_of(changes@, open@) == Err::<Seq<Planned>, Fault>(error@),
            },
    {
        let mut documents: Vec<PlannedDocument> = Vec::new();
        let mut i: usize = 0;
        assert(planned(documents@) =~= Seq::empty());
        while i < changes.len()
            invariant
                i <= changes@.len(),
                plan_of(changes@.take(i as int), open@) == Ok::<Seq<Planned>, Fault>(
                    planned(documents@),
                ),
            decreases changes@.len() - i,
        {
            let change: &DocumentChange = &changes[i];
            let ghost before = planned(documents@);
            proof {
                assert(changes@.take(i + 1).drop_last() =~= changes@.take(i as int));
                lemma_plan_fails(changes@, open@, i + 1);
            }
            match &change.path {
                None => {
                    return Err(WorkspaceError::NotAFile(change.uri.clone()));
                },
                Some(path) => {
                    if let (Some(expected), Some(actual)) = (change.version, change.actual) {
                        if expected != actual {
                            return Err(
                                WorkspaceError::Stale { path: path.clone(), expected, actual },
                            );
                        }
                    }
                    let mut k: usize = 0;
                    while k < documents.len() && !documents[k].path.same_as(path)
                        invariant
                            k <= documents@.len(),
                            before == planned(documents@),
                            forall|j: int|
                                0 <= j < k ==> (#[trigger] before[j]).path@ != path@,
                        decreases documents@.len() - k,
                    {
                        k = k + 1;
                    }
                    proof {
                        lemma_planned_at(before, path@, k as int);
                    }
                    let mut edits: Vec<TextEdit> = copy_edits(&change.edits);
                    if k < documents.len() {
                        let mut seen: PlannedDocument = documents.remove(k);
                        let ghost earlier = seen@.edits;
                        let ghost more = replacements(edits@);
                        seen.edits.append(&mut edits);
                        proof {
                            assert(seen@.edits =~= earlier + more);
                            assert(seen@ =~= Planned { edits: earlier + more, ..before[k as int] });
                        }
                        let ghost merged = seen@;
                        documents.insert(k, seen);
                        assert(planned(documents@) =~= before.update(k as int, merged));
                    } else {
                        let document: PlannedDocument = PlannedDocument {
                            open: is_held(open, path),
                            path: path.clone(),
                            version: change.version,
                            edits,
                            contents: None,
                        };
                        let ghost added = document@;
                        documents.push(document);
                        assert(planned(documents@) =~= before.push(added));
                    }
                },
            }
            i = i + 1;
        }
        assert(changes@.take(changes@.len() as int) =~= changes@);
        Ok(Plan { documents })
    }

    /// A plan whose documents were worked out by the caller: there are no names to resolve and
    /// no versions to check.
    pub fn from_documents(documents: Vec<PlannedDocument>) -> (r: Plan)
        ensures
            r.list() == documents@,
    {
        Plan { documents }
    }

    /// The files this edit needs that no tab holds, in order.
    ///
    /// The frontend reads these before calling [`Plan::with_contents`].
    pub fn missing(&self) -> (r: Vec<&PathBuf>)
        ensures
            Seq::new(r@.len(), |i: int| *r@[i]) == missing_of(self@),
    {
        let mut r: Vec<&PathBuf> = Vec::new();
        let mut i: usize = 0;
        assert(Seq::new(r@.len(), |k: int| *r@[k]) =~= missing_of(self@.take(0)));
        while i < self.documents.len()
            invariant
                i <= self.documents@.len(),
                Seq::new(r@.len(), |k: int| *r@[k]) == missing_of(self@.take(i as int)),
            decreases self.documents@.len() - i,
        {
            let ghost before = Seq::new(r@.len(), |k: int| *r@[k]);
            proof {
                assert(self@.take(i + 1).drop_last() =~= self@.take(i as int));
            }
            if !self.documents[i].open {
                r.push(&self.documents[i].path);
                assert(Seq::new(r@.len(), |k: int| *r@[k]) =~= before.push(
                    self.documents@[i as int].path,
                ));
            }
            i = i + 1;
        }
        assert(self@.take(self@.len() as int) =~= self@);
        r
    }

    /// Every file the edit touches, open or not.
    pub fn paths(&self) -> (r: Vec<&PathBuf>)
        ensures
            Seq::new(r@.len(), |i: int| *r@[i]) == Seq::new(self@.len(), |i: int| self@[i].path),
    {
        let mut r: Vec<&PathBuf> = Vec::new();
        let mut i: usize = 0;
        while i < self.documents.len()
            invariant
                i <= self.documents@.len(),
                r@.len() == i,
                forall|j: int| 0 <= j < i ==> *(#[trigger] r@[j]) == self.documents@[j].path,
            decreases self.documents@.len() - i,
        {
            r.push(&self.documents[i].path);
            i = i + 1;
        }
        assert(Seq::new(r@.len(), |k: int| *r@[k]) =~= Seq::new(
            self@.len(),
            |k: int| self@[k].path,
        ));
        r
    }

    /// How many documents take part.
    pub fn documents(&self) -> (r: usize)
        ensures
            r == self@.len(),
    {
        self.documents.len()
    }

    /// How many replacements there are in total.
    pub fn edits(&self) -> (r: usize)
        requires
            edit_count(self@) <= usize::MAX,
        ensures
            r == edit_count(self@),
    {
        let mut total: usize = 0;
        let mut i: usize = 0;
        while i < self.documents.len()
            invariant
                i <= self.documents@.len(),
                edit_count(self@) <= usize::MAX,
                total == edit_count(self@.take(i as int)),
            decreases self.documents@.len() - i,
        {
            proof {
                assert(self@.take(i + 1).drop_last() =~= self@.take(i as int));
                lemma_edit_count_prefix(self@, i + 1);
            }
            total = total + self.documents[i].edits.len();
            i = i + 1;
        }
        assert(self@.take(self@.len() as int) =~= self@);
        total
    }

    /// Supplies the text of the files [`Plan::missing`] named.
    ///
    /// `read` returns the text for a path, or the reason it could not be read. The first file that
    /// cannot be read rejects the whole edit.
    pub fn with_contents<R: Fn(&PathBuf) -> Result<String, String>>(self, read: &R) -> (r: Result<
        Plan,
        WorkspaceError,
    >)
        requires
            forall|path: &PathBuf| read.requires((path,)),
        ensures
            match r {
                Ok(plan) => {
                    &&& plan@.len() == self@.len()
                    &&& forall|i: int|
                        0 <= i < self@.len() ==> supplied(*read, self@[i], #[trigger] plan@[i])
                },
                Err(error) => exists|i: int, reason: String|
                    {
                        &&& 0 <= i < self@.len()
                        &&& !self@[i].open
                        &&& forall|j: int|
                            0 <= j < i && !(#[trigger] self@[j]).open ==> was_read(
                                *read,
                                self@[j].path,
                            )
                        &&& #[trigger] read_gives(*read, self@[i].path, Err(reason))
                        &&& error@ == (Fault::Unreadable { path: self@[i].path, reason: reason@ })
                    },
            },
    {
        let mut documents: Vec<PlannedDocument> = self.documents;
        let ghost all = self@;
        let mut i: usize = 0;
        while i < documents.len()
            invariant
                i <= documents@.len(),
                documents@.len() == all.len(),
                all == self@,
                forall|path: &PathBuf| read.requires((path,)),
                forall|j: int| i <= j < all.len() ==> (#[trigger] documents@[j])@ == all[j],
                forall|j: int|
                    0 <= j < i ==> supplied(*read, all[j], (#[trigger] documents@[j])@),
            decreases documents@.len() - i,
        {
            assert(documents@[i as int]@ == all[i as int]);
            if !documents[i].open {
                match read(&documents[i].path) {
                    Ok(text) => {
                        assert(read_gives(*read, all[i as int].path, Ok(text)));
                        let ghost said = text@;
                        let old_document: PlannedDocument = documents.remove(i);
                        let document: PlannedDocument = PlannedDocument {
                            path: old_document.path,
                            version: old_document.version,
                            edits: old_document.edits,
                            open: old_document.open,
                            contents: Some(text),
                        };
                        assert(supplied(*read, all[i as int], document@)) by {
                            assert(document@.contents == Some(text@));
                        }
                        documents.insert(i, document);
                    },
                    Err(reason) => {
                        assert(read_gives(*read, all[i as int].path, Err(reason)));
                        assert forall|j: int| 0 <= j < i && !(#[trigger] self@[j]).open implies was_read(
                            *read,
                            self@[j].path,
                        ) by {
                            assert(supplied(*read, all[j], documents@[j]@));
                        }
                        return Err(
                            WorkspaceError::Unreadable {
                                path: documents[i].path.clone(),
                                reason,
                            },
                        );
                    },
                }
            }
            i = i + 1;
        }
        Ok(Plan { documents })
    }

    /// The planned documents, for the session that applies them.
    pub fn planned_documents(&self) -> (r: &Vec<PlannedDocument>)
        ensures
            r@ == self.list(),
    {
        &self.documents
    }
}

proof fn lemma_plan_fails(changes: Seq<DocumentChange>, open: Seq<PathBuf>, n: int)
    requires
        0 <= n <= changes.len(),
    ensures
        plan_of(changes.take(n), open) is Err ==> plan_of(changes, open) == plan_of(
            changes.take(n),
            open,
        ),
    decreases changes.len() - n,
{
    if n == changes.len() {
        assert(changes.take(n) =~= changes);
    } else {
        assert(changes.take(n + 1).drop_last() =~= changes.take(n));
        lemma_plan_fails(changes, open, n + 1);
    }
}

/// What applying a workspace edit did.
#[derive(Debug, Clone, Copy, PartialEq, Eq, Structural)]
pub struct Applied {
    /// How many documents were changed.
    pub documents: usize,
    /// How many replacements were made.
    pub edits: usize,
    /// How many of those documents the edit had to open.
    pub opened: usize,
}

/// A count with its noun.
pub open spec fn counted(count: nat, one: Seq<char>, many: Seq<char>) -> Seq<char> {
    if count == 1 {
        decimal_of(count) + " "@ + one
    } else {
        decimal_of(count) + " "@ + many
    }
}

/// What applying an edit is reported as.
pub open spec fn summary_text(applied: Applied, what: Seq<char>) -> Seq<char> {
    let edits = counted(applied.edits as nat, "change"@, "changes"@);
    let documents = counted(applied.documents as nat, "file"@, "files"@);
    let said = what + ": "@ + edits + " in "@ + documents;
    if applied.opened == 0 {
        said
    } else {
        said + " ("@ + decimal_of(applied.opened as nat) + " opened, unsaved)"@
    }
}

impl Applied {
    /// A sentence for the status bar.
    ///
    /// Reports how many files were opened as well as how many were changed: the opened tabs hold
    /// unsaved changes that the user did not open.
    pub fn summary(&self, what: &str) -> (r: String)
        ensures
            r@ == summary_text(*self, what@),
    {
        let edits: String = plural(self.edits, "change", "changes");
        let documents: String = plural(self.documents, "file", "files");
        let mut r: String = what.to_owned();
        r.append(": ");
        r.append(edits.as_str());
        r.append(" in ");
        r.append(documents.as_str());
        if self.opened != 0 {
            r.append(" (");
            let opened: String = decimal(self.opened as u64);
            r.append(opened.as_str());
            r.append(" opened, unsaved)");
        }
        r
    }
}

/// A count with its noun.
pub fn plural(count: usize, one: &str, many: &str) -> (r: String)
    ensures
        r@ == counted(count as nat, one@, many@),
{
    let mut r: String = decimal(count as u64);
    r.append(" ");
    if count == 1 {
        r.append(one);
    } else {
        r.append(many);
    }
    r
}

// ---------------------------------------------------------------------------
// Laws
// ---------------------------------------------------------------------------

/// One name that stands for no file rejects the whole edit.
pub proof fn law_one_bad_name_rejects_the_edit(
    changes: Seq<DocumentChange>,
    open: Seq<PathBuf>,
    i: int,
)
    requires
        0 <= i < changes.len(),
        changes[i].path is None,
    ensures
        plan_of(changes, open) is Err,
{
    assert(changes.take(i + 1).drop_last() =~= changes.take(i));
    assert(changes.take(i + 1).last() == changes[i]);
    lemma_plan_fails(changes, open, i + 1);
}

/// One stale document rejects the whole edit.
pub proof fn law_one_stale_document_rejects_the_edit(
    changes: Seq<DocumentChange>,
    open: Seq<PathBuf>,
    i: int,
)
    requires
        0 <= i < changes.len(),
        changes[i].version matches Some(expected) && changes[i].actual matches Some(actual)
            && expected != actual,
    ensures
        plan_of(changes, open) is Err,
{
    assert(changes.take(i + 1).drop_last() =~= changes.take(i));
    assert(changes.take(i + 1).last() == changes[i]);
    lemma_plan_fails(changes, open, i + 1);
}

pub(crate) proof fn lemma_planned_at_bound(docs: Seq<Planned>, path: Seq<Part>)
    ensures
        0 <= planned_at(docs, path) <= docs.len(),
        planned_at(docs, path) < docs.len() ==> docs[planned_at(docs, path)].path@ == path,
        planned_at(docs, path) == docs.len() ==> forall|j: int|
            0 <= j < docs.len() ==> (#[trigger] docs[j]).path@ != path,
    decreases docs.len(),
{
    if docs.len() > 0 {
        let rest = docs.skip(1);
        lemma_planned_at_bound(rest, path);
        if docs[0].path@ != path {
            let k = planned_at(rest, path);
            if k < rest.len() {
                assert(rest[k] == docs[k + 1]);
            } else {
                assert forall|j: int| 0 <= j < docs.len() implies (
                #[trigger] docs[j]).path@ != path by {
                    if j > 0 {
                        assert(rest[j - 1] == docs[j]);
                    }
                }
            }
        }
    }
}

/// A plan holds each file once, however many names the server used for it.
pub proof fn law_a_plan_holds_each_file_once(
    changes: Seq<DocumentChange>,
    open: Seq<PathBuf>,
    a: int,
    b: int,
)
    requires
        plan_of(changes, open) matches Ok(docs) && 0 <= a < b < docs.len(),
    ensures
        plan_of(changes, open)->Ok_0[a].path@ != plan_of(changes, open)->Ok_0[b].path@,
    decreases changes.len(),
{
    if changes.len() > 0 {
        let before = plan_of(changes.drop_last(), open)->Ok_0;
        let now = plan_of(changes, open)->Ok_0;
        let change = changes.last();
        let path = change.path->Some_0;
        lemma_planned_at_bound(before, path@);
        if b < before.len() {
            law_a_plan_holds_each_file_once(changes.drop_last(), open, a, b);
            assert(now[a].path == before[a].path);
            assert(now[b].path == before[b].path);
        } else {
            assert(now[a] == before[a]);
        }
    }
}

/// How many replacements the changes list in total.
pub open spec fn listed_edits(changes: Seq<DocumentChange>) -> nat
    decreases changes.len(),
{
    if changes.len() == 0 {
        0
    } else {
        listed_edits(changes.drop_last()) + changes.last().edits@.len()
    }
}

proof fn lemma_edit_count_update(docs: Seq<Planned>, i: int, document: Planned)
    requires
        0 <= i < docs.len(),
    ensures
        edit_count(docs.update(i, document)) + docs[i].edits.len() == edit_count(docs)
            + document.edits.len(),
    decreases docs.len(),
{
    let now = docs.update(i, document);
    if i == docs.len() - 1 {
        assert(now.drop_last() =~= docs.drop_last());
    } else {
        assert(now.drop_last() =~= docs.drop_last().update(i, document));
        lemma_edit_count_update(docs.drop_last(), i, document);
    }
}

/// A plan holds every replacement that the changes list, wherever they are listed.
pub proof fn law_a_plan_holds_every_edit(changes: Seq<DocumentChange>, open: Seq<PathBuf>)
    requires
        plan_of(changes, open) is Ok,
    ensures
        edit_count(plan_of(changes, open)->Ok_0) == listed_edits(changes),
    decreases changes.len(),
{
    if changes.len() > 0 {
        law_a_plan_holds_every_edit(changes.drop_last(), open);
        let before = plan_of(changes.drop_last(), open)->Ok_0;
        let now = plan_of(changes, open)->Ok_0;
        let path = changes.last().path->Some_0;
        lemma_planned_at_bound(before, path@);
        let i = planned_at(before, path@);
        if i < before.len() {
            lemma_edit_count_update(before, i, now[i]);
        } else {
            assert(now.drop_last() =~= before);
        }
    }
}

} // verus!
