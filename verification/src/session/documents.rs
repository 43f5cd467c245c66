//! Saving and reverting documents, their settings and languages, and the problems found in them.

use vstd::prelude::*;
use crate::editing::{Position, SelectionSet};
#[allow(unused_imports)]
use crate::editing::Selection;
use crate::path::PathBuf;
#[allow(unused_imports)]
use crate::path::Part;
#[allow(unused_imports)]
use crate::session::layout::refreshed;
use crate::session::outcome::Outcome;
use crate::session::state::{
    Diagnostic, Document, EditorSettings, Indentation, Session, Severity, Tab, Viewport, WordWrap,
};
#[allow(unused_imports)]
use crate::session::state::Repository;
use crate::session::tabs::TextState;
#[allow(unused_imports)]
use crate::session::tabs::{active_saved, closes_tab, is_exactly, saved, title_of, with_text};
use crate::text::{decimal, ends_with, same};
#[allow(unused_imports)]
use crate::text::{decimal_of, ends, view_of, views};

verus! {

// ---------------------------------------------------------------------------
// What is unsaved
// ---------------------------------------------------------------------------

/// What is written for a document: its text, ended by a line end where the settings want one.
pub open spec fn contents_text(disk: Seq<char>, line_end: Seq<char>, final_newline: bool) -> Seq<
    char,
> {
    if final_newline && !ends(disk, "\n"@) {
        disk + line_end
    } else {
        disk
    }
}

/// What is written for a document: its text, ended by a line end where the settings want one.
pub fn contents_of(disk: &str, line_end: &str, final_newline: bool) -> (r: String)
    ensures
        r@ == contents_text(disk@, line_end@, final_newline),
{
    let mut r: String = disk.to_owned();
    if final_newline && !ends_with(disk, "\n") {
        r.append(line_end);
    }
    r
}

/// The display indices of the documents with unsaved changes that have a file.
pub open spec fn unsaved_tabs<B, S>(tabs: Seq<Tab<B, S>>) -> Seq<int>
    decreases tabs.len(),
{
    if tabs.len() == 0 {
        Seq::empty()
    } else if tabs.last().document.dirty && tabs.last().document.path is Some {
        unsaved_tabs(tabs.drop_last()).push(tabs.len() - 1)
    } else {
        unsaved_tabs(tabs.drop_last())
    }
}

/// How many documents with unsaved changes have no file.
pub open spec fn untitled_unsaved<B, S>(tabs: Seq<Tab<B, S>>) -> nat
    decreases tabs.len(),
{
    if tabs.len() == 0 {
        0
    } else if tabs.last().document.dirty && tabs.last().document.path is None {
        untitled_unsaved(tabs.drop_last()) + 1
    } else {
        untitled_unsaved(tabs.drop_last())
    }
}

/// How many documents have unsaved changes.
pub open spec fn dirty_count<B, S>(tabs: Seq<Tab<B, S>>) -> nat
    decreases tabs.len(),
{
    if tabs.len() == 0 {
        0
    } else if tabs.last().document.dirty {
        dirty_count(tabs.drop_last()) + 1
    } else {
        dirty_count(tabs.drop_last())
    }
}

/// The files that are open, in tab order.
pub open spec fn paths_open<B, S>(tabs: Seq<Tab<B, S>>) -> Seq<PathBuf>
    decreases tabs.len(),
{
    if tabs.len() == 0 {
        Seq::empty()
    } else {
        match tabs.last().document.path {
            Some(path) => paths_open(tabs.drop_last()).push(path),
            None => paths_open(tabs.drop_last()),
        }
    }
}

/// Whether `saving` is what is written for the document: its path and its contents, as `disk`
/// gives its text and its line end.
pub open spec fn written_for<B, D: Fn(&B) -> (String, String)>(
    saving: (PathBuf, String),
    document: Document<B>,
    disk: D,
) -> bool {
    &&& document.path == Some(saving.0)
    &&& exists|text: (String, String)|
        disk.ensures((&document.body,), text) && saving.1@ == #[trigger] contents_text(
            text.0@,
            text.1@,
            document.settings.insert_final_newline,
        )
}

/// The display index of the tab that is marked when exactly `path` was saved: the active one
/// before any other; the number of tabs where none has that path.
pub open spec fn tab_exactly<B, S, M>(s: Session<B, S, M>, path: Seq<Part>) -> int {
    if is_exactly(s.active.document, path) {
        s.left@.len() as int
    } else {
        first_exactly(s.tabs(), path)
    }
}

/// The place of the first tab with exactly this path; their number where none has it.
pub open spec fn first_exactly<B, S>(tabs: Seq<Tab<B, S>>, path: Seq<Part>) -> int
    decreases tabs.len(),
{
    if tabs.len() == 0 {
        0
    } else if is_exactly(tabs[0].document, path) {
        0
    } else {
        1 + first_exactly(tabs.skip(1), path)
    }
}

/// Whether `after` is `before` with the document at `path` marked as saved, wherever it is. Where
/// it is the active one, all that is derived is brought up to date.
pub open spec fn marked_saved<B, S, M>(
    before: Session<B, S, M>,
    after: Session<B, S, M>,
    path: Seq<Part>,
) -> bool {
    let i = tab_exactly(before, path);
    if i == before.left@.len() {
        refreshed(active_saved(before), after)
    } else if i < before.tabs().len() {
        &&& after.tabs() == before.tabs().update(
            i,
            Tab { document: saved(before.tabs()[i].document), ..before.tabs()[i] },
        )
        &&& after.left@.len() == before.left@.len()
        &&& after == (Session {
            left: after.left,
            active: after.active,
            right: after.right,
            scm: Repository { wanted: true, ..before.scm },
            ..before
        })
    } else {
        after == before
    }
}

/// What became of writing one document.
#[derive(Debug)]
pub struct Written {
    pub path: PathBuf,
    /// Why it could not be written.
    pub error: Option<String>,
}

/// Whether `after` is `before` with each document that was written marked as saved, in turn.
pub open spec fn all_marked<B, S, M>(
    before: Session<B, S, M>,
    after: Session<B, S, M>,
    results: Seq<Written>,
) -> bool
    decreases results.len(),
{
    if results.len() == 0 {
        after == before
    } else {
        let last = results.last();
        if last.error is None {
            exists|mid: Session<B, S, M>|
                all_marked(before, mid, results.drop_last()) && #[trigger] marked_saved(
                    mid,
                    after,
                    last.path@,
                )
        } else {
            all_marked(before, after, results.drop_last())
        }
    }
}

/// Why documents could not be written, in order.
pub open spec fn failures(results: Seq<Written>) -> Seq<Seq<char>>
    decreases results.len(),
{
    if results.len() == 0 {
        Seq::empty()
    } else {
        match results.last().error {
            Some(error) => failures(results.drop_last()).push(error@),
            None => failures(results.drop_last()),
        }
    }
}

/// What saving everything is reported as.
pub open spec fn save_all_text(written: nat, untitled: nat, failed: nat) -> Seq<char> {
    let saved = "Saved "@ + decimal_of(written) + " "@ + (if written == 1 {
        "file"@
    } else {
        "files"@
    });
    let named = if untitled > 0 {
        saved + "; "@ + decimal_of(untitled) + " "@ + (if untitled == 1 {
            "document has"@
        } else {
            "documents have"@
        }) + " no filename yet"@
    } else {
        saved
    };
    if failed > 0 {
        named + "; "@ + decimal_of(failed) + " could not be written"@
    } else {
        named
    }
}

proof fn lemma_failures_bound(results: Seq<Written>)
    ensures
        failures(results).len() <= results.len(),
    decreases results.len(),
{
    if results.len() > 0 {
        lemma_failures_bound(results.drop_last());
    }
}

proof fn lemma_unsaved_bound<B, S>(tabs: Seq<Tab<B, S>>, n: int)
    requires
        0 <= n <= tabs.len(),
    ensures
        untitled_unsaved(tabs.take(n)) <= n,
        dirty_count(tabs.take(n)) <= n,
        unsaved_tabs(tabs.take(n)).len() <= n,
    decreases n,
{
    if n > 0 {
        assert(tabs.take(n).drop_last() =~= tabs.take(n - 1));
        lemma_unsaved_bound(tabs, n - 1);
    }
}

impl<B, S, M> Session<B, S, M> {
    /// What is written for the active document.
    pub fn save_contents(&self, disk: &str, line_end: &str) -> (r: String)
        ensures
            r@ == contents_text(
                disk@,
                line_end@,
                self.active.document.settings.insert_final_newline,
            ),
    {
        contents_of(disk, line_end, self.active.document.settings.insert_final_newline)
    }

    /// The documents with unsaved changes that have a file, and what is written for each, in tab
    /// order. `disk` gives a document's text and its line end.
    pub fn unsaved<D: Fn(&B) -> (String, String)>(&self, disk: &D) -> (r: Vec<(PathBuf, String)>)
        requires
            self.tabs().len() <= usize::MAX,
            forall|body: &B| disk.requires((body,)),
        ensures
            r@.len() == unsaved_tabs(self.tabs()).len(),
            forall|i: int|
                0 <= i < r@.len() ==> written_for(
                    #[trigger] r@[i],
                    self.tabs()[unsaved_tabs(self.tabs())[i]].document,
                    *disk,
                ),
    {
        let count: usize = self.tab_count();
        let mut r: Vec<(PathBuf, String)> = Vec::new();
        let mut i: usize = 0;
        assert(unsaved_tabs(self.tabs().take(0)).len() == 0);
        while i < count
            invariant
                i <= count,
                count == self.tabs().len(),
                forall|body: &B| disk.requires((body,)),
                r@.len() == unsaved_tabs(self.tabs().take(i as int)).len(),
                forall|j: int|
                    0 <= j < r@.len() ==> written_for(
                        #[trigger] r@[j],
                        self.tabs()[unsaved_tabs(self.tabs().take(i as int))[j]].document,
                        *disk,
                    ),
            decreases count - i,
        {
            let tab: &Tab<B, S> = self.tab_at(i);
            proof {
                assert(self.tabs().take(i + 1).drop_last() =~= self.tabs().take(i as int));
            }
            if tab.document.dirty {
                if let Some(path) = &tab.document.path {
                    let text: (String, String) = disk(&tab.document.body);
                    let contents: String = contents_of(
                        text.0.as_str(),
                        text.1.as_str(),
                        tab.document.settings.insert_final_newline,
                    );
                    let saving: (PathBuf, String) = (path.clone(), contents);
                    assert(written_for(saving, tab.document, *disk)) by {
                        assert(saving.1@ == contents_text(
                            text.0@,
                            text.1@,
                            tab.document.settings.insert_final_newline,
                        ));
                    }
                    r.push(saving);
                }
            }
            i = i + 1;
        }
        assert(self.tabs().take(count as int) =~= self.tabs());
        r
    }

    /// How many documents with unsaved changes have no file.
    pub fn unsaved_untitled(&self) -> (r: usize)
        requires
            self.tabs().len() <= usize::MAX,
        ensures
            r == untitled_unsaved(self.tabs()),
    {
        let count: usize = self.tab_count();
        let mut n: usize = 0;
        let mut i: usize = 0;
        while i < count
            invariant
                i <= count,
                count == self.tabs().len(),
                n == untitled_unsaved(self.tabs().take(i as int)),
            decreases count - i,
        {
            proof {
                assert(self.tabs().take(i + 1).drop_last() =~= self.tabs().take(i as int));
                lemma_unsaved_bound(self.tabs(), i as int);
            }
            let tab: &Tab<B, S> = self.tab_at(i);
            if tab.document.dirty && tab.document.path.is_none() {
                n = n + 1;
            }
            i = i + 1;
        }
        assert(self.tabs().take(count as int) =~= self.tabs());
        n
    }

    /// How many documents have unsaved changes.
    pub fn unsaved_count(&self) -> (r: usize)
        requires
            self.tabs().len() <= usize::MAX,
        ensures
            r == dirty_count(self.tabs()),
    {
        let count: usize = self.tab_count();
        let mut n: usize = 0;
        let mut i: usize = 0;
        while i < count
            invariant
                i <= count,
                count == self.tabs().len(),
                n == dirty_count(self.tabs().take(i as int)),
            decreases count - i,
        {
            proof {
                assert(self.tabs().take(i + 1).drop_last() =~= self.tabs().take(i as int));
                lemma_unsaved_bound(self.tabs(), i as int);
            }
            if self.tab_at(i).document.dirty {
                n = n + 1;
            }
            i = i + 1;
        }
        assert(self.tabs().take(count as int) =~= self.tabs());
        n
    }

    /// The files that are open, in tab order.
    pub fn open_paths(&self) -> (r: Vec<PathBuf>)
        requires
            self.tabs().len() <= usize::MAX,
        ensures
            r@ == paths_open(self.tabs()),
    {
        let count: usize = self.tab_count();
        let mut r: Vec<PathBuf> = Vec::new();
        let mut i: usize = 0;
        assert(r@ =~= paths_open(self.tabs().take(0)));
        while i < count
            invariant
                i <= count,
                count == self.tabs().len(),
                r@ == paths_open(self.tabs().take(i as int)),
            decreases count - i,
        {
            proof {
                assert(self.tabs().take(i + 1).drop_last() =~= self.tabs().take(i as int));
            }
            if let Some(path) = &self.tab_at(i).document.path {
                r.push(path.clone());
            }
            i = i + 1;
        }
        assert(self.tabs().take(count as int) =~= self.tabs());
        r
    }

    /// Marks the active document as saved.
    pub fn mark_saved(&mut self)
        ensures
            refreshed(active_saved(*old(self)), *final(self)),
    {
        self.active.document.dirty = false;
        self.active.document.sealed = true;
        self.scm.wanted = true;
        self.refresh_context();
    }

    /// The display index of the tab that holds exactly `path`, the active one before any other.
    pub fn index_exactly(&self, path: &PathBuf) -> (r: usize)
        requires
            self.tabs().len() <= usize::MAX,
        ensures
            r == tab_exactly(*self, path@),
            r <= self.tabs().len(),
    {
        if let Some(own) = &self.active.document.path {
            if own.same_as(path) {
                return self.active_tab();
            }
        }
        let count: usize = self.tab_count();
        let mut i: usize = 0;
        assert(self.tabs().skip(0) =~= self.tabs());
        while i < count
            invariant
                i <= count,
                count == self.tabs().len(),
                !is_exactly(self.active.document, path@),
                first_exactly(self.tabs(), path@) == i + first_exactly(
                    self.tabs().skip(i as int),
                    path@,
                ),
            decreases count - i,
        {
            assert(self.tabs().skip(i as int)[0] == self.tabs()[i as int]);
            if let Some(own) = &self.tab_at(i).document.path {
                if own.same_as(path) {
                    return i;
                }
            }
            assert(self.tabs().skip(i as int).skip(1) =~= self.tabs().skip(i + 1));
            i = i + 1;
        }
        count
    }

    /// Marks the document at `path` as saved, wherever it is.
    ///
    /// Per path rather than for all documents, so that a failed write leaves that document with
    /// its unsaved changes.
    pub fn mark_saved_at(&mut self, path: &PathBuf)
        requires
            old(self).tabs().len() <= usize::MAX,
        ensures
            marked_saved(*old(self), *final(self), path@),
    {
        let i: usize = self.index_exactly(path);
        if i == self.active_tab() {
            self.mark_saved();
        } else if i < self.tab_count() {
            self.scm.wanted = true;
            let tab: &mut Tab<B, S> = self.tab_at_mut(i);
            tab.document.dirty = false;
            tab.document.sealed = true;
        }
    }

    /// Takes what became of writing each document of [`Session::unsaved`]: marks the ones that
    /// were written as saved, and reports.
    pub fn save_all(&mut self, results: Vec<Written>) -> (r: Outcome)
        requires
            old(self).tabs().len() <= usize::MAX,
        ensures
            ({
                let untitled = untitled_unsaved(old(self).tabs());
                if results@.len() == 0 && untitled == 0 {
                    *final(self) == *old(self) && r.says("Nothing to save"@)
                } else {
                    let failed = failures(results@);
                    &&& r.says(
                        save_all_text(
                            (results@.len() - failed.len()) as nat,
                            untitled,
                            failed.len(),
                        ),
                    )
                    &&& views(final(self).problems@) == views(old(self).problems@) + failed
                    &&& exists|mid: Session<B, S, M>|
                        #[trigger] all_marked(*old(self), mid, results@) && *final(self) == (
                        Session { problems: final(self).problems, ..mid })
                }
            }),
    {
        let untitled: usize = self.unsaved_untitled();
        if results.len() == 0 && untitled == 0 {
            return Outcome::Message("Nothing to save".to_owned());
        }
        let ghost before = *self;
        let ghost problems_before = views(self.problems@);
        let mut failed: Vec<String> = Vec::new();
        let mut i: usize = 0;
        assert(views(failed@) =~= failures(results@.take(0)));
        while i < results.len()
            invariant
                i <= results@.len(),
                self.tabs().len() == before.tabs().len(),
                before.tabs().len() <= usize::MAX,
                all_marked(before, *self, results@.take(i as int)),
                views(failed@) == failures(results@.take(i as int)),
                self.problems == before.problems,
            decreases results@.len() - i,
        {
            let ghost mid = *self;
            let ghost said = views(failed@);
            proof {
                assert(results@.take(i + 1).drop_last() =~= results@.take(i as int));
            }
            match &results[i].error {
                None => {
                    self.mark_saved_at(&results[i].path);
                    proof {
                        let now = results@.take(i + 1);
                        assert(now.last() == results@[i as int]);
                        assert(all_marked(before, mid, now.drop_last()));
                        assert(marked_saved(mid, *self, now.last().path@));
                        assert(all_marked(before, *self, now));
                        lemma_first_exactly(mid.tabs(), now.last().path@);
                    }
                },
                Some(error) => {
                    failed.push(error.clone());
                    proof {
                        let now = results@.take(i + 1);
                        assert(now.last() == results@[i as int]);
                        assert(views(failed@) =~= said.push(error@));
                        assert(all_marked(before, *self, now));
                    }
                },
            }
            i = i + 1;
        }
        assert(results@.take(results@.len() as int) =~= results@);
        proof {
            lemma_failures_bound(results@);
            assert(views(failed@).len() == failed@.len());
        }
        let ghost marked = *self;
        let written: usize = results.len() - failed.len();
        let mut report: String = "Saved ".to_owned();
        let number: String = decimal(written as u64);
        report.append(number.as_str());
        report.append(" ");
        report.append(
            if written == 1 {
                "file"
            } else {
                "files"
            },
        );
        if untitled > 0 {
            report.append("; ");
            let number: String = decimal(untitled as u64);
            report.append(number.as_str());
            report.append(" ");
            report.append(
                if untitled == 1 {
                    "document has"
                } else {
                    "documents have"
                },
            );
            report.append(" no filename yet");
        }
        if failed.len() > 0 {
            report.append("; ");
            let number: String = decimal(failed.len() as u64);
            report.append(number.as_str());
            report.append(" could not be written");
        }
        let ghost failed_texts = views(failed@);
        self.problems.append(&mut failed);
        assert(views(self.problems@) =~= problems_before + failed_texts);
        Outcome::Message(report)
    }
}

// ---------------------------------------------------------------------------
// Reverting
// ---------------------------------------------------------------------------

/// Whether asking to revert comes to `outcome`; `None` where the document has no file, so that it
/// reverts to the empty text it started as.
pub open spec fn asks_to_revert<B, S, M>(
    before: Session<B, S, M>,
    after: Session<B, S, M>,
    and_close: bool,
    outcome: Option<Outcome>,
) -> bool {
    let document = before.active.document;
    if !document.dirty {
        &&& after == before
        &&& outcome matches Some(said) && said.says(title_of(document.path) + " has no changes"@)
    } else if document.path is Some {
        &&& after == (Session { pending_close: and_close, ..before })
        &&& outcome matches Some(said) && said is Revert
    } else {
        after == before && outcome is None
    }
}

/// Whether `after` is `before` with the document's text replaced and the document clean.
pub open spec fn text_reverted<B, S, M>(
    before: Session<B, S, M>,
    after: Session<B, S, M>,
    text: TextState<B>,
    cursor: Position,
) -> bool {
    let view = after.active.view;
    &&& view == (Viewport { selections: view.selections, reveal: true, ..before.active.view })
    &&& view.selections.is_single(Selection { anchor: cursor, active: cursor })
    &&& after == (Session {
        active: Tab {
            document: saved(with_text(before.active.document, text)),
            view,
            ..before.active
        },
        scm: Repository { wanted: true, ..before.scm },
        pending_close: false,
        ..before
    })
}

/// Whether reverting comes to `outcome`: the document is closed where that was asked for.
pub open spec fn reverts<B, S, M>(
    before: Session<B, S, M>,
    after: Session<B, S, M>,
    text: TextState<B>,
    cursor: Position,
    blank: Document<B>,
    outcome: Outcome,
) -> bool {
    exists|mid: Session<B, S, M>, shown: Session<B, S, M>|
        {
            &&& #[trigger] text_reverted(before, mid, text, cursor)
            &&& #[trigger] refreshed(mid, shown)
            &&& if before.pending_close {
                exists|closed: Session<B, S, M>|
                    closes_tab(shown, closed, blank, outcome) && #[trigger] refreshed(
                        closed,
                        after,
                    )
            } else {
                after == shown && outcome.says("Reverted "@ + title_of(before.active.document.path))
            }
        }
}

impl<B> Document<B> {
    /// Gives the document another text.
    pub fn set_text(&mut self, text: TextState<B>)
        ensures
            *final(self) == with_text(*old(self), text),
    {
        self.body = text.body;
        self.empty = text.empty;
        self.gutter = text.gutter;
        self.version = text.version;
        self.snippet = text.snippet;
        self.undo_group = text.undo_group;
        self.redo_group = text.redo_group;
    }
}

impl<B, S, M> Session<B, S, M> {
    /// Asks for this document's edits to be thrown away, and for it to be closed afterwards.
    ///
    /// `None` where the document has no file: it reverts to the empty text it started as.
    pub fn revert(&mut self, and_close: bool) -> (r: Option<Outcome>)
        ensures
            asks_to_revert(*old(self), *final(self), and_close, r),
    {
        if !self.active.document.dirty {
            let mut message: String = self.active.document.title();
            message.append(" has no changes");
            return Some(Outcome::Message(message));
        }
        if self.active.document.path.is_some() {
            self.pending_close = and_close;
            return Some(Outcome::Revert);
        }
        None
    }

    /// Replaces the document's text, as one undoable step, and marks it clean.
    fn take_reverted(&mut self, text: TextState<B>, cursor: Position)
        ensures
            text_reverted(*old(self), *final(self), text, cursor),
    {
        self.active.document.set_text(text);
        self.active.document.dirty = false;
        self.active.document.sealed = true;
        self.scm.wanted = true;
        self.active.view.selections = SelectionSet::caret(cursor);
        self.active.view.reveal = true;
        self.pending_close = false;
    }

    /// Replaces the document with what was read again, as one undoable step, and marks it clean.
    ///
    /// `text` is the text as it is then, and `cursor` the caret's place in it.
    pub fn revert_to(&mut self, text: TextState<B>, cursor: Position, blank: Document<B>) -> (r:
        Outcome)
        ensures
            reverts(*old(self), *final(self), text, cursor, blank, r),
    {
        let title: String = self.active.document.title();
        let close: bool = self.pending_close;
        self.take_reverted(text, cursor);
        let ghost mid = *self;
        assert(text_reverted(*old(self), mid, text, cursor));
        self.refresh_context();
        let ghost shown = *self;
        assert(refreshed(mid, shown));
        if close {
            let outcome: Outcome = self.close_active_tab(blank);
            let ghost closed = *self;
            assert(closes_tab(shown, closed, blank, outcome));
            self.refresh_context();
            assert(refreshed(closed, *self));
            return outcome;
        }
        let mut message: String = "Reverted ".to_owned();
        message.append(title.as_str());
        Outcome::Message(message)
    }

    /// Reverts a document without a file to the empty text it started as, and closes it where
    /// that is asked for.
    pub fn revert_untitled(
        &mut self,
        text: TextState<B>,
        cursor: Position,
        and_close: bool,
        blank: Document<B>,
    ) -> (r: Outcome)
        ensures
            exists|mid: Session<B, S, M>|
                #[trigger] text_reverted(*old(self), mid, text, cursor) && if and_close {
                    closes_tab(mid, *final(self), blank, r)
                } else {
                    *final(self) == mid && r.says("Reverted"@)
                },
    {
        self.take_reverted(text, cursor);
        let ghost mid = *self;
        assert(text_reverted(*old(self), mid, text, cursor));
        if and_close {
            return self.close_active_tab(blank);
        }
        Outcome::Message("Reverted".to_owned())
    }
}

// ---------------------------------------------------------------------------
// Settings and languages
// ---------------------------------------------------------------------------

/// Settings with what the file itself and the keyboard override. A file that is indented with tabs
/// says nothing of how wide one is.
pub open spec fn overridden(
    settings: EditorSettings,
    indentation: Option<Indentation>,
    wrap: Option<WordWrap>,
) -> EditorSettings {
    let own = if settings.detect_indentation {
        indentation
    } else {
        None
    };
    EditorSettings {
        tab_size: match own {
            Some(Indentation::Spaces(width)) => width,
            _ => settings.tab_size,
        },
        insert_spaces: match own {
            Some(Indentation::Spaces(_)) => true,
            Some(Indentation::Tabs) => false,
            None => settings.insert_spaces,
        },
        word_wrap: match wrap {
            Some(wrap) => wrap,
            None => settings.word_wrap,
        },
        ..settings
    }
}

/// The document with settings resolved again.
pub open spec fn with_settings<B>(document: Document<B>, settings: EditorSettings) -> Document<B> {
    let now = overridden(settings, document.indentation, document.wrap_override);
    Document {
        settings: now,
        indentation_overridden: now.tab_size != settings.tab_size || now.insert_spaces
            != settings.insert_spaces,
        ..document
    }
}

/// The problems with what is set and not supported reported, once.
pub open spec fn reported(problems: Seq<Seq<char>>, unsupported: Option<Seq<char>>) -> Seq<
    Seq<char>,
> {
    match unsupported {
        Some(problem) => if problems.contains(problem) {
            problems
        } else {
            problems.push(problem)
        },
        None => problems,
    }
}

/// Whether `after` is `before` with the document's settings resolved again.
pub open spec fn settings_resolved<B, S, M>(
    before: Session<B, S, M>,
    after: Session<B, S, M>,
    settings: EditorSettings,
) -> bool {
    let document = with_settings(before.active.document, settings);
    &&& after == (Session {
        active: Tab { document, ..before.active },
        problems: after.problems,
        ..before
    })
    &&& views(after.problems@) == reported(
        views(before.problems@),
        view_of(document.settings.unsupported),
    )
}

/// A document in another language.
pub open spec fn in_language<B>(document: Document<B>, language: Option<String>, pinned: bool) ->
    Document<B> {
    Document { language_id: language, language_pinned: pinned, relex: true, ..document }
}

/// Whether `after` is `before` with the document in another language, under its settings.
pub open spec fn language_put<B, S, M>(
    before: Session<B, S, M>,
    after: Session<B, S, M>,
    language: Language,
    chosen: bool,
) -> bool {
    settings_resolved(
        Session {
            active: Tab {
                document: in_language(before.active.document, language.id, chosen),
                ..before.active
            },
            ..before
        },
        after,
        language.settings,
    )
}

/// What choosing a language is reported as.
pub open spec fn language_text(title: Option<Seq<char>>) -> Seq<char> {
    match title {
        Some(title) => "Language: "@ + title,
        None => "Language: none — nothing matches this file name"@,
    }
}

/// A language as it was looked up: its identifier, its title, and the settings for it.
#[derive(Debug)]
pub struct Language {
    /// `None` where there is no language.
    pub id: Option<String>,
    /// What it is called.
    pub title: String,
    /// The settings that apply to a document in it.
    pub settings: EditorSettings,
}

/// Where languages are looked up.
pub struct Languages<I, T, E> {
    /// The language that a file's name implies.
    pub implied: I,
    /// What a language is called.
    pub title: T,
    /// The settings that apply to a document in a language, or in none.
    pub settings: E,
}

impl<
    I: Fn(&PathBuf) -> Option<String>,
    T: Fn(&String) -> String,
    E: Fn(&Option<String>) -> EditorSettings,
> Languages<I, T, E> {
    /// Whether everything can be looked up.
    pub open spec fn ready(&self) -> bool {
        &&& forall|path: PathBuf| #[trigger] self.implied.requires((&path,))
        &&& forall|id: String| #[trigger] self.title.requires((&id,))
        &&& forall|id: Option<String>| #[trigger] self.settings.requires((&id,))
    }

    /// Whether a file of this name, or a document without a file, is in the language `id`.
    pub open spec fn implies(&self, path: Option<PathBuf>, id: Option<String>) -> bool {
        match path {
            Some(path) => self.implied.ensures((&path,), id),
            None => id is None,
        }
    }

    /// Whether looking the language up gives its title and settings.
    pub open spec fn finds(&self, language: Language) -> bool {
        &&& self.settings.ensures((&language.id,), language.settings)
        &&& match language.id {
            Some(id) => self.title.ensures((&id,), language.title),
            None => language.title@.len() == 0,
        }
    }

    /// The language that the name of a document's file implies.
    pub(crate) fn implied_by(&self, path: &Option<PathBuf>) -> (r: Option<String>)
        requires
            self.ready(),
        ensures
            self.implies(*path, r),
    {
        match path {
            Some(path) => (self.implied)(path),
            None => None,
        }
    }

    /// Looks a language up.
    fn find(&self, id: Option<String>) -> (r: Language)
        requires
            self.ready(),
        ensures
            r.id == id,
            self.finds(r),
    {
        let settings: EditorSettings = (self.settings)(&id);
        let title: String = match &id {
            Some(id) => (self.title)(id),
            None => String::new(),
        };
        Language { id, title, settings }
    }
}

/// Whether the document was put into the language that was chosen, or, where none was, into the one
/// that the name of its file implies.
pub open spec fn sets_language<
    B,
    S,
    M,
    I: Fn(&PathBuf) -> Option<String>,
    T: Fn(&String) -> String,
    E: Fn(&Option<String>) -> EditorSettings,
>(
    languages: Languages<I, T, E>,
    before: Session<B, S, M>,
    after: Session<B, S, M>,
    chosen: Option<String>,
    outcome: Outcome,
) -> bool {
    exists|language: Language, mid: Session<B, S, M>|
        {
            &&& match chosen {
                Some(_) => language.id == chosen,
                None => languages.implies(before.active.document.path, language.id),
            }
            &&& languages.finds(language)
            &&& #[trigger] language_put(before, mid, language, chosen is Some)
            &&& #[trigger] refreshed(mid, after)
            &&& outcome.says(
                language_text(
                    if language.id is Some {
                        Some(language.title@)
                    } else {
                        None
                    },
                ),
            )
        }
}

/// Whether the active document is the given one, saved, and what its settings ask for in vain was
/// reported.
pub open spec fn saved_as<B, S, M>(
    before: Session<B, S, M>,
    after: Session<B, S, M>,
    document: Document<B>,
) -> bool {
    &&& refreshed(
        Session {
            active: Tab { document: saved(document), ..before.active },
            problems: after.problems,
            scm: Repository { wanted: true, ..before.scm },
            ..before
        },
        after,
    )
    &&& views(after.problems@) == reported(
        views(before.problems@),
        view_of(document.settings.unsupported),
    )
}

/// Whether the document was saved under the path, in the language that was chosen by hand or else
/// in the one that the path implies.
pub open spec fn renames_to<
    B,
    S,
    M,
    I: Fn(&PathBuf) -> Option<String>,
    T: Fn(&String) -> String,
    E: Fn(&Option<String>) -> EditorSettings,
>(
    languages: Languages<I, T, E>,
    before: Session<B, S, M>,
    after: Session<B, S, M>,
    path: PathBuf,
) -> bool {
    let moved = Document { path: Some(path), ..before.active.document };
    exists|document: Document<B>, settings: EditorSettings|
        {
            &&& if moved.language_pinned {
                document == moved
            } else {
                &&& document == in_language(moved, document.language_id, false)
                &&& languages.implies(Some(path), document.language_id)
            }
            &&& languages.settings.ensures((&document.language_id,), settings)
            &&& #[trigger] saved_as(before, after, with_settings(document, settings))
        }
}

/// The problems that are shown already, and whether one of them is this one.
fn mentions(problems: &Vec<String>, problem: &str) -> (r: bool)
    ensures
        r == views(problems@).contains(problem@),
{
    let mut i: usize = 0;
    while i < problems.len()
        invariant
            i <= problems@.len(),
            forall|j: int| 0 <= j < i ==> views(problems@)[j] != problem@,
        decreases problems@.len() - i,
    {
        if same(problems[i].as_str(), problem) {
            assert(views(problems@)[i as int] == problem@);
            return true;
        }
        i = i + 1;
    }
    false
}

impl<B> Document<B> {
    /// Resolves the settings again, keeping the overrides from the file and from the keyboard.
    pub fn set_settings(&mut self, settings: EditorSettings)
        ensures
            *final(self) == with_settings(*old(self), settings),
    {
        let tab_size: usize = settings.tab_size;
        let insert_spaces: bool = settings.insert_spaces;
        self.settings = settings;
        if self.settings.detect_indentation {
            match self.indentation {
                Some(Indentation::Spaces(width)) => {
                    self.settings.tab_size = width;
                    self.settings.insert_spaces = true;
                },
                Some(Indentation::Tabs) => {
                    self.settings.insert_spaces = false;
                },
                None => {},
            }
        }
        self.indentation_overridden = self.settings.tab_size != tab_size
            || self.settings.insert_spaces != insert_spaces;
        if let Some(wrap) = self.wrap_override {
            self.settings.word_wrap = wrap;
        }
    }
}

/// How a document is formatted.
#[derive(Debug, Clone, Copy, PartialEq, Eq, Structural)]
pub struct FormattingOptions {
    pub tab_size: u32,
    pub insert_spaces: bool,
    pub trim_trailing_whitespace: bool,
    pub insert_final_newline: bool,
}

/// The columns at which a view breaks lines under each choice; none where it does not.
#[derive(Debug, Clone, Copy, PartialEq, Eq, Structural)]
pub struct WrapColumns {
    pub off: usize,
    pub on: usize,
    pub column: usize,
    pub bounded: usize,
}

/// The column at which a view breaks lines.
pub open spec fn wrap_column(columns: WrapColumns, wrap: WordWrap) -> usize {
    match wrap {
        WordWrap::Off => columns.off,
        WordWrap::On => columns.on,
        WordWrap::WordWrapColumn => columns.column,
        WordWrap::Bounded => columns.bounded,
    }
}

/// The wrapping that toggling leads to: off where lines are broken, else what is configured, and
/// on where that is off.
pub open spec fn toggled_wrap(wrapping: bool, configured: WordWrap) -> WordWrap {
    if wrapping {
        WordWrap::Off
    } else if configured == WordWrap::Off {
        WordWrap::On
    } else {
        configured
    }
}

/// What toggling is reported as.
pub open spec fn wrap_text(column: usize) -> Seq<char> {
    if column == 0 {
        "Word wrap off"@
    } else {
        "Word wrap on, at column "@ + decimal_of(column as nat)
    }
}

/// The tab with lines broken as was chosen from the keyboard.
pub open spec fn wrapped<B, S>(tab: Tab<B, S>, wanted: WordWrap) -> Tab<B, S> {
    Tab {
        document: Document {
            wrap_override: Some(wanted),
            settings: EditorSettings { word_wrap: wanted, ..tab.document.settings },
            ..tab.document
        },
        ..tab
    }
}

/// Says at which column lines are broken.
fn report_wrap(column: usize) -> (r: Outcome)
    ensures
        r.says(wrap_text(column)),
{
    if column == 0 {
        return Outcome::Message("Word wrap off".to_owned());
    }
    let mut message: String = "Word wrap on, at column ".to_owned();
    let number: String = decimal(column as u64);
    message.append(number.as_str());
    Outcome::Message(message)
}

impl WrapColumns {
    /// The column at which a view breaks lines.
    pub fn at(&self, wrap: WordWrap) -> (r: usize)
        ensures
            r == wrap_column(*self, wrap),
    {
        match wrap {
            WordWrap::Off => self.off,
            WordWrap::On => self.on,
            WordWrap::WordWrapColumn => self.column,
            WordWrap::Bounded => self.bounded,
        }
    }
}

impl<B, S, M> Session<B, S, M> {
    /// Reports what is set and not supported, once.
    pub fn report_unsupported(&mut self)
        ensures
            *final(self) == (Session { problems: final(self).problems, ..*old(self) }),
            views(final(self).problems@) == reported(
                views(old(self).problems@),
                view_of(old(self).active.document.settings.unsupported),
            ),
    {
        if let Some(problem) = &self.active.document.settings.unsupported {
            if !mentions(&self.problems, problem.as_str()) {
                let problem: String = problem.clone();
                let ghost before = views(self.problems@);
                let ghost said = problem@;
                self.problems.push(problem);
                assert(views(self.problems@) =~= before.push(said));
            }
        }
    }

    /// Resolves the open document's settings again, keeping the overrides from the file and from
    /// the keyboard.
    pub fn resolve_document_settings(&mut self, settings: EditorSettings)
        ensures
            settings_resolved(*old(self), *final(self), settings),
    {
        self.active.document.set_settings(settings);
        self.report_unsupported();
    }

    /// Takes settings of the workspace, or says what is wrong with them.
    pub fn set_workspace_settings(&mut self, settings: Result<EditorSettings, String>)
        ensures
            match settings {
                Ok(settings) => settings_resolved(*old(self), *final(self), settings),
                Err(error) => {
                    &&& *final(self) == (Session { problems: final(self).problems, ..*old(self) })
                    &&& views(final(self).problems@) == views(old(self).problems@).push(
                        "workspace settings: "@ + error@,
                    )
                },
            },
    {
        match settings {
            Ok(settings) => {
                self.resolve_document_settings(settings);
            },
            Err(error) => {
                let mut problem: String = "workspace settings: ".to_owned();
                problem.append(error.as_str());
                let ghost before = views(self.problems@);
                let ghost said = problem@;
                self.problems.push(problem);
                assert(views(self.problems@) =~= before.push(said));
            },
        }
    }

    /// Puts the document into a language.
    fn put_in_language(&mut self, language: Language, chosen: bool)
        ensures
            language_put(*old(self), *final(self), language, chosen),
    {
        self.active.document.language_id = language.id;
        self.active.document.language_pinned = chosen;
        self.active.document.relex = true;
        self.resolve_document_settings(language.settings);
    }

    /// Puts the document into a language: the one that was chosen, or, where none was, the one that
    /// the name of its file implies.
    pub fn set_language<
        I: Fn(&PathBuf) -> Option<String>,
        T: Fn(&String) -> String,
        E: Fn(&Option<String>) -> EditorSettings,
    >(&mut self, language: Option<String>, languages: &Languages<I, T, E>) -> (r: Outcome)
        requires
            languages.ready(),
        ensures
            sets_language(*languages, *old(self), *final(self), language, r),
    {
        let chosen: bool = language.is_some();
        let id: Option<String> = match language {
            Some(id) => Some(id),
            None => languages.implied_by(&self.active.document.path),
        };
        let found: Language = languages.find(id);
        let known: bool = found.id.is_some();
        let title: String = found.title.clone();
        self.put_in_language(found, chosen);
        let ghost mid = *self;
        assert(language_put(*old(self), mid, found, chosen));
        self.refresh_context();
        assert(refreshed(mid, *self));
        if known {
            let mut message: String = "Language: ".to_owned();
            message.append(title.as_str());
            Outcome::Message(message)
        } else {
            Outcome::Message("Language: none — nothing matches this file name".to_owned())
        }
    }

    /// Takes the path that the document was written to, and the language that it implies, unless
    /// one was chosen by hand.
    pub fn rename_to<
        I: Fn(&PathBuf) -> Option<String>,
        T: Fn(&String) -> String,
        E: Fn(&Option<String>) -> EditorSettings,
    >(&mut self, path: PathBuf, languages: &Languages<I, T, E>) -> (r: Outcome)
        requires
            languages.ready(),
        ensures
            renames_to(*languages, *old(self), *final(self), path),
            r.says("Saved "@ + path.text@),
    {
        let mut message: String = "Saved ".to_owned();
        message.append(path.display());
        self.active.document.path = Some(path);
        if !self.active.document.language_pinned {
            let id: Option<String> = languages.implied_by(&self.active.document.path);
            self.active.document.language_id = id;
            self.active.document.relex = true;
        }
        let ghost document = self.active.document;
        let settings: EditorSettings = (languages.settings)(&self.active.document.language_id);
        self.resolve_document_settings(settings);
        self.mark_saved();
        assert(saved_as(*old(self), *self, with_settings(document, settings)));
        Outcome::Message(message)
    }

    /// Puts on the theme of this name, for as long as the session lasts.
    pub fn set_theme(&mut self, theme: String) -> (r: Outcome)
        ensures
            *final(self) == (Session { theme, ..*old(self) }),
            r.says("Theme: "@ + theme@ + " — set `workbench.colorTheme` to keep it"@),
    {
        let mut message: String = "Theme: ".to_owned();
        message.append(theme.as_str());
        message.append(" — set `workbench.colorTheme` to keep it");
        self.theme = theme;
        Outcome::Message(message)
    }

    /// Breaks lines where they are not broken, and does not where they are.
    ///
    /// `configured` is what the settings say for this document, and `columns` where the view would
    /// break lines under each choice.
    pub fn toggle_word_wrap(&mut self, configured: WordWrap, columns: &WrapColumns) -> (r: Outcome)
        ensures
            ({
                let now = old(self).active.document.settings.word_wrap;
                let wanted = toggled_wrap(wrap_column(*columns, now) > 0, configured);
                &&& *final(self) == crate::session::layout::revealing(
                    Session { active: wrapped(old(self).active, wanted), ..*old(self) },
                )
                &&& r.says(wrap_text(wrap_column(*columns, wanted)))
            }),
    {
        let wrapping: bool = columns.at(self.active.document.settings.word_wrap) > 0;
        let wanted: WordWrap = if wrapping {
            WordWrap::Off
        } else if configured == WordWrap::Off {
            WordWrap::On
        } else {
            configured
        };
        self.active.document.wrap_override = Some(wanted);
        self.active.document.settings.word_wrap = wanted;
        self.reveal_carets();
        report_wrap(columns.at(wanted))
    }

    /// How the active document is formatted.
    pub fn formatting_options(&self) -> (r: FormattingOptions)
        ensures
            r.tab_size == (if self.active.document.settings.tab_size < 1 {
                1
            } else if self.active.document.settings.tab_size > u32::MAX {
                u32::MAX as int
            } else {
                self.active.document.settings.tab_size as int
            }),
            r.insert_spaces == self.active.document.settings.insert_spaces,
            r.trim_trailing_whitespace == self.active.document.settings.trim_trailing_whitespace,
            r.insert_final_newline == self.active.document.settings.insert_final_newline,
    {
        let settings: &EditorSettings = &self.active.document.settings;
        let tab_size: u32 = if settings.tab_size < 1 {
            1
        } else if settings.tab_size > u32::MAX as usize {
            u32::MAX
        } else {
            settings.tab_size as u32
        };
        FormattingOptions {
            tab_size,
            insert_spaces: settings.insert_spaces,
            trim_trailing_whitespace: settings.trim_trailing_whitespace,
            insert_final_newline: settings.insert_final_newline,
        }
    }
}

// ---------------------------------------------------------------------------
// Problems
// ---------------------------------------------------------------------------

/// How many problems of each severity there are.
#[derive(Debug, Clone, Copy, PartialEq, Eq, Structural)]
pub struct Counts {
    pub errors: usize,
    pub warnings: usize,
    pub information: usize,
    pub hints: usize,
}

/// How many of `list` are of this severity.
pub open spec fn count_of(list: Seq<Diagnostic>, severity: Severity) -> nat
    decreases list.len(),
{
    if list.len() == 0 {
        0
    } else if list.last().severity == severity {
        count_of(list.drop_last(), severity) + 1
    } else {
        count_of(list.drop_last(), severity)
    }
}

/// Those of `list` that are marked and of this severity, in order.
pub open spec fn marked_of(list: Seq<Diagnostic>, marks: Seq<bool>, severity: Severity) -> Seq<
    Diagnostic,
>
    decreases list.len(),
{
    if list.len() == 0 || marks.len() != list.len() {
        Seq::empty()
    } else {
        let rest = marked_of(list.drop_last(), marks.drop_last(), severity);
        if marks.last() && list.last().severity == severity {
            rest.push(list.last())
        } else {
            rest
        }
    }
}

/// Those of `list` that are marked, the worst first, and in order where they are equally bad.
pub open spec fn worst_first(list: Seq<Diagnostic>, marks: Seq<bool>) -> Seq<Diagnostic> {
    marked_of(list, marks, Severity::Error) + marked_of(list, marks, Severity::Warning) + marked_of(
        list,
        marks,
        Severity::Information,
    ) + marked_of(list, marks, Severity::Hint)
}

/// Those of `list` that are marked and of this severity, in order.
fn collect_marked<'a>(
    list: &'a Vec<Diagnostic>,
    marks: &Vec<bool>,
    severity: Severity,
    r: &mut Vec<&'a Diagnostic>,
)
    requires
        marks@.len() == list@.len(),
    ensures
        Seq::new(final(r)@.len(), |i: int| *final(r)@[i]) == Seq::new(
            old(r)@.len(),
            |i: int| *old(r)@[i],
        ) + marked_of(list@, marks@, severity),
{
    let ghost before = Seq::new(r@.len(), |k: int| *r@[k]);
    let mut i: usize = 0;
    assert(Seq::new(r@.len(), |k: int| *r@[k]) =~= before + marked_of(
        list@.take(0),
        marks@.take(0),
        severity,
    ));
    while i < list.len()
        invariant
            i <= list@.len(),
            marks@.len() == list@.len(),
            Seq::new(r@.len(), |k: int| *r@[k]) == before + marked_of(
                list@.take(i as int),
                marks@.take(i as int),
                severity,
            ),
        decreases list@.len() - i,
    {
        let ghost now = Seq::new(r@.len(), |k: int| *r@[k]);
        proof {
            assert(list@.take(i + 1).drop_last() =~= list@.take(i as int));
            assert(marks@.take(i + 1).drop_last() =~= marks@.take(i as int));
        }
        if marks[i] && list[i].severity == severity {
            r.push(&list[i]);
            assert(Seq::new(r@.len(), |k: int| *r@[k]) =~= now.push(list@[i as int]));
            assert(before + marked_of(list@.take(i + 1), marks@.take(i + 1), severity) =~= now.push(
                list@[i as int],
            ));
        }
        i = i + 1;
    }
    assert(list@.take(list@.len() as int) =~= list@);
    assert(marks@.take(marks@.len() as int) =~= marks@);
}

/// Whether `marks` says which of `list` are at a place.
pub open spec fn marks_at<F: Fn(&Diagnostic, Position) -> bool>(
    covers: F,
    list: Seq<Diagnostic>,
    at: Position,
    marks: Seq<bool>,
) -> bool {
    &&& marks.len() == list.len()
    &&& forall|i: int|
        0 <= i < list.len() ==> #[trigger] covers.ensures((&list[i], at), marks[i])
}

impl<B, S, M> Session<B, S, M> {
    /// The problems at a place, the worst first. `covers` says whether one is there.
    pub fn diagnostics_at<F: Fn(&Diagnostic, Position) -> bool>(
        &self,
        at: Position,
        covers: &F,
    ) -> (r: Vec<&Diagnostic>)
        requires
            forall|d: &Diagnostic, at: Position| covers.requires((d, at)),
        ensures
            exists|marks: Seq<bool>|
                #[trigger] marks_at(*covers, self.active.diagnostics@, at, marks) && Seq::new(
                    r@.len(),
                    |i: int| *r@[i],
                ) == worst_first(self.active.diagnostics@, marks),
    {
        let list: &Vec<Diagnostic> = &self.active.diagnostics;
        let mut marks: Vec<bool> = Vec::new();
        let mut i: usize = 0;
        while i < list.len()
            invariant
                i <= list@.len(),
                list@ == self.active.diagnostics@,
                marks@.len() == i,
                forall|d: &Diagnostic, at: Position| covers.requires((d, at)),
                forall|j: int|
                    0 <= j < i ==> #[trigger] covers.ensures((&list@[j], at), marks@[j]),
            decreases list@.len() - i,
        {
            let there: bool = covers(&list[i], at);
            marks.push(there);
            i = i + 1;
        }
        assert(marks_at(*covers, self.active.diagnostics@, at, marks@));
        self.marked_diagnostics(&marks)
    }

    /// Replaces the problems of the open document: a server publishes the complete set each time.
    pub fn set_diagnostics(&mut self, diagnostics: Vec<Diagnostic>)
        ensures
            refreshed(
                Session { active: Tab { diagnostics, ..old(self).active }, ..*old(self) },
                *final(self),
            ),
    {
        self.active.diagnostics = diagnostics;
        self.refresh_context();
    }

    /// The marked problems, the worst first.
    fn marked_diagnostics(&self, marks: &Vec<bool>) -> (r: Vec<&Diagnostic>)
        requires
            marks@.len() == self.active.diagnostics@.len(),
        ensures
            Seq::new(r@.len(), |i: int| *r@[i]) == worst_first(
                self.active.diagnostics@,
                marks@,
            ),
    {
        let list: &Vec<Diagnostic> = &self.active.diagnostics;
        let mut r: Vec<&Diagnostic> = Vec::new();
        assert(Seq::new(r@.len(), |i: int| *r@[i]) =~= Seq::empty());
        collect_marked(list, marks, Severity::Error, &mut r);
        collect_marked(list, marks, Severity::Warning, &mut r);
        collect_marked(list, marks, Severity::Information, &mut r);
        collect_marked(list, marks, Severity::Hint, &mut r);
        assert(Seq::new(r@.len(), |i: int| *r@[i]) =~= worst_first(list@, marks@));
        r
    }

    /// How many problems of each severity the open document has.
    pub fn diagnostic_counts(&self) -> (r: Counts)
        ensures
            r.errors == count_of(self.active.diagnostics@, Severity::Error),
            r.warnings == count_of(self.active.diagnostics@, Severity::Warning),
            r.information == count_of(self.active.diagnostics@, Severity::Information),
            r.hints == count_of(self.active.diagnostics@, Severity::Hint),
    {
        let list: &Vec<Diagnostic> = &self.active.diagnostics;
        let mut counts: Counts = Counts { errors: 0, warnings: 0, information: 0, hints: 0 };
        let mut i: usize = 0;
        while i < list.len()
            invariant
                i <= list@.len(),
                list@ == self.active.diagnostics@,
                counts.errors == count_of(list@.take(i as int), Severity::Error),
                counts.warnings == count_of(list@.take(i as int), Severity::Warning),
                counts.information == count_of(list@.take(i as int), Severity::Information),
                counts.hints == count_of(list@.take(i as int), Severity::Hint),
                counts.errors <= i,
                counts.warnings <= i,
                counts.information <= i,
                counts.hints <= i,
            decreases list@.len() - i,
        {
            proof {
                assert(list@.take(i + 1).drop_last() =~= list@.take(i as int));
            }
            match list[i].severity {
                Severity::Error => {
                    counts.errors = counts.errors + 1;
                },
                Severity::Warning => {
                    counts.warnings = counts.warnings + 1;
                },
                Severity::Information => {
                    counts.information = counts.information + 1;
                },
                Severity::Hint => {
                    counts.hints = counts.hints + 1;
                },
            }
            i = i + 1;
        }
        assert(list@.take(list@.len() as int) =~= list@);
        counts
    }
}

// ---------------------------------------------------------------------------
// Laws
// ---------------------------------------------------------------------------

/// A document that could not be written keeps its unsaved changes: only the path that was saved
/// is marked.
pub proof fn law_saving_marks_one_path<B, S, M>(
    before: Session<B, S, M>,
    after: Session<B, S, M>,
    path: Seq<Part>,
    i: int,
)
    requires
        marked_saved(before, after, path),
        0 <= i < before.tabs().len(),
        !is_exactly(before.tabs()[i].document, path),
    ensures
        after.tabs()[i] == before.tabs()[i],
{
    let k = tab_exactly(before, path);
    let n = before.left@.len() as int;
    lemma_first_exactly(before.tabs(), path);
    assert(before.tabs()[n] == before.active);
    if k == n {
        assert(i != n);
        assert(after.left == before.left && after.right == before.right);
        if i < n {
            assert(after.tabs()[i] == after.left@[i]);
            assert(before.tabs()[i] == before.left@[i]);
        } else {
            assert(after.tabs()[i] == after.right@[i - n - 1]);
            assert(before.tabs()[i] == before.right@[i - n - 1]);
        }
    }
}

/// Whether no two tabs have the same path.
pub open spec fn paths_differ<B, S>(tabs: Seq<Tab<B, S>>) -> bool {
    forall|i: int, j: int|
        0 <= i < tabs.len() && 0 <= j < tabs.len() && i != j && (
        #[trigger] tabs[i]).document.path is Some ==> !is_exactly(
            (#[trigger] tabs[j]).document,
            tabs[i].document.path->Some_0@,
        )
}

/// Whether there is one result for each of the tabs, in order, about its file.
pub open spec fn results_for<B, S>(
    tabs: Seq<Tab<B, S>>,
    indices: Seq<int>,
    results: Seq<Written>,
) -> bool {
    &&& results.len() == indices.len()
    &&& forall|k: int|
        0 <= k < results.len() ==> {
            &&& 0 <= #[trigger] indices[k] < tabs.len()
            &&& is_exactly(tabs[indices[k]].document, results[k].path@)
        }
}

/// Whether the tab at `i` is one whose file was written.
pub open spec fn was_written(indices: Seq<int>, results: Seq<Written>, i: int) -> bool {
    exists|k: int|
        0 <= k < results.len() && #[trigger] indices[k] == i && results[k].error is None
}

proof fn lemma_marking<B, S, M>(
    before: Session<B, S, M>,
    after: Session<B, S, M>,
    path: Seq<Part>,
    i: int,
)
    requires
        marked_saved(before, after, path),
        paths_differ(before.tabs()),
        0 <= i < before.tabs().len(),
        is_exactly(before.tabs()[i].document, path),
    ensures
        after.tabs().len() == before.tabs().len(),
        !after.tabs()[i].document.dirty,
        forall|j: int|
            0 <= j < before.tabs().len() ==> (#[trigger] after.tabs()[j]).document.path
                == before.tabs()[j].document.path,
        forall|j: int|
            0 <= j < before.tabs().len() && j != i ==> (#[trigger] after.tabs()[j])
                == before.tabs()[j],
{
    let n = before.left@.len() as int;
    let k = tab_exactly(before, path);
    lemma_first_exactly(before.tabs(), path);
    assert(before.tabs()[n] == before.active);
    lemma_some_exactly(before.tabs(), path, i);
    assert(k == i);
    assert forall|j: int| 0 <= j < before.tabs().len() && j != i implies (
    #[trigger] after.tabs()[j]) == before.tabs()[j] by {
        law_saving_marks_one_path(before, after, path, j);
    }
    if i == n {
        assert(after.tabs()[n] == after.active);
    }
}

proof fn lemma_some_exactly<B, S>(tabs: Seq<Tab<B, S>>, path: Seq<Part>, i: int)
    requires
        0 <= i < tabs.len(),
        is_exactly(tabs[i].document, path),
    ensures
        first_exactly(tabs, path) <= i,
    decreases tabs.len(),
{
    if i > 0 && !is_exactly(tabs[0].document, path) {
        assert(tabs.skip(1)[i - 1] == tabs[i]);
        lemma_some_exactly(tabs.skip(1), path, i - 1);
    }
}

proof fn lemma_all_marked<B, S, M>(
    before: Session<B, S, M>,
    after: Session<B, S, M>,
    indices: Seq<int>,
    results: Seq<Written>,
)
    requires
        all_marked(before, after, results),
        paths_differ(before.tabs()),
        results_for(before.tabs(), indices, results),
    ensures
        after.tabs().len() == before.tabs().len(),
        forall|i: int|
            0 <= i < before.tabs().len() ==> {
                &&& (#[trigger] after.tabs()[i]).document.path == before.tabs()[i].document.path
                &&& after.tabs()[i].document.dirty == (before.tabs()[i].document.dirty
                    && !was_written(indices, results, i))
            },
    decreases results.len(),
{
    if results.len() > 0 {
        let last = results.last();
        let earlier = results.drop_last();
        let named = indices.drop_last();
        let i = indices.last();
        assert(indices[indices.len() - 1] == i);
        assert forall|k: int| 0 <= k < earlier.len() implies {
            &&& 0 <= #[trigger] named[k] < before.tabs().len()
            &&& is_exactly(before.tabs()[named[k]].document, earlier[k].path@)
        } by {
            assert(named[k] == indices[k]);
        }
        let mid = if last.error is None {
            choose|mid: Session<B, S, M>|
                all_marked(before, mid, earlier) && #[trigger] marked_saved(mid, after, last.path@)
        } else {
            after
        };
        lemma_all_marked(before, mid, named, earlier);
        if last.error is None {
            assert forall|a: int, b: int|
                0 <= a < mid.tabs().len() && 0 <= b < mid.tabs().len() && a != b && (
                #[trigger] mid.tabs()[a]).document.path is Some implies !is_exactly(
                (#[trigger] mid.tabs()[b]).document,
                mid.tabs()[a].document.path->Some_0@,
            ) by {
                assert(mid.tabs()[a].document.path == before.tabs()[a].document.path);
                assert(mid.tabs()[b].document.path == before.tabs()[b].document.path);
            }
            assert(mid.tabs()[i].document.path == before.tabs()[i].document.path);
            lemma_marking(mid, after, last.path@, i);
        }
        assert forall|j: int| 0 <= j < before.tabs().len() implies was_written(
            indices,
            results,
            j,
        ) == (was_written(named, earlier, j) || (j == i && last.error is None)) by {
            if was_written(indices, results, j) {
                let k = choose|k: int|
                    0 <= k < results.len() && #[trigger] indices[k] == j
                        && results[k].error is None;
                if k < earlier.len() {
                    assert(named[k] == j);
                }
            }
            if was_written(named, earlier, j) {
                let k = choose|k: int|
                    0 <= k < earlier.len() && #[trigger] named[k] == j
                        && earlier[k].error is None;
                assert(indices[k] == j && results[k].error is None);
            }
            if j == i && last.error is None {
                assert(indices[results.len() - 1] == j);
            }
        }
        assert forall|j: int| 0 <= j < before.tabs().len() implies {
            &&& (#[trigger] after.tabs()[j]).document.path == before.tabs()[j].document.path
            &&& after.tabs()[j].document.dirty == (before.tabs()[j].document.dirty
                && !was_written(indices, results, j))
        } by {
            assert(mid.tabs()[j].document.path == before.tabs()[j].document.path);
            assert(was_written(indices, results, j) == (was_written(named, earlier, j) || (j == i
                && last.error is None)));
        }
    }
}

proof fn lemma_unsaved_tabs<B, S>(tabs: Seq<Tab<B, S>>)
    ensures
        forall|k: int|
            0 <= k < unsaved_tabs(tabs).len() ==> {
                &&& 0 <= #[trigger] unsaved_tabs(tabs)[k] < tabs.len()
                &&& tabs[unsaved_tabs(tabs)[k]].document.dirty
                &&& tabs[unsaved_tabs(tabs)[k]].document.path is Some
            },
        forall|i: int|
            0 <= i < tabs.len() && (#[trigger] tabs[i]).document.dirty && tabs[i].document.path
                is Some ==> unsaved_tabs(tabs).contains(i),
        forall|k: int, l: int|
            0 <= k < l < unsaved_tabs(tabs).len() ==> #[trigger] unsaved_tabs(tabs)[k]
                < #[trigger] unsaved_tabs(tabs)[l],
    decreases tabs.len(),
{
    if tabs.len() > 0 {
        let rest = tabs.drop_last();
        let before = unsaved_tabs(rest);
        let now = unsaved_tabs(tabs);
        lemma_unsaved_tabs(rest);
        assert forall|k: int| 0 <= k < now.len() implies {
            &&& 0 <= #[trigger] now[k] < tabs.len()
            &&& tabs[now[k]].document.dirty
            &&& tabs[now[k]].document.path is Some
        } by {
            if k < before.len() {
                assert(now[k] == before[k]);
                assert(rest[before[k]] == tabs[before[k]]);
            }
        }
        assert forall|i: int|
            0 <= i < tabs.len() && (#[trigger] tabs[i]).document.dirty && tabs[i].document.path
                is Some implies now.contains(i) by {
            if i < rest.len() {
                assert(rest[i] == tabs[i]);
                assert(before.contains(i));
                let k = choose|k: int| 0 <= k < before.len() && before[k] == i;
                assert(now[k] == i);
            } else {
                assert(now[now.len() - 1] == i);
            }
        }
        assert forall|k: int, l: int| 0 <= k < l < now.len() implies #[trigger] now[k]
            < #[trigger] now[l] by {
            assert(now[k] == before[k]);
            if l < before.len() {
                assert(now[l] == before[l]);
            }
        }
    }
}

/// Given one result for each unsaved file, in order, exactly the files that could not be written
/// and the documents without one stay unsaved.
pub proof fn law_only_what_was_not_written_stays_unsaved<B, S, M>(
    before: Session<B, S, M>,
    after: Session<B, S, M>,
    results: Seq<Written>,
)
    requires
        all_marked(before, after, results),
        paths_differ(before.tabs()),
        results_for(before.tabs(), unsaved_tabs(before.tabs()), results),
    ensures
        after.tabs().len() == before.tabs().len(),
        forall|k: int|
            0 <= k < results.len() ==> (#[trigger] after.tabs()[unsaved_tabs(
                before.tabs(),
            )[k]]).document.dirty == (results[k].error is Some),
        forall|i: int|
            0 <= i < before.tabs().len() && before.tabs()[i].document.path is None ==> (
            #[trigger] after.tabs()[i]).document.dirty == before.tabs()[i].document.dirty,
        forall|i: int|
            0 <= i < before.tabs().len() && !before.tabs()[i].document.dirty ==> !(
            #[trigger] after.tabs()[i]).document.dirty,
{
    let indices = unsaved_tabs(before.tabs());
    lemma_unsaved_tabs(before.tabs());
    lemma_all_marked(before, after, indices, results);
    assert forall|k: int| 0 <= k < results.len() implies (
    #[trigger] after.tabs()[indices[k]]).document.dirty == (results[k].error is Some) by {
        let i = indices[k];
        if results[k].error is None {
            assert(was_written(indices, results, i));
        } else if was_written(indices, results, i) {
            let l = choose|l: int|
                0 <= l < results.len() && #[trigger] indices[l] == i && results[l].error is None;
            if l < k {
                assert(indices[l] < indices[k]);
            } else if k < l {
                assert(indices[k] < indices[l]);
            }
        }
    }
    assert forall|i: int|
        0 <= i < before.tabs().len() && before.tabs()[i].document.path is None implies (
    #[trigger] after.tabs()[i]).document.dirty == before.tabs()[i].document.dirty by {
        if was_written(indices, results, i) {
            let l = choose|l: int|
                0 <= l < results.len() && #[trigger] indices[l] == i && results[l].error is None;
        }
    }
}

proof fn lemma_first_exactly<B, S>(tabs: Seq<Tab<B, S>>, path: Seq<Part>)
    ensures
        0 <= first_exactly(tabs, path) <= tabs.len(),
        first_exactly(tabs, path) < tabs.len() ==> is_exactly(
            tabs[first_exactly(tabs, path)].document,
            path,
        ),
    decreases tabs.len(),
{
    if tabs.len() > 0 && !is_exactly(tabs[0].document, path) {
        lemma_first_exactly(tabs.skip(1), path);
        let k = first_exactly(tabs.skip(1), path);
        if k < tabs.skip(1).len() {
            assert(tabs.skip(1)[k] == tabs[k + 1]);
        }
    }
}

/// Saving changes no text.
pub proof fn law_saving_changes_no_text<B>(document: Document<B>)
    ensures
        saved(document).body == document.body,
        saved(document).path == document.path,
        !saved(document).dirty,
{
}

/// What is written for a document ends in a line end wherever the settings want one and the
/// document's own line end is one.
pub proof fn law_what_is_written_ends_in_a_line_end(disk: Seq<char>, line_end: Seq<char>)
    requires
        ends(line_end, "\n"@),
    ensures
        ends(contents_text(disk, line_end, true), "\n"@),
{
    if !ends(disk, "\n"@) {
        let all = disk + line_end;
        let n = "\n"@.len();
        assert(all.skip(all.len() - n) =~= line_end.skip(line_end.len() - n));
    }
}

/// Every unsaved document is either written or counted as having no file.
pub proof fn law_every_unsaved_document_is_accounted_for<B, S>(tabs: Seq<Tab<B, S>>)
    ensures
        dirty_count(tabs) == unsaved_tabs(tabs).len() + untitled_unsaved(tabs),
    decreases tabs.len(),
{
    if tabs.len() > 0 {
        law_every_unsaved_document_is_accounted_for(tabs.drop_last());
    }
}

/// Toggling twice goes from broken lines to unbroken ones and back to what is configured.
pub proof fn law_toggling_wrap_twice_restores_it(configured: WordWrap)
    requires
        configured != WordWrap::Off,
    ensures
        toggled_wrap(true, configured) == WordWrap::Off,
        toggled_wrap(false, configured) == configured,
{
}

} // verus!
