//! The open documents: one on screen, the others beside it.

use vstd::prelude::*;
use crate::comparison::ComparisonLine;
use crate::editing::Direction;
use crate::path::{normalise, PathBuf};
#[allow(unused_imports)]
use crate::path::{normal_parts, Part};
#[allow(unused_imports)]
use crate::session::layout::{laid_out, law_laying_out_changes_sizes_alone, refreshed};
use crate::session::outcome::Outcome;
use crate::session::state::{ComparisonView, Diagnostic, Document, Find, Session, Tab, Viewport};
#[allow(unused_imports)]
use crate::session::state::{ComparisonSide, Groups, Repository};
use crate::snippet::ActiveSnippet;
use crate::text::{decimal, join};
#[allow(unused_imports)]
use crate::text::{decimal_of, joined_with, views};

verus! {

/// The name under which a document is shown: its file's, or `Untitled`.
pub open spec fn title_of(path: Option<PathBuf>) -> Seq<char> {
    match path {
        Some(path) => if path@.len() > 0 && path@.last() is Name {
            path@.last()->Name_0
        } else {
            "Untitled"@
        },
        None => "Untitled"@,
    }
}

impl<B> Document<B> {
    /// The name under which it is shown: its file's, or `Untitled`.
    pub fn title(&self) -> (r: String)
        ensures
            r@ == title_of(self.path),
    {
        if let Some(path) = &self.path {
            if let Some(name) = path.file_name() {
                return name;
            }
        }
        "Untitled".to_owned()
    }

    /// Whether it stands for the file at `path`, once both are resolved.
    pub fn stands_for(&self, path: &PathBuf) -> (r: bool)
        ensures
            r == is_at(*self, path@),
    {
        match &self.path {
            Some(own) => {
                let own: PathBuf = normalise(own);
                let wanted: PathBuf = normalise(path);
                own.same_as(&wanted)
            },
            None => false,
        }
    }
}

/// Whether a document stands for the file at `path`, once both are resolved.
pub open spec fn is_at<B>(document: Document<B>, path: Seq<Part>) -> bool {
    document.path matches Some(own) && normal_parts(own@) == normal_parts(path)
}

/// Whether a document stands for exactly this path.
pub open spec fn is_exactly<B>(document: Document<B>, path: Seq<Part>) -> bool {
    document.path matches Some(own) && own@ == path
}

/// The place of the first tab that holds the file at `path`; their number where none does.
pub open spec fn tab_holding<B, S>(tabs: Seq<Tab<B, S>>, path: Seq<Part>) -> int
    decreases tabs.len(),
{
    if tabs.len() == 0 {
        0
    } else if is_at(tabs[0].document, path) {
        0
    } else {
        1 + tab_holding(tabs.skip(1), path)
    }
}

/// What the text of a document is after something was done to it.
#[derive(Debug)]
pub struct TextState<B> {
    pub body: B,
    pub empty: bool,
    pub gutter: usize,
    pub version: i32,
    pub snippet: Option<ActiveSnippet>,
    pub undo_group: Option<u64>,
    pub redo_group: Option<u64>,
}

/// A document with another text.
pub open spec fn with_text<B>(document: Document<B>, text: TextState<B>) -> Document<B> {
    Document {
        body: text.body,
        empty: text.empty,
        gutter: text.gutter,
        version: text.version,
        snippet: text.snippet,
        undo_group: text.undo_group,
        redo_group: text.redo_group,
        ..document
    }
}

/// What a tab bar needs to draw one tab.
#[derive(Debug, Clone, PartialEq, Eq)]
pub struct TabLabel {
    /// The file name, or `Untitled`.
    pub title: String,
    /// Whether the document differs from disk.
    pub dirty: bool,
    /// Whether this is the tab on screen.
    pub active: bool,
}

/// A [`TabLabel`], as a value in contracts.
#[verifier::ext_equal]
pub struct Label {
    pub title: Seq<char>,
    pub dirty: bool,
    pub active: bool,
}

impl View for TabLabel {
    type V = Label;

    open spec fn view(&self) -> Label {
        Label { title: self.title@, dirty: self.dirty, active: self.active }
    }
}

/// The labels of a list.
pub open spec fn labels(list: Seq<TabLabel>) -> Seq<Label> {
    Seq::new(list.len(), |i: int| list[i]@)
}

/// One label per tab, in display order.
pub open spec fn labels_of<B, S>(tabs: Seq<Tab<B, S>>, active: int) -> Seq<Label> {
    Seq::new(
        tabs.len(),
        |i: int|
            Label {
                title: title_of(tabs[i].document.path),
                dirty: tabs[i].document.dirty,
                active: i == active,
            },
    )
}

/// What is drawn besides the text of a comparison.
#[derive(Debug)]
pub struct ComparisonPane<'a> {
    /// `HEAD`, `Index`, or `Working Tree`.
    pub label: &'static str,
    /// One entry per document line.
    pub lines: &'a Vec<ComparisonLine>,
}

/// One editor group, as something drawing it sees it.
#[derive(Debug)]
pub struct Pane<'a, B, S> {
    /// The document showing in this group.
    pub document: &'a Document<B>,
    /// This group's own view onto it.
    pub view: &'a Viewport,
    /// The server's classification of that document; none for a comparison.
    pub semantic: Option<&'a Vec<S>>,
    /// The problems published for it; none for a comparison.
    pub diagnostics: Option<&'a Vec<Diagnostic>>,
    /// The tabs open in this group, in display order.
    pub tabs: Vec<TabLabel>,
    /// Whether this is the group with the keyboard.
    pub focused: bool,
    /// Labels and line decoration, for a comparison.
    pub comparison: Option<ComparisonPane<'a>>,
}

/// Whether `pane` shows the active document through `view`.
pub open spec fn shows_active<B, S, M>(
    pane: Pane<'_, B, S>,
    s: Session<B, S, M>,
    view: Viewport,
    focused: bool,
) -> bool {
    &&& *pane.document == s.active.document
    &&& *pane.view == view
    &&& pane.semantic matches Some(semantic) && *semantic == s.active.semantic
    &&& pane.diagnostics matches Some(diagnostics) && *diagnostics == s.active.diagnostics
    &&& labels(pane.tabs@) == labels_of(s.tabs(), s.left@.len() as int)
    &&& pane.focused == focused
    &&& pane.comparison is None
}

/// Whether `pane` shows one side of a comparison.
pub open spec fn shows_side<B, S>(
    pane: Pane<'_, B, S>,
    side: ComparisonSide<B>,
    focused: bool,
) -> bool {
    &&& *pane.document == side.document
    &&& *pane.view == side.view
    &&& pane.semantic is None
    &&& pane.diagnostics is None
    &&& labels(pane.tabs@) == seq![
        Label { title: side.label@, dirty: false, active: focused },
    ]
    &&& pane.focused == focused
    &&& pane.comparison matches Some(shown) && shown.label == side.label && *shown.lines
        == side.lines
}

/// How many editor groups there are.
pub open spec fn groups_shown<B>(groups: Groups<B>) -> int {
    if groups.comparison is Some || groups.split_view is Some {
        2
    } else {
        1
    }
}

/// The tab to be shown, with the window's size and the query that is carried over to it.
pub open spec fn brought<B, S>(chosen: Tab<B, S>, shown: Tab<B, S>) -> Tab<B, S> {
    Tab {
        view: Viewport {
            width: shown.view.width,
            height: shown.view.height,
            ..chosen.view
        },
        find: if chosen.find.query@.len() == 0 && shown.find.query@.len() > 0 {
            Find { query: shown.find.query, ..chosen.find }
        } else {
            chosen.find
        },
        ..chosen
    }
}

/// The session with the active view's caret to be brought on screen.
pub open spec fn revealing_active<B, S, M>(s: Session<B, S, M>) -> Session<B, S, M> {
    Session {
        active: Tab { view: Viewport { reveal: true, ..s.active.view }, ..s.active },
        ..s
    }
}

/// Whether `after` is `before` with the tab at `index` on screen. The tabs keep their order.
pub open spec fn switched<B, S, M>(
    before: Session<B, S, M>,
    after: Session<B, S, M>,
    index: int,
) -> bool {
    if index == before.left@.len() {
        after == before
    } else {
        let all = before.tabs();
        let i = if index < all.len() {
            index
        } else {
            all.len() - 1
        };
        let mid = Session {
            left: after.left,
            right: after.right,
            active: brought(all[i], before.active),
            ..before
        };
        &&& after.left@ == all.take(i)
        &&& after.right@ == all.skip(i + 1)
        &&& after == revealing_active(laid_out(mid))
    }
}

/// Whether the document on screen is one that was never saved and never typed into.
pub open spec fn pristine<B>(document: Document<B>) -> bool {
    document.path is None && !document.dirty && document.empty
}

/// Whether the tab shows a document for the first time, in a window of this size.
pub open spec fn newly_shown<B, S>(
    tab: Tab<B, S>,
    document: Document<B>,
    width: usize,
    height: usize,
) -> bool {
    &&& tab.document == document
    &&& tab.view.is_fresh(width, height)
    &&& tab.diagnostics@.len() == 0
    &&& tab.semantic@.len() == 0
}

/// The find bar of a newly opened document: closed, with the query that was searched for last.
pub open spec fn carried_find(find: Find, shown: Find, kept: bool) -> bool {
    if kept {
        find.is_closed(shown)
    } else {
        find.query@ == shown.query@ && find.is_unused()
    }
}

/// Whether `after` is `before` with `document` in a tab of its own, on screen. A document that
/// was never saved and never typed into gives way to it.
pub open spec fn added<B, S, M>(
    before: Session<B, S, M>,
    after: Session<B, S, M>,
    document: Document<B>,
) -> bool {
    exists|tab: Tab<B, S>, left: Vec<Tab<B, S>>|
        {
            &&& newly_shown(
                tab,
                document,
                before.active.view.width,
                before.active.view.height,
            )
            &&& carried_find(tab.find, before.active.find, pristine(before.active.document))
            &&& left@ == if pristine(before.active.document) {
                before.left@
            } else {
                before.left@.push(before.active)
            }
            &&& after == #[trigger] laid_out(Session { active: tab, left, ..before })
        }
}

/// Whether `after` is `before` with the file that `document` stands for on screen: in the tab
/// that holds it already, or else in a tab of its own.
pub open spec fn opened<B, S, M>(
    before: Session<B, S, M>,
    after: Session<B, S, M>,
    document: Document<B>,
) -> bool {
    let i = match document.path {
        Some(path) => tab_holding(before.tabs(), path@),
        None => before.tabs().len() as int,
    };
    if i < before.tabs().len() {
        switched(before, after, i)
    } else {
        added(before, after, document)
    }
}

/// Whether `after` is `before` with a blank document in a tab behind the one that was on screen.
pub open spec fn added_blank<B, S, M>(
    before: Session<B, S, M>,
    after: Session<B, S, M>,
    blank: Document<B>,
) -> bool {
    exists|tab: Tab<B, S>, left: Vec<Tab<B, S>>|
        {
            &&& newly_shown(tab, blank, before.active.view.width, before.active.view.height)
            &&& tab.find.is_new()
            &&& left@ == before.left@.push(before.active)
            &&& after == #[trigger] laid_out(Session { active: tab, left, ..before })
        }
}

/// The tab that a step of one leads to, round the ends.
pub open spec fn tab_beside(active: int, count: int, direction: Direction) -> int {
    match direction {
        Direction::Next => (active + 1) % count,
        Direction::Prev => (active + count - 1) % count,
    }
}

/// Whether `after` is `before` once the active tab is closed and its neighbour is on screen: the
/// one behind it, else the one before it, else a blank document.
pub open spec fn closed_tab<B, S, M>(
    before: Session<B, S, M>,
    after: Session<B, S, M>,
    blank: Document<B>,
) -> bool {
    exists|tab: Tab<B, S>, left: Vec<Tab<B, S>>, right: Vec<Tab<B, S>>|
        {
            &&& if before.right@.len() > 0 {
                &&& tab == before.right@[0]
                &&& left@ == before.left@
                &&& right@ == before.right@.skip(1)
            } else if before.left@.len() > 0 {
                &&& tab == before.left@.last()
                &&& left@ == before.left@.drop_last()
                &&& right@ == before.right@
            } else {
                &&& newly_shown(tab, blank, 0, 0)
                &&& tab.find.is_new()
                &&& left@ == before.left@
                &&& right@ == before.right@
            }
            &&& after == #[trigger] laid_out(
                Session {
                    active: Tab {
                        view: Viewport {
                            width: before.active.view.width,
                            height: before.active.view.height,
                            ..tab.view
                        },
                        ..tab
                    },
                    left,
                    right,
                    ..before
                },
            )
        }
}

/// What is said of a document that is not closed.
pub open spec fn unsaved_text(path: Option<PathBuf>) -> Seq<char> {
    title_of(path) + " has unsaved changes — save it first"@
}

/// Whether closing the active tab comes to `outcome`. A document with unsaved changes stays.
pub open spec fn closes_tab<B, S, M>(
    before: Session<B, S, M>,
    after: Session<B, S, M>,
    blank: Document<B>,
    outcome: Outcome,
) -> bool {
    if before.active.document.dirty {
        after == before && outcome.says(unsaved_text(before.active.document.path))
    } else {
        closed_tab(before, after, blank) && outcome is Handled
    }
}

/// Whether closing the editor comes to `outcome`: it closes the comparison, else the second
/// group, else the tab.
pub open spec fn closes_editor<B, S, M>(
    before: Session<B, S, M>,
    after: Session<B, S, M>,
    blank: Document<B>,
    outcome: Outcome,
) -> bool {
    if before.groups.comparison is Some {
        &&& after == laid_out(
            Session { groups: Groups { comparison: None, ..before.groups }, ..before },
        )
        &&& outcome.says("Closed the diff"@)
    } else if before.groups.split_view is Some {
        &&& after == laid_out(
            Session {
                groups: Groups { split_view: None, split_focused: false, ..before.groups },
                ..before
            },
        )
        &&& outcome.says("Closed the second group"@)
    } else {
        closes_tab(before, after, blank, outcome)
    }
}

/// Whether splitting the editor comes to `outcome`.
pub open spec fn splits<B, S, M>(
    before: Session<B, S, M>,
    after: Session<B, S, M>,
    outcome: Outcome,
) -> bool {
    if before.groups.comparison is Some {
        after == before && outcome.says("close the diff before splitting the editor"@)
    } else if before.groups.split_view is Some {
        after == before && outcome.says("the editor is already split"@)
    } else {
        &&& exists|view: Viewport|
            view.same(before.active.view) && after == #[trigger] laid_out(
                Session {
                    groups: Groups {
                        split_view: Some(view),
                        split_focused: true,
                        ..before.groups
                    },
                    ..before
                },
            )
        &&& outcome.says("Split editor — ctrl+1 and ctrl+2 move between them"@)
    }
}

/// What is said where there is no group of that number.
pub open spec fn no_group_text(count: int) -> Seq<char> {
    if count == 1 {
        "there is only one editor group"@
    } else {
        "there are only "@ + decimal_of(count as nat) + " editor groups"@
    }
}

/// The session with the two groups' views exchanged, and this find bar.
pub open spec fn views_exchanged<B, S, M>(s: Session<B, S, M>, find: Find) -> Session<B, S, M> {
    let active = Tab {
        view: match s.groups.split_view {
            Some(other) => other,
            None => s.active.view,
        },
        find,
        ..s.active
    };
    Session {
        active,
        groups: Groups {
            split_view: match s.groups.split_view {
                Some(_) => Some(s.active.view),
                None => None,
            },
            split_focused: !s.groups.split_focused,
            ..s.groups
        },
        ..s
    }
}

/// Whether `after` is `before` with the keyboard in the first or the second group. The find bar is
/// closed: what it found, it found from where the other group looks.
pub open spec fn group_focused<B, S, M>(
    before: Session<B, S, M>,
    after: Session<B, S, M>,
    second: bool,
) -> bool {
    match before.groups.comparison {
        Some(comparison) => after == (Session {
            groups: Groups {
                comparison: Some(ComparisonView { focused_right: second, ..comparison }),
                ..before.groups
            },
            ..before
        }),
        None => if second == before.groups.split_focused {
            after == before
        } else {
            exists|find: Find| #[trigger]
                find.is_closed(before.active.find) && after == laid_out(
                    views_exchanged(before, find),
                )
        },
    }
}

/// Whether moving the keyboard to a group comes to `outcome`.
pub open spec fn focuses_group<B, S, M>(
    before: Session<B, S, M>,
    after: Session<B, S, M>,
    index: int,
    outcome: Outcome,
) -> bool {
    let count = groups_shown(before.groups);
    if index >= count {
        after == before && outcome.says(no_group_text(count))
    } else {
        group_focused(before, after, index == 1) && outcome is Handled
    }
}

/// The titles of the documents with unsaved changes, in tab order.
pub open spec fn unsaved_titles<B, S>(tabs: Seq<Tab<B, S>>) -> Seq<Seq<char>>
    decreases tabs.len(),
{
    if tabs.len() == 0 {
        Seq::empty()
    } else if tabs.last().document.dirty {
        unsaved_titles(tabs.drop_last()).push(title_of(tabs.last().document.path))
    } else {
        unsaved_titles(tabs.drop_last())
    }
}

/// What is said where quitting is refused.
pub open spec fn quit_text(titles: Seq<Seq<char>>) -> Seq<char> {
    decimal_of(titles.len()) + " "@ + (if titles.len() == 1 {
        "tab has"@
    } else {
        "tabs have"@
    }) + " unsaved changes: "@ + joined_with(titles, ", "@) + " — ctrl+q again to quit anyway"@
}

/// Whether quitting comes to `outcome`: it is refused while anything is unsaved, unless it was
/// refused just before.
pub open spec fn quits<B, S, M>(
    before: Session<B, S, M>,
    after: Session<B, S, M>,
    outcome: Outcome,
) -> bool {
    let titles = unsaved_titles(before.tabs());
    if before.quit_refused {
        after == (Session { quit_refused: false, ..before }) && outcome is Quit
    } else if titles.len() == 0 {
        after == before && outcome is Quit
    } else {
        after == (Session { quit_refused: true, ..before }) && outcome.says(quit_text(titles))
    }
}

/// The document as it is once it has been saved.
pub open spec fn saved<B>(document: Document<B>) -> Document<B> {
    Document { dirty: false, sealed: true, ..document }
}

/// The session with its document saved.
pub open spec fn active_saved<B, S, M>(s: Session<B, S, M>) -> Session<B, S, M> {
    Session {
        active: Tab { document: saved(s.active.document), ..s.active },
        scm: Repository { wanted: true, ..s.scm },
        ..s
    }
}

impl<B, S, M> Session<B, S, M> {
    /// How many tabs are open. Never zero: the session always shows a document.
    pub fn tab_count(&self) -> (r: usize)
        requires
            self.tabs().len() <= usize::MAX,
        ensures
            r == self.tabs().len(),
            r >= 1,
    {
        self.left.len() + 1 + self.right.len()
    }

    /// The display index of the active tab.
    pub fn active_tab(&self) -> (r: usize)
        ensures
            r == self.left@.len(),
            self.tabs()[r as int] == self.active,
    {
        self.left.len()
    }

    /// The tab at a display index.
    pub fn tab_at(&self, index: usize) -> (r: &Tab<B, S>)
        requires
            index < self.tabs().len(),
        ensures
            *r == self.tabs()[index as int],
    {
        if index < self.left.len() {
            &self.left[index]
        } else if index == self.left.len() {
            &self.active
        } else {
            &self.right[index - self.left.len() - 1]
        }
    }

    /// The tab at a display index, to be changed.
    pub fn tab_at_mut(&mut self, index: usize) -> (r: &mut Tab<B, S>)
        requires
            index < old(self).tabs().len(),
        ensures
            *r == old(self).tabs()[index as int],
            final(self).tabs() == old(self).tabs().update(index as int, *final(r)),
            final(self).left@.len() == old(self).left@.len(),
            final(self).right@.len() == old(self).right@.len(),
            *final(self) == (Session {
                left: final(self).left,
                active: final(self).active,
                right: final(self).right,
                ..*old(self)
            }),
    {
        if index < self.left.len() {
            &mut self.left[index]
        } else if index == self.left.len() {
            &mut self.active
        } else {
            let k: usize = index - self.left.len() - 1;
            &mut self.right[k]
        }
    }

    /// The display index of the tab holding `path`, if any tab does.
    ///
    /// Paths are compared resolved, so that one file is never open twice under two spellings.
    pub fn tab_of(&self, path: &PathBuf) -> (r: Option<usize>)
        requires
            self.tabs().len() <= usize::MAX,
        ensures
            match r {
                Some(i) => i < self.tabs().len() && tab_holding(self.tabs(), path@) == i,
                None => tab_holding(self.tabs(), path@) == self.tabs().len(),
            },
    {
        let count: usize = self.tab_count();
        let mut i: usize = 0;
        assert(self.tabs().skip(0) =~= self.tabs());
        while i < count
            invariant
                i <= count,
                count == self.tabs().len(),
                tab_holding(self.tabs(), path@) == i + tab_holding(
                    self.tabs().skip(i as int),
                    path@,
                ),
            decreases count - i,
        {
            assert(self.tabs().skip(i as int)[0] == self.tabs()[i as int]);
            if self.tab_at(i).document.stands_for(path) {
                return Some(i);
            }
            assert(self.tabs().skip(i as int).skip(1) =~= self.tabs().skip(i + 1));
            i = i + 1;
        }
        None
    }

    /// How many editor groups there are.
    pub fn group_count(&self) -> (r: usize)
        ensures
            r == groups_shown(self.groups),
    {
        if self.groups.comparison.is_some() || self.groups.split_view.is_some() {
            2
        } else {
            1
        }
    }

    /// One label per tab, in display order, for the tab bar.
    pub fn tab_labels(&self) -> (r: Vec<TabLabel>)
        requires
            self.tabs().len() <= usize::MAX,
        ensures
            labels(r@) == labels_of(self.tabs(), self.left@.len() as int),
    {
        let count: usize = self.tab_count();
        let active: usize = self.active_tab();
        let mut r: Vec<TabLabel> = Vec::new();
        let mut i: usize = 0;
        while i < count
            invariant
                i <= count,
                count == self.tabs().len(),
                active == self.left@.len(),
                r@.len() == i,
                forall|j: int|
                    0 <= j < i ==> (#[trigger] r@[j])@ == labels_of(
                        self.tabs(),
                        self.left@.len() as int,
                    )[j],
            decreases count - i,
        {
            let tab: &Tab<B, S> = self.tab_at(i);
            r.push(
                TabLabel {
                    title: tab.document.title(),
                    dirty: tab.document.dirty,
                    active: i == active,
                },
            );
            i = i + 1;
        }
        assert(labels(r@) =~= labels_of(self.tabs(), self.left@.len() as int));
        r
    }

    /// One group, described for whoever is drawing it.
    fn pane<'a>(&'a self, view: &'a Viewport, focused: bool) -> (r: Pane<'a, B, S>)
        requires
            self.tabs().len() <= usize::MAX,
        ensures
            shows_active(r, *self, *view, focused),
    {
        Pane {
            document: &self.active.document,
            view,
            semantic: Some(&self.active.semantic),
            diagnostics: Some(&self.active.diagnostics),
            tabs: self.tab_labels(),
            focused,
            comparison: None,
        }
    }

    /// One side of a comparison, described for whoever is drawing it.
    fn side_pane<'a>(side: &'a ComparisonSide<B>, focused: bool) -> (r: Pane<'a, B, S>)
        ensures
            shows_side(r, *side, focused),
    {
        let mut tabs: Vec<TabLabel> = Vec::new();
        tabs.push(TabLabel { title: side.label.to_owned(), dirty: false, active: focused });
        assert(labels(tabs@) =~= seq![
            Label { title: side.label@, dirty: false, active: focused },
        ]);
        Pane {
            document: &side.document,
            view: &side.view,
            semantic: None,
            diagnostics: None,
            tabs,
            focused,
            comparison: Some(ComparisonPane { label: side.label, lines: &side.lines }),
        }
    }

    /// Every editor group, in the order they sit on screen: both sides of a comparison where one
    /// is shown, else the group with the keyboard and the other one, if there is one.
    pub fn panes(&self) -> (r: Vec<Pane<'_, B, S>>)
        requires
            self.tabs().len() <= usize::MAX,
        ensures
            r@.len() == groups_shown(self.groups),
            match self.groups.comparison {
                Some(comparison) => {
                    &&& shows_side(r@[0], comparison.left, !comparison.focused_right)
                    &&& shows_side(r@[1], comparison.right, comparison.focused_right)
                },
                None => match self.groups.split_view {
                    Some(other) => if self.groups.split_focused {
                        &&& shows_active(r@[0], *self, other, false)
                        &&& shows_active(r@[1], *self, self.active.view, true)
                    } else {
                        &&& shows_active(r@[0], *self, self.active.view, true)
                        &&& shows_active(r@[1], *self, other, false)
                    },
                    None => shows_active(r@[0], *self, self.active.view, true),
                },
            },
    {
        let mut panes: Vec<Pane<'_, B, S>> = Vec::new();
        if let Some(comparison) = &self.groups.comparison {
            panes.push(Self::side_pane(&comparison.left, !comparison.focused_right));
            panes.push(Self::side_pane(&comparison.right, comparison.focused_right));
            return panes;
        }
        match &self.groups.split_view {
            Some(other) => if self.groups.split_focused {
                panes.push(self.pane(other, false));
                panes.push(self.pane(&self.active.view, true));
            } else {
                panes.push(self.pane(&self.active.view, true));
                panes.push(self.pane(other, false));
            },
            None => {
                panes.push(self.pane(&self.active.view, true));
            },
        }
        panes
    }

    /// Puts the tab at `i` in place of the active one, which takes its own place among the
    /// others.
    fn exchange(&mut self, i: usize)
        requires
            old(self).tabs().len() <= usize::MAX,
            i < old(self).tabs().len(),
        ensures
            final(self).left@ == old(self).tabs().take(i as int),
            final(self).right@ == old(self).tabs().skip(i + 1),
            *final(self) == (Session {
                left: final(self).left,
                active: old(self).tabs()[i as int],
                right: final(self).right,
                ..*old(self)
            }),
    {
        let active: usize = self.active_tab();
        let ghost all = self.tabs();
        if i < active {
            let mut chosen: Tab<B, S> = self.left.remove(i);
            std::mem::swap(&mut self.active, &mut chosen);
            let mut tail: Vec<Tab<B, S>> = self.left.split_off(i);
            tail.push(chosen);
            tail.append(&mut self.right);
            self.right = tail;
        } else if i > active {
            let k: usize = i - active - 1;
            let mut chosen: Tab<B, S> = self.right.remove(k);
            std::mem::swap(&mut self.active, &mut chosen);
            self.left.push(chosen);
            let rest: Vec<Tab<B, S>> = self.right.split_off(k);
            self.left.append(&mut self.right);
            self.right = rest;
        }
        assert(self.left@ =~= all.take(i as int));
        assert(self.right@ =~= all.skip(i + 1));
    }

    /// Makes the tab at display index `index` active; the last one where there is none of that
    /// index.
    pub fn switch_to(&mut self, index: usize)
        requires
            old(self).tabs().len() <= usize::MAX,
        ensures
            switched(*old(self), *final(self), index as int),
    {
        let count: usize = self.tab_count();
        if index == self.active_tab() {
            return;
        }
        let i: usize = if index < count {
            index
        } else {
            count - 1
        };
        let width: usize = self.active.view.width;
        let height: usize = self.active.view.height;
        let carried: String = self.active.find.query.clone();
        self.exchange(i);
        self.active.view.width = width;
        self.active.view.height = height;
        if self.active.find.query.as_str().is_empty() && !carried.as_str().is_empty() {
            self.active.find.query = carried;
        }
        let ghost mid = *self;
        assert(mid.active == brought(old(self).tabs()[i as int], old(self).active));
        self.lay_out();
        self.active.view.reveal = true;
        proof {
            law_laying_out_changes_sizes_alone(mid);
            assert(mid == (Session {
                left: self.left,
                right: self.right,
                active: brought(old(self).tabs()[i as int], old(self).active),
                ..*old(self)
            }));
        }
    }

    /// Opens a file: in the tab that holds it already, or else in a tab of its own.
    ///
    /// The query of the last search is carried over, so that searching goes on in the new file.
    pub fn open(&mut self, document: Document<B>)
        requires
            old(self).tabs().len() < usize::MAX,
        ensures
            exists|mid: Session<B, S, M>|
                opened(*old(self), mid, document) && #[trigger] refreshed(mid, *final(self)),
    {
        let known: Option<usize> = match &document.path {
            Some(path) => self.tab_of(path),
            None => None,
        };
        match known {
            Some(index) => {
                self.switch_to(index);
            },
            None => {
                self.add_tab(document);
            },
        }
        let ghost mid = *self;
        assert(opened(*old(self), mid, document));
        self.refresh_context();
        assert(refreshed(mid, *self));
    }

    /// Puts a document into a tab of its own, on screen.
    fn add_tab(&mut self, document: Document<B>)
        ensures
            added(*old(self), *final(self), document),
    {
        let ghost before = *self;
        let kept: bool = self.active.document.path.is_none() && !self.active.document.dirty
            && self.active.document.empty;
        let width: usize = self.active.view.width;
        let height: usize = self.active.view.height;
        let mut find: Find = Find::new();
        if kept {
            std::mem::swap(&mut find, &mut self.active.find);
            find.close();
        } else {
            find.query = self.active.find.query.clone();
        }
        let mut tab: Tab<B, S> = Tab {
            document,
            view: Viewport::fresh(width, height),
            diagnostics: Vec::new(),
            semantic: Vec::new(),
            find,
        };
        let ghost shown = tab;
        assert(carried_find(shown.find, before.active.find, kept));
        std::mem::swap(&mut self.active, &mut tab);
        if !kept {
            self.left.push(tab);
        }
        let ghost left = self.left;
        assert(*self == (Session { active: shown, left, ..before }));
        self.lay_out();
    }

    /// The next or previous tab, wrapping.
    pub fn cycle_tab(&mut self, direction: Direction) -> (r: Outcome)
        requires
            old(self).tabs().len() < usize::MAX / 2,
        ensures
            r is Handled,
            old(self).tabs().len() == 1 ==> *final(self) == *old(self),
            old(self).tabs().len() > 1 ==> switched(
                *old(self),
                *final(self),
                tab_beside(old(self).left@.len() as int, old(self).tabs().len() as int, direction),
            ),
    {
        let count: usize = self.tab_count();
        if count == 1 {
            return Outcome::Handled;
        }
        let active: usize = self.active_tab();
        let target: usize = match direction {
            Direction::Next => (active + 1) % count,
            Direction::Prev => (active + count - 1) % count,
        };
        self.switch_to(target);
        Outcome::Handled
    }

    /// Splits the editor, giving the same document a second view, which takes the keyboard.
    pub fn split(&mut self) -> (r: Outcome)
        ensures
            splits(*old(self), *final(self), r),
    {
        if self.groups.comparison.is_some() {
            return Outcome::Message("close the diff before splitting the editor".to_owned());
        }
        if self.groups.split_view.is_some() {
            return Outcome::Message("the editor is already split".to_owned());
        }
        let view: Viewport = self.active.view.copy();
        let ghost other = view;
        self.groups.split_view = Some(view);
        self.groups.split_focused = true;
        assert(other.same(old(self).active.view));
        let ghost before = *old(self);
        assert(*self == (Session {
            groups: crate::session::state::Groups {
                split_view: Some(other),
                split_focused: true,
                ..before.groups
            },
            ..before
        }));
        self.lay_out();
        Outcome::Message("Split editor — ctrl+1 and ctrl+2 move between them".to_owned())
    }

    /// Moves the keyboard to group `index`, counting from zero on screen.
    pub fn focus_group(&mut self, index: usize) -> (r: Outcome)
        ensures
            focuses_group(*old(self), *final(self), index as int, r),
    {
        let count: usize = self.group_count();
        if index >= count {
            if count == 1 {
                return Outcome::Message("there is only one editor group".to_owned());
            }
            let mut message: String = "there are only ".to_owned();
            let number: String = decimal(count as u64);
            message.append(number.as_str());
            message.append(" editor groups");
            return Outcome::Message(message);
        }
        let second: bool = index == 1;
        match self.groups.comparison.take() {
            Some(comparison) => {
                let mut comparison: ComparisonView<B> = comparison;
                comparison.focused_right = second;
                self.groups.comparison = Some(comparison);
            },
            None => {
                if second != self.groups.split_focused {
                    match self.groups.split_view.take() {
                        Some(other) => {
                            let mut other: Viewport = other;
                            std::mem::swap(&mut other, &mut self.active.view);
                            self.groups.split_view = Some(other);
                        },
                        None => {},
                    }
                    self.groups.split_focused = second;
                    self.active.find.close();
                    let ghost bar = self.active.find;
                    assert(bar.is_closed(old(self).active.find));
                    self.lay_out();
                }
            },
        }
        Outcome::Handled
    }

    /// The titles of the documents with unsaved changes, in tab order.
    fn titles_of_unsaved(&self) -> (r: Vec<String>)
        requires
            self.tabs().len() <= usize::MAX,
        ensures
            views(r@) == unsaved_titles(self.tabs()),
    {
        let count: usize = self.tab_count();
        let mut r: Vec<String> = Vec::new();
        let mut i: usize = 0;
        assert(views(r@) =~= unsaved_titles(self.tabs().take(0)));
        while i < count
            invariant
                i <= count,
                count == self.tabs().len(),
                views(r@) == unsaved_titles(self.tabs().take(i as int)),
            decreases count - i,
        {
            let tab: &Tab<B, S> = self.tab_at(i);
            let ghost before = views(r@);
            proof {
                assert(self.tabs().take(i + 1).drop_last() =~= self.tabs().take(i as int));
            }
            if tab.document.dirty {
                r.push(tab.document.title());
                assert(views(r@) =~= before.push(title_of(tab.document.path)));
            }
            i = i + 1;
        }
        assert(self.tabs().take(count as int) =~= self.tabs());
        r
    }

    /// Refuses to quit while anything is unsaved, and names what.
    ///
    /// Asking a second time quits anyway, so that leaving is never prevented. It must be the very
    /// next thing asked for: quitting later starts the check again.
    pub fn quit(&mut self) -> (r: Outcome)
        requires
            old(self).tabs().len() <= usize::MAX,
        ensures
            quits(*old(self), *final(self), r),
    {
        if self.quit_refused {
            self.quit_refused = false;
            return Outcome::Quit;
        }
        let titles: Vec<String> = self.titles_of_unsaved();
        assert(unsaved_titles(self.tabs()).len() == titles@.len());
        if titles.len() == 0 {
            return Outcome::Quit;
        }
        self.quit_refused = true;
        let mut message: String = decimal(titles.len() as u64);
        message.append(" ");
        message.append(
            if titles.len() == 1 {
                "tab has"
            } else {
                "tabs have"
            },
        );
        message.append(" unsaved changes: ");
        let list: String = join(&titles, ", ");
        message.append(list.as_str());
        message.append(" — ctrl+q again to quit anyway");
        Outcome::Message(message)
    }

    /// Closes the active tab.
    ///
    /// A document with unsaved changes is not closed: a keystroke must not discard edits. Closing
    /// the last tab leaves `blank`, because the session always shows a document.
    pub fn close_active_tab(&mut self, blank: Document<B>) -> (r: Outcome)
        ensures
            closes_tab(*old(self), *final(self), blank, r),
    {
        if self.active.document.dirty {
            let mut message: String = self.active.document.title();
            message.append(" has unsaved changes — save it first");
            return Outcome::Message(message);
        }
        let ghost before = *self;
        let width: usize = self.active.view.width;
        let height: usize = self.active.view.height;
        let replacement: Tab<B, S> = if self.right.len() > 0 {
            let tab: Tab<B, S> = self.right.remove(0);
            assert(self.right@ =~= before.right@.skip(1));
            tab
        } else {
            match self.left.pop() {
                Some(tab) => {
                    assert(self.left@ =~= before.left@.drop_last());
                    tab
                },
                None => Tab {
                    document: blank,
                    view: Viewport::fresh(0, 0),
                    diagnostics: Vec::new(),
                    semantic: Vec::new(),
                    find: Find::new(),
                },
            }
        };
        let ghost tab = replacement;
        let ghost left = self.left;
        let ghost right = self.right;
        self.active = replacement;
        self.active.view.width = width;
        self.active.view.height = height;
        let ghost mid = *self;
        assert(mid == (Session {
            active: Tab {
                view: Viewport {
                    width: before.active.view.width,
                    height: before.active.view.height,
                    ..tab.view
                },
                ..tab
            },
            left,
            right,
            ..before
        }));
        self.lay_out();
        Outcome::Handled
    }

    /// Closes the comparison where one is shown, else the second group, else the tab.
    pub fn close_editor(&mut self, blank: Document<B>) -> (r: Outcome)
        ensures
            closes_editor(*old(self), *final(self), blank, r),
    {
        if self.groups.comparison.is_some() {
            self.groups.comparison = None;
            self.lay_out();
            return Outcome::Message("Closed the diff".to_owned());
        }
        if self.groups.split_view.is_some() {
            self.groups.split_view = None;
            self.groups.split_focused = false;
            self.lay_out();
            return Outcome::Message("Closed the second group".to_owned());
        }
        self.close_active_tab(blank)
    }

    /// A fresh untitled document in a new tab, on screen.
    pub fn new_untitled_tab(&mut self, blank: Document<B>) -> (r: Outcome)
        ensures
            r is Handled,
            added_blank(*old(self), *final(self), blank),
    {
        let ghost before = *self;
        let mut tab: Tab<B, S> = Tab {
            document: blank,
            view: Viewport::fresh(self.active.view.width, self.active.view.height),
            diagnostics: Vec::new(),
            semantic: Vec::new(),
            find: Find::new(),
        };
        let ghost shown = tab;
        std::mem::swap(&mut self.active, &mut tab);
        self.left.push(tab);
        let ghost left = self.left;
        assert(*self == (Session { active: shown, left, ..before }));
        self.lay_out();
        Outcome::Handled
    }
}

// ---------------------------------------------------------------------------
// Laws
// ---------------------------------------------------------------------------

/// Switching tabs keeps every tab in its place: only the size and the carried query of the one
/// that comes on screen may change.
pub proof fn law_switching_keeps_the_tabs<B, S, M>(
    before: Session<B, S, M>,
    after: Session<B, S, M>,
    index: int,
    i: int,
)
    requires
        switched(before, after, index),
        0 <= index < before.tabs().len(),
        0 <= i < before.tabs().len(),
    ensures
        after.tabs().len() == before.tabs().len(),
        after.left@.len() == index,
        after.tabs()[i].document == before.tabs()[i].document,
        i != index ==> after.tabs()[i] == before.tabs()[i],
{
    if index == before.left@.len() {
    } else {
        let all = before.tabs();
        law_laying_out_changes_sizes_alone(
            Session {
                left: after.left,
                right: after.right,
                active: brought(all[index], before.active),
                ..before
            },
        );
        if i < index {
            assert(after.tabs()[i] == after.left@[i]);
            assert(all.take(index)[i] == all[i]);
        } else if i > index {
            assert(after.tabs()[i] == after.right@[i - index - 1]);
            assert(all.skip(index + 1)[i - index - 1] == all[i]);
        } else {
            assert(after.tabs()[i] == after.active);
        }
    }
}

/// A step forward and a step back lead to the tab they began at.
pub proof fn law_cycling_back_undoes_cycling(active: int, count: int)
    requires
        0 <= active < count,
    ensures
        tab_beside(tab_beside(active, count, Direction::Next), count, Direction::Prev) == active,
        0 <= tab_beside(active, count, Direction::Next) < count,
        0 <= tab_beside(active, count, Direction::Prev) < count,
{
    let next = tab_beside(active, count, Direction::Next);
    if active + 1 == count {
        assert(next == 0) by (nonlinear_arith)
            requires
                next == (active + 1) % count,
                active + 1 == count,
                count > 0,
        ;
        assert((next + count - 1) % count == count - 1) by (nonlinear_arith)
            requires
                next == 0,
                count > 0,
        ;
    } else {
        assert(next == active + 1) by (nonlinear_arith)
            requires
                next == (active + 1) % count,
                0 <= active + 1 < count,
        ;
        assert((next + count - 1) % count == active) by (nonlinear_arith)
            requires
                next == active + 1,
                0 <= active < count,
        ;
    }
    assert(0 <= (active + count - 1) % count < count) by (nonlinear_arith)
        requires
            count > 0,
    ;
}

proof fn lemma_tab_holding<B, S>(tabs: Seq<Tab<B, S>>, path: Seq<Part>)
    ensures
        0 <= tab_holding(tabs, path) <= tabs.len(),
        tab_holding(tabs, path) < tabs.len() ==> is_at(
            tabs[tab_holding(tabs, path)].document,
            path,
        ),
        tab_holding(tabs, path) == tabs.len() ==> forall|i: int|
            0 <= i < tabs.len() ==> !is_at((#[trigger] tabs[i]).document, path),
    decreases tabs.len(),
{
    if tabs.len() > 0 {
        let rest = tabs.skip(1);
        lemma_tab_holding(rest, path);
        if !is_at(tabs[0].document, path) {
            let k = tab_holding(rest, path);
            if k < rest.len() {
                assert(rest[k] == tabs[k + 1]);
            } else {
                assert forall|i: int| 0 <= i < tabs.len() implies !is_at(
                    (#[trigger] tabs[i]).document,
                    path,
                ) by {
                    if i > 0 {
                        assert(rest[i - 1] == tabs[i]);
                    }
                }
            }
        }
    }
}

/// A file that is open already is not opened again, however its path is written: the number of
/// tabs stays, and the tab that holds it comes on screen.
pub proof fn law_a_file_is_never_open_twice<B, S, M>(
    before: Session<B, S, M>,
    after: Session<B, S, M>,
    document: Document<B>,
    i: int,
)
    requires
        opened(before, after, document),
        document.path is Some,
        0 <= i < before.tabs().len(),
        is_at(before.tabs()[i].document, document.path->Some_0@),
    ensures
        after.tabs().len() == before.tabs().len(),
        is_at(after.active.document, document.path->Some_0@),
{
    let path = document.path->Some_0@;
    lemma_tab_holding(before.tabs(), path);
    let k = tab_holding(before.tabs(), path);
    law_switching_keeps_the_tabs(before, after, k, k);
    assert(after.tabs()[k] == after.active);
}

/// Opening a file that no tab holds shows it, and keeps every tab but a blank one.
pub proof fn law_opening_keeps_what_was_open<B, S, M>(
    before: Session<B, S, M>,
    after: Session<B, S, M>,
    document: Document<B>,
)
    requires
        added(before, after, document),
    ensures
        after.active.document == document,
        after.right@ == before.right@,
        after.left@ == before.left@ || after.left@ == before.left@.push(before.active),
        !pristine(before.active.document) ==> after.tabs().len() == before.tabs().len() + 1,
{
    let (tab, left) = choose|tab: Tab<B, S>, left: Vec<Tab<B, S>>|
        {
            &&& newly_shown(
                tab,
                document,
                before.active.view.width,
                before.active.view.height,
            )
            &&& carried_find(tab.find, before.active.find, pristine(before.active.document))
            &&& left@ == if pristine(before.active.document) {
                before.left@
            } else {
                before.left@.push(before.active)
            }
            &&& after == #[trigger] laid_out(Session { active: tab, left, ..before })
        };
    law_laying_out_changes_sizes_alone(Session { active: tab, left, ..before });
}

/// Closing a tab discards no unsaved change.
pub proof fn law_closing_discards_no_changes<B, S, M>(
    before: Session<B, S, M>,
    after: Session<B, S, M>,
    blank: Document<B>,
    outcome: Outcome,
)
    requires
        closes_tab(before, after, blank, outcome),
        before.active.document.dirty,
    ensures
        after == before,
{
}

/// Closing a tab leaves at least one open, and removes no other.
pub proof fn law_closing_leaves_a_document<B, S, M>(
    before: Session<B, S, M>,
    after: Session<B, S, M>,
    blank: Document<B>,
)
    requires
        closed_tab(before, after, blank),
    ensures
        after.tabs().len() >= 1,
        before.tabs().len() > 1 ==> after.tabs().len() == before.tabs().len() - 1,
        before.tabs().len() == 1 ==> after.tabs().len() == 1 && after.active.document == blank,
{
    assert forall|s: Session<B, S, M>| after == #[trigger] laid_out(s) implies after.left == s.left
        && after.right == s.right && after.active.document == s.active.document by {
        law_laying_out_changes_sizes_alone(s);
    }
}

/// With unsaved work, quitting takes two commands in a row.
pub proof fn law_quitting_with_unsaved_work_takes_two<B, S, M>(
    before: Session<B, S, M>,
    mid: Session<B, S, M>,
    after: Session<B, S, M>,
    first: Outcome,
    second: Outcome,
)
    requires
        !before.quit_refused,
        unsaved_titles(before.tabs()).len() > 0,
        quits(before, mid, first),
        quits(mid, after, second),
    ensures
        !(first is Quit),
        second is Quit,
        mid.tabs() == before.tabs(),
        after == before,
{
}

/// Moving the keyboard to the other group and back changes where no group looks.
pub proof fn law_moving_between_groups_scrolls_nothing<B, S, M>(
    s: Session<B, S, M>,
    there: Session<B, S, M>,
    back: Session<B, S, M>,
)
    requires
        s.groups.comparison is None,
        s.groups.split_view is Some,
        group_focused(s, there, !s.groups.split_focused),
        group_focused(there, back, s.groups.split_focused),
    ensures
        back.active.view.scroll_top == s.active.view.scroll_top,
        back.active.view.scroll_row == s.active.view.scroll_row,
        back.active.view.selections == s.active.view.selections,
        back.active.document == s.active.document,
        back.groups.split_focused == s.groups.split_focused,
{
    assert forall|x: Session<B, S, M>| true implies {
        let y = #[trigger] laid_out(x);
        &&& y.active.document == x.active.document
        &&& y.active.view.scroll_top == x.active.view.scroll_top
        &&& y.active.view.scroll_row == x.active.view.scroll_row
        &&& y.active.view.selections == x.active.view.selections
        &&& y.groups.split_focused == x.groups.split_focused
        &&& y.groups.comparison is Some == x.groups.comparison is Some
        &&& y.groups.split_view is Some == x.groups.split_view is Some
        &&& y.groups.split_view matches Some(a) ==> a.scroll_top
            == x.groups.split_view->Some_0.scroll_top && a.scroll_row
            == x.groups.split_view->Some_0.scroll_row && a.selections
            == x.groups.split_view->Some_0.selections
    } by {
        law_laying_out_changes_sizes_alone(x);
    }
}

} // verus!
