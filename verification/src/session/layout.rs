//! How the window is divided, and what the key bindings may depend on.

use vstd::prelude::*;
use crate::editing::SelectionSet;
use crate::path::PathBuf;
#[allow(unused_imports)]
use crate::path::Part;
use crate::session::state::{
    clone_text, Chrome, ContextKeys, ComparisonView, Divisions, Document, Field, Focus, Prompt,
    PromptKind, Regions, Session, SideBarView, Tab, Viewport,
};
#[allow(unused_imports)]
use crate::session::state::{ComparisonSide, Groups};

verus! {

/// Rows the side bar spends on its heading before the tree starts.
pub const EXPLORER_CHROME_ROWS: usize = 2;

/// How many paths the recency list keeps.
pub const MAX_RECENT: usize = 64;

/// How the window is divided now.
pub open spec fn regions_of(chrome: Chrome) -> Regions {
    if chrome.side_bar && chrome.panel {
        chrome.divisions.with_both
    } else if chrome.side_bar {
        chrome.divisions.with_side_bar
    } else if chrome.panel {
        chrome.divisions.with_panel
    } else {
        chrome.divisions.plain
    }
}

/// `a` less `b`, and nothing where `b` is greater.
pub open spec fn less(a: usize, b: usize) -> usize {
    if a < b {
        0
    } else {
        (a - b) as usize
    }
}

/// The columns that a group of some width leaves for text.
pub open spec fn text_columns(wraps: bool, width: usize, gutter: usize) -> usize {
    if wraps {
        less(width, gutter)
    } else {
        0
    }
}

/// A view with its size.
pub open spec fn sized(view: Viewport, width: usize, height: usize, text_width: usize) -> Viewport {
    Viewport { width, height, text_width, ..view }
}

/// One side of a comparison with its size.
pub open spec fn sized_side<B>(
    side: ComparisonSide<B>,
    width: usize,
    height: usize,
    wraps: bool,
) -> ComparisonSide<B> {
    ComparisonSide {
        view: sized(side.view, width, height, text_columns(wraps, width, side.document.gutter)),
        ..side
    }
}

/// The width of a group: of two, one of the columns; of one, the single column, and the whole
/// editor for the group that is not there.
pub open spec fn group_width(regions: Regions, split: bool, second: bool) -> usize {
    if split {
        if second {
            regions.two_columns.1
        } else {
            regions.two_columns.0
        }
    } else if second {
        regions.editor.width
    } else {
        regions.one_column
    }
}

/// The session with every group given its size and the columns it leaves for text.
#[verifier::opaque]
pub open spec fn laid_out<B, S, M>(s: Session<B, S, M>) -> Session<B, S, M> {
    let regions = regions_of(s.chrome);
    let height = regions.editor.height;
    let wraps = s.chrome.frontend_wraps;
    match s.groups.comparison {
        Some(comparison) => Session {
            groups: Groups {
                comparison: Some(
                    ComparisonView {
                        left: sized_side(
                            comparison.left,
                            regions.two_columns.0,
                            height,
                            wraps,
                        ),
                        right: sized_side(
                            comparison.right,
                            regions.two_columns.1,
                            height,
                            wraps,
                        ),
                        focused_right: comparison.focused_right,
                    },
                ),
                ..s.groups
            },
            ..s
        },
        None => {
            let gutter = s.active.document.gutter;
            let split = s.groups.split_view is Some;
            let second = s.groups.split_focused;
            Session {
                active: Tab {
                    view: sized(
                        s.active.view,
                        regions.editor.width,
                        height,
                        text_columns(wraps, group_width(regions, split, second), gutter),
                    ),
                    ..s.active
                },
                groups: Groups {
                    split_view: match s.groups.split_view {
                        Some(other) => Some(
                            sized(
                                other,
                                regions.editor.width,
                                height,
                                text_columns(
                                    wraps,
                                    group_width(regions, split, !second),
                                    gutter,
                                ),
                            ),
                        ),
                        None => None,
                    },
                    ..s.groups
                },
                ..s
            }
        },
    }
}

/// The session with the carets of its groups to be brought on screen.
pub open spec fn revealing<B, S, M>(s: Session<B, S, M>) -> Session<B, S, M> {
    Session {
        active: Tab { view: Viewport { reveal: true, ..s.active.view }, ..s.active },
        groups: Groups {
            split_view: match s.groups.split_view {
                Some(other) => Some(Viewport { reveal: true, ..other }),
                None => None,
            },
            ..s.groups
        },
        ..s
    }
}

/// The session in a window of another size.
pub open spec fn resized<B, S, M>(
    s: Session<B, S, M>,
    width: usize,
    height: usize,
    divisions: Divisions,
) -> Session<B, S, M> {
    revealing(
        laid_out(
            Session { chrome: Chrome { screen: (width, height), divisions, ..s.chrome }, ..s },
        ),
    )
}

/// The tab without a snippet whose current field the selections have left.
pub open spec fn settled<B, S>(tab: Tab<B, S>) -> Tab<B, S> {
    match tab.document.snippet {
        Some(snippet) => if snippet.current < snippet.stops@.len() && snippet.holds(
            tab.view.selections,
        ) {
            tab
        } else {
            Tab { document: Document { snippet: None, ..tab.document }, ..tab }
        },
        None => tab,
    }
}

/// `recent` without the path.
pub open spec fn without_path(recent: Seq<PathBuf>, path: Seq<Part>) -> Seq<PathBuf>
    decreases recent.len(),
{
    if recent.len() == 0 {
        recent
    } else if recent.last()@ == path {
        without_path(recent.drop_last(), path)
    } else {
        without_path(recent.drop_last(), path).push(recent.last())
    }
}

/// The recency list once `path` has been on screen.
pub open spec fn noted(recent: Seq<PathBuf>, path: Option<PathBuf>) -> Seq<PathBuf> {
    match path {
        None => recent,
        Some(path) => if recent.len() > 0 && recent[0]@ == path@ {
            recent
        } else {
            let all = seq![path] + without_path(recent, path@);
            if all.len() > MAX_RECENT {
                all.take(MAX_RECENT as int)
            } else {
                all
            }
        },
    }
}

/// Whether a prompt asks for something to search the workspace for.
pub open spec fn asks_for_search(prompt: Option<Prompt>) -> bool {
    prompt matches Some(prompt) && prompt.kind == PromptKind::SearchQuery
}

/// The selections of the group with the keyboard.
pub open spec fn shown_selections<B, S, M>(s: Session<B, S, M>) -> SelectionSet {
    match s.groups.comparison {
        Some(comparison) => if comparison.focused_right {
            comparison.right.view.selections
        } else {
            comparison.left.view.selections
        },
        None => s.active.view.selections,
    }
}

/// What the key bindings may depend on.
#[verifier::opaque]
pub open spec fn context_of<B, S, M>(s: Session<B, S, M>) -> ContextKeys {
    let regions = regions_of(s.chrome);
    let finding = s.active.find.visible;
    let replacing = finding && s.active.find.field == Field::Replace;
    let asking = s.prompt is Some;
    let in_side_bar = s.chrome.focus == Focus::SideBar;
    let in_editor = s.chrome.focus == Focus::Editor;
    let in_tree = in_side_bar && s.tree.explorer is Some && s.chrome.side_bar_view
        == SideBarView::Explorer;
    let in_scm = in_side_bar && s.chrome.side_bar_view == SideBarView::SourceControl;
    let selections = shown_selections(s);
    ContextKeys {
        in_snippet_mode: s.active.document.snippet is Some,
        in_quick_open: asking,
        search_viewlet_visible: asks_for_search(s.prompt),
        side_bar_visible: regions.side_bar is Some,
        panel_visible: regions.panel is Some,
        side_bar_focus: in_side_bar,
        panel_focus: s.chrome.focus == Focus::Panel,
        files_explorer_focus: in_tree,
        list_focus: in_tree || in_scm,
        source_control_focus: in_scm,
        scm_provider: s.scm.status is Some,
        explorer_viewlet_visible: regions.side_bar is Some,
        editor_text_focus: in_editor && !finding && !asking,
        editor_focus: in_editor,
        text_input_focus: in_editor,
        find_widget_visible: finding,
        find_input_focussed: finding && !replacing,
        replace_input_focussed: replacing,
        editor_readonly: s.groups.comparison is Some,
        editor_has_selection: selections.selects(),
        editor_has_multiple_selections: selections.others@.len() > 0,
        dirty: s.active.document.dirty,
        editor_has_diagnostics: s.active.diagnostics@.len() > 0,
        editor_lang_id: s.active.document.language_id,
    }
}

/// Whether `after` is `before` with all that is derived brought up to date: a snippet that was
/// left is dropped, the recency list begins with the document on screen, and the context says
/// what is so.
pub open spec fn refreshed<B, S, M>(before: Session<B, S, M>, after: Session<B, S, M>) -> bool {
    let still = Session { active: settled(before.active), ..before };
    &&& after == (Session { recent: after.recent, context: context_of(still), ..still })
    &&& after.recent@ == noted(before.recent@, before.active.document.path)
}

/// `a` less `b`, and nothing where `b` is greater.
fn minus(a: usize, b: usize) -> (r: usize)
    ensures
        r == less(a, b),
{
    if a < b {
        0
    } else {
        a - b
    }
}

/// The columns that a group of some width leaves for text.
fn columns_for_text(wraps: bool, width: usize, gutter: usize) -> (r: usize)
    ensures
        r == text_columns(wraps, width, gutter),
{
    if wraps {
        minus(width, gutter)
    } else {
        0
    }
}

/// The width of a group.
fn width_of_group(regions: &Regions, split: bool, second: bool) -> (r: usize)
    ensures
        r == group_width(*regions, split, second),
{
    if split {
        if second {
            regions.two_columns.1
        } else {
            regions.two_columns.0
        }
    } else if second {
        regions.editor.width
    } else {
        regions.one_column
    }
}

impl Chrome {
    /// How the window is divided now.
    pub fn regions(&self) -> (r: Regions)
        ensures
            r == regions_of(*self),
    {
        if self.side_bar && self.panel {
            self.divisions.with_both
        } else if self.side_bar {
            self.divisions.with_side_bar
        } else if self.panel {
            self.divisions.with_panel
        } else {
            self.divisions.plain
        }
    }
}

impl<B, S, M> Session<B, S, M> {
    /// How the window is currently divided between editor, side bar and panel.
    pub fn regions(&self) -> (r: Regions)
        ensures
            r == regions_of(self.chrome),
    {
        self.chrome.regions()
    }

    /// The same division, of a window of another size, which the caller has divided.
    pub fn regions_for(&self, divisions: Divisions) -> (r: Regions)
        ensures
            r == regions_of(Chrome { divisions, ..self.chrome }),
    {
        let mut chrome: Chrome = self.chrome;
        chrome.divisions = divisions;
        chrome.regions()
    }

    /// Which region has the keyboard.
    pub fn focus(&self) -> (r: Focus)
        ensures
            r == self.chrome.focus,
    {
        self.chrome.focus
    }

    /// The rows of the side bar that are left for a list; none where there is no side bar.
    pub fn side_bar_rows(&self) -> (r: usize)
        ensures
            r == list_rows(self.chrome),
    {
        match self.regions().side_bar {
            Some(rect) => minus(rect.height, EXPLORER_CHROME_ROWS),
            None => 0,
        }
    }

    /// Gives every group its size and the columns it leaves for text, without moving any window.
    pub fn lay_out(&mut self)
        ensures
            *final(self) == laid_out(*old(self)),
    {
        proof {
            reveal(laid_out);
        }
        let regions: Regions = self.chrome.regions();
        let height: usize = regions.editor.height;
        let wraps: bool = self.chrome.frontend_wraps;
        match self.groups.comparison.take() {
            Some(comparison) => {
                let mut comparison: ComparisonView<B> = comparison;
                let left_gutter: usize = comparison.left.document.gutter;
                comparison.left.view.width = regions.two_columns.0;
                comparison.left.view.height = height;
                comparison.left.view.text_width = columns_for_text(
                    wraps,
                    regions.two_columns.0,
                    left_gutter,
                );
                let right_gutter: usize = comparison.right.document.gutter;
                comparison.right.view.width = regions.two_columns.1;
                comparison.right.view.height = height;
                comparison.right.view.text_width = columns_for_text(
                    wraps,
                    regions.two_columns.1,
                    right_gutter,
                );
                self.groups.comparison = Some(comparison);
            },
            None => {
                let gutter: usize = self.active.document.gutter;
                let split: bool = self.groups.split_view.is_some();
                let second: bool = self.groups.split_focused;
                self.active.view.width = regions.editor.width;
                self.active.view.height = height;
                self.active.view.text_width = columns_for_text(
                    wraps,
                    width_of_group(&regions, split, second),
                    gutter,
                );
                match self.groups.split_view.take() {
                    Some(other) => {
                        let mut other: Viewport = other;
                        other.width = regions.editor.width;
                        other.height = height;
                        other.text_width = columns_for_text(
                            wraps,
                            width_of_group(&regions, split, !second),
                            gutter,
                        );
                        self.groups.split_view = Some(other);
                    },
                    None => {},
                }
            },
        }
    }

    /// Asks for the carets of the groups to be brought on screen.
    pub fn reveal_carets(&mut self)
        ensures
            *final(self) == revealing(*old(self)),
    {
        self.active.view.reveal = true;
        match self.groups.split_view.take() {
            Some(other) => {
                let mut other: Viewport = other;
                other.reveal = true;
                self.groups.split_view = Some(other);
            },
            None => {},
        }
    }

    /// Takes the window's size, and how a window of that size is divided.
    pub fn resize(&mut self, width: usize, height: usize, divisions: Divisions)
        ensures
            *final(self) == resized(*old(self), width, height, divisions),
    {
        self.chrome.screen = (width, height);
        self.chrome.divisions = divisions;
        self.lay_out();
        self.reveal_carets();
    }

    /// Whether the workspace is being searched.
    pub fn searching_project(&self) -> (r: bool)
        ensures
            r == asks_for_search(self.prompt),
    {
        match &self.prompt {
            Some(prompt) => prompt.kind == PromptKind::SearchQuery,
            None => false,
        }
    }

    /// Moves the open document to the front of the recency list.
    fn note_active_document(&mut self)
        ensures
            final(self).recent@ == noted(old(self).recent@, old(self).active.document.path),
            *final(self) == (Session { recent: final(self).recent, ..*old(self) }),
    {
        let path: PathBuf = match &self.active.document.path {
            Some(path) => path.clone(),
            None => {
                return;
            },
        };
        if self.recent.len() > 0 && self.recent[0].same_as(&path) {
            return;
        }
        let ghost before = self.recent@;
        let mut recent: Vec<PathBuf> = Vec::new();
        recent.push(path.clone());
        let mut i: usize = 0;
        assert(recent@ =~= seq![path] + without_path(before.take(0), path@));
        while i < self.recent.len()
            invariant
                i <= self.recent@.len(),
                self.recent@ == before,
                *self == *old(self),
                recent@ == seq![path] + without_path(before.take(i as int), path@),
            decreases self.recent@.len() - i,
        {
            let ghost listed = recent@;
            proof {
                assert(before.take(i + 1).drop_last() =~= before.take(i as int));
            }
            if !self.recent[i].same_as(&path) {
                recent.push(self.recent[i].clone());
                assert(recent@ =~= seq![path] + without_path(before.take(i as int), path@).push(
                    before[i as int],
                ));
            }
            i = i + 1;
        }
        assert(before.take(before.len() as int) =~= before);
        if recent.len() > MAX_RECENT {
            let ghost all = recent@;
            recent.truncate(MAX_RECENT);
            assert(recent@ =~= all.take(MAX_RECENT as int));
        }
        self.recent = recent;
    }

    /// Whether anything is selected in the group with the keyboard, and whether there are several
    /// carets in it.
    fn selection_keys(&self) -> (r: (bool, bool))
        ensures
            r.0 == shown_selections(*self).selects(),
            r.1 == (shown_selections(*self).others@.len() > 0),
    {
        match &self.groups.comparison {
            Some(comparison) => if comparison.focused_right {
                (
                    comparison.right.view.selections.any_selected(),
                    comparison.right.view.selections.is_multi(),
                )
            } else {
                (
                    comparison.left.view.selections.any_selected(),
                    comparison.left.view.selections.is_multi(),
                )
            },
            None => (
                self.active.view.selections.any_selected(),
                self.active.view.selections.is_multi(),
            ),
        }
    }

    /// What the key bindings may depend on.
    pub fn current_context(&self) -> (r: ContextKeys)
        ensures
            r == context_of(*self),
    {
        proof {
            reveal(context_of);
        }
        let regions: Regions = self.regions();
        let finding: bool = self.active.find.visible;
        let replacing: bool = finding && self.active.find.field == Field::Replace;
        let asking: bool = self.prompt.is_some();
        let in_side_bar: bool = self.chrome.focus == Focus::SideBar;
        let in_editor: bool = self.chrome.focus == Focus::Editor;
        let in_tree: bool = in_side_bar && self.tree.explorer.is_some() && self.chrome.side_bar_view
            == SideBarView::Explorer;
        let in_scm: bool = in_side_bar && self.chrome.side_bar_view == SideBarView::SourceControl;
        let (selected, several) = self.selection_keys();
        ContextKeys {
            in_snippet_mode: self.active.document.snippet.is_some(),
            in_quick_open: asking,
            search_viewlet_visible: self.searching_project(),
            side_bar_visible: regions.side_bar.is_some(),
            panel_visible: regions.panel.is_some(),
            side_bar_focus: in_side_bar,
            panel_focus: self.chrome.focus == Focus::Panel,
            files_explorer_focus: in_tree,
            list_focus: in_tree || in_scm,
            source_control_focus: in_scm,
            scm_provider: self.scm.status.is_some(),
            explorer_viewlet_visible: regions.side_bar.is_some(),
            editor_text_focus: in_editor && !finding && !asking,
            editor_focus: in_editor,
            text_input_focus: in_editor,
            find_widget_visible: finding,
            find_input_focussed: finding && !replacing,
            replace_input_focussed: replacing,
            editor_readonly: self.groups.comparison.is_some(),
            editor_has_selection: selected,
            editor_has_multiple_selections: several,
            dirty: self.active.document.dirty,
            editor_has_diagnostics: self.active.diagnostics.len() > 0,
            editor_lang_id: clone_text(&self.active.document.language_id),
        }
    }

    /// Drops a snippet whose current field the selections have left.
    fn settle(&mut self)
        ensures
            *final(self) == (Session { active: settled(old(self).active), ..*old(self) }),
    {
        let left: bool = match &self.active.document.snippet {
            Some(snippet) => snippet.current >= snippet.stops.len() || !snippet.contains(
                &self.active.view.selections,
            ),
            None => false,
        };
        if left {
            self.active.document.snippet = None;
        }
    }

    /// Brings up to date all that is derived: runs after every change to what is on screen.
    pub fn refresh_context(&mut self)
        ensures
            refreshed(*old(self), *final(self)),
    {
        self.settle();
        let context: ContextKeys = self.current_context();
        self.note_active_document();
        self.context = context;
    }
}

/// The rows of the side bar that are left for a list.
pub open spec fn list_rows(chrome: Chrome) -> usize {
    match regions_of(chrome).side_bar {
        Some(rect) => less(rect.height, EXPLORER_CHROME_ROWS),
        None => 0,
    }
}

// ---------------------------------------------------------------------------
// Laws
// ---------------------------------------------------------------------------

/// Laying out again changes nothing.
pub proof fn law_laying_out_is_idempotent<B, S, M>(s: Session<B, S, M>)
    ensures
        laid_out(laid_out(s)) == laid_out(s),
{
    reveal(laid_out);
}

/// Being told the window's size again changes nothing, whether or not a comparison is shown.
pub proof fn law_resizing_is_idempotent<B, S, M>(
    s: Session<B, S, M>,
    width: usize,
    height: usize,
    divisions: Divisions,
)
    ensures
        resized(resized(s, width, height, divisions), width, height, divisions) == resized(
            s,
            width,
            height,
            divisions,
        ),
{
    let told = Session { chrome: Chrome { screen: (width, height), divisions, ..s.chrome }, ..s };
    let once = laid_out(told);
    law_laying_out_changes_sizes_alone(told);
    let again = Session {
        chrome: Chrome { screen: (width, height), divisions, ..revealing(once).chrome },
        ..revealing(once)
    };
    assert(again == revealing(once));
    lemma_revealing_first(once);
    law_laying_out_is_idempotent(told);
    assert(revealing(revealing(once)) == revealing(once));
}

proof fn lemma_revealing_first<B, S, M>(s: Session<B, S, M>)
    ensures
        laid_out(revealing(s)) == revealing(laid_out(s)),
{
    reveal(laid_out);
}

/// Laying out moves no window and touches no document.
pub proof fn law_laying_out_does_not_scroll<B, S, M>(s: Session<B, S, M>)
    ensures
        laid_out(s).active.document == s.active.document,
        laid_out(s).active.view.scroll_top == s.active.view.scroll_top,
        laid_out(s).active.view.scroll_row == s.active.view.scroll_row,
        laid_out(s).active.view.selections == s.active.view.selections,
        laid_out(s).active.view.reveal == s.active.view.reveal,
{
    reveal(laid_out);
}

/// Laying out changes the sizes of views alone.
pub proof fn law_laying_out_changes_sizes_alone<B, S, M>(s: Session<B, S, M>)
    ensures
        laid_out(s) == (Session {
            active: laid_out(s).active,
            groups: laid_out(s).groups,
            ..s
        }),
        laid_out(s).active == (Tab { view: laid_out(s).active.view, ..s.active }),
        laid_out(s).active.view == (Viewport {
            width: laid_out(s).active.view.width,
            height: laid_out(s).active.view.height,
            text_width: laid_out(s).active.view.text_width,
            ..s.active.view
        }),
        laid_out(s).groups.split_focused == s.groups.split_focused,
        laid_out(s).groups.lent == s.groups.lent,
        match (laid_out(s).groups.split_view, s.groups.split_view) {
            (Some(a), Some(b)) => a == (Viewport {
                width: a.width,
                height: a.height,
                text_width: a.text_width,
                ..b
            }),
            (None, None) => true,
            _ => false,
        },
        laid_out(s).groups.comparison is Some == s.groups.comparison is Some,
{
    reveal(laid_out);
}

/// Whether no path stands twice in a recency list.
pub open spec fn paths_apart(recent: Seq<PathBuf>) -> bool {
    forall|i: int, j: int|
        0 <= i < j < recent.len() ==> (#[trigger] recent[i])@ != (#[trigger] recent[j])@
}

proof fn lemma_without_path(recent: Seq<PathBuf>, path: Seq<Part>)
    ensures
        without_path(recent, path).len() <= recent.len(),
        forall|i: int|
            0 <= i < without_path(recent, path).len() ==> (#[trigger] without_path(
                recent,
                path,
            )[i])@ != path,
        forall|i: int|
            0 <= i < without_path(recent, path).len() ==> recent.contains(
                #[trigger] without_path(recent, path)[i],
            ),
        paths_apart(recent) ==> paths_apart(without_path(recent, path)),
    decreases recent.len(),
{
    if recent.len() > 0 {
        let rest = recent.drop_last();
        lemma_without_path(rest, path);
        let w = without_path(rest, path);
        let now = without_path(recent, path);
        assert forall|i: int| 0 <= i < now.len() implies recent.contains(#[trigger] now[i]) by {
            if i < w.len() {
                assert(now[i] == w[i]);
                assert(rest.contains(w[i]));
                let k = choose|k: int| 0 <= k < rest.len() && rest[k] == w[i];
                assert(recent[k] == now[i]);
            } else {
                assert(recent[recent.len() - 1] == now[i]);
            }
        }
        if paths_apart(recent) {
            assert(paths_apart(rest)) by {
                assert forall|i: int, j: int| 0 <= i < j < rest.len() implies (
                #[trigger] rest[i])@ != (#[trigger] rest[j])@ by {
                    assert(recent[i]@ != recent[j]@);
                }
            }
            assert forall|i: int, j: int| 0 <= i < j < now.len() implies (
            #[trigger] now[i])@ != (#[trigger] now[j])@ by {
                assert(now[i] == w[i]);
                if j < w.len() {
                    assert(now[j] == w[j]);
                } else {
                    assert(rest.contains(w[i]));
                    let k = choose|k: int| 0 <= k < rest.len() && rest[k] == w[i];
                    assert(recent[k]@ != recent[recent.len() - 1]@);
                }
            }
        }
    }
}

/// The recency list is bounded and holds no path twice, whatever is noted.
pub proof fn law_the_recency_list_is_bounded_and_unique(recent: Seq<PathBuf>, path: Option<PathBuf>)
    requires
        recent.len() <= MAX_RECENT,
        paths_apart(recent),
    ensures
        noted(recent, path).len() <= MAX_RECENT,
        paths_apart(noted(recent, path)),
{
    if let Some(p) = path {
        lemma_without_path(recent, p@);
        let w = without_path(recent, p@);
        let all = seq![p] + w;
        assert forall|i: int, j: int| 0 <= i < j < all.len() implies (
        #[trigger] all[i])@ != (#[trigger] all[j])@ by {
            assert(all[j] == w[j - 1]);
            if i > 0 {
                assert(all[i] == w[i - 1]);
            }
        }
    }
}

/// The document on screen comes first in the recency list.
pub proof fn law_the_document_on_screen_is_the_most_recent(recent: Seq<PathBuf>, path: PathBuf)
    ensures
        noted(recent, Some(path)).len() > 0,
        noted(recent, Some(path))[0]@ == path@,
{
}

/// Noting the same document again changes nothing.
pub proof fn law_noting_is_idempotent(recent: Seq<PathBuf>, path: Option<PathBuf>)
    ensures
        noted(noted(recent, path), path) == noted(recent, path),
{
    if let Some(p) = path {
        law_the_document_on_screen_is_the_most_recent(recent, p);
    }
}

/// Text is typed into the editor only where the editor has the keyboard, no find bar is up and
/// nothing is being asked.
pub proof fn law_typing_needs_the_editor_alone<B, S, M>(s: Session<B, S, M>)
    requires
        context_of(s).editor_text_focus,
    ensures
        s.chrome.focus == Focus::Editor,
        !s.active.find.visible,
        s.prompt is None,
{
    reveal(context_of);
}

} // verus!
