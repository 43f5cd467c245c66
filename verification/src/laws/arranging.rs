//! How large each group is, what is remembered of what was on screen, and what key bindings see.

use vstd::prelude::*;
#[allow(unused_imports)]
use crate::editing::precedes;
#[allow(unused_imports)]
use crate::laws::picking::{lemma_picked, picked, picks};
#[allow(unused_imports)]
use crate::path::{Part, PathBuf};
#[allow(unused_imports)]
use crate::session::layout::{
    context_of, laid_out, list_rows, noted, refreshed, regions_of, without_path, MAX_RECENT,
};
#[allow(unused_imports)]
use crate::session::state::{
    Chrome, Field, Focus, PromptKind, Session, SideBarView, Viewport,
};

verus! {

/// The window is divided for exactly the regions that are shown.
pub proof fn law_the_window_is_divided_for_what_is_shown(chrome: Chrome)
    ensures
        chrome.side_bar && chrome.panel ==> regions_of(chrome) == chrome.divisions.with_both,
        chrome.side_bar && !chrome.panel ==> regions_of(chrome) == chrome.divisions.with_side_bar,
        !chrome.side_bar && chrome.panel ==> regions_of(chrome) == chrome.divisions.with_panel,
        !chrome.side_bar && !chrome.panel ==> regions_of(chrome) == chrome.divisions.plain,
{
}

/// Whether a view has as many columns for text as a width leaves beside a gutter: none are counted
/// where lines are not broken.
pub open spec fn leaves_columns(view: Viewport, wraps: bool, width: usize, gutter: usize) -> bool {
    &&& !wraps ==> view.text_width == 0
    &&& wraps && gutter <= width ==> view.text_width + gutter == width
    &&& wraps && gutter > width ==> view.text_width == 0
}

/// Without a comparison, every group is as high and as wide as the editor, and the columns for text
/// are those of its own part: one column for a group alone, and of two groups the first column for
/// the left one and the second for the right one, whichever has the keyboard.
pub proof fn law_every_group_gets_its_size<B, S, M>(s: Session<B, S, M>)
    requires
        s.groups.comparison is None,
    ensures
        ({
            let regions = regions_of(s.chrome);
            let now = laid_out(s);
            let wraps = s.chrome.frontend_wraps;
            let gutter = s.active.document.gutter;
            &&& now.active.view.height == regions.editor.height
            &&& now.active.view.width == regions.editor.width
            &&& s.groups.split_view is None && !s.groups.split_focused ==> leaves_columns(
                now.active.view,
                wraps,
                regions.one_column,
                gutter,
            )
            &&& s.groups.split_view is Some ==> {
                let other = now.groups.split_view->Some_0;
                let columns = regions.two_columns;
                &&& now.groups.split_view is Some
                &&& other.height == regions.editor.height
                &&& other.width == regions.editor.width
                &&& s.groups.split_focused ==> leaves_columns(
                    now.active.view,
                    wraps,
                    columns.1,
                    gutter,
                ) && leaves_columns(other, wraps, columns.0, gutter)
                &&& !s.groups.split_focused ==> leaves_columns(
                    now.active.view,
                    wraps,
                    columns.0,
                    gutter,
                ) && leaves_columns(other, wraps, columns.1, gutter)
            }
        }),
{
    reveal(laid_out);
}

/// In a comparison, the left side has the first of two columns and the right one the second.
pub proof fn law_every_side_gets_its_size<B, S, M>(s: Session<B, S, M>)
    requires
        s.groups.comparison is Some,
    ensures
        laid_out(s).groups.comparison is Some,
        laid_out(s).active == s.active,
        ({
            let regions = regions_of(s.chrome);
            let left = laid_out(s).groups.comparison->Some_0.left;
            let right = laid_out(s).groups.comparison->Some_0.right;
            let wraps = s.chrome.frontend_wraps;
            &&& left.view.height == regions.editor.height
            &&& right.view.height == regions.editor.height
            &&& left.view.width == regions.two_columns.0
            &&& right.view.width == regions.two_columns.1
            &&& leaves_columns(left.view, wraps, regions.two_columns.0, left.document.gutter)
            &&& leaves_columns(right.view, wraps, regions.two_columns.1, right.document.gutter)
        }),
{
    reveal(laid_out);
}

/// The rows of a list are those of the side bar but for its heading, and none without a side bar.
pub proof fn law_how_many_rows_a_list_has(chrome: Chrome)
    ensures
        regions_of(chrome).side_bar is None ==> list_rows(chrome) == 0,
        regions_of(chrome).side_bar is Some && regions_of(chrome).side_bar->Some_0.height >= 2
            ==> list_rows(chrome) + 2 == regions_of(chrome).side_bar->Some_0.height,
        regions_of(chrome).side_bar is Some && regions_of(chrome).side_bar->Some_0.height < 2
            ==> list_rows(chrome) == 0,
{
}

/// Which of the paths are others than `path`.
pub open spec fn other_paths(recent: Seq<PathBuf>, path: Seq<Part>) -> Seq<bool> {
    Seq::new(recent.len(), |i: int| recent[i]@ != path)
}

proof fn lemma_others(recent: Seq<PathBuf>, path: Seq<Part>) -> (at: Seq<int>)
    ensures
        picks(at, other_paths(recent, path)),
        without_path(recent, path).len() == at.len(),
        forall|k: int|
            0 <= k < at.len() ==> #[trigger] without_path(recent, path)[k] == recent[at[k]],
    decreases recent.len(),
{
    if recent.len() == 0 {
        Seq::empty()
    } else {
        let rest = recent.drop_last();
        let before = lemma_others(rest, path);
        let mark = recent.last()@ != path;
        lemma_picked(before, other_paths(rest, path), mark);
        assert(other_paths(rest, path).push(mark) =~= other_paths(recent, path));
        let at = picked(before, other_paths(rest, path), mark);
        assert forall|k: int| 0 <= k < at.len() implies #[trigger] without_path(recent, path)[k]
            == recent[at[k]] by {
            if k < before.len() {
                assert(without_path(recent, path)[k] == without_path(rest, path)[k]);
                assert(at[k] == before[k]);
                assert(rest[before[k]] == recent[before[k]]);
            }
        }
        at
    }
}

/// What comes on screen goes to the front of what was on screen, and the others stay behind it in
/// their order; only what is beyond the bound is forgotten.
pub proof fn law_the_others_keep_their_order(recent: Seq<PathBuf>, path: PathBuf) -> (at: Seq<int>)
    requires
        recent.len() == 0 || recent[0]@ != path@,
    ensures
        picks(at, other_paths(recent, path@)),
        noted(recent, Some(path)).len() == if at.len() < MAX_RECENT {
            at.len() + 1
        } else {
            MAX_RECENT as nat
        },
        noted(recent, Some(path))[0] == path,
        forall|k: int|
            1 <= k < noted(recent, Some(path)).len() ==> #[trigger] noted(recent, Some(path))[k]
                == recent[at[k - 1]],
{
    let at = lemma_others(recent, path@);
    let all = seq![path] + without_path(recent, path@);
    let now = noted(recent, Some(path));
    assert forall|k: int| 1 <= k < now.len() implies #[trigger] now[k] == recent[at[k - 1]] by {
        assert(now[k] == all[k]);
        assert(all[k] == without_path(recent, path@)[k - 1]);
    }
    at
}

/// A snippet goes on while there is one selection, inside its current field, and ends once there is
/// another or it is outside. The text and the selections stay.
pub proof fn law_a_snippet_ends_where_its_field_is_left<B, S, M>(
    before: Session<B, S, M>,
    after: Session<B, S, M>,
)
    requires
        refreshed(before, after),
        before.active.document.snippet is Some,
        before.active.document.snippet->Some_0.current
            < before.active.document.snippet->Some_0.stops@.len(),
    ensures
        ({
            let snippet = before.active.document.snippet->Some_0;
            let field = snippet.stops@[snippet.current as int];
            let one = before.active.view.selections.primary;
            let inside = !precedes(one.anchor, field.start) && !precedes(field.end, one.anchor)
                && !precedes(one.active, field.start) && !precedes(field.end, one.active);
            &&& before.active.view.selections.others@.len() == 0 && inside
                ==> after.active.document.snippet == before.active.document.snippet
            &&& before.active.view.selections.others@.len() > 0 || !inside
                ==> after.active.document.snippet is None
        }),
        after.active.document.body == before.active.document.body,
        after.active.view == before.active.view,
        after.left == before.left,
        after.right == before.right,
{
}

/// The context says what is so: of the keyboard, that it is in one place; of the find bar, which of
/// its fields takes what is typed; of the document, what it holds.
pub proof fn law_what_key_bindings_see<B, S, M>(before: Session<B, S, M>, after: Session<B, S, M>)
    requires
        refreshed(before, after),
    ensures
        ({
            let c = after.context;
            let s = after;
            &&& c.editor_focus == (s.chrome.focus == Focus::Editor)
            &&& c.text_input_focus == (s.chrome.focus == Focus::Editor)
            &&& c.side_bar_focus == (s.chrome.focus == Focus::SideBar)
            &&& c.panel_focus == (s.chrome.focus == Focus::Panel)
            &&& c.side_bar_visible == (regions_of(s.chrome).side_bar is Some)
            &&& c.explorer_viewlet_visible == c.side_bar_visible
            &&& c.panel_visible == (regions_of(s.chrome).panel is Some)
            &&& c.list_focus == (c.files_explorer_focus || c.source_control_focus)
            &&& c.files_explorer_focus ==> s.chrome.focus == Focus::SideBar
                && s.chrome.side_bar_view == SideBarView::Explorer && s.tree.explorer is Some
            &&& s.chrome.focus == Focus::SideBar && s.chrome.side_bar_view
                == SideBarView::Explorer && s.tree.explorer is Some ==> c.files_explorer_focus
            &&& c.source_control_focus == (s.chrome.focus == Focus::SideBar
                && s.chrome.side_bar_view == SideBarView::SourceControl)
            &&& c.scm_provider == (s.scm.status is Some)
            &&& c.find_widget_visible == s.active.find.visible
            &&& c.find_input_focussed ==> s.active.find.visible && s.active.find.field
                != Field::Replace
            &&& c.replace_input_focussed == (s.active.find.visible && s.active.find.field
                == Field::Replace)
            &&& s.active.find.visible ==> c.find_input_focussed != c.replace_input_focussed
            &&& c.in_quick_open == (s.prompt is Some)
            &&& c.search_viewlet_visible == (s.prompt is Some && s.prompt->Some_0.kind
                == PromptKind::SearchQuery)
            &&& c.editor_text_focus == (c.editor_focus && !c.find_widget_visible
                && !c.in_quick_open)
            &&& c.in_snippet_mode == (s.active.document.snippet is Some)
            &&& c.editor_readonly == (s.groups.comparison is Some)
            &&& c.dirty == s.active.document.dirty
            &&& c.editor_has_diagnostics == (s.active.diagnostics@.len() > 0)
            &&& c.editor_lang_id == s.active.document.language_id
        }),
{
    reveal(context_of);
}

/// Whether anything is selected, and whether in several places, is said of the group with the
/// keyboard: of a side of the comparison where one is shown.
pub proof fn law_which_selections_key_bindings_see<B, S, M>(
    before: Session<B, S, M>,
    after: Session<B, S, M>,
)
    requires
        refreshed(before, after),
    ensures
        ({
            let c = after.context;
            let shown = match after.groups.comparison {
                None => after.active.view.selections,
                Some(comparison) => if comparison.focused_right {
                    comparison.right.view.selections
                } else {
                    comparison.left.view.selections
                },
            };
            &&& c.editor_has_multiple_selections == (shown.others@.len() > 0)
            &&& shown.others@.len() == 0 ==> c.editor_has_selection == (shown.primary.anchor
                != shown.primary.active)
            &&& shown.primary.anchor != shown.primary.active ==> c.editor_has_selection
        }),
{
    reveal(context_of);
}

} // verus!
