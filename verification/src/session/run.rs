//! Running commands.

use vstd::prelude::*;
use crate::editing::Direction;
#[allow(unused_imports)]
use crate::session::chrome::{
    focuses_region, panel_shown, region_focused, reports_region, side_bar_shown, side_bar_viewing,
};
#[allow(unused_imports)]
use crate::session::documents::asks_to_revert;
#[allow(unused_imports)]
use crate::session::edits::snippet_moved;
#[allow(unused_imports)]
use crate::session::layout::{
    asks_for_search, laid_out, law_laying_out_changes_sizes_alone, refreshed, regions_of,
};
#[allow(unused_imports)]
use crate::session::moves::undoes;
use crate::session::outcome::Outcome;
#[allow(unused_imports)]
use crate::session::prompts::{
    choices, open_seed, options_text, owned_by_frontend, prompted, rename_prompts, tree_prompts,
    Opening,
};
use crate::session::routes::{
    harmless, quitting, route, FindRoute, PromptRoute, Route, ScmRoute, TabRoute, TextRoute,
    TreeRoute, WindowRoute,
};
#[allow(unused_imports)]
use crate::session::routes::{is_harmless, is_quitting, route_of};
#[allow(unused_imports)]
use crate::session::scm::{
    asks_checkout, asks_commit, keys_list, reveals_file, selected_row, stages, stages_all, unstages,
};
use crate::session::state::{
    ComparisonView, Document, Focus, Prompt, PromptKind, Session, SideBarView,
};
#[allow(unused_imports)]
use crate::session::state::{
    Chrome, ComparisonSide, Find, Groups, Repository, Search, SearchOptions, Tab, Viewport,
};
#[allow(unused_imports)]
use crate::session::tabs::{
    added_blank, closes_editor, focuses_group, quit_text, quits, splits, switched, tab_beside,
    unsaved_titles,
};
#[allow(unused_imports)]
use crate::text::view_of;

verus! {

/// What is left to be done for a command, with what only the caller has.
#[derive(Debug, Clone, Copy, PartialEq, Eq, Structural)]
pub enum Work {
    /// Go to the next or the previous problem.
    GoToMarker(Direction),
    /// Undo, or redo, a change that several documents share.
    UndoGroup { group: u64, redo: bool },
    /// Break lines, or stop.
    ToggleWordWrap,
    /// Open the find bar.
    OpenFind { replacing: bool },
    /// Move to the other field of the find bar.
    ToggleField,
    /// Go to the next or the previous match.
    StepFind(Direction),
    /// Find the query again.
    FindAgain,
    /// Replace the selected match.
    ReplaceOne,
    /// Replace every match.
    ReplaceAll,
    /// Offer every command.
    ShowCommands,
    /// Ask what to search the workspace for.
    AskSearch { replacing: bool },
    /// Move down in the prompt's list.
    SelectNext,
    /// Move up in the prompt's list.
    SelectPrevious,
    /// Take what the prompt was answered.
    AcceptPrompt,
    /// Offer the languages.
    OfferLanguages,
    /// Revert a document without a file.
    RevertUntitled { and_close: bool },
    /// Edit the document on screen.
    Execute,
}

/// What running a command came to.
#[derive(Debug, PartialEq, Eq)]
pub enum Ran {
    /// It was carried out.
    Done(Outcome),
    /// This is to be done, and its outcome to be handed to [`Session::finish`].
    Wanted(Work),
}

/// Whether showing or hiding the side bar comes to `outcome`.
pub open spec fn shows_side_bar<B, S, M>(
    before: Session<B, S, M>,
    after: Session<B, S, M>,
    showing: bool,
    outcome: Outcome,
) -> bool {
    after == side_bar_shown(before, showing) && reports_region(
        showing,
        regions_of(after.chrome).side_bar is Some,
        "no room for the side bar in this window"@,
        outcome,
    )
}

/// Whether showing or hiding the panel comes to `outcome`.
pub open spec fn shows_panel<B, S, M>(
    before: Session<B, S, M>,
    after: Session<B, S, M>,
    showing: bool,
    outcome: Outcome,
) -> bool {
    after == panel_shown(before, showing) && reports_region(
        showing,
        regions_of(after.chrome).panel is Some,
        "no room for the panel in this window"@,
        outcome,
    )
}

/// Whether a command for what surrounds the text comes to `outcome`.
pub open spec fn performs_window<B, S, M>(
    before: Session<B, S, M>,
    after: Session<B, S, M>,
    route: WindowRoute,
    outcome: Outcome,
) -> bool {
    match route {
        WindowRoute::ToggleSideBar => shows_side_bar(
            before,
            after,
            !before.chrome.side_bar,
            outcome,
        ),
        WindowRoute::TogglePanel => shows_panel(before, after, !before.chrome.panel, outcome),
        WindowRoute::CloseSideBar => shows_side_bar(before, after, false, outcome),
        WindowRoute::ClosePanel => shows_panel(before, after, false, outcome),
        WindowRoute::ShowExplorer => focuses_region(
            side_bar_viewing(before, SideBarView::Explorer),
            after,
            Focus::SideBar,
            outcome,
        ),
        WindowRoute::ShowSourceControl => focuses_region(
            side_bar_viewing(before, SideBarView::SourceControl),
            after,
            Focus::SideBar,
            outcome,
        ),
        WindowRoute::FocusSideBar => focuses_region(before, after, Focus::SideBar, outcome),
        WindowRoute::FocusPanel => focuses_region(before, after, Focus::Panel, outcome),
        WindowRoute::FocusText => focuses_region(before, after, Focus::Editor, outcome),
    }
}

/// Whether a command for the repository comes to `outcome`.
pub open spec fn performs_scm<B, S, M>(
    before: Session<B, S, M>,
    after: Session<B, S, M>,
    route: ScmRoute,
    outcome: Outcome,
) -> bool {
    match route {
        ScmRoute::Stage => after == before && stages(selected_row(before.scm), outcome),
        ScmRoute::StageAll => after == before && stages_all(before.scm.rows@, outcome),
        ScmRoute::Unstage => after == before && unstages(selected_row(before.scm), outcome),
        ScmRoute::Commit => asks_commit(before, after, outcome),
        ScmRoute::Checkout => after == before && asks_checkout(before, outcome),
        ScmRoute::Refresh => after == (Session {
            scm: Repository { wanted: true, ..before.scm },
            ..before
        }) && outcome is Handled,
    }
}

/// Whether a command for the file tree, or for a list, comes to `outcome`.
pub open spec fn performs_tree<B, S, M>(
    before: Session<B, S, M>,
    after: Session<B, S, M>,
    route: TreeRoute,
    command: Seq<char>,
    outcome: Outcome,
) -> bool {
    match route {
        TreeRoute::Reveal => reveals_file(before, after, outcome),
        TreeRoute::ListKey => keys_list(before, after, command, outcome),
        TreeRoute::NewFile => tree_prompts(before, after, PromptKind::NewFile, outcome),
        TreeRoute::NewFolder => tree_prompts(before, after, PromptKind::NewFolder, outcome),
        TreeRoute::RenameFile => rename_prompts(before, after, outcome),
        TreeRoute::DeleteFile => tree_prompts(before, after, PromptKind::ConfirmDelete, outcome),
    }
}

/// Search options with one of them toggled.
pub open spec fn toggled(options: SearchOptions, route: FindRoute) -> SearchOptions {
    match route {
        FindRoute::ToggleCase => SearchOptions {
            case_sensitive: !options.case_sensitive,
            ..options
        },
        FindRoute::ToggleWord => SearchOptions { whole_word: !options.whole_word, ..options },
        FindRoute::ToggleRegex => SearchOptions { regex: !options.regex, ..options },
        _ => options,
    }
}

/// Whether toggling an option comes to `ran`. It is an option of the search that is being typed:
/// of the workspace while that is asked for, else of the document on screen.
pub open spec fn toggles_option<B, S, M>(
    before: Session<B, S, M>,
    after: Session<B, S, M>,
    route: FindRoute,
    ran: Ran,
) -> bool {
    if asks_for_search(before.prompt) {
        let options = toggled(before.search.options, route);
        &&& after == (Session { search: Search { options, ..before.search }, ..before })
        &&& ran matches Ran::Done(outcome) && outcome.says(options_text(options))
    } else {
        &&& after == (Session {
            active: Tab {
                find: Find {
                    options: toggled(before.active.find.options, route),
                    ..before.active.find
                },
                ..before.active
            },
            ..before
        })
        &&& ran == Ran::Wanted(Work::FindAgain)
    }
}

/// Whether a command for the find bar comes to `ran`.
pub open spec fn performs_find<B, S, M>(
    before: Session<B, S, M>,
    after: Session<B, S, M>,
    route: FindRoute,
    ran: Ran,
) -> bool {
    match route {
        FindRoute::Close => {
            &&& after == (Session {
                active: Tab { find: after.active.find, ..before.active },
                ..before
            })
            &&& after.active.find.is_closed(before.active.find)
            &&& ran == Ran::Done(Outcome::Handled)
        },
        FindRoute::ToggleCase => toggles_option(before, after, route, ran),
        FindRoute::ToggleWord => toggles_option(before, after, route, ran),
        FindRoute::ToggleRegex => toggles_option(before, after, route, ran),
        _ => after == before && ran == Ran::Wanted(
            match route {
                FindRoute::Open => Work::OpenFind { replacing: false },
                FindRoute::OpenReplace => Work::OpenFind { replacing: true },
                FindRoute::NextMatch => Work::StepFind(Direction::Next),
                FindRoute::PreviousMatch => Work::StepFind(Direction::Prev),
                FindRoute::ToggleField => Work::ToggleField,
                FindRoute::ReplaceOne => Work::ReplaceOne,
                _ => Work::ReplaceAll,
            },
        ),
    }
}

/// Whether asking where to save comes to `outcome`: it starts with the path there is.
pub open spec fn asks_where_to_save<B, S, M>(
    before: Session<B, S, M>,
    after: Session<B, S, M>,
    outcome: Outcome,
) -> bool {
    outcome is Handled && prompted(
        before,
        after,
        PromptKind::SaveAs,
        Opening::Seeded(
            match before.active.document.path {
                Some(path) => path.text@,
                None => Seq::empty(),
            },
        ),
    )
}

/// Whether a command that asks something, or is for what is asked, comes to `ran`.
pub open spec fn performs_prompt<B, S, M>(
    before: Session<B, S, M>,
    after: Session<B, S, M>,
    route: PromptRoute,
    ran: Ran,
) -> bool {
    match route {
        PromptRoute::GoToLine => prompted(before, after, PromptKind::GoToLine, Opening::Plain)
            && ran == Ran::Done(Outcome::Handled),
        PromptRoute::Close => after == (Session { prompt: None, ..before }) && ran == Ran::Done(
            Outcome::Handled,
        ),
        PromptRoute::SaveAs => ran matches Ran::Done(outcome) && asks_where_to_save(
            before,
            after,
            outcome,
        ),
        PromptRoute::OpenFile => ran == Ran::Done(Outcome::Handled) && prompted(
            before,
            after,
            PromptKind::OpenPath,
            Opening::Prefixed(open_seed(before.active.document.path)),
        ),
        _ => after == before && ran == Ran::Wanted(
            match route {
                PromptRoute::ShowCommands => Work::ShowCommands,
                PromptRoute::FindInFiles => Work::AskSearch { replacing: false },
                PromptRoute::ReplaceInFiles => Work::AskSearch { replacing: true },
                PromptRoute::SelectNext => Work::SelectNext,
                PromptRoute::SelectPrevious => Work::SelectPrevious,
                PromptRoute::Accept => Work::AcceptPrompt,
                _ => Work::OfferLanguages,
            },
        ),
    }
}

/// Whether going to the next or the previous tab comes to `outcome`.
pub open spec fn cycles<B, S, M>(
    before: Session<B, S, M>,
    after: Session<B, S, M>,
    direction: Direction,
    outcome: Outcome,
) -> bool {
    outcome is Handled && if before.tabs().len() == 1 {
        after == before
    } else {
        switched(
            before,
            after,
            tab_beside(before.left@.len() as int, before.tabs().len() as int, direction),
        )
    }
}

/// Whether a command for tabs and groups comes to `ran`.
pub open spec fn performs_tabs<B, S, M>(
    before: Session<B, S, M>,
    after: Session<B, S, M>,
    route: TabRoute,
    blank: Document<B>,
    ran: Ran,
) -> bool {
    match route {
        TabRoute::Revert => reverts_or_asks(before, after, false, ran),
        TabRoute::RevertAndClose => reverts_or_asks(before, after, true, ran),
        _ => ran matches Ran::Done(outcome) && match route {
            TabRoute::Next => cycles(before, after, Direction::Next, outcome),
            TabRoute::Previous => cycles(before, after, Direction::Prev, outcome),
            TabRoute::Close => closes_editor(before, after, blank, outcome),
            TabRoute::Split => splits(before, after, outcome),
            TabRoute::FocusFirst => focuses_group(before, after, 0, outcome),
            TabRoute::FocusSecond => focuses_group(before, after, 1, outcome),
            TabRoute::FocusThird => focuses_group(before, after, 2, outcome),
            TabRoute::NewUntitled => added_blank(before, after, blank) && outcome is Handled,
            _ => quits(before, after, outcome),
        },
    }
}

/// Whether asking to revert comes to `ran`.
pub open spec fn reverts_or_asks<B, S, M>(
    before: Session<B, S, M>,
    after: Session<B, S, M>,
    and_close: bool,
    ran: Ran,
) -> bool {
    match ran {
        Ran::Done(outcome) => asks_to_revert(before, after, and_close, Some(outcome)),
        Ran::Wanted(work) => work == (Work::RevertUntitled { and_close }) && asks_to_revert(
            before,
            after,
            and_close,
            None,
        ),
    }
}

/// Whether a command that edits comes to `ran`: nothing is edited while the keyboard is not in
/// the text.
pub open spec fn edits_text<B, S, M>(
    before: Session<B, S, M>,
    after: Session<B, S, M>,
    ran: Ran,
) -> bool {
    after == before && ran == if before.chrome.focus == Focus::Editor {
        Ran::Wanted(Work::Execute)
    } else {
        Ran::Done(Outcome::Handled)
    }
}

/// Whether a command for the document on screen comes to `ran`. Undoing is for what has the
/// keyboard: the tree's operations there, and in the text a change that several documents share
/// is undone in all of them.
pub open spec fn performs_text<B, S, M>(
    before: Session<B, S, M>,
    after: Session<B, S, M>,
    route: TextRoute,
    command: Seq<char>,
    ran: Ran,
) -> bool {
    let document = before.active.document;
    let in_text = before.chrome.focus == Focus::Editor;
    match route {
        TextRoute::NextField => snippet_moved(before, after, false) && ran == Ran::Done(
            Outcome::Handled,
        ),
        TextRoute::PreviousField => snippet_moved(before, after, true) && ran == Ran::Done(
            Outcome::Handled,
        ),
        TextRoute::LeaveSnippet => after == (Session {
            active: Tab { document: Document { snippet: None, ..document }, ..before.active },
            ..before
        }) && ran == Ran::Done(Outcome::Handled),
        TextRoute::NextMarker => after == before && ran == Ran::Wanted(
            Work::GoToMarker(Direction::Next),
        ),
        TextRoute::PreviousMarker => after == before && ran == Ran::Wanted(
            Work::GoToMarker(Direction::Prev),
        ),
        TextRoute::Undo => if in_text && document.undo_group is Some {
            after == before && ran == Ran::Wanted(
                Work::UndoGroup { group: document.undo_group->Some_0, redo: false },
            )
        } else if before.chrome.focus == Focus::SideBar {
            ran matches Ran::Done(outcome) && undoes(before, after, outcome)
        } else {
            edits_text(before, after, ran)
        },
        TextRoute::Redo => if in_text && document.redo_group is Some {
            after == before && ran == Ran::Wanted(
                Work::UndoGroup { group: document.redo_group->Some_0, redo: true },
            )
        } else {
            edits_text(before, after, ran)
        },
        TextRoute::ToggleWordWrap => after == before && ran == Ran::Wanted(Work::ToggleWordWrap),
        TextRoute::Save => if document.path is None {
            ran matches Ran::Done(outcome) && asks_where_to_save(before, after, outcome)
        } else {
            edits_text(before, after, ran)
        },
        TextRoute::Frontend => {
            &&& after == before
            &&& ran matches Ran::Done(Outcome::Frontend(name))
            &&& name@ == command
        },
        TextRoute::Other => edits_text(before, after, ran),
    }
}

/// Whether a command comes to `ran`, before anything is reported.
pub open spec fn performs<B, S, M>(
    before: Session<B, S, M>,
    after: Session<B, S, M>,
    route: Route,
    command: Seq<char>,
    blank: Document<B>,
    ran: Ran,
) -> bool {
    match route {
        Route::Window(route) => ran matches Ran::Done(outcome) && performs_window(
            before,
            after,
            route,
            outcome,
        ),
        Route::Scm(route) => ran matches Ran::Done(outcome) && performs_scm(
            before,
            after,
            route,
            outcome,
        ),
        Route::Tree(route) => ran matches Ran::Done(outcome) && performs_tree(
            before,
            after,
            route,
            command,
            outcome,
        ),
        Route::Find(route) => performs_find(before, after, route, ran),
        Route::Prompt(route) => performs_prompt(before, after, route, ran),
        Route::Tabs(route) => performs_tabs(before, after, route, blank, ran),
        Route::Text(route) => performs_text(before, after, route, command, ran),
    }
}

/// Whether an outcome is passed on as `passed`. A command that nothing answers to goes to the
/// frontend where that has it, and else is reported, as one that is yet to come where it has a
/// title.
pub open spec fn passes_on<B, S, M>(
    s: Session<B, S, M>,
    command: Seq<char>,
    outcome: Outcome,
    title: Option<Seq<char>>,
    passed: Outcome,
) -> bool {
    if !(outcome is NotFound) {
        passed == outcome
    } else if owned_by_frontend(choices(s.frontend_commands@), command) {
        passed matches Outcome::Frontend(name) && name@ == command
    } else {
        match title {
            Some(title) => passed.says(title + " is not implemented yet"@),
            None => passed is NotFound,
        }
    }
}

/// Whether `after` is `before` with the outcome in the status bar, where there is something to
/// say.
pub open spec fn reported_in<B, S, M>(
    before: Session<B, S, M>,
    after: Session<B, S, M>,
    command: Seq<char>,
    passed: Outcome,
) -> bool {
    &&& after == (Session { status: after.status, ..before })
    &&& match passed {
        Outcome::Message(message) => view_of(after.status) == Some(message@),
        Outcome::NotFound => view_of(after.status) == Some(
            "there is no command `"@ + command + "`"@,
        ),
        _ => after.status == before.status,
    }
}

/// One side of a comparison with the document and the view that are on screen.
pub open spec fn side_with<B>(
    side: ComparisonSide<B>,
    document: Document<B>,
    view: Viewport,
) -> ComparisonSide<B> {
    ComparisonSide { document, view, ..side }
}

/// The side of a comparison with the keyboard.
pub open spec fn focused_side<B>(comparison: ComparisonView<B>) -> ComparisonSide<B> {
    if comparison.focused_right {
        comparison.right
    } else {
        comparison.left
    }
}

/// A comparison with another side in place of the one with the keyboard.
pub open spec fn with_focused<B>(
    comparison: ComparisonView<B>,
    side: ComparisonSide<B>,
) -> ComparisonView<B> {
    if comparison.focused_right {
        ComparisonView { right: side, ..comparison }
    } else {
        ComparisonView { left: side, ..comparison }
    }
}

/// The session with the document and the view of a comparison's side in place of the active ones,
/// which the comparison keeps meanwhile.
pub open spec fn exchanged<B, S, M>(
    s: Session<B, S, M>,
    comparison: ComparisonView<B>,
) -> (Tab<B, S>, ComparisonView<B>) {
    let side = focused_side(comparison);
    (
        Tab { document: side.document, view: side.view, ..s.active },
        with_focused(comparison, side_with(side, s.active.document, s.active.view)),
    )
}

/// The session with the focused side of its comparison standing in for the active document.
pub open spec fn lending<B, S, M>(s: Session<B, S, M>) -> Session<B, S, M> {
    match s.groups.comparison {
        Some(comparison) => {
            let (active, kept) = exchanged(s, comparison);
            Session {
                active,
                groups: Groups { comparison: None, lent: Some(kept), ..s.groups },
                ..s
            }
        },
        None => s,
    }
}

/// A comparison whose other side is scrolled as the focused one is.
pub open spec fn scrolled_together<B>(comparison: ComparisonView<B>) -> ComparisonView<B> {
    let top = focused_side(comparison).view.scroll_top;
    let row = focused_side(comparison).view.scroll_row;
    if comparison.focused_right {
        ComparisonView {
            left: ComparisonSide {
                view: Viewport { scroll_top: top, scroll_row: row, ..comparison.left.view },
                ..comparison.left
            },
            ..comparison
        }
    } else {
        ComparisonView {
            right: ComparisonSide {
                view: Viewport { scroll_top: top, scroll_row: row, ..comparison.right.view },
                ..comparison.right
            },
            ..comparison
        }
    }
}

/// The session with the comparison's side given back, and both sides scrolled alike.
pub open spec fn given_back<B, S, M>(s: Session<B, S, M>) -> Session<B, S, M> {
    match s.groups.lent {
        Some(comparison) => {
            let (active, whole) = exchanged(s, comparison);
            Session {
                active,
                groups: Groups {
                    comparison: Some(scrolled_together(whole)),
                    lent: None,
                    ..s.groups
                },
                ..s
            }
        },
        None => s,
    }
}

/// Whether reporting an outcome comes to `passed`, with all that is derived brought up to date,
/// and a comparison's side given back.
pub open spec fn finishes<B, S, M>(
    before: Session<B, S, M>,
    after: Session<B, S, M>,
    command: Seq<char>,
    outcome: Outcome,
    title: Option<Seq<char>>,
    passed: Outcome,
) -> bool {
    &&& passes_on(before, command, outcome, title, passed)
    &&& exists|said: Session<B, S, M>, shown: Session<B, S, M>|
        {
            &&& #[trigger] reported_in(before, said, command, passed)
            &&& #[trigger] refreshed(said, shown)
            &&& if before.groups.lent is Some {
                refreshed(given_back(shown), after)
            } else {
                after == shown
            }
        }
}

/// Whether running a command comes to `ran`, with no comparison shown.
pub open spec fn runs_plainly<B, S, M>(
    before: Session<B, S, M>,
    after: Session<B, S, M>,
    command: Seq<char>,
    blank: Document<B>,
    ran: Ran,
) -> bool {
    exists|mid: Session<B, S, M>, performed: Ran|
        #[trigger] performs(before, mid, route_of(command), command, blank, performed)
            && match performed {
            Ran::Done(outcome) => ran matches Ran::Done(passed) && finishes(
                mid,
                after,
                command,
                outcome,
                None,
                passed,
            ),
            Ran::Wanted(_) => after == mid && ran == performed,
        }
}

/// Whether moving between the sides of a comparison comes to `outcome`.
pub open spec fn focuses_side<B, S, M>(
    before: Session<B, S, M>,
    after: Session<B, S, M>,
    index: int,
    outcome: Outcome,
) -> bool {
    exists|mid: Session<B, S, M>|
        #[trigger] focuses_group(before, mid, index, outcome) && if outcome is Handled {
            refreshed(mid, after)
        } else {
            after == mid
        }
}

/// Whether running a command in a comparison comes to `ran`: it can be closed, its sides can be
/// gone between, and what only moves, selects or copies runs on the side with the keyboard.
pub open spec fn runs_in_comparison<B, S, M>(
    before: Session<B, S, M>,
    after: Session<B, S, M>,
    command: Seq<char>,
    blank: Document<B>,
    ran: Ran,
) -> bool {
    match route_of(command) {
        Route::Tabs(TabRoute::Close) => ran matches Ran::Done(outcome) && exists|
            mid: Session<B, S, M>,
        |
            closes_editor(before, mid, blank, outcome) && #[trigger] refreshed(mid, after),
        Route::Tabs(TabRoute::FocusFirst) => ran matches Ran::Done(outcome) && focuses_side(
            before,
            after,
            0,
            outcome,
        ),
        Route::Tabs(TabRoute::FocusSecond) => ran matches Ran::Done(outcome) && focuses_side(
            before,
            after,
            1,
            outcome,
        ),
        Route::Tabs(TabRoute::FocusThird) => ran matches Ran::Done(outcome) && focuses_side(
            before,
            after,
            2,
            outcome,
        ),
        Route::Tabs(TabRoute::Split) => ran matches Ran::Done(outcome) && splits(
            before,
            after,
            outcome,
        ),
        _ => if is_harmless(command) {
            runs_plainly(lending(before), after, command, blank, ran)
        } else {
            &&& after == before
            &&& ran matches Ran::Done(outcome)
            &&& outcome.says("the diff view is read only"@)
        },
    }
}

/// Whether running a command comes to `ran`.
pub open spec fn runs<B, S, M>(
    before: Session<B, S, M>,
    after: Session<B, S, M>,
    command: Seq<char>,
    blank: Document<B>,
    ran: Ran,
) -> bool {
    if before.groups.comparison is Some {
        runs_in_comparison(before, after, command, blank, ran)
    } else {
        runs_plainly(before, after, command, blank, ran)
    }
}

impl<B, S, M> Session<B, S, M> {
    /// Carries out a command for what surrounds the text.
    fn perform_window(&mut self, route: WindowRoute) -> (r: Outcome)
        ensures
            performs_window(*old(self), *final(self), route, r),
    {
        match route {
            WindowRoute::ToggleSideBar => self.toggle_side_bar(),
            WindowRoute::TogglePanel => self.toggle_panel(),
            WindowRoute::CloseSideBar => self.show_side_bar(false),
            WindowRoute::ClosePanel => self.show_panel(false),
            WindowRoute::ShowExplorer => self.show_side_bar_view(SideBarView::Explorer),
            WindowRoute::ShowSourceControl => self.show_side_bar_view(SideBarView::SourceControl),
            WindowRoute::FocusSideBar => self.focus_region(Focus::SideBar),
            WindowRoute::FocusPanel => self.focus_region(Focus::Panel),
            WindowRoute::FocusText => self.focus_region(Focus::Editor),
        }
    }

    /// Carries out a command for the repository.
    fn perform_scm(&mut self, route: ScmRoute) -> (r: Outcome)
        requires
            old(self).tabs().len() <= usize::MAX,
        ensures
            performs_scm(*old(self), *final(self), route, r),
    {
        match route {
            ScmRoute::Stage => self.stage_selected(),
            ScmRoute::StageAll => self.stage_all(),
            ScmRoute::Unstage => self.unstage_selected(),
            ScmRoute::Commit => self.ask_commit_message(),
            ScmRoute::Checkout => self.ask_checkout(),
            ScmRoute::Refresh => {
                self.scm_changed();
                Outcome::Handled
            },
        }
    }

    /// Carries out a command for the file tree, or for a list.
    fn perform_tree(&mut self, route: TreeRoute, command: &str) -> (r: Outcome)
        ensures
            performs_tree(*old(self), *final(self), route, command@, r),
    {
        match route {
            TreeRoute::Reveal => self.reveal_active_file(),
            TreeRoute::ListKey => self.explorer_key(command),
            TreeRoute::NewFile => self.open_tree_prompt(PromptKind::NewFile),
            TreeRoute::NewFolder => self.open_tree_prompt(PromptKind::NewFolder),
            TreeRoute::RenameFile => self.open_rename_file(),
            TreeRoute::DeleteFile => self.open_tree_prompt(PromptKind::ConfirmDelete),
        }
    }

    /// Toggles an option of the search that is being typed.
    fn toggle_option(&mut self, route: FindRoute) -> (r: Ran)
        requires
            route is ToggleCase || route is ToggleWord || route is ToggleRegex,
        ensures
            toggles_option(*old(self), *final(self), route, r),
    {
        if self.searching_project() {
            match route {
                FindRoute::ToggleCase => {
                    self.search.options.case_sensitive = !self.search.options.case_sensitive;
                },
                FindRoute::ToggleWord => {
                    self.search.options.whole_word = !self.search.options.whole_word;
                },
                _ => {
                    self.search.options.regex = !self.search.options.regex;
                },
            }
            return Ran::Done(self.report_search_options());
        }
        match route {
            FindRoute::ToggleCase => {
                self.active.find.options.case_sensitive = !self.active.find.options.case_sensitive;
            },
            FindRoute::ToggleWord => {
                self.active.find.options.whole_word = !self.active.find.options.whole_word;
            },
            _ => {
                self.active.find.options.regex = !self.active.find.options.regex;
            },
        }
        Ran::Wanted(Work::FindAgain)
    }

    /// Carries out a command for the find bar, as far as that can be done here.
    fn perform_find(&mut self, route: FindRoute) -> (r: Ran)
        ensures
            performs_find(*old(self), *final(self), route, r),
    {
        match route {
            FindRoute::Open => Ran::Wanted(Work::OpenFind { replacing: false }),
            FindRoute::OpenReplace => Ran::Wanted(Work::OpenFind { replacing: true }),
            FindRoute::Close => {
                self.active.find.close();
                Ran::Done(Outcome::Handled)
            },
            FindRoute::NextMatch => Ran::Wanted(Work::StepFind(Direction::Next)),
            FindRoute::PreviousMatch => Ran::Wanted(Work::StepFind(Direction::Prev)),
            FindRoute::ToggleField => Ran::Wanted(Work::ToggleField),
            FindRoute::ReplaceOne => Ran::Wanted(Work::ReplaceOne),
            FindRoute::ReplaceAll => Ran::Wanted(Work::ReplaceAll),
            _ => self.toggle_option(route),
        }
    }

    /// Carries out a command that asks something, or is for what is asked, as far as that can be
    /// done here.
    fn perform_prompt(&mut self, route: PromptRoute) -> (r: Ran)
        ensures
            performs_prompt(*old(self), *final(self), route, r),
    {
        match route {
            PromptRoute::GoToLine => {
                self.prompt = Some(Prompt::plain(PromptKind::GoToLine));
                Ran::Done(Outcome::Handled)
            },
            PromptRoute::ShowCommands => Ran::Wanted(Work::ShowCommands),
            PromptRoute::FindInFiles => Ran::Wanted(Work::AskSearch { replacing: false }),
            PromptRoute::ReplaceInFiles => Ran::Wanted(Work::AskSearch { replacing: true }),
            PromptRoute::Close => {
                self.prompt = None;
                Ran::Done(Outcome::Handled)
            },
            PromptRoute::SelectNext => Ran::Wanted(Work::SelectNext),
            PromptRoute::SelectPrevious => Ran::Wanted(Work::SelectPrevious),
            PromptRoute::Accept => Ran::Wanted(Work::AcceptPrompt),
            PromptRoute::ChangeLanguage => Ran::Wanted(Work::OfferLanguages),
            PromptRoute::SaveAs => Ran::Done(self.offer_save_as()),
            PromptRoute::OpenFile => Ran::Done(self.offer_open_path()),
        }
    }

    /// Carries out a command for tabs and groups, as far as that can be done here.
    fn perform_tabs(&mut self, route: TabRoute, blank: Document<B>) -> (r: Ran)
        requires
            old(self).tabs().len() < usize::MAX / 2,
        ensures
            performs_tabs(*old(self), *final(self), route, blank, r),
    {
        match route {
            TabRoute::Next => Ran::Done(self.cycle_tab(Direction::Next)),
            TabRoute::Previous => Ran::Done(self.cycle_tab(Direction::Prev)),
            TabRoute::Close => Ran::Done(self.close_editor(blank)),
            TabRoute::Split => Ran::Done(self.split()),
            TabRoute::FocusFirst => Ran::Done(self.focus_group(0)),
            TabRoute::FocusSecond => Ran::Done(self.focus_group(1)),
            TabRoute::FocusThird => Ran::Done(self.focus_group(2)),
            TabRoute::NewUntitled => Ran::Done(self.new_untitled_tab(blank)),
            TabRoute::Quit => Ran::Done(self.quit()),
            TabRoute::Revert => match self.revert(false) {
                Some(outcome) => Ran::Done(outcome),
                None => Ran::Wanted(Work::RevertUntitled { and_close: false }),
            },
            TabRoute::RevertAndClose => match self.revert(true) {
                Some(outcome) => Ran::Done(outcome),
                None => Ran::Wanted(Work::RevertUntitled { and_close: true }),
            },
        }
    }

    /// Has the document on screen edited, where it has the keyboard.
    fn edit_text(&self) -> (r: Ran)
        ensures
            edits_text(*self, *self, r),
    {
        if self.chrome.focus == Focus::Editor {
            Ran::Wanted(Work::Execute)
        } else {
            Ran::Done(Outcome::Handled)
        }
    }

    /// Undoes what has the keyboard.
    fn perform_undo(&mut self) -> (r: Ran)
        requires
            old(self).tabs().len() <= usize::MAX,
        ensures
            performs_text(*old(self), *final(self), TextRoute::Undo, "undo"@, r),
    {
        if self.chrome.focus == Focus::Editor {
            if let Some(group) = self.active.document.undo_group {
                return Ran::Wanted(Work::UndoGroup { group, redo: false });
            }
        }
        if self.chrome.focus == Focus::SideBar {
            return Ran::Done(self.undo_file_operation());
        }
        self.edit_text()
    }

    /// Carries out a command for the document on screen, as far as that can be done here.
    fn perform_text(&mut self, route: TextRoute, command: &str) -> (r: Ran)
        requires
            old(self).tabs().len() <= usize::MAX,
        ensures
            performs_text(*old(self), *final(self), route, command@, r),
    {
        match route {
            TextRoute::NextField => Ran::Done(self.move_snippet(false)),
            TextRoute::PreviousField => Ran::Done(self.move_snippet(true)),
            TextRoute::LeaveSnippet => {
                self.active.document.snippet = None;
                Ran::Done(Outcome::Handled)
            },
            TextRoute::NextMarker => Ran::Wanted(Work::GoToMarker(Direction::Next)),
            TextRoute::PreviousMarker => Ran::Wanted(Work::GoToMarker(Direction::Prev)),
            TextRoute::Undo => self.perform_undo(),
            TextRoute::Redo => {
                if self.chrome.focus == Focus::Editor {
                    if let Some(group) = self.active.document.redo_group {
                        return Ran::Wanted(Work::UndoGroup { group, redo: true });
                    }
                }
                self.edit_text()
            },
            TextRoute::ToggleWordWrap => Ran::Wanted(Work::ToggleWordWrap),
            TextRoute::Save => {
                if self.active.document.path.is_none() {
                    return Ran::Done(self.offer_save_as());
                }
                self.edit_text()
            },
            TextRoute::Frontend => Ran::Done(Outcome::Frontend(command.to_owned())),
            TextRoute::Other => self.edit_text(),
        }
    }

    /// Carries out a command, as far as that can be done here.
    fn perform(&mut self, route: Route, command: &str, blank: Document<B>) -> (r: Ran)
        requires
            old(self).tabs().len() < usize::MAX / 2,
        ensures
            performs(*old(self), *final(self), route, command@, blank, r),
    {
        match route {
            Route::Window(route) => Ran::Done(self.perform_window(route)),
            Route::Scm(route) => Ran::Done(self.perform_scm(route)),
            Route::Tree(route) => Ran::Done(self.perform_tree(route, command)),
            Route::Find(route) => self.perform_find(route),
            Route::Prompt(route) => self.perform_prompt(route),
            Route::Tabs(route) => self.perform_tabs(route, blank),
            Route::Text(route) => self.perform_text(route, command),
        }
    }

    /// Passes an outcome on, and says in the status bar what there is to say.
    fn report(&mut self, command: &str, outcome: Outcome, title: Option<&str>) -> (r: Outcome)
        ensures
            passes_on(
                *old(self),
                command@,
                outcome,
                crate::session::prompts::option_view(title),
                r,
            ),
            reported_in(*old(self), *final(self), command@, r),
    {
        let passed: Outcome = match outcome {
            Outcome::NotFound => {
                if self.frontend_owns(command) {
                    Outcome::Frontend(command.to_owned())
                } else {
                    match title {
                        Some(title) => {
                            let mut message: String = title.to_owned();
                            message.append(" is not implemented yet");
                            Outcome::Message(message)
                        },
                        None => {
                            let mut message: String = "there is no command `".to_owned();
                            message.append(command);
                            message.append("`");
                            self.status = Some(message);
                            Outcome::NotFound
                        },
                    }
                }
            },
            other => other,
        };
        if let Outcome::Message(message) = &passed {
            self.status = Some(message.clone());
        }
        passed
    }

    /// Puts the focused side of the comparison in place of the active document.
    fn lend_side(&mut self)
        ensures
            *final(self) == lending(*old(self)),
    {
        match self.groups.comparison.take() {
            Some(comparison) => {
                let mut comparison: ComparisonView<B> = comparison;
                if comparison.focused_right {
                    std::mem::swap(&mut self.active.document, &mut comparison.right.document);
                    std::mem::swap(&mut self.active.view, &mut comparison.right.view);
                } else {
                    std::mem::swap(&mut self.active.document, &mut comparison.left.document);
                    std::mem::swap(&mut self.active.view, &mut comparison.left.view);
                }
                self.groups.lent = Some(comparison);
            },
            None => {},
        }
    }

    /// Gives the comparison's side back, and scrolls both sides alike.
    fn give_side_back(&mut self)
        ensures
            *final(self) == given_back(*old(self)),
    {
        match self.groups.lent.take() {
            Some(comparison) => {
                let mut comparison: ComparisonView<B> = comparison;
                if comparison.focused_right {
                    std::mem::swap(&mut self.active.document, &mut comparison.right.document);
                    std::mem::swap(&mut self.active.view, &mut comparison.right.view);
                    comparison.left.view.scroll_top = comparison.right.view.scroll_top;
                    comparison.left.view.scroll_row = comparison.right.view.scroll_row;
                } else {
                    std::mem::swap(&mut self.active.document, &mut comparison.left.document);
                    std::mem::swap(&mut self.active.view, &mut comparison.left.view);
                    comparison.right.view.scroll_top = comparison.left.view.scroll_top;
                    comparison.right.view.scroll_row = comparison.left.view.scroll_row;
                }
                self.groups.comparison = Some(comparison);
            },
            None => {},
        }
    }

    /// Reports what a command came to, and brings up to date all that is derived. `title` is what
    /// a command is called that is yet to come.
    pub fn finish(&mut self, command: &str, outcome: Outcome, title: Option<&str>) -> (r: Outcome)
        ensures
            finishes(
                *old(self),
                *final(self),
                command@,
                outcome,
                crate::session::prompts::option_view(title),
                r,
            ),
    {
        let ghost before = *self;
        let passed: Outcome = self.report(command, outcome, title);
        let ghost said = *self;
        assert(reported_in(before, said, command@, passed));
        self.refresh_context();
        let ghost shown = *self;
        assert(refreshed(said, shown));
        if self.groups.lent.is_some() {
            self.give_side_back();
            self.refresh_context();
            assert(refreshed(given_back(shown), *self));
        }
        passed
    }

    /// Runs a command with no comparison shown.
    fn run_plainly(&mut self, command: &str, blank: Document<B>) -> (r: Ran)
        requires
            old(self).tabs().len() < usize::MAX / 2,
        ensures
            runs_plainly(*old(self), *final(self), command@, blank, r),
    {
        let ghost before = *self;
        let performed: Ran = self.perform(route(command), command, blank);
        let ghost mid = *self;
        assert(performs(before, mid, route_of(command@), command@, blank, performed));
        match performed {
            Ran::Done(outcome) => Ran::Done(self.finish(command, outcome, None)),
            Ran::Wanted(work) => Ran::Wanted(work),
        }
    }

    /// Goes to one of the sides of the comparison.
    fn focus_side(&mut self, index: usize) -> (r: Outcome)
        ensures
            focuses_side(*old(self), *final(self), index as int, r),
    {
        let ghost before = *self;
        let outcome: Outcome = self.focus_group(index);
        let ghost mid = *self;
        assert(focuses_group(before, mid, index as int, outcome));
        if let Outcome::Handled = &outcome {
            self.refresh_context();
        }
        outcome
    }

    /// Runs a command in a comparison: only what moves, selects or copies, on the side with the
    /// keyboard.
    fn run_in_comparison(&mut self, command: &str, blank: Document<B>) -> (r: Ran)
        requires
            old(self).tabs().len() < usize::MAX / 2,
        ensures
            runs_in_comparison(*old(self), *final(self), command@, blank, r),
    {
        let ghost before = *self;
        match route(command) {
            Route::Tabs(TabRoute::Close) => {
                let outcome: Outcome = self.close_editor(blank);
                let ghost mid = *self;
                assert(closes_editor(before, mid, blank, outcome));
                self.refresh_context();
                assert(refreshed(mid, *self));
                Ran::Done(outcome)
            },
            Route::Tabs(TabRoute::FocusFirst) => Ran::Done(self.focus_side(0)),
            Route::Tabs(TabRoute::FocusSecond) => Ran::Done(self.focus_side(1)),
            Route::Tabs(TabRoute::FocusThird) => Ran::Done(self.focus_side(2)),
            Route::Tabs(TabRoute::Split) => Ran::Done(self.split()),
            _ => {
                if !harmless(command) {
                    return Ran::Done(Outcome::Message("the diff view is read only".to_owned()));
                }
                self.lend_side();
                assert(self.tabs().len() == before.tabs().len());
                self.run_plainly(command, blank)
            },
        }
    }

    /// Runs a command by its identifier. `blank` is the document that stands where nothing is
    /// open.
    pub fn run(&mut self, command: &str, blank: Document<B>) -> (r: Ran)
        requires
            old(self).tabs().len() < usize::MAX / 2,
        ensures
            runs(*old(self), *final(self), command@, blank, r),
    {
        if self.groups.comparison.is_some() {
            return self.run_in_comparison(command, blank);
        }
        self.run_plainly(command, blank)
    }
}

// ---------------------------------------------------------------------------
// Keys
// ---------------------------------------------------------------------------

/// What became of a command that was handed to whatever has the keyboard.
#[derive(Debug, PartialEq, Eq)]
pub enum Dispatched {
    /// The prompt took it.
    Consumed,
    /// The find bar took it: its query is to be found again, and that is all.
    FindAgain,
    /// It was run.
    Ran(Ran),
}

/// The session in which quitting is to be refused again, unless that is what is asked.
pub open spec fn without_refusal<B, S, M>(s: Session<B, S, M>, command: Seq<char>) -> Session<
    B,
    S,
    M,
> {
    if is_quitting(command) {
        s
    } else {
        Session { quit_refused: false, ..s }
    }
}

/// Whether handing a command to whatever has the keyboard comes to `dispatched`: to the prompt,
/// which is drawn over the find bar; then to the find bar; else it is run. `by_prompt` and
/// `by_find` say whether each would take it.
pub open spec fn dispatches<B, S, M>(
    before: Session<B, S, M>,
    after: Session<B, S, M>,
    command: Seq<char>,
    by_prompt: bool,
    by_find: bool,
    blank: Document<B>,
    dispatched: Dispatched,
) -> bool {
    let s = without_refusal(before, command);
    if s.prompt is Some && by_prompt {
        after == s && dispatched is Consumed
    } else if s.active.find.visible && by_find {
        after == s && dispatched is FindAgain
    } else {
        dispatched matches Dispatched::Ran(ran) && runs(s, after, command, blank, ran)
    }
}

/// A key.
#[derive(Debug, Clone, Copy, PartialEq, Eq, Structural)]
pub enum Key {
    /// One that stands for a character.
    Char(char),
    /// Any other.
    Named,
}

/// The keys held with another.
#[derive(Debug, Clone, Copy, PartialEq, Eq, Structural)]
pub struct Modifiers {
    pub ctrl: bool,
    pub shift: bool,
    pub alt: bool,
    pub meta: bool,
}

/// A key with those held with it.
#[derive(Debug, Clone, Copy, PartialEq, Eq, Structural)]
pub struct Chord {
    pub key: Key,
    pub modifiers: Modifiers,
}

/// What the key bindings say of a key.
#[derive(Debug, PartialEq, Eq)]
pub enum Resolution {
    /// More keys are to come.
    Pending,
    /// It stands for a command.
    Match(String),
    /// It stands for none.
    NoMatch,
}

/// A command that a key stands for, with the text it types.
#[derive(Debug, PartialEq, Eq)]
pub struct Pressed {
    pub command: String,
    pub text: Option<String>,
}

/// The character in upper case.
pub uninterp spec fn uppercase_of(c: char) -> Seq<char>;

/// `char::to_uppercase`: the character in upper case, which may be several.
#[verifier::external_body]
fn uppercase(c: char) -> (r: String)
    ensures
        r@ == uppercase_of(c),
{
    c.to_uppercase().to_string()
}

/// The text that an unbound key types: its character, in upper case with shift; nothing with any
/// other key held, which makes it a command.
pub open spec fn typed(chord: Chord, upper: Seq<char>) -> Option<Seq<char>> {
    match chord.key {
        Key::Char(c) => if chord.modifiers.ctrl || chord.modifiers.meta || chord.modifiers.alt {
            None
        } else if chord.modifiers.shift {
            Some(upper)
        } else {
            Some(seq![c])
        },
        Key::Named => None,
    }
}

/// The character of a key in upper case, if it has one.
pub open spec fn key_upper(chord: Chord) -> Seq<char> {
    match chord.key {
        Key::Char(c) => uppercase_of(c),
        Key::Named => Seq::empty(),
    }
}

/// Whether the key stands for `pressed`.
pub open spec fn stands_for(resolution: Resolution, chord: Chord, pressed: Option<Pressed>) -> bool {
    match resolution {
        Resolution::Pending => pressed is None,
        Resolution::Match(command) => pressed matches Some(p) && p.command == command
            && p.text is None,
        Resolution::NoMatch => match typed(chord, key_upper(chord)) {
            Some(text) => pressed matches Some(p) && p.command@ == "type"@ && view_of(p.text)
                == Some(text),
            None => pressed is None,
        },
    }
}

/// Whether a command that was dispatched needs nothing more of the caller.
pub open spec fn is_complete(dispatched: Dispatched) -> bool {
    match dispatched {
        Dispatched::Consumed => true,
        Dispatched::FindAgain => false,
        Dispatched::Ran(ran) => ran is Done,
    }
}

/// Whether pressing a key comes to `dispatched`. A key that stands for no command is still another
/// key: quitting is to be refused again after it. One that begins a command says nothing yet. All
/// that is derived is brought up to date, once nothing more is to be done.
pub open spec fn presses<B, S, M>(
    before: Session<B, S, M>,
    after: Session<B, S, M>,
    resolution: Resolution,
    chord: Chord,
    by_prompt: bool,
    by_find: bool,
    blank: Document<B>,
    dispatched: Dispatched,
) -> bool {
    exists|pressed: Option<Pressed>, mid: Session<B, S, M>|
        {
            &&& #[trigger] stands_for(resolution, chord, pressed)
            &&& match pressed {
                Some(p) => dispatches(
                    before,
                    mid,
                    p.command@,
                    by_prompt,
                    by_find,
                    blank,
                    dispatched,
                ),
                None => if resolution is Pending {
                    mid == before && dispatched == Dispatched::Ran(Ran::Done(Outcome::Handled))
                } else {
                    mid == (Session { quit_refused: false, ..before }) && dispatched
                        == Dispatched::Ran(Ran::Done(Outcome::NotFound))
                },
            }
            &&& #[trigger] settles(mid, after, dispatched)
        }
}

/// Whether `after` is `mid` with all that is derived brought up to date, once nothing more is to
/// be done.
pub open spec fn settles<B, S, M>(
    mid: Session<B, S, M>,
    after: Session<B, S, M>,
    dispatched: Dispatched,
) -> bool {
    if is_complete(dispatched) {
        refreshed(mid, after)
    } else {
        after == mid
    }
}

/// The text that an unbound key types; `upper` is its character in upper case.
pub fn typed_text(chord: Chord, upper: &str) -> (r: Option<String>)
    ensures
        view_of(r) == typed(chord, upper@),
{
    match chord.key {
        Key::Char(c) => {
            if chord.modifiers.ctrl || chord.modifiers.meta || chord.modifiers.alt {
                return None;
            }
            if chord.modifiers.shift {
                return Some(upper.to_owned());
            }
            let mut text: String = String::new();
            text.push(c);
            assert(text@ =~= seq![c]);
            Some(text)
        },
        Key::Named => None,
    }
}

/// The command that a key stands for, if it stands for one.
pub fn pressed(resolution: Resolution, chord: Chord) -> (r: Option<Pressed>)
    ensures
        stands_for(resolution, chord, r),
{
    match resolution {
        Resolution::Pending => None,
        Resolution::Match(command) => Some(Pressed { command, text: None }),
        Resolution::NoMatch => {
            let upper: String = match chord.key {
                Key::Char(c) => uppercase(c),
                Key::Named => String::new(),
            };
            assert(upper@ =~= key_upper(chord));
            match typed_text(chord, upper.as_str()) {
                Some(text) => Some(Pressed { command: "type".to_owned(), text: Some(text) }),
                None => None,
            }
        },
    }
}

impl<B, S, M> Session<B, S, M> {
    /// Hands a command to whatever has the keyboard, or runs it.
    pub fn dispatch(
        &mut self,
        command: &str,
        by_prompt: bool,
        by_find: bool,
        blank: Document<B>,
    ) -> (r: Dispatched)
        requires
            old(self).tabs().len() < usize::MAX / 2,
        ensures
            dispatches(*old(self), *final(self), command@, by_prompt, by_find, blank, r),
    {
        if !quitting(command) {
            self.quit_refused = false;
        }
        if self.prompt.is_some() && by_prompt {
            return Dispatched::Consumed;
        }
        if self.active.find.visible && by_find {
            return Dispatched::FindAgain;
        }
        Dispatched::Ran(self.run(command, blank))
    }

    /// Takes a key. Where something is left to be done, [`Session::refresh_context`] is to be
    /// called after it.
    pub fn handle_chord(
        &mut self,
        resolution: Resolution,
        chord: Chord,
        by_prompt: bool,
        by_find: bool,
        blank: Document<B>,
    ) -> (r: Dispatched)
        requires
            old(self).tabs().len() < usize::MAX / 2,
        ensures
            presses(
                *old(self),
                *final(self),
                resolution,
                chord,
                by_prompt,
                by_find,
                blank,
                r,
            ),
    {
        let pending: bool = match &resolution {
            Resolution::Pending => true,
            _ => false,
        };
        let key: Option<Pressed> = pressed(resolution, chord);
        assert(stands_for(resolution, chord, key));
        let dispatched: Dispatched = match &key {
            Some(key) => self.dispatch(key.command.as_str(), by_prompt, by_find, blank),
            None => {
                if pending {
                    Dispatched::Ran(Ran::Done(Outcome::Handled))
                } else {
                    self.quit_refused = false;
                    Dispatched::Ran(Ran::Done(Outcome::NotFound))
                }
            },
        };
        let ghost mid = *self;
        let complete: bool = match &dispatched {
            Dispatched::Consumed => true,
            Dispatched::FindAgain => false,
            Dispatched::Ran(Ran::Done(_)) => true,
            Dispatched::Ran(Ran::Wanted(_)) => false,
        };
        if complete {
            self.refresh_context();
        }
        assert(settles(mid, *self, dispatched));
        dispatched
    }
}

// ---------------------------------------------------------------------------
// Laws
// ---------------------------------------------------------------------------

/// A comparison is read only: a command that does more than move, select or copy in it, go
/// between its sides or close it changes nothing, and says so.
pub proof fn law_a_comparison_is_read_only<B, S, M>(
    before: Session<B, S, M>,
    after: Session<B, S, M>,
    command: Seq<char>,
    blank: Document<B>,
    ran: Ran,
)
    requires
        before.groups.comparison is Some,
        runs(before, after, command, blank, ran),
        !is_harmless(command),
        !(route_of(command) is Tabs),
    ensures
        after == before,
        ran matches Ran::Done(outcome) && outcome.says("the diff view is read only"@),
{
}

/// Lending a comparison's side and giving it back leaves every document as it was, and both sides
/// scrolled alike.
pub proof fn law_a_lent_side_comes_back<B, S, M>(s: Session<B, S, M>)
    requires
        s.groups.comparison is Some,
    ensures
        ({
            let back = given_back(lending(s));
            let was = s.groups.comparison->Some_0;
            &&& back.active == s.active
            &&& back.left == s.left
            &&& back.right == s.right
            &&& back.groups.comparison matches Some(now) && now == scrolled_together(was)
                && now.left.document == was.left.document && now.right.document
                == was.right.document && now.left.view.scroll_top == now.right.view.scroll_top
                && now.left.view.scroll_row == now.right.view.scroll_row
        }),
{
}

/// Toggling a search option twice leaves it as it was.
pub proof fn law_toggling_twice_changes_nothing(options: SearchOptions, route: FindRoute)
    ensures
        toggled(toggled(options, route), route) == options,
{
}

/// The options of the two searches are apart: toggling one leaves the other's alone.
pub proof fn law_the_searches_have_options_of_their_own<B, S, M>(
    before: Session<B, S, M>,
    after: Session<B, S, M>,
    route: FindRoute,
    ran: Ran,
)
    requires
        toggles_option(before, after, route, ran),
    ensures
        asks_for_search(before.prompt) ==> after.active.find == before.active.find,
        !asks_for_search(before.prompt) ==> after.search == before.search,
{
}

/// A command that nothing answers to is never passed over in silence.
pub proof fn law_an_unknown_command_is_reported<B, S, M>(
    before: Session<B, S, M>,
    after: Session<B, S, M>,
    command: Seq<char>,
    title: Option<Seq<char>>,
    passed: Outcome,
)
    requires
        finishes(before, after, command, Outcome::NotFound, title, passed),
        before.groups.lent is None,
    ensures
        passed is Frontend || after.status is Some,
{
}

/// What a command says is in the status bar.
pub proof fn law_a_message_is_in_the_status_bar<B, S, M>(
    before: Session<B, S, M>,
    after: Session<B, S, M>,
    command: Seq<char>,
    outcome: Outcome,
    title: Option<Seq<char>>,
    passed: Outcome,
)
    requires
        finishes(before, after, command, outcome, title, passed),
        passed is Message,
    ensures
        view_of(after.status) == Some(passed->Message_0@),
{
}

/// Showing or hiding a region says nothing about a refusal to quit.
proof fn lemma_regions_keep_the_refusal<B, S, M>(s: Session<B, S, M>, showing: bool)
    ensures
        side_bar_shown(s, showing).quit_refused == s.quit_refused,
        panel_shown(s, showing).quit_refused == s.quit_refused,
{
    let side = if !showing && s.chrome.focus == Focus::SideBar {
        Focus::Editor
    } else {
        s.chrome.focus
    };
    let panel = if !showing && s.chrome.focus == Focus::Panel {
        Focus::Editor
    } else {
        s.chrome.focus
    };
    law_laying_out_changes_sizes_alone(
        Session { chrome: Chrome { side_bar: showing, focus: side, ..s.chrome }, ..s },
    );
    law_laying_out_changes_sizes_alone(
        Session { chrome: Chrome { panel: showing, focus: panel, ..s.chrome }, ..s },
    );
}

/// Moving the keyboard into a region says nothing about a refusal to quit.
proof fn lemma_focus_keeps_the_refusal<B, S, M>(s: Session<B, S, M>, focus: Focus)
    ensures
        region_focused(s, focus).quit_refused == s.quit_refused,
{
    lemma_regions_keep_the_refusal(s, true);
}

/// Showing a view of the side bar says nothing about a refusal to quit.
proof fn lemma_views_keep_the_refusal<B, S, M>(s: Session<B, S, M>, view: SideBarView)
    ensures
        side_bar_viewing(s, view).quit_refused == s.quit_refused,
{
    lemma_regions_keep_the_refusal(
        Session { chrome: Chrome { side_bar_view: view, ..s.chrome }, ..s },
        true,
    );
}

/// No command for what surrounds the text says anything about a refusal to quit.
proof fn lemma_windows_keep_the_refusal<B, S, M>(
    before: Session<B, S, M>,
    after: Session<B, S, M>,
    route: WindowRoute,
    outcome: Outcome,
)
    requires
        performs_window(before, after, route, outcome),
    ensures
        after.quit_refused == before.quit_refused,
{
    match route {
        WindowRoute::ToggleSideBar => {
            lemma_regions_keep_the_refusal(before, !before.chrome.side_bar);
        },
        WindowRoute::TogglePanel => {
            lemma_regions_keep_the_refusal(before, !before.chrome.panel);
        },
        WindowRoute::CloseSideBar | WindowRoute::ClosePanel => {
            lemma_regions_keep_the_refusal(before, false);
        },
        WindowRoute::ShowExplorer => {
            lemma_views_keep_the_refusal(before, SideBarView::Explorer);
            lemma_focus_keeps_the_refusal(
                side_bar_viewing(before, SideBarView::Explorer),
                Focus::SideBar,
            );
        },
        WindowRoute::ShowSourceControl => {
            lemma_views_keep_the_refusal(before, SideBarView::SourceControl);
            lemma_focus_keeps_the_refusal(
                side_bar_viewing(before, SideBarView::SourceControl),
                Focus::SideBar,
            );
        },
        WindowRoute::FocusSideBar => {
            lemma_focus_keeps_the_refusal(before, Focus::SideBar);
        },
        WindowRoute::FocusPanel => {
            lemma_focus_keeps_the_refusal(before, Focus::Panel);
        },
        WindowRoute::FocusText => {
            lemma_focus_keeps_the_refusal(before, Focus::Editor);
        },
    }
}

/// No command for tabs and groups but quitting says anything about a refusal to quit.
proof fn lemma_tabs_keep_the_refusal<B, S, M>(
    before: Session<B, S, M>,
    after: Session<B, S, M>,
    route: TabRoute,
    blank: Document<B>,
    ran: Ran,
)
    requires
        performs_tabs(before, after, route, blank, ran),
        route != TabRoute::Quit,
    ensures
        after.quit_refused == before.quit_refused,
{
    assert forall|s: Session<B, S, M>|
        (#[trigger] laid_out(s)).quit_refused == s.quit_refused by {
        law_laying_out_changes_sizes_alone(s);
    }
}

/// No command but quitting says anything about a refusal to quit.
proof fn lemma_performing_keeps_the_refusal<B, S, M>(
    before: Session<B, S, M>,
    after: Session<B, S, M>,
    route: Route,
    command: Seq<char>,
    blank: Document<B>,
    ran: Ran,
)
    requires
        performs(before, after, route, command, blank, ran),
        route != Route::Tabs(TabRoute::Quit),
    ensures
        after.quit_refused == before.quit_refused,
{
    match route {
        Route::Window(window) => {
            lemma_windows_keep_the_refusal(before, after, window, ran->Done_0);
        },
        Route::Tabs(tabs) => {
            lemma_tabs_keep_the_refusal(before, after, tabs, blank, ran);
        },
        Route::Tree(_) => {
            lemma_regions_keep_the_refusal(before, true);
        },
        _ => {},
    }
}

/// Reporting what a command came to says nothing about a refusal to quit.
proof fn lemma_finishing_keeps_the_refusal<B, S, M>(
    before: Session<B, S, M>,
    after: Session<B, S, M>,
    command: Seq<char>,
    outcome: Outcome,
    title: Option<Seq<char>>,
    passed: Outcome,
)
    requires
        finishes(before, after, command, outcome, title, passed),
    ensures
        after.quit_refused == before.quit_refused,
{
}

/// Running a command leaves a refusal to quit as it was, unless it asks to quit.
proof fn lemma_plain_runs_keep_the_refusal<B, S, M>(
    before: Session<B, S, M>,
    after: Session<B, S, M>,
    command: Seq<char>,
    blank: Document<B>,
    ran: Ran,
)
    requires
        runs_plainly(before, after, command, blank, ran),
        route_of(command) != Route::Tabs(TabRoute::Quit),
    ensures
        after.quit_refused == before.quit_refused,
{
    let (mid, performed) = choose|mid: Session<B, S, M>, performed: Ran|
        #[trigger] performs(before, mid, route_of(command), command, blank, performed)
            && match performed {
            Ran::Done(outcome) => ran matches Ran::Done(passed) && finishes(
                mid,
                after,
                command,
                outcome,
                None,
                passed,
            ),
            Ran::Wanted(_) => after == mid && ran == performed,
        };
    lemma_performing_keeps_the_refusal(before, mid, route_of(command), command, blank, performed);
    if let Ran::Done(outcome) = performed {
        lemma_finishing_keeps_the_refusal(mid, after, command, outcome, None, ran->Done_0);
    }
}

/// Running a command in a comparison leaves a refusal to quit as it was.
proof fn lemma_compared_runs_keep_the_refusal<B, S, M>(
    before: Session<B, S, M>,
    after: Session<B, S, M>,
    command: Seq<char>,
    blank: Document<B>,
    ran: Ran,
)
    requires
        before.groups.comparison is Some,
        runs_in_comparison(before, after, command, blank, ran),
        route_of(command) != Route::Tabs(TabRoute::Quit),
    ensures
        after.quit_refused == before.quit_refused,
{
    match route_of(command) {
        Route::Tabs(TabRoute::Close) => {
            let mid = choose|mid: Session<B, S, M>|
                closes_editor(before, mid, blank, ran->Done_0) && #[trigger] refreshed(mid, after);
            lemma_tabs_keep_the_refusal(before, mid, TabRoute::Close, blank, ran);
        },
        Route::Tabs(TabRoute::FocusFirst) => {
            lemma_sides_keep_the_refusal(before, after, 0, TabRoute::FocusFirst, blank, ran);
        },
        Route::Tabs(TabRoute::FocusSecond) => {
            lemma_sides_keep_the_refusal(before, after, 1, TabRoute::FocusSecond, blank, ran);
        },
        Route::Tabs(TabRoute::FocusThird) => {
            lemma_sides_keep_the_refusal(before, after, 2, TabRoute::FocusThird, blank, ran);
        },
        Route::Tabs(TabRoute::Split) => {
            lemma_tabs_keep_the_refusal(before, after, TabRoute::Split, blank, ran);
        },
        _ => {
            if is_harmless(command) {
                lemma_plain_runs_keep_the_refusal(lending(before), after, command, blank, ran);
            }
        },
    }
}

/// Moving between the sides of a comparison leaves a refusal to quit as it was.
proof fn lemma_sides_keep_the_refusal<B, S, M>(
    before: Session<B, S, M>,
    after: Session<B, S, M>,
    index: int,
    route: TabRoute,
    blank: Document<B>,
    ran: Ran,
)
    requires
        ran is Done,
        focuses_side(before, after, index, ran->Done_0),
        match route {
            TabRoute::FocusFirst => index == 0,
            TabRoute::FocusSecond => index == 1,
            TabRoute::FocusThird => index == 2,
            _ => false,
        },
    ensures
        after.quit_refused == before.quit_refused,
{
    let outcome = ran->Done_0;
    let mid = choose|mid: Session<B, S, M>|
        #[trigger] focuses_group(before, mid, index, outcome) && if outcome is Handled {
            refreshed(mid, after)
        } else {
            after == mid
        };
    lemma_tabs_keep_the_refusal(before, mid, route, blank, ran);
}

/// Only the very next key, or the keys that make up one command, confirm a refused quit: after any
/// others that do not ask to quit, those that stand for no command included, quitting is refused
/// again while anything is unsaved.
pub proof fn law_only_the_very_next_key_confirms_quitting<B, S, M>(
    before: Session<B, S, M>,
    between: Session<B, S, M>,
    after: Session<B, S, M>,
    resolution: Resolution,
    chord: Chord,
    by_prompt: bool,
    by_find: bool,
    blank: Document<B>,
    dispatched: Dispatched,
    outcome: Outcome,
)
    requires
        presses(before, between, resolution, chord, by_prompt, by_find, blank, dispatched),
        !(resolution is Pending),
        resolution matches Resolution::Match(command) ==> !is_quitting(command@),
        quits(between, after, outcome),
        unsaved_titles(between.tabs()).len() > 0,
    ensures
        !between.quit_refused,
        outcome.says(quit_text(unsaved_titles(between.tabs()))),
{
    let (pressed, mid) = choose|pressed: Option<Pressed>, mid: Session<B, S, M>|
        {
            &&& #[trigger] stands_for(resolution, chord, pressed)
            &&& match pressed {
                Some(p) => dispatches(
                    before,
                    mid,
                    p.command@,
                    by_prompt,
                    by_find,
                    blank,
                    dispatched,
                ),
                None => mid == (Session { quit_refused: false, ..before }),
            }
            &&& #[trigger] settles(mid, between, dispatched)
        };
    if let Some(p) = pressed {
        reveal_strlit("type");
        reveal_strlit("workbench.action.quit");
        reveal_strlit("workbench.action.closeWindow");
        assert("type"@.len() < "workbench.action.quit"@.len());
        assert("type"@.len() < "workbench.action.closeWindow"@.len());
        assert(!is_quitting(p.command@));
        assert(route_of(p.command@) != Route::Tabs(TabRoute::Quit));
        let start = without_refusal(before, p.command@);
        if let Dispatched::Ran(ran) = dispatched {
            if start.groups.comparison is None {
                lemma_plain_runs_keep_the_refusal(start, mid, p.command@, blank, ran);
            } else {
                lemma_compared_runs_keep_the_refusal(start, mid, p.command@, blank, ran);
            }
        }
    }
}

/// A key that only begins a command leaves a refused quit as it is, so that one bound to several
/// keys can be confirmed too.
pub proof fn law_beginning_a_command_keeps_the_refusal<B, S, M>(
    before: Session<B, S, M>,
    after: Session<B, S, M>,
    chord: Chord,
    by_prompt: bool,
    by_find: bool,
    blank: Document<B>,
    dispatched: Dispatched,
)
    requires
        presses(
            before,
            after,
            Resolution::Pending,
            chord,
            by_prompt,
            by_find,
            blank,
            dispatched,
        ),
    ensures
        after.quit_refused == before.quit_refused,
        dispatched == Dispatched::Ran(Ran::Done(Outcome::Handled)),
{
}

/// Nothing is edited while the keyboard is not in the text.
pub proof fn law_typing_needs_the_text_to_have_the_keyboard<B, S, M>(
    before: Session<B, S, M>,
    after: Session<B, S, M>,
    ran: Ran,
)
    requires
        edits_text(before, after, ran),
        before.chrome.focus != Focus::Editor,
    ensures
        after == before,
        ran == Ran::Done(Outcome::Handled),
{
}

} // verus!
