//! Which commands lead to what, and what those for the text come to.

use vstd::prelude::*;
#[allow(unused_imports)]
use crate::editing::Direction;
#[allow(unused_imports)]
use crate::laws::windows::law_which_tab_is_beside;
#[allow(unused_imports)]
use crate::session::chrome::{
    on_screen, panel_shown, region_focused, region_shown, side_bar_shown, side_bar_viewing,
};
#[allow(unused_imports)]
use crate::session::layout::laid_out;
#[allow(unused_imports)]
use crate::session::outcome::Outcome;
#[allow(unused_imports)]
use crate::session::routes::{
    route_of, FindRoute, PromptRoute, Route, ScmRoute, TabRoute, TextRoute, TreeRoute, WindowRoute,
};
#[allow(unused_imports)]
use crate::session::run::{performs, Ran, Work};
#[allow(unused_imports)]
use crate::session::state::{Chrome, Document, Focus, PromptKind, Session, SideBarView};

verus! {

/// To what surrounds the text, only the commands lead that are named after it.
pub proof fn law_which_commands_are_for_the_window(command: Seq<char>)
    ensures
        route_of(command) == Route::Window(WindowRoute::ToggleSideBar) ==> command
            == "workbench.action.toggleSidebarVisibility"@,
        route_of(command) == Route::Window(WindowRoute::TogglePanel) ==> command
            == "workbench.action.togglePanel"@,
        route_of(command) == Route::Window(WindowRoute::CloseSideBar) ==> command
            == "workbench.action.closeSidebar"@,
        route_of(command) == Route::Window(WindowRoute::ClosePanel) ==> command
            == "workbench.action.closePanel"@,
        route_of(command) == Route::Window(WindowRoute::ShowExplorer) ==> command
            == "workbench.files.action.focusFilesExplorer"@
            || command == "workbench.view.explorer"@,
        route_of(command) == Route::Window(WindowRoute::ShowSourceControl) ==> command
            == "workbench.view.scm"@,
        route_of(command) == Route::Window(WindowRoute::FocusSideBar) ==> command
            == "workbench.action.focusSideBar"@,
        route_of(command) == Route::Window(WindowRoute::FocusPanel) ==> command
            == "workbench.action.focusPanel"@,
        route_of(command) == Route::Window(WindowRoute::FocusText) ==> command
            == "workbench.action.focusActiveEditorGroup"@,
{
}

/// To the repository, only the commands lead that are named after what is done to it.
pub proof fn law_which_commands_are_for_the_repository(command: Seq<char>)
    ensures
        route_of(command) == Route::Scm(ScmRoute::Stage) ==> command
            == "git.stage"@,
        route_of(command) == Route::Scm(ScmRoute::StageAll) ==> command
            == "git.stageAll"@,
        route_of(command) == Route::Scm(ScmRoute::Unstage) ==> command
            == "git.unstage"@,
        route_of(command) == Route::Scm(ScmRoute::Commit) ==> command
            == "git.commit"@,
        route_of(command) == Route::Scm(ScmRoute::Checkout) ==> command
            == "git.checkout"@,
        route_of(command) == Route::Scm(ScmRoute::Refresh) ==> command
            == "git.refresh"@,
{
}

/// To the file tree and to lists, only their own commands lead.
pub proof fn law_which_commands_are_for_the_tree(command: Seq<char>)
    ensures
        route_of(command) == Route::Tree(TreeRoute::Reveal) ==> command
            == "revealInExplorer"@,
        route_of(command) == Route::Tree(TreeRoute::ListKey) ==> command
            == "list.focusDown"@
            || command == "list.focusUp"@
            || command == "list.focusFirst"@
            || command == "list.focusLast"@
            || command == "list.expand"@
            || command == "list.collapse"@
            || command == "list.select"@,
        route_of(command) == Route::Tree(TreeRoute::NewFile) ==> command
            == "explorer.newFile"@,
        route_of(command) == Route::Tree(TreeRoute::NewFolder) ==> command
            == "explorer.newFolder"@,
        route_of(command) == Route::Tree(TreeRoute::RenameFile) ==> command
            == "renameFile"@,
        route_of(command) == Route::Tree(TreeRoute::DeleteFile) ==> command
            == "deleteFile"@,
{
}

/// To the find bar, only the commands lead that are named after what it does.
pub proof fn law_which_commands_are_for_the_find_bar(command: Seq<char>)
    ensures
        route_of(command) == Route::Find(FindRoute::Open) ==> command
            == "actions.find"@,
        route_of(command) == Route::Find(FindRoute::OpenReplace) ==> command
            == "editor.action.startFindReplaceAction"@,
        route_of(command) == Route::Find(FindRoute::Close) ==> command
            == "closeFindWidget"@,
        route_of(command) == Route::Find(FindRoute::NextMatch) ==> command
            == "editor.action.nextMatchFindAction"@,
        route_of(command) == Route::Find(FindRoute::PreviousMatch) ==> command
            == "editor.action.previousMatchFindAction"@,
        route_of(command) == Route::Find(FindRoute::ToggleCase) ==> command
            == "toggleFindCaseSensitive"@,
        route_of(command) == Route::Find(FindRoute::ToggleWord) ==> command
            == "toggleFindWholeWord"@,
        route_of(command) == Route::Find(FindRoute::ToggleRegex) ==> command
            == "toggleFindRegex"@,
        route_of(command) == Route::Find(FindRoute::ToggleField) ==> command
            == "deco.find.toggleField"@,
        route_of(command) == Route::Find(FindRoute::ReplaceOne) ==> command
            == "editor.action.replaceOne"@,
        route_of(command) == Route::Find(FindRoute::ReplaceAll) ==> command
            == "editor.action.replaceAll"@,
{
}

/// Nothing is asked, and nothing that is asked is answered, but by the commands for that.
pub proof fn law_which_commands_ask_something(command: Seq<char>)
    ensures
        route_of(command) == Route::Prompt(PromptRoute::GoToLine) ==> command
            == "workbench.action.gotoLine"@,
        route_of(command) == Route::Prompt(PromptRoute::ShowCommands) ==> command
            == "workbench.action.showCommands"@,
        route_of(command) == Route::Prompt(PromptRoute::FindInFiles) ==> command
            == "workbench.action.findInFiles"@,
        route_of(command) == Route::Prompt(PromptRoute::ReplaceInFiles) ==> command
            == "workbench.action.replaceInFiles"@,
        route_of(command) == Route::Prompt(PromptRoute::Close) ==> command
            == "workbench.action.closeQuickOpen"@,
        route_of(command) == Route::Prompt(PromptRoute::SelectNext) ==> command
            == "workbench.action.quickOpenSelectNext"@,
        route_of(command) == Route::Prompt(PromptRoute::SelectPrevious) ==> command
            == "workbench.action.quickOpenSelectPrevious"@,
        route_of(command) == Route::Prompt(PromptRoute::Accept) ==> command
            == "workbench.action.acceptSelectedQuickOpenItem"@,
        route_of(command) == Route::Prompt(PromptRoute::ChangeLanguage) ==> command
            == "workbench.action.editor.changeLanguageMode"@,
        route_of(command) == Route::Prompt(PromptRoute::SaveAs) ==> command
            == "workbench.action.files.saveAs"@,
        route_of(command) == Route::Prompt(PromptRoute::OpenFile) ==> command
            == "workbench.action.files.openFile"@,
{
}

/// To tabs and groups, only the commands lead that are named after what is done to them.
pub proof fn law_which_commands_are_for_tabs(command: Seq<char>)
    ensures
        route_of(command) == Route::Tabs(TabRoute::Next) ==> command
            == "workbench.action.nextEditor"@,
        route_of(command) == Route::Tabs(TabRoute::Previous) ==> command
            == "workbench.action.previousEditor"@,
        route_of(command) == Route::Tabs(TabRoute::Close) ==> command
            == "workbench.action.closeActiveEditor"@,
        route_of(command) == Route::Tabs(TabRoute::Split) ==> command
            == "workbench.action.splitEditor"@
            || command == "workbench.action.splitEditorRight"@,
        route_of(command) == Route::Tabs(TabRoute::FocusFirst) ==> command
            == "workbench.action.focusFirstEditorGroup"@,
        route_of(command) == Route::Tabs(TabRoute::FocusSecond) ==> command
            == "workbench.action.focusSecondEditorGroup"@,
        route_of(command) == Route::Tabs(TabRoute::FocusThird) ==> command
            == "workbench.action.focusThirdEditorGroup"@,
        route_of(command) == Route::Tabs(TabRoute::NewUntitled) ==> command
            == "workbench.action.files.newUntitledFile"@,
        route_of(command) == Route::Tabs(TabRoute::Quit) ==> command
            == "workbench.action.quit"@
            || command == "workbench.action.closeWindow"@,
        route_of(command) == Route::Tabs(TabRoute::Revert) ==> command
            == "workbench.action.files.revert"@,
        route_of(command) == Route::Tabs(TabRoute::RevertAndClose) ==> command
            == "workbench.action.revertAndCloseActiveEditor"@,
{
}

/// Of what is done to the document on screen, each has a command of its own, and no other command
/// leads to it.
pub proof fn law_which_commands_are_for_the_text(command: Seq<char>)
    ensures
        route_of(command) == Route::Text(TextRoute::NextField) ==> command
            == "jumpToNextSnippetPlaceholder"@,
        route_of(command) == Route::Text(TextRoute::PreviousField) ==> command
            == "jumpToPrevSnippetPlaceholder"@,
        route_of(command) == Route::Text(TextRoute::LeaveSnippet) ==> command
            == "leaveSnippet"@,
        route_of(command) == Route::Text(TextRoute::NextMarker) ==> command
            == "editor.action.marker.next"@
            || command == "editor.action.marker.nextInFiles"@,
        route_of(command) == Route::Text(TextRoute::PreviousMarker) ==> command
            == "editor.action.marker.prev"@
            || command == "editor.action.marker.prevInFiles"@,
        route_of(command) == Route::Text(TextRoute::Undo) ==> command
            == "undo"@,
        route_of(command) == Route::Text(TextRoute::Redo) ==> command
            == "redo"@,
        route_of(command) == Route::Text(TextRoute::ToggleWordWrap) ==> command
            == "editor.action.toggleWordWrap"@,
        route_of(command) == Route::Text(TextRoute::Save) ==> command
            == "workbench.action.files.save"@,
{
}

/// Showing or hiding a region lays the window out, and changes nothing else of it.
proof fn lemma_regions<B, S, M>(s: Session<B, S, M>, showing: bool)
    ensures
        ({
            let now = side_bar_shown(s, showing);
            &&& now.chrome == (Chrome {
                side_bar: showing,
                focus: now.chrome.focus,
                ..s.chrome
            })
            &&& showing ==> now.chrome.focus == s.chrome.focus
            &&& now.active.document == s.active.document
            &&& now.left == s.left
            &&& now.right == s.right
        }),
        ({
            let now = panel_shown(s, showing);
            &&& now.chrome == (Chrome { panel: showing, focus: now.chrome.focus, ..s.chrome })
            &&& showing ==> now.chrome.focus == s.chrome.focus
            &&& now.active.document == s.active.document
            &&& now.left == s.left
            &&& now.right == s.right
        }),
{
    reveal(laid_out);
}

/// A command that shows or hides the side bar or the panel does that to it, and leaves the other.
pub proof fn law_which_region_is_shown_or_hidden<B, S, M>(
    before: Session<B, S, M>,
    after: Session<B, S, M>,
    route: WindowRoute,
    command: Seq<char>,
    blank: Document<B>,
    ran: Ran,
)
    requires
        performs(before, after, Route::Window(route), command, blank, ran),
    ensures
        ran is Done,
        route == WindowRoute::ToggleSideBar ==> after.chrome.side_bar != before.chrome.side_bar
            && after.chrome.panel == before.chrome.panel,
        route == WindowRoute::TogglePanel ==> after.chrome.panel != before.chrome.panel
            && after.chrome.side_bar == before.chrome.side_bar,
        route == WindowRoute::CloseSideBar ==> !after.chrome.side_bar && after.chrome.panel
            == before.chrome.panel,
        route == WindowRoute::ClosePanel ==> !after.chrome.panel && after.chrome.side_bar
            == before.chrome.side_bar,
{
    match route {
        WindowRoute::ToggleSideBar => lemma_regions(before, !before.chrome.side_bar),
        WindowRoute::TogglePanel => lemma_regions(before, !before.chrome.panel),
        WindowRoute::CloseSideBar => lemma_regions(before, false),
        WindowRoute::ClosePanel => lemma_regions(before, false),
        _ => {},
    }
}

/// A command that brings the keyboard to a region shows the region, and the view of the side bar
/// that it is for; the keyboard goes there where there is room, and to the text always.
pub proof fn law_where_a_command_brings_the_keyboard<B, S, M>(
    before: Session<B, S, M>,
    after: Session<B, S, M>,
    route: WindowRoute,
    command: Seq<char>,
    blank: Document<B>,
    ran: Ran,
)
    requires
        performs(before, after, Route::Window(route), command, blank, ran),
    ensures
        route == WindowRoute::ShowExplorer ==> after.chrome.side_bar && after.chrome.side_bar_view
            == SideBarView::Explorer && (ran == Ran::Done(Outcome::Handled) ==> after.chrome.focus
            == Focus::SideBar),
        route == WindowRoute::ShowSourceControl ==> after.chrome.side_bar
            && after.chrome.side_bar_view == SideBarView::SourceControl && (ran == Ran::Done(
            Outcome::Handled,
        ) ==> after.chrome.focus == Focus::SideBar),
        route == WindowRoute::FocusSideBar ==> after.chrome.side_bar && after.chrome.side_bar_view
            == before.chrome.side_bar_view && (ran == Ran::Done(Outcome::Handled)
            ==> after.chrome.focus == Focus::SideBar),
        route == WindowRoute::FocusPanel ==> after.chrome.panel && (ran == Ran::Done(
            Outcome::Handled,
        ) ==> after.chrome.focus == Focus::Panel),
        route == WindowRoute::FocusText ==> after.chrome.focus == Focus::Editor,
{
    match route {
        WindowRoute::ShowExplorer => {
            lemma_brought(side_bar_viewing(before, SideBarView::Explorer), after, Focus::SideBar);
            lemma_viewing(before, SideBarView::Explorer);
        },
        WindowRoute::ShowSourceControl => {
            lemma_brought(
                side_bar_viewing(before, SideBarView::SourceControl),
                after,
                Focus::SideBar,
            );
            lemma_viewing(before, SideBarView::SourceControl);
        },
        WindowRoute::FocusSideBar => lemma_brought(before, after, Focus::SideBar),
        WindowRoute::FocusPanel => lemma_brought(before, after, Focus::Panel),
        WindowRoute::FocusText => lemma_brought(before, after, Focus::Editor),
        _ => {},
    }
}

proof fn lemma_viewing<B, S, M>(s: Session<B, S, M>, view: SideBarView)
    ensures
        side_bar_viewing(s, view).chrome.side_bar,
        side_bar_viewing(s, view).chrome.side_bar_view == view,
{
    let viewing = Session { chrome: Chrome { side_bar_view: view, ..s.chrome }, ..s };
    lemma_regions(viewing, true);
}

proof fn lemma_brought<B, S, M>(before: Session<B, S, M>, after: Session<B, S, M>, focus: Focus)
    requires
        after == region_focused(before, focus),
    ensures
        focus == Focus::SideBar ==> after.chrome.side_bar,
        focus == Focus::Panel ==> after.chrome.panel,
        focus == Focus::Editor ==> after.chrome.focus == Focus::Editor,
        on_screen(region_shown(before, focus).chrome, focus) ==> after.chrome.focus == focus,
        after.chrome.side_bar_view == before.chrome.side_bar_view,
{
    lemma_regions(before, true);
}

/// A command for the find bar has that done which it is named after.
pub proof fn law_what_the_find_bar_wants<B, S, M>(
    before: Session<B, S, M>,
    after: Session<B, S, M>,
    route: FindRoute,
    command: Seq<char>,
    blank: Document<B>,
    ran: Ran,
)
    requires
        performs(before, after, Route::Find(route), command, blank, ran),
    ensures
        route == FindRoute::Open ==> ran == Ran::Wanted((Work::OpenFind { replacing: false })),
        route == FindRoute::OpenReplace ==> ran == Ran::Wanted(
            (Work::OpenFind { replacing: true }),
        ),
        route == FindRoute::NextMatch ==> ran == Ran::Wanted(Work::StepFind(Direction::Next)),
        route == FindRoute::PreviousMatch ==> ran == Ran::Wanted(Work::StepFind(Direction::Prev)),
        route == FindRoute::ToggleField ==> ran == Ran::Wanted(Work::ToggleField),
        route == FindRoute::ReplaceOne ==> ran == Ran::Wanted(Work::ReplaceOne),
        route == FindRoute::ReplaceAll ==> ran == Ran::Wanted(Work::ReplaceAll),
        route == FindRoute::Close ==> !after.active.find.visible && after.active.find.query
            == before.active.find.query && ran == Ran::Done(Outcome::Handled),
        after.active.document == before.active.document,
        after.active.view == before.active.view,
{
}

/// Toggling an option of a search changes those of the workspace while what to search it for is
/// asked, and else those of the find bar; then what is found is found again. It never changes both.
pub proof fn law_whose_option_is_toggled<B, S, M>(
    before: Session<B, S, M>,
    after: Session<B, S, M>,
    route: FindRoute,
    command: Seq<char>,
    blank: Document<B>,
    ran: Ran,
)
    requires
        performs(before, after, Route::Find(route), command, blank, ran),
        route == FindRoute::ToggleCase || route == FindRoute::ToggleWord || route
            == FindRoute::ToggleRegex,
    ensures
        ({
            let asked = before.prompt is Some && before.prompt->Some_0.kind
                == PromptKind::SearchQuery;
            &&& asked ==> after.active.find == before.active.find && after.search.options
                != before.search.options && ran is Done
            &&& !asked ==> after.search == before.search && after.active.find.options
                != before.active.find.options && after.active.find.query
                == before.active.find.query && ran == Ran::Wanted(Work::FindAgain)
        }),
{
}

/// A command that asks something asks it, and one for what is asked has that done.
pub proof fn law_what_is_asked<B, S, M>(
    before: Session<B, S, M>,
    after: Session<B, S, M>,
    route: PromptRoute,
    command: Seq<char>,
    blank: Document<B>,
    ran: Ran,
)
    requires
        performs(before, after, Route::Prompt(route), command, blank, ran),
    ensures
        route == PromptRoute::GoToLine ==> after.prompt is Some && after.prompt->Some_0.kind
            == PromptKind::GoToLine,
        route == PromptRoute::SaveAs ==> after.prompt is Some && after.prompt->Some_0.kind
            == PromptKind::SaveAs,
        route == PromptRoute::OpenFile ==> after.prompt is Some && after.prompt->Some_0.kind
            == PromptKind::OpenPath,
        route == PromptRoute::Close ==> after.prompt is None,
        route == PromptRoute::ShowCommands ==> ran == Ran::Wanted(Work::ShowCommands),
        route == PromptRoute::FindInFiles ==> ran == Ran::Wanted(
            (Work::AskSearch { replacing: false }),
        ),
        route == PromptRoute::ReplaceInFiles ==> ran == Ran::Wanted(
            (Work::AskSearch { replacing: true }),
        ),
        route == PromptRoute::SelectNext ==> ran == Ran::Wanted(Work::SelectNext),
        route == PromptRoute::SelectPrevious ==> ran == Ran::Wanted(Work::SelectPrevious),
        route == PromptRoute::Accept ==> ran == Ran::Wanted(Work::AcceptPrompt),
        route == PromptRoute::ChangeLanguage ==> ran == Ran::Wanted(Work::OfferLanguages),
        after == (Session { prompt: after.prompt, ..before }),
{
}

/// Going to the next tab shows the document behind the one on screen, or the first behind the last;
/// going to the previous one shows the document before it, or the last before the first.
pub proof fn law_which_tab_comes_next<B, S, M>(
    before: Session<B, S, M>,
    after: Session<B, S, M>,
    command: Seq<char>,
    blank: Document<B>,
    ran: Ran,
    back: bool,
)
    requires
        performs(
            before,
            after,
            Route::Tabs(
                if back {
                    TabRoute::Previous
                } else {
                    TabRoute::Next
                },
            ),
            command,
            blank,
            ran,
        ),
    ensures
        ({
            let n = before.tabs().len() as int;
            let at = before.left@.len() as int;
            let wanted = if back {
                if at == 0 {
                    n - 1
                } else {
                    at - 1
                }
            } else if at == n - 1 {
                0
            } else {
                at + 1
            };
            &&& after.left@.len() == wanted
            &&& after.active.document == before.tabs()[wanted].document
        }),
        after.tabs().len() == before.tabs().len(),
        ran == Ran::Done(Outcome::Handled),
{
    reveal(laid_out);
    law_which_tab_is_beside(before.left@.len() as int, before.tabs().len() as int);
    assert(before.tabs()[before.left@.len() as int] == before.active);
}

/// Undoing and redoing in the text are done in every document that shared the change, where it was
/// shared, and else in this one alone. In the side bar, what was done to files is undone. Elsewhere
/// nothing is.
pub proof fn law_what_undoing_undoes<B, S, M>(
    before: Session<B, S, M>,
    after: Session<B, S, M>,
    command: Seq<char>,
    blank: Document<B>,
    ran: Ran,
    redo: bool,
)
    requires
        performs(
            before,
            after,
            Route::Text(
                if redo {
                    TextRoute::Redo
                } else {
                    TextRoute::Undo
                },
            ),
            command,
            blank,
            ran,
        ),
    ensures
        ({
            let group = if redo {
                before.active.document.redo_group
            } else {
                before.active.document.undo_group
            };
            &&& before.chrome.focus == Focus::Editor && group is Some ==> ran == Ran::Wanted(
                (Work::UndoGroup { group: group->Some_0, redo }),
            ) && after == before
            &&& before.chrome.focus == Focus::Editor && group is None ==> ran == Ran::Wanted(
                Work::Execute,
            ) && after == before
            &&& before.chrome.focus == Focus::SideBar && !redo && before.tree.undo@.len() > 0
                ==> ran is Done && (ran->Done_0 is Message || ran->Done_0
                == Outcome::FileOperation(before.tree.undo@.last()))
            &&& before.chrome.focus == Focus::Panel ==> ran == Ran::Done(Outcome::Handled) && after
                == before
        }),
{
}

/// Saving a document that has no file asks where to; one that has is written where the keyboard is
/// in the text.
pub proof fn law_what_saving_asks<B, S, M>(
    before: Session<B, S, M>,
    after: Session<B, S, M>,
    command: Seq<char>,
    blank: Document<B>,
    ran: Ran,
)
    requires
        performs(before, after, Route::Text(TextRoute::Save), command, blank, ran),
    ensures
        before.active.document.path is None ==> ran == Ran::Done(Outcome::Handled) && after.prompt
            is Some && after.prompt->Some_0.kind == PromptKind::SaveAs,
        before.active.document.path is Some && before.chrome.focus == Focus::Editor ==> ran
            == Ran::Wanted(Work::Execute) && after == before,
        after.active == before.active,
{
}

} // verus!
