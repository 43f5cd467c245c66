//! Which part of a session a command is for.

use vstd::prelude::*;
use crate::text::{same, starts_with};
#[allow(unused_imports)]
use crate::text::begins;

verus! {

/// Commands for what surrounds the text.
#[derive(Debug, Clone, Copy, PartialEq, Eq, Structural)]
pub enum WindowRoute {
    ToggleSideBar,
    TogglePanel,
    CloseSideBar,
    ClosePanel,
    ShowExplorer,
    ShowSourceControl,
    FocusSideBar,
    FocusPanel,
    FocusText,
}

/// Commands for the repository.
#[derive(Debug, Clone, Copy, PartialEq, Eq, Structural)]
pub enum ScmRoute {
    Stage,
    StageAll,
    Unstage,
    Commit,
    Checkout,
    Refresh,
}

/// Commands for the file tree, and for whichever list has the keyboard.
#[derive(Debug, Clone, Copy, PartialEq, Eq, Structural)]
pub enum TreeRoute {
    Reveal,
    ListKey,
    NewFile,
    NewFolder,
    RenameFile,
    DeleteFile,
}

/// Commands for the find bar.
#[derive(Debug, Clone, Copy, PartialEq, Eq, Structural)]
pub enum FindRoute {
    Open,
    OpenReplace,
    Close,
    NextMatch,
    PreviousMatch,
    ToggleCase,
    ToggleWord,
    ToggleRegex,
    ToggleField,
    ReplaceOne,
    ReplaceAll,
}

/// Commands that ask something, or are for what is asked.
#[derive(Debug, Clone, Copy, PartialEq, Eq, Structural)]
pub enum PromptRoute {
    GoToLine,
    ShowCommands,
    FindInFiles,
    ReplaceInFiles,
    Close,
    SelectNext,
    SelectPrevious,
    Accept,
    ChangeLanguage,
    SaveAs,
    OpenFile,
}

/// Commands for tabs and groups.
#[derive(Debug, Clone, Copy, PartialEq, Eq, Structural)]
pub enum TabRoute {
    Next,
    Previous,
    Close,
    Split,
    FocusFirst,
    FocusSecond,
    FocusThird,
    NewUntitled,
    Quit,
    Revert,
    RevertAndClose,
}

/// Commands for the document on screen.
#[derive(Debug, Clone, Copy, PartialEq, Eq, Structural)]
pub enum TextRoute {
    NextField,
    PreviousField,
    LeaveSnippet,
    NextMarker,
    PreviousMarker,
    Undo,
    Redo,
    ToggleWordWrap,
    Save,
    /// One that needs something only a frontend has.
    Frontend,
    /// Any other.
    Other,
}

/// Which part of a session a command is for.
#[derive(Debug, Clone, Copy, PartialEq, Eq, Structural)]
pub enum Route {
    Window(WindowRoute),
    Scm(ScmRoute),
    Tree(TreeRoute),
    Find(FindRoute),
    Prompt(PromptRoute),
    Tabs(TabRoute),
    Text(TextRoute),
}

/// Whether only a frontend has what the command needs.
pub open spec fn is_for_frontend(command: Seq<char>) -> bool {
    command == "workbench.action.quickOpen"@
    || command == "editor.action.showHover"@
    || command == "editor.action.rename"@
    || command == "editor.action.quickFix"@
    || command == "editor.action.revealDefinition"@
    || command == "editor.action.goToReferences"@
    || command == "workbench.action.gotoSymbol"@
    || command == "workbench.action.selectTheme"@
    || command == "editor.action.triggerSuggest"@
    || command == "editor.action.formatDocument"@
    || command == "editor.action.formatSelection"@
    || command == "acceptSelectedSuggestion"@
    || command == "selectNextSuggestion"@
    || command == "selectPrevSuggestion"@
    || command == "hideSuggestWidget"@
    || command == "closeHoverWidget"@
}

/// Whether only a frontend has what the command needs.
fn for_frontend(command: &str) -> (r: bool)
    ensures
        r == is_for_frontend(command@),
{
    same(command, "workbench.action.quickOpen")
    || same(command, "editor.action.showHover")
    || same(command, "editor.action.rename")
    || same(command, "editor.action.quickFix")
    || same(command, "editor.action.revealDefinition")
    || same(command, "editor.action.goToReferences")
    || same(command, "workbench.action.gotoSymbol")
    || same(command, "workbench.action.selectTheme")
    || same(command, "editor.action.triggerSuggest")
    || same(command, "editor.action.formatDocument")
    || same(command, "editor.action.formatSelection")
    || same(command, "acceptSelectedSuggestion")
    || same(command, "selectNextSuggestion")
    || same(command, "selectPrevSuggestion")
    || same(command, "hideSuggestWidget")
    || same(command, "closeHoverWidget")
}

/// The command as one for what surrounds the text, if it is one.
pub open spec fn window_route(command: Seq<char>) -> Option<WindowRoute> {
    if command == "workbench.action.toggleSidebarVisibility"@ {
        Some(WindowRoute::ToggleSideBar)
    } else if command == "workbench.action.togglePanel"@ {
        Some(WindowRoute::TogglePanel)
    } else if command == "workbench.action.closeSidebar"@ {
        Some(WindowRoute::CloseSideBar)
    } else if command == "workbench.action.closePanel"@ {
        Some(WindowRoute::ClosePanel)
    } else if command == "workbench.files.action.focusFilesExplorer"@
        || command == "workbench.view.explorer"@ {
        Some(WindowRoute::ShowExplorer)
    } else if command == "workbench.view.scm"@ {
        Some(WindowRoute::ShowSourceControl)
    } else if command == "workbench.action.focusSideBar"@ {
        Some(WindowRoute::FocusSideBar)
    } else if command == "workbench.action.focusPanel"@ {
        Some(WindowRoute::FocusPanel)
    } else if command == "workbench.action.focusActiveEditorGroup"@ {
        Some(WindowRoute::FocusText)
    } else {
        None
    }
}

/// The command as one for what surrounds the text, if it is one.
fn to_window(command: &str) -> (r: Option<WindowRoute>)
    ensures
        r == window_route(command@),
{
    if same(command, "workbench.action.toggleSidebarVisibility") {
        Some(WindowRoute::ToggleSideBar)
    } else if same(command, "workbench.action.togglePanel") {
        Some(WindowRoute::TogglePanel)
    } else if same(command, "workbench.action.closeSidebar") {
        Some(WindowRoute::CloseSideBar)
    } else if same(command, "workbench.action.closePanel") {
        Some(WindowRoute::ClosePanel)
    } else if same(command, "workbench.files.action.focusFilesExplorer")
        || same(command, "workbench.view.explorer") {
        Some(WindowRoute::ShowExplorer)
    } else if same(command, "workbench.view.scm") {
        Some(WindowRoute::ShowSourceControl)
    } else if same(command, "workbench.action.focusSideBar") {
        Some(WindowRoute::FocusSideBar)
    } else if same(command, "workbench.action.focusPanel") {
        Some(WindowRoute::FocusPanel)
    } else if same(command, "workbench.action.focusActiveEditorGroup") {
        Some(WindowRoute::FocusText)
    } else {
        None
    }
}

/// The command as one for the repository, if it is one.
pub open spec fn scm_route(command: Seq<char>) -> Option<ScmRoute> {
    if command == "git.stage"@ {
        Some(ScmRoute::Stage)
    } else if command == "git.stageAll"@ {
        Some(ScmRoute::StageAll)
    } else if command == "git.unstage"@ {
        Some(ScmRoute::Unstage)
    } else if command == "git.commit"@ {
        Some(ScmRoute::Commit)
    } else if command == "git.checkout"@ {
        Some(ScmRoute::Checkout)
    } else if command == "git.refresh"@ {
        Some(ScmRoute::Refresh)
    } else {
        None
    }
}

/// The command as one for the repository, if it is one.
fn to_scm(command: &str) -> (r: Option<ScmRoute>)
    ensures
        r == scm_route(command@),
{
    if same(command, "git.stage") {
        Some(ScmRoute::Stage)
    } else if same(command, "git.stageAll") {
        Some(ScmRoute::StageAll)
    } else if same(command, "git.unstage") {
        Some(ScmRoute::Unstage)
    } else if same(command, "git.commit") {
        Some(ScmRoute::Commit)
    } else if same(command, "git.checkout") {
        Some(ScmRoute::Checkout)
    } else if same(command, "git.refresh") {
        Some(ScmRoute::Refresh)
    } else {
        None
    }
}

/// The command as one for the file tree, or a list, if it is one.
pub open spec fn tree_route(command: Seq<char>) -> Option<TreeRoute> {
    if command == "revealInExplorer"@ {
        Some(TreeRoute::Reveal)
    } else if command == "list.focusDown"@
        || command == "list.focusUp"@
        || command == "list.focusFirst"@
        || command == "list.focusLast"@
        || command == "list.expand"@
        || command == "list.collapse"@
        || command == "list.select"@ {
        Some(TreeRoute::ListKey)
    } else if command == "explorer.newFile"@ {
        Some(TreeRoute::NewFile)
    } else if command == "explorer.newFolder"@ {
        Some(TreeRoute::NewFolder)
    } else if command == "renameFile"@ {
        Some(TreeRoute::RenameFile)
    } else if command == "deleteFile"@ {
        Some(TreeRoute::DeleteFile)
    } else {
        None
    }
}

/// The command as one for the file tree, or a list, if it is one.
fn to_tree(command: &str) -> (r: Option<TreeRoute>)
    ensures
        r == tree_route(command@),
{
    if same(command, "revealInExplorer") {
        Some(TreeRoute::Reveal)
    } else if same(command, "list.focusDown")
        || same(command, "list.focusUp")
        || same(command, "list.focusFirst")
        || same(command, "list.focusLast")
        || same(command, "list.expand")
        || same(command, "list.collapse")
        || same(command, "list.select") {
        Some(TreeRoute::ListKey)
    } else if same(command, "explorer.newFile") {
        Some(TreeRoute::NewFile)
    } else if same(command, "explorer.newFolder") {
        Some(TreeRoute::NewFolder)
    } else if same(command, "renameFile") {
        Some(TreeRoute::RenameFile)
    } else if same(command, "deleteFile") {
        Some(TreeRoute::DeleteFile)
    } else {
        None
    }
}

/// The command as one for the find bar, if it is one.
pub open spec fn find_route(command: Seq<char>) -> Option<FindRoute> {
    if command == "actions.find"@ {
        Some(FindRoute::Open)
    } else if command == "editor.action.startFindReplaceAction"@ {
        Some(FindRoute::OpenReplace)
    } else if command == "closeFindWidget"@ {
        Some(FindRoute::Close)
    } else if command == "editor.action.nextMatchFindAction"@ {
        Some(FindRoute::NextMatch)
    } else if command == "editor.action.previousMatchFindAction"@ {
        Some(FindRoute::PreviousMatch)
    } else if command == "toggleFindCaseSensitive"@ {
        Some(FindRoute::ToggleCase)
    } else if command == "toggleFindWholeWord"@ {
        Some(FindRoute::ToggleWord)
    } else if command == "toggleFindRegex"@ {
        Some(FindRoute::ToggleRegex)
    } else if command == "deco.find.toggleField"@ {
        Some(FindRoute::ToggleField)
    } else if command == "editor.action.replaceOne"@ {
        Some(FindRoute::ReplaceOne)
    } else if command == "editor.action.replaceAll"@ {
        Some(FindRoute::ReplaceAll)
    } else {
        None
    }
}

/// The command as one for the find bar, if it is one.
fn to_find(command: &str) -> (r: Option<FindRoute>)
    ensures
        r == find_route(command@),
{
    if same(command, "actions.find") {
        Some(FindRoute::Open)
    } else if same(command, "editor.action.startFindReplaceAction") {
        Some(FindRoute::OpenReplace)
    } else if same(command, "closeFindWidget") {
        Some(FindRoute::Close)
    } else if same(command, "editor.action.nextMatchFindAction") {
        Some(FindRoute::NextMatch)
    } else if same(command, "editor.action.previousMatchFindAction") {
        Some(FindRoute::PreviousMatch)
    } else if same(command, "toggleFindCaseSensitive") {
        Some(FindRoute::ToggleCase)
    } else if same(command, "toggleFindWholeWord") {
        Some(FindRoute::ToggleWord)
    } else if same(command, "toggleFindRegex") {
        Some(FindRoute::ToggleRegex)
    } else if same(command, "deco.find.toggleField") {
        Some(FindRoute::ToggleField)
    } else if same(command, "editor.action.replaceOne") {
        Some(FindRoute::ReplaceOne)
    } else if same(command, "editor.action.replaceAll") {
        Some(FindRoute::ReplaceAll)
    } else {
        None
    }
}

/// The command as one for what is asked, if it is one.
pub open spec fn prompt_route(command: Seq<char>) -> Option<PromptRoute> {
    if command == "workbench.action.gotoLine"@ {
        Some(PromptRoute::GoToLine)
    } else if command == "workbench.action.showCommands"@ {
        Some(PromptRoute::ShowCommands)
    } else if command == "workbench.action.findInFiles"@ {
        Some(PromptRoute::FindInFiles)
    } else if command == "workbench.action.replaceInFiles"@ {
        Some(PromptRoute::ReplaceInFiles)
    } else if command == "workbench.action.closeQuickOpen"@ {
        Some(PromptRoute::Close)
    } else if command == "workbench.action.quickOpenSelectNext"@ {
        Some(PromptRoute::SelectNext)
    } else if command == "workbench.action.quickOpenSelectPrevious"@ {
        Some(PromptRoute::SelectPrevious)
    } else if command == "workbench.action.acceptSelectedQuickOpenItem"@ {
        Some(PromptRoute::Accept)
    } else if command == "workbench.action.editor.changeLanguageMode"@ {
        Some(PromptRoute::ChangeLanguage)
    } else if command == "workbench.action.files.saveAs"@ {
        Some(PromptRoute::SaveAs)
    } else if command == "workbench.action.files.openFile"@ {
        Some(PromptRoute::OpenFile)
    } else {
        None
    }
}

/// The command as one for what is asked, if it is one.
fn to_prompt(command: &str) -> (r: Option<PromptRoute>)
    ensures
        r == prompt_route(command@),
{
    if same(command, "workbench.action.gotoLine") {
        Some(PromptRoute::GoToLine)
    } else if same(command, "workbench.action.showCommands") {
        Some(PromptRoute::ShowCommands)
    } else if same(command, "workbench.action.findInFiles") {
        Some(PromptRoute::FindInFiles)
    } else if same(command, "workbench.action.replaceInFiles") {
        Some(PromptRoute::ReplaceInFiles)
    } else if same(command, "workbench.action.closeQuickOpen") {
        Some(PromptRoute::Close)
    } else if same(command, "workbench.action.quickOpenSelectNext") {
        Some(PromptRoute::SelectNext)
    } else if same(command, "workbench.action.quickOpenSelectPrevious") {
        Some(PromptRoute::SelectPrevious)
    } else if same(command, "workbench.action.acceptSelectedQuickOpenItem") {
        Some(PromptRoute::Accept)
    } else if same(command, "workbench.action.editor.changeLanguageMode") {
        Some(PromptRoute::ChangeLanguage)
    } else if same(command, "workbench.action.files.saveAs") {
        Some(PromptRoute::SaveAs)
    } else if same(command, "workbench.action.files.openFile") {
        Some(PromptRoute::OpenFile)
    } else {
        None
    }
}

/// The command as one for tabs and groups, if it is one.
pub open spec fn tab_route(command: Seq<char>) -> Option<TabRoute> {
    if command == "workbench.action.nextEditor"@ {
        Some(TabRoute::Next)
    } else if command == "workbench.action.previousEditor"@ {
        Some(TabRoute::Previous)
    } else if command == "workbench.action.closeActiveEditor"@ {
        Some(TabRoute::Close)
    } else if command == "workbench.action.splitEditor"@
        || command == "workbench.action.splitEditorRight"@ {
        Some(TabRoute::Split)
    } else if command == "workbench.action.focusFirstEditorGroup"@ {
        Some(TabRoute::FocusFirst)
    } else if command == "workbench.action.focusSecondEditorGroup"@ {
        Some(TabRoute::FocusSecond)
    } else if command == "workbench.action.focusThirdEditorGroup"@ {
        Some(TabRoute::FocusThird)
    } else if command == "workbench.action.files.newUntitledFile"@ {
        Some(TabRoute::NewUntitled)
    } else if command == "workbench.action.quit"@
        || command == "workbench.action.closeWindow"@ {
        Some(TabRoute::Quit)
    } else if command == "workbench.action.files.revert"@ {
        Some(TabRoute::Revert)
    } else if command == "workbench.action.revertAndCloseActiveEditor"@ {
        Some(TabRoute::RevertAndClose)
    } else {
        None
    }
}

/// The command as one for tabs and groups, if it is one.
fn to_tab(command: &str) -> (r: Option<TabRoute>)
    ensures
        r == tab_route(command@),
{
    if same(command, "workbench.action.nextEditor") {
        Some(TabRoute::Next)
    } else if same(command, "workbench.action.previousEditor") {
        Some(TabRoute::Previous)
    } else if same(command, "workbench.action.closeActiveEditor") {
        Some(TabRoute::Close)
    } else if same(command, "workbench.action.splitEditor")
        || same(command, "workbench.action.splitEditorRight") {
        Some(TabRoute::Split)
    } else if same(command, "workbench.action.focusFirstEditorGroup") {
        Some(TabRoute::FocusFirst)
    } else if same(command, "workbench.action.focusSecondEditorGroup") {
        Some(TabRoute::FocusSecond)
    } else if same(command, "workbench.action.focusThirdEditorGroup") {
        Some(TabRoute::FocusThird)
    } else if same(command, "workbench.action.files.newUntitledFile") {
        Some(TabRoute::NewUntitled)
    } else if same(command, "workbench.action.quit")
        || same(command, "workbench.action.closeWindow") {
        Some(TabRoute::Quit)
    } else if same(command, "workbench.action.files.revert") {
        Some(TabRoute::Revert)
    } else if same(command, "workbench.action.revertAndCloseActiveEditor") {
        Some(TabRoute::RevertAndClose)
    } else {
        None
    }
}

/// The command as one for the document on screen.
pub open spec fn text_route(command: Seq<char>) -> TextRoute {
    if command == "jumpToNextSnippetPlaceholder"@ {
        TextRoute::NextField
    } else if command == "jumpToPrevSnippetPlaceholder"@ {
        TextRoute::PreviousField
    } else if command == "leaveSnippet"@ {
        TextRoute::LeaveSnippet
    } else if command == "editor.action.marker.next"@
        || command == "editor.action.marker.nextInFiles"@ {
        TextRoute::NextMarker
    } else if command == "editor.action.marker.prev"@
        || command == "editor.action.marker.prevInFiles"@ {
        TextRoute::PreviousMarker
    } else if command == "undo"@ {
        TextRoute::Undo
    } else if command == "redo"@ {
        TextRoute::Redo
    } else if command == "editor.action.toggleWordWrap"@ {
        TextRoute::ToggleWordWrap
    } else if command == "workbench.action.files.save"@ {
        TextRoute::Save
    } else if is_for_frontend(command) {
        TextRoute::Frontend
    } else {
        TextRoute::Other
    }
}

/// The command as one for the document on screen.
fn to_text(command: &str) -> (r: TextRoute)
    ensures
        r == text_route(command@),
{
    if same(command, "jumpToNextSnippetPlaceholder") {
        TextRoute::NextField
    } else if same(command, "jumpToPrevSnippetPlaceholder") {
        TextRoute::PreviousField
    } else if same(command, "leaveSnippet") {
        TextRoute::LeaveSnippet
    } else if same(command, "editor.action.marker.next")
        || same(command, "editor.action.marker.nextInFiles") {
        TextRoute::NextMarker
    } else if same(command, "editor.action.marker.prev")
        || same(command, "editor.action.marker.prevInFiles") {
        TextRoute::PreviousMarker
    } else if same(command, "undo") {
        TextRoute::Undo
    } else if same(command, "redo") {
        TextRoute::Redo
    } else if same(command, "editor.action.toggleWordWrap") {
        TextRoute::ToggleWordWrap
    } else if same(command, "workbench.action.files.save") {
        TextRoute::Save
    } else if for_frontend(command) {
        TextRoute::Frontend
    } else {
        TextRoute::Other
    }
}

/// Which part of a session the command is for.
pub open spec fn route_of(command: Seq<char>) -> Route {
    if window_route(command) is Some {
        Route::Window(window_route(command)->Some_0)
    } else if scm_route(command) is Some {
        Route::Scm(scm_route(command)->Some_0)
    } else if tree_route(command) is Some {
        Route::Tree(tree_route(command)->Some_0)
    } else if find_route(command) is Some {
        Route::Find(find_route(command)->Some_0)
    } else if prompt_route(command) is Some {
        Route::Prompt(prompt_route(command)->Some_0)
    } else if tab_route(command) is Some {
        Route::Tabs(tab_route(command)->Some_0)
    } else {
        Route::Text(text_route(command))
    }
}

/// Which part of a session the command is for.
pub fn route(command: &str) -> (r: Route)
    ensures
        r == route_of(command@),
{
    if let Some(route) = to_window(command) {
        return Route::Window(route);
    }
    if let Some(route) = to_scm(command) {
        return Route::Scm(route);
    }
    if let Some(route) = to_tree(command) {
        return Route::Tree(route);
    }
    if let Some(route) = to_find(command) {
        return Route::Find(route);
    }
    if let Some(route) = to_prompt(command) {
        return Route::Prompt(route);
    }
    if let Some(route) = to_tab(command) {
        return Route::Tabs(route);
    }
    Route::Text(to_text(command))
}

/// Whether a command only moves, selects or copies, so that it may run in a comparison.
pub open spec fn is_harmless(command: Seq<char>) -> bool {
    ||| begins(command, "cursor"@)
    ||| begins(command, "scroll"@)
    ||| command == "editor.action.clipboardCopyAction"@
    ||| command == "editor.action.selectAll"@
    ||| command == "expandLineSelection"@
    ||| command == "removeSecondaryCursors"@
    ||| command == "cancelSelection"@
}

/// Whether a command only moves, selects or copies.
pub fn harmless(command: &str) -> (r: bool)
    ensures
        r == is_harmless(command@),
{
    starts_with(command, "cursor") || starts_with(command, "scroll") || same(
        command,
        "editor.action.clipboardCopyAction",
    ) || same(command, "editor.action.selectAll") || same(command, "expandLineSelection") || same(
        command,
        "removeSecondaryCursors",
    ) || same(command, "cancelSelection")
}

/// Whether a command asks to leave the editor.
pub open spec fn is_quitting(command: Seq<char>) -> bool {
    command == "workbench.action.quit"@ || command == "workbench.action.closeWindow"@
}

/// Whether a command asks to leave the editor.
pub fn quitting(command: &str) -> (r: bool)
    ensures
        r == is_quitting(command@),
{
    same(command, "workbench.action.quit") || same(command, "workbench.action.closeWindow")
}

/// Undoing and redoing are commands for the document on screen: every command for anything else
/// has a longer name.
pub(crate) proof fn lemma_routes_of_undoing()
    ensures
        route_of("undo"@) == Route::Text(TextRoute::Undo),
        route_of("redo"@) == Route::Text(TextRoute::Redo),
{
    reveal_strlit("undo");
    reveal_strlit("redo");
    reveal_strlit("workbench.action.toggleSidebarVisibility");
    reveal_strlit("workbench.action.togglePanel");
    reveal_strlit("workbench.action.closeSidebar");
    reveal_strlit("workbench.action.closePanel");
    reveal_strlit("workbench.files.action.focusFilesExplorer");
    reveal_strlit("workbench.view.explorer");
    reveal_strlit("workbench.view.scm");
    reveal_strlit("workbench.action.focusSideBar");
    reveal_strlit("workbench.action.focusPanel");
    reveal_strlit("workbench.action.focusActiveEditorGroup");
    reveal_strlit("git.stage");
    reveal_strlit("git.stageAll");
    reveal_strlit("git.unstage");
    reveal_strlit("git.commit");
    reveal_strlit("git.checkout");
    reveal_strlit("git.refresh");
    reveal_strlit("revealInExplorer");
    reveal_strlit("list.focusDown");
    reveal_strlit("list.focusUp");
    reveal_strlit("list.focusFirst");
    reveal_strlit("list.focusLast");
    reveal_strlit("list.expand");
    reveal_strlit("list.collapse");
    reveal_strlit("list.select");
    reveal_strlit("explorer.newFile");
    reveal_strlit("explorer.newFolder");
    reveal_strlit("renameFile");
    reveal_strlit("deleteFile");
    reveal_strlit("actions.find");
    reveal_strlit("editor.action.startFindReplaceAction");
    reveal_strlit("closeFindWidget");
    reveal_strlit("editor.action.nextMatchFindAction");
    reveal_strlit("editor.action.previousMatchFindAction");
    reveal_strlit("toggleFindCaseSensitive");
    reveal_strlit("toggleFindWholeWord");
    reveal_strlit("toggleFindRegex");
    reveal_strlit("deco.find.toggleField");
    reveal_strlit("editor.action.replaceOne");
    reveal_strlit("editor.action.replaceAll");
    reveal_strlit("workbench.action.gotoLine");
    reveal_strlit("workbench.action.showCommands");
    reveal_strlit("workbench.action.findInFiles");
    reveal_strlit("workbench.action.replaceInFiles");
    reveal_strlit("workbench.action.closeQuickOpen");
    reveal_strlit("workbench.action.quickOpenSelectNext");
    reveal_strlit("workbench.action.quickOpenSelectPrevious");
    reveal_strlit("workbench.action.acceptSelectedQuickOpenItem");
    reveal_strlit("workbench.action.editor.changeLanguageMode");
    reveal_strlit("workbench.action.files.saveAs");
    reveal_strlit("workbench.action.files.openFile");
    reveal_strlit("workbench.action.nextEditor");
    reveal_strlit("workbench.action.previousEditor");
    reveal_strlit("workbench.action.closeActiveEditor");
    reveal_strlit("workbench.action.splitEditor");
    reveal_strlit("workbench.action.splitEditorRight");
    reveal_strlit("workbench.action.focusFirstEditorGroup");
    reveal_strlit("workbench.action.focusSecondEditorGroup");
    reveal_strlit("workbench.action.focusThirdEditorGroup");
    reveal_strlit("workbench.action.files.newUntitledFile");
    reveal_strlit("workbench.action.quit");
    reveal_strlit("workbench.action.closeWindow");
    reveal_strlit("workbench.action.files.revert");
    reveal_strlit("workbench.action.revertAndCloseActiveEditor");
    reveal_strlit("jumpToNextSnippetPlaceholder");
    reveal_strlit("jumpToPrevSnippetPlaceholder");
    reveal_strlit("leaveSnippet");
    reveal_strlit("editor.action.marker.next");
    reveal_strlit("editor.action.marker.nextInFiles");
    reveal_strlit("editor.action.marker.prev");
    reveal_strlit("editor.action.marker.prevInFiles");
    assert("undo"@[0] != "redo"@[0]);
    assert("undo"@.len() == 4 && "redo"@.len() == 4);
}

} // verus!
