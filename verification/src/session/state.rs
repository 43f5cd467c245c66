//! What a session holds.

use vstd::prelude::*;
use crate::comparison::ComparisonLine;
use crate::editing::{Position, Range, Selection, SelectionSet};
use crate::path::PathBuf;
use crate::session::files::Operation;
use crate::snippet::ActiveSnippet;

verus! {

/// Which region of the window has the keyboard.
#[derive(Debug, Clone, Copy, PartialEq, Eq, Structural, Default)]
pub enum Focus {
    /// The text.
    #[default]
    Editor,
    /// The side bar.
    SideBar,
    /// The panel.
    Panel,
}

/// Which view the side bar is showing.
#[derive(Debug, Clone, Copy, PartialEq, Eq, Structural, Default)]
pub enum SideBarView {
    /// The file tree. What the side bar opens on.
    #[default]
    Explorer,
    /// The source-control view.
    SourceControl,
}

/// Where lines are broken.
#[derive(Debug, Clone, Copy, PartialEq, Eq, Structural)]
pub enum WordWrap {
    /// Nowhere.
    Off,
    /// At the window's edge.
    On,
    /// At a set column.
    WordWrapColumn,
    /// At the lesser of the two.
    Bounded,
}

/// The settings that apply to one document.
#[derive(Debug, PartialEq, Eq)]
pub struct EditorSettings {
    pub tab_size: usize,
    pub insert_spaces: bool,
    pub trim_trailing_whitespace: bool,
    pub insert_final_newline: bool,
    /// Whether a file that is indented in its own way goes on being indented that way.
    pub detect_indentation: bool,
    pub word_wrap: WordWrap,
    /// What is set and not supported, in words.
    pub unsupported: Option<String>,
}

/// A copy of an optional text.
pub fn clone_text(text: &Option<String>) -> (r: Option<String>)
    ensures
        r == *text,
{
    match text {
        Some(t) => Some(t.clone()),
        None => None,
    }
}

/// A copy of an optional path.
pub fn clone_path(path: &Option<PathBuf>) -> (r: Option<PathBuf>)
    ensures
        r == *path,
{
    match path {
        Some(p) => Some(p.clone()),
        None => None,
    }
}

impl Clone for EditorSettings {
    fn clone(&self) -> (r: EditorSettings)
        ensures
            r == *self,
    {
        EditorSettings {
            tab_size: self.tab_size,
            insert_spaces: self.insert_spaces,
            trim_trailing_whitespace: self.trim_trailing_whitespace,
            insert_final_newline: self.insert_final_newline,
            detect_indentation: self.detect_indentation,
            word_wrap: self.word_wrap,
            unsupported: clone_text(&self.unsupported),
        }
    }
}

/// How a file's own text is indented.
#[derive(Debug, Clone, Copy, PartialEq, Eq, Structural)]
pub enum Indentation {
    /// With tabs, of whatever width.
    Tabs,
    /// With this many spaces.
    Spaces(usize),
}

/// One document: what is known about a text, and the text itself as `body`.
#[derive(Debug)]
pub struct Document<B> {
    /// The file it stands for. `None` for a document that was never saved.
    pub path: Option<PathBuf>,
    /// Whether it differs from what is on disk.
    pub dirty: bool,
    /// Whether it holds no text.
    pub empty: bool,
    /// Its language, if it has one.
    pub language_id: Option<String>,
    /// Whether the language was chosen by hand.
    pub language_pinned: bool,
    /// The settings that apply to it.
    pub settings: EditorSettings,
    /// How the file itself is indented, where that was recognised.
    pub indentation: Option<Indentation>,
    /// Whether that differs from what the settings say, and is followed.
    pub indentation_overridden: bool,
    /// The wrapping that was chosen from the keyboard.
    pub wrap_override: Option<WordWrap>,
    /// The snippet being filled in.
    pub snippet: Option<ActiveSnippet>,
    /// The columns that its line numbers take.
    pub gutter: usize,
    /// The version of its text.
    pub version: i32,
    /// The group of the step that undoing would revert.
    pub undo_group: Option<u64>,
    /// The group of the step that redoing would repeat.
    pub redo_group: Option<u64>,
    /// Whether the next edit starts an undo step of its own.
    pub sealed: bool,
    /// Whether its highlighting has to be worked out again.
    pub relex: bool,
    /// The text, its history and its highlighting.
    pub body: B,
}

/// Where a group looks at a document.
#[derive(Debug)]
pub struct Viewport {
    pub width: usize,
    pub height: usize,
    /// The columns that are left for text; none where lines are not broken.
    pub text_width: usize,
    pub scroll_top: usize,
    pub scroll_row: usize,
    pub selections: SelectionSet,
    /// Whether the caret has to be brought on screen.
    pub reveal: bool,
}

impl Viewport {
    /// Whether two views look at the same place in the same way.
    pub open spec fn same(&self, other: Viewport) -> bool {
        *self == (Viewport { selections: self.selections, ..other }) && self.selections.same(
            other.selections,
        )
    }

    /// Whether the view is at the start of a text, of this size.
    pub open spec fn is_fresh(&self, width: usize, height: usize) -> bool {
        &&& self.width == width
        &&& self.height == height
        &&& self.text_width == 0
        &&& self.scroll_top == 0
        &&& self.scroll_row == 0
        &&& !self.reveal
        &&& self.selections.is_single(
            Selection {
                anchor: Position { line: 0, character: 0 },
                active: Position { line: 0, character: 0 },
            },
        )
    }

    /// A view at the start of a text, of this size.
    pub fn fresh(width: usize, height: usize) -> (r: Viewport)
        ensures
            r.is_fresh(width, height),
    {
        Viewport {
            width,
            height,
            text_width: 0,
            scroll_top: 0,
            scroll_row: 0,
            selections: SelectionSet::caret(Position::new(0, 0)),
            reveal: false,
        }
    }

    /// A copy.
    pub fn copy(&self) -> (r: Viewport)
        ensures
            r.same(*self),
    {
        Viewport {
            width: self.width,
            height: self.height,
            text_width: self.text_width,
            scroll_top: self.scroll_top,
            scroll_row: self.scroll_row,
            selections: self.selections.copy(),
            reveal: self.reveal,
        }
    }
}

/// How a search reads its query.
#[derive(Debug, Clone, Copy, PartialEq, Eq, Structural)]
pub struct SearchOptions {
    pub case_sensitive: bool,
    pub whole_word: bool,
    pub regex: bool,
}

/// Which field of the find bar is being typed into.
#[derive(Debug, Clone, Copy, PartialEq, Eq, Structural)]
pub enum Field {
    Query,
    Replace,
}

/// The find bar of one document.
#[derive(Debug)]
pub struct Find {
    pub query: String,
    pub replace: String,
    pub visible: bool,
    /// Whether the replacement is asked for too.
    pub replacing: bool,
    pub field: Field,
    pub options: SearchOptions,
    /// Where the search was begun.
    pub origin: Position,
    /// Where the query was found.
    pub matches: Vec<Range>,
    /// Why the query cannot be searched for.
    pub error: Option<String>,
}

impl Find {
    /// Whether the bar is as it is before it was ever opened, but for its query.
    pub open spec fn is_unused(&self) -> bool {
        &&& self.replace@.len() == 0
        &&& !self.visible
        &&& !self.replacing
        &&& self.field == Field::Query
        &&& self.options == (SearchOptions {
            case_sensitive: false,
            whole_word: false,
            regex: false,
        })
        &&& self.origin == (Position { line: 0, character: 0 })
        &&& self.matches@.len() == 0
        &&& self.error is None
    }

    /// Whether the bar is as it is before it was ever opened.
    pub open spec fn is_new(&self) -> bool {
        self.is_unused() && self.query@.len() == 0
    }

    /// Whether this is the bar `was`, closed: its query is kept, for the next search, and what was
    /// found is not, since nothing is marked any more.
    pub open spec fn is_closed(&self, was: Find) -> bool {
        &&& *self == (Find { visible: false, replacing: false, matches: self.matches, ..was })
        &&& self.matches@.len() == 0
    }

    /// Closes the bar.
    pub fn close(&mut self)
        ensures
            final(self).is_closed(*old(self)),
    {
        self.visible = false;
        self.replacing = false;
        self.matches = Vec::new();
    }

    /// A bar that was never opened.
    pub fn new() -> (r: Find)
        ensures
            r.is_new(),
    {
        Find {
            query: String::new(),
            replace: String::new(),
            visible: false,
            replacing: false,
            field: Field::Query,
            options: SearchOptions { case_sensitive: false, whole_word: false, regex: false },
            origin: Position::new(0, 0),
            matches: Vec::new(),
            error: None,
        }
    }
}

/// How bad a problem is, the worst first.
#[derive(Debug, Clone, Copy, PartialEq, Eq, Structural)]
pub enum Severity {
    Error,
    Warning,
    Information,
    Hint,
}

/// A problem that a server published for a document.
#[derive(Debug)]
pub struct Diagnostic {
    /// What it is about.
    pub range: Range,
    /// How bad it is.
    pub severity: Severity,
    /// The problem in words.
    pub label: String,
}

/// One open document with all that must be preserved while another is on screen.
///
/// `S` is a server's classification of one stretch of text.
#[derive(Debug)]
pub struct Tab<B, S> {
    pub document: Document<B>,
    pub view: Viewport,
    pub diagnostics: Vec<Diagnostic>,
    pub semantic: Vec<S>,
    /// The find bar as this tab left it.
    pub find: Find,
}

/// One side of a comparison.
#[derive(Debug)]
pub struct ComparisonSide<B> {
    pub document: Document<B>,
    pub view: Viewport,
    /// `HEAD`, `Index`, or `Working Tree`.
    pub label: &'static str,
    /// One entry per row.
    pub lines: Vec<ComparisonLine>,
}

/// A read-only comparison over the active tab.
#[derive(Debug)]
pub struct ComparisonView<B> {
    pub left: ComparisonSide<B>,
    pub right: ComparisonSide<B>,
    pub focused_right: bool,
}

/// The editor groups.
#[derive(Debug)]
pub struct Groups<B> {
    /// The other group's view, while the editor is split.
    pub split_view: Option<Viewport>,
    /// Whether the second group on screen has the keyboard.
    pub split_focused: bool,
    /// The comparison that is shown instead of the groups.
    pub comparison: Option<ComparisonView<B>>,
    /// The comparison one side of which is standing in for the active document.
    pub lent: Option<ComparisonView<B>>,
}

/// A stretch of the window.
#[derive(Debug, Clone, Copy, PartialEq, Eq, Structural)]
pub struct Rect {
    pub left: usize,
    pub top: usize,
    pub width: usize,
    pub height: usize,
}

/// How the window is divided.
#[derive(Debug, Clone, Copy, PartialEq, Eq)]
pub struct Regions {
    pub editor: Rect,
    pub side_bar: Option<Rect>,
    pub panel: Option<Rect>,
    /// The width of one group on its own.
    pub one_column: usize,
    /// The widths of two groups side by side.
    pub two_columns: (usize, usize),
}

/// How the window is divided, for each choice of what is shown besides the editor.
#[derive(Debug, Clone, Copy, PartialEq, Eq)]
pub struct Divisions {
    pub plain: Regions,
    pub with_side_bar: Regions,
    pub with_panel: Regions,
    pub with_both: Regions,
}

/// What surrounds the text.
#[derive(Debug, Clone, Copy, PartialEq, Eq)]
pub struct Chrome {
    pub side_bar: bool,
    pub panel: bool,
    pub focus: Focus,
    pub side_bar_view: SideBarView,
    /// The window's width and height.
    pub screen: (usize, usize),
    /// How a window of that size is divided.
    pub divisions: Divisions,
    /// Whether the frontend breaks lines.
    pub frontend_wraps: bool,
}

/// One row of the file tree.
#[derive(Debug)]
pub struct TreeRow {
    pub path: PathBuf,
    pub name: String,
    pub is_dir: bool,
}

/// Something the file tree has to do.
#[derive(Debug)]
pub enum TreeRequest {
    SelectNext,
    SelectPrevious,
    SelectFirst,
    SelectLast,
    Expand,
    Collapse,
    Toggle,
    ScrollIntoView(usize),
    Reveal(PathBuf),
    /// Read the directory again.
    Invalidate(PathBuf),
    /// Read every directory under this one again.
    InvalidateUnder(PathBuf),
    /// Forget everything remembered under this path.
    ForgetUnder(PathBuf),
    /// What was remembered under the first path is now under the second.
    RekeyUnder(PathBuf, PathBuf),
}

/// The file tree, as far as it is known here.
#[derive(Debug)]
pub struct Explorer {
    pub root: PathBuf,
    pub rows: Vec<TreeRow>,
    pub selection: Option<TreeRow>,
    /// The directory that is to be read next, if one is.
    pub wanted: Option<PathBuf>,
    /// Every path that was listed, shown or not.
    pub known: Vec<PathBuf>,
    /// What it has to do next, in order.
    pub requests: Vec<TreeRequest>,
}

/// The file tree and what was done in it.
#[derive(Debug)]
pub struct TreeState {
    pub explorer: Option<Explorer>,
    /// What undoes each operation, the latest last.
    pub undo: Vec<Operation>,
    /// The undoing that is under way.
    pub pending_undo: Option<Operation>,
    /// Documents that a server has to be told are closed.
    pub closed_documents: Vec<PathBuf>,
}

/// A group of rows of the source-control view.
#[derive(Debug, Clone, Copy, PartialEq, Eq, Structural)]
pub enum ScmGroup {
    Conflicts,
    Staged,
    Changes,
    Untracked,
}

/// One changed file.
#[derive(Debug)]
pub struct ScmRow {
    pub group: ScmGroup,
    pub path: PathBuf,
    /// Where it was, for a renamed one.
    pub original: Option<PathBuf>,
    pub renamed: bool,
    pub name: String,
}

/// Something the source-control view has to do.
#[derive(Debug, Clone, Copy, PartialEq, Eq, Structural)]
pub enum ScmRequest {
    SelectNext,
    SelectPrevious,
    SelectFirst,
    SelectLast,
    ScrollIntoView(usize),
}

/// The text of a file as it was committed, and how a version of its document differs from it.
#[derive(Debug)]
pub struct Committed<M> {
    /// `None` for a file that was never committed.
    pub text: Option<String>,
    pub marks: Option<(i32, M)>,
}

/// What is known of a file's committed text.
#[derive(Debug)]
pub struct CommittedEntry<M> {
    pub path: PathBuf,
    pub committed: Committed<M>,
}

/// Source control. `M` is a difference between two texts.
#[derive(Debug)]
pub struct Repository<M> {
    /// Whether the settings allow it.
    pub enabled: bool,
    /// Whether the settings allow marks in the gutter.
    pub decorations: bool,
    /// The commit that is checked out, in a repository that has been read.
    pub status: Option<Option<String>>,
    /// Whether the repository has to be read again.
    pub wanted: bool,
    pub root: Option<PathBuf>,
    pub rows: Vec<ScmRow>,
    /// Which row is selected.
    pub selected: Option<usize>,
    pub requests: Vec<ScmRequest>,
    /// No path stands here twice.
    pub committed: Vec<CommittedEntry<M>>,
    /// Whether a branch was switched and nobody was told yet.
    pub checkout_completed: bool,
}

/// The search across files.
#[derive(Debug)]
pub struct Search {
    pub options: SearchOptions,
    pub replacing_in_files: bool,
    pub replace_query: String,
}

/// One choice of a list.
#[derive(Debug)]
pub struct PaletteEntry {
    pub id: String,
    pub title: String,
    pub detail: Option<String>,
    /// Where in a file the choice leads.
    pub at: Option<Position>,
}

/// What a prompt asks for.
#[derive(Debug, Clone, Copy, PartialEq, Eq, Structural)]
pub enum PromptKind {
    Commands,
    Files,
    GoToLine,
    SearchQuery,
    ReplaceQuery,
    SearchResults,
    Symbols,
    Rename,
    SaveAs,
    OpenPath,
    CodeActions,
    ExtensionPermissions,
    ExtensionConsent,
    Themes,
    Languages,
    NewFile,
    NewFolder,
    RenameFile,
    ConfirmDelete,
    CommitMessage,
    Branches,
    ConfirmCheckout,
}

/// What a prompt starts with.
#[derive(Debug)]
pub enum PromptStart {
    /// Nothing.
    Plain,
    /// Choices.
    List(Vec<PaletteEntry>),
    /// Text that typing replaces.
    Seeded(String),
    /// Text that typing continues.
    Prefixed(String),
}

/// A question put to the user.
#[derive(Debug)]
pub struct Prompt {
    pub kind: PromptKind,
    pub start: PromptStart,
}

/// The words for what the file tree refuses.
#[derive(Debug)]
pub struct Wording {
    /// Nothing is selected.
    pub no_selection: String,
    /// What comes before and after a name that is taken.
    pub exists_before: String,
    pub exists_after: String,
}

/// What the `when` clauses of key bindings are decided by.
#[derive(Debug, PartialEq, Eq)]
pub struct ContextKeys {
    pub in_snippet_mode: bool,
    pub in_quick_open: bool,
    pub search_viewlet_visible: bool,
    pub side_bar_visible: bool,
    pub panel_visible: bool,
    pub side_bar_focus: bool,
    pub panel_focus: bool,
    pub files_explorer_focus: bool,
    pub list_focus: bool,
    pub source_control_focus: bool,
    /// Whether the provider is `git`; else there is none.
    pub scm_provider: bool,
    pub explorer_viewlet_visible: bool,
    pub editor_text_focus: bool,
    pub editor_focus: bool,
    pub text_input_focus: bool,
    pub find_widget_visible: bool,
    pub find_input_focussed: bool,
    pub replace_input_focussed: bool,
    pub editor_readonly: bool,
    pub editor_has_selection: bool,
    pub editor_has_multiple_selections: bool,
    pub dirty: bool,
    pub editor_has_diagnostics: bool,
    pub editor_lang_id: Option<String>,
}

/// One editor session.
///
/// `B` is a document's text with its history, `S` a server's classification of a stretch of text,
/// and `M` a difference between two texts: a session moves them about and does not look into
/// them.
#[derive(Debug)]
pub struct Session<B, S, M> {
    /// The tabs before the active one, in display order.
    pub left: Vec<Tab<B, S>>,
    /// The tab on screen.
    pub active: Tab<B, S>,
    /// The tabs behind the active one, in display order.
    pub right: Vec<Tab<B, S>>,
    pub groups: Groups<B>,
    pub chrome: Chrome,
    pub tree: TreeState,
    pub scm: Repository<M>,
    pub search: Search,
    pub prompt: Option<Prompt>,
    /// What the status bar says.
    pub status: Option<String>,
    /// What was found wrong with the settings and the key bindings.
    pub problems: Vec<String>,
    /// Paths that have been on screen, the latest first.
    pub recent: Vec<PathBuf>,
    pub context: ContextKeys,
    /// The name of the theme in use.
    pub theme: String,
    /// The commands that the frontend carries out.
    pub frontend_commands: Vec<PaletteEntry>,
    /// Whether the document is closed once it has been reverted.
    pub pending_close: bool,
    /// Whether the last key asked to quit and was refused for unsaved work. Any other key
    /// withdraws that, but for one that only begins a command.
    pub quit_refused: bool,
    /// The number the next multi-document edit will be tagged with.
    pub next_group: u64,
    pub wording: Wording,
}

impl<B, S, M> Session<B, S, M> {
    /// Every tab, in display order.
    pub open spec fn tabs(&self) -> Seq<Tab<B, S>> {
        self.left@.push(self.active) + self.right@
    }
}

} // verus!
