//! A session before anything was opened in it.

use vstd::prelude::*;
use crate::session::documents::{dirty_count, reported};
#[allow(unused_imports)]
use crate::session::layout::refreshed;
use crate::session::state::{
    Chrome, ContextKeys, Divisions, Document, Find, Focus, Groups, Repository, Search,
    SearchOptions, Session, SideBarView, Tab, TreeState, Viewport, Wording,
};
use crate::text::decimal;
#[allow(unused_imports)]
use crate::text::{decimal_of, view_of, views};

verus! {

/// The window's size before a frontend has said it.
pub const UNSIZED_WIDTH: usize = 80;

pub const UNSIZED_HEIGHT: usize = 24;

/// The theme of a session whose settings name none.
pub const DEFAULT_THEME: &'static str = "Default Dark Modern";

/// Something wrong with the user's key bindings.
#[derive(Debug)]
pub struct KeymapProblem {
    /// Which entry.
    pub index: usize,
    pub message: String,
}

/// What a session is started with.
#[derive(Debug)]
pub struct Setup<B> {
    /// The document that stands where nothing is open.
    pub blank: Document<B>,
    /// What is wrong with the key bindings.
    pub keymap_problems: Vec<KeymapProblem>,
    /// The theme that the settings name, if they name one.
    pub theme: Option<String>,
    /// Whether there is a theme of that name, or of the default one's where they name none.
    pub theme_known: bool,
    /// How a window of the size there is at first is divided.
    pub divisions: Divisions,
    /// Whether the settings allow source control, and marks in the gutter.
    pub git_enabled: bool,
    pub gutter_marks: bool,
    pub wording: Wording,
}

/// What is said of an entry of the key bindings.
pub open spec fn entry_text(problem: KeymapProblem) -> Seq<char> {
    "keybindings.json entry "@ + decimal_of(problem.index as nat) + ": "@ + problem.message@
}

/// What is said of a theme that is not known.
pub open spec fn theme_text(name: Seq<char>) -> Seq<char> {
    "unknown theme `"@ + name + "`; using the default"@
}

/// The theme that the settings name, and the default where they name none.
pub open spec fn theme_named(named: Option<Seq<char>>) -> Seq<char> {
    match named {
        Some(name) => name,
        None => DEFAULT_THEME@,
    }
}

/// What is wrong at the start, in order.
pub open spec fn start_problems<B>(setup: Setup<B>) -> Seq<Seq<char>> {
    let entries = Seq::new(
        setup.keymap_problems@.len(),
        |i: int| entry_text(setup.keymap_problems@[i]),
    );
    if setup.theme_known {
        entries
    } else {
        entries.push(theme_text(theme_named(view_of(setup.theme))))
    }
}

/// Whether a session has one blank document on screen, nothing around it, and nothing asked.
pub open spec fn is_empty_session<B, S, M>(s: Session<B, S, M>, setup: Setup<B>) -> bool {
    &&& s.left@.len() == 0
    &&& s.right@.len() == 0
    &&& s.active.document == setup.blank
    &&& s.active.view.is_fresh(UNSIZED_WIDTH, UNSIZED_HEIGHT)
    &&& s.active.diagnostics@.len() == 0
    &&& s.active.semantic@.len() == 0
    &&& s.active.find.is_new()
    &&& s.groups.split_view is None
    &&& !s.groups.split_focused
    &&& s.groups.comparison is None
    &&& s.groups.lent is None
    &&& s.chrome == (Chrome {
        side_bar: false,
        panel: false,
        focus: Focus::Editor,
        side_bar_view: SideBarView::Explorer,
        screen: (UNSIZED_WIDTH, UNSIZED_HEIGHT),
        divisions: setup.divisions,
        frontend_wraps: true,
    })
    &&& s.tree.explorer is None
    &&& s.tree.undo@.len() == 0
    &&& s.tree.pending_undo is None
    &&& s.tree.closed_documents@.len() == 0
    &&& s.search.options == (SearchOptions {
        case_sensitive: false,
        whole_word: false,
        regex: false,
    })
    &&& !s.search.replacing_in_files
    &&& s.search.replace_query@.len() == 0
    &&& s.prompt is None
    &&& s.status is None
    &&& s.recent@.len() == 0
    &&& s.frontend_commands@.len() == 0
    &&& !s.pending_close
    &&& !s.quit_refused
    &&& s.next_group == 0
    &&& s.wording == setup.wording
    &&& s.theme@ == if setup.theme_known {
        theme_named(view_of(setup.theme))
    } else {
        DEFAULT_THEME@
    }
}

/// Whether nothing is known of a repository yet, so that it is to be read.
pub open spec fn is_unread_repository<M>(
    scm: Repository<M>,
    enabled: bool,
    decorations: bool,
) -> bool {
    &&& scm.enabled == enabled
    &&& scm.decorations == decorations
    &&& scm.status is None
    &&& scm.wanted
    &&& scm.root is None
    &&& scm.rows@.len() == 0
    &&& scm.selected is None
    &&& scm.requests@.len() == 0
    &&& scm.committed@.len() == 0
    &&& !scm.checkout_completed
}

/// The theme that the settings name, and the default where they name none.
pub fn theme_name(named: Option<&str>) -> (r: String)
    ensures
        r@ == theme_named(crate::session::prompts::option_view(named)),
{
    match named {
        Some(name) => name.to_owned(),
        None => DEFAULT_THEME.to_owned(),
    }
}

/// The theme that a setup names, and the default where it names none.
fn setup_theme<B>(setup: &Setup<B>) -> (r: String)
    ensures
        r@ == theme_named(view_of(setup.theme)),
{
    match &setup.theme {
        Some(name) => theme_name(Some(name.as_str())),
        None => theme_name(None),
    }
}

/// What is wrong at the start, in order.
fn problems_at_start<B>(setup: &Setup<B>) -> (r: Vec<String>)
    ensures
        views(r@) == start_problems(*setup),
{
    let mut r: Vec<String> = Vec::new();
    let mut i: usize = 0;
    while i < setup.keymap_problems.len()
        invariant
            i <= setup.keymap_problems@.len(),
            r@.len() == i,
            forall|j: int|
                0 <= j < i ==> (#[trigger] r@[j])@ == entry_text(setup.keymap_problems@[j]),
        decreases setup.keymap_problems@.len() - i,
    {
        let mut problem: String = "keybindings.json entry ".to_owned();
        let number: String = decimal(setup.keymap_problems[i].index as u64);
        problem.append(number.as_str());
        problem.append(": ");
        problem.append(setup.keymap_problems[i].message.as_str());
        r.push(problem);
        i = i + 1;
    }
    let ghost entries = views(r@);
    assert(entries =~= Seq::new(
        setup.keymap_problems@.len(),
        |k: int| entry_text(setup.keymap_problems@[k]),
    ));
    if !setup.theme_known {
        let name: String = setup_theme(setup);
        let mut problem: String = "unknown theme `".to_owned();
        problem.append(name.as_str());
        problem.append("`; using the default");
        let ghost said = problem@;
        r.push(problem);
        assert(views(r@) =~= entries.push(said));
    }
    r
}

/// The context before anything was looked at: every key is off, and there is no language.
pub open spec fn blank_context() -> ContextKeys {
    ContextKeys {
        in_snippet_mode: false,
        in_quick_open: false,
        search_viewlet_visible: false,
        side_bar_visible: false,
        panel_visible: false,
        side_bar_focus: false,
        panel_focus: false,
        files_explorer_focus: false,
        list_focus: false,
        source_control_focus: false,
        scm_provider: false,
        explorer_viewlet_visible: false,
        editor_text_focus: false,
        editor_focus: false,
        text_input_focus: false,
        find_widget_visible: false,
        find_input_focussed: false,
        replace_input_focussed: false,
        editor_readonly: false,
        editor_has_selection: false,
        editor_has_multiple_selections: false,
        dirty: false,
        editor_has_diagnostics: false,
        editor_lang_id: None,
    }
}

/// Context keys of nothing.
fn no_keys() -> (r: ContextKeys)
    ensures
        r == blank_context(),
{
    ContextKeys {
        in_snippet_mode: false,
        in_quick_open: false,
        search_viewlet_visible: false,
        side_bar_visible: false,
        panel_visible: false,
        side_bar_focus: false,
        panel_focus: false,
        files_explorer_focus: false,
        list_focus: false,
        source_control_focus: false,
        scm_provider: false,
        explorer_viewlet_visible: false,
        editor_text_focus: false,
        editor_focus: false,
        text_input_focus: false,
        find_widget_visible: false,
        find_input_focussed: false,
        replace_input_focussed: false,
        editor_readonly: false,
        editor_has_selection: false,
        editor_has_multiple_selections: false,
        dirty: false,
        editor_has_diagnostics: false,
        editor_lang_id: None,
    }
}

impl<M> Repository<M> {
    /// A repository of which nothing is known yet.
    fn unread(enabled: bool, decorations: bool) -> (r: Repository<M>)
        ensures
            is_unread_repository(r, enabled, decorations),
    {
        Repository {
            enabled,
            decorations,
            status: None,
            wanted: true,
            root: None,
            rows: Vec::new(),
            selected: None,
            requests: Vec::new(),
            committed: Vec::new(),
            checkout_completed: false,
        }
    }
}

impl<B, S, M> Session<B, S, M> {
    /// A session with a blank document. What is wrong with the user's configuration does not stop
    /// it: it is reported.
    pub fn new(setup: Setup<B>) -> (r: Session<B, S, M>)
        ensures
            exists|s: Session<B, S, M>|
                {
                    &&& is_empty_session(s, setup)
                    &&& is_unread_repository(s.scm, setup.git_enabled, setup.gutter_marks)
                    &&& views(s.problems@) == reported(
                        start_problems(setup),
                        view_of(setup.blank.settings.unsupported),
                    )
                    &&& #[trigger] refreshed(s, r)
                },
    {
        let problems: Vec<String> = problems_at_start(&setup);
        let theme: String = if setup.theme_known {
            setup_theme(&setup)
        } else {
            DEFAULT_THEME.to_owned()
        };
        let mut session: Session<B, S, M> = Session {
            left: Vec::new(),
            active: Tab {
                document: setup.blank,
                view: Viewport::fresh(UNSIZED_WIDTH, UNSIZED_HEIGHT),
                diagnostics: Vec::new(),
                semantic: Vec::new(),
                find: Find::new(),
            },
            right: Vec::new(),
            groups: Groups {
                split_view: None,
                split_focused: false,
                comparison: None,
                lent: None,
            },
            chrome: Chrome {
                side_bar: false,
                panel: false,
                focus: Focus::Editor,
                side_bar_view: SideBarView::Explorer,
                screen: (UNSIZED_WIDTH, UNSIZED_HEIGHT),
                divisions: setup.divisions,
                frontend_wraps: true,
            },
            tree: TreeState {
                explorer: None,
                undo: Vec::new(),
                pending_undo: None,
                closed_documents: Vec::new(),
            },
            scm: Repository::unread(setup.git_enabled, setup.gutter_marks),
            search: Search {
                options: SearchOptions { case_sensitive: false, whole_word: false, regex: false },
                replacing_in_files: false,
                replace_query: String::new(),
            },
            prompt: None,
            status: None,
            problems,
            recent: Vec::new(),
            context: no_keys(),
            theme,
            frontend_commands: Vec::new(),
            pending_close: false,
            quit_refused: false,
            next_group: 0,
            wording: setup.wording,
        };
        session.report_unsupported();
        let ghost s = session;
        assert(is_empty_session(s, setup));
        session.refresh_context();
        assert(refreshed(s, session));
        session
    }
}

/// A session that was just started holds nothing unsaved, so that it can be left at once, unless
/// its blank document is not clean.
pub proof fn law_a_new_session_has_nothing_unsaved<B, S, M>(s: Session<B, S, M>, setup: Setup<B>)
    requires
        is_empty_session(s, setup),
        !setup.blank.dirty,
    ensures
        s.tabs().len() == 1,
        dirty_count(s.tabs()) == 0,
{
    reveal_with_fuel(dirty_count, 2);
    assert(s.tabs() =~= seq![s.active]);
    assert(s.tabs().drop_last() =~= Seq::<Tab<B, S>>::empty());
}

} // verus!
