//! Source control: staging, committing, switching branches, comparing, and what was committed.

use vstd::prelude::*;
use crate::comparison::{comparison_rows, ComparisonLine, Hunk, Side};
#[allow(unused_imports)]
use crate::comparison::{aligned, hunks_within, source_lines};
use crate::path::PathBuf;
#[allow(unused_imports)]
use crate::path::Part;
#[allow(unused_imports)]
use crate::session::chrome::side_bar_shown;
#[allow(unused_imports)]
use crate::session::documents::{dirty_count, paths_open};
#[allow(unused_imports)]
use crate::session::layout::{laid_out, list_rows, refreshed};
use crate::session::outcome::{ComparisonKind, ComparisonRequest, Outcome, ScmOperation};
#[allow(unused_imports)]
use crate::session::prompts::{asks, choices, prompted, Choice, Opening};
use crate::session::prompts::CHECKOUT_CANCEL;
use crate::session::state::{
    clone_path, clone_text, Committed, CommittedEntry, ComparisonSide, ComparisonView, Document,
    Focus, PaletteEntry, Prompt, PromptKind, Repository, ScmGroup, ScmRequest, ScmRow, Session,
    SideBarView, TreeRequest, Viewport, WordWrap,
};
#[allow(unused_imports)]
use crate::session::state::{Chrome, EditorSettings, Explorer, Groups, Tab, TreeRow};
#[allow(unused_imports)]
use crate::session::tree::asked;
use crate::text::{decimal, same, same_option};
#[allow(unused_imports)]
use crate::text::{decimal_of, view_of};

verus! {

/// A local branch.
#[derive(Debug)]
pub struct Branch {
    pub name: String,
    /// Whether it is the one checked out.
    pub current: bool,
}

/// What switching to a branch would do.
#[derive(Debug)]
pub struct CheckoutPlan {
    pub current: String,
    pub target: String,
    /// What would change, in words.
    pub summary: String,
}

/// The two texts of a file that are compared: none where the file is not there.
#[derive(Debug)]
pub struct Comparison {
    pub original: Option<String>,
    pub modified: Option<String>,
}

/// A repository as it was found.
#[derive(Debug)]
pub struct Found {
    /// The commit that is checked out, if there is one.
    pub commit: Option<String>,
    pub rows: Vec<ScmRow>,
    pub selected: Option<usize>,
}

/// The row that is selected.
pub open spec fn selected_row<M>(scm: Repository<M>) -> Option<ScmRow> {
    match scm.selected {
        Some(i) => if i < scm.rows@.len() {
            Some(scm.rows@[i as int])
        } else {
            None
        },
        None => None,
    }
}

/// Whether a row is in a group.
pub open spec fn any_in(rows: Seq<ScmRow>, group: ScmGroup) -> bool {
    exists|i: int| 0 <= i < rows.len() && (#[trigger] rows[i]).group == group
}

/// Whether a row is outside a group.
pub open spec fn any_beside(rows: Seq<ScmRow>, group: ScmGroup) -> bool {
    exists|i: int| 0 <= i < rows.len() && (#[trigger] rows[i]).group != group
}

/// Whether staging the selected file comes to `outcome`.
pub open spec fn stages(row: Option<ScmRow>, outcome: Outcome) -> bool {
    match row {
        None => outcome.says("nothing is selected in source control"@),
        Some(row) => if row.group == ScmGroup::Staged {
            outcome.says(row.name@ + " is already staged"@)
        } else {
            outcome == Outcome::GitOperation(ScmOperation::Stage(row.path))
        },
    }
}

/// Whether staging everything comes to `outcome`.
pub open spec fn stages_all(rows: Seq<ScmRow>, outcome: Outcome) -> bool {
    if any_beside(rows, ScmGroup::Staged) {
        outcome == Outcome::GitOperation(ScmOperation::StageAll)
    } else {
        outcome.says("there is nothing left to stage"@)
    }
}

/// Whether unstaging the selected file comes to `outcome`. A renamed file leaves the index under
/// both names; a copied one only under its own.
pub open spec fn unstages(row: Option<ScmRow>, outcome: Outcome) -> bool {
    match row {
        None => outcome.says("nothing is selected in source control"@),
        Some(row) => if row.group != ScmGroup::Staged {
            outcome.says(row.name@ + " is not staged"@)
        } else {
            outcome == Outcome::GitOperation(
                ScmOperation::Unstage {
                    path: row.path,
                    original: if row.renamed {
                        row.original
                    } else {
                        None
                    },
                },
            )
        },
    }
}

/// Whether asking for a commit message comes to `outcome`: nothing is asked where there is
/// nothing to commit.
pub open spec fn asks_commit<B, S, M>(
    before: Session<B, S, M>,
    after: Session<B, S, M>,
    outcome: Outcome,
) -> bool {
    if before.scm.status is None {
        after == before && outcome.says("this is not a git repository"@)
    } else if !any_in(before.scm.rows@, ScmGroup::Staged) {
        after == before && outcome.says("nothing is staged to commit"@)
    } else {
        prompted(before, after, PromptKind::CommitMessage, Opening::Plain) && outcome is Handled
    }
}

/// Whether committing under a message comes to `outcome`.
pub open spec fn commits(message: Seq<char>, outcome: Outcome) -> bool {
    if message.len() == 0 {
        outcome.says("a commit needs a message"@)
    } else {
        outcome matches Outcome::GitOperation(ScmOperation::Commit(text)) && text@ == message
    }
}

/// The words for documents that are unsaved, and what they stand before.
pub open spec fn save_first_text(unsaved: nat, ending: Seq<char>) -> Seq<char> {
    "save or close "@ + decimal_of(unsaved) + " unsaved document"@ + (if unsaved == 1 {
        ""@
    } else {
        "s"@
    }) + ending
}

/// Whether asking to switch branches comes to `outcome`: not with unsaved work.
pub open spec fn asks_checkout<B, S, M>(s: Session<B, S, M>, outcome: Outcome) -> bool {
    let unsaved = dirty_count(s.tabs());
    if s.scm.status is None {
        outcome.says("this is not a git repository"@)
    } else if unsaved > 0 {
        outcome.says(save_first_text(unsaved, " before switching branches"@))
    } else {
        outcome is GitBranches
    }
}

/// The choices of branches: every one but that checked out.
pub open spec fn branch_choices(branches: Seq<Branch>) -> Seq<Choice>
    decreases branches.len(),
{
    if branches.len() == 0 {
        Seq::empty()
    } else if branches.last().current {
        branch_choices(branches.drop_last())
    } else {
        branch_choices(branches.drop_last()).push(
            Choice {
                id: branches.last().name@,
                title: branches.last().name@,
                detail: Some("local branch"@),
                at: None,
            },
        )
    }
}

/// The first branch that is checked out, and the number of branches where none is.
pub open spec fn current_branch(branches: Seq<Branch>) -> int
    decreases branches.len(),
{
    if branches.len() == 0 {
        0
    } else if branches[0].current {
        0
    } else {
        1 + current_branch(branches.skip(1))
    }
}

/// What is said while branches are chosen from.
pub open spec fn branch_status(branches: Seq<Branch>) -> Option<Seq<char>> {
    let i = current_branch(branches);
    if i < branches.len() {
        Some("currently on "@ + branches[i].name@)
    } else {
        None
    }
}

/// Whether branches were offered, all that is derived not yet brought up to date.
pub open spec fn branches_offered<B, S, M>(
    before: Session<B, S, M>,
    after: Session<B, S, M>,
    branches: Seq<Branch>,
) -> bool {
    let list = branch_choices(branches);
    if list.len() == 0 {
        &&& after == (Session { status: after.status, ..before })
        &&& view_of(after.status) == Some("there is no other local branch to switch to"@)
    } else {
        &&& after == (Session { status: after.status, prompt: after.prompt, ..before })
        &&& asks(after.prompt, PromptKind::Branches, Opening::List(list))
        &&& view_of(after.status) == branch_status(branches)
    }
}

/// The choices with which a switch is confirmed.
pub open spec fn checkout_choices(plan: CheckoutPlan) -> Seq<Choice> {
    seq![
        Choice {
            id: CHECKOUT_CANCEL@,
            title: "Cancel"@,
            detail: Some("keep the current branch"@),
            at: None,
        },
        Choice {
            id: plan.target@,
            title: "Switch to "@ + plan.target@,
            detail: Some(plan.summary@),
            at: None,
        },
    ]
}

/// What is said of a switch that is to be confirmed.
pub open spec fn checkout_text(plan: CheckoutPlan) -> Seq<char> {
    plan.current@ + " → "@ + plan.target@
        + " — no local work will be discarded; Git will refuse an overwrite"@
}

/// Whether `after` is `before` with the status bar saying `text`.
pub open spec fn said<B, S, M>(
    before: Session<B, S, M>,
    after: Session<B, S, M>,
    text: Seq<char>,
) -> bool {
    &&& after == (Session { status: after.status, ..before })
    &&& view_of(after.status) == Some(text)
}

/// Whether a switch is being confirmed, or was refused for unsaved work.
pub open spec fn checkout_confirmed<B, S, M>(
    before: Session<B, S, M>,
    after: Session<B, S, M>,
    plan: CheckoutPlan,
) -> bool {
    let unsaved = dirty_count(before.tabs());
    if unsaved > 0 {
        said(
            before,
            after,
            "could not switch branches: "@ + save_first_text(unsaved, " first"@),
        )
    } else {
        &&& after == (Session { status: after.status, prompt: after.prompt, ..before })
        &&& asks(after.prompt, PromptKind::ConfirmCheckout, Opening::List(checkout_choices(plan)))
        &&& view_of(after.status) == Some(checkout_text(plan))
    }
}

/// Whether a change to the repository was taken note of: it is read again, and a switched branch
/// closes the comparison and has the open files read again.
pub open spec fn operation_noted<B, S, M>(
    before: Session<B, S, M>,
    after: Session<B, S, M>,
    operation: ScmOperation,
    described: Seq<char>,
) -> bool {
    &&& view_of(after.status) == Some(described)
    &&& after == (Session {
        status: after.status,
        groups: if operation is Checkout {
            Groups { comparison: None, ..before.groups }
        } else {
            before.groups
        },
        scm: Repository {
            wanted: true,
            checkout_completed: before.scm.checkout_completed || operation is Checkout,
            ..before.scm
        },
        ..before
    })
}

/// What the two sides of a comparison are called.
pub open spec fn side_labels(kind: ComparisonKind) -> (Seq<char>, Seq<char>) {
    match kind {
        ComparisonKind::Staged => ("HEAD"@, "Index"@),
        ComparisonKind::WorkingTree => ("Index"@, "Working Tree"@),
    }
}

/// A document whose lines are not broken.
pub open spec fn unwrapped<B>(document: Document<B>) -> Document<B> {
    Document {
        settings: EditorSettings { word_wrap: WordWrap::Off, ..document.settings },
        ..document
    }
}

/// Whether a side of a comparison shows the document from its start.
pub open spec fn side_of<B>(
    side: ComparisonSide<B>,
    document: Document<B>,
    lines: Vec<ComparisonLine>,
    label: Seq<char>,
    view: Viewport,
) -> bool {
    &&& side.document == unwrapped(document)
    &&& side.lines == lines
    &&& side.label@ == label
    &&& side.view.is_fresh(view.width, view.height)
}

/// Whether a comparison was opened over the active tab, the window not yet divided for it.
pub open spec fn comparison_opened<B, S, M>(
    before: Session<B, S, M>,
    after: Session<B, S, M>,
    kind: ComparisonKind,
    left: (Document<B>, Vec<ComparisonLine>),
    right: (Document<B>, Vec<ComparisonLine>),
) -> bool {
    let labels = side_labels(kind);
    let view = before.active.view;
    &&& after == (Session {
        groups: Groups { comparison: after.groups.comparison, ..before.groups },
        chrome: Chrome { focus: Focus::Editor, ..before.chrome },
        status: after.status,
        ..before
    })
    &&& after.groups.comparison matches Some(comparison) && comparison.focused_right && side_of(
        comparison.left,
        left.0,
        left.1,
        labels.0,
        view,
    ) && side_of(comparison.right, right.0, right.1, labels.1, view)
    &&& view_of(after.status) == Some(labels.0 + " ↔ "@ + labels.1 + " — read only"@)
}

/// What a text holds, where a missing one holds nothing.
pub open spec fn text_or_nothing(text: Option<String>) -> Seq<char> {
    match text {
        Some(text) => text@,
        None => Seq::empty(),
    }
}

/// Whether the file's two texts were opened side by side, each side a document of its own rows.
pub open spec fn compares<B, S, M, D: Fn(&PathBuf, &String) -> Document<B>>(
    from_file: D,
    before: Session<B, S, M>,
    after: Session<B, S, M>,
    request: ComparisonRequest,
    comparison: Comparison,
    hunks: Seq<Hunk>,
) -> bool {
    let original = text_or_nothing(comparison.original);
    let modified = text_or_nothing(comparison.modified);
    exists|left: Side, right: Side, shown_left: Document<B>, shown_right: Document<B>|
        {
            &&& #[trigger] aligned(original, modified, hunks, left, right)
            &&& from_file.ensures((&request.path, &left.text), shown_left)
            &&& from_file.ensures((&request.path, &right.text), shown_right)
            &&& #[trigger] comparison_opened(
                before,
                after,
                request.kind,
                (shown_left, left.lines),
                (shown_right, right.lines),
            )
        }
}

/// The commit that a repository is at, if it is known.
pub open spec fn commit_of(status: Option<Option<String>>) -> Option<Seq<char>> {
    match status {
        Some(commit) => view_of(commit),
        None => None,
    }
}

/// The commit that was found, if one was.
pub open spec fn commit_found(found: Option<Found>) -> Option<Seq<char>> {
    match found {
        Some(found) => view_of(found.commit),
        None => None,
    }
}

/// Whether the repository was replaced by what was found. What was committed is kept only while
/// the commit stays.
pub open spec fn scm_filled<M>(
    before: Repository<M>,
    after: Repository<M>,
    found: Option<Found>,
) -> bool {
    &&& after == (Repository {
        status: after.status,
        rows: after.rows,
        selected: after.selected,
        requests: after.requests,
        committed: after.committed,
        ..before
    })
    &&& after.committed@ == if commit_of(before.status) == commit_found(found) {
        before.committed@
    } else {
        Seq::empty()
    }
    &&& match found {
        Some(found) => after.status == Some(found.commit) && after.rows == found.rows
            && after.selected == found.selected && after.requests == before.requests,
        None => after.status is None && after.rows@.len() == 0 && after.selected is None
            && after.requests@.len() == 0,
    }
}

/// Where the committed text of a path is kept; past the end where it is not.
pub open spec fn committed_at<M>(list: Seq<CommittedEntry<M>>, path: Seq<Part>) -> int
    decreases list.len(),
{
    if list.len() == 0 {
        0
    } else if list[0].path@ == path {
        0
    } else {
        1 + committed_at(list.skip(1), path)
    }
}

/// Whether no path stands in the list twice.
pub open spec fn committed_apart<M>(list: Seq<CommittedEntry<M>>) -> bool {
    forall|i: int, j: int|
        0 <= i < j < list.len() ==> #[trigger] list[i].path@ != #[trigger] list[j].path@
}

/// The list with a file's committed text in it.
pub open spec fn committed_filled<M>(
    list: Seq<CommittedEntry<M>>,
    path: PathBuf,
    text: Option<String>,
) -> Seq<CommittedEntry<M>> {
    let i = committed_at(list, path@);
    let entry = CommittedEntry { path, committed: Committed { text, marks: None } };
    if i < list.len() {
        list.update(i, CommittedEntry { path: list[i].path, ..entry })
    } else {
        list.push(entry)
    }
}

/// The first of the paths of which it is not known what was committed.
pub open spec fn first_unread<M>(paths: Seq<PathBuf>, list: Seq<CommittedEntry<M>>) -> Option<
    PathBuf,
>
    decreases paths.len(),
{
    if paths.len() == 0 {
        None
    } else if committed_at(list, paths[0]@) >= list.len() {
        Some(paths[0])
    } else {
        first_unread(paths.skip(1), list)
    }
}

/// Whether the marks are those of a version of the text.
pub open spec fn marked_at<M>(committed: Committed<M>, version: i32) -> bool {
    committed.marks matches Some(marks) && marks.0 == version
}

/// Whether `after` is `before` with the tab's marks brought up to date with its text. A file that
/// was never committed differs from an empty text.
pub open spec fn diff_step<B, S, M, D: Fn(&String, &B) -> M>(
    before: Seq<CommittedEntry<M>>,
    after: Seq<CommittedEntry<M>>,
    tab: Tab<B, S>,
    diff: D,
) -> bool {
    match tab.document.path {
        None => after == before,
        Some(path) => {
            let k = committed_at(before, path@);
            if k >= before.len() || marked_at(before[k].committed, tab.document.version) {
                after == before
            } else {
                exists|head: String, m: M|
                    {
                        &&& #[trigger] diff.ensures((&head, &tab.document.body), m)
                        &&& head@ == match before[k].committed.text {
                            Some(text) => text@,
                            None => Seq::empty(),
                        }
                        &&& after == before.update(
                            k,
                            CommittedEntry {
                                committed: Committed {
                                    marks: Some((tab.document.version, m)),
                                    ..before[k].committed
                                },
                                ..before[k]
                            },
                        )
                    }
            }
        },
    }
}

/// Whether `after` is `before` with the marks of every tab brought up to date, in tab order.
pub open spec fn diffs_refreshed<B, S, M, D: Fn(&String, &B) -> M>(
    tabs: Seq<Tab<B, S>>,
    before: Seq<CommittedEntry<M>>,
    after: Seq<CommittedEntry<M>>,
    diff: D,
) -> bool
    decreases tabs.len(),
{
    if tabs.len() == 0 {
        after == before
    } else {
        exists|mid: Seq<CommittedEntry<M>>|
            diffs_refreshed(tabs.drop_last(), before, mid, diff) && #[trigger] diff_step(
                mid,
                after,
                tabs.last(),
                diff,
            )
    }
}

/// What a key asks of a list.
pub open spec fn scm_keyed(command: Seq<char>) -> Seq<ScmRequest> {
    if command == "list.focusDown"@ {
        seq![ScmRequest::SelectNext]
    } else if command == "list.focusUp"@ {
        seq![ScmRequest::SelectPrevious]
    } else if command == "list.focusFirst"@ {
        seq![ScmRequest::SelectFirst]
    } else if command == "list.focusLast"@ {
        seq![ScmRequest::SelectLast]
    } else {
        Seq::empty()
    }
}

/// What a key asks of the file tree.
pub open spec fn tree_keyed(command: Seq<char>) -> Seq<TreeRequest> {
    if command == "list.focusDown"@ {
        seq![TreeRequest::SelectNext]
    } else if command == "list.focusUp"@ {
        seq![TreeRequest::SelectPrevious]
    } else if command == "list.focusFirst"@ {
        seq![TreeRequest::SelectFirst]
    } else if command == "list.focusLast"@ {
        seq![TreeRequest::SelectLast]
    } else if command == "list.expand"@ {
        seq![TreeRequest::Expand]
    } else if command == "list.collapse"@ {
        seq![TreeRequest::Collapse]
    } else {
        Seq::empty()
    }
}

/// The session with the keyboard in the text.
pub open spec fn text_focused<B, S, M>(s: Session<B, S, M>) -> Session<B, S, M> {
    Session { chrome: Chrome { focus: Focus::Editor, ..s.chrome }, ..s }
}

/// Which two states a row's comparison is of.
pub open spec fn comparison_of(row: ScmRow) -> ComparisonRequest {
    ComparisonRequest {
        path: row.path,
        original: if row.group == ScmGroup::Staged {
            row.original
        } else {
            None
        },
        kind: if row.group == ScmGroup::Staged {
            ComparisonKind::Staged
        } else {
            ComparisonKind::WorkingTree
        },
    }
}

/// Whether `after` is `before` with the source-control view asked for `more`.
pub open spec fn scm_asked<B, S, M>(
    before: Session<B, S, M>,
    after: Session<B, S, M>,
    more: Seq<ScmRequest>,
) -> bool {
    &&& after == (Session {
        scm: Repository { requests: after.scm.requests, ..before.scm },
        ..before
    })
    &&& after.scm.requests@ == before.scm.requests@ + more
}

/// Whether a list key in the source-control view comes to `outcome`.
pub open spec fn keys_scm<B, S, M>(
    before: Session<B, S, M>,
    after: Session<B, S, M>,
    command: Seq<char>,
    outcome: Outcome,
) -> bool {
    if command == "list.select"@ {
        match selected_row(before.scm) {
            None => after == before && outcome is Handled,
            Some(row) => if row.group == ScmGroup::Conflicts {
                after == before && outcome.says(
                    "resolve the merge conflict before opening its diff"@,
                )
            } else {
                after == text_focused(before) && outcome == Outcome::GitComparison(
                    comparison_of(row),
                )
            },
        }
    } else {
        scm_asked(
            before,
            after,
            scm_keyed(command).push(ScmRequest::ScrollIntoView(list_rows(before.chrome))),
        ) && outcome is Handled
    }
}

/// Whether a list key comes to `outcome`: it goes to the view that is showing in the side bar,
/// and nowhere while the keyboard is elsewhere.
pub open spec fn keys_list<B, S, M>(
    before: Session<B, S, M>,
    after: Session<B, S, M>,
    command: Seq<char>,
    outcome: Outcome,
) -> bool {
    if before.chrome.focus != Focus::SideBar {
        after == before && outcome is Handled
    } else if before.chrome.side_bar_view == SideBarView::SourceControl {
        keys_scm(before, after, command, outcome)
    } else {
        match before.tree.explorer {
            None => after == before && outcome is Handled,
            Some(explorer) => keys_tree(before, after, explorer, command, outcome),
        }
    }
}

/// Whether a list key in the file tree comes to `outcome`.
pub open spec fn keys_tree<B, S, M>(
    before: Session<B, S, M>,
    after: Session<B, S, M>,
    explorer: Explorer,
    command: Seq<char>,
    outcome: Outcome,
) -> bool {
    let scroll = TreeRequest::ScrollIntoView(list_rows(before.chrome));
    if command == "list.select"@ {
        match explorer.selection {
            None => after == before && outcome is Handled,
            Some(row) => if row.is_dir {
                tree_asked(before, after, seq![TreeRequest::Toggle, scroll]) && outcome is Handled
            } else {
                after == text_focused(before) && outcome == (Outcome::OpenFile {
                    path: row.path,
                    at: None,
                })
            },
        }
    } else {
        tree_asked(before, after, tree_keyed(command).push(scroll)) && outcome is Handled
    }
}

/// Whether `after` is `before` with the file tree asked for `more`.
pub open spec fn tree_asked<B, S, M>(
    before: Session<B, S, M>,
    after: Session<B, S, M>,
    more: Seq<TreeRequest>,
) -> bool {
    &&& after == (Session { tree: after.tree, ..before })
    &&& asked(before.tree, after.tree, more)
}

/// Whether showing the active file in the tree comes to `outcome`.
pub open spec fn reveals_file<B, S, M>(
    before: Session<B, S, M>,
    after: Session<B, S, M>,
    outcome: Outcome,
) -> bool {
    match before.active.document.path {
        None => after == before && outcome.says("this document has not been saved anywhere yet"@),
        Some(path) => if before.tree.explorer is None {
            after == before && outcome.says("no workspace to reveal it in"@)
        } else {
            let shown = if before.chrome.side_bar {
                before
            } else {
                side_bar_shown(before, true)
            };
            tree_asked(shown, after, seq![TreeRequest::Reveal(path)]) && outcome is Handled
        },
    }
}

/// Where the committed text of a path is kept.
fn find_committed<M>(list: &Vec<CommittedEntry<M>>, path: &PathBuf) -> (r: usize)
    ensures
        r == committed_at(list@, path@),
        r <= list@.len(),
{
    let mut i: usize = 0;
    assert(list@.skip(0) =~= list@);
    while i < list.len()
        invariant
            i <= list@.len(),
            committed_at(list@, path@) == i + committed_at(list@.skip(i as int), path@),
        decreases list@.len() - i,
    {
        assert(list@.skip(i as int)[0] == list@[i as int]);
        if list[i].path.same_as(path) {
            return i;
        }
        assert(list@.skip(i as int).skip(1) =~= list@.skip(i + 1));
        i = i + 1;
    }
    i
}

/// The words for documents that are unsaved.
fn save_first_message(unsaved: usize, ending: &str) -> (r: String)
    ensures
        r@ == save_first_text(unsaved as nat, ending@),
{
    let mut r: String = "save or close ".to_owned();
    let number: String = decimal(unsaved as u64);
    r.append(number.as_str());
    r.append(" unsaved document");
    if unsaved == 1 {
        r.append("");
    } else {
        r.append("s");
    }
    r.append(ending);
    r
}

/// A list key as what it asks of the source-control view.
fn scm_key(command: &str) -> (r: Option<ScmRequest>)
    ensures
        match r {
            Some(request) => scm_keyed(command@) == seq![request],
            None => scm_keyed(command@).len() == 0,
        },
{
    if same(command, "list.focusDown") {
        Some(ScmRequest::SelectNext)
    } else if same(command, "list.focusUp") {
        Some(ScmRequest::SelectPrevious)
    } else if same(command, "list.focusFirst") {
        Some(ScmRequest::SelectFirst)
    } else if same(command, "list.focusLast") {
        Some(ScmRequest::SelectLast)
    } else {
        None
    }
}

/// A list key as what it asks of the file tree.
fn tree_key(command: &str) -> (r: Option<TreeRequest>)
    ensures
        match r {
            Some(request) => tree_keyed(command@) == seq![request],
            None => tree_keyed(command@).len() == 0,
        },
{
    if same(command, "list.focusDown") {
        Some(TreeRequest::SelectNext)
    } else if same(command, "list.focusUp") {
        Some(TreeRequest::SelectPrevious)
    } else if same(command, "list.focusFirst") {
        Some(TreeRequest::SelectFirst)
    } else if same(command, "list.focusLast") {
        Some(TreeRequest::SelectLast)
    } else if same(command, "list.expand") {
        Some(TreeRequest::Expand)
    } else if same(command, "list.collapse") {
        Some(TreeRequest::Collapse)
    } else {
        None
    }
}

impl<M> Repository<M> {
    /// The row that is selected.
    pub fn selection(&self) -> (r: Option<&ScmRow>)
        ensures
            match r {
                Some(row) => selected_row(*self) == Some(*row),
                None => selected_row(*self) is None,
            },
    {
        match self.selected {
            Some(i) => if i < self.rows.len() {
                Some(&self.rows[i])
            } else {
                None
            },
            None => None,
        }
    }

    /// Whether anything is staged, and whether anything is not.
    fn staged_and_not(&self) -> (r: (bool, bool))
        ensures
            r.0 == any_in(self.rows@, ScmGroup::Staged),
            r.1 == any_beside(self.rows@, ScmGroup::Staged),
    {
        let mut staged: bool = false;
        let mut beside: bool = false;
        let mut i: usize = 0;
        while i < self.rows.len()
            invariant
                i <= self.rows@.len(),
                staged == any_in(self.rows@.take(i as int), ScmGroup::Staged),
                beside == any_beside(self.rows@.take(i as int), ScmGroup::Staged),
            decreases self.rows@.len() - i,
        {
            let ghost now = self.rows@.take(i as int);
            let ghost next = self.rows@.take(i + 1);
            assert(next[i as int] == self.rows@[i as int]);
            assert forall|j: int| 0 <= j < i implies next[j] == #[trigger] now[j] by {}
            assert forall|j: int| 0 <= j < i implies #[trigger] next[j] == now[j] by {}
            if self.rows[i].group == ScmGroup::Staged {
                staged = true;
            } else {
                beside = true;
            }
            i = i + 1;
        }
        assert(self.rows@.take(i as int) =~= self.rows@);
        (staged, beside)
    }
}

impl<B, S, M> Session<B, S, M> {
    /// Asks the source-control view for something.
    fn ask_scm(&mut self, request: ScmRequest)
        ensures
            scm_asked(*old(self), *final(self), seq![request]),
    {
        let ghost before = self.scm.requests@;
        self.scm.requests.push(request);
        assert(self.scm.requests@ =~= before + seq![request]);
    }

    /// Moves in the source-control view, or opens what is selected.
    ///
    /// The list is flat, so there is nothing to expand.
    pub fn source_control_key(&mut self, command: &str) -> (r: Outcome)
        ensures
            keys_scm(*old(self), *final(self), command@, r),
    {
        if same(command, "list.select") {
            let request: ComparisonRequest = match self.scm.selection() {
                None => {
                    return Outcome::Handled;
                },
                Some(row) => {
                    if row.group == ScmGroup::Conflicts {
                        return Outcome::Message(
                            "resolve the merge conflict before opening its diff".to_owned(),
                        );
                    }
                    let staged: bool = row.group == ScmGroup::Staged;
                    ComparisonRequest {
                        path: row.path.clone(),
                        original: if staged {
                            clone_path(&row.original)
                        } else {
                            None
                        },
                        kind: if staged {
                            ComparisonKind::Staged
                        } else {
                            ComparisonKind::WorkingTree
                        },
                    }
                },
            };
            self.chrome.focus = Focus::Editor;
            return Outcome::GitComparison(request);
        }
        let ghost before = self.scm.requests@;
        let height: usize = self.side_bar_rows();
        if let Some(request) = scm_key(command) {
            self.ask_scm(request);
        }
        self.ask_scm(ScmRequest::ScrollIntoView(height));
        assert(self.scm.requests@ =~= before + scm_keyed(command@).push(
            ScmRequest::ScrollIntoView(height),
        ));
        Outcome::Handled
    }

    /// Moves in the file tree, or opens what is selected.
    fn tree_list_key(&mut self, command: &str) -> (r: Outcome)
        requires
            old(self).tree.explorer is Some,
        ensures
            keys_tree(*old(self), *final(self), old(self).tree.explorer->Some_0, command@, r),
    {
        let ghost before = *self;
        let ghost asked_before = self.tree.explorer->Some_0.requests@;
        let height: usize = self.side_bar_rows();
        if same(command, "list.select") {
            let selected: Option<TreeRow> = match &self.tree.explorer {
                Some(explorer) => match &explorer.selection {
                    Some(row) => Some(row.clone()),
                    None => None,
                },
                None => None,
            };
            match selected {
                None => {
                    return Outcome::Handled;
                },
                Some(row) => {
                    if !row.is_dir {
                        self.chrome.focus = Focus::Editor;
                        return Outcome::OpenFile { path: row.path, at: None };
                    }
                    self.ask_tree(TreeRequest::Toggle);
                    self.ask_tree(TreeRequest::ScrollIntoView(height));
                    assert(self.tree.explorer->Some_0.requests@ =~= asked_before
                        + seq![TreeRequest::Toggle, TreeRequest::ScrollIntoView(height)]);
                    return Outcome::Handled;
                },
            }
        }
        if let Some(request) = tree_key(command) {
            self.ask_tree(request);
        }
        self.ask_tree(TreeRequest::ScrollIntoView(height));
        assert(self.tree.explorer->Some_0.requests@ =~= asked_before + tree_keyed(command@).push(
            TreeRequest::ScrollIntoView(height),
        ));
        Outcome::Handled
    }

    /// Moves in the list that is showing in the side bar, or opens what is selected there.
    pub fn explorer_key(&mut self, command: &str) -> (r: Outcome)
        ensures
            keys_list(*old(self), *final(self), command@, r),
    {
        if self.chrome.focus != Focus::SideBar {
            return Outcome::Handled;
        }
        if self.chrome.side_bar_view == SideBarView::SourceControl {
            return self.source_control_key(command);
        }
        if self.tree.explorer.is_none() {
            return Outcome::Handled;
        }
        self.tree_list_key(command)
    }

    /// Shows the active file in the tree.
    pub fn reveal_active_file(&mut self) -> (r: Outcome)
        ensures
            reveals_file(*old(self), *final(self), r),
    {
        let path: PathBuf = match &self.active.document.path {
            None => {
                return Outcome::Message("this document has not been saved anywhere yet".to_owned());
            },
            Some(path) => path.clone(),
        };
        if self.tree.explorer.is_none() {
            return Outcome::Message("no workspace to reveal it in".to_owned());
        }
        if !self.chrome.side_bar {
            self.show_side_bar(true);
        }
        self.ask_tree(TreeRequest::Reveal(path));
        Outcome::Handled
    }

    /// Stages the selected file.
    pub fn stage_selected(&self) -> (r: Outcome)
        ensures
            stages(selected_row(self.scm), r),
    {
        match self.scm.selection() {
            None => Outcome::Message("nothing is selected in source control".to_owned()),
            Some(row) => {
                if row.group == ScmGroup::Staged {
                    let mut message: String = row.name.clone();
                    message.append(" is already staged");
                    return Outcome::Message(message);
                }
                Outcome::GitOperation(ScmOperation::Stage(row.path.clone()))
            },
        }
    }

    /// Stages everything.
    pub fn stage_all(&self) -> (r: Outcome)
        ensures
            stages_all(self.scm.rows@, r),
    {
        if !self.scm.staged_and_not().1 {
            return Outcome::Message("there is nothing left to stage".to_owned());
        }
        Outcome::GitOperation(ScmOperation::StageAll)
    }

    /// Takes the selected file back out of the index.
    pub fn unstage_selected(&self) -> (r: Outcome)
        ensures
            unstages(selected_row(self.scm), r),
    {
        match self.scm.selection() {
            None => Outcome::Message("nothing is selected in source control".to_owned()),
            Some(row) => {
                if row.group != ScmGroup::Staged {
                    let mut message: String = row.name.clone();
                    message.append(" is not staged");
                    return Outcome::Message(message);
                }
                Outcome::GitOperation(
                    ScmOperation::Unstage {
                        path: row.path.clone(),
                        original: if row.renamed {
                            clone_path(&row.original)
                        } else {
                            None
                        },
                    },
                )
            },
        }
    }

    /// Asks for a commit message.
    pub fn ask_commit_message(&mut self) -> (r: Outcome)
        ensures
            asks_commit(*old(self), *final(self), r),
    {
        if self.scm.status.is_none() {
            return Outcome::Message("this is not a git repository".to_owned());
        }
        if !self.scm.staged_and_not().0 {
            return Outcome::Message("nothing is staged to commit".to_owned());
        }
        self.prompt = Some(Prompt::plain(PromptKind::CommitMessage));
        Outcome::Handled
    }

    /// Commits what is staged, under a message.
    pub fn commit(&self, message: String) -> (r: Outcome)
        ensures
            commits(message@, r),
    {
        if message.as_str().is_empty() {
            return Outcome::Message("a commit needs a message".to_owned());
        }
        Outcome::GitOperation(ScmOperation::Commit(message))
    }

    /// Asks for the branches that can be switched to.
    pub fn ask_checkout(&self) -> (r: Outcome)
        requires
            self.tabs().len() <= usize::MAX,
        ensures
            asks_checkout(*self, r),
    {
        if self.scm.status.is_none() {
            return Outcome::Message("this is not a git repository".to_owned());
        }
        let unsaved: usize = self.unsaved_count();
        if unsaved > 0 {
            return Outcome::Message(save_first_message(unsaved, " before switching branches"));
        }
        Outcome::GitBranches
    }

    /// Offers the branches to switch to.
    pub fn offer_branches(&mut self, branches: Vec<Branch>)
        ensures
            exists|mid: Session<B, S, M>|
                branches_offered(*old(self), mid, branches@) && #[trigger] refreshed(
                    mid,
                    *final(self),
                ),
    {
        let list: Vec<PaletteEntry> = other_branches(&branches);
        if list.len() == 0 {
            self.status = Some("there is no other local branch to switch to".to_owned());
        } else {
            self.prompt = Some(Prompt::list(PromptKind::Branches, list));
            self.status = current_message(&branches);
        }
        let ghost mid = *self;
        assert(branches_offered(*old(self), mid, branches@));
        self.refresh_context();
        assert(refreshed(mid, *self));
    }

    /// Shows what switching would do, and asks for a second decision.
    pub fn confirm_checkout(&mut self, plan: &CheckoutPlan)
        requires
            old(self).tabs().len() <= usize::MAX,
        ensures
            exists|mid: Session<B, S, M>|
                checkout_confirmed(*old(self), mid, *plan) && #[trigger] refreshed(
                    mid,
                    *final(self),
                ),
    {
        let unsaved: usize = self.unsaved_count();
        if unsaved > 0 {
            let reason: String = save_first_message(unsaved, " first");
            self.git_checkout_failed(reason.as_str());
            return;
        }
        let mut title: String = "Switch to ".to_owned();
        title.append(plan.target.as_str());
        let mut list: Vec<PaletteEntry> = Vec::new();
        list.push(
            PaletteEntry::new(CHECKOUT_CANCEL, "Cancel").with_detail("keep the current branch"),
        );
        list.push(
            PaletteEntry::new(plan.target.as_str(), title.as_str()).with_detail(
                plan.summary.as_str(),
            ),
        );
        assert(choices(list@) =~= checkout_choices(*plan));
        self.prompt = Some(Prompt::list(PromptKind::ConfirmCheckout, list));
        let mut status: String = plan.current.clone();
        status.append(" → ");
        status.append(plan.target.as_str());
        status.append(" — no local work will be discarded; Git will refuse an overwrite");
        self.status = Some(status);
        let ghost mid = *self;
        assert(checkout_confirmed(*old(self), mid, *plan));
        self.refresh_context();
        assert(refreshed(mid, *self));
    }

    /// Says why branches could not be listed or switched.
    pub fn git_checkout_failed(&mut self, reason: &str)
        ensures
            exists|mid: Session<B, S, M>|
                said(*old(self), mid, "could not switch branches: "@ + reason@)
                    && #[trigger] refreshed(mid, *final(self)),
    {
        let mut status: String = "could not switch branches: ".to_owned();
        status.append(reason);
        self.status = Some(status);
        let ghost mid = *self;
        assert(said(*old(self), mid, "could not switch branches: "@ + reason@));
        self.refresh_context();
        assert(refreshed(mid, *self));
    }

    /// Takes note of a change to the repository; `described` says what was done.
    pub fn git_operation_done(&mut self, operation: &ScmOperation, described: &str)
        ensures
            exists|mid: Session<B, S, M>|
                operation_noted(*old(self), mid, *operation, described@) && #[trigger] refreshed(
                    mid,
                    *final(self),
                ),
    {
        self.status = Some(described.to_owned());
        if let ScmOperation::Checkout(_) = operation {
            self.scm.checkout_completed = true;
            self.groups.comparison = None;
        }
        self.scm_changed();
        let ghost mid = *self;
        assert(operation_noted(*old(self), mid, *operation, described@));
        self.refresh_context();
        assert(refreshed(mid, *self));
    }

    /// Whether a branch was switched since this was last asked.
    pub fn take_checkout_completed(&mut self) -> (r: bool)
        ensures
            r == old(self).scm.checkout_completed,
            *final(self) == (Session {
                scm: Repository { checkout_completed: false, ..old(self).scm },
                ..*old(self)
            }),
    {
        let completed: bool = self.scm.checkout_completed;
        self.scm.checkout_completed = false;
        completed
    }

    /// Says why the repository was not changed, and has it read again: what was shown of it was
    /// probably out of date.
    pub fn git_operation_failed(&mut self, described: &str, reason: &str)
        ensures
            exists|mid: Session<B, S, M>|
                {
                    &&& mid == (Session {
                        status: mid.status,
                        scm: Repository { wanted: true, ..old(self).scm },
                        ..*old(self)
                    })
                    &&& view_of(mid.status) == Some("could not "@ + described@ + ": "@ + reason@)
                    &&& #[trigger] refreshed(mid, *final(self))
                },
    {
        let mut status: String = "could not ".to_owned();
        status.append(described);
        status.append(": ");
        status.append(reason);
        self.status = Some(status);
        self.scm_changed();
        let ghost mid = *self;
        self.refresh_context();
        assert(refreshed(mid, *self));
    }

    /// Opens a read-only comparison of a file's two texts over the active tab, aligned by the runs
    /// in which they differ. A text that is missing is compared as an empty one.
    pub fn open_comparison<D: Fn(&PathBuf, &String) -> Document<B>>(
        &mut self,
        request: &ComparisonRequest,
        comparison: &Comparison,
        hunks: &Vec<Hunk>,
        from_file: &D,
    )
        requires
            hunks_within(
                hunks@,
                source_lines(text_or_nothing(comparison.original)).len() as int,
                source_lines(text_or_nothing(comparison.modified)).len() as int,
            ),
            forall|text: String| #[trigger] from_file.requires((&request.path, &text)),
        ensures
            exists|mid: Session<B, S, M>|
                #![trigger refreshed(laid_out(mid), *final(self))]
                compares(*from_file, *old(self), mid, *request, *comparison, hunks@) && refreshed(
                    laid_out(mid),
                    *final(self),
                ),
    {
        proof {
            reveal_strlit("");
            assert(""@ =~= Seq::<char>::empty());
        }
        let original: &str = match &comparison.original {
            Some(text) => text.as_str(),
            None => "",
        };
        let modified: &str = match &comparison.modified {
            Some(text) => text.as_str(),
            None => "",
        };
        let (left, right): (Side, Side) = comparison_rows(original, modified, hunks);
        let left_document: Document<B> = from_file(&request.path, &left.text);
        let right_document: Document<B> = from_file(&request.path, &right.text);
        let ghost lefts = (left_document, left.lines);
        let ghost rights = (right_document, right.lines);
        let kind: ComparisonKind = request.kind;
        self.show_comparison(kind, (left_document, left.lines), (right_document, right.lines));
        proof {
            let mid = choose|mid: Session<B, S, M>|
                #![trigger refreshed(laid_out(mid), *self)]
                comparison_opened(*old(self), mid, kind, lefts, rights) && refreshed(
                    laid_out(mid),
                    *self,
                );
            assert(compares(*from_file, *old(self), mid, *request, *comparison, hunks@));
            assert(refreshed(laid_out(mid), *self));
        }
    }

    /// Shows the two sides of a comparison over the active tab, each as its document and what each
    /// of its rows stands for.
    fn show_comparison(
        &mut self,
        kind: ComparisonKind,
        left: (Document<B>, Vec<ComparisonLine>),
        right: (Document<B>, Vec<ComparisonLine>),
    )
        ensures
            exists|mid: Session<B, S, M>|
                #![trigger refreshed(laid_out(mid), *final(self))]
                comparison_opened(*old(self), mid, kind, left, right) && refreshed(
                    laid_out(mid),
                    *final(self),
                ),
    {
        let (left_label, right_label): (&'static str, &'static str) = match kind {
            ComparisonKind::Staged => ("HEAD", "Index"),
            ComparisonKind::WorkingTree => ("Index", "Working Tree"),
        };
        let width: usize = self.active.view.width;
        let height: usize = self.active.view.height;
        let (mut left_document, left_lines): (Document<B>, Vec<ComparisonLine>) = left;
        let (mut right_document, right_lines): (Document<B>, Vec<ComparisonLine>) = right;
        left_document.settings.word_wrap = WordWrap::Off;
        right_document.settings.word_wrap = WordWrap::Off;
        self.groups.comparison = Some(
            ComparisonView {
                left: ComparisonSide {
                    document: left_document,
                    view: Viewport::fresh(width, height),
                    label: left_label,
                    lines: left_lines,
                },
                right: ComparisonSide {
                    document: right_document,
                    view: Viewport::fresh(width, height),
                    label: right_label,
                    lines: right_lines,
                },
                focused_right: true,
            },
        );
        self.chrome.focus = Focus::Editor;
        let mut status: String = left_label.to_owned();
        status.append(" ↔ ");
        status.append(right_label);
        status.append(" — read only");
        self.status = Some(status);
        let ghost mid = *self;
        assert(comparison_opened(*old(self), mid, kind, left, right));
        self.lay_out();
        self.refresh_context();
        assert(refreshed(laid_out(mid), *self));
    }

    /// Says why a comparison could not be opened.
    pub fn comparison_failed(&mut self, reason: &str)
        ensures
            exists|mid: Session<B, S, M>|
                said(*old(self), mid, "could not open diff: "@ + reason@) && #[trigger] refreshed(
                    mid,
                    *final(self),
                ),
    {
        let mut status: String = "could not open diff: ".to_owned();
        status.append(reason);
        self.status = Some(status);
        let ghost mid = *self;
        assert(said(*old(self), mid, "could not open diff: "@ + reason@));
        self.refresh_context();
        assert(refreshed(mid, *self));
    }

    /// Whether a comparison covers the active tab.
    pub fn comparison_active(&self) -> (r: bool)
        ensures
            r == (self.groups.comparison is Some),
    {
        self.groups.comparison.is_some()
    }

    /// Says where the repository begins, which need not be where the workspace does.
    pub fn set_repository_root(&mut self, root: Option<PathBuf>)
        ensures
            *final(self) == (Session { scm: Repository { root, ..old(self).scm }, ..*old(self) }),
    {
        self.scm.root = root;
    }

    /// Where the repository begins, if that was said.
    pub fn repository_root(&self) -> (r: Option<&PathBuf>)
        ensures
            match r {
                Some(root) => self.scm.root == Some(*root),
                None => self.scm.root is None,
            },
    {
        self.scm.root.as_ref()
    }

    /// The file tree, if a workspace is open.
    pub fn explorer(&self) -> (r: Option<&Explorer>)
        ensures
            match r {
                Some(explorer) => self.tree.explorer == Some(*explorer),
                None => self.tree.explorer is None,
            },
    {
        self.tree.explorer.as_ref()
    }

    /// The source-control view and what is known of the repository.
    pub fn source_control(&self) -> (r: &Repository<M>)
        ensures
            *r == self.scm,
    {
        &self.scm
    }

    /// Whether the settings allow source control.
    pub fn git_enabled(&self) -> (r: bool)
        ensures
            r == self.scm.enabled,
    {
        self.scm.enabled
    }

    /// Whether the settings allow marks in the gutter.
    pub fn gutter_marks_enabled(&self) -> (r: bool)
        ensures
            r == self.scm.decorations,
    {
        self.scm.decorations
    }

    /// Whether the repository is to be read again. Never where source control is switched off.
    pub fn scm_wanted(&self) -> (r: bool)
        ensures
            r == (self.scm.wanted && self.scm.enabled),
    {
        self.scm.wanted && self.scm.enabled
    }

    /// The commit of the repository that was last read, if there is one; nothing where source
    /// control is switched off.
    pub fn scm_status(&self) -> (r: Option<&Option<String>>)
        ensures
            match r {
                Some(status) => self.scm.enabled && self.scm.status == Some(*status),
                None => !self.scm.enabled || self.scm.status is None,
            },
    {
        if self.scm.enabled {
            self.scm.status.as_ref()
        } else {
            None
        }
    }

    /// Takes note that the repository is being read. A change during the reading asks for another.
    pub fn scm_started(&mut self)
        ensures
            *final(self) == (Session {
                scm: Repository { wanted: false, ..old(self).scm },
                ..*old(self)
            }),
    {
        self.scm.wanted = false;
    }

    /// Takes note that the repository may have changed.
    pub fn scm_changed(&mut self)
        ensures
            *final(self) == (Session {
                scm: Repository { wanted: true, ..old(self).scm },
                ..*old(self)
            }),
    {
        self.scm.wanted = true;
    }

    /// Takes the repository as it was found; `None` where there is none.
    pub fn fill_scm(&mut self, found: Option<Found>)
        ensures
            exists|mid: Session<B, S, M>|
                {
                    &&& mid == (Session { scm: mid.scm, ..*old(self) })
                    &&& scm_filled(old(self).scm, mid.scm, found)
                    &&& #[trigger] refreshed(mid, *final(self))
                },
    {
        let was: Option<String> = match &self.scm.status {
            Some(commit) => clone_text(commit),
            None => None,
        };
        let now: Option<String> = match &found {
            Some(found) => clone_text(&found.commit),
            None => None,
        };
        if !same_option(&was, &now) {
            self.scm.committed = Vec::new();
        }
        match found {
            Some(found) => {
                self.scm.status = Some(found.commit);
                self.scm.rows = found.rows;
                self.scm.selected = found.selected;
            },
            None => {
                self.scm.status = None;
                self.scm.rows = Vec::new();
                self.scm.selected = None;
                self.scm.requests = Vec::new();
            },
        }
        let ghost mid = *self;
        assert(scm_filled(old(self).scm, mid.scm, found));
        self.refresh_context();
        assert(refreshed(mid, *self));
    }

    /// An open file of which it is not known what was committed.
    pub fn committed_wanted(&self) -> (r: Option<PathBuf>)
        requires
            self.tabs().len() <= usize::MAX,
        ensures
            r == if self.scm.enabled && self.scm.decorations {
                first_unread(paths_open(self.tabs()), self.scm.committed@)
            } else {
                None
            },
    {
        if !self.scm.enabled || !self.scm.decorations {
            return None;
        }
        let paths: Vec<PathBuf> = self.open_paths();
        let ghost list = self.scm.committed@;
        let mut i: usize = 0;
        assert(paths@.skip(0) =~= paths@);
        while i < paths.len()
            invariant
                i <= paths@.len(),
                list == self.scm.committed@,
                self.scm.enabled && self.scm.decorations,
                paths@ == paths_open(self.tabs()),
                first_unread(paths@, list) == first_unread(paths@.skip(i as int), list),
            decreases paths@.len() - i,
        {
            assert(paths@.skip(i as int)[0] == paths@[i as int]);
            if find_committed(&self.scm.committed, &paths[i]) >= self.scm.committed.len() {
                return Some(paths[i].clone());
            }
            assert(paths@.skip(i as int).skip(1) =~= paths@.skip(i + 1));
            i = i + 1;
        }
        None
    }

    /// Takes what was committed of a file; `None` for one that was never committed.
    pub fn fill_committed(&mut self, path: PathBuf, text: Option<String>)
        ensures
            *final(self) == (Session {
                scm: Repository { committed: final(self).scm.committed, ..old(self).scm },
                ..*old(self)
            }),
            final(self).scm.committed@ == committed_filled(old(self).scm.committed@, path, text),
    {
        let i: usize = find_committed(&self.scm.committed, &path);
        if i < self.scm.committed.len() {
            self.scm.committed[i].committed = Committed { text, marks: None };
        } else {
            self.scm.committed.push(
                CommittedEntry { path, committed: Committed { text, marks: None } },
            );
        }
    }

    /// Brings the marks of one tab up to date with its text.
    fn refresh_diff<D: Fn(&String, &B) -> M>(&mut self, i: usize, diff: &D)
        requires
            i < old(self).tabs().len() <= usize::MAX,
            forall|head: &String, body: &B| diff.requires((head, body)),
        ensures
            *final(self) == (Session {
                scm: Repository { committed: final(self).scm.committed, ..old(self).scm },
                ..*old(self)
            }),
            diff_step(
                old(self).scm.committed@,
                final(self).scm.committed@,
                old(self).tabs()[i as int],
                *diff,
            ),
    {
        let ghost before = *self;
        let tab: &Tab<B, S> = self.tab_at(i);
        let version: i32 = tab.document.version;
        let k: usize = match &tab.document.path {
            None => {
                return;
            },
            Some(path) => find_committed(&self.scm.committed, path),
        };
        if k >= self.scm.committed.len() {
            return;
        }
        if let Some(marks) = &self.scm.committed[k].committed.marks {
            if marks.0 == version {
                return;
            }
        }
        let head: String = match &self.scm.committed[k].committed.text {
            Some(text) => text.clone(),
            None => String::new(),
        };
        let m: M = diff(&head, &self.tab_at(i).document.body);
        let ghost made = m;
        assert(diff.ensures((&head, &before.tabs()[i as int].document.body), made));
        self.scm.committed[k].committed.marks = Some((version, m));
        assert(self.scm.committed@ =~= before.scm.committed@.update(
            k as int,
            CommittedEntry {
                committed: Committed {
                    marks: Some((version, made)),
                    ..before.scm.committed@[k as int].committed
                },
                ..before.scm.committed@[k as int]
            },
        ));
    }

    /// Brings the marks of every open file up to date with its text. `diff` compares what was
    /// committed with a text.
    pub fn refresh_diffs<D: Fn(&String, &B) -> M>(&mut self, diff: &D)
        requires
            old(self).tabs().len() <= usize::MAX,
            forall|head: &String, body: &B| diff.requires((head, body)),
        ensures
            *final(self) == (Session {
                scm: Repository { committed: final(self).scm.committed, ..old(self).scm },
                ..*old(self)
            }),
            if old(self).scm.enabled && old(self).scm.decorations {
                diffs_refreshed(
                    old(self).tabs(),
                    old(self).scm.committed@,
                    final(self).scm.committed@,
                    *diff,
                )
            } else {
                *final(self) == *old(self)
            },
    {
        if !self.scm.enabled || !self.scm.decorations {
            return;
        }
        let ghost before = *self;
        let ghost tabs = self.tabs();
        let count: usize = self.tab_count();
        let mut i: usize = 0;
        while i < count
            invariant
                i <= count,
                count == tabs.len(),
                tabs == before.tabs(),
                tabs.len() <= usize::MAX,
                forall|head: &String, body: &B| diff.requires((head, body)),
                *self == (Session {
                    scm: Repository { committed: self.scm.committed, ..before.scm },
                    ..before
                }),
                diffs_refreshed(
                    tabs.take(i as int),
                    before.scm.committed@,
                    self.scm.committed@,
                    *diff,
                ),
            decreases count - i,
        {
            let ghost mid = self.scm.committed@;
            proof {
                assert(tabs.take(i + 1).drop_last() =~= tabs.take(i as int));
                assert(tabs.take(i + 1).last() == tabs[i as int]);
            }
            self.refresh_diff(i, diff);
            assert(diff_step(mid, self.scm.committed@, tabs.take(i + 1).last(), *diff));
            i = i + 1;
        }
        assert(tabs.take(count as int) =~= tabs);
    }

    /// How a file differs from what was committed, as of the last time that was brought up to
    /// date.
    pub fn diff_marks(&self, path: &PathBuf) -> (r: Option<&M>)
        ensures
            ({
                let k = committed_at(self.scm.committed@, path@);
                match r {
                    Some(m) => {
                        &&& self.scm.enabled
                        &&& self.scm.decorations
                        &&& k < self.scm.committed@.len()
                        &&& self.scm.committed@[k].committed.marks matches Some(marks)
                        &&& marks.1 == *m
                    },
                    None => !self.scm.enabled || !self.scm.decorations || k
                        >= self.scm.committed@.len()
                        || self.scm.committed@[k].committed.marks is None,
                }
            }),
    {
        if !self.scm.enabled || !self.scm.decorations {
            return None;
        }
        let k: usize = find_committed(&self.scm.committed, path);
        if k >= self.scm.committed.len() {
            return None;
        }
        match &self.scm.committed[k].committed.marks {
            Some(marks) => Some(&marks.1),
            None => None,
        }
    }
}

/// The choices of branches.
fn other_branches(branches: &Vec<Branch>) -> (r: Vec<PaletteEntry>)
    ensures
        choices(r@) == branch_choices(branches@),
{
    let mut r: Vec<PaletteEntry> = Vec::new();
    let mut i: usize = 0;
    assert(choices(r@) =~= branch_choices(branches@.take(0)));
    while i < branches.len()
        invariant
            i <= branches@.len(),
            choices(r@) == branch_choices(branches@.take(i as int)),
        decreases branches@.len() - i,
    {
        let ghost before = choices(r@);
        assert(branches@.take(i + 1).drop_last() =~= branches@.take(i as int));
        if !branches[i].current {
            let entry: PaletteEntry = PaletteEntry::new(
                branches[i].name.as_str(),
                branches[i].name.as_str(),
            ).with_detail("local branch");
            let ghost added = entry@;
            r.push(entry);
            assert(choices(r@) =~= before.push(added));
        }
        i = i + 1;
    }
    assert(branches@.take(i as int) =~= branches@);
    r
}

/// What is said while branches are chosen from.
fn current_message(branches: &Vec<Branch>) -> (r: Option<String>)
    ensures
        view_of(r) == branch_status(branches@),
{
    let mut i: usize = 0;
    assert(branches@.skip(0) =~= branches@);
    while i < branches.len()
        invariant
            i <= branches@.len(),
            current_branch(branches@) == i + current_branch(branches@.skip(i as int)),
        decreases branches@.len() - i,
    {
        assert(branches@.skip(i as int)[0] == branches@[i as int]);
        if branches[i].current {
            let mut r: String = "currently on ".to_owned();
            r.append(branches[i].name.as_str());
            return Some(r);
        }
        assert(branches@.skip(i as int).skip(1) =~= branches@.skip(i + 1));
        i = i + 1;
    }
    None
}

// ---------------------------------------------------------------------------
// Laws
// ---------------------------------------------------------------------------

proof fn lemma_committed_at<M>(list: Seq<CommittedEntry<M>>, path: Seq<Part>)
    ensures
        0 <= committed_at(list, path) <= list.len(),
        committed_at(list, path) < list.len() ==> list[committed_at(list, path)].path@ == path,
        forall|i: int|
            0 <= i < committed_at(list, path) ==> (#[trigger] list[i]).path@ != path,
    decreases list.len(),
{
    if list.len() > 0 && list[0].path@ != path {
        let rest = list.skip(1);
        lemma_committed_at(rest, path);
        assert forall|i: int| 0 <= i < committed_at(list, path) implies (
        #[trigger] list[i]).path@ != path by {
            if i > 0 {
                assert(list[i] == rest[i - 1]);
            }
        }
    }
}

proof fn lemma_committed_same<M>(
    a: Seq<CommittedEntry<M>>,
    b: Seq<CommittedEntry<M>>,
    path: Seq<Part>,
)
    requires
        a.len() == b.len(),
        forall|i: int| 0 <= i < a.len() ==> (#[trigger] a[i]).path@ == b[i].path@,
    ensures
        committed_at(a, path) == committed_at(b, path),
    decreases a.len(),
{
    if a.len() > 0 {
        assert(a[0].path@ == b[0].path@);
        assert forall|i: int| 0 <= i < a.skip(1).len() implies (#[trigger] a.skip(1)[i]).path@
            == b.skip(1)[i].path@ by {
            assert(a[i + 1].path@ == b[i + 1].path@);
        }
        lemma_committed_same(a.skip(1), b.skip(1), path);
    }
}

/// A file whose committed text was supplied is known, and the list still holds no path twice.
pub proof fn law_a_supplied_file_is_not_wanted_again<M>(
    list: Seq<CommittedEntry<M>>,
    path: PathBuf,
    text: Option<String>,
)
    requires
        committed_apart(list),
    ensures
        committed_at(committed_filled(list, path, text), path@) < committed_filled(
            list,
            path,
            text,
        ).len(),
        committed_apart(committed_filled(list, path, text)),
{
    let i = committed_at(list, path@);
    let after = committed_filled(list, path, text);
    lemma_committed_at(list, path@);
    lemma_committed_at(after, path@);
    if i < list.len() {
        assert(after[i].path@ == path@);
        assert forall|a: int, b: int| 0 <= a < b < after.len() implies #[trigger] after[a].path@
            != #[trigger] after[b].path@ by {
            assert(after[a].path@ == list[a].path@);
            assert(after[b].path@ == list[b].path@);
        }
    } else {
        assert(after[list.len() as int].path@ == path@);
        assert forall|a: int, b: int| 0 <= a < b < after.len() implies #[trigger] after[a].path@
            != #[trigger] after[b].path@ by {
            assert(after[a] == list[a]);
            if b < list.len() {
                assert(after[b] == list[b]);
            }
        }
    }
}

/// Another commit, or none, forgets all that was known to be committed.
pub proof fn law_another_commit_forgets_what_was_committed<M>(
    before: Repository<M>,
    after: Repository<M>,
    found: Option<Found>,
)
    requires
        scm_filled(before, after, found),
        commit_of(before.status) != commit_found(found),
    ensures
        after.committed@.len() == 0,
{
}

/// A repository that is gone leaves nothing to stage.
pub proof fn law_a_repository_that_is_gone_leaves_nothing<M>(
    before: Repository<M>,
    after: Repository<M>,
)
    requires
        scm_filled(before, after, None),
    ensures
        after.status is None,
        selected_row(after) is None,
        !any_in(after.rows@, ScmGroup::Staged),
        !any_beside(after.rows@, ScmGroup::Staged),
{
}

/// Whether the tabs hold different files.
pub open spec fn files_apart<B, S>(tabs: Seq<Tab<B, S>>) -> bool {
    forall|i: int, j: int|
        0 <= i < j < tabs.len() && (#[trigger] tabs[i]).document.path is Some && (
        #[trigger] tabs[j]).document.path is Some ==> tabs[i].document.path->Some_0@
            != tabs[j].document.path->Some_0@
}

/// Whether the marks kept for a tab's file, if any are, are those of its text.
pub open spec fn marks_current<B, S, M>(tab: Tab<B, S>, list: Seq<CommittedEntry<M>>) -> bool {
    tab.document.path matches Some(path) ==> {
        let k = committed_at(list, path@);
        k < list.len() ==> marked_at(list[k].committed, tab.document.version)
    }
}

/// Bringing the marks up to date makes them those of every open text, and forgets no file.
pub proof fn law_marks_follow_the_text<B, S, M, D: Fn(&String, &B) -> M>(
    tabs: Seq<Tab<B, S>>,
    before: Seq<CommittedEntry<M>>,
    after: Seq<CommittedEntry<M>>,
    diff: D,
)
    requires
        files_apart(tabs),
        diffs_refreshed(tabs, before, after, diff),
    ensures
        after.len() == before.len(),
        forall|i: int|
            0 <= i < before.len() ==> (#[trigger] after[i]).path == before[i].path
                && after[i].committed.text == before[i].committed.text,
        forall|i: int| 0 <= i < tabs.len() ==> marks_current(#[trigger] tabs[i], after),
    decreases tabs.len(),
{
    if tabs.len() > 0 {
        let rest = tabs.drop_last();
        let last = tabs.last();
        let mid = choose|mid: Seq<CommittedEntry<M>>|
            diffs_refreshed(rest, before, mid, diff) && #[trigger] diff_step(
                mid,
                after,
                last,
                diff,
            );
        assert forall|i: int, j: int|
            0 <= i < j < rest.len() && (#[trigger] rest[i]).document.path is Some && (
            #[trigger] rest[j]).document.path is Some implies rest[i].document.path->Some_0@
            != rest[j].document.path->Some_0@ by {
            assert(rest[i] == tabs[i]);
            assert(rest[j] == tabs[j]);
        }
        law_marks_follow_the_text(rest, before, mid, diff);
        if last.document.path is Some {
            lemma_committed_at(mid, last.document.path->Some_0@);
        }
        assert(after.len() == mid.len());
        assert forall|i: int| 0 <= i < mid.len() implies (#[trigger] after[i]).path == mid[i].path
            && after[i].committed.text == mid[i].committed.text by {}
        assert forall|i: int| 0 <= i < tabs.len() implies marks_current(
            #[trigger] tabs[i],
            after,
        ) by {
            if tabs[i].document.path is Some {
                let path = tabs[i].document.path->Some_0@;
                lemma_committed_at(mid, path);
                lemma_committed_same(mid, after, path);
                let k = committed_at(mid, path);
                if k < mid.len() && i < rest.len() {
                    assert(marks_current(rest[i], mid));
                    if last.document.path is Some {
                        let own = last.document.path->Some_0@;
                        assert(tabs[i].document.path->Some_0@ != tabs[tabs.len()
                            - 1].document.path->Some_0@);
                        lemma_committed_at(mid, own);
                        assert(committed_at(mid, own) != k);
                    }
                    assert(after[k] == mid[k]);
                }
            }
        }
    }
}

/// No branch is switched, nor a switch confirmed, while anything is unsaved.
pub proof fn law_branches_wait_for_unsaved_work<B, S, M>(
    before: Session<B, S, M>,
    after: Session<B, S, M>,
    plan: CheckoutPlan,
    outcome: Outcome,
)
    requires
        dirty_count(before.tabs()) > 0,
        asks_checkout(before, outcome),
        checkout_confirmed(before, after, plan),
    ensures
        outcome is Message,
        after.prompt == before.prompt,
{
}

/// A commit that is asked for has something staged to go into it.
pub proof fn law_a_commit_has_something_staged<B, S, M>(
    before: Session<B, S, M>,
    after: Session<B, S, M>,
    outcome: Outcome,
)
    requires
        asks_commit(before, after, outcome),
        outcome is Handled,
    ensures
        before.scm.status is Some,
        any_in(before.scm.rows@, ScmGroup::Staged),
        asks(after.prompt, PromptKind::CommitMessage, Opening::Plain),
{
}

/// A key that moves in a list does nothing while the keyboard is elsewhere.
pub proof fn law_list_keys_need_the_side_bar<B, S, M>(
    before: Session<B, S, M>,
    after: Session<B, S, M>,
    command: Seq<char>,
    outcome: Outcome,
)
    requires
        keys_list(before, after, command, outcome),
        before.chrome.focus != Focus::SideBar,
    ensures
        after == before,
        outcome is Handled,
{
}

} // verus!
