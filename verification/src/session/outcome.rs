//! What a command comes to.

use vstd::prelude::*;
use crate::editing::Position;
use crate::path::PathBuf;
use crate::session::files::Operation;
use crate::session::state::SearchOptions;

verus! {

/// Something to be done to a repository.
#[derive(Debug, PartialEq, Eq)]
pub enum ScmOperation {
    Stage(PathBuf),
    StageAll,
    Unstage {
        path: PathBuf,
        /// Where it was, for a renamed one.
        original: Option<PathBuf>,
    },
    Commit(String),
    Checkout(String),
}

/// Which two states of a file are compared.
#[derive(Debug, Clone, Copy, PartialEq, Eq, Structural)]
pub enum ComparisonKind {
    /// What is committed with what is staged.
    Staged,
    /// What is staged with what is in the working tree.
    WorkingTree,
}

/// A file to be compared.
#[derive(Debug, PartialEq, Eq)]
pub struct ComparisonRequest {
    pub path: PathBuf,
    /// Where it was, for a renamed one.
    pub original: Option<PathBuf>,
    pub kind: ComparisonKind,
}

/// What a command comes to.
#[allow(inconsistent_fields)]
#[derive(Debug, PartialEq, Eq)]
pub enum Outcome {
    /// It is done.
    Handled,
    /// It is done, or refused, and this is said.
    Message(String),
    /// Nothing answers to it.
    NotFound,
    /// The editor is to be left.
    Quit,
    /// The document is to be written.
    Save,
    /// Every changed document is to be written.
    SaveAll,
    /// The document is to be written to another file.
    SaveAs(PathBuf),
    /// The document is to be read again.
    Revert,
    /// The frontend carries the command out.
    Frontend(String),
    /// A file is to be opened, at a place in it.
    OpenFile { path: PathBuf, at: Option<Position> },
    /// Something is to be done to a file.
    FileOperation(Operation),
    /// Something is to be done to the repository.
    GitOperation(ScmOperation),
    /// A file is to be compared.
    GitComparison(ComparisonRequest),
    /// The branches are to be listed.
    GitBranches,
    /// It is to be found out what switching to a branch would do.
    GitCheckoutPreview(String),
    /// The workspace is to be searched.
    SearchInFiles { query: String, options: SearchOptions },
    /// The workspace is to be searched and what is found replaced.
    ReplaceInFiles { query: String, replacement: String, options: SearchOptions },
    /// The name under the caret is to be changed.
    Rename { new_name: String },
    /// An action was chosen.
    CodeAction(String),
    /// An extension's request was answered.
    ExtensionConsent { allow: bool },
    /// A remembered answer is to be forgotten.
    ForgetExtensionPermission(String),
    /// A theme was chosen; one without a path is built in.
    LoadTheme { label: String, path: Option<PathBuf> },
}

impl Outcome {
    /// Whether the outcome is a message that says `text`.
    pub open spec fn says(&self, text: Seq<char>) -> bool {
        self matches Outcome::Message(message) && message@ == text
    }
}

} // verus!
