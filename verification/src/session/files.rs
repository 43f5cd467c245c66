//! What can be done to the files of a workspace, and what undoes it.

use vstd::prelude::*;
use crate::path::PathBuf;
#[allow(unused_imports)]
use crate::path::{parent_of, Part};

verus! {

/// What a file looked like when it was last handled: enough to notice that it was replaced.
#[derive(Debug, Clone, Copy, PartialEq, Eq, Structural)]
pub struct Stamp {
    /// Its length in bytes.
    pub len: u64,
    /// When it was last written, in milliseconds, where that is known.
    pub modified: Option<u64>,
}

/// Something to be done to the files of a workspace.
#[derive(Debug)]
pub enum Operation {
    /// Make an empty file.
    CreateFile(PathBuf),
    /// Make an empty directory.
    CreateFolder(PathBuf),
    /// Give a file or a directory another name.
    Rename {
        /// Whether it is a directory.
        directory: bool,
        /// Where it is.
        from: PathBuf,
        /// Where it goes.
        to: PathBuf,
        /// What it is expected to look like, where that matters.
        expect: Option<Stamp>,
    },
    /// Delete a file or a directory with everything in it.
    Delete {
        /// Whether it is a directory.
        directory: bool,
        /// Where it is.
        path: PathBuf,
    },
    /// Delete what was just made, if nothing has been put into it since.
    DeleteIfEmpty {
        /// Where it is.
        path: PathBuf,
        /// Whether it is a directory.
        directory: bool,
        /// What it is expected to look like, where that matters.
        expect: Option<Stamp>,
    },
}

/// An [`Operation`], as a value in contracts.
#[verifier::ext_equal]
pub enum Deed {
    CreateFile(Seq<Part>),
    CreateFolder(Seq<Part>),
    Rename { directory: bool, from: Seq<Part>, to: Seq<Part>, expect: Option<Stamp> },
    Delete { directory: bool, path: Seq<Part> },
    DeleteIfEmpty { path: Seq<Part>, directory: bool, expect: Option<Stamp> },
}

impl View for Operation {
    type V = Deed;

    open spec fn view(&self) -> Deed {
        match self {
            Operation::CreateFile(path) => Deed::CreateFile(path@),
            Operation::CreateFolder(path) => Deed::CreateFolder(path@),
            Operation::Rename { directory, from, to, expect } => Deed::Rename {
                directory: *directory,
                from: from@,
                to: to@,
                expect: *expect,
            },
            Operation::Delete { directory, path } => Deed::Delete {
                directory: *directory,
                path: path@,
            },
            Operation::DeleteIfEmpty { path, directory, expect } => Deed::DeleteIfEmpty {
                path: path@,
                directory: *directory,
                expect: *expect,
            },
        }
    }
}

impl Clone for Operation {
    fn clone(&self) -> (r: Operation)
        ensures
            r == *self,
    {
        match self {
            Operation::CreateFile(path) => Operation::CreateFile(path.clone()),
            Operation::CreateFolder(path) => Operation::CreateFolder(path.clone()),
            Operation::Rename { directory, from, to, expect } => Operation::Rename {
                directory: *directory,
                from: from.clone(),
                to: to.clone(),
                expect: *expect,
            },
            Operation::Delete { directory, path } => Operation::Delete {
                directory: *directory,
                path: path.clone(),
            },
            Operation::DeleteIfEmpty { path, directory, expect } => Operation::DeleteIfEmpty {
                path: path.clone(),
                directory: *directory,
                expect: *expect,
            },
        }
    }
}

impl PartialEq for Operation {
    fn eq(&self, other: &Operation) -> (r: bool) {
        match (self, other) {
            (Operation::CreateFile(a), Operation::CreateFile(b)) => a.same_as(b),
            (Operation::CreateFolder(a), Operation::CreateFolder(b)) => a.same_as(b),
            (
                Operation::Rename { directory: d, from: f, to: t, expect: e },
                Operation::Rename { directory, from, to, expect },
            ) => *d == *directory && f.same_as(from) && t.same_as(to) && same_stamp(e, expect),
            (
                Operation::Delete { directory: d, path: p },
                Operation::Delete { directory, path },
            ) => *d == *directory && p.same_as(path),
            (
                Operation::DeleteIfEmpty { path: p, directory: d, expect: e },
                Operation::DeleteIfEmpty { path, directory, expect },
            ) => *d == *directory && p.same_as(path) && same_stamp(e, expect),
            _ => false,
        }
    }
}

impl Eq for Operation {

}

impl vstd::std_specs::cmp::PartialEqSpecImpl for Operation {
    open spec fn obeys_eq_spec() -> bool {
        true
    }

    open spec fn eq_spec(&self, other: &Operation) -> bool {
        self@ == other@
    }
}

/// Whether two stamps are both absent or the same.
fn same_stamp(a: &Option<Stamp>, b: &Option<Stamp>) -> (r: bool)
    ensures
        r == (*a == *b),
{
    match (a, b) {
        (Some(x), Some(y)) => {
            x.len == y.len && match (x.modified, y.modified) {
                (Some(m), Some(n)) => m == n,
                (None, None) => true,
                _ => false,
            }
        },
        (None, None) => true,
        _ => false,
    }
}

/// The operation that undoes another, if one does.
///
/// Undoing a creation deletes what it made, and only if it is still what was made. A deletion has
/// no inverse, and neither has the undoing of a creation.
pub open spec fn inverse_of(operation: Operation) -> Option<Operation> {
    match operation {
        Operation::CreateFile(path) => Some(
            Operation::DeleteIfEmpty { path, directory: false, expect: None },
        ),
        Operation::CreateFolder(path) => Some(
            Operation::DeleteIfEmpty { path, directory: true, expect: None },
        ),
        Operation::Rename { directory, from, to, .. } => Some(
            Operation::Rename { directory, from: to, to: from, expect: None },
        ),
        Operation::Delete { .. } => None,
        Operation::DeleteIfEmpty { .. } => None,
    }
}

/// The path at which an operation makes an entry appear, if it does.
pub open spec fn arrival(operation: Operation) -> Option<PathBuf> {
    match operation {
        Operation::CreateFile(path) => Some(path),
        Operation::CreateFolder(path) => Some(path),
        Operation::Rename { to, .. } => Some(to),
        _ => None,
    }
}

/// The path that an operation empties, if it does.
pub open spec fn departure(operation: Operation) -> Option<PathBuf> {
    match operation {
        Operation::Rename { from, .. } => Some(from),
        Operation::Delete { path, .. } => Some(path),
        Operation::DeleteIfEmpty { path, .. } => Some(path),
        _ => None,
    }
}

impl Operation {
    /// The operation that undoes this one, if one does.
    pub fn inverse(&self) -> (r: Option<Operation>)
        ensures
            r == inverse_of(*self),
    {
        match self {
            Operation::CreateFile(path) => Some(
                Operation::DeleteIfEmpty { path: path.clone(), directory: false, expect: None },
            ),
            Operation::CreateFolder(path) => Some(
                Operation::DeleteIfEmpty { path: path.clone(), directory: true, expect: None },
            ),
            Operation::Rename { directory, from, to, .. } => Some(
                Operation::Rename {
                    directory: *directory,
                    from: to.clone(),
                    to: from.clone(),
                    expect: None,
                },
            ),
            Operation::Delete { .. } => None,
            Operation::DeleteIfEmpty { .. } => None,
        }
    }

    /// The path at which this makes an entry appear, if it does.
    pub fn arriving(&self) -> (r: Option<&PathBuf>)
        ensures
            match r {
                Some(path) => arrival(*self) == Some(*path),
                None => arrival(*self) is None,
            },
    {
        match self {
            Operation::CreateFile(path) => Some(path),
            Operation::CreateFolder(path) => Some(path),
            Operation::Rename { to, .. } => Some(to),
            _ => None,
        }
    }

    /// Where the entry that this is about is, or comes to be.
    pub open spec fn subject(&self) -> PathBuf {
        match self {
            Operation::CreateFile(path) => *path,
            Operation::CreateFolder(path) => *path,
            Operation::Rename { to, .. } => *to,
            Operation::Delete { path, .. } => *path,
            Operation::DeleteIfEmpty { path, .. } => *path,
        }
    }

    /// The directory whose entries this changes, if its path has one.
    pub fn parent(&self) -> (r: Option<PathBuf>)
        ensures
            match r {
                Some(parent) => parent_of(self.subject().text@) == Some(parent.text@),
                None => parent_of(self.subject().text@) is None,
            },
    {
        match self {
            Operation::CreateFile(path) => path.parent(),
            Operation::CreateFolder(path) => path.parent(),
            Operation::Rename { to, .. } => to.parent(),
            Operation::Delete { path, .. } => path.parent(),
            Operation::DeleteIfEmpty { path, .. } => path.parent(),
        }
    }
}

/// The path that an operation empties, if it does: the counterpart to [`Operation::arriving`].
///
/// A rename empties the path it came from and a delete empties its own.
pub fn moved_from(operation: &Operation) -> (r: Option<&PathBuf>)
    ensures
        match r {
            Some(path) => departure(*operation) == Some(*path),
            None => departure(*operation) is None,
        },
{
    match operation {
        Operation::Rename { from, .. } => Some(from),
        Operation::Delete { path, .. } => Some(path),
        Operation::DeleteIfEmpty { path, .. } => Some(path),
        _ => None,
    }
}

// ---------------------------------------------------------------------------
// Laws
// ---------------------------------------------------------------------------

/// Undoing a rename's undo is the rename again.
pub proof fn law_undoing_a_rename_twice_renames(directory: bool, from: PathBuf, to: PathBuf)
    ensures
        inverse_of(
            inverse_of(Operation::Rename { directory, from, to, expect: None })->Some_0,
        ) == Some(Operation::Rename { directory, from, to, expect: None }),
{
}

/// What undoes an operation empties the path at which the operation made something appear.
pub proof fn law_an_inverse_empties_where_the_operation_arrived(operation: Operation)
    requires
        inverse_of(operation) is Some,
    ensures
        departure(inverse_of(operation)->Some_0) == arrival(operation),
{
}

/// A deletion cannot be undone.
pub proof fn law_a_deletion_has_no_inverse(operation: Operation)
    requires
        operation is Delete,
    ensures
        inverse_of(operation) is None,
{
}

} // verus!
