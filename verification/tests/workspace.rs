use deco::editing::{Position, Range, TextEdit};
use deco::path::PathBuf;
use deco::workspace::{Applied, DocumentChange, Plan, WorkspaceError};

fn edit(new_text: &str) -> TextEdit {
    TextEdit {
        range: Range::new(Position::new(0, 0), Position::new(0, 3)),
        new_text: new_text.to_owned(),
    }
}

/// A server's edit, each file with the version it states and the one that was last sent.
fn workspace(documents: &[(&str, Option<i64>)], actual: Option<i64>) -> Vec<DocumentChange> {
    documents
        .iter()
        .map(|(uri, version)| DocumentChange {
            uri: (*uri).to_owned(),
            path: uri.strip_prefix("file://").map(PathBuf::from),
            version: *version,
            actual,
            edits: vec![edit("new")],
        })
        .collect()
}

#[test]
fn a_uri_that_is_not_a_file_refuses_the_whole_edit() {
    let error = Plan::build(
        &workspace(
            &[("file:///w/a.rs", None), ("untitled:Untitled-1", None)],
            None,
        ),
        &vec![PathBuf::from("/w/a.rs")],
    )
    .expect_err("an untitled document has no path to edit");
    assert!(error.message().contains("`untitled:Untitled-1`"));
    assert!(matches!(error, WorkspaceError::NotAFile(uri) if uri == "untitled:Untitled-1"));
}

#[test]
fn a_stale_version_refuses_the_whole_edit() {
    let error = Plan::build(
        &workspace(&[("file:///w/a.rs", Some(3))], Some(5)),
        &vec![PathBuf::from("/w/a.rs")],
    )
    .expect_err("the document moved on");
    assert_eq!(
        error,
        WorkspaceError::Stale {
            path: PathBuf::from("/w/a.rs"),
            expected: 3,
            actual: 5,
        }
    );
    assert!(
        error.message().contains("nothing was renamed"),
        "the message says the edit did not half-happen: {}",
        error.message()
    );
}

#[test]
fn a_server_that_states_no_version_is_taken_on_trust() {
    // The `changes` form carries no version. It is applied without a version
    // check rather than rejected. This test is separate from the passing
    // check because the two cases differ.
    let plan = Plan::build(
        &workspace(&[("file:///w/a.rs", None)], Some(5)),
        &vec![PathBuf::from("/w/a.rs")],
    )
    .expect("nothing to compare against");
    assert_eq!(plan.documents(), 1);
}

#[test]
fn the_plan_names_the_files_it_needs_read() {
    let plan = Plan::build(
        &workspace(
            &[("file:///w/open.rs", None), ("file:///w/closed.rs", None)],
            None,
        ),
        &vec![PathBuf::from("/w/open.rs")],
    )
    .expect("both are files");

    assert_eq!(plan.missing(), [&PathBuf::from("/w/closed.rs")]);
    assert_eq!(plan.paths().len(), 2);
    assert_eq!(plan.edits(), 2);
}

#[test]
fn an_open_file_is_never_read_from_disk() {
    // Its buffer may hold unsaved changes. Starting from the file on disk
    // would discard them and still report success.
    let plan = Plan::build(
        &workspace(&[("file:///w/open.rs", None)], None),
        &vec![PathBuf::from("/w/open.rs")],
    )
    .expect("a file")
    .with_contents(&|path: &PathBuf| -> Result<String, String> {
        panic!("read {} when a tab holds it", path.display())
    })
    .expect("nothing to read");

    assert!(plan.planned_documents()[0].contents.is_none());
}

#[test]
fn a_file_that_cannot_be_read_refuses_the_whole_edit() {
    let error = Plan::build(&workspace(&[("file:///w/gone.rs", None)], None), &vec![])
        .expect("a file")
        .with_contents(&|_: &PathBuf| Err("no such file".to_owned()))
        .expect_err("a file the edit needs is not there");

    assert_eq!(
        error,
        WorkspaceError::Unreadable {
            path: PathBuf::from("/w/gone.rs"),
            reason: "no such file".to_owned(),
        }
    );
    assert_eq!(
        error.message(),
        "`/w/gone.rs` could not be read: no such file"
    );
}

#[test]
fn two_names_for_one_file_are_merged() {
    let plan = Plan::build(
        &workspace(&[("file:///w/a.rs", None), ("file:///w/a.rs", None)], None),
        &vec![PathBuf::from("/w/./a.rs")],
    )
    .expect("files");
    assert_eq!(plan.documents(), 1);
    assert_eq!(plan.edits(), 2);
    assert!(plan.planned_documents()[0].open);
}

#[test]
fn every_refusal_has_words() {
    assert_eq!(
        WorkspaceError::Overlapping {
            path: PathBuf::from("/w/a.rs")
        }
        .message(),
        "the server sent overlapping edits for `/w/a.rs`, which have no well-defined result"
    );
    assert_eq!(
        WorkspaceError::InvalidPattern("unclosed group".to_owned()).message(),
        "unclosed group"
    );
}

#[test]
fn the_summary_counts_what_a_user_has_to_act_on() {
    assert_eq!(
        Applied {
            documents: 1,
            edits: 1,
            opened: 0
        }
        .summary("Renamed"),
        "Renamed: 1 change in 1 file"
    );
    assert_eq!(
        Applied {
            documents: 3,
            edits: 7,
            opened: 2
        }
        .summary("Renamed"),
        "Renamed: 7 changes in 3 files (2 opened, unsaved)"
    );
}

#[test]
fn a_plan_counts_every_edit_that_was_listed() {
    let plan = Plan::build(
        &workspace(
            &[("file:///w/a.rs", None), ("file:///w/b.rs", None), ("file:///w/./a.rs", None)],
            None,
        ),
        &Vec::new(),
    )
    .expect("all are files");
    assert_eq!(plan.edits(), 3);
    assert_eq!(plan.documents(), 2, "one file, under two names");
}
