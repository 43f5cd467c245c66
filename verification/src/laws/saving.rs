//! What is saved, and what is written.

use vstd::prelude::*;
#[allow(unused_imports)]
use crate::laws::picking::{lemma_picked, picked, picks};
#[allow(unused_imports)]
use crate::path::PathBuf;
#[allow(unused_imports)]
use crate::session::documents::{
    contents_text, dirty_count, failures, first_exactly, paths_open, tab_exactly, unsaved_tabs,
    untitled_unsaved, Written,
};
#[allow(unused_imports)]
use crate::session::state::{Session, Tab};

verus! {

/// Which tabs have unsaved changes and a file.
pub open spec fn unsaved_marks<B, S>(tabs: Seq<Tab<B, S>>) -> Seq<bool> {
    Seq::new(tabs.len(), |i: int| tabs[i].document.dirty && tabs[i].document.path is Some)
}

/// Which tabs have unsaved changes and no file.
pub open spec fn untitled_marks<B, S>(tabs: Seq<Tab<B, S>>) -> Seq<bool> {
    Seq::new(tabs.len(), |i: int| tabs[i].document.dirty && tabs[i].document.path is None)
}

/// Which tabs have unsaved changes.
pub open spec fn dirty_marks<B, S>(tabs: Seq<Tab<B, S>>) -> Seq<bool> {
    Seq::new(tabs.len(), |i: int| tabs[i].document.dirty)
}

/// Which tabs have a file.
pub open spec fn file_marks<B, S>(tabs: Seq<Tab<B, S>>) -> Seq<bool> {
    Seq::new(tabs.len(), |i: int| tabs[i].document.path is Some)
}

/// The documents that are to be written are exactly those with unsaved changes and a file, in the
/// order of their tabs; those with changes and no file, and those with changes at all, are counted
/// one by one.
pub proof fn law_what_is_unsaved<B, S>(tabs: Seq<Tab<B, S>>) -> (r: (Seq<int>, Seq<int>))
    ensures
        picks(unsaved_tabs(tabs), unsaved_marks(tabs)),
        picks(r.0, untitled_marks(tabs)),
        untitled_unsaved(tabs) == r.0.len(),
        picks(r.1, dirty_marks(tabs)),
        dirty_count(tabs) == r.1.len(),
    decreases tabs.len(),
{
    if tabs.len() == 0 {
        let none = (Seq::<int>::empty(), Seq::<int>::empty());
        none
    } else {
        let rest = tabs.drop_last();
        let last = tabs.last().document;
        let (untitled, dirty) = law_what_is_unsaved(rest);
        let a = last.dirty && last.path is Some;
        let b = last.dirty && last.path is None;
        lemma_picked(unsaved_tabs(rest), unsaved_marks(rest), a);
        lemma_picked(untitled, untitled_marks(rest), b);
        lemma_picked(dirty, dirty_marks(rest), last.dirty);
        assert(unsaved_marks(tabs) =~= unsaved_marks(rest).push(a));
        assert(untitled_marks(tabs) =~= untitled_marks(rest).push(b));
        assert(dirty_marks(tabs) =~= dirty_marks(rest).push(last.dirty));
        (
            picked(untitled, untitled_marks(rest), b),
            picked(dirty, dirty_marks(rest), last.dirty),
        )
    }
}

/// The open files are those of every tab that has one, in the order of the tabs.
pub proof fn law_which_files_are_open<B, S>(tabs: Seq<Tab<B, S>>) -> (at: Seq<int>)
    ensures
        picks(at, file_marks(tabs)),
        at.len() == paths_open(tabs).len(),
        forall|k: int|
            0 <= k < at.len() ==> tabs[#[trigger] at[k]].document.path == Some(paths_open(tabs)[k]),
    decreases tabs.len(),
{
    if tabs.len() == 0 {
        Seq::empty()
    } else {
        let rest = tabs.drop_last();
        let before = law_which_files_are_open(rest);
        let held = tabs.last().document.path is Some;
        lemma_picked(before, file_marks(rest), held);
        assert(file_marks(tabs) =~= file_marks(rest).push(held));
        let at = picked(before, file_marks(rest), held);
        assert forall|k: int| 0 <= k < at.len() implies tabs[#[trigger] at[k]].document.path
            == Some(paths_open(tabs)[k]) by {
            if k < before.len() {
                assert(at[k] == before[k]);
                assert(rest[before[k]] == tabs[before[k]]);
            }
        }
        at
    }
}

/// What is written for a document is its text; and, only where the settings want a text to end in a
/// line end and it does not, a line end behind it.
pub proof fn law_what_is_written(disk: Seq<char>, line_end: Seq<char>, wanted: bool)
    ensures
        !wanted ==> contents_text(disk, line_end, wanted) == disk,
        disk.len() > 0 && disk[disk.len() - 1] == '\n' ==> contents_text(disk, line_end, wanted)
            == disk,
        wanted && (disk.len() == 0 || disk[disk.len() - 1] != '\n') ==> contents_text(
            disk,
            line_end,
            wanted,
        ) == disk + line_end,
{
    reveal_strlit("\n");
    if disk.len() > 0 && disk[disk.len() - 1] == '\n' {
        assert(disk.skip(disk.len() - 1) =~= "\n"@);
    }
    if crate::text::ends(disk, "\n"@) {
        assert(disk.skip(disk.len() - 1)[0] == "\n"@[0]);
    }
}

/// The tab that a file is saved in is one with exactly that path: the one on screen before any
/// other, and then the first. None is found only where there is none.
pub proof fn law_which_tab_is_saved<B, S, M>(s: Session<B, S, M>, path: PathBuf)
    ensures
        ({
            let i = tab_exactly(s, path@);
            &&& 0 <= i <= s.tabs().len()
            &&& i < s.tabs().len() ==> s.tabs()[i].document.path is Some
                && s.tabs()[i].document.path->Some_0@ == path@
            &&& s.active.document.path is Some && s.active.document.path->Some_0@ == path@ ==> i
                == s.left@.len()
            &&& forall|k: int|
                0 <= k < s.tabs().len() && (#[trigger] s.tabs()[k]).document.path is Some
                    && s.tabs()[k].document.path->Some_0@ == path@ ==> i == s.left@.len() || i <= k
        }),
{
    lemma_first_exactly(s.tabs(), path@);
    assert(s.tabs()[s.left@.len() as int] == s.active);
}

proof fn lemma_first_exactly<B, S>(tabs: Seq<Tab<B, S>>, path: Seq<crate::path::Part>)
    ensures
        0 <= first_exactly(tabs, path) <= tabs.len(),
        first_exactly(tabs, path) < tabs.len() ==> tabs[first_exactly(
            tabs,
            path,
        )].document.path is Some && tabs[first_exactly(tabs, path)].document.path->Some_0@ == path,
        forall|k: int|
            0 <= k < first_exactly(tabs, path) ==> !((#[trigger] tabs[k]).document.path is Some
                && tabs[k].document.path->Some_0@ == path),
    decreases tabs.len(),
{
    if tabs.len() > 0 && !crate::session::tabs::is_exactly(tabs[0].document, path) {
        let rest = tabs.skip(1);
        lemma_first_exactly(rest, path);
        let i = first_exactly(rest, path);
        if i < rest.len() {
            assert(rest[i] == tabs[i + 1]);
        }
        assert forall|k: int| 0 <= k < first_exactly(tabs, path) implies !((
        #[trigger] tabs[k]).document.path is Some && tabs[k].document.path->Some_0@ == path) by {
            if k > 0 {
                assert(rest[k - 1] == tabs[k]);
            }
        }
    }
}

/// Which of the files could not be written.
pub open spec fn failed_marks(results: Seq<Written>) -> Seq<bool> {
    Seq::new(results.len(), |i: int| results[i].error is Some)
}

/// Every file that could not be written is reported, with its own reason, in order.
pub proof fn law_every_failure_is_reported(results: Seq<Written>) -> (at: Seq<int>)
    ensures
        picks(at, failed_marks(results)),
        at.len() == failures(results).len(),
        forall|k: int|
            0 <= k < at.len() ==> results[#[trigger] at[k]].error is Some
                && results[at[k]].error->Some_0@ == failures(results)[k],
    decreases results.len(),
{
    if results.len() == 0 {
        Seq::empty()
    } else {
        let rest = results.drop_last();
        let before = law_every_failure_is_reported(rest);
        let failed = results.last().error is Some;
        lemma_picked(before, failed_marks(rest), failed);
        assert(failed_marks(results) =~= failed_marks(rest).push(failed));
        let at = picked(before, failed_marks(rest), failed);
        assert forall|k: int| 0 <= k < at.len() implies results[#[trigger] at[k]].error is Some
            && results[at[k]].error->Some_0@ == failures(results)[k] by {
            if k < before.len() {
                assert(at[k] == before[k]);
                assert(rest[before[k]] == results[before[k]]);
            }
        }
        at
    }
}

} // verus!
