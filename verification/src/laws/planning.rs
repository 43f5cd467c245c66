//! What a plan for several files holds.

use vstd::prelude::*;
#[allow(unused_imports)]
use crate::editing::TextEdit;
#[allow(unused_imports)]
use crate::path::{normal_parts, PathBuf};
#[allow(unused_imports)]
use crate::session::bulk::{all_searched, lemma_holding, plans_replacements, searched, tab_at_path};
#[allow(unused_imports)]
use crate::session::state::Session;
#[allow(unused_imports)]
use crate::session::tabs::is_at;
#[allow(unused_imports)]
use crate::workspace::{read_gives, Plan, PlannedDocument, WorkspaceError};

verus! {

/// The sum of some numbers.
pub open spec fn total(numbers: Seq<nat>) -> nat
    decreases numbers.len(),
{
    if numbers.len() == 0 {
        0
    } else {
        total(numbers.drop_last()) + numbers.last()
    }
}

/// Whether the tab at `k` holds the file, whichever way the two paths are spelled.
pub open spec fn holds_file<B, S, M>(s: Session<B, S, M>, k: int, path: PathBuf) -> bool {
    &&& 0 <= k < s.tabs().len()
    &&& s.tabs()[k].document.path is Some
    &&& normal_parts(s.tabs()[k].document.path->Some_0@) == normal_parts(path@)
}

/// Whether these are the edits for a file: for the text in a tab that holds it, or, where none
/// does, for the text that was read, which is then given.
pub open spec fn edits_for<
    B,
    S,
    M,
    R: Fn(&PathBuf) -> Result<String, String>,
    F: Fn(&B) -> Vec<TextEdit>,
    G: Fn(&String) -> Vec<TextEdit>,
>(
    s: Session<B, S, M>,
    path: PathBuf,
    read: R,
    in_body: F,
    in_text: G,
    edits: Vec<TextEdit>,
    contents: Option<String>,
) -> bool {
    match contents {
        None => exists|k: int| #[trigger]
            holds_file(s, k, path) && in_body.ensures((&s.tabs()[k].document.body,), edits),
        Some(text) => {
            &&& forall|k: int| !#[trigger] holds_file(s, k, path)
            &&& read.ensures((&path,), Ok(text))
            &&& in_text.ensures((&text,), edits)
        },
    }
}

/// A tab is found for a file exactly where one holds it.
proof fn lemma_found<B, S, M>(s: Session<B, S, M>, path: PathBuf)
    ensures
        tab_at_path(s, path@) < s.tabs().len() ==> holds_file(s, tab_at_path(s, path@), path),
        tab_at_path(s, path@) >= s.tabs().len() ==> forall|k: int| !#[trigger]
            holds_file(s, k, path),
{
    lemma_holding(s.tabs(), path@);
    assert(s.tabs()[s.left@.len() as int] == s.active);
    assert forall|k: int| #[trigger] holds_file(s, k, path) implies is_at(
        s.tabs()[k].document,
        path@,
    ) by {}
}

/// What searching one file came to.
proof fn lemma_searched<
    B,
    S,
    M,
    R: Fn(&PathBuf) -> Result<String, String>,
    F: Fn(&B) -> Vec<TextEdit>,
    G: Fn(&String) -> Vec<TextEdit>,
>(
    s: Session<B, S, M>,
    path: PathBuf,
    read: R,
    in_body: F,
    in_text: G,
    found: Option<PlannedDocument>,
) -> (r: (Vec<TextEdit>, Option<String>))
    requires
        searched(s, path, read, in_body, in_text, found),
    ensures
        edits_for(s, path, read, in_body, in_text, r.0, r.1),
        found is None <==> r.0@.len() == 0,
        found matches Some(document) ==> document.path == path && document.edits == r.0
            && document.contents == r.1 && document.open == (r.1 is None)
            && document.version is None,
{
    lemma_found(s, path);
    let i = tab_at_path(s, path@);
    if i < s.tabs().len() {
        let edits = choose|edits: Vec<TextEdit>|
            #[trigger] in_body.ensures((&s.tabs()[i].document.body,), edits) && found
                == if edits@.len() == 0 {
                None
            } else {
                Some(
                    PlannedDocument { path, version: None, edits, open: true, contents: None },
                )
            };
        (edits, None)
    } else {
        let (text, edits) = choose|text: String, edits: Vec<TextEdit>|
            #[trigger] read_gives(read, path, Ok(text)) && #[trigger] in_text.ensures(
                (&text,),
                edits,
            ) && found == if edits@.len() == 0 {
                None
            } else {
                Some(
                    PlannedDocument {
                        path,
                        version: None,
                        edits,
                        open: false,
                        contents: Some(text),
                    },
                )
            };
        (edits, Some(text))
    }
}

/// Whether a planned document is for the file, with these edits and, for one that is not open, this
/// text.
pub open spec fn planned_for(
    document: PlannedDocument,
    path: PathBuf,
    found: (Vec<TextEdit>, Option<String>),
) -> bool {
    &&& document.path == path
    &&& document.edits == found.0
    &&& document.contents == found.1
    &&& document.open == (found.1 is None)
    &&& document.version is None
}

/// How many edits each document has.
pub open spec fn planned_counts(documents: Seq<PlannedDocument>) -> Seq<nat> {
    Seq::new(documents.len(), |k: int| documents[k].edits@.len())
}

/// How many edits were found in each file.
pub open spec fn found_counts(found: Seq<(Vec<TextEdit>, Option<String>)>) -> Seq<nat> {
    Seq::new(found.len(), |i: int| found[i].0@.len())
}

/// Whether the documents are exactly the files that something was found in, in the order they are
/// listed in, with all that was found there: `at` says which of the files each document is.
pub open spec fn planned_in_full(
    paths: Seq<PathBuf>,
    found: Seq<(Vec<TextEdit>, Option<String>)>,
    documents: Seq<PlannedDocument>,
    at: Seq<int>,
) -> bool {
    &&& found.len() == paths.len()
    &&& at.len() == documents.len()
    &&& forall|k: int|
        0 <= k < documents.len() ==> 0 <= #[trigger] at[k] < paths.len() && planned_for(
            documents[k],
            paths[at[k]],
            found[at[k]],
        )
    &&& forall|j: int, k: int| 0 <= j < k < at.len() ==> #[trigger] at[j] < #[trigger] at[k]
    &&& forall|i: int| #[trigger]
        at.contains(i) <==> 0 <= i < paths.len() && found[i].0@.len() > 0
    &&& total(planned_counts(documents)) == total(found_counts(found))
}

/// One more file that nothing was found in.
proof fn lemma_nothing_more(
    paths: Seq<PathBuf>,
    before: Seq<(Vec<TextEdit>, Option<String>)>,
    documents: Seq<PlannedDocument>,
    at: Seq<int>,
    last: (Vec<TextEdit>, Option<String>),
)
    requires
        paths.len() > 0,
        planned_in_full(paths.drop_last(), before, documents, at),
        last.0@.len() == 0,
    ensures
        planned_in_full(paths, before.push(last), documents, at),
{
    let found = before.push(last);
    assert(found_counts(found).drop_last() =~= found_counts(before));
    assert(found_counts(found).last() == 0);
    assert(total(found_counts(found)) == total(found_counts(before)));
    assert forall|k: int| 0 <= k < documents.len() implies 0 <= #[trigger] at[k]
        < paths.len() && planned_for(documents[k], paths[at[k]], found[at[k]]) by {
        assert(found[at[k]] == before[at[k]]);
    }
    assert forall|i: int| #[trigger]
        at.contains(i) <==> 0 <= i < paths.len() && found[i].0@.len() > 0 by {
        if 0 <= i < before.len() {
            assert(found[i] == before[i]);
        }
    }
}

/// One more file that something was found in.
proof fn lemma_one_more(
    paths: Seq<PathBuf>,
    before: Seq<(Vec<TextEdit>, Option<String>)>,
    documents: Seq<PlannedDocument>,
    at: Seq<int>,
    last: (Vec<TextEdit>, Option<String>),
)
    requires
        paths.len() > 0,
        documents.len() > 0,
        planned_in_full(paths.drop_last(), before, documents.drop_last(), at),
        planned_for(documents.last(), paths.last(), last),
        last.0@.len() > 0,
    ensures
        planned_in_full(paths, before.push(last), documents, at.push(paths.len() - 1)),
{
    let kept = documents.drop_last();
    let found = before.push(last);
    let places = at.push(paths.len() - 1);
    assert(found_counts(found).drop_last() =~= found_counts(before));
    assert(planned_counts(documents).drop_last() =~= planned_counts(kept));
    assert(found_counts(found).last() == last.0@.len());
    assert(planned_counts(documents).last() == last.0@.len());
    assert(total(planned_counts(documents)) == total(found_counts(found)));
    assert forall|k: int| 0 <= k < documents.len() implies 0 <= #[trigger] places[k]
        < paths.len() && planned_for(documents[k], paths[places[k]], found[places[k]]) by {
        if k < kept.len() {
            assert(documents[k] == kept[k]);
            assert(places[k] == at[k]);
        }
    }
    assert forall|j: int, k: int| 0 <= j < k < places.len() implies #[trigger] places[j]
        < #[trigger] places[k] by {
        assert(kept[j] == documents[j]);
        if k < at.len() {
            assert(at[j] < at[k]);
        }
    }
    assert forall|i: int| #[trigger]
        places.contains(i) <==> 0 <= i < paths.len() && found[i].0@.len() > 0 by {
        if places.contains(i) {
            let k = choose|k: int| 0 <= k < places.len() && places[k] == i;
            if k < at.len() {
                assert(at[k] == i);
                assert(at.contains(i));
            }
        }
        if at.contains(i) {
            let k = choose|k: int| 0 <= k < at.len() && at[k] == i;
            assert(places[k] == i);
        }
        if i == paths.len() - 1 {
            assert(places[places.len() - 1] == i);
        }
    }
}

proof fn lemma_all_searched<
    B,
    S,
    M,
    R: Fn(&PathBuf) -> Result<String, String>,
    F: Fn(&B) -> Vec<TextEdit>,
    G: Fn(&String) -> Vec<TextEdit>,
>(
    s: Session<B, S, M>,
    paths: Seq<PathBuf>,
    read: R,
    in_body: F,
    in_text: G,
    documents: Seq<PlannedDocument>,
) -> (r: (Seq<(Vec<TextEdit>, Option<String>)>, Seq<int>))
    requires
        all_searched(s, paths, read, in_body, in_text, documents),
    ensures
        planned_in_full(paths, r.0, documents, r.1),
        forall|i: int|
            0 <= i < paths.len() ==> edits_for(
                s,
                paths[i],
                read,
                in_body,
                in_text,
                (#[trigger] r.0[i]).0,
                r.0[i].1,
            ),
    decreases paths.len(),
{
    if paths.len() == 0 {
        let none = (Seq::empty(), Seq::empty());
        none
    } else {
        let path = paths.last();
        let rest = paths.drop_last();
        if searched(s, path, read, in_body, in_text, None) && all_searched(
            s,
            rest,
            read,
            in_body,
            in_text,
            documents,
        ) {
            let (before, at) = lemma_all_searched(s, rest, read, in_body, in_text, documents);
            let last = lemma_searched(s, path, read, in_body, in_text, None);
            lemma_nothing_more(paths, before, documents, at, last);
            (before.push(last), at)
        } else {
            let kept = documents.drop_last();
            let (before, at) = lemma_all_searched(s, rest, read, in_body, in_text, kept);
            let last = lemma_searched(s, path, read, in_body, in_text, Some(documents.last()));
            lemma_one_more(paths, before, documents, at, last);
            (before.push(last), at.push(paths.len() - 1))
        }
    }
}

/// A replacement in files is planned in full: whatever is to be replaced in a listed file, in its
/// tab where it has one and in what was read where it has none, is in the plan under that file's
/// path, all of it and nothing else, and with the text it was found in. So the plan has as many
/// edits as were found.
pub proof fn law_everything_that_was_found_is_planned<
    B,
    S,
    M,
    R: Fn(&PathBuf) -> Result<String, String>,
    F: Fn(&B) -> Vec<TextEdit>,
    G: Fn(&String) -> Vec<TextEdit>,
>(
    s: Session<B, S, M>,
    pattern: Result<(), String>,
    paths: Seq<PathBuf>,
    read: R,
    in_body: F,
    in_text: G,
    plan: Plan,
) -> (r: (Seq<(Vec<TextEdit>, Option<String>)>, Seq<int>))
    requires
        plans_replacements(s, pattern, paths, read, in_body, in_text, Ok(plan)),
    ensures
        pattern is Ok,
        forall|i: int|
            0 <= i < paths.len() ==> edits_for(
                s,
                paths[i],
                read,
                in_body,
                in_text,
                (#[trigger] r.0[i]).0,
                r.0[i].1,
            ),
        planned_in_full(paths, r.0, plan.list(), r.1),
{
    lemma_all_searched(s, paths, read, in_body, in_text, plan.list())
}

/// A replacement in files is refused only for a query that cannot be searched for, or for a listed
/// file that is not open and cannot be read; the refusal says which and why.
pub proof fn law_a_replacement_is_refused_for_a_reason<
    B,
    S,
    M,
    R: Fn(&PathBuf) -> Result<String, String>,
    F: Fn(&B) -> Vec<TextEdit>,
    G: Fn(&String) -> Vec<TextEdit>,
>(
    s: Session<B, S, M>,
    pattern: Result<(), String>,
    paths: Seq<PathBuf>,
    read: R,
    in_body: F,
    in_text: G,
    error: WorkspaceError,
)
    requires
        plans_replacements(s, pattern, paths, read, in_body, in_text, Err(error)),
    ensures
        match pattern {
            Err(reason) => error matches WorkspaceError::InvalidPattern(said) && said@ == reason@,
            Ok(()) => error matches WorkspaceError::Unreadable { path, reason } && exists|
                i: int,
                why: String,
            |
                {
                    &&& 0 <= i < paths.len()
                    &&& paths[i] == path
                    &&& forall|k: int| !#[trigger] holds_file(s, k, path)
                    &&& #[trigger] read.ensures((&paths[i],), Err(why))
                    &&& why@ == reason@
                },
        },
{
    if pattern is Ok {
        let (i, reason, documents) = choose|
            i: int,
            reason: String,
            documents: Seq<PlannedDocument>,
        |
            {
                &&& 0 <= i < paths.len()
                &&& #[trigger] all_searched(s, paths.take(i), read, in_body, in_text, documents)
                &&& !crate::session::bulk::is_open(s, paths[i]@)
                &&& #[trigger] read_gives(read, paths[i], Err(reason))
                &&& error@ == (crate::workspace::Fault::Unreadable {
                    path: paths[i],
                    reason: reason@,
                })
            };
        lemma_found(s, paths[i]);
        assert(read.ensures((&paths[i],), Err(reason)));
    }
}

} // verus!
