//! What undoing a shared step, reading a file again and changing settings do to a document.

use vstd::prelude::*;
#[allow(unused_imports)]
use crate::editing::{Position, SelectionSet};
#[allow(unused_imports)]
use crate::laws::picking::{lemma_picked, picked, picks};
#[allow(unused_imports)]
use crate::laws::planning::holds_file;
#[allow(unused_imports)]
use crate::path::PathBuf;
#[allow(unused_imports)]
use crate::session::bulk::{
    count_set, file_reloaded, group_text, lemma_holding, step_undone, steps_undone, tab_at_path,
    tab_reloaded, undoes_group,
};
#[allow(unused_imports)]
use crate::session::documents::{reported, toggled_wrap, with_settings};
#[allow(unused_imports)]
use crate::session::layout::{laid_out, law_laying_out_changes_sizes_alone};
#[allow(unused_imports)]
use crate::session::outcome::Outcome;
#[allow(unused_imports)]
use crate::session::state::{Document, EditorSettings, Session, Tab, WordWrap};
#[allow(unused_imports)]
use crate::session::tabs::{is_at, tab_holding, TextState};

verus! {

proof fn lemma_count(flags: Seq<bool>) -> (at: Seq<int>)
    ensures
        picks(at, flags),
        at.len() == count_set(flags),
    decreases flags.len(),
{
    if flags.len() == 0 {
        Seq::empty()
    } else {
        let rest = flags.drop_last();
        let before = lemma_count(rest);
        lemma_picked(before, rest, flags.last());
        assert(rest.push(flags.last()) =~= flags);
        picked(before, rest, flags.last())
    }
}

/// What became of one tab when a group was undone or redone.
pub open spec fn taken_back<B, S, U: Fn(&B, bool) -> Option<(TextState<B>, SelectionSet)>>(
    step: U,
    before: Document<B>,
    after: Tab<B, S>,
    redo: bool,
    done: bool,
) -> bool {
    if done {
        exists|text: TextState<B>, selections: SelectionSet|
            {
                &&& #[trigger] step.ensures((&before.body, redo), Some((text, selections)))
                &&& after.document.body == text.body
                &&& after.document.undo_group == text.undo_group
                &&& after.document.redo_group == text.redo_group
                &&& after.document.dirty
                &&& after.document.path == before.path
                &&& after.view.selections == selections
            }
    } else {
        &&& after.document.body == before.body
        &&& after.document.dirty == before.dirty
        &&& after.document.path == before.path
    }
}

/// Undoing a group takes one step back in every tab whose next step back belongs to it, and in no
/// other; redoing likewise takes one step forward. It is said in how many tabs there was such a step.
pub proof fn law_a_group_is_undone_in_every_tab<
    B,
    S,
    M,
    U: Fn(&B, bool) -> Option<(TextState<B>, SelectionSet)>,
>(
    step: U,
    before: Session<B, S, M>,
    after: Session<B, S, M>,
    group: u64,
    redo: bool,
    outcome: Outcome,
) -> (r: (Seq<bool>, Seq<int>))
    requires
        undoes_group(step, before, after, group, redo, outcome),
    ensures
        after.tabs().len() == before.tabs().len(),
        r.0.len() == before.tabs().len(),
        picks(r.1, r.0),
        outcome.says(group_text(redo, r.1.len())),
        forall|i: int|
            0 <= i < before.tabs().len() ==> taken_back(
                step,
                before.tabs()[i].document,
                after.tabs()[i],
                redo,
                #[trigger] r.0[i],
            ),
        forall|i: int|
            0 <= i < before.tabs().len() && #[trigger] r.0[i] ==> Some(group) == if redo {
                before.tabs()[i].document.redo_group
            } else {
                before.tabs()[i].document.undo_group
            },
        forall|i: int|
            0 <= i < before.tabs().len() && !#[trigger] r.0[i] && Some(group) == (if redo {
                before.tabs()[i].document.redo_group
            } else {
                before.tabs()[i].document.undo_group
            }) ==> step.ensures((&before.tabs()[i].document.body, redo), None),
{
    let (mid, flags) = choose|mid: Session<B, S, M>, flags: Seq<bool>|
        {
            &&& #[trigger] steps_undone(step, before.tabs(), mid.tabs(), group, redo, flags)
            &&& mid.left@.len() == before.left@.len()
            &&& mid == (Session { left: mid.left, active: mid.active, right: mid.right, ..before })
            &&& after == laid_out(mid)
            &&& outcome.says(group_text(redo, count_set(flags)))
        };
    law_laying_out_changes_sizes_alone(mid);
    let n = mid.left@.len() as int;
    assert(mid.tabs()[n] == mid.active);
    assert forall|i: int| 0 <= i < mid.tabs().len() implies (
    #[trigger] after.tabs()[i]).document == mid.tabs()[i].document
        && after.tabs()[i].view.selections == mid.tabs()[i].view.selections by {
        if i == n {
            assert(after.tabs()[i] == after.active);
        }
    }
    assert forall|i: int| 0 <= i < before.tabs().len() implies taken_back(
        step,
        before.tabs()[i].document,
        after.tabs()[i],
        redo,
        #[trigger] flags[i],
    ) by {
        assert(step_undone(step, before.tabs()[i], mid.tabs()[i], group, redo, flags[i]));
        assert(after.tabs()[i].document == mid.tabs()[i].document);
        if flags[i] {
            let result = choose|result: Option<(TextState<B>, SelectionSet)>|
                #[trigger] step.ensures((&before.tabs()[i].document.body, redo), result)
                    && match result {
                    None => false,
                    Some((text, selections)) => mid.tabs()[i] == (Tab {
                        document: Document {
                            relex: true,
                            dirty: true,
                            ..crate::session::tabs::with_text(before.tabs()[i].document, text)
                        },
                        view: crate::session::state::Viewport {
                            selections,
                            reveal: true,
                            ..before.tabs()[i].view
                        },
                        ..before.tabs()[i]
                    }),
                };
            let pair = result->Some_0;
            assert(step.ensures(
                (&before.tabs()[i].document.body, redo),
                Some((pair.0, pair.1)),
            ));
        }
    }
    assert forall|i: int| 0 <= i < before.tabs().len() && #[trigger] flags[i] implies Some(group)
        == if redo {
        before.tabs()[i].document.redo_group
    } else {
        before.tabs()[i].document.undo_group
    } by {
        assert(step_undone(step, before.tabs()[i], mid.tabs()[i], group, redo, flags[i]));
    }
    assert forall|i: int|
        0 <= i < before.tabs().len() && !#[trigger] flags[i] && Some(group) == (if redo {
            before.tabs()[i].document.redo_group
        } else {
            before.tabs()[i].document.undo_group
        }) implies step.ensures((&before.tabs()[i].document.body, redo), None) by {
        assert(step_undone(step, before.tabs()[i], mid.tabs()[i], group, redo, flags[i]));
    }
    let at = lemma_count(flags);
    (flags, at)
}

/// Reading a file again gives the tab that holds it, the one on screen before any other, the text the
/// file has now, and leaves the text of every other tab as it was. A language that was chosen by hand
/// stays, and so does a choice of whether lines are broken.
pub proof fn law_reading_a_file_again<
    B,
    S,
    M,
    D: Fn(&Option<String>) -> Document<B>,
    C: Fn(&B, Position) -> Position,
>(
    fresh: D,
    clamp: C,
    before: Session<B, S, M>,
    after: Session<B, S, M>,
    path: PathBuf,
) -> (r: (int, Document<B>))
    requires
        file_reloaded(fresh, clamp, before, after, path@),
        exists|k: int| #[trigger] holds_file(before, k, path),
    ensures
        after.tabs().len() == before.tabs().len(),
        holds_file(before, r.0, path),
        holds_file(before, before.left@.len() as int, path) ==> r.0 == before.left@.len(),
        fresh.ensures((&before.tabs()[r.0].document.language_id,), r.1),
        after.tabs()[r.0].document.body == r.1.body,
        after.tabs()[r.0].document.dirty == r.1.dirty,
        before.tabs()[r.0].document.language_pinned ==> after.tabs()[r.0].document.language_id
            == before.tabs()[r.0].document.language_id && after.tabs()[r.0].document.language_pinned,
        after.tabs()[r.0].document.wrap_override == before.tabs()[r.0].document.wrap_override,
        before.tabs()[r.0].document.wrap_override matches Some(wrap)
            ==> after.tabs()[r.0].document.settings.word_wrap == wrap,
        forall|k: int|
            0 <= k < before.tabs().len() && k != r.0 ==> (#[trigger] after.tabs()[k]).document
                == before.tabs()[k].document,
{
    let tabs = before.tabs();
    lemma_holding(tabs, path@);
    assert(tabs[before.left@.len() as int] == before.active);
    let held = choose|k: int| #[trigger] holds_file(before, k, path);
    assert(is_at(tabs[held].document, path@));
    let i = tab_at_path(before, path@);
    let k = tab_holding(tabs, path@);
    assert(holds_file(before, i, path));
    let mid = choose|mid: Seq<Tab<B, S>>|
        {
            &&& mid.len() == before.tabs().len()
            &&& #[trigger] tab_reloaded(fresh, clamp, before.tabs()[i], mid[i])
            &&& mid == before.tabs().update(i, mid[i])
            &&& after.tabs() == mid.update(k, after.tabs()[k])
            &&& after.tabs()[k].document == mid[k].document
        };
    let (document, cursor) = choose|document: Document<B>, cursor: Position|
        {
            &&& #[trigger] fresh.ensures((&tabs[i].document.language_id,), document)
            &&& #[trigger] clamp.ensures(
                (&document.body, tabs[i].view.selections.primary.active),
                cursor,
            )
            &&& mid[i].document == crate::session::bulk::reloaded(tabs[i].document, document)
        };
    assert(after.tabs()[i].document == mid[i].document);
    assert forall|j: int| 0 <= j < tabs.len() && j != i implies (
    #[trigger] after.tabs()[j]).document == tabs[j].document by {
        assert(mid[j] == tabs[j]);
    }
    (i, document)
}

/// Settings apply as they are set, but for what the file's own indentation says where that is to be
/// looked for, and for a choice of whether lines are broken, which outranks them. A file indented
/// with tabs says nothing of how wide one is.
pub proof fn law_what_outranks_the_settings<B>(document: Document<B>, settings: EditorSettings)
    ensures
        ({
            let now = with_settings(document, settings).settings;
            let own = document.indentation;
            &&& !settings.detect_indentation || own is None ==> now.tab_size == settings.tab_size
                && now.insert_spaces == settings.insert_spaces
            &&& settings.detect_indentation && own is Some && own->Some_0 is Tabs
                ==> !now.insert_spaces && now.tab_size == settings.tab_size
            &&& settings.detect_indentation && own is Some && own->Some_0 is Spaces
                ==> now.insert_spaces && now.tab_size == own->Some_0->Spaces_0
            &&& document.wrap_override is Some ==> now.word_wrap == document.wrap_override->Some_0
            &&& document.wrap_override is None ==> now.word_wrap == settings.word_wrap
            &&& now.insert_final_newline == settings.insert_final_newline
            &&& with_settings(document, settings).indentation_overridden == (now.tab_size
                != settings.tab_size || now.insert_spaces != settings.insert_spaces)
            &&& with_settings(document, settings).body == document.body
            &&& with_settings(document, settings).path == document.path
            &&& with_settings(document, settings).dirty == document.dirty
        }),
{
}

/// A problem is reported once: behind those that are known, unless it is one of them.
pub proof fn law_a_problem_is_reported_once(problems: Seq<Seq<char>>, problem: Seq<char>)
    ensures
        reported(problems, None) == problems,
        reported(problems, Some(problem)).contains(problem),
        problems.contains(problem) ==> reported(problems, Some(problem)) == problems,
        !problems.contains(problem) ==> reported(problems, Some(problem)) == problems.push(problem),
        reported(reported(problems, Some(problem)), Some(problem)) == reported(
            problems,
            Some(problem),
        ),
{
    let more = problems.push(problem);
    assert(more[more.len() - 1] == problem);
    assert(more.contains(problem));
}

/// Toggling stops breaking lines where they are broken; where they are not, it breaks them as is
/// configured, and at the edge of the view where that says not to.
pub proof fn law_what_toggling_leads_to(configured: WordWrap)
    ensures
        toggled_wrap(true, configured) == WordWrap::Off,
        toggled_wrap(false, configured) != WordWrap::Off,
        configured != WordWrap::Off ==> toggled_wrap(false, configured) == configured,
        toggled_wrap(false, WordWrap::Off) == WordWrap::On,
{
}

} // verus!
