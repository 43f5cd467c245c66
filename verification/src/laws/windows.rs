//! Which tabs there are, in what order, and which one is on screen.

use vstd::prelude::*;
#[allow(unused_imports)]
use crate::editing::Direction;
#[allow(unused_imports)]
use crate::laws::picking::{lemma_picked, picked, picks};
#[allow(unused_imports)]
use crate::laws::planning::holds_file;
#[allow(unused_imports)]
use crate::laws::saving::dirty_marks;
#[allow(unused_imports)]
use crate::path::{Part, PathBuf};
#[allow(unused_imports)]
use crate::session::bulk::lemma_holding;
#[allow(unused_imports)]
use crate::session::layout::{laid_out, law_laying_out_changes_sizes_alone};
#[allow(unused_imports)]
use crate::session::outcome::Outcome;
#[allow(unused_imports)]
use crate::session::state::{Document, Session, Tab, Viewport};
#[allow(unused_imports)]
use crate::session::tabs::{
    carried_find, closes_tab, is_at, labels_of, law_switching_keeps_the_tabs, newly_shown, opened,
    pristine, quits, switched, tab_beside, tab_holding, title_of, unsaved_titles,
};

verus! {

/// The documents of the tabs, in order.
pub open spec fn documents_of<B, S>(tabs: Seq<Tab<B, S>>) -> Seq<Document<B>> {
    Seq::new(tabs.len(), |i: int| tabs[i].document)
}

/// Whether a document was never saved and never typed into.
pub open spec fn is_blank<B>(document: Document<B>) -> bool {
    document.path is None && !document.dirty && document.empty
}

/// A file that a tab holds comes on screen in the first tab that does, with its document as it is
/// there, and no tab comes or goes.
pub proof fn law_an_open_file_comes_on_screen<B, S, M>(
    before: Session<B, S, M>,
    after: Session<B, S, M>,
    document: Document<B>,
    k: int,
)
    requires
        opened(before, after, document),
        document.path is Some,
        holds_file(before, k, document.path->Some_0),
        forall|j: int| 0 <= j < k ==> !#[trigger] holds_file(before, j, document.path->Some_0),
    ensures
        documents_of(after.tabs()) == documents_of(before.tabs()),
        after.left@.len() == k,
        after.active.document == before.tabs()[k].document,
{
    let path = document.path->Some_0;
    lemma_holding(before.tabs(), path@);
    let i = tab_holding(before.tabs(), path@);
    assert(is_at(before.tabs()[k].document, path@));
    if i < k {
        assert(holds_file(before, i, path));
    }
    assert(i == k);
    assert forall|j: int| 0 <= j < before.tabs().len() implies after.tabs()[j].document
        == before.tabs()[j].document by {
        law_switching_keeps_the_tabs(before, after, k, j);
    }
    law_switching_keeps_the_tabs(before, after, k, k);
    assert(after.tabs()[k] == after.active);
    assert(documents_of(after.tabs()) =~= documents_of(before.tabs()));
}

/// A file that no tab holds comes on screen in a tab of its own, right behind the one that was on
/// screen, and every other tab stays; only a document that was never saved and never typed into
/// gives way to it.
pub proof fn law_another_file_gets_a_tab<B, S, M>(
    before: Session<B, S, M>,
    after: Session<B, S, M>,
    document: Document<B>,
)
    requires
        opened(before, after, document),
        document.path is Some ==> forall|k: int| !#[trigger]
            holds_file(before, k, document.path->Some_0),
    ensures
        after.active.document == document,
        after.right@ == before.right@,
        after.left@ == if is_blank(before.active.document) {
            before.left@
        } else {
            before.left@.push(before.active)
        },
{
    if document.path is Some {
        let path = document.path->Some_0;
        lemma_holding(before.tabs(), path@);
        let i = tab_holding(before.tabs(), path@);
        if i < before.tabs().len() {
            assert(holds_file(before, i, path));
        }
    }
    let (tab, left) = choose|tab: Tab<B, S>, left: Vec<Tab<B, S>>|
        {
            &&& newly_shown(
                tab,
                document,
                before.active.view.width,
                before.active.view.height,
            )
            &&& carried_find(tab.find, before.active.find, pristine(before.active.document))
            &&& left@ == if pristine(before.active.document) {
                before.left@
            } else {
                before.left@.push(before.active)
            }
            &&& after == #[trigger] laid_out(Session { active: tab, left, ..before })
        };
    law_laying_out_changes_sizes_alone(Session { active: tab, left, ..before });
}

/// Switching to a tab puts its document on screen, and keeps all of them in order.
pub proof fn law_switching_shows_that_tab<B, S, M>(
    before: Session<B, S, M>,
    after: Session<B, S, M>,
    index: int,
)
    requires
        switched(before, after, index),
        0 <= index < before.tabs().len(),
    ensures
        after.left@.len() == index,
        after.active.document == before.tabs()[index].document,
        after.active.view.selections == before.tabs()[index].view.selections,
        after.active.view.scroll_top == before.tabs()[index].view.scroll_top,
        documents_of(after.tabs()) == documents_of(before.tabs()),
{
    assert forall|j: int| 0 <= j < before.tabs().len() implies after.tabs()[j].document
        == before.tabs()[j].document by {
        law_switching_keeps_the_tabs(before, after, index, j);
    }
    law_switching_keeps_the_tabs(before, after, index, index);
    assert(after.tabs()[index] == after.active);
    assert(documents_of(after.tabs()) =~= documents_of(before.tabs()));
    if index != before.left@.len() {
        let all = before.tabs();
        law_laying_out_changes_sizes_alone(
            Session {
                left: after.left,
                right: after.right,
                active: crate::session::tabs::brought(all[index], before.active),
                ..before
            },
        );
    } else {
        assert(before.tabs()[index] == before.active);
    }
}

/// The next tab is the one behind, and the first behind the last; the previous one is the one
/// before, and the last before the first.
pub proof fn law_which_tab_is_beside(active: int, count: int)
    requires
        0 <= active < count,
    ensures
        tab_beside(active, count, Direction::Next) == if active == count - 1 {
            0
        } else {
            active + 1
        },
        tab_beside(active, count, Direction::Prev) == if active == 0 {
            count - 1
        } else {
            active - 1
        },
{
    if active == count - 1 {
        assert((active + 1) % count == 0) by (nonlinear_arith)
            requires
                active + 1 == count,
                count > 0,
        ;
    } else {
        assert((active + 1) % count == active + 1) by (nonlinear_arith)
            requires
                0 <= active + 1 < count,
        ;
    }
    if active == 0 {
        assert((active + count - 1) % count == count - 1) by (nonlinear_arith)
            requires
                active == 0,
                count > 0,
        ;
    } else {
        assert((active + count - 1) % count == active - 1) by (nonlinear_arith)
            requires
                0 <= active - 1 < count,
                count > 0,
        ;
    }
}

/// Closing a tab that has nothing unsaved takes that document away and no other, and brings the one
/// behind it on screen, or, where it was the last, the one before it; and a tab with unsaved changes
/// is not closed.
pub proof fn law_closing_takes_one_document_away<B, S, M>(
    before: Session<B, S, M>,
    after: Session<B, S, M>,
    blank: Document<B>,
    outcome: Outcome,
)
    requires
        closes_tab(before, after, blank, outcome),
    ensures
        before.active.document.dirty ==> after == before,
        !before.active.document.dirty && before.tabs().len() > 1 ==> {
            let n = before.left@.len() as int;
            &&& documents_of(after.tabs()) == documents_of(before.tabs()).remove(n)
            &&& after.left@.len() == if n < before.tabs().len() - 1 {
                n
            } else {
                n - 1
            }
        },
        !before.active.document.dirty && before.tabs().len() == 1 ==> documents_of(after.tabs())
            == seq![blank],
{
    if !before.active.document.dirty {
        let (tab, left, right) = choose|tab: Tab<B, S>, left: Vec<Tab<B, S>>, right: Vec<Tab<B, S>>|
            {
                &&& if before.right@.len() > 0 {
                    &&& tab == before.right@[0]
                    &&& left@ == before.left@
                    &&& right@ == before.right@.skip(1)
                } else if before.left@.len() > 0 {
                    &&& tab == before.left@.last()
                    &&& left@ == before.left@.drop_last()
                    &&& right@ == before.right@
                } else {
                    &&& newly_shown(tab, blank, 0, 0)
                    &&& tab.find.is_new()
                    &&& left@ == before.left@
                    &&& right@ == before.right@
                }
                &&& after == #[trigger] laid_out(
                    Session {
                        active: Tab {
                            view: Viewport {
                                width: before.active.view.width,
                                height: before.active.view.height,
                                ..tab.view
                            },
                            ..tab
                        },
                        left,
                        right,
                        ..before
                    },
                )
            };
        let made = Session {
            active: Tab {
                view: Viewport {
                    width: before.active.view.width,
                    height: before.active.view.height,
                    ..tab.view
                },
                ..tab
            },
            left,
            right,
            ..before
        };
        law_laying_out_changes_sizes_alone(made);
        let n = before.left@.len() as int;
        if before.tabs().len() > 1 {
            assert(documents_of(after.tabs()) =~= documents_of(before.tabs()).remove(n));
        } else {
            assert(documents_of(after.tabs()) =~= seq![blank]);
        }
    }
}

/// The title of a document is the name of its file.
pub proof fn law_a_document_is_called_after_its_file(path: PathBuf, name: Seq<char>)
    requires
        path@.len() > 0,
        path@.last() == Part::Name(name),
    ensures
        title_of(Some(path)) == name,
{
}

/// Every tab has a label, with its own title, whether it has unsaved changes, and whether it is the
/// one on screen.
pub proof fn law_every_tab_has_its_label<B, S>(tabs: Seq<Tab<B, S>>, active: int, i: int)
    requires
        0 <= i < tabs.len(),
    ensures
        labels_of(tabs, active).len() == tabs.len(),
        labels_of(tabs, active)[i].title == title_of(tabs[i].document.path),
        labels_of(tabs, active)[i].dirty == tabs[i].document.dirty,
        labels_of(tabs, active)[i].active == (i == active),
{
}

proof fn lemma_titles<B, S>(tabs: Seq<Tab<B, S>>) -> (at: Seq<int>)
    ensures
        picks(at, dirty_marks(tabs)),
        at.len() == unsaved_titles(tabs).len(),
        forall|k: int|
            0 <= k < at.len() ==> unsaved_titles(tabs)[k] == title_of(
                tabs[#[trigger] at[k]].document.path,
            ),
    decreases tabs.len(),
{
    if tabs.len() == 0 {
        Seq::empty()
    } else {
        let rest = tabs.drop_last();
        let before = lemma_titles(rest);
        let dirty = tabs.last().document.dirty;
        lemma_picked(before, dirty_marks(rest), dirty);
        assert(dirty_marks(tabs) =~= dirty_marks(rest).push(dirty));
        let at = picked(before, dirty_marks(rest), dirty);
        assert forall|k: int| 0 <= k < at.len() implies unsaved_titles(tabs)[k] == title_of(
            tabs[#[trigger] at[k]].document.path,
        ) by {
            if k < before.len() {
                assert(at[k] == before[k]);
                assert(rest[before[k]] == tabs[before[k]]);
            }
        }
        at
    }
}

/// The session ends at once where no tab has unsaved changes, and otherwise only where it was
/// refused just before; where it is refused, every document with unsaved changes is named, in the
/// order of the tabs.
pub proof fn law_when_a_session_ends<B, S, M>(
    before: Session<B, S, M>,
    after: Session<B, S, M>,
    outcome: Outcome,
) -> (at: Seq<int>)
    requires
        quits(before, after, outcome),
    ensures
        outcome is Quit <==> before.quit_refused || forall|i: int|
            0 <= i < before.tabs().len() ==> !(#[trigger] before.tabs()[i]).document.dirty,
        after.quit_refused <==> !(outcome is Quit),
        after.tabs() == before.tabs(),
        picks(at, dirty_marks(before.tabs())),
        at.len() == unsaved_titles(before.tabs()).len(),
        forall|k: int|
            0 <= k < at.len() ==> unsaved_titles(before.tabs())[k] == title_of(
                before.tabs()[#[trigger] at[k]].document.path,
            ),
        !(outcome is Quit) ==> outcome.says(
            crate::session::tabs::quit_text(unsaved_titles(before.tabs())),
        ),
{
    let tabs = before.tabs();
    let at = lemma_titles(tabs);
    if at.len() > 0 {
        assert(dirty_marks(tabs)[at[0]]);
        assert(tabs[at[0]].document.dirty);
    } else {
        assert forall|i: int| 0 <= i < tabs.len() implies !(#[trigger] tabs[i]).document.dirty by {
            if tabs[i].document.dirty {
                assert(dirty_marks(tabs)[i]);
                assert(at.contains(i));
            }
        }
    }
    at
}

} // verus!
