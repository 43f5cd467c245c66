//! Which language and which settings a document gets, and what saving and reverting make of it.

use vstd::prelude::*;
#[allow(unused_imports)]
use crate::editing::Position;
#[allow(unused_imports)]
use crate::path::PathBuf;
#[allow(unused_imports)]
use crate::session::documents::{
    asks_to_revert, in_language, language_put, renames_to, reverts, saved_as, sets_language,
    with_settings, wrap_column, wrapped, Language, Languages, WrapColumns,
};
#[allow(unused_imports)]
use crate::session::layout::refreshed;
#[allow(unused_imports)]
use crate::session::outcome::Outcome;
#[allow(unused_imports)]
use crate::session::state::{Document, EditorSettings, Session, Tab, WordWrap};
#[allow(unused_imports)]
use crate::session::tabs::TextState;

verus! {

/// A document is put into the language that was chosen, and keeps it whatever its file is called; or
/// else into the one that the name of its file implies, and into none without a file. The settings
/// are those for that language. The text stays.
pub proof fn law_which_language_a_document_gets<
    B,
    S,
    M,
    I: Fn(&PathBuf) -> Option<String>,
    T: Fn(&String) -> String,
    E: Fn(&Option<String>) -> EditorSettings,
>(
    languages: Languages<I, T, E>,
    before: Session<B, S, M>,
    after: Session<B, S, M>,
    chosen: Option<String>,
    outcome: Outcome,
) -> (r: EditorSettings)
    requires
        sets_language(languages, before, after, chosen, outcome),
    ensures
        chosen is Some ==> after.active.document.language_id == chosen
            && after.active.document.language_pinned,
        chosen is None && before.active.document.path is Some ==> languages.implied.ensures(
            (&before.active.document.path->Some_0,),
            after.active.document.language_id,
        ) && !after.active.document.language_pinned,
        chosen is None && before.active.document.path is None ==> after.active.document.language_id
            is None && !after.active.document.language_pinned,
        languages.settings.ensures((&after.active.document.language_id,), r),
        after.active.document.settings == with_settings(before.active.document, r).settings,
        after.active.document.body == before.active.document.body,
        after.active.document.dirty == before.active.document.dirty,
        after.active.document.path == before.active.document.path,
        after.left == before.left,
        after.right == before.right,
{
    let (language, mid) = choose|language: Language, mid: Session<B, S, M>|
        {
            &&& match chosen {
                Some(_) => language.id == chosen,
                None => languages.implies(before.active.document.path, language.id),
            }
            &&& languages.finds(language)
            &&& #[trigger] language_put(before, mid, language, chosen is Some)
            &&& #[trigger] refreshed(mid, after)
            &&& outcome.says(
                crate::session::documents::language_text(
                    if language.id is Some {
                        Some(language.title@)
                    } else {
                        None
                    },
                ),
            )
        };
    language.settings
}

/// Saving under a path gives the document that path and leaves nothing unsaved in it. A language that
/// was chosen by hand stays; else the document gets the one that the path implies. Its settings are
/// those for its language, and its text stays.
pub proof fn law_what_saving_under_a_path_changes<
    B,
    S,
    M,
    I: Fn(&PathBuf) -> Option<String>,
    T: Fn(&String) -> String,
    E: Fn(&Option<String>) -> EditorSettings,
>(
    languages: Languages<I, T, E>,
    before: Session<B, S, M>,
    after: Session<B, S, M>,
    path: PathBuf,
) -> (r: EditorSettings)
    requires
        renames_to(languages, before, after, path),
    ensures
        after.active.document.path == Some(path),
        !after.active.document.dirty,
        after.active.document.body == before.active.document.body,
        before.active.document.language_pinned ==> after.active.document.language_id
            == before.active.document.language_id,
        !before.active.document.language_pinned ==> languages.implied.ensures(
            (&path,),
            after.active.document.language_id,
        ),
        after.active.document.language_pinned == before.active.document.language_pinned,
        languages.settings.ensures((&after.active.document.language_id,), r),
        after.active.document.settings == with_settings(before.active.document, r).settings,
        after.scm.wanted,
        after.left == before.left,
        after.right == before.right,
{
    let moved = Document { path: Some(path), ..before.active.document };
    let (document, settings) = choose|document: Document<B>, settings: EditorSettings|
        {
            &&& if moved.language_pinned {
                document == moved
            } else {
                &&& document == in_language(moved, document.language_id, false)
                &&& languages.implies(Some(path), document.language_id)
            }
            &&& languages.settings.ensures((&document.language_id,), settings)
            &&& #[trigger] saved_as(before, after, with_settings(document, settings))
        };
    settings
}

/// Only a document with unsaved changes is reverted: one that has a file by reading that again, and
/// whether it is to be closed then is kept in mind.
pub proof fn law_what_reverting_asks_for<B, S, M>(
    before: Session<B, S, M>,
    after: Session<B, S, M>,
    and_close: bool,
    outcome: Option<Outcome>,
)
    requires
        asks_to_revert(before, after, and_close, outcome),
    ensures
        !before.active.document.dirty ==> outcome is Some && outcome->Some_0 is Message && after
            == before,
        before.active.document.dirty && before.active.document.path is Some ==> outcome is Some
            && outcome->Some_0 is Revert && after.pending_close == and_close,
        before.active.document.dirty && before.active.document.path is None ==> outcome is None,
        after.active == before.active,
        after.left == before.left,
        after.right == before.right,
{
}

/// A document that is reverted has the text it is reverted to, nothing unsaved, and one caret; the
/// other documents stay, and it is not closed unless that was asked for.
pub proof fn law_what_a_reverted_document_holds<B, S, M>(
    before: Session<B, S, M>,
    after: Session<B, S, M>,
    text: TextState<B>,
    cursor: Position,
    blank: Document<B>,
    outcome: Outcome,
)
    requires
        reverts(before, after, text, cursor, blank, outcome),
        !before.pending_close,
    ensures
        after.active.document.body == text.body,
        !after.active.document.dirty,
        after.active.document.path == before.active.document.path,
        after.active.view.selections.primary.anchor == cursor,
        after.active.view.selections.primary.active == cursor,
        after.active.view.selections.others@.len() == 0,
        after.left == before.left,
        after.right == before.right,
        outcome is Message,
{
}

/// How lines are broken decides at which column: each way has a column of its own.
pub proof fn law_where_lines_are_broken(columns: WrapColumns)
    ensures
        wrap_column(columns, WordWrap::Off) == columns.off,
        wrap_column(columns, WordWrap::On) == columns.on,
        wrap_column(columns, WordWrap::WordWrapColumn) == columns.column,
        wrap_column(columns, WordWrap::Bounded) == columns.bounded,
{
}

/// What is chosen from the keyboard outlives a change of settings, and changes no text.
pub proof fn law_a_chosen_wrap_outlives_other_settings<B, S>(
    tab: Tab<B, S>,
    wanted: WordWrap,
    settings: EditorSettings,
)
    ensures
        wrapped(tab, wanted).document.settings.word_wrap == wanted,
        with_settings(wrapped(tab, wanted).document, settings).settings.word_wrap == wanted,
        wrapped(tab, wanted).document.body == tab.document.body,
        wrapped(tab, wanted).document.dirty == tab.document.dirty,
        wrapped(tab, wanted).view == tab.view,
{
}

} // verus!
