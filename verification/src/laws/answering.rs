//! What an answer to a question leads to.

use vstd::prelude::*;
#[allow(unused_imports)]
use crate::editing::Position;
#[allow(unused_imports)]
use crate::session::outcome::Outcome;
#[allow(unused_imports)]
use crate::session::prompts::{
    accepts, consent_choices, language_choices, Accepted, Answer, AUTO_LANGUAGE, CONSENT_ALLOW,
    CONSENT_DENY,
};
#[allow(unused_imports)]
use crate::session::scm::{checkout_choices, CheckoutPlan};
#[allow(unused_imports)]
use crate::session::state::{PaletteEntry, PromptKind, Session};
#[allow(unused_imports)]
use crate::text::{lower_of, trim_of};

verus! {

/// Whether an answer came to nothing but words.
pub open spec fn came_to_words(accepted: Accepted) -> bool {
    accepted is Done && accepted->Done_0 is Message
}

/// What is chosen from a list is what happens to it: a command runs, a file is opened at the chosen
/// place, a branch is previewed, an action is taken, a remembered answer is forgotten.
pub proof fn law_what_is_chosen_happens<B, S, M, C: Fn(Position) -> Position>(
    before: Session<B, S, M>,
    after: Session<B, S, M>,
    answer: Answer,
    clamp: C,
    accepted: Accepted,
    entry: PaletteEntry,
)
    requires
        accepts(before, after, answer, clamp, accepted),
        before.prompt is Some,
        answer.selected == Some(entry),
    ensures
        ({
            let kind = before.prompt->Some_0.kind;
            &&& kind == PromptKind::Commands ==> accepted == Accepted::Run(entry.id)
            &&& kind == PromptKind::Branches ==> accepted == Accepted::Done(
                Outcome::GitCheckoutPreview(entry.id),
            )
            &&& kind == PromptKind::CodeActions ==> accepted == Accepted::Done(
                Outcome::CodeAction(entry.id),
            )
            &&& kind == PromptKind::ExtensionPermissions ==> accepted == Accepted::Done(
                Outcome::ForgetExtensionPermission(entry.id),
            )
            &&& kind == PromptKind::Files || kind == PromptKind::SearchResults || kind
                == PromptKind::Symbols ==> accepted is Done && accepted->Done_0 is OpenFile
                && accepted->Done_0->OpenFile_path.text@ == entry.id@
                && accepted->Done_0->OpenFile_at == entry.at
            &&& kind == PromptKind::Themes ==> accepted is Done && accepted->Done_0 is LoadTheme
                && accepted->Done_0->label == entry.title && (accepted->Done_0->LoadTheme_path
                is None) == (entry.id@.len() == 0) && (entry.id@.len() > 0
                ==> accepted->Done_0->LoadTheme_path->Some_0.text@ == entry.id@)
            &&& kind == PromptKind::Commands || kind == PromptKind::Files || kind
                == PromptKind::Branches || kind == PromptKind::Themes || kind
                == PromptKind::Languages || kind == PromptKind::ExtensionConsent || kind
                == PromptKind::ConfirmCheckout ==> after == (Session { prompt: None, ..before })
        }),
{
}

/// Where a list was filtered until nothing was left, the answer comes to words alone.
pub proof fn law_nothing_is_chosen_for_the_user<B, S, M, C: Fn(Position) -> Position>(
    before: Session<B, S, M>,
    after: Session<B, S, M>,
    answer: Answer,
    clamp: C,
    accepted: Accepted,
)
    requires
        accepts(before, after, answer, clamp, accepted),
        before.prompt is Some,
        answer.selected is None,
        ({
            let kind = before.prompt->Some_0.kind;
            ||| kind == PromptKind::Commands
            ||| kind == PromptKind::Files
            ||| kind == PromptKind::Branches
            ||| kind == PromptKind::ConfirmCheckout
            ||| kind == PromptKind::CodeActions
            ||| kind == PromptKind::ExtensionPermissions
            ||| kind == PromptKind::ExtensionConsent
            ||| kind == PromptKind::Themes
            ||| kind == PromptKind::Languages
            ||| kind == PromptKind::SearchResults
            ||| kind == PromptKind::Symbols
        }),
    ensures
        came_to_words(accepted),
        after == (Session { prompt: None, ..before }),
{
}

/// Of the choices that a switch is confirmed with, the first stays on the branch and the second
/// switches to the planned one.
pub proof fn law_a_confirmed_switch_goes_to_its_branch<B, S, M, C: Fn(Position) -> Position>(
    before: Session<B, S, M>,
    after: Session<B, S, M>,
    answer: Answer,
    clamp: C,
    accepted: Accepted,
    plan: CheckoutPlan,
)
    requires
        accepts(before, after, answer, clamp, accepted),
        before.prompt is Some,
        before.prompt->Some_0.kind == PromptKind::ConfirmCheckout,
        answer.selected is Some,
        plan.target@ != "cancel"@,
    ensures
        checkout_choices(plan).len() == 2,
        answer.selected->Some_0@ == checkout_choices(plan)[0] ==> came_to_words(accepted),
        answer.selected->Some_0@ == checkout_choices(plan)[1] ==> accepted is Done
            && accepted->Done_0 is GitOperation && accepted->Done_0->GitOperation_0 is Checkout
            && accepted->Done_0->GitOperation_0->Checkout_0@ == plan.target@,
{
}

/// Of the choices that an extension's request is put with, the first allows it and the second does
/// not.
pub proof fn law_a_request_is_allowed_by_its_first_choice<B, S, M, C: Fn(Position) -> Position>(
    before: Session<B, S, M>,
    after: Session<B, S, M>,
    answer: Answer,
    clamp: C,
    accepted: Accepted,
    what: Seq<char>,
)
    requires
        accepts(before, after, answer, clamp, accepted),
        before.prompt is Some,
        before.prompt->Some_0.kind == PromptKind::ExtensionConsent,
        answer.selected is Some,
    ensures
        consent_choices(what).len() == 2,
        consent_choices(what)[0].title == "Allow — "@ + what,
        answer.selected->Some_0@ == consent_choices(what)[0] ==> accepted == Accepted::Done(
            (Outcome::ExtensionConsent { allow: true }),
        ),
        answer.selected->Some_0@ == consent_choices(what)[1] ==> accepted == Accepted::Done(
            (Outcome::ExtensionConsent { allow: false }),
        ),
{
    reveal_strlit("allow");
    reveal_strlit("deny");
    assert(CONSENT_ALLOW@.len() != CONSENT_DENY@.len());
}

/// Of the languages that are offered, the first choice has the name of the file decide, and each of
/// the others is the language at its place.
pub proof fn law_a_language_is_chosen_by_its_place<B, S, M, C: Fn(Position) -> Position>(
    before: Session<B, S, M>,
    after: Session<B, S, M>,
    answer: Answer,
    clamp: C,
    accepted: Accepted,
    implied: Option<Seq<char>>,
    languages: Seq<(Seq<char>, Seq<char>)>,
    i: int,
)
    requires
        accepts(before, after, answer, clamp, accepted),
        before.prompt is Some,
        before.prompt->Some_0.kind == PromptKind::Languages,
        answer.selected is Some,
        0 <= i < languages.len(),
        languages[i].0 != AUTO_LANGUAGE@,
    ensures
        language_choices(implied, languages).len() == languages.len() + 1,
        language_choices(implied, languages)[i + 1].title == languages[i].1,
        answer.selected->Some_0@ == language_choices(implied, languages)[0] ==> accepted
            == Accepted::Language(None),
        answer.selected->Some_0@ == language_choices(implied, languages)[i + 1] ==> accepted
            is Language && accepted->Language_0 is Some && accepted->Language_0->Some_0@
            == languages[i].0,
{
}

/// Where what is found is to be replaced, the text that is answered after the query is what it is
/// replaced by, under the options that are set.
pub proof fn law_a_query_is_replaced_by_the_next_answer<B, S, M, C: Fn(Position) -> Position>(
    before: Session<B, S, M>,
    middle: Session<B, S, M>,
    after: Session<B, S, M>,
    query: Answer,
    replacement: Answer,
    clamp: C,
    first: Accepted,
    second: Accepted,
)
    requires
        before.prompt is Some,
        before.prompt->Some_0.kind == PromptKind::SearchQuery,
        before.search.replacing_in_files,
        query.text@.len() > 0,
        query.unsearchable is None,
        accepts(before, middle, query, clamp, first),
        accepts(middle, after, replacement, clamp, second),
    ensures
        first == Accepted::Done(Outcome::Handled),
        middle.prompt is Some,
        middle.prompt->Some_0.kind == PromptKind::ReplaceQuery,
        second == Accepted::Done(
            (Outcome::ReplaceInFiles {
                query: query.text,
                replacement: replacement.text,
                options: before.search.options,
            }),
        ),
        after.prompt is None,
        !after.search.replacing_in_files,
{
}

/// Where it is only to be found, the workspace is searched for what was typed as it is, under the
/// options that are set; what cannot be searched for comes to words, and replacing is called off.
pub proof fn law_what_is_typed_is_searched_for<B, S, M, C: Fn(Position) -> Position>(
    before: Session<B, S, M>,
    after: Session<B, S, M>,
    answer: Answer,
    clamp: C,
    accepted: Accepted,
)
    requires
        accepts(before, after, answer, clamp, accepted),
        before.prompt is Some,
        before.prompt->Some_0.kind == PromptKind::SearchQuery,
    ensures
        answer.text@.len() == 0 || answer.unsearchable is Some ==> came_to_words(accepted)
            && !after.search.replacing_in_files && after.prompt is None,
        answer.text@.len() > 0 && answer.unsearchable is None
            && !before.search.replacing_in_files ==> accepted == Accepted::Done(
            (Outcome::SearchInFiles { query: answer.text, options: before.search.options }),
        ),
{
}

/// What is typed is taken for what was asked: an entry of that kind and name is made, the selected
/// one gets that name, the staged changes are committed under that message, and the document is
/// written there, or the file there opened. Around a message, a name in the text and a path, space
/// does not count, and nothing but space comes to words.
pub proof fn law_what_is_typed_is_taken<B, S, M, C: Fn(Position) -> Position>(
    before: Session<B, S, M>,
    after: Session<B, S, M>,
    answer: Answer,
    clamp: C,
    accepted: Accepted,
)
    requires
        accepts(before, after, answer, clamp, accepted),
        before.prompt is Some,
    ensures
        ({
            let kind = before.prompt->Some_0.kind;
            let bare = trim_of(answer.text@);
            &&& kind == PromptKind::NewFile ==> accepted == (Accepted::Create {
                name: answer.text,
                folder: false,
            })
            &&& kind == PromptKind::NewFolder ==> accepted == (Accepted::Create {
                name: answer.text,
                folder: true,
            })
            &&& kind == PromptKind::RenameFile ==> accepted == Accepted::RenameFile(answer.text)
            &&& kind == PromptKind::CommitMessage && bare.len() > 0 ==> accepted is Done
                && accepted->Done_0 is GitOperation && accepted->Done_0->GitOperation_0 is Commit
                && accepted->Done_0->GitOperation_0->Commit_0@ == bare
            &&& kind == PromptKind::SaveAs && bare.len() > 0 ==> accepted is Done
                && accepted->Done_0 is SaveAs && accepted->Done_0->SaveAs_0.text@ == bare
            &&& kind == PromptKind::OpenPath && bare.len() > 0 ==> accepted is Done
                && accepted->Done_0 is OpenFile && accepted->Done_0->OpenFile_path.text@ == bare
                && accepted->Done_0->OpenFile_at is None
            &&& kind == PromptKind::Rename && bare.len() > 0 && (answer.name_under_caret is None
                || answer.name_under_caret->Some_0@ != bare) ==> accepted is Done
                && accepted->Done_0 is Rename && accepted->Done_0->new_name@ == bare
            &&& kind == PromptKind::Rename && answer.name_under_caret is Some
                && answer.name_under_caret->Some_0@ == bare ==> came_to_words(accepted)
            &&& (kind == PromptKind::CommitMessage || kind == PromptKind::SaveAs || kind
                == PromptKind::OpenPath || kind == PromptKind::Rename) && bare.len() == 0
                ==> came_to_words(accepted)
            &&& kind == PromptKind::ConfirmDelete ==> if lower_of(bare) == "y"@ {
                accepted is Delete
            } else {
                came_to_words(accepted)
            }
        }),
{
}

} // verus!
