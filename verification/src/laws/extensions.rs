//! When extensions are started, and what they are listed with.

use vstd::prelude::*;
#[allow(unused_imports)]
use crate::activation::{event_of, fires_plainly, Event, Trigger};
#[allow(unused_imports)]
use crate::capability::{verdict_on, Ability, Standing, Verdict};
#[allow(unused_imports)]
use crate::catalogue::{
    chosen, command_owner, index_of, kept_commands, lemma_listed_none, lemma_owner_none, listed,
    offers_command, runnable_only, Installed, Listing,
};
#[allow(unused_imports)]
use crate::connection::{course_of, first_denial, first_question, Course};
#[allow(unused_imports)]
use crate::laws::asking::law_a_text_is_cut_at_the_first_separator;
#[allow(unused_imports)]
use crate::laws::picking::{lemma_picked, picked, picks};
#[allow(unused_imports)]
use crate::manifest::{CommandContribution, Manifest};
#[allow(unused_imports)]
use crate::path::PathBuf;
#[allow(unused_imports)]
use crate::protocol::ErrorCode;
#[allow(unused_imports)]
use crate::text::{blank, split_at_char, trim_of, view_of};

verus! {

/// A text with a kind in front of it, and a colon between.
pub open spec fn of_kind(kind: Seq<char>, value: Seq<char>) -> Seq<char> {
    kind + seq![':'] + value
}

/// What stands behind the first colon is what an event waits for, whatever it is, another colon
/// included.
pub proof fn law_events_are_read_by_their_kind(text: Seq<char>, value: Seq<char>)
    ensures
        trim_of(text) == of_kind("onLanguage"@, value) ==> event_of(text) == Event::Language(value),
        trim_of(text) == of_kind("onCommand"@, value) ==> event_of(text) == Event::Command(value),
        trim_of(text) == of_kind("workspaceContains"@, value) ==> event_of(text)
            == Event::WorkspaceContains(value),
        trim_of(text) == of_kind("onFileSystem"@, value) ==> event_of(text) == Event::FileSystem(
            value,
        ),
        trim_of(text) == of_kind("onView"@, value) ==> event_of(text) == Event::View(value),
        trim_of(text) == "*"@ ==> event_of(text) == Event::Always,
        trim_of(text) == "onStartupFinished"@ ==> event_of(text) == Event::StartupFinished,
        trim_of(text) == "onUri"@ ==> event_of(text) == Event::Uri,
{
    reveal_strlit("*");
    reveal_strlit("onStartupFinished");
    reveal_strlit("onUri");
    reveal_strlit("onLanguage");
    reveal_strlit("onCommand");
    reveal_strlit("workspaceContains");
    reveal_strlit("onFileSystem");
    reveal_strlit("onView");
    lemma_kind("onLanguage"@, value);
    lemma_kind("onCommand"@, value);
    lemma_kind("workspaceContains"@, value);
    lemma_kind("onFileSystem"@, value);
    lemma_kind("onView"@, value);
    assert("onLanguage"@.len() == 10);
    assert("onCommand"@.len() == 9);
    assert("workspaceContains"@.len() == 17);
    assert("onFileSystem"@.len() == 12);
    assert("onView"@.len() == 6);
    assert("onStartupFinished"@[2] == 'S');
    assert("onUri"@[2] == 'U');
    assert("*"@ != "onStartupFinished"@ && "*"@ != "onUri"@) by {
        assert("*"@.len() == 1);
    }
    assert("onStartupFinished"@ != "onUri"@) by {
        assert("onUri"@.len() == 5);
    }
}

/// A kind without a colon is read up to the first colon, and is none of the events that are written
/// without one.
proof fn lemma_kind(kind: Seq<char>, value: Seq<char>)
    requires
        forall|i: int| 0 <= i < kind.len() ==> #[trigger] kind[i] != ':',
    ensures
        split_at_char(of_kind(kind, value), ':') == Some((kind, value)),
        of_kind(kind, value) != "*"@,
        of_kind(kind, value) != "onStartupFinished"@,
        of_kind(kind, value) != "onUri"@,
{
    law_a_text_is_cut_at_the_first_separator(kind, ':', value);
    reveal_strlit("*");
    reveal_strlit("onStartupFinished");
    reveal_strlit("onUri");
    let n = kind.len() as int;
    let text = of_kind(kind, value);
    assert(text[n] == ':');
    if text == "onStartupFinished"@ {
        assert("onStartupFinished"@[n] != ':');
    }
    if text == "onUri"@ {
        assert("onUri"@[n] != ':');
    }
    if text == "*"@ {
        assert("*"@[n] != ':');
    }
}

/// An event fires for what it waits for and for nothing else: a language, a command or a view for
/// that one, a link for any link, and the end of the start for that.
pub proof fn law_what_an_event_fires_for(wanted: Seq<char>, trigger: Trigger<'_>)
    ensures
        fires_plainly(Event::Language(wanted), trigger) == (trigger matches Trigger::Language(id)
            && id@ == wanted),
        fires_plainly(Event::Command(wanted), trigger) == (trigger matches Trigger::Command(id)
            && id@ == wanted),
        fires_plainly(Event::View(wanted), trigger) == (trigger matches Trigger::View(id) && id@
            == wanted),
        fires_plainly(Event::Uri, trigger) == (trigger is Uri),
        fires_plainly(Event::StartupFinished, trigger) == (trigger is StartupFinished),
        !fires_plainly(Event::FileSystem(wanted), trigger),
{
}

/// Which contributions an extension keeps: those with a name that no extension before it offers.
pub open spec fn kept_marks(
    before: Seq<Listing>,
    contributions: Seq<CommandContribution>,
) -> Seq<bool> {
    Seq::new(
        contributions.len(),
        |i: int|
            !blank(contributions[i].command@) && !exists|k: int|
                0 <= k < before.len() && offers_command(
                    (#[trigger] before[k]).commands,
                    contributions[i].command@,
                ),
    )
}

proof fn lemma_kept(before: Seq<Listing>, contributions: Seq<CommandContribution>) -> (at: Seq<int>)
    ensures
        picks(at, kept_marks(before, contributions)),
        at.len() == kept_commands(before, contributions).len(),
        forall|k: int|
            0 <= k < at.len() ==> {
                let kept = kept_commands(before, contributions)[k];
                let own = contributions[#[trigger] at[k]];
                &&& kept.command == own.command@
                &&& kept.title == own.title@
                &&& kept.category == view_of(own.category)
            },
    decreases contributions.len(),
{
    if contributions.len() == 0 {
        Seq::empty()
    } else {
        let rest = contributions.drop_last();
        let earlier = lemma_kept(before, rest);
        let command = contributions.last().command@;
        lemma_owner_none(before, command);
        let keeps = !(blank(command) || command_owner(before, command) is Some);
        assert(kept_marks(before, contributions) =~= kept_marks(before, rest).push(keeps));
        lemma_picked(earlier, kept_marks(before, rest), keeps);
        let at = picked(earlier, kept_marks(before, rest), keeps);
        assert forall|k: int| 0 <= k < at.len() implies {
            let kept = kept_commands(before, contributions)[k];
            let own = contributions[#[trigger] at[k]];
            &&& kept.command == own.command@
            &&& kept.title == own.title@
            &&& kept.category == view_of(own.category)
        } by {
            if k < earlier.len() {
                assert(at[k] == earlier[k]);
                assert(rest[earlier[k]] == contributions[earlier[k]]);
            }
        }
        at
    }
}

/// An extension that is found first under its name is listed with what its manifest says: its
/// version, its entry point unless that is blank, all of its events, and every command that has a
/// name and that no extension before it offers, with its title and category. One that is found again
/// changes nothing that is listed.
pub proof fn law_an_extension_is_listed_as_it_says(entries: Seq<(PathBuf, Manifest)>) -> (at: Seq<
    int,
>)
    requires
        entries.len() > 0,
    ensures
        ({
            let before = index_of(entries.drop_last()).extensions;
            let now = index_of(entries).extensions;
            let root = entries.last().0;
            let manifest = entries.last().1;
            let again = exists|k: int|
                0 <= k < before.len() && (#[trigger] before[k]).id == manifest.id();
            &&& again ==> now == before
            &&& !again ==> {
                let listing = now.last();
                &&& now.len() == before.len() + 1
                &&& now.drop_last() == before
                &&& listing.id == manifest.id()
                &&& listing.root == root.text@
                &&& listing.version == manifest.version@
                &&& listing.label == match manifest.display_name {
                    Some(name) => name@,
                    None => manifest.name@,
                }
                &&& manifest.main is None ==> listing.main is None
                &&& manifest.main matches Some(main) ==> listing.main == if blank(main@) {
                    None
                } else {
                    Some(main@)
                }
                &&& listing.activation.len() == manifest.activation_events@.len()
                &&& forall|i: int|
                    0 <= i < listing.activation.len() ==> #[trigger] listing.activation[i]
                        == event_of(manifest.activation_events@[i]@)
                &&& picks(at, kept_marks(before, manifest.contributes.commands@))
                &&& at.len() == listing.commands.len()
                &&& forall|k: int|
                    0 <= k < at.len() ==> {
                        let own = manifest.contributes.commands@[#[trigger] at[k]];
                        &&& listing.commands[k].command == own.command@
                        &&& listing.commands[k].title == own.title@
                        &&& listing.commands[k].category == view_of(own.category)
                    }
            }
        }),
{
    let before = index_of(entries.drop_last()).extensions;
    let manifest = entries.last().1;
    lemma_listed_none(before, manifest.id());
    let now = index_of(entries).extensions;
    if listed(before, manifest.id()) is None {
        assert(now.drop_last() =~= before);
    }
    lemma_kept(before, manifest.contributes.commands@)
}

/// Which listings have code.
pub open spec fn code_marks(extensions: Seq<Listing>) -> Seq<bool> {
    Seq::new(extensions.len(), |i: int| extensions[i].main is Some)
}

/// The extensions that can run are exactly those with code, in order.
pub proof fn law_which_extensions_can_run(extensions: Seq<Listing>) -> (at: Seq<int>)
    ensures
        picks(at, code_marks(extensions)),
        at.len() == runnable_only(extensions).len(),
        forall|k: int|
            0 <= k < at.len() ==> runnable_only(extensions)[k] == extensions[#[trigger] at[k]],
    decreases extensions.len(),
{
    if extensions.len() == 0 {
        Seq::empty()
    } else {
        let rest = extensions.drop_last();
        let before = law_which_extensions_can_run(rest);
        let code = extensions.last().main is Some;
        lemma_picked(before, code_marks(rest), code);
        assert(code_marks(extensions) =~= code_marks(rest).push(code));
        let at = picked(before, code_marks(rest), code);
        assert forall|k: int| 0 <= k < at.len() implies runnable_only(extensions)[k]
            == extensions[#[trigger] at[k]] by {
            if k < before.len() {
                assert(at[k] == before[k]);
                assert(rest[before[k]] == extensions[before[k]]);
            }
        }
        at
    }
}

/// The extensions that are started are exactly those that an answer was given for, in order.
pub proof fn law_which_extensions_are_started(
    extensions: Seq<Installed>,
    answers: Seq<bool>,
) -> (at: Seq<int>)
    requires
        answers.len() == extensions.len(),
    ensures
        picks(at, answers),
        at.len() == chosen(extensions, answers).len(),
        forall|k: int|
            0 <= k < at.len() ==> chosen(extensions, answers)[k] == extensions[#[trigger] at[k]],
    decreases extensions.len(),
{
    if extensions.len() == 0 {
        assert(answers =~= Seq::empty());
        Seq::empty()
    } else {
        let rest = extensions.drop_last();
        let before = law_which_extensions_are_started(rest, answers.drop_last());
        lemma_picked(before, answers.drop_last(), answers.last());
        assert(answers.drop_last().push(answers.last()) =~= answers);
        let at = picked(before, answers.drop_last(), answers.last());
        assert forall|k: int| 0 <= k < at.len() implies chosen(extensions, answers)[k]
            == extensions[#[trigger] at[k]] by {
            if k < before.len() {
                assert(at[k] == before[k]);
                assert(rest[before[k]] == extensions[before[k]]);
            }
        }
        at
    }
}

proof fn lemma_denial(standing: Standing, needed: Seq<Ability>)
    ensures
        first_denial(standing, needed) is Some <==> exists|i: int|
            0 <= i < needed.len() && verdict_on(standing, #[trigger] needed[i]) is Denied,
    decreases needed.len(),
{
    if needed.len() > 0 {
        let rest = needed.skip(1);
        lemma_denial(standing, rest);
        if exists|i: int|
            0 <= i < needed.len() && verdict_on(standing, #[trigger] needed[i]) is Denied {
            let i = choose|i: int|
                0 <= i < needed.len() && verdict_on(standing, #[trigger] needed[i]) is Denied;
            if i > 0 {
                assert(rest[i - 1] == needed[i]);
            }
        }
        if exists|i: int|
            0 <= i < rest.len() && verdict_on(standing, #[trigger] rest[i]) is Denied {
            let i = choose|i: int|
                0 <= i < rest.len() && verdict_on(standing, #[trigger] rest[i]) is Denied;
            assert(needed[i + 1] == rest[i]);
        }
        if verdict_on(standing, needed[0]) is Denied {
            assert(verdict_on(standing, needed[0]) is Denied);
        }
    }
}

proof fn lemma_question(standing: Standing, needed: Seq<Ability>) -> (i: int)
    ensures
        first_question(standing, needed) is None ==> forall|k: int|
            0 <= k < needed.len() ==> !(verdict_on(
                standing,
                #[trigger] needed[k],
            ) is NeedsConsent),
        first_question(standing, needed) matches Some(asked) ==> {
            &&& 0 <= i < needed.len()
            &&& verdict_on(standing, needed[i]) == (Verdict::NeedsConsent { capability: asked })
            &&& forall|k: int|
                0 <= k < i ==> !(verdict_on(standing, #[trigger] needed[k]) is NeedsConsent)
        },
    decreases needed.len(),
{
    if needed.len() == 0 || verdict_on(standing, needed[0]) is NeedsConsent {
        0
    } else {
        let rest = needed.skip(1);
        let i = lemma_question(standing, rest);
        assert forall|k: int|
            0 <= k < (if first_question(standing, rest) is None {
                needed.len() as int
            } else {
                i + 1
            }) implies !(verdict_on(standing, #[trigger] needed[k]) is NeedsConsent) by {
            if k > 0 {
                assert(rest[k - 1] == needed[k]);
            }
        }
        if first_question(standing, rest) is Some {
            assert(rest[i] == needed[i + 1]);
        }
        i + 1
    }
}

/// A request is let through exactly where all that it needs is allowed; it is refused exactly where
/// something it needs is denied; and otherwise the first thing that is undecided is asked about.
pub proof fn law_what_becomes_of_a_request(
    standing: Standing,
    id: u64,
    method: Seq<char>,
    needed: Seq<Ability>,
) -> (i: int)
    ensures
        course_of(standing, id, method, Some(needed)) is Allowed <==> forall|k: int|
            0 <= k < needed.len() ==> verdict_on(standing, #[trigger] needed[k]) is Allowed,
        course_of(standing, id, method, Some(needed)) is Refused <==> exists|k: int|
            0 <= k < needed.len() && verdict_on(standing, #[trigger] needed[k]) is Denied,
        course_of(standing, id, method, Some(needed)) matches Course::Refused(refusal)
            ==> refusal.id == id && refusal.code == ErrorCode::PermissionDenied,
        course_of(standing, id, method, Some(needed)) matches Course::Consent { capability } ==> {
            &&& 0 <= i < needed.len()
            &&& verdict_on(standing, needed[i]) == (Verdict::NeedsConsent { capability })
            &&& forall|k: int|
                0 <= k < i ==> verdict_on(standing, #[trigger] needed[k]) is Allowed
        },
{
    lemma_denial(standing, needed);
    lemma_question(standing, needed)
}

} // verus!
