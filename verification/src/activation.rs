//! Activation events: when an extension's code is allowed to start running.
//!
//! Activation is a security control as much as a performance one. An extension that has not
//! activated has no host process and makes no capability request at all.

use vstd::prelude::*;
use crate::text::{same, split_once, trim};
#[allow(unused_imports)]
use crate::text::{split_at_char, trim_of};

verus! {

/// One entry of `activationEvents`.
#[derive(Debug, PartialEq, Eq)]
pub enum ActivationEvent {
    /// `*`: activate at startup, unconditionally.
    Always,
    /// `onStartupFinished`: activate once the editor is idle.
    StartupFinished,
    /// `onLanguage:<id>`.
    Language(String),
    /// `onCommand:<id>`.
    Command(String),
    /// `workspaceContains:<glob>`.
    WorkspaceContains(String),
    /// `onFileSystem:<scheme>`.
    FileSystem(String),
    /// `onView:<id>`.
    View(String),
    /// `onUri`.
    Uri,
    /// Anything else. Never fires, which keeps an unknown event from being treated as `*` by
    /// accident.
    Unknown(String),
}

/// An [`ActivationEvent`], as a value in contracts.
#[verifier::ext_equal]
pub enum Event {
    Always,
    StartupFinished,
    Language(Seq<char>),
    Command(Seq<char>),
    WorkspaceContains(Seq<char>),
    FileSystem(Seq<char>),
    View(Seq<char>),
    Uri,
    Unknown(Seq<char>),
}

impl View for ActivationEvent {
    type V = Event;

    open spec fn view(&self) -> Event {
        match self {
            ActivationEvent::Always => Event::Always,
            ActivationEvent::StartupFinished => Event::StartupFinished,
            ActivationEvent::Language(id) => Event::Language(id@),
            ActivationEvent::Command(id) => Event::Command(id@),
            ActivationEvent::WorkspaceContains(glob) => Event::WorkspaceContains(glob@),
            ActivationEvent::FileSystem(scheme) => Event::FileSystem(scheme@),
            ActivationEvent::View(id) => Event::View(id@),
            ActivationEvent::Uri => Event::Uri,
            ActivationEvent::Unknown(text) => Event::Unknown(text@),
        }
    }
}

impl Clone for ActivationEvent {
    fn clone(&self) -> (r: ActivationEvent)
        ensures
            r == *self,
    {
        match self {
            ActivationEvent::Always => ActivationEvent::Always,
            ActivationEvent::StartupFinished => ActivationEvent::StartupFinished,
            ActivationEvent::Language(id) => ActivationEvent::Language(id.clone()),
            ActivationEvent::Command(id) => ActivationEvent::Command(id.clone()),
            ActivationEvent::WorkspaceContains(glob) => ActivationEvent::WorkspaceContains(
                glob.clone(),
            ),
            ActivationEvent::FileSystem(scheme) => ActivationEvent::FileSystem(scheme.clone()),
            ActivationEvent::View(id) => ActivationEvent::View(id.clone()),
            ActivationEvent::Uri => ActivationEvent::Uri,
            ActivationEvent::Unknown(text) => ActivationEvent::Unknown(text.clone()),
        }
    }
}

/// The events of a list.
pub open spec fn events_in(list: Seq<ActivationEvent>) -> Seq<Event> {
    Seq::new(list.len(), |i: int| list[i]@)
}

/// The event that text without surrounding white space names.
pub open spec fn event_named(text: Seq<char>) -> Event {
    if text == "*"@ {
        Event::Always
    } else if text == "onStartupFinished"@ {
        Event::StartupFinished
    } else if text == "onUri"@ {
        Event::Uri
    } else {
        match split_at_char(text, ':') {
            Some((kind, value)) => if kind == "onLanguage"@ {
                Event::Language(value)
            } else if kind == "onCommand"@ {
                Event::Command(value)
            } else if kind == "workspaceContains"@ {
                Event::WorkspaceContains(value)
            } else if kind == "onFileSystem"@ {
                Event::FileSystem(value)
            } else if kind == "onView"@ {
                Event::View(value)
            } else {
                Event::Unknown(text)
            },
            None => Event::Unknown(text),
        }
    }
}

/// The event that `text` names.
pub open spec fn event_of(text: Seq<char>) -> Event {
    event_named(trim_of(text))
}

impl ActivationEvent {
    /// Parses one activation event string.
    pub fn parse(text: &str) -> (r: ActivationEvent)
        ensures
            r@ == event_of(text@),
    {
        let text: String = trim(text);
        if same(text.as_str(), "*") {
            return ActivationEvent::Always;
        }
        if same(text.as_str(), "onStartupFinished") {
            return ActivationEvent::StartupFinished;
        }
        if same(text.as_str(), "onUri") {
            return ActivationEvent::Uri;
        }
        match split_once(text.as_str(), ':') {
            Some((kind, value)) => {
                if same(kind.as_str(), "onLanguage") {
                    ActivationEvent::Language(value)
                } else if same(kind.as_str(), "onCommand") {
                    ActivationEvent::Command(value)
                } else if same(kind.as_str(), "workspaceContains") {
                    ActivationEvent::WorkspaceContains(value)
                } else if same(kind.as_str(), "onFileSystem") {
                    ActivationEvent::FileSystem(value)
                } else if same(kind.as_str(), "onView") {
                    ActivationEvent::View(value)
                } else {
                    ActivationEvent::Unknown(text)
                }
            },
            None => ActivationEvent::Unknown(text),
        }
    }
}

/// Something that happened and might activate an extension.
#[derive(Debug, Clone, PartialEq, Eq)]
pub enum Trigger<'a> {
    /// The editor finished starting up.
    StartupFinished,
    /// A document of this language was opened.
    Language(&'a str),
    /// This command was invoked.
    Command(&'a str),
    /// The workspace contains these files, as `/`-separated relative paths.
    WorkspaceFiles(&'a Vec<String>),
    /// A view was revealed.
    View(&'a str),
    /// A URI was handed to the editor.
    Uri,
}

/// Whether `event` fires for `trigger` without a file pattern being consulted.
///
/// `*` activates on startup and nothing else.
pub open spec fn fires_plainly(event: Event, trigger: Trigger<'_>) -> bool {
    match (event, trigger) {
        (Event::Always, Trigger::StartupFinished) => true,
        (Event::StartupFinished, Trigger::StartupFinished) => true,
        (Event::Language(want), Trigger::Language(got)) => want == got@,
        (Event::Command(want), Trigger::Command(got)) => want == got@,
        (Event::View(want), Trigger::View(got)) => want == got@,
        (Event::Uri, Trigger::Uri) => true,
        _ => false,
    }
}

/// Whether `glob` may answer `answer` about `pattern` and the `i`th file.
pub open spec fn glob_says<G: Fn(&String, &String) -> bool>(
    glob: G,
    pattern: String,
    files: Seq<String>,
    i: int,
    answer: bool,
) -> bool {
    glob.ensures((&pattern, &files[i]), answer)
}

/// Whether `event` may be found to fire for `trigger`: a file pattern fires where `glob` matches
/// it to one of the workspace's files.
pub open spec fn may_fire<G: Fn(&String, &String) -> bool>(
    event: ActivationEvent,
    trigger: Trigger<'_>,
    glob: G,
) -> bool {
    match (event, trigger) {
        (
            ActivationEvent::WorkspaceContains(pattern),
            Trigger::WorkspaceFiles(files),
        ) => exists|i: int| 0 <= i < files@.len() && glob_says(glob, pattern, files@, i, true),
        _ => fires_plainly(event@, trigger),
    }
}

/// Whether `event` may be found not to fire for `trigger`.
pub open spec fn may_not_fire<G: Fn(&String, &String) -> bool>(
    event: ActivationEvent,
    trigger: Trigger<'_>,
    glob: G,
) -> bool {
    match (event, trigger) {
        (
            ActivationEvent::WorkspaceContains(pattern),
            Trigger::WorkspaceFiles(files),
        ) => forall|i: int| 0 <= i < files@.len() ==> glob_says(glob, pattern, files@, i, false),
        _ => !fires_plainly(event@, trigger),
    }
}

/// Whether `glob` matches `pattern` to one of `files`.
fn any_file_matches<G: Fn(&String, &String) -> bool>(
    pattern: &String,
    files: &Vec<String>,
    glob: &G,
) -> (r: bool)
    requires
        forall|pattern: &String, file: &String| glob.requires((pattern, file)),
    ensures
        r ==> exists|i: int| 0 <= i < files@.len() && glob_says(*glob, *pattern, files@, i, true),
        !r ==> forall|i: int|
            0 <= i < files@.len() ==> glob_says(*glob, *pattern, files@, i, false),
{
    let mut i: usize = 0;
    while i < files.len()
        invariant
            i <= files@.len(),
            forall|pattern: &String, file: &String| glob.requires((pattern, file)),
            forall|j: int| 0 <= j < i ==> glob_says(*glob, *pattern, files@, j, false),
        decreases files@.len() - i,
    {
        if glob(pattern, &files[i]) {
            assert(glob_says(*glob, *pattern, files@, i as int, true));
            return true;
        }
        assert(glob_says(*glob, *pattern, files@, i as int, false));
        i = i + 1;
    }
    false
}

/// Whether `event` fires for `trigger`, with `glob` matching a file pattern to a file.
pub fn fires<G: Fn(&String, &String) -> bool>(
    event: &ActivationEvent,
    trigger: &Trigger<'_>,
    glob: &G,
) -> (r: bool)
    requires
        forall|pattern: &String, file: &String| glob.requires((pattern, file)),
    ensures
        r ==> may_fire(*event, *trigger, *glob),
        !r ==> may_not_fire(*event, *trigger, *glob),
{
    match (event, trigger) {
        (ActivationEvent::Always, Trigger::StartupFinished) => true,
        (ActivationEvent::StartupFinished, Trigger::StartupFinished) => true,
        (ActivationEvent::Language(want), Trigger::Language(got)) => same(want.as_str(), got),
        (ActivationEvent::Command(want), Trigger::Command(got)) => same(want.as_str(), got),
        (ActivationEvent::View(want), Trigger::View(got)) => same(want.as_str(), got),
        (ActivationEvent::Uri, Trigger::Uri) => true,
        (
            ActivationEvent::WorkspaceContains(pattern),
            Trigger::WorkspaceFiles(files),
        ) => any_file_matches(pattern, files, glob),
        _ => false,
    }
}

/// Whether `answer` may be found to whether any of `events` fires for `trigger`.
pub open spec fn found_to_fire<G: Fn(&String, &String) -> bool>(
    events: Seq<ActivationEvent>,
    trigger: Trigger<'_>,
    glob: G,
    answer: bool,
) -> bool {
    if answer {
        exists|i: int| 0 <= i < events.len() && may_fire(#[trigger] events[i], trigger, glob)
    } else {
        forall|i: int|
            0 <= i < events.len() ==> may_not_fire(#[trigger] events[i], trigger, glob)
    }
}

/// Whether any of `events` fires for `trigger`.
pub fn any_fires<G: Fn(&String, &String) -> bool>(
    events: &Vec<ActivationEvent>,
    trigger: &Trigger<'_>,
    glob: &G,
) -> (r: bool)
    requires
        forall|pattern: &String, file: &String| glob.requires((pattern, file)),
    ensures
        found_to_fire(events@, *trigger, *glob, r),
{
    let mut i: usize = 0;
    while i < events.len()
        invariant
            i <= events@.len(),
            forall|pattern: &String, file: &String| glob.requires((pattern, file)),
            forall|j: int| 0 <= j < i ==> may_not_fire(#[trigger] events@[j], *trigger, *glob),
        decreases events@.len() - i,
    {
        if fires(&events[i], trigger, glob) {
            assert(may_fire(events@[i as int], *trigger, *glob));
            return true;
        }
        i = i + 1;
    }
    false
}

/// Parses a manifest's `activationEvents`.
pub fn parse_all(events: &Vec<String>) -> (r: Vec<ActivationEvent>)
    ensures
        events_in(r@) == Seq::new(events@.len(), |i: int| event_of(events@[i]@)),
{
    let mut r: Vec<ActivationEvent> = Vec::new();
    let mut i: usize = 0;
    while i < events.len()
        invariant
            i <= events@.len(),
            r@.len() == i,
            forall|j: int| 0 <= j < i ==> (#[trigger] r@[j])@ == event_of(events@[j]@),
        decreases events@.len() - i,
    {
        r.push(ActivationEvent::parse(events[i].as_str()));
        i = i + 1;
    }
    assert(events_in(r@) =~= Seq::new(events@.len(), |i: int| event_of(events@[i]@)));
    r
}

// ---------------------------------------------------------------------------
// Laws
// ---------------------------------------------------------------------------

/// An event that is not understood never fires.
pub proof fn law_an_unknown_event_never_fires(event: Event, trigger: Trigger<'_>)
    requires
        event is Unknown,
    ensures
        !fires_plainly(event, trigger),
{
}

/// `*` fires at startup and at nothing else.
pub proof fn law_always_means_at_startup(trigger: Trigger<'_>)
    ensures
        fires_plainly(Event::Always, trigger) == (trigger is StartupFinished),
{
}

/// Whether `glob` never gives both answers about one pattern and one file.
pub open spec fn decided<G: Fn(&String, &String) -> bool>(glob: G) -> bool {
    forall|pattern: String, file: String|
        !(#[trigger] glob.ensures((&pattern, &file), true) && glob.ensures(
            (&pattern, &file),
            false,
        ))
}

proof fn lemma_one_answer<G: Fn(&String, &String) -> bool>(
    event: ActivationEvent,
    trigger: Trigger<'_>,
    glob: G,
)
    requires
        decided(glob),
    ensures
        !(may_fire(event, trigger, glob) && may_not_fire(event, trigger, glob)),
{
    if let (ActivationEvent::WorkspaceContains(pattern), Trigger::WorkspaceFiles(files)) = (
        event,
        trigger,
    ) {
        if may_fire(event, trigger, glob) && may_not_fire(event, trigger, glob) {
            let i = choose|i: int|
                0 <= i < files@.len() && glob_says(glob, pattern, files@, i, true);
            assert(glob_says(glob, pattern, files@, i, false));
            assert(glob.ensures((&pattern, &files@[i]), true));
        }
    }
}

/// The whole list is looked at: two lists after one another fire where either does.
pub proof fn law_two_lists_fire_where_either_does<G: Fn(&String, &String) -> bool>(
    first: Seq<ActivationEvent>,
    second: Seq<ActivationEvent>,
    trigger: Trigger<'_>,
    glob: G,
    of_first: bool,
    of_second: bool,
    of_both: bool,
)
    requires
        decided(glob),
        found_to_fire(first, trigger, glob, of_first),
        found_to_fire(second, trigger, glob, of_second),
        found_to_fire(first + second, trigger, glob, of_both),
    ensures
        of_both == (of_first || of_second),
{
    let both = first + second;
    if of_first {
        let i = choose|i: int| 0 <= i < first.len() && may_fire(#[trigger] first[i], trigger, glob);
        assert(both[i] == first[i]);
        lemma_one_answer(first[i], trigger, glob);
    }
    if of_second {
        let i = choose|i: int|
            0 <= i < second.len() && may_fire(#[trigger] second[i], trigger, glob);
        assert(both[first.len() + i] == second[i]);
        lemma_one_answer(second[i], trigger, glob);
    }
    if of_both {
        let i = choose|i: int| 0 <= i < both.len() && may_fire(#[trigger] both[i], trigger, glob);
        lemma_one_answer(both[i], trigger, glob);
        if i < first.len() {
            assert(first[i] == both[i]);
        } else {
            assert(second[i - first.len()] == both[i]);
        }
    }
}

/// No event fires of itself: an empty list never fires, nor does one of events that are not
/// understood, and one of `*` alone fires at startup and at nothing else.
pub proof fn law_what_a_short_list_fires_at<G: Fn(&String, &String) -> bool>(
    events: Seq<ActivationEvent>,
    trigger: Trigger<'_>,
    glob: G,
    answer: bool,
)
    requires
        found_to_fire(events, trigger, glob, answer),
    ensures
        events.len() == 0 ==> !answer,
        (forall|i: int| 0 <= i < events.len() ==> (#[trigger] events[i]) is Unknown) ==> !answer,
        events.len() == 1 && events[0] is Always ==> answer == (trigger is StartupFinished),
{
    if events.len() == 1 && events[0] is Always {
        if answer {
            let i = choose|i: int|
                0 <= i < events.len() && may_fire(#[trigger] events[i], trigger, glob);
        } else {
            assert(may_not_fire(events[0], trigger, glob));
        }
    }
}

/// White space around an event's text makes no difference.
pub proof fn law_parsing_ignores_surrounding_space(a: Seq<char>, b: Seq<char>)
    requires
        trim_of(a) == trim_of(b),
    ensures
        event_of(a) == event_of(b),
{
}

} // verus!
