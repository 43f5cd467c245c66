//! Questions put to the user, and the lists they choose from.

use vstd::prelude::*;
use crate::editing::{Position, SelectionSet};
#[allow(unused_imports)]
use crate::editing::Selection;
use crate::path::{normalise, PathBuf};
#[allow(unused_imports)]
use crate::path::{normal_parts, Part};
#[allow(unused_imports)]
use crate::session::documents::sets_language;
use crate::session::documents::Languages;
#[allow(unused_imports)]
use crate::session::layout::refreshed;
use crate::session::outcome::{Outcome, ScmOperation};
#[allow(unused_imports)]
use crate::session::scm::commits;
use crate::session::state::{
    clone_text, EditorSettings, PaletteEntry, Prompt, PromptKind, PromptStart, SearchOptions,
    Session, TreeRow,
};
#[allow(unused_imports)]
use crate::session::state::{Search, Tab, Viewport};
#[allow(unused_imports)]
use crate::session::tree::{creates, deletes, renames};
use crate::text::{chars_of, decimal, parse_u32, same, split_once, to_lower, trim};
#[allow(unused_imports)]
use crate::text::{decimal_of, lower_of, split_at_char, trim_of, u32_of, view_of};

verus! {

/// A [`PaletteEntry`], as a value in contracts.
#[verifier::ext_equal]
pub struct Choice {
    pub id: Seq<char>,
    pub title: Seq<char>,
    pub detail: Option<Seq<char>>,
    pub at: Option<Position>,
}

impl View for PaletteEntry {
    type V = Choice;

    open spec fn view(&self) -> Choice {
        Choice {
            id: self.id@,
            title: self.title@,
            detail: view_of(self.detail),
            at: self.at,
        }
    }
}

/// The choices of a list.
pub open spec fn choices(list: Seq<PaletteEntry>) -> Seq<Choice> {
    Seq::new(list.len(), |i: int| list[i]@)
}

/// What a prompt starts with, as a value in contracts.
#[verifier::ext_equal]
pub enum Opening {
    Plain,
    List(Seq<Choice>),
    Seeded(Seq<char>),
    Prefixed(Seq<char>),
}

/// A [`Prompt`], as a value in contracts.
#[verifier::ext_equal]
pub struct Question {
    pub kind: PromptKind,
    pub start: Opening,
}

impl View for Prompt {
    type V = Question;

    open spec fn view(&self) -> Question {
        Question {
            kind: self.kind,
            start: match self.start {
                PromptStart::Plain => Opening::Plain,
                PromptStart::List(entries) => Opening::List(choices(entries@)),
                PromptStart::Seeded(text) => Opening::Seeded(text@),
                PromptStart::Prefixed(text) => Opening::Prefixed(text@),
            },
        }
    }
}

/// Whether the prompt asks this question.
pub open spec fn asks(prompt: Option<Prompt>, kind: PromptKind, start: Opening) -> bool {
    prompt matches Some(prompt) && prompt@ == (Question { kind, start })
}

impl PaletteEntry {
    /// A choice without detail.
    pub fn new(id: &str, title: &str) -> (r: PaletteEntry)
        ensures
            r@ == (Choice { id: id@, title: title@, detail: None, at: None }),
    {
        PaletteEntry { id: id.to_owned(), title: title.to_owned(), detail: None, at: None }
    }

    /// The choice with a detail.
    pub fn with_detail(self, detail: &str) -> (r: PaletteEntry)
        ensures
            r@ == (Choice { detail: Some(detail@), ..self@ }),
    {
        PaletteEntry {
            id: self.id,
            title: self.title,
            detail: Some(detail.to_owned()),
            at: self.at,
        }
    }
}

impl Clone for PaletteEntry {
    fn clone(&self) -> (r: PaletteEntry)
        ensures
            r == *self,
    {
        PaletteEntry {
            id: self.id.clone(),
            title: self.title.clone(),
            detail: clone_text(&self.detail),
            at: self.at,
        }
    }
}

impl Prompt {
    /// A question that starts with nothing.
    pub fn plain(kind: PromptKind) -> (r: Prompt)
        ensures
            r@ == (Question { kind, start: Opening::Plain }),
    {
        Prompt { kind, start: PromptStart::Plain }
    }

    /// A choice from a list.
    pub fn list(kind: PromptKind, entries: Vec<PaletteEntry>) -> (r: Prompt)
        ensures
            r@ == (Question { kind, start: Opening::List(choices(entries@)) }),
    {
        Prompt { kind, start: PromptStart::List(entries) }
    }

    /// A question that starts with text that typing replaces.
    pub fn seeded(kind: PromptKind, text: String) -> (r: Prompt)
        ensures
            r@ == (Question { kind, start: Opening::Seeded(text@) }),
    {
        Prompt { kind, start: PromptStart::Seeded(text) }
    }

    /// A question that starts with text that typing continues.
    pub fn prefixed(kind: PromptKind, text: String) -> (r: Prompt)
        ensures
            r@ == (Question { kind, start: Opening::Prefixed(text@) }),
    {
        Prompt { kind, start: PromptStart::Prefixed(text) }
    }
}

/// Whether `after` is `before` with a question put.
pub open spec fn prompted<B, S, M>(
    before: Session<B, S, M>,
    after: Session<B, S, M>,
    kind: PromptKind,
    start: Opening,
) -> bool {
    &&& after == (Session { prompt: after.prompt, ..before })
    &&& asks(after.prompt, kind, start)
}

/// Whether a list was offered, or it was said that there is none, with all that is derived brought
/// up to date where a list was offered.
pub open spec fn offered<B, S, M>(
    before: Session<B, S, M>,
    after: Session<B, S, M>,
    kind: PromptKind,
    list: Seq<Choice>,
    nothing: Seq<char>,
) -> bool {
    if list.len() == 0 {
        &&& after == (Session { status: after.status, ..before })
        &&& view_of(after.status) == Some(nothing)
    } else {
        exists|mid: Session<B, S, M>|
            prompted(before, mid, kind, Opening::List(list)) && #[trigger] refreshed(mid, after)
    }
}

/// How recently a path was on screen: its place in the recency list, and that list's length where
/// it is not in it.
pub open spec fn recency(recent: Seq<PathBuf>, path: Seq<Part>) -> int
    decreases recent.len(),
{
    if recent.len() == 0 {
        0
    } else if normal_parts(recent[0]@) == normal_parts(path) {
        0
    } else {
        1 + recency(recent.skip(1), path)
    }
}

/// How recently the file that a choice stands for was on screen.
pub open spec fn choice_recency(recent: Seq<PathBuf>, choice: Choice) -> int {
    recency(recent, crate::path::parts_of(choice.id))
}

/// Those of `list` whose recency is `rank`, in order.
pub open spec fn ranked(recent: Seq<PathBuf>, list: Seq<Choice>, rank: int) -> Seq<Choice>
    decreases list.len(),
{
    if list.len() == 0 {
        Seq::empty()
    } else {
        let rest = ranked(recent, list.drop_last(), rank);
        if choice_recency(recent, list.last()) == rank {
            rest.push(list.last())
        } else {
            rest
        }
    }
}

/// The choices whose recency is below `n`, the most recent first, and in order where they are
/// equally recent.
pub open spec fn by_recency(recent: Seq<PathBuf>, list: Seq<Choice>, n: int) -> Seq<Choice>
    decreases n,
{
    if n <= 0 {
        Seq::empty()
    } else {
        by_recency(recent, list, n - 1) + ranked(recent, list, n - 1)
    }
}

/// A copy of a list of choices.
fn copy_entries(list: &Vec<PaletteEntry>) -> (r: Vec<PaletteEntry>)
    ensures
        r@ == list@,
{
    let mut r: Vec<PaletteEntry> = Vec::new();
    let mut i: usize = 0;
    while i < list.len()
        invariant
            i <= list@.len(),
            r@ == list@.take(i as int),
        decreases list@.len() - i,
    {
        r.push(list[i].clone());
        i = i + 1;
        assert(r@ =~= list@.take(i as int));
    }
    assert(r@ =~= list@);
    r
}

/// How recently the file that a choice stands for was on screen.
fn recency_of(recent: &Vec<PathBuf>, entry: &PaletteEntry) -> (r: usize)
    ensures
        r == choice_recency(recent@, entry@),
        r <= recent@.len(),
{
    let path: PathBuf = PathBuf::from(entry.id.as_str());
    let wanted: PathBuf = normalise(&path);
    let mut i: usize = 0;
    assert(recent@.skip(0) =~= recent@);
    while i < recent.len()
        invariant
            i <= recent@.len(),
            path@ == crate::path::parts_of(entry.id@),
            wanted@ == normal_parts(path@),
            recency(recent@, path@) == i + recency(recent@.skip(i as int), path@),
        decreases recent@.len() - i,
    {
        assert(recent@.skip(i as int)[0] == recent@[i as int]);
        let own: PathBuf = normalise(&recent[i]);
        if own.same_as(&wanted) {
            return i;
        }
        assert(recent@.skip(i as int).skip(1) =~= recent@.skip(i + 1));
        i = i + 1;
    }
    i
}

/// The files that have been on screen first, the most recent of them first. The others keep their
/// order.
fn order_by_recency(recent: &Vec<PathBuf>, files: Vec<PaletteEntry>) -> (r: Vec<PaletteEntry>)
    requires
        recent@.len() < usize::MAX,
    ensures
        choices(r@) == by_recency(recent@, choices(files@), (recent@.len() + 1) as int),
{
    let mut r: Vec<PaletteEntry> = Vec::new();
    let mut rank: usize = 0;
    assert(choices(r@) =~= by_recency(recent@, choices(files@), 0));
    while rank <= recent.len()
        invariant
            rank <= recent@.len() + 1,
            recent@.len() < usize::MAX,
            choices(r@) == by_recency(recent@, choices(files@), rank as int),
        decreases recent@.len() + 1 - rank,
    {
        let ghost before = choices(r@);
        let ghost all = choices(files@);
        let mut i: usize = 0;
        assert(choices(r@) =~= before + ranked(recent@, all.take(0), rank as int));
        while i < files.len()
            invariant
                i <= files@.len(),
                all == choices(files@),
                choices(r@) == before + ranked(recent@, all.take(i as int), rank as int),
            decreases files@.len() - i,
        {
            let ghost now = choices(r@);
            proof {
                assert(all.take(i + 1).drop_last() =~= all.take(i as int));
                assert(all.take(i + 1).last() == files@[i as int]@);
            }
            if recency_of(recent, &files[i]) == rank {
                r.push(files[i].clone());
                assert(choices(r@) =~= now.push(files@[i as int]@));
                assert(before + ranked(recent@, all.take(i + 1), rank as int) =~= now.push(
                    files@[i as int]@,
                ));
            }
            i = i + 1;
        }
        assert(all.take(all.len() as int) =~= all);
        rank = rank + 1;
    }
    r
}

/// A choice that shows its identifier where it has no detail.
pub open spec fn detailed(choice: Choice) -> Choice {
    Choice {
        detail: match choice.detail {
            Some(detail) => Some(detail),
            None => Some(choice.id),
        },
        ..choice
    }
}

/// Every command that can be chosen, each with its identifier where it has no detail.
pub open spec fn palette_of(own: Seq<Choice>, more: Seq<Choice>) -> Seq<Choice> {
    Seq::new(own.len() + more.len(), |i: int| detailed((own + more)[i]))
}

/// The two answers to an extension's request.
pub const CONSENT_ALLOW: &'static str = "allow";

pub const CONSENT_DENY: &'static str = "deny";

/// The answer that keeps the current branch.
pub const CHECKOUT_CANCEL: &'static str = "cancel";

/// The choice that means "work it out from the file name" rather than naming a language.
pub const AUTO_LANGUAGE: &'static str = "deco.language.auto";

/// The choices that an extension's request is put with.
pub open spec fn consent_choices(what: Seq<char>) -> Seq<Choice> {
    seq![
        Choice {
            id: CONSENT_ALLOW@,
            title: "Allow — "@ + what,
            detail: None,
            at: None,
        },
        Choice {
            id: CONSENT_DENY@,
            title: "Deny — refuse, and remember that for this session ("@ + what + ")"@,
            detail: None,
            at: None,
        },
    ]
}

/// The choices of languages: first the one that the file name implies.
pub open spec fn language_choices(implied: Option<Seq<char>>, languages: Seq<(Seq<char>, Seq<char>)>) -> Seq<
    Choice,
> {
    seq![
        Choice {
            id: AUTO_LANGUAGE@,
            title: "Auto Detect"@,
            detail: Some(
                match implied {
                    Some(implied) => implied,
                    None => "no language"@,
                },
            ),
            at: None,
        },
    ] + Seq::new(
        languages.len(),
        |i: int|
            Choice {
                id: languages[i].0,
                title: languages[i].1,
                detail: Some(languages[i].0),
                at: None,
            },
    )
}

/// The text of the directory that a document is in, as a path to be continued.
pub open spec fn open_seed(path: Option<PathBuf>) -> Seq<char> {
    match path {
        Some(path) => match crate::session::tree::parent_text(path) {
            Some(parent) => if parent.len() > 0 && parent.last() != '/' && parent.last() != '\\' {
                parent.push('/')
            } else {
                parent
            },
            None => Seq::empty(),
        },
        None => Seq::empty(),
    }
}

/// What the search options are reported as.
pub open spec fn options_text(options: SearchOptions) -> Seq<char> {
    "Search: case "@ + on_off(options.case_sensitive) + ", whole word "@ + on_off(
        options.whole_word,
    ) + ", regex "@ + on_off(options.regex)
}

/// The text of a borrowed string, if there is one.
pub open spec fn option_view(text: Option<&str>) -> Option<Seq<char>> {
    match text {
        Some(text) => Some(text@),
        None => None,
    }
}

/// A switch in words.
pub open spec fn on_off(on: bool) -> Seq<char> {
    if on {
        "on"@
    } else {
        "off"@
    }
}

/// A switch in words.
fn on_or_off(on: bool) -> (r: &'static str)
    ensures
        r@ == on_off(on),
{
    if on {
        "on"
    } else {
        "off"
    }
}

/// Text from the document, with the pattern that matches it alone.
pub struct Seed {
    pub text: String,
    pub escaped: String,
}

/// What a search of the workspace starts with: what is selected or under the caret, as a pattern
/// that matches it where the search reads patterns; else the query of the last search.
pub open spec fn search_seed_of(under_caret: Option<Seed>, regex: bool, query: Seq<char>) -> Option<
    Seq<char>,
> {
    match under_caret {
        Some(seed) => Some(
            if regex {
                seed.escaped@
            } else {
                seed.text@
            },
        ),
        None => if query.len() > 0 {
            Some(query)
        } else {
            None
        },
    }
}

impl<B, S, M> Session<B, S, M> {
    /// Offers a list, or says that there is none.
    fn offer(&mut self, kind: PromptKind, list: Vec<PaletteEntry>, nothing: String)
        ensures
            offered(*old(self), *final(self), kind, choices(list@), nothing@),
    {
        let ghost all = choices(list@);
        if list.len() == 0 {
            self.status = Some(nothing);
            return;
        }
        self.prompt = Some(Prompt::list(kind, list));
        let ghost mid = *self;
        assert(prompted(*old(self), mid, kind, Opening::List(all)));
        self.refresh_context();
        assert(refreshed(mid, *self));
    }

    /// Offers the files of the workspace, those that have been on screen first.
    pub fn offer_files(&mut self, files: Vec<PaletteEntry>)
        requires
            old(self).recent@.len() < usize::MAX,
        ensures
            offered(
                *old(self),
                *final(self),
                PromptKind::Files,
                by_recency(old(self).recent@, choices(files@), (old(self).recent@.len() + 1) as int),
                "no files found here"@,
            ),
    {
        let ordered: Vec<PaletteEntry> = order_by_recency(&self.recent, files);
        self.offer(PromptKind::Files, ordered, "no files found here".to_owned());
    }

    /// Offers what was found in the workspace.
    pub fn offer_search_results(&mut self, needle: &str, results: Vec<PaletteEntry>)
        ensures
            offered(
                *old(self),
                *final(self),
                PromptKind::SearchResults,
                choices(results@),
                "`"@ + needle@ + "` is not in any file here"@,
            ),
    {
        let mut nothing: String = "`".to_owned();
        nothing.append(needle);
        nothing.append("` is not in any file here");
        self.offer(PromptKind::SearchResults, results, nothing);
    }

    /// Offers the themes.
    pub fn offer_themes(&mut self, themes: Vec<PaletteEntry>)
        ensures
            offered(
                *old(self),
                *final(self),
                PromptKind::Themes,
                choices(themes@),
                "no themes found"@,
            ),
    {
        self.offer(PromptKind::Themes, themes, "no themes found".to_owned());
    }

    /// Offers the symbols of the document.
    pub fn offer_symbols(&mut self, symbols: Vec<PaletteEntry>)
        ensures
            offered(
                *old(self),
                *final(self),
                PromptKind::Symbols,
                choices(symbols@),
                "this server found no symbols in this file"@,
            ),
    {
        self.offer(
            PromptKind::Symbols,
            symbols,
            "this server found no symbols in this file".to_owned(),
        );
    }

    /// Offers what a server can do here.
    pub fn offer_code_actions(&mut self, actions: Vec<PaletteEntry>)
        ensures
            offered(
                *old(self),
                *final(self),
                PromptKind::CodeActions,
                choices(actions@),
                "no code actions here"@,
            ),
    {
        self.offer(PromptKind::CodeActions, actions, "no code actions here".to_owned());
    }

    /// Offers the decisions already made about extensions, so that one can be revoked.
    pub fn offer_extension_permissions(&mut self, decisions: Vec<PaletteEntry>) -> (r: Outcome)
        ensures
            if decisions@.len() == 0 {
                *final(self) == *old(self) && r.says(
                    "no extension permission has been decided in this session"@,
                )
            } else {
                prompted(
                    *old(self),
                    *final(self),
                    PromptKind::ExtensionPermissions,
                    Opening::List(choices(decisions@)),
                ) && r is Handled
            },
    {
        if decisions.len() == 0 {
            return Outcome::Message(
                "no extension permission has been decided in this session".to_owned(),
            );
        }
        self.prompt = Some(Prompt::list(PromptKind::ExtensionPermissions, decisions));
        Outcome::Handled
    }

    /// Puts an extension's request to the user.
    pub fn ask_extension_consent(&mut self, what: &str)
        ensures
            prompted(
                *old(self),
                *final(self),
                PromptKind::ExtensionConsent,
                Opening::List(consent_choices(what@)),
            ),
    {
        let mut allow: String = "Allow — ".to_owned();
        allow.append(what);
        let mut deny: String = "Deny — refuse, and remember that for this session (".to_owned();
        deny.append(what);
        deny.append(")");
        let mut list: Vec<PaletteEntry> = Vec::new();
        list.push(PaletteEntry::new(CONSENT_ALLOW, allow.as_str()));
        list.push(PaletteEntry::new(CONSENT_DENY, deny.as_str()));
        assert(choices(list@) =~= consent_choices(what@));
        self.prompt = Some(Prompt::list(PromptKind::ExtensionConsent, list));
    }

    /// Offers languages for the document, and first to detect the one that its file name implies.
    /// `listed` are the identifiers and titles of all of them.
    pub fn offer_languages<
        L: Fn(&PathBuf) -> Option<String>,
        T: Fn(&String) -> String,
        E: Fn(&Option<String>) -> EditorSettings,
    >(&mut self, languages: &Languages<L, T, E>, listed: &Vec<(String, String)>) -> (r: Outcome)
        requires
            languages.ready(),
        ensures
            r is Handled,
            exists|implied: Option<String>| #[trigger]
                languages.implies(old(self).active.document.path, implied) && prompted(
                    *old(self),
                    *final(self),
                    PromptKind::Languages,
                    Opening::List(
                        language_choices(
                            view_of(implied),
                            Seq::new(listed@.len(), |i: int| (listed@[i].0@, listed@[i].1@)),
                        ),
                    ),
                ),
    {
        let implied: Option<String> = languages.implied_by(&self.active.document.path);
        let ghost all = Seq::new(listed@.len(), |i: int| (listed@[i].0@, listed@[i].1@));
        let mut list: Vec<PaletteEntry> = Vec::new();
        let detected: &str = match &implied {
            Some(implied) => implied.as_str(),
            None => "no language",
        };
        list.push(PaletteEntry::new(AUTO_LANGUAGE, "Auto Detect").with_detail(detected));
        let mut i: usize = 0;
        assert(choices(list@) =~= language_choices(view_of(implied), all.take(0)));
        while i < listed.len()
            invariant
                i <= listed@.len(),
                all == Seq::new(listed@.len(), |i: int| (listed@[i].0@, listed@[i].1@)),
                choices(list@) == language_choices(view_of(implied), all.take(i as int)),
            decreases listed@.len() - i,
        {
            let ghost before = choices(list@);
            let entry: PaletteEntry = PaletteEntry::new(
                listed[i].0.as_str(),
                listed[i].1.as_str(),
            ).with_detail(listed[i].0.as_str());
            let ghost added = entry@;
            list.push(entry);
            i = i + 1;
            proof {
                assert(choices(list@) =~= before.push(added));
                assert(language_choices(view_of(implied), all.take(i as int)) =~= before.push(
                    added,
                ));
            }
        }
        assert(all.take(all.len() as int) =~= all);
        self.prompt = Some(Prompt::list(PromptKind::Languages, list));
        assert(languages.implies(old(self).active.document.path, implied));
        Outcome::Handled
    }

    /// Asks where to save the document.
    pub fn offer_save_as(&mut self) -> (r: Outcome)
        ensures
            r is Handled,
            prompted(
                *old(self),
                *final(self),
                PromptKind::SaveAs,
                Opening::Seeded(
                    match old(self).active.document.path {
                        Some(path) => path.text@,
                        None => Seq::empty(),
                    },
                ),
            ),
    {
        let seed: String = match &self.active.document.path {
            Some(path) => path.display().to_owned(),
            None => String::new(),
        };
        self.prompt = Some(Prompt::seeded(PromptKind::SaveAs, seed));
        Outcome::Handled
    }

    /// Asks which file to open, starting from the directory that the document is in.
    pub fn offer_open_path(&mut self) -> (r: Outcome)
        ensures
            r is Handled,
            prompted(
                *old(self),
                *final(self),
                PromptKind::OpenPath,
                Opening::Prefixed(open_seed(old(self).active.document.path)),
            ),
    {
        let mut seed: String = String::new();
        if let Some(path) = &self.active.document.path {
            if let Some(parent) = path.parent() {
                seed = parent.text;
                let chars: Vec<char> = chars_of(seed.as_str());
                if chars.len() > 0 && chars[chars.len() - 1] != '/' && chars[chars.len() - 1]
                    != '\\' {
                    seed.push('/');
                }
            }
        }
        assert(seed@ =~= open_seed(self.active.document.path));
        self.prompt = Some(Prompt::prefixed(PromptKind::OpenPath, seed));
        Outcome::Handled
    }

    /// Asks for a new name for what is under the caret, if anything is.
    pub fn offer_rename(&mut self, under_caret: Option<String>) -> (r: Outcome)
        ensures
            match under_caret {
                None => *final(self) == *old(self) && r.says(
                    "put the cursor on a name to rename it"@,
                ),
                Some(name) => r is Handled && exists|mid: Session<B, S, M>|
                    prompted(*old(self), mid, PromptKind::Rename, Opening::Seeded(name@))
                        && #[trigger] refreshed(mid, *final(self)),
            },
    {
        match under_caret {
            None => Outcome::Message("put the cursor on a name to rename it".to_owned()),
            Some(name) => {
                let ghost seed = name@;
                self.prompt = Some(Prompt::seeded(PromptKind::Rename, name));
                let ghost mid = *self;
                assert(prompted(*old(self), mid, PromptKind::Rename, Opening::Seeded(seed)));
                self.refresh_context();
                assert(refreshed(mid, *self));
                Outcome::Handled
            },
        }
    }

    /// Reports the options of the search across files.
    pub fn report_search_options(&self) -> (r: Outcome)
        ensures
            r.says(options_text(self.search.options)),
    {
        let mut message: String = "Search: case ".to_owned();
        message.append(on_or_off(self.search.options.case_sensitive));
        message.append(", whole word ");
        message.append(on_or_off(self.search.options.whole_word));
        message.append(", regex ");
        message.append(on_or_off(self.search.options.regex));
        Outcome::Message(message)
    }

    /// What a search of the workspace starts with. `under_caret` is what is selected or under the
    /// caret.
    pub fn search_seed(&self, under_caret: Option<Seed>) -> (r: Option<String>)
        ensures
            view_of(r) == search_seed_of(
                under_caret,
                self.search.options.regex,
                self.active.find.query@,
            ),
    {
        if let Some(seed) = under_caret {
            if self.search.options.regex {
                return Some(seed.escaped);
            }
            return Some(seed.text);
        }
        if self.active.find.query.as_str().is_empty() {
            None
        } else {
            Some(self.active.find.query.clone())
        }
    }

    /// Asks what to search the workspace for, and whether what is found is to be replaced.
    pub fn ask_search(&mut self, under_caret: Option<Seed>, replacing: bool) -> (r: Outcome)
        ensures
            r is Handled,
            *final(self) == (Session {
                prompt: final(self).prompt,
                search: crate::session::state::Search {
                    replacing_in_files: replacing,
                    ..old(self).search
                },
                ..*old(self)
            }),
            asks(
                final(self).prompt,
                PromptKind::SearchQuery,
                Opening::Seeded(
                    match search_seed_of(
                        under_caret,
                        old(self).search.options.regex,
                        old(self).active.find.query@,
                    ) {
                        Some(seed) => seed,
                        None => Seq::empty(),
                    },
                ),
            ),
    {
        self.search.replacing_in_files = replacing;
        let seed: String = match self.search_seed(under_caret) {
            Some(seed) => seed,
            None => String::new(),
        };
        assert(seed@ =~= match search_seed_of(
            under_caret,
            self.search.options.regex,
            self.active.find.query@,
        ) {
            Some(seed) => seed,
            None => Seq::empty(),
        });
        self.prompt = Some(Prompt::seeded(PromptKind::SearchQuery, seed));
        Outcome::Handled
    }

    /// Whether the frontend carries the command out.
    pub fn frontend_owns(&self, command: &str) -> (r: bool)
        ensures
            r == owned_by_frontend(choices(self.frontend_commands@), command@),
    {
        let mut i: usize = 0;
        while i < self.frontend_commands.len()
            invariant
                i <= self.frontend_commands@.len(),
                forall|j: int|
                    0 <= j < i ==> (#[trigger] choices(self.frontend_commands@)[j]).id != command@,
            decreases self.frontend_commands@.len() - i,
        {
            if same(self.frontend_commands[i].id.as_str(), command) {
                assert(choices(self.frontend_commands@)[i as int].id == command@);
                return true;
            }
            i = i + 1;
        }
        false
    }

    /// Offers every command: `own` ones and the frontend's.
    pub fn show_commands(&mut self, own: Vec<PaletteEntry>) -> (r: Outcome)
        ensures
            r is Handled,
            prompted(
                *old(self),
                *final(self),
                PromptKind::Commands,
                Opening::List(
                    palette_of(choices(own@), choices(old(self).frontend_commands@)),
                ),
            ),
    {
        let list: Vec<PaletteEntry> = self.palette(own);
        self.prompt = Some(Prompt::list(PromptKind::Commands, list));
        Outcome::Handled
    }

    /// Every command that can be chosen: `own` ones and the frontend's, each with its identifier
    /// where it has no detail.
    pub fn palette(&self, own: Vec<PaletteEntry>) -> (r: Vec<PaletteEntry>)
        ensures
            choices(r@) == palette_of(choices(own@), choices(self.frontend_commands@)),
    {
        let mut all: Vec<PaletteEntry> = own;
        let ghost first = choices(own@);
        let mut more: Vec<PaletteEntry> = copy_entries(&self.frontend_commands);
        all.append(&mut more);
        let ghost wanted = first + choices(self.frontend_commands@);
        assert(choices(all@) =~= wanted);
        let mut r: Vec<PaletteEntry> = Vec::new();
        let mut i: usize = 0;
        while i < all.len()
            invariant
                i <= all@.len(),
                choices(all@) == wanted,
                r@.len() == i,
                forall|j: int| 0 <= j < i ==> (#[trigger] r@[j])@ == detailed(wanted[j]),
            decreases all@.len() - i,
        {
            let mut entry: PaletteEntry = all[i].clone();
            assert(entry@ == wanted[i as int]);
            if entry.detail.is_none() {
                entry.detail = Some(entry.id.clone());
            }
            assert(entry@ =~= detailed(wanted[i as int]));
            r.push(entry);
            i = i + 1;
        }
        assert(choices(r@) =~= palette_of(choices(own@), choices(self.frontend_commands@)));
        r
    }
}

/// Whether one of the frontend's commands has this identifier.
pub open spec fn owned_by_frontend(commands: Seq<Choice>, command: Seq<char>) -> bool {
    exists|i: int| 0 <= i < commands.len() && (#[trigger] commands[i]).id == command
}

// ---------------------------------------------------------------------------
// Prompts of the file tree
// ---------------------------------------------------------------------------

/// What is asked before an entry is deleted.
pub open spec fn delete_text(name: Seq<char>, is_dir: bool) -> Seq<char> {
    "delete "@ + (if is_dir {
        name + " and everything in it"@
    } else {
        name
    }) + "? this cannot be undone"@
}

/// Whether opening a prompt of the file tree comes to `outcome`. What is to be deleted is named
/// first, so something has to be selected for that.
pub open spec fn tree_prompts<B, S, M>(
    before: Session<B, S, M>,
    after: Session<B, S, M>,
    kind: PromptKind,
    outcome: Outcome,
) -> bool {
    match before.tree.explorer {
        None => after == before && outcome.says("there is no workspace open"@),
        Some(explorer) => if kind == PromptKind::ConfirmDelete {
            match explorer.selection {
                None => after == before && outcome.says(before.wording.no_selection@),
                Some(row) => {
                    &&& outcome is Handled
                    &&& after == (Session { prompt: after.prompt, status: after.status, ..before })
                    &&& asks(after.prompt, kind, Opening::Seeded(Seq::empty()))
                    &&& view_of(after.status) == Some(delete_text(row.name@, row.is_dir))
                },
            }
        } else {
            outcome is Handled && prompted(before, after, kind, Opening::Seeded(Seq::empty()))
        },
    }
}

/// Whether asking for a new name for the selected entry comes to `outcome`.
pub open spec fn rename_prompts<B, S, M>(
    before: Session<B, S, M>,
    after: Session<B, S, M>,
    outcome: Outcome,
) -> bool {
    match crate::session::tree::tree_selection(before.tree.explorer) {
        None => after == before && outcome.says(before.wording.no_selection@),
        Some(row) => outcome is Handled && prompted(
            before,
            after,
            PromptKind::RenameFile,
            Opening::Seeded(row.name@),
        ),
    }
}

impl<B, S, M> Session<B, S, M> {
    /// Opens one of the file tree's prompts, or says why not.
    pub fn open_tree_prompt(&mut self, kind: PromptKind) -> (r: Outcome)
        ensures
            tree_prompts(*old(self), *final(self), kind, r),
    {
        if self.tree.explorer.is_none() {
            return Outcome::Message("there is no workspace open".to_owned());
        }
        let seed: String = String::new();
        assert(seed@ =~= Seq::<char>::empty());
        if kind == PromptKind::ConfirmDelete {
            let row: TreeRow = match self.tree_selection() {
                Some(row) => row,
                None => {
                    return Outcome::Message(self.wording.no_selection.clone());
                },
            };
            let mut status: String = "delete ".to_owned();
            status.append(row.name.as_str());
            if row.is_dir {
                status.append(" and everything in it");
            }
            status.append("? this cannot be undone");
            assert(status@ =~= delete_text(row.name@, row.is_dir));
            self.prompt = Some(Prompt::seeded(kind, seed));
            self.status = Some(status);
            return Outcome::Handled;
        }
        self.prompt = Some(Prompt::seeded(kind, seed));
        Outcome::Handled
    }

    /// Asks for a new name for the selected entry, starting with the one it has.
    pub fn open_rename_file(&mut self) -> (r: Outcome)
        ensures
            rename_prompts(*old(self), *final(self), r),
    {
        match self.tree_selection() {
            Some(row) => {
                self.prompt = Some(Prompt::seeded(PromptKind::RenameFile, row.name));
                Outcome::Handled
            },
            None => Outcome::Message(self.wording.no_selection.clone()),
        }
    }
}

// ---------------------------------------------------------------------------
// Going to a line
// ---------------------------------------------------------------------------

/// The line and the column that were typed, both counted from one: `12` or `12:5`.
pub open spec fn line_wanted(text: Seq<char>) -> Option<(u32, u32)> {
    match split_at_char(text, ':') {
        None => match u32_of(text) {
            Some(line) => Some((line, 1)),
            None => None,
        },
        Some((line, column)) => match (u32_of(trim_of(line)), u32_of(trim_of(column))) {
            (Some(line), Some(column)) => Some((line, column)),
            _ => None,
        },
    }
}

/// The place that a line and a column stand for.
pub open spec fn place_of(line: u32, column: u32) -> Position {
    Position {
        line: (line - 1) as u32,
        character: if column == 0 {
            0
        } else {
            (column - 1) as u32
        },
    }
}

/// Whether `after` is `before` with the one caret at a place, to be brought on screen.
pub open spec fn caret_at<B, S, M>(
    before: Session<B, S, M>,
    after: Session<B, S, M>,
    at: Position,
) -> bool {
    let view = after.active.view;
    &&& after == (Session { active: Tab { view, ..before.active }, ..before })
    &&& view == (Viewport { selections: view.selections, reveal: true, ..before.active.view })
    &&& view.selections.is_single(Selection { anchor: at, active: at })
}

/// Whether going to the line that was typed comes to `outcome`. A column past the end of the line
/// is its end.
pub open spec fn goes_to_line<B, S, M, C: Fn(Position) -> Position>(
    before: Session<B, S, M>,
    after: Session<B, S, M>,
    text: Seq<char>,
    lines: u32,
    clamp: C,
    outcome: Outcome,
) -> bool {
    let typed = trim_of(text);
    if typed.len() == 0 {
        after == before && outcome is Handled
    } else {
        match line_wanted(typed) {
            None => after == before && outcome.says("`"@ + typed + "` is not a line number"@),
            Some((line, column)) => if line == 0 || line > lines {
                after == before && outcome.says(
                    "line "@ + decimal_of(line as nat) + " is outside 1-"@ + decimal_of(
                        lines as nat,
                    ),
                )
            } else {
                outcome is Handled && exists|target: Position|
                    #[trigger] clamp.ensures((place_of(line, column),), target) && caret_at(
                        before,
                        after,
                        target,
                    )
            },
        }
    }
}

/// The line and the column that were typed.
fn parse_line(text: &str) -> (r: Option<(u32, u32)>)
    ensures
        r == line_wanted(text@),
{
    match split_once(text, ':') {
        None => match parse_u32(text) {
            Some(line) => Some((line, 1)),
            None => None,
        },
        Some((line, column)) => {
            let line: String = trim(line.as_str());
            let column: String = trim(column.as_str());
            match (parse_u32(line.as_str()), parse_u32(column.as_str())) {
                (Some(line), Some(column)) => Some((line, column)),
                _ => None,
            }
        },
    }
}

impl<B, S, M> Session<B, S, M> {
    /// Puts the one caret at a place.
    pub fn put_caret(&mut self, at: Position)
        ensures
            caret_at(*old(self), *final(self), at),
    {
        self.active.view.selections = SelectionSet::caret(at);
        self.active.view.reveal = true;
    }

    /// Goes to the line that was typed, and the column if there was one. `lines` is how many
    /// lines the document has, and `clamp` brings a place inside it.
    pub fn go_to_line<C: Fn(Position) -> Position>(
        &mut self,
        text: &str,
        lines: u32,
        clamp: &C,
    ) -> (r: Outcome)
        requires
            forall|at: Position| clamp.requires((at,)),
        ensures
            goes_to_line(*old(self), *final(self), text@, lines, *clamp, r),
    {
        let typed: String = trim(text);
        if typed.as_str().is_empty() {
            return Outcome::Handled;
        }
        let (line, column): (u32, u32) = match parse_line(typed.as_str()) {
            Some(wanted) => wanted,
            None => {
                let mut message: String = "`".to_owned();
                message.append(typed.as_str());
                message.append("` is not a line number");
                return Outcome::Message(message);
            },
        };
        if line == 0 || line > lines {
            let mut message: String = "line ".to_owned();
            let number: String = decimal(line as u64);
            message.append(number.as_str());
            message.append(" is outside 1-");
            let number: String = decimal(lines as u64);
            message.append(number.as_str());
            return Outcome::Message(message);
        }
        let place: Position = Position::new(
            line - 1,
            if column == 0 {
                0
            } else {
                column - 1
            },
        );
        let target: Position = clamp(place);
        assert(clamp.ensures((place_of(line, column),), target));
        self.put_caret(target);
        Outcome::Handled
    }
}

// ---------------------------------------------------------------------------
// Answers
// ---------------------------------------------------------------------------

/// What the user answered, with what has to be known about it.
#[derive(Debug)]
pub struct Answer {
    /// What was typed.
    pub text: String,
    /// What is selected in the list, if anything is.
    pub selected: Option<PaletteEntry>,
    /// Why the text cannot be searched for.
    pub unsearchable: Option<String>,
    /// The name that is selected or under the caret.
    pub name_under_caret: Option<String>,
    /// How many lines the document has.
    pub lines: u32,
}

/// What an answer leads to.
#[derive(Debug)]
pub enum Accepted {
    /// It was carried out.
    Done(Outcome),
    /// A command is to be run.
    Run(String),
    /// The document is to be put into a language; `None` is the one its name implies.
    Language(Option<String>),
    /// An entry is to be made in the file tree.
    Create { name: String, folder: bool },
    /// The selected entry is to get another name.
    RenameFile(String),
    /// The selected entry is to be deleted.
    Delete,
}

/// What became of an answer.
#[derive(Debug)]
pub enum Answered {
    /// It was carried out.
    Done(Outcome),
    /// A command is to be run.
    Run(String),
}

/// What the names of files are checked with.
pub struct Names<N, I> {
    /// A name as it is taken, or why it cannot be one.
    pub checked: N,
    /// Why a path is not inside the workspace, where it is not.
    pub inside: I,
}

impl<
    N: Fn(&String) -> Result<String, String>,
    I: Fn(&PathBuf, &PathBuf) -> Result<(), String>,
> Names<N, I> {
    /// Whether everything can be checked.
    pub open spec fn ready(&self) -> bool {
        &&& forall|name: String| #[trigger] self.checked.requires((&name,))
        &&& forall|root: &PathBuf, path: &PathBuf| #[trigger] self.inside.requires((root, path))
    }
}

impl Accepted {
    /// Whether it came to a message that says `text`.
    pub open spec fn says(&self, text: Seq<char>) -> bool {
        self matches Accepted::Done(outcome) && outcome.says(text)
    }
}

/// The words for a filter that nothing is left of.
pub open spec fn no_match_text(what: Seq<char>, text: Seq<char>) -> Seq<char> {
    "no "@ + what + " matches `"@ + text + "`"@
}

/// Whether what was asked is answered by choosing from a list.
pub open spec fn is_choice(kind: PromptKind) -> bool {
    match kind {
        PromptKind::Branches => true,
        PromptKind::ConfirmCheckout => true,
        PromptKind::Commands => true,
        PromptKind::CodeActions => true,
        PromptKind::ExtensionPermissions => true,
        PromptKind::ExtensionConsent => true,
        PromptKind::Themes => true,
        PromptKind::Languages => true,
        PromptKind::Files => true,
        PromptKind::SearchResults => true,
        PromptKind::Symbols => true,
        _ => false,
    }
}

/// What is said where a list was filtered until nothing was left.
pub open spec fn unmatched_text(kind: PromptKind, text: Seq<char>) -> Seq<char> {
    match kind {
        PromptKind::Branches => no_match_text("branch"@, text),
        PromptKind::ConfirmCheckout => "branch switch cancelled"@,
        PromptKind::Commands => no_match_text("command"@, text),
        PromptKind::CodeActions => no_match_text("action"@, text),
        PromptKind::ExtensionPermissions => no_match_text("decision"@, text),
        PromptKind::ExtensionConsent => "no answer chosen"@,
        PromptKind::Themes => no_match_text("theme"@, text),
        PromptKind::Languages => no_match_text("language"@, text),
        PromptKind::SearchResults => no_match_text("result"@, text),
        PromptKind::Symbols => no_match_text("symbol"@, text),
        _ => no_match_text("file"@, text),
    }
}

/// Whether choosing an entry leads to `accepted`.
pub open spec fn picks(kind: PromptKind, entry: PaletteEntry, accepted: Accepted) -> bool {
    match kind {
        PromptKind::Branches => accepted == Accepted::Done(Outcome::GitCheckoutPreview(entry.id)),
        PromptKind::ConfirmCheckout => if entry.id@ == CHECKOUT_CANCEL@ {
            accepted.says("stayed on the current branch"@)
        } else {
            accepted == Accepted::Done(Outcome::GitOperation(ScmOperation::Checkout(entry.id)))
        },
        PromptKind::Commands => accepted == Accepted::Run(entry.id),
        PromptKind::CodeActions => accepted == Accepted::Done(Outcome::CodeAction(entry.id)),
        PromptKind::ExtensionPermissions => accepted == Accepted::Done(
            Outcome::ForgetExtensionPermission(entry.id),
        ),
        PromptKind::ExtensionConsent => accepted == Accepted::Done(
            Outcome::ExtensionConsent { allow: entry.id@ == CONSENT_ALLOW@ },
        ),
        PromptKind::Themes => accepted matches Accepted::Done(
            Outcome::LoadTheme { label, path },
        ) && label == entry.title && match path {
            Some(path) => entry.id@.len() > 0 && path.text@ == entry.id@,
            None => entry.id@.len() == 0,
        },
        PromptKind::Languages => if entry.id@ == AUTO_LANGUAGE@ {
            accepted == Accepted::Language(None)
        } else {
            accepted == Accepted::Language(Some(entry.id))
        },
        _ => accepted matches Accepted::Done(Outcome::OpenFile { path, at }) && path.text@
            == entry.id@ && at == entry.at,
    }
}

/// Whether answering with a query leads to `accepted`. A query of spaces is one; an empty one and
/// one that cannot be searched for are refused before any file is read.
pub open spec fn answers_query<B, S, M>(
    s: Session<B, S, M>,
    after: Session<B, S, M>,
    answer: Answer,
    accepted: Accepted,
) -> bool {
    let refused = Session { search: Search { replacing_in_files: false, ..s.search }, ..s };
    if answer.text@.len() == 0 {
        after == refused && accepted.says("nothing to search for"@)
    } else if let Some(error) = answer.unsearchable {
        after == refused && accepted.says(error@)
    } else if s.search.replacing_in_files {
        &&& accepted == Accepted::Done(Outcome::Handled)
        &&& after == (Session {
            prompt: after.prompt,
            search: Search { replace_query: answer.text, ..s.search },
            ..s
        })
        &&& asks(after.prompt, PromptKind::ReplaceQuery, Opening::Plain)
    } else {
        after == s && accepted == Accepted::Done(
            Outcome::SearchInFiles { query: answer.text, options: s.search.options },
        )
    }
}

/// Whether answering with a replacement leads to `accepted`. An empty one deletes what is found.
pub open spec fn answers_replacement<B, S, M>(
    s: Session<B, S, M>,
    after: Session<B, S, M>,
    answer: Answer,
    accepted: Accepted,
) -> bool {
    &&& after == (Session {
        search: Search {
            replacing_in_files: false,
            replace_query: after.search.replace_query,
            ..s.search
        },
        ..s
    })
    &&& after.search.replace_query@.len() == 0
    &&& if s.search.replace_query@.len() == 0 {
        accepted.says("nothing to replace"@)
    } else {
        accepted == Accepted::Done(
            Outcome::ReplaceInFiles {
                query: s.search.replace_query,
                replacement: answer.text,
                options: s.search.options,
            },
        )
    }
}

/// Whether answering with a new name for what is under the caret leads to `accepted`.
pub open spec fn answers_name(answer: Answer, accepted: Accepted) -> bool {
    let typed = trim_of(answer.text@);
    if typed.len() == 0 {
        accepted.says("no new name given"@)
    } else if view_of(answer.name_under_caret) == Some(typed) {
        accepted.says("`"@ + typed + "` is already its name"@)
    } else {
        accepted matches Accepted::Done(Outcome::Rename { new_name }) && new_name@ == typed
    }
}

/// Whether answering with a path leads to `accepted`.
pub open spec fn answers_path(kind: PromptKind, answer: Answer, accepted: Accepted) -> bool {
    let typed = trim_of(answer.text@);
    if typed.len() == 0 {
        accepted.says("no filename given"@)
    } else if kind == PromptKind::SaveAs {
        accepted matches Accepted::Done(Outcome::SaveAs(path)) && path.text@ == typed
    } else {
        accepted matches Accepted::Done(Outcome::OpenFile { path, at }) && path.text@ == typed
            && at is None
    }
}

/// Whether answering the question leads to `accepted`.
pub open spec fn answers<B, S, M, C: Fn(Position) -> Position>(
    s: Session<B, S, M>,
    after: Session<B, S, M>,
    kind: PromptKind,
    answer: Answer,
    clamp: C,
    accepted: Accepted,
) -> bool {
    if is_choice(kind) {
        after == s && match answer.selected {
            Some(entry) => picks(kind, entry, accepted),
            None => accepted.says(unmatched_text(kind, answer.text@)),
        }
    } else {
        match kind {
            PromptKind::GoToLine => accepted matches Accepted::Done(outcome) && goes_to_line(
                s,
                after,
                answer.text@,
                answer.lines,
                clamp,
                outcome,
            ),
            PromptKind::SearchQuery => answers_query(s, after, answer, accepted),
            PromptKind::ReplaceQuery => answers_replacement(s, after, answer, accepted),
            _ => after == s && answers_text(kind, answer, accepted),
        }
    }
}

/// Whether answering with a text leads to `accepted`. Only a typed `y` deletes.
pub open spec fn answers_text(kind: PromptKind, answer: Answer, accepted: Accepted) -> bool {
    match kind {
        PromptKind::NewFile => accepted == (Accepted::Create { name: answer.text, folder: false }),
        PromptKind::NewFolder => accepted == (Accepted::Create { name: answer.text, folder: true }),
        PromptKind::RenameFile => accepted == Accepted::RenameFile(answer.text),
        PromptKind::CommitMessage => accepted matches Accepted::Done(outcome) && commits(
            trim_of(answer.text@),
            outcome,
        ),
        PromptKind::ConfirmDelete => if lower_of(trim_of(answer.text@)) == "y"@ {
            accepted is Delete
        } else {
            accepted.says("nothing was deleted"@)
        },
        PromptKind::Rename => answers_name(answer, accepted),
        _ => answers_path(kind, answer, accepted),
    }
}

/// Whether accepting what is answered leads to `accepted`: the prompt is closed first.
pub open spec fn accepts<B, S, M, C: Fn(Position) -> Position>(
    before: Session<B, S, M>,
    after: Session<B, S, M>,
    answer: Answer,
    clamp: C,
    accepted: Accepted,
) -> bool {
    match before.prompt {
        None => after == before && accepted == Accepted::Done(Outcome::Handled),
        Some(prompt) => answers(
            Session { prompt: None, ..before },
            after,
            prompt.kind,
            answer,
            clamp,
            accepted,
        ),
    }
}

/// Whether carrying out what an answer leads to comes to `answered`. Only a command is left to be
/// run.
pub open spec fn carries_out<
    B,
    S,
    M,
    N: Fn(&String) -> Result<String, String>,
    I: Fn(&PathBuf, &PathBuf) -> Result<(), String>,
    L: Fn(&PathBuf) -> Option<String>,
    T: Fn(&String) -> String,
    E: Fn(&Option<String>) -> EditorSettings,
>(
    names: Names<N, I>,
    languages: Languages<L, T, E>,
    before: Session<B, S, M>,
    after: Session<B, S, M>,
    accepted: Accepted,
    answered: Answered,
) -> bool {
    match (accepted, answered) {
        (Accepted::Run(command), _) => after == before && answered == Answered::Run(command),
        (Accepted::Done(outcome), _) => after == before && answered == Answered::Done(outcome),
        (Accepted::Language(language), Answered::Done(outcome)) => sets_language(
            languages,
            before,
            after,
            language,
            outcome,
        ),
        (Accepted::Create { name, folder }, Answered::Done(outcome)) => exists|
            checked: Result<String, String>,
        |
            names.checked.ensures((&name,), checked) && #[trigger] creates(
                before,
                after,
                checked,
                folder,
                names.inside,
                outcome,
            ),
        (Accepted::RenameFile(name), Answered::Done(outcome)) => exists|
            checked: Result<String, String>,
        |
            names.checked.ensures((&name,), checked) && #[trigger] renames(
                before,
                after,
                name@,
                checked,
                names.inside,
                outcome,
            ),
        (Accepted::Delete, Answered::Done(outcome)) => deletes(
            before,
            after,
            names.inside,
            outcome,
        ),
        (_, Answered::Run(_)) => false,
    }
}

/// The words for a filter that nothing is left of.
fn no_match(what: &str, text: &str) -> (r: String)
    ensures
        r@ == no_match_text(what@, text@),
{
    let mut r: String = "no ".to_owned();
    r.append(what);
    r.append(" matches `");
    r.append(text);
    r.append("`");
    r
}

/// Whether what was asked is answered by choosing from a list.
fn from_list(kind: PromptKind) -> (r: bool)
    ensures
        r == is_choice(kind),
{
    match kind {
        PromptKind::Branches => true,
        PromptKind::ConfirmCheckout => true,
        PromptKind::Commands => true,
        PromptKind::CodeActions => true,
        PromptKind::ExtensionPermissions => true,
        PromptKind::ExtensionConsent => true,
        PromptKind::Themes => true,
        PromptKind::Languages => true,
        PromptKind::Files => true,
        PromptKind::SearchResults => true,
        PromptKind::Symbols => true,
        _ => false,
    }
}

/// What is said where a list was filtered until nothing was left.
fn unmatched(kind: PromptKind, text: &str) -> (r: String)
    ensures
        r@ == unmatched_text(kind, text@),
{
    match kind {
        PromptKind::Branches => no_match("branch", text),
        PromptKind::ConfirmCheckout => "branch switch cancelled".to_owned(),
        PromptKind::Commands => no_match("command", text),
        PromptKind::CodeActions => no_match("action", text),
        PromptKind::ExtensionPermissions => no_match("decision", text),
        PromptKind::ExtensionConsent => "no answer chosen".to_owned(),
        PromptKind::Themes => no_match("theme", text),
        PromptKind::Languages => no_match("language", text),
        PromptKind::SearchResults => no_match("result", text),
        PromptKind::Symbols => no_match("symbol", text),
        _ => no_match("file", text),
    }
}

/// What choosing an entry leads to.
fn pick(kind: PromptKind, entry: PaletteEntry) -> (r: Accepted)
    ensures
        picks(kind, entry, r),
{
    match kind {
        PromptKind::Branches => Accepted::Done(Outcome::GitCheckoutPreview(entry.id)),
        PromptKind::ConfirmCheckout => {
            if same(entry.id.as_str(), CHECKOUT_CANCEL) {
                return Accepted::Done(Outcome::Message("stayed on the current branch".to_owned()));
            }
            Accepted::Done(Outcome::GitOperation(ScmOperation::Checkout(entry.id)))
        },
        PromptKind::Commands => Accepted::Run(entry.id),
        PromptKind::CodeActions => Accepted::Done(Outcome::CodeAction(entry.id)),
        PromptKind::ExtensionPermissions => Accepted::Done(
            Outcome::ForgetExtensionPermission(entry.id),
        ),
        PromptKind::ExtensionConsent => {
            let allow: bool = same(entry.id.as_str(), CONSENT_ALLOW);
            Accepted::Done(Outcome::ExtensionConsent { allow })
        },
        PromptKind::Themes => {
            let path: Option<PathBuf> = if entry.id.as_str().is_empty() {
                None
            } else {
                Some(PathBuf::from(entry.id.as_str()))
            };
            Accepted::Done(Outcome::LoadTheme { label: entry.title, path })
        },
        PromptKind::Languages => {
            if same(entry.id.as_str(), AUTO_LANGUAGE) {
                return Accepted::Language(None);
            }
            Accepted::Language(Some(entry.id))
        },
        _ => Accepted::Done(
            Outcome::OpenFile { path: PathBuf::from(entry.id.as_str()), at: entry.at },
        ),
    }
}

/// What answering with a new name leads to.
fn answer_name(answer: &Answer) -> (r: Accepted)
    ensures
        answers_name(*answer, r),
{
    let typed: String = trim(answer.text.as_str());
    if typed.as_str().is_empty() {
        return Accepted::Done(Outcome::Message("no new name given".to_owned()));
    }
    let unchanged: bool = match &answer.name_under_caret {
        Some(name) => same(name.as_str(), typed.as_str()),
        None => false,
    };
    if unchanged {
        let mut message: String = "`".to_owned();
        message.append(typed.as_str());
        message.append("` is already its name");
        return Accepted::Done(Outcome::Message(message));
    }
    Accepted::Done(Outcome::Rename { new_name: typed })
}

/// What answering with a path leads to.
fn answer_path(kind: PromptKind, answer: &Answer) -> (r: Accepted)
    ensures
        answers_path(kind, *answer, r),
{
    let typed: String = trim(answer.text.as_str());
    if typed.as_str().is_empty() {
        return Accepted::Done(Outcome::Message("no filename given".to_owned()));
    }
    let path: PathBuf = PathBuf::from(typed.as_str());
    if kind == PromptKind::SaveAs {
        Accepted::Done(Outcome::SaveAs(path))
    } else {
        Accepted::Done(Outcome::OpenFile { path, at: None })
    }
}

impl<B, S, M> Session<B, S, M> {
    /// What answering with a text leads to.
    fn answer_text(&self, kind: PromptKind, answer: Answer) -> (r: Accepted)
        ensures
            answers_text(kind, answer, r),
    {
        match kind {
            PromptKind::NewFile => Accepted::Create { name: answer.text, folder: false },
            PromptKind::NewFolder => Accepted::Create { name: answer.text, folder: true },
            PromptKind::RenameFile => Accepted::RenameFile(answer.text),
            PromptKind::CommitMessage => {
                let message: String = trim(answer.text.as_str());
                Accepted::Done(self.commit(message))
            },
            PromptKind::ConfirmDelete => {
                let typed: String = trim(answer.text.as_str());
                let typed: String = to_lower(typed.as_str());
                if same(typed.as_str(), "y") {
                    Accepted::Delete
                } else {
                    Accepted::Done(Outcome::Message("nothing was deleted".to_owned()))
                }
            },
            PromptKind::Rename => answer_name(&answer),
            _ => answer_path(kind, &answer),
        }
    }

    /// Takes a query, and asks for what is to replace what it finds where that was wanted.
    fn answer_query(&mut self, answer: Answer) -> (r: Accepted)
        ensures
            answers_query(*old(self), *final(self), answer, r),
    {
        if answer.text.as_str().is_empty() {
            self.search.replacing_in_files = false;
            return Accepted::Done(Outcome::Message("nothing to search for".to_owned()));
        }
        if let Some(error) = answer.unsearchable {
            self.search.replacing_in_files = false;
            return Accepted::Done(Outcome::Message(error));
        }
        if self.search.replacing_in_files {
            self.search.replace_query = answer.text;
            self.prompt = Some(Prompt::plain(PromptKind::ReplaceQuery));
            return Accepted::Done(Outcome::Handled);
        }
        Accepted::Done(
            Outcome::SearchInFiles { query: answer.text, options: self.search.options },
        )
    }

    /// Takes what is to replace what the query finds.
    fn answer_replacement(&mut self, answer: Answer) -> (r: Accepted)
        ensures
            answers_replacement(*old(self), *final(self), answer, r),
    {
        self.search.replacing_in_files = false;
        let mut query: String = String::new();
        std::mem::swap(&mut query, &mut self.search.replace_query);
        if query.as_str().is_empty() {
            return Accepted::Done(Outcome::Message("nothing to replace".to_owned()));
        }
        Accepted::Done(
            Outcome::ReplaceInFiles {
                query,
                replacement: answer.text,
                options: self.search.options,
            },
        )
    }

    /// Closes the prompt and does what was answered; a command that was chosen is left to be run.
    ///
    /// `clamp` brings a place inside the document, `names` are what a typed name is checked with,
    /// and `languages` where a chosen language is looked up.
    pub fn accept_prompt<
        C: Fn(Position) -> Position,
        N: Fn(&String) -> Result<String, String>,
        I: Fn(&PathBuf, &PathBuf) -> Result<(), String>,
        L: Fn(&PathBuf) -> Option<String>,
        T: Fn(&String) -> String,
        E: Fn(&Option<String>) -> EditorSettings,
    >(
        &mut self,
        answer: Answer,
        clamp: &C,
        names: &Names<N, I>,
        languages: &Languages<L, T, E>,
    ) -> (r: Answered)
        requires
            old(self).tabs().len() <= usize::MAX,
            forall|at: Position| clamp.requires((at,)),
            names.ready(),
            languages.ready(),
        ensures
            exists|mid: Session<B, S, M>, accepted: Accepted|
                #[trigger] accepts(*old(self), mid, answer, *clamp, accepted)
                    && #[trigger] carries_out(
                    *names,
                    *languages,
                    mid,
                    *final(self),
                    accepted,
                    r,
                ),
    {
        let accepted: Accepted = self.take_answer(answer, clamp);
        let ghost mid = *self;
        assert(accepts(*old(self), mid, answer, *clamp, accepted));
        assert(!(accepted is Done) ==> mid.tabs() == old(self).tabs());
        let r: Answered = match accepted {
            Accepted::Done(outcome) => Answered::Done(outcome),
            Accepted::Run(command) => Answered::Run(command),
            Accepted::Language(language) => Answered::Done(self.set_language(language, languages)),
            Accepted::Create { name, folder } => {
                let checked: Result<String, String> = (names.checked)(&name);
                Answered::Done(self.create_in_tree(checked, folder, &names.inside))
            },
            Accepted::RenameFile(name) => {
                let checked: Result<String, String> = (names.checked)(&name);
                Answered::Done(self.rename_in_tree(name.as_str(), checked, &names.inside))
            },
            Accepted::Delete => Answered::Done(self.delete_in_tree(&names.inside)),
        };
        assert(carries_out(*names, *languages, mid, *self, accepted, r));
        r
    }

    /// Closes the prompt and says what was answered.
    fn take_answer<C: Fn(Position) -> Position>(&mut self, answer: Answer, clamp: &C) -> (r:
        Accepted)
        requires
            forall|at: Position| clamp.requires((at,)),
        ensures
            accepts(*old(self), *final(self), answer, *clamp, r),
    {
        let kind: PromptKind = match self.prompt.take() {
            Some(prompt) => prompt.kind,
            None => {
                return Accepted::Done(Outcome::Handled);
            },
        };
        if from_list(kind) {
            return match answer.selected {
                Some(entry) => pick(kind, entry),
                None => Accepted::Done(Outcome::Message(unmatched(kind, answer.text.as_str()))),
            };
        }
        match kind {
            PromptKind::GoToLine => Accepted::Done(
                self.go_to_line(answer.text.as_str(), answer.lines, clamp),
            ),
            PromptKind::SearchQuery => self.answer_query(answer),
            PromptKind::ReplaceQuery => self.answer_replacement(answer),
            _ => self.answer_text(kind, answer),
        }
    }
}

// ---------------------------------------------------------------------------
// Laws
// ---------------------------------------------------------------------------

pub(crate) proof fn lemma_recency_bound(recent: Seq<PathBuf>, path: Seq<Part>)
    ensures
        0 <= recency(recent, path) <= recent.len(),
    decreases recent.len(),
{
    if recent.len() > 0 {
        lemma_recency_bound(recent.skip(1), path);
    }
}

/// A rank holds each choice of that recency as often as the list does.
proof fn lemma_ranked_count(recent: Seq<PathBuf>, list: Seq<Choice>, rank: int, choice: Choice)
    ensures
        ranked(recent, list, rank).to_multiset().count(choice) == if choice_recency(recent, choice)
            == rank {
            list.to_multiset().count(choice)
        } else {
            0
        },
    decreases list.len(),
{
    broadcast use vstd::seq_lib::group_to_multiset_ensures;
    broadcast use vstd::multiset::group_multiset_axioms;

    if list.len() > 0 {
        let rest = list.drop_last();
        lemma_ranked_count(recent, rest, rank, choice);
        assert(rest.push(list.last()) =~= list);
        assert(list.to_multiset() == rest.to_multiset().insert(list.last()));
        if choice_recency(recent, list.last()) == rank {
            assert(ranked(recent, list, rank).to_multiset() == ranked(
                recent,
                rest,
                rank,
            ).to_multiset().insert(list.last()));
        }
    } else {
        assert(ranked(recent, list, rank) =~= list);
        assert(list.to_multiset().count(choice) == 0) by {
            assert(!list.contains(choice));
        }
    }
}

proof fn lemma_by_recency_count(recent: Seq<PathBuf>, list: Seq<Choice>, n: int, choice: Choice)
    requires
        n >= 0,
    ensures
        by_recency(recent, list, n).to_multiset().count(choice) == if choice_recency(recent, choice)
            < n {
            list.to_multiset().count(choice)
        } else {
            0
        },
    decreases n,
{
    broadcast use vstd::seq_lib::group_to_multiset_ensures;
    broadcast use vstd::multiset::group_multiset_axioms;

    lemma_recency_bound(recent, crate::path::parts_of(choice.id));
    if n > 0 {
        lemma_by_recency_count(recent, list, n - 1, choice);
        lemma_ranked_count(recent, list, n - 1, choice);
        vstd::seq_lib::lemma_multiset_commutative(
            by_recency(recent, list, n - 1),
            ranked(recent, list, n - 1),
        );
    } else {
        assert(!by_recency(recent, list, n).contains(choice));
    }
}

/// Ordering files by recency loses none of them, and offers none twice that was not listed twice.
pub proof fn law_ordering_by_recency_loses_nothing(recent: Seq<PathBuf>, list: Seq<Choice>)
    ensures
        by_recency(recent, list, (recent.len() + 1) as int).to_multiset() == list.to_multiset(),
{
    let ordered = by_recency(recent, list, (recent.len() + 1) as int);
    assert forall|choice: Choice|
        ordered.to_multiset().count(choice) == list.to_multiset().count(choice) by {
        lemma_by_recency_count(recent, list, (recent.len() + 1) as int, choice);
        lemma_recency_bound(recent, crate::path::parts_of(choice.id));
    }
    assert(ordered.to_multiset() =~= list.to_multiset());
}

proof fn lemma_ranked_none(recent: Seq<PathBuf>, list: Seq<Choice>, rank: int)
    requires
        recent.len() == 0,
    ensures
        ranked(recent, list, rank) == if rank == 0 {
            list
        } else {
            Seq::empty()
        },
    decreases list.len(),
{
    if list.len() > 0 {
        lemma_ranked_none(recent, list.drop_last(), rank);
        assert(list.drop_last().push(list.last()) =~= list);
    } else {
        assert(ranked(recent, list, rank) =~= list);
    }
}

/// Where nothing has been on screen, the files keep the order they came in.
pub proof fn law_without_history_the_order_stays(list: Seq<Choice>)
    ensures
        by_recency(Seq::empty(), list, 1) == list,
{
    lemma_ranked_none(Seq::empty(), list, 0);
    reveal_with_fuel(by_recency, 2);
    assert(by_recency(Seq::<PathBuf>::empty(), list, 1) =~= list);
}

/// Asking about an extension's request offers to allow it and to deny it, under the identifiers
/// by which the answer is read.
pub proof fn law_consent_offers_both_answers(what: Seq<char>)
    ensures
        consent_choices(what).len() == 2,
        consent_choices(what)[0].id == CONSENT_ALLOW@,
        consent_choices(what)[1].id == CONSENT_DENY@,
{
}

/// An answered prompt is closed: nothing more is asked, but for the replacement that a search
/// leads to.
pub proof fn law_an_answered_prompt_is_closed<B, S, M, C: Fn(Position) -> Position>(
    before: Session<B, S, M>,
    after: Session<B, S, M>,
    answer: Answer,
    clamp: C,
    accepted: Accepted,
)
    requires
        accepts(before, after, answer, clamp, accepted),
    ensures
        after.prompt is Some ==> before.search.replacing_in_files && asks(
            after.prompt,
            PromptKind::ReplaceQuery,
            Opening::Plain,
        ),
{
}

/// Answering a prompt touches no document and no tab.
pub proof fn law_an_answer_changes_no_document<B, S, M, C: Fn(Position) -> Position>(
    before: Session<B, S, M>,
    after: Session<B, S, M>,
    answer: Answer,
    clamp: C,
    accepted: Accepted,
)
    requires
        accepts(before, after, answer, clamp, accepted),
    ensures
        after.active.document == before.active.document,
        after.left == before.left,
        after.right == before.right,
{
}

/// Nothing is deleted unless a `y` was typed, whatever else was asked or answered.
pub proof fn law_deleting_takes_a_typed_yes<B, S, M, C: Fn(Position) -> Position>(
    before: Session<B, S, M>,
    after: Session<B, S, M>,
    answer: Answer,
    clamp: C,
    accepted: Accepted,
)
    requires
        accepts(before, after, answer, clamp, accepted),
        accepted is Delete,
    ensures
        before.prompt matches Some(prompt) && prompt.kind == PromptKind::ConfirmDelete,
        lower_of(trim_of(answer.text@)) == "y"@,
{
}

/// The workspace is never searched for nothing.
pub proof fn law_nothing_is_never_searched_for<B, S, M, C: Fn(Position) -> Position>(
    before: Session<B, S, M>,
    after: Session<B, S, M>,
    answer: Answer,
    clamp: C,
    accepted: Accepted,
)
    requires
        accepts(before, after, answer, clamp, accepted),
    ensures
        accepted matches Accepted::Done(Outcome::SearchInFiles { query, .. }) ==> query@.len() > 0
            && answer.unsearchable is None,
        accepted matches Accepted::Done(Outcome::ReplaceInFiles { query, .. }) ==> query@.len()
            > 0,
{
}

} // verus!
