//! Installed extensions, and which of them may start running.
//!
//! This module decides which installed extensions start a host process, and when. The frontend
//! walks the filesystem and hands over the manifests.
//!
//! An extension with no `main` never starts a process: it stands in the catalogue because its
//! contributions exist, and [`Catalogue::to_activate`] never returns it.

use vstd::prelude::*;
use crate::activation::{any_fires, parse_all, ActivationEvent, Trigger};
#[allow(unused_imports)]
use crate::activation::{event_of, events_in, may_fire, may_not_fire, Event};
use crate::manifest::Manifest;
#[allow(unused_imports)]
use crate::manifest::CommandContribution;
use crate::path::PathBuf;
use crate::text::{copy_option, is_blank, same};
#[allow(unused_imports)]
use crate::text::{blank, view_of, views};

verus! {

/// A command an extension contributes.
#[derive(Debug, Clone, PartialEq, Eq)]
pub struct Contributed {
    /// The command id.
    pub command: String,
    /// The label for the palette.
    pub title: String,
    /// A grouping prefix, shown before the title.
    pub category: Option<String>,
}

/// A [`Contributed`], as a value in contracts.
#[verifier::ext_equal]
pub struct Offer {
    pub command: Seq<char>,
    pub title: Seq<char>,
    pub category: Option<Seq<char>>,
}

impl View for Contributed {
    type V = Offer;

    open spec fn view(&self) -> Offer {
        Offer { command: self.command@, title: self.title@, category: view_of(self.category) }
    }
}

/// The label of a command in a palette.
pub open spec fn offer_label(offer: Offer) -> Seq<char> {
    match offer.category {
        Some(category) => if category.len() > 0 {
            category + ": "@ + offer.title
        } else {
            offer.title
        },
        None => offer.title,
    }
}

impl Contributed {
    /// The command's label in a palette: `Category: Title`, or just the title.
    pub fn label(&self) -> (r: String)
        ensures
            r@ == offer_label(self@),
    {
        if let Some(category) = &self.category {
            if !category.as_str().is_empty() {
                let mut r: String = category.clone();
                r.append(": ");
                r.append(self.title.as_str());
                return r;
            }
        }
        self.title.clone()
    }
}

/// One installed extension, as far as starting it is concerned.
#[derive(Debug, Clone, PartialEq, Eq)]
pub struct Installed {
    /// `publisher.name`, or `local.name` for an unpublished one.
    pub id: String,
    /// The name shown to the user.
    pub label: String,
    /// The directory it was found in.
    pub root: PathBuf,
    /// The version from its manifest. A remembered permission applies to this code alone.
    pub version: String,
    /// Its entry point, relative to `root`. `None` for a declarative extension, which never runs.
    pub main: Option<String>,
    /// Its `activationEvents`.
    pub activation: Vec<ActivationEvent>,
    /// The commands it contributes.
    pub commands: Vec<Contributed>,
}

/// An [`Installed`], as a value in contracts.
#[verifier::ext_equal]
pub struct Listing {
    pub id: Seq<char>,
    pub label: Seq<char>,
    pub root: Seq<char>,
    pub version: Seq<char>,
    pub main: Option<Seq<char>>,
    pub activation: Seq<Event>,
    pub commands: Seq<Offer>,
}

/// The offers of a list of commands.
pub open spec fn offers(list: Seq<Contributed>) -> Seq<Offer> {
    Seq::new(list.len(), |i: int| list[i]@)
}

impl View for Installed {
    type V = Listing;

    open spec fn view(&self) -> Listing {
        Listing {
            id: self.id@,
            label: self.label@,
            root: self.root.text@,
            version: self.version@,
            main: view_of(self.main),
            activation: events_in(self.activation@),
            commands: offers(self.commands@),
        }
    }
}

/// The listings of a list of extensions.
pub open spec fn listings(list: Seq<Installed>) -> Seq<Listing> {
    Seq::new(list.len(), |i: int| list[i]@)
}

/// Whether one of `commands` has this id.
pub open spec fn offers_command(commands: Seq<Offer>, command: Seq<char>) -> bool {
    exists|i: int| 0 <= i < commands.len() && (#[trigger] commands[i]).command == command
}

impl Installed {
    /// Whether this extension has code to run at all.
    pub fn runnable(&self) -> (r: bool)
        ensures
            r == (self@.main is Some),
    {
        self.main.is_some()
    }

    /// Whether it contributes `command`.
    pub fn contributes(&self, command: &str) -> (r: bool)
        ensures
            r == offers_command(self@.commands, command@),
    {
        let mut i: usize = 0;
        while i < self.commands.len()
            invariant
                i <= self.commands@.len(),
                forall|j: int| 0 <= j < i ==> (#[trigger] self@.commands[j]).command != command@,
            decreases self.commands@.len() - i,
        {
            if same(self.commands[i].command.as_str(), command) {
                assert(self@.commands[i as int].command == command@);
                return true;
            }
            i = i + 1;
        }
        false
    }
}

/// Everything installed, with the collisions found on the way.
#[derive(Debug, Clone, PartialEq, Eq)]
pub struct Catalogue {
    /// The extensions, in the order they were found.
    pub extensions: Vec<Installed>,
    /// Problems found while building the catalogue, as messages for the user.
    ///
    /// Collected, and never a reason to fail: one broken extension directory does not stop the
    /// others from working.
    pub problems: Vec<String>,
}

/// A [`Catalogue`], as a value in contracts.
#[verifier::ext_equal]
pub struct Index {
    pub extensions: Seq<Listing>,
    pub problems: Seq<Seq<char>>,
}

impl View for Catalogue {
    type V = Index;

    open spec fn view(&self) -> Index {
        Index { extensions: listings(self.extensions@), problems: views(self.problems@) }
    }
}

impl Default for Catalogue {
    fn default() -> (r: Catalogue)
        ensures
            r@ == (Index { extensions: Seq::empty(), problems: Seq::empty() }),
    {
        let r = Catalogue { extensions: Vec::new(), problems: Vec::new() };
        assert(r@.extensions =~= Seq::empty());
        assert(r@.problems =~= Seq::empty());
        r
    }
}

/// The first listing with this identifier.
pub open spec fn listed(extensions: Seq<Listing>, id: Seq<char>) -> Option<Listing>
    decreases extensions.len(),
{
    if extensions.len() == 0 {
        None
    } else if extensions[0].id == id {
        Some(extensions[0])
    } else {
        listed(extensions.skip(1), id)
    }
}

/// The first listing that offers this command.
pub open spec fn command_owner(extensions: Seq<Listing>, command: Seq<char>) -> Option<Listing>
    decreases extensions.len(),
{
    if extensions.len() == 0 {
        None
    } else if offers_command(extensions[0].commands, command) {
        Some(extensions[0])
    } else {
        command_owner(extensions.skip(1), command)
    }
}

/// What is said of an extension found a second time.
pub open spec fn twice_text(id: Seq<char>, kept: Seq<char>, ignored: Seq<char>) -> Seq<char> {
    "extension "@ + id + " is installed twice; using "@ + kept + " and ignoring "@ + ignored
}

/// What is said of a command with no id.
pub open spec fn nameless_text(id: Seq<char>) -> Seq<char> {
    "extension "@ + id + " contributes a command with no id, which nothing could invoke"@
}

/// What is said of a command that another extension contributes already.
pub open spec fn taken_text(command: Seq<char>, owner: Seq<char>, id: Seq<char>) -> Seq<char> {
    "command "@ + command + " is contributed by both "@ + owner + " and "@ + id + "; "@ + owner
        + " keeps it"@
}

/// A command contribution, as an offer.
pub open spec fn offered(contribution: CommandContribution) -> Offer {
    Offer {
        command: contribution.command@,
        title: contribution.title@,
        category: view_of(contribution.category),
    }
}

/// The contributions that the extension `id` gets to keep, given those listed before it.
pub open spec fn kept_commands(
    before: Seq<Listing>,
    contributions: Seq<CommandContribution>,
) -> Seq<Offer>
    decreases contributions.len(),
{
    if contributions.len() == 0 {
        Seq::empty()
    } else {
        let rest = kept_commands(before, contributions.drop_last());
        let command = contributions.last().command@;
        if blank(command) || command_owner(before, command) is Some {
            rest
        } else {
            rest.push(offered(contributions.last()))
        }
    }
}

/// What is said of the contributions that the extension `id` does not get to keep.
pub open spec fn command_problems(
    before: Seq<Listing>,
    id: Seq<char>,
    contributions: Seq<CommandContribution>,
) -> Seq<Seq<char>>
    decreases contributions.len(),
{
    if contributions.len() == 0 {
        Seq::empty()
    } else {
        let rest = command_problems(before, id, contributions.drop_last());
        let command = contributions.last().command@;
        if blank(command) {
            rest.push(nameless_text(id))
        } else {
            match command_owner(before, command) {
                Some(owner) => rest.push(taken_text(command, owner.id, id)),
                None => rest,
            }
        }
    }
}

/// A manifest as it is listed, given the extensions listed before it.
pub open spec fn listing_of(before: Seq<Listing>, root: PathBuf, manifest: Manifest) -> Listing {
    Listing {
        id: manifest.id(),
        label: manifest.shown_name(),
        root: root.text@,
        version: manifest.version@,
        main: match manifest.main {
            Some(main) => if blank(main@) {
                None
            } else {
                Some(main@)
            },
            None => None,
        },
        activation: Seq::new(
            manifest.activation_events@.len(),
            |i: int| event_of(manifest.activation_events@[i]@),
        ),
        commands: kept_commands(before, manifest.contributes.commands@),
    }
}

/// The index with one more manifest.
pub open spec fn with_manifest(index: Index, root: PathBuf, manifest: Manifest) -> Index {
    match listed(index.extensions, manifest.id()) {
        Some(first) => Index {
            problems: index.problems.push(twice_text(manifest.id(), first.root, root.text@)),
            ..index
        },
        None => Index {
            extensions: index.extensions.push(listing_of(index.extensions, root, manifest)),
            problems: index.problems + command_problems(
                index.extensions,
                manifest.id(),
                manifest.contributes.commands@,
            ),
        },
    }
}

/// The index of manifests in the order they were found. Of two that conflict the earlier stays.
pub open spec fn index_of(entries: Seq<(PathBuf, Manifest)>) -> Index
    decreases entries.len(),
{
    if entries.len() == 0 {
        Index { extensions: Seq::empty(), problems: Seq::empty() }
    } else {
        with_manifest(index_of(entries.drop_last()), entries.last().0, entries.last().1)
    }
}

/// Every offer with the position of the listing that makes it, in order.
pub open spec fn all_offers(extensions: Seq<Listing>) -> Seq<(Listing, Offer)>
    decreases extensions.len(),
{
    if extensions.len() == 0 {
        Seq::empty()
    } else {
        let last = extensions.last();
        all_offers(extensions.drop_last()) + Seq::new(
            last.commands.len(),
            |i: int| (last, last.commands[i]),
        )
    }
}

/// The listings that have code to run.
pub open spec fn runnable_only(extensions: Seq<Listing>) -> Seq<Listing>
    decreases extensions.len(),
{
    if extensions.len() == 0 {
        Seq::empty()
    } else if extensions.last().main is Some {
        runnable_only(extensions.drop_last()).push(extensions.last())
    } else {
        runnable_only(extensions.drop_last())
    }
}

/// The roots of the listings that have code to run.
pub open spec fn runnable_roots(extensions: Seq<Listing>) -> Seq<Seq<char>> {
    Seq::new(runnable_only(extensions).len(), |i: int| runnable_only(extensions)[i].root)
}

/// Whether the extension may be started by `trigger`: it has code, and one of its events fires or
/// it contributes the invoked command.
pub open spec fn may_activate<G: Fn(&String, &String) -> bool>(
    extension: Installed,
    trigger: Trigger<'_>,
    glob: G,
) -> bool {
    &&& extension.main is Some
    &&& {
        ||| trigger matches Trigger::Command(command) && offers_command(
            extension@.commands,
            command@,
        )
        ||| exists|i: int|
            0 <= i < extension.activation@.len() && may_fire(
                #[trigger] extension.activation@[i],
                trigger,
                glob,
            )
    }
}

/// Whether the extension may be left alone by `trigger`.
pub open spec fn may_stay<G: Fn(&String, &String) -> bool>(
    extension: Installed,
    trigger: Trigger<'_>,
    glob: G,
) -> bool {
    ||| extension.main is None
    ||| {
        &&& !(trigger matches Trigger::Command(command) && offers_command(
            extension@.commands,
            command@,
        ))
        &&& forall|i: int|
            0 <= i < extension.activation@.len() ==> may_not_fire(
                #[trigger] extension.activation@[i],
                trigger,
                glob,
            )
    }
}

/// The extensions chosen by one answer for each, in order.
pub open spec fn chosen(extensions: Seq<Installed>, answers: Seq<bool>) -> Seq<Installed>
    decreases extensions.len(),
{
    if extensions.len() == 0 || answers.len() != extensions.len() {
        Seq::empty()
    } else {
        let rest = chosen(extensions.drop_last(), answers.drop_last());
        if answers.last() {
            rest.push(extensions.last())
        } else {
            rest
        }
    }
}

/// The extensions a list refers to.
pub open spec fn referred(list: Seq<&Installed>) -> Seq<Installed> {
    Seq::new(list.len(), |i: int| *list[i])
}

/// The text that says an extension was found twice.
fn twice_message(id: &str, kept: &str, ignored: &str) -> (r: String)
    ensures
        r@ == twice_text(id@, kept@, ignored@),
{
    let mut r: String = "extension ".to_owned();
    r.append(id);
    r.append(" is installed twice; using ");
    r.append(kept);
    r.append(" and ignoring ");
    r.append(ignored);
    r
}

/// The text that says a command has no id.
fn nameless_message(id: &str) -> (r: String)
    ensures
        r@ == nameless_text(id@),
{
    let mut r: String = "extension ".to_owned();
    r.append(id);
    r.append(" contributes a command with no id, which nothing could invoke");
    r
}

/// The text that says a command is another extension's.
fn taken_message(command: &str, owner: &str, id: &str) -> (r: String)
    ensures
        r@ == taken_text(command@, owner@, id@),
{
    let mut r: String = "command ".to_owned();
    r.append(command);
    r.append(" is contributed by both ");
    r.append(owner);
    r.append(" and ");
    r.append(id);
    r.append("; ");
    r.append(owner);
    r.append(" keeps it");
    r
}

impl Catalogue {
    /// Sorts out one manifest's commands: those it keeps, and what is said of the others.
    fn sort_commands(&self, id: &str, contributions: &Vec<CommandContribution>) -> (r: (
        Vec<Contributed>,
        Vec<String>,
    ))
        ensures
            offers(r.0@) == kept_commands(self@.extensions, contributions@),
            views(r.1@) == command_problems(self@.extensions, id@, contributions@),
    {
        let mut kept: Vec<Contributed> = Vec::new();
        let mut problems: Vec<String> = Vec::new();
        let mut i: usize = 0;
        assert(offers(kept@) =~= kept_commands(self@.extensions, contributions@.take(0)));
        assert(views(problems@) =~= command_problems(
            self@.extensions,
            id@,
            contributions@.take(0),
        ));
        while i < contributions.len()
            invariant
                i <= contributions@.len(),
                offers(kept@) == kept_commands(self@.extensions, contributions@.take(i as int)),
                views(problems@) == command_problems(
                    self@.extensions,
                    id@,
                    contributions@.take(i as int),
                ),
            decreases contributions@.len() - i,
        {
            let contribution: &CommandContribution = &contributions[i];
            let ghost kept_before = offers(kept@);
            let ghost problems_before = views(problems@);
            proof {
                assert(contributions@.take(i + 1).drop_last() =~= contributions@.take(i as int));
            }
            if is_blank(contribution.command.as_str()) {
                problems.push(nameless_message(id));
                assert(views(problems@) =~= problems_before.push(nameless_text(id@)));
            } else {
                match self.owner_of(contribution.command.as_str()) {
                    Some(owner) => {
                        problems.push(
                            taken_message(contribution.command.as_str(), owner.id.as_str(), id),
                        );
                        assert(views(problems@) =~= problems_before.push(
                            taken_text(contribution.command@, owner.id@, id@),
                        ));
                    },
                    None => {
                        kept.push(
                            Contributed {
                                command: contribution.command.clone(),
                                title: contribution.title.clone(),
                                category: copy_option(&contribution.category),
                            },
                        );
                        assert(offers(kept@) =~= kept_before.push(offered(*contribution)));
                    },
                }
            }
            i = i + 1;
        }
        assert(contributions@.take(contributions@.len() as int) =~= contributions@);
        (kept, problems)
    }

    /// Adds one manifest.
    fn list_manifest(&mut self, root: &PathBuf, manifest: &Manifest)
        ensures
            final(self)@ == with_manifest(old(self)@, *root, *manifest),
    {
        let ghost before = self@;
        let id: String = manifest.identifier();
        let known: Option<String> = match self.by_id(id.as_str()) {
            Some(first) => Some(first.root.text.clone()),
            None => None,
        };
        if let Some(kept) = known {
            let message: String = twice_message(
                id.as_str(),
                kept.as_str(),
                root.display(),
            );
            let ghost said = message@;
            self.problems.push(message);
            assert(self@.problems =~= before.problems.push(said));
            return;
        }
        let (commands, mut problems) = self.sort_commands(
            id.as_str(),
            &manifest.contributes.commands,
        );
        let ghost found = views(problems@);
        self.problems.append(&mut problems);
        assert(self@.problems =~= before.problems + found);
        let main: Option<String> = match &manifest.main {
            Some(main) => if is_blank(main.as_str()) {
                None
            } else {
                Some(main.clone())
            },
            None => None,
        };
        let extension: Installed = Installed {
            label: manifest.label().to_owned(),
            version: manifest.version.clone(),
            id,
            root: root.clone(),
            main,
            activation: parse_all(&manifest.activation_events),
            commands,
        };
        assert(extension@ =~= listing_of(before.extensions, *root, *manifest));
        let ghost added = extension@;
        self.extensions.push(extension);
        assert(self@.extensions =~= before.extensions.push(added));
    }

    /// Builds a catalogue from manifests paired with their directories. On a conflict, the
    /// earlier entry takes precedence.
    pub fn build(entries: Vec<(PathBuf, Manifest)>) -> (r: Catalogue)
        ensures
            r@ == index_of(entries@),
    {
        let mut catalogue: Catalogue = Catalogue::default();
        let mut i: usize = 0;
        while i < entries.len()
            invariant
                i <= entries@.len(),
                catalogue@ == index_of(entries@.take(i as int)),
            decreases entries@.len() - i,
        {
            proof {
                assert(entries@.take(i + 1).drop_last() =~= entries@.take(i as int));
            }
            catalogue.list_manifest(&entries[i].0, &entries[i].1);
            i = i + 1;
        }
        assert(entries@.take(entries@.len() as int) =~= entries@);
        catalogue
    }

    /// The extension with this identifier.
    pub fn by_id(&self, id: &str) -> (r: Option<&Installed>)
        ensures
            match r {
                Some(e) => listed(self@.extensions, id@) == Some(e@)
                    && self.extensions@.contains(*e),
                None => listed(self@.extensions, id@) is None,
            },
    {
        let mut i: usize = 0;
        assert(self@.extensions.skip(0) =~= self@.extensions);
        while i < self.extensions.len()
            invariant
                i <= self.extensions@.len(),
                listed(self@.extensions, id@) == listed(self@.extensions.skip(i as int), id@),
            decreases self.extensions@.len() - i,
        {
            assert(self@.extensions.skip(i as int)[0] == self.extensions@[i as int]@);
            if same(self.extensions[i].id.as_str(), id) {
                return Some(&self.extensions[i]);
            }
            assert(self@.extensions.skip(i as int).skip(1) =~= self@.extensions.skip(i + 1));
            i = i + 1;
        }
        None
    }

    /// The extension that contributes `command`, if any.
    ///
    /// `None` for the editor's own commands.
    pub fn owner_of(&self, command: &str) -> (r: Option<&Installed>)
        ensures
            match r {
                Some(e) => command_owner(self@.extensions, command@) == Some(e@)
                    && self.extensions@.contains(*e),
                None => command_owner(self@.extensions, command@) is None,
            },
    {
        let mut i: usize = 0;
        assert(self@.extensions.skip(0) =~= self@.extensions);
        while i < self.extensions.len()
            invariant
                i <= self.extensions@.len(),
                command_owner(self@.extensions, command@) == command_owner(
                    self@.extensions.skip(i as int),
                    command@,
                ),
            decreases self.extensions@.len() - i,
        {
            assert(self@.extensions.skip(i as int)[0] == self.extensions@[i as int]@);
            if self.extensions[i].contributes(command) {
                return Some(&self.extensions[i]);
            }
            assert(self@.extensions.skip(i as int).skip(1) =~= self@.extensions.skip(i + 1));
            i = i + 1;
        }
        None
    }

    /// Every extension that has code to run.
    pub fn code_extensions(&self) -> (r: Vec<&Installed>)
        ensures
            listings(referred(r@)) == runnable_only(self@.extensions),
    {
        let mut r: Vec<&Installed> = Vec::new();
        let mut i: usize = 0;
        assert(listings(referred(r@)) =~= runnable_only(self@.extensions.take(0)));
        while i < self.extensions.len()
            invariant
                i <= self.extensions@.len(),
                listings(referred(r@)) == runnable_only(self@.extensions.take(i as int)),
            decreases self.extensions@.len() - i,
        {
            let ghost before = listings(referred(r@));
            proof {
                assert(self@.extensions.take(i + 1).drop_last() =~= self@.extensions.take(
                    i as int,
                ));
            }
            if self.extensions[i].runnable() {
                r.push(&self.extensions[i]);
                assert(listings(referred(r@)) =~= before.push(self.extensions@[i as int]@));
            }
            i = i + 1;
        }
        assert(self@.extensions.take(self@.extensions.len() as int) =~= self@.extensions);
        r
    }

    /// Every contributed command, with the extension that contributed it.
    ///
    /// The palette lists a command whether or not its extension has started.
    pub fn contributed_commands(&self) -> (r: Vec<(&Installed, &Contributed)>)
        ensures
            Seq::new(r@.len(), |i: int| (r@[i].0@, r@[i].1@)) == all_offers(self@.extensions),
    {
        let mut r: Vec<(&Installed, &Contributed)> = Vec::new();
        let mut i: usize = 0;
        assert(Seq::new(r@.len(), |k: int| (r@[k].0@, r@[k].1@)) =~= all_offers(
            self@.extensions.take(0),
        ));
        while i < self.extensions.len()
            invariant
                i <= self.extensions@.len(),
                Seq::new(r@.len(), |k: int| (r@[k].0@, r@[k].1@)) == all_offers(
                    self@.extensions.take(i as int),
                ),
            decreases self.extensions@.len() - i,
        {
            let extension: &Installed = &self.extensions[i];
            let ghost before = Seq::new(r@.len(), |k: int| (r@[k].0@, r@[k].1@));
            let ghost own = Seq::new(
                extension@.commands.len(),
                |k: int| (extension@, extension@.commands[k]),
            );
            let mut j: usize = 0;
            assert(before =~= before + own.take(0));
            while j < extension.commands.len()
                invariant
                    j <= extension.commands@.len(),
                    own == Seq::new(
                        extension@.commands.len(),
                        |k: int| (extension@, extension@.commands[k]),
                    ),
                    Seq::new(r@.len(), |k: int| (r@[k].0@, r@[k].1@)) == before + own.take(
                        j as int,
                    ),
                decreases extension.commands@.len() - j,
            {
                let ghost listed = Seq::new(r@.len(), |k: int| (r@[k].0@, r@[k].1@));
                r.push((extension, &extension.commands[j]));
                assert(Seq::new(r@.len(), |k: int| (r@[k].0@, r@[k].1@)) =~= listed.push(
                    own[j as int],
                ));
                assert(own.take(j + 1) =~= own.take(j as int).push(own[j as int]));
                assert(before + own.take(j + 1) =~= listed.push(own[j as int]));
                j = j + 1;
            }
            proof {
                assert(own.take(own.len() as int) =~= own);
                let now = self@.extensions.take(i + 1);
                assert(now.drop_last() =~= self@.extensions.take(i as int));
                assert(now.last() == extension@);
                assert(own =~= Seq::new(
                    now.last().commands.len(),
                    |k: int| (now.last(), now.last().commands[k]),
                ));
            }
            i = i + 1;
        }
        assert(self@.extensions.take(self@.extensions.len() as int) =~= self@.extensions);
        r
    }

    /// Which extensions this trigger should start, in catalogue order.
    ///
    /// Only extensions with code are returned. An invoked command activates the extension that
    /// contributes it even without an `onCommand:` event: otherwise the palette entry would do
    /// nothing. `glob` matches a file pattern to a file.
    pub fn to_activate<G: Fn(&String, &String) -> bool>(
        &self,
        trigger: &Trigger<'_>,
        glob: &G,
    ) -> (r: Vec<&Installed>)
        requires
            forall|pattern: &String, file: &String| glob.requires((pattern, file)),
        ensures
            exists|answers: Seq<bool>|
                {
                    &&& answers.len() == self.extensions@.len()
                    &&& referred(r@) == #[trigger] chosen(self.extensions@, answers)
                    &&& forall|i: int|
                        0 <= i < answers.len() ==> if #[trigger] answers[i] {
                            may_activate(self.extensions@[i], *trigger, *glob)
                        } else {
                            may_stay(self.extensions@[i], *trigger, *glob)
                        }
                },
    {
        let mut r: Vec<&Installed> = Vec::new();
        let mut i: usize = 0;
        let ghost mut answers: Seq<bool> = Seq::empty();
        assert(referred(r@) =~= chosen(self.extensions@.take(0), answers));
        while i < self.extensions.len()
            invariant
                i <= self.extensions@.len(),
                answers.len() == i,
                forall|pattern: &String, file: &String| glob.requires((pattern, file)),
                referred(r@) == chosen(self.extensions@.take(i as int), answers),
                forall|j: int|
                    0 <= j < i ==> if #[trigger] answers[j] {
                        may_activate(self.extensions@[j], *trigger, *glob)
                    } else {
                        may_stay(self.extensions@[j], *trigger, *glob)
                    },
            decreases self.extensions@.len() - i,
        {
            let extension: &Installed = &self.extensions[i];
            let ghost before = referred(r@);
            let mut start: bool = false;
            if extension.runnable() {
                start = any_fires(&extension.activation, trigger, glob);
                if !start {
                    if let Trigger::Command(command) = trigger {
                        start = extension.contributes(command);
                    }
                }
            }
            proof {
                let next = answers.push(start);
                assert(next.drop_last() =~= answers);
                assert(self.extensions@.take(i + 1).drop_last() =~= self.extensions@.take(
                    i as int,
                ));
                assert forall|j: int| 0 <= j < i + 1 implies if #[trigger] next[j] {
                    may_activate(self.extensions@[j], *trigger, *glob)
                } else {
                    may_stay(self.extensions@[j], *trigger, *glob)
                } by {
                    if j < i {
                        assert(next[j] == answers[j]);
                    }
                }
                answers = next;
            }
            if start {
                r.push(extension);
                assert(referred(r@) =~= before.push(*extension));
            }
            i = i + 1;
        }
        assert(self.extensions@.take(self.extensions@.len() as int) =~= self.extensions@);
        r
    }

    /// The directories of all runnable extensions, used for a container's read-only mounts. A
    /// host needs no other paths on the machine.
    pub fn roots(&self) -> (r: Vec<&PathBuf>)
        ensures
            Seq::new(r@.len(), |i: int| r@[i].text@) == runnable_roots(self@.extensions),
    {
        let code: Vec<&Installed> = self.code_extensions();
        let mut r: Vec<&PathBuf> = Vec::new();
        let mut i: usize = 0;
        while i < code.len()
            invariant
                i <= code@.len(),
                r@.len() == i,
                forall|j: int| 0 <= j < i ==> (#[trigger] r@[j]).text@ == code@[j].root.text@,
            decreases code@.len() - i,
        {
            r.push(&code[i].root);
            i = i + 1;
        }
        proof {
            let only = runnable_only(self@.extensions);
            assert(only.len() == code@.len());
            assert forall|j: int| 0 <= j < code@.len() implies only[j].root
                == code@[j].root.text@ by {
                assert(listings(referred(code@))[j] == code@[j]@);
            }
            assert(Seq::new(r@.len(), |k: int| r@[k].text@) =~= runnable_roots(self@.extensions));
        }
        r
    }
}

// ---------------------------------------------------------------------------
// Laws
// ---------------------------------------------------------------------------

pub(crate) proof fn lemma_listed_none(extensions: Seq<Listing>, id: Seq<char>)
    ensures
        listed(extensions, id) is None <==> forall|i: int|
            0 <= i < extensions.len() ==> (#[trigger] extensions[i]).id != id,
    decreases extensions.len(),
{
    if extensions.len() > 0 {
        let rest = extensions.skip(1);
        lemma_listed_none(rest, id);
        if listed(extensions, id) is None {
            assert forall|i: int| 0 <= i < extensions.len() implies (
            #[trigger] extensions[i]).id != id by {
                if i > 0 {
                    assert(rest[i - 1].id != id);
                }
            }
        } else if extensions[0].id != id {
            let k = choose|k: int| 0 <= k < rest.len() && (#[trigger] rest[k]).id == id;
            assert(extensions[k + 1].id == id);
        } else {
            assert(extensions[0].id == id);
        }
    }
}

pub(crate) proof fn lemma_owner_none(extensions: Seq<Listing>, command: Seq<char>)
    ensures
        command_owner(extensions, command) is None <==> forall|i: int|
            0 <= i < extensions.len() ==> !offers_command(
                (#[trigger] extensions[i]).commands,
                command,
            ),
    decreases extensions.len(),
{
    if extensions.len() > 0 {
        let rest = extensions.skip(1);
        lemma_owner_none(rest, command);
        if command_owner(extensions, command) is None {
            assert forall|i: int| 0 <= i < extensions.len() implies !offers_command(
                (#[trigger] extensions[i]).commands,
                command,
            ) by {
                if i > 0 {
                    assert(!offers_command(rest[i - 1].commands, command));
                }
            }
        } else if !offers_command(extensions[0].commands, command) {
            let k = choose|k: int|
                0 <= k < rest.len() && offers_command((#[trigger] rest[k]).commands, command);
            assert(offers_command(extensions[k + 1].commands, command));
        }
    }
}

/// Whether no identifier is listed twice.
pub open spec fn ids_apart(extensions: Seq<Listing>) -> bool {
    forall|i: int, j: int|
        0 <= i < j < extensions.len() ==> (#[trigger] extensions[i]).id != (
        #[trigger] extensions[j]).id
}

/// Whether no command is offered by two listings.
pub open spec fn commands_apart(extensions: Seq<Listing>) -> bool {
    forall|i: int, j: int, command: Seq<char>|
        0 <= i < j < extensions.len() && #[trigger] offers_command(extensions[i].commands, command)
            ==> !#[trigger] offers_command(extensions[j].commands, command)
}

/// No identifier stands twice in a catalogue.
pub proof fn law_identifiers_are_unique(entries: Seq<(PathBuf, Manifest)>)
    ensures
        ids_apart(index_of(entries).extensions),
    decreases entries.len(),
{
    if entries.len() > 0 {
        law_identifiers_are_unique(entries.drop_last());
        let before = index_of(entries.drop_last()).extensions;
        lemma_listed_none(before, entries.last().1.id());
    }
}

proof fn lemma_kept_are_free(
    before: Seq<Listing>,
    contributions: Seq<CommandContribution>,
    command: Seq<char>,
)
    requires
        offers_command(kept_commands(before, contributions), command),
    ensures
        command_owner(before, command) is None,
        !blank(command),
    decreases contributions.len(),
{
    let kept = kept_commands(before, contributions);
    let k = choose|k: int| 0 <= k < kept.len() && (#[trigger] kept[k]).command == command;
    let rest = kept_commands(before, contributions.drop_last());
    if k < rest.len() {
        assert(rest[k].command == command);
        lemma_kept_are_free(before, contributions.drop_last(), command);
    }
}

/// Every command belongs to one extension: what an earlier extension contributes, no later one
/// does.
pub proof fn law_commands_have_one_owner(entries: Seq<(PathBuf, Manifest)>)
    ensures
        commands_apart(index_of(entries).extensions),
    decreases entries.len(),
{
    if entries.len() > 0 {
        law_commands_have_one_owner(entries.drop_last());
        let before = index_of(entries.drop_last()).extensions;
        let now = index_of(entries).extensions;
        let manifest = entries.last().1;
        if now.len() > before.len() {
            assert forall|i: int, j: int, command: Seq<char>|
                0 <= i < j < now.len() && #[trigger] offers_command(now[i].commands, command)
                    implies !#[trigger] offers_command(now[j].commands, command) by {
                assert(now[i] == before[i]);
                if j < before.len() {
                    assert(now[j] == before[j]);
                } else if offers_command(now[j].commands, command) {
                    lemma_kept_are_free(before, manifest.contributes.commands@, command);
                    lemma_owner_none(before, command);
                    assert(!offers_command(before[i].commands, command));
                }
            }
        }
    }
}

/// No listed command is blank.
pub proof fn law_no_command_is_nameless(entries: Seq<(PathBuf, Manifest)>, i: int, command: Seq<char>)
    requires
        0 <= i < index_of(entries).extensions.len(),
        offers_command(index_of(entries).extensions[i].commands, command),
    ensures
        !blank(command),
    decreases entries.len(),
{
    let before = index_of(entries.drop_last()).extensions;
    let now = index_of(entries).extensions;
    if i < before.len() {
        assert(now[i] == before[i]);
        law_no_command_is_nameless(entries.drop_last(), i, command);
    } else {
        lemma_kept_are_free(before, entries.last().1.contributes.commands@, command);
    }
}

/// The earlier entry takes precedence: one more manifest changes nothing that is listed already.
pub proof fn law_the_first_installation_stays(entries: Seq<(PathBuf, Manifest)>, i: int)
    requires
        entries.len() > 0,
        0 <= i < index_of(entries.drop_last()).extensions.len(),
    ensures
        i < index_of(entries).extensions.len(),
        index_of(entries).extensions[i] == index_of(entries.drop_last()).extensions[i],
{
}

/// No listed entry point is blank.
pub proof fn law_no_entry_point_is_blank(entries: Seq<(PathBuf, Manifest)>, i: int)
    requires
        0 <= i < index_of(entries).extensions.len(),
    ensures
        index_of(entries).extensions[i].main matches Some(main) ==> !blank(main),
    decreases entries.len(),
{
    let before = index_of(entries.drop_last()).extensions;
    if i < before.len() {
        assert(index_of(entries).extensions[i] == before[i]);
        law_no_entry_point_is_blank(entries.drop_last(), i);
    }
}

/// Where the first entry with this identifier stands; past the end where there is none.
pub open spec fn first_entry(entries: Seq<(PathBuf, Manifest)>, id: Seq<char>) -> int
    decreases entries.len(),
{
    if entries.len() == 0 {
        0
    } else if entries[0].1.id() == id {
        0
    } else {
        1 + first_entry(entries.skip(1), id)
    }
}

proof fn lemma_first_entry(entries: Seq<(PathBuf, Manifest)>, id: Seq<char>)
    ensures
        0 <= first_entry(entries, id) <= entries.len(),
        first_entry(entries, id) < entries.len() ==> entries[first_entry(entries, id)].1.id() == id,
        forall|i: int|
            0 <= i < first_entry(entries, id) ==> (#[trigger] entries[i]).1.id() != id,
    decreases entries.len(),
{
    if entries.len() > 0 && entries[0].1.id() != id {
        let rest = entries.skip(1);
        lemma_first_entry(rest, id);
        assert forall|i: int| 0 <= i < first_entry(entries, id) implies (
        #[trigger] entries[i]).1.id() != id by {
            if i > 0 {
                assert(rest[i - 1] == entries[i]);
            }
        }
    }
}

/// The extensions come in the order of their first entries, each with that entry's root and
/// version, and every identifier that was found is listed.
pub proof fn law_extensions_come_in_the_order_they_were_found(entries: Seq<(PathBuf, Manifest)>)
    ensures
        forall|k: int|
            0 <= k < index_of(entries).extensions.len() ==> {
                let listing = #[trigger] index_of(entries).extensions[k];
                let first = first_entry(entries, listing.id);
                &&& 0 <= first < entries.len()
                &&& entries[first].1.id() == listing.id
                &&& listing.root == entries[first].0.text@
                &&& listing.version == entries[first].1.version@
            },
        forall|k: int, l: int|
            0 <= k < l < index_of(entries).extensions.len() ==> first_entry(
                entries,
                (#[trigger] index_of(entries).extensions[k]).id,
            ) < first_entry(entries, (#[trigger] index_of(entries).extensions[l]).id),
        forall|i: int|
            0 <= i < entries.len() ==> listed(
                index_of(entries).extensions,
                (#[trigger] entries[i]).1.id(),
            ) is Some,
    decreases entries.len(),
{
    if entries.len() > 0 {
        let earlier = entries.drop_last();
        let before = index_of(earlier).extensions;
        let now = index_of(entries).extensions;
        let last = entries.last().1.id();
        law_extensions_come_in_the_order_they_were_found(earlier);
        lemma_listed_none(before, last);
        lemma_listed_none(now, last);
        assert forall|id: Seq<char>| first_entry(earlier, id) < earlier.len() implies first_entry(
            entries,
            id,
        ) == #[trigger] first_entry(earlier, id) by {
            lemma_first_entry(earlier, id);
            lemma_first_entry(entries, id);
            let p = first_entry(earlier, id);
            let q = first_entry(entries, id);
            assert(earlier[p] == entries[p]);
            if q < p {
                assert(earlier[q] == entries[q]);
            }
        }
        lemma_first_entry(earlier, last);
        lemma_first_entry(entries, last);
        assert(entries[entries.len() - 1].1.id() == last);
        if listed(before, last) is None {
            let p = first_entry(earlier, last);
            if p < earlier.len() {
                assert(listed(before, earlier[p].1.id()) is Some);
            }
            let q = first_entry(entries, last);
            if q < earlier.len() {
                assert(earlier[q] == entries[q]);
                assert(listed(before, earlier[q].1.id()) is Some);
            }
            assert(q == entries.len() - 1);
            assert(now.last().id == last);
            assert(now[now.len() - 1].id == last);
        }
        assert forall|k: int| 0 <= k < now.len() implies {
            let listing = #[trigger] now[k];
            let first = first_entry(entries, listing.id);
            &&& 0 <= first < entries.len()
            &&& entries[first].1.id() == listing.id
            &&& listing.root == entries[first].0.text@
            &&& listing.version == entries[first].1.version@
        } by {
            if k < before.len() {
                assert(now[k] == before[k]);
                let first = first_entry(earlier, before[k].id);
                assert(earlier[first] == entries[first]);
            }
        }
        assert forall|k: int, l: int| 0 <= k < l < now.len() implies first_entry(
            entries,
            (#[trigger] now[k]).id,
        ) < first_entry(entries, (#[trigger] now[l]).id) by {
            assert(now[k] == before[k]);
            if l < before.len() {
                assert(now[l] == before[l]);
            }
        }
        assert forall|i: int| 0 <= i < entries.len() implies listed(
            now,
            (#[trigger] entries[i]).1.id(),
        ) is Some by {
            let id = entries[i].1.id();
            if i < earlier.len() {
                assert(earlier[i] == entries[i]);
                lemma_listed_none(before, id);
                lemma_listed_none(now, id);
                let k = choose|k: int| 0 <= k < before.len() && (#[trigger] before[k]).id == id;
                assert(now[k] == before[k]);
            }
        }
    }
}

/// An extension with no code is never started, whatever happens.
pub proof fn law_only_code_is_activated<G: Fn(&String, &String) -> bool>(
    extension: Installed,
    trigger: Trigger<'_>,
    glob: G,
)
    requires
        extension@.main is None,
    ensures
        !may_activate(extension, trigger, glob),
        may_stay(extension, trigger, glob),
{
}

/// Invoking a command starts the extension that contributes it, if it has code.
pub proof fn law_a_command_starts_its_owner<G: Fn(&String, &String) -> bool>(
    extension: Installed,
    command: &str,
    glob: G,
)
    requires
        extension@.main is Some,
        offers_command(extension@.commands, command@),
    ensures
        may_activate(extension, Trigger::Command(command), glob),
        !may_stay(extension, Trigger::Command(command), glob),
{
}

} // verus!
