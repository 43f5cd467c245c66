//! Extension manifests and their contribution points.

use vstd::prelude::*;
use crate::capability::{copy_capabilities, Capability};
#[allow(unused_imports)]
use crate::capability::{abilities, Ability};
#[allow(unused_imports)]
use crate::text::view_of;

verus! {

/// An extension manifest.
#[derive(Debug, Clone)]
pub struct Manifest {
    /// The unqualified extension name.
    pub name: String,
    /// The publisher id. Absent in unpublished local extensions.
    pub publisher: Option<String>,
    /// Version string.
    pub version: String,
    /// Human-readable name.
    pub display_name: Option<String>,
    /// Short description.
    pub description: Option<String>,
    /// Entry point for the extension host.
    pub main: Option<String>,
    /// Events that cause the extension to be activated.
    pub activation_events: Vec<String>,
    /// Engine constraints: each engine and the versions it asks for.
    pub engines: Vec<(String, String)>,
    /// Everything the extension contributes to the editor.
    pub contributes: Contributes,
    /// The editor's own manifest section.
    pub deco: Option<DecoSection>,
}

/// The `deco` section of a manifest.
#[derive(Debug, Clone)]
pub struct DecoSection {
    /// The capabilities the extension asks for.
    pub capabilities: Vec<Capability>,
}

impl Default for DecoSection {
    fn default() -> (r: DecoSection)
        ensures
            r.capabilities@.len() == 0,
    {
        DecoSection { capabilities: Vec::new() }
    }
}

/// The `contributes` block.
#[derive(Debug, Clone)]
pub struct Contributes {
    /// Commands the extension registers.
    pub commands: Vec<CommandContribution>,
    /// Default keybindings for those commands.
    pub keybindings: Vec<serde_json::Value>,
    /// Languages the extension defines.
    pub languages: Vec<LanguageContribution>,
    /// Grammars.
    pub grammars: Vec<GrammarContribution>,
    /// Colour themes.
    pub themes: Vec<ThemeContribution>,
    /// Settings the extension defines, kept as they are because their schema is open-ended.
    pub configuration: Option<serde_json::Value>,
}

impl Default for Contributes {
    fn default() -> (r: Contributes)
        ensures
            r.commands@.len() == 0,
            r.keybindings@.len() == 0,
            r.languages@.len() == 0,
            r.grammars@.len() == 0,
            r.themes@.len() == 0,
            r.configuration is None,
    {
        Contributes {
            commands: Vec::new(),
            keybindings: Vec::new(),
            languages: Vec::new(),
            grammars: Vec::new(),
            themes: Vec::new(),
            configuration: None,
        }
    }
}

/// A `contributes.commands` entry.
#[derive(Debug, Clone)]
pub struct CommandContribution {
    /// The command id.
    pub command: String,
    /// The label shown in the command palette.
    pub title: String,
    /// An optional grouping prefix.
    pub category: Option<String>,
    /// When the command is available.
    pub when: Option<String>,
}

/// A `contributes.languages` entry.
#[derive(Debug, Clone)]
pub struct LanguageContribution {
    /// The language id, e.g. `rust`.
    pub id: String,
    /// File extensions, including the dot.
    pub extensions: Vec<String>,
    /// Exact filenames, e.g. `Makefile`.
    pub filenames: Vec<String>,
    /// Display names.
    pub aliases: Vec<String>,
    /// Path to a language-configuration file.
    pub configuration: Option<String>,
}

/// A `contributes.grammars` entry.
#[derive(Debug, Clone)]
pub struct GrammarContribution {
    /// The language this grammar tokenises.
    pub language: Option<String>,
    /// The grammar's root scope name.
    pub scope_name: String,
    /// Path to the grammar file, relative to the extension root.
    pub path: String,
}

/// A `contributes.themes` entry.
#[derive(Debug, Clone)]
pub struct ThemeContribution {
    /// The name shown in the theme picker.
    pub label: String,
    /// `vs`, `vs-dark`, `hc-black` or `hc-light`.
    pub ui_theme: Option<String>,
    /// Path to the theme file, relative to the extension root.
    pub path: String,
}

/// Where an extension's capability declaration came from.
#[derive(Debug, Clone, Copy, PartialEq, Eq, Structural)]
pub enum DeclarationSource {
    /// The manifest's `deco.capabilities`.
    Manifest,
    /// The extension declared nothing.
    ///
    /// Nothing is guessed on its behalf: it starts with no capabilities at all, and the user
    /// grants them explicitly.
    Undeclared,
}

/// The qualified identifier of an extension: `publisher.name`, or `local.name` without a
/// publisher.
pub open spec fn identifier_of(publisher: Option<Seq<char>>, name: Seq<char>) -> Seq<char> {
    match publisher {
        Some(publisher) => publisher + "."@ + name,
        None => "local."@ + name,
    }
}

impl Manifest {
    /// The manifest's qualified identifier, in contracts.
    pub open spec fn id(&self) -> Seq<char> {
        identifier_of(view_of(self.publisher), self.name@)
    }

    /// The name to show, in contracts.
    pub open spec fn shown_name(&self) -> Seq<char> {
        match self.display_name {
            Some(name) => name@,
            None => self.name@,
        }
    }

    /// The capabilities the manifest declares, in contracts.
    pub open spec fn declared(&self) -> Seq<Ability> {
        match self.deco {
            Some(section) => abilities(section.capabilities@),
            None => Seq::empty(),
        }
    }

    /// The fully qualified `publisher.name` identifier.
    ///
    /// A manifest with no publisher gets the `local.` prefix rather than a bare name.
    pub fn identifier(&self) -> (r: String)
        ensures
            r@ == self.id(),
    {
        match &self.publisher {
            Some(publisher) => {
                let mut r: String = publisher.clone();
                r.append(".");
                r.append(self.name.as_str());
                r
            },
            None => {
                let mut r: String = "local.".to_owned();
                r.append(self.name.as_str());
                r
            },
        }
    }

    /// The name to show.
    pub fn label(&self) -> (r: &str)
        ensures
            r@ == self.shown_name(),
    {
        match &self.display_name {
            Some(name) => name.as_str(),
            None => self.name.as_str(),
        }
    }

    /// The capabilities the manifest declares, and where they came from.
    pub fn capabilities(&self) -> (r: (Vec<Capability>, DeclarationSource))
        ensures
            abilities(r.0@) == self.declared(),
            r.1 == (if self.deco is Some {
                DeclarationSource::Manifest
            } else {
                DeclarationSource::Undeclared
            }),
    {
        match &self.deco {
            Some(section) => (
                copy_capabilities(&section.capabilities),
                DeclarationSource::Manifest,
            ),
            None => {
                let none: Vec<Capability> = Vec::new();
                assert(abilities(none@) =~= Seq::empty());
                (none, DeclarationSource::Undeclared)
            },
        }
    }

    /// Whether the extension has code to run, as opposed to being purely declarative (a theme or
    /// a grammar pack).
    pub fn has_code(&self) -> (r: bool)
        ensures
            r == (self.main is Some),
    {
        self.main.is_some()
    }
}

// ---------------------------------------------------------------------------
// Laws
// ---------------------------------------------------------------------------

/// An extension that declares nothing has no capability.
pub proof fn law_an_undeclared_extension_has_no_capability(manifest: Manifest)
    requires
        manifest.deco is None,
    ensures
        manifest.declared().len() == 0,
{
}

/// An unpublished extension shares its identifier with no published one, unless the publisher is
/// called `local` or has a name that begins with `local.`.
pub proof fn law_local_identifiers_are_apart(publisher: Seq<char>, name: Seq<char>, other: Seq<char>)
    requires
        !crate::text::begins(publisher + "."@, "local."@),
    ensures
        identifier_of(Some(publisher), name) != identifier_of(None, other),
{
    reveal_strlit("local.");
    reveal_strlit(".");
    let a = identifier_of(Some(publisher), name);
    let b = identifier_of(None, other);
    if a == b {
        if publisher.len() < 5 {
            let n = publisher.len() as int;
            assert(a[n] == '.');
            assert(b[n] == "local."@[n]);
        } else {
            assert(a.take(6) =~= (publisher + "."@).take(6));
            assert(b.take(6) =~= "local."@);
        }
    }
}

} // verus!
