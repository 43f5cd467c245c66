use deco::activation::Trigger;
use deco::capability::{Capability, PathScope};
use deco::catalogue::Catalogue;
use deco::manifest::{
    CommandContribution, Contributes, DecoSection, DeclarationSource, GrammarContribution,
    LanguageContribution, Manifest, ThemeContribution,
};
use deco::path::PathBuf;
use serde_json::Value;

fn glob(pattern: &String, file: &String) -> bool {
    pattern == file
}

fn text(value: &Value, key: &str) -> Option<String> {
    value.get(key).and_then(Value::as_str).map(str::to_owned)
}

fn list<'a>(value: &'a Value, key: &str) -> Vec<&'a Value> {
    match value.get(key).and_then(Value::as_array) {
        Some(items) => items.iter().collect(),
        None => Vec::new(),
    }
}

fn texts(value: &Value, key: &str) -> Vec<String> {
    list(value, key)
        .into_iter()
        .filter_map(Value::as_str)
        .map(str::to_owned)
        .collect()
}

fn capability(value: &Value) -> Capability {
    match value["capability"].as_str() {
        Some("readFile") => Capability::ReadFile {
            scope: PathScope::Workspace,
        },
        Some("network") => Capability::Network {
            host: text(value, "host").expect("a host"),
        },
        other => panic!("no capability {other:?} is used here"),
    }
}

/// A manifest from its source.
fn manifest(source: &str) -> Manifest {
    let value: Value = serde_json::from_str(source).expect("a manifest");
    let contributes = value.get("contributes").cloned().unwrap_or(Value::Null);
    Manifest {
        name: text(&value, "name").expect("a name"),
        publisher: text(&value, "publisher"),
        version: text(&value, "version").unwrap_or_default(),
        display_name: text(&value, "displayName"),
        description: text(&value, "description"),
        main: text(&value, "main"),
        activation_events: texts(&value, "activationEvents"),
        engines: match value.get("engines").and_then(Value::as_object) {
            Some(engines) => engines
                .iter()
                .map(|(name, range)| (name.clone(), range.as_str().unwrap_or("").to_owned()))
                .collect(),
            None => Vec::new(),
        },
        contributes: Contributes {
            commands: list(&contributes, "commands")
                .into_iter()
                .map(|command| CommandContribution {
                    command: text(command, "command").unwrap_or_default(),
                    title: text(command, "title").unwrap_or_default(),
                    category: text(command, "category"),
                    when: text(command, "when"),
                })
                .collect(),
            keybindings: Vec::new(),
            languages: list(&contributes, "languages")
                .into_iter()
                .map(|language| LanguageContribution {
                    id: text(language, "id").unwrap_or_default(),
                    extensions: texts(language, "extensions"),
                    filenames: texts(language, "filenames"),
                    aliases: texts(language, "aliases"),
                    configuration: text(language, "configuration"),
                })
                .collect(),
            grammars: list(&contributes, "grammars")
                .into_iter()
                .map(|grammar| GrammarContribution {
                    language: text(grammar, "language"),
                    scope_name: text(grammar, "scopeName").unwrap_or_default(),
                    path: text(grammar, "path").unwrap_or_default(),
                })
                .collect(),
            themes: list(&contributes, "themes")
                .into_iter()
                .map(|theme| ThemeContribution {
                    label: text(theme, "label").unwrap_or_default(),
                    ui_theme: text(theme, "uiTheme"),
                    path: text(theme, "path").unwrap_or_default(),
                })
                .collect(),
            configuration: contributes.get("configuration").cloned(),
        },
        deco: value.get("deco").map(|section| DecoSection {
            capabilities: list(section, "capabilities")
                .into_iter()
                .map(capability)
                .collect(),
        }),
    }
}

/// An extension directory.
fn root(name: &str) -> PathBuf {
    PathBuf::from(&format!("/ext/{name}"))
}

fn code_extension() -> (PathBuf, Manifest) {
    (
        root("acme.tools"),
        manifest(
            r#"{
  "name": "tools",
  "publisher": "acme",
  "displayName": "Acme Tools",
  "main": "./out/extension.js",
  "activationEvents": ["onLanguage:rust", "onCommand:acme.doThing"],
  "contributes": {
"commands": [
  { "command": "acme.doThing", "title": "Do The Thing", "category": "Acme" },
  { "command": "acme.other", "title": "Something Else" }
]
  }
}"#,
        ),
    )
}

fn theme_extension() -> (PathBuf, Manifest) {
    (
        root("someone.theme"),
        manifest(
            r#"{
  "name": "theme",
  "publisher": "someone",
  "activationEvents": ["*"],
  "contributes": { "themes": [{ "label": "Midnight", "uiTheme": "vs-dark", "path": "./t.json" }] }
}"#,
        ),
    )
}

#[test]
fn a_manifest_becomes_what_starting_it_needs() {
    let catalogue = Catalogue::build(vec![code_extension()]);
    assert!(catalogue.problems.is_empty(), "{:?}", catalogue.problems);
    let extension = catalogue.by_id("acme.tools").expect("by id");
    assert_eq!(extension.label, "Acme Tools");
    assert_eq!(extension.main.as_deref(), Some("./out/extension.js"));
    assert!(extension.runnable());
    assert_eq!(extension.commands.len(), 2);
    assert_eq!(extension.commands[0].label(), "Acme: Do The Thing");
    assert_eq!(extension.commands[1].label(), "Something Else");
}

#[test]
fn a_declarative_extension_is_catalogued_and_never_activated() {
    // `*` fires at startup for any extension with code. A theme has no code,
    // so starting a sandboxed process for it would serve no purpose.
    let catalogue = Catalogue::build(vec![theme_extension()]);
    let theme = catalogue.by_id("someone.theme").expect("by id");
    assert!(!theme.runnable());
    assert!(catalogue.to_activate(&Trigger::StartupFinished, &glob).is_empty());
    assert_eq!(catalogue.code_extensions().len(), 0);
    assert!(catalogue.roots().is_empty());
}

#[test]
fn an_unpublished_extension_keeps_the_local_prefix() {
    let catalogue = Catalogue::build(vec![(
        root("mine"),
        manifest(r#"{ "name": "mine", "main": "./m.js" }"#),
    )]);
    assert!(catalogue.by_id("local.mine").is_some());
}

#[test]
fn the_trigger_decides_and_only_code_answers() {
    let catalogue = Catalogue::build(vec![code_extension(), theme_extension()]);

    let started = catalogue.to_activate(&Trigger::Language("rust"), &glob);
    assert_eq!(started.len(), 1);
    assert_eq!(started[0].id, "acme.tools");

    assert!(catalogue.to_activate(&Trigger::Language("go"), &glob).is_empty());
    // `*` belongs to the theme, which cannot run.
    assert!(catalogue.to_activate(&Trigger::StartupFinished, &glob).is_empty());
}

#[test]
fn a_contributed_command_activates_its_extension_without_an_on_command_event() {
    // VS Code stopped requiring the event in 1.74. deco does the same because
    // otherwise the palette entry would do nothing when the user invokes it.
    let catalogue = Catalogue::build(vec![(
        root("acme.quiet"),
        manifest(
            r#"{
  "name": "quiet",
  "publisher": "acme",
  "main": "./m.js",
  "activationEvents": [],
  "contributes": { "commands": [{ "command": "acme.quiet.go", "title": "Go" }] }
}"#,
        ),
    )]);
    let started = catalogue.to_activate(&Trigger::Command("acme.quiet.go"), &glob);
    assert_eq!(started.len(), 1);
    assert_eq!(started[0].id, "acme.quiet");

    // No other trigger activates it. An empty `activationEvents` is not a
    // wildcard.
    assert!(catalogue.to_activate(&Trigger::StartupFinished, &glob).is_empty());
    assert!(catalogue.to_activate(&Trigger::Language("rust"), &glob).is_empty());
}

#[test]
fn decos_own_commands_belong_to_nobody() {
    let catalogue = Catalogue::build(vec![code_extension()]);
    assert!(catalogue.owner_of("editor.action.commentLine").is_none());
    assert!(catalogue
        .to_activate(&Trigger::Command("editor.action.commentLine"), &glob)
        .is_empty());
    assert_eq!(
        catalogue.owner_of("acme.doThing").map(|e| e.id.as_str()),
        Some("acme.tools")
    );
}

#[test]
fn an_unknown_activation_event_starts_nothing() {
    let catalogue = Catalogue::build(vec![(
        root("acme.future"),
        manifest(
            r#"{
  "name": "future",
  "publisher": "acme",
  "main": "./m.js",
  "activationEvents": ["onSomethingNewVSCodeAdded:x"]
}"#,
        ),
    )]);
    for trigger in [
        Trigger::StartupFinished,
        Trigger::Language("rust"),
        Trigger::Command("x"),
        Trigger::Uri,
        Trigger::View("x"),
    ] {
        assert!(
            catalogue.to_activate(&trigger, &glob).is_empty(),
            "an event deco does not model fired for {trigger:?}"
        );
    }
}

#[test]
fn the_same_extension_installed_twice_keeps_the_first_and_says_so() {
    let (_, manifest_one) = code_extension();
    let (_, manifest_two) = code_extension();
    let catalogue = Catalogue::build(vec![
        (root("acme.tools-1.0.0"), manifest_one),
        (root("acme.tools-2.0.0"), manifest_two),
    ]);
    assert_eq!(catalogue.extensions.len(), 1);
    assert_eq!(catalogue.extensions[0].root, root("acme.tools-1.0.0"));
    assert_eq!(catalogue.problems.len(), 1);
    assert!(catalogue.problems[0].contains("installed twice"));
    assert!(catalogue.problems[0].contains("acme.tools-2.0.0"));
}

#[test]
fn two_extensions_cannot_both_own_one_command() {
    // Without a reported problem, the second extension would appear broken:
    // the command is in the palette but activates the other extension, and
    // no message explains why.
    let catalogue = Catalogue::build(vec![
        code_extension(),
        (
            root("rival.tools"),
            manifest(
                r#"{
  "name": "tools",
  "publisher": "rival",
  "main": "./m.js",
  "contributes": { "commands": [{ "command": "acme.doThing", "title": "Mine Now" }] }
}"#,
            ),
        ),
    ]);
    assert_eq!(
        catalogue.owner_of("acme.doThing").map(|e| e.id.as_str()),
        Some("acme.tools")
    );
    let rival = catalogue.by_id("rival.tools").expect("still catalogued");
    assert!(rival.commands.is_empty(), "{:?}", rival.commands);
    assert_eq!(catalogue.problems.len(), 1);
    assert!(
        catalogue.problems[0].contains("acme.doThing"),
        "{:?}",
        catalogue.problems
    );
}

#[test]
fn a_command_with_no_id_is_refused_rather_than_offered() {
    let catalogue = Catalogue::build(vec![(
        root("acme.broken"),
        manifest(
            r#"{
  "name": "broken",
  "publisher": "acme",
  "main": "./m.js",
  "contributes": { "commands": [{ "command": "  ", "title": "Nothing" }] }
}"#,
        ),
    )]);
    assert!(catalogue.contributed_commands().is_empty());
    assert_eq!(catalogue.problems.len(), 1);
    assert!(catalogue.problems[0].contains("no id"));
}

#[test]
fn an_empty_main_is_the_same_as_none() {
    // Otherwise `"main": ""` would resolve to the extension directory itself,
    // and the host would try to run it as JavaScript.
    let catalogue = Catalogue::build(vec![(
        root("acme.blank"),
        manifest(
            r#"{ "name": "blank", "publisher": "acme", "main": "", "activationEvents": ["*"] }"#,
        ),
    )]);
    assert!(!catalogue.extensions[0].runnable());
    assert!(catalogue.to_activate(&Trigger::StartupFinished, &glob).is_empty());
}

#[test]
fn the_palette_gets_every_contributed_command_with_its_extension() {
    let catalogue = Catalogue::build(vec![code_extension(), theme_extension()]);
    let listed: Vec<(&str, String)> = catalogue
        .contributed_commands()
        .into_iter()
        .map(|(extension, command)| (extension.id.as_str(), command.label()))
        .collect();
    assert_eq!(
        listed,
        vec![
            ("acme.tools", "Acme: Do The Thing".to_owned()),
            ("acme.tools", "Something Else".to_owned()),
        ]
    );
}

#[test]
fn only_the_directories_of_things_that_run_are_mountable() {
    let catalogue = Catalogue::build(vec![code_extension(), theme_extension()]);
    assert_eq!(catalogue.roots(), vec![&root("acme.tools")]);
}

#[test]
fn nothing_installed_is_not_a_problem() {
    let catalogue = Catalogue::build(vec![]);
    assert!(catalogue.problems.is_empty());
    assert!(catalogue.to_activate(&Trigger::StartupFinished, &glob).is_empty());
    assert!(catalogue.contributed_commands().is_empty());
}

const FULL: &str = r#"{
    "name": "my-ext",
    "publisher": "acme",
    "version": "1.2.3",
    "displayName": "My Extension",
    "main": "./out/extension.js",
    "engines": { "vscode": "^1.75.0" },
    "activationEvents": ["onLanguage:rust", "onCommand:my.cmd"],
    "contributes": {
        "commands": [{ "command": "my.cmd", "title": "Do It", "category": "My" }],
        "languages": [{ "id": "rust", "extensions": [".rs"], "filenames": ["Cargo.lock"] }],
        "grammars": [{ "language": "rust", "scopeName": "source.rust", "path": "./r.json" }],
        "themes": [{ "label": "My Dark", "uiTheme": "vs-dark", "path": "./themes/d.json" }],
        "configuration": { "title": "My", "properties": {} }
    },
    "deco": {
        "capabilities": [
            { "capability": "readFile", "scope": { "kind": "workspace" } },
            { "capability": "network", "host": "*.acme.com" }
        ]
    }
}"#;

#[test]
fn parses_a_full_manifest() {
    let m = manifest(FULL);
    assert_eq!(m.identifier(), "acme.my-ext");
    assert_eq!(m.label(), "My Extension");
    assert_eq!(m.version, "1.2.3");
    assert_eq!(m.activation_events.len(), 2);
    assert_eq!(
        m.engines
            .iter()
            .find(|(name, _)| name == "vscode")
            .map(|(_, range)| range.as_str()),
        Some("^1.75.0")
    );
    assert!(m.has_code());
}

#[test]
fn parses_contribution_points() {
    let c = manifest(FULL).contributes;
    assert_eq!(c.commands[0].command, "my.cmd");
    assert_eq!(c.commands[0].category.as_deref(), Some("My"));
    assert_eq!(c.languages[0].extensions, [".rs"]);
    assert_eq!(c.languages[0].filenames, ["Cargo.lock"]);
    assert_eq!(c.grammars[0].scope_name, "source.rust");
    assert_eq!(c.themes[0].label, "My Dark");
    assert!(c.configuration.is_some());
}

#[test]
fn parses_the_deco_capability_declaration() {
    let (caps, source) = manifest(FULL).capabilities();
    assert_eq!(source, DeclarationSource::Manifest);
    assert_eq!(caps.len(), 2);
    assert_eq!(
        caps[0],
        Capability::ReadFile {
            scope: PathScope::Workspace
        }
    );
}

#[test]
fn an_extension_without_a_deco_section_declares_nothing() {
    let m = manifest(r#"{"name": "x", "main": "./x.js"}"#);
    let (caps, source) = m.capabilities();
    assert!(
        caps.is_empty(),
        "nothing may be inferred on the extension's behalf"
    );
    assert_eq!(source, DeclarationSource::Undeclared);
}

#[test]
fn an_unpublished_extension_gets_a_local_identifier() {
    let m = manifest(r#"{"name": "scratch"}"#);
    assert_eq!(m.identifier(), "local.scratch");
}

#[test]
fn a_declarative_extension_has_no_code() {
    let m = manifest(r#"{"name": "theme-pack", "contributes": {"themes": [{"label": "T", "path": "./t.json"}]}}"#);
    assert!(!m.has_code());
    assert_eq!(m.contributes.themes.len(), 1);
}

#[test]
fn extensions_come_in_the_order_they_were_found() {
    let found = |root: &str, name: &str, version: &str, main: &str| {
        (
            PathBuf::from(root),
            manifest(&format!(
                r#"{{"name":"{name}","publisher":"p","version":"{version}","main":"{main}"}}"#
            )),
        )
    };
    let catalogue = Catalogue::build(vec![
        found("/e/1", "b", "1.0.0", "  "),
        found("/e/2", "a", "2.0.0", "m.js"),
        found("/e/3", "b", "3.0.0", "m.js"),
    ]);
    let listed: Vec<(&str, &str)> = catalogue
        .extensions
        .iter()
        .map(|extension| (extension.id.as_str(), extension.version.as_str()))
        .collect();
    assert_eq!(listed, [("p.b", "1.0.0"), ("p.a", "2.0.0")]);
    assert!(catalogue.extensions[0].main.is_none(), "a blank entry point is none");
    assert_eq!(catalogue.extensions[1].main.as_deref(), Some("m.js"));
}
