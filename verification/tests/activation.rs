use deco::activation::{any_fires, fires, parse_all, ActivationEvent, Trigger};

/// Whether a file is named by a pattern of the form `**/name`, or is the pattern itself.
fn glob(pattern: &String, file: &String) -> bool {
    match pattern.strip_prefix("**/") {
        Some(name) => file == name || file.ends_with(&format!("/{name}")),
        None => file == pattern,
    }
}

#[test]
fn parses_the_event_forms() {
    assert_eq!(ActivationEvent::parse("*"), ActivationEvent::Always);
    assert_eq!(
        ActivationEvent::parse("onStartupFinished"),
        ActivationEvent::StartupFinished
    );
    assert_eq!(
        ActivationEvent::parse("onLanguage:rust"),
        ActivationEvent::Language("rust".into())
    );
    assert_eq!(
        ActivationEvent::parse("onCommand:my.cmd"),
        ActivationEvent::Command("my.cmd".into())
    );
    assert_eq!(
        ActivationEvent::parse("workspaceContains:**/Cargo.toml"),
        ActivationEvent::WorkspaceContains("**/Cargo.toml".into())
    );
    assert_eq!(
        ActivationEvent::parse("onView:myView"),
        ActivationEvent::View("myView".into())
    );
    assert_eq!(ActivationEvent::parse("onUri"), ActivationEvent::Uri);
}

#[test]
fn a_file_system_event_and_surrounding_blanks_are_read() {
    assert_eq!(
        ActivationEvent::parse("onFileSystem:sftp"),
        ActivationEvent::FileSystem("sftp".into())
    );
    assert_eq!(ActivationEvent::parse("  *  "), ActivationEvent::Always);
}

#[test]
fn an_unrecognised_event_never_fires() {
    let event = ActivationEvent::parse("onSomethingNew:x");
    assert_eq!(event, ActivationEvent::Unknown("onSomethingNew:x".into()));
    for trigger in [
        Trigger::StartupFinished,
        Trigger::Language("rust"),
        Trigger::Command("x"),
        Trigger::Uri,
    ] {
        assert!(
            !fires(&event, &trigger, &glob),
            "unknown event fired for {trigger:?}"
        );
    }
}

#[test]
fn language_events_are_exact() {
    let event = ActivationEvent::parse("onLanguage:rust");
    assert!(fires(&event, &Trigger::Language("rust"), &glob));
    assert!(!fires(&event, &Trigger::Language("rustdoc"), &glob));
    assert!(!fires(&event, &Trigger::Command("rust"), &glob));
}

#[test]
fn star_activates_only_at_startup() {
    let event = ActivationEvent::parse("*");
    assert!(fires(&event, &Trigger::StartupFinished, &glob));
    assert!(!fires(&event, &Trigger::Language("rust"), &glob));
}

#[test]
fn workspace_contains_uses_globs() {
    let event = ActivationEvent::parse("workspaceContains:**/Cargo.toml");
    let files = vec!["crates/deco/Cargo.toml".to_owned(), "README.md".to_owned()];
    assert!(fires(&event, &Trigger::WorkspaceFiles(&files), &glob));

    let files = vec!["README.md".to_owned()];
    assert!(!fires(&event, &Trigger::WorkspaceFiles(&files), &glob));
}

#[test]
fn any_fires_scans_the_whole_list() {
    let events = parse_all(&vec![
        "onLanguage:go".to_owned(),
        "onCommand:my.cmd".to_owned(),
    ]);
    assert!(any_fires(&events, &Trigger::Command("my.cmd"), &glob));
    assert!(!any_fires(&events, &Trigger::Command("other.cmd"), &glob));
    assert!(!any_fires(&events, &Trigger::StartupFinished, &glob));
}

#[test]
fn an_extension_with_no_activation_events_never_activates() {
    assert!(!any_fires(&vec![], &Trigger::StartupFinished, &glob));
}

#[test]
fn two_lists_fire_where_either_does() {
    let first = parse_all(&vec!["onLanguage:go".to_owned(), "onNothing".to_owned()]);
    let second = parse_all(&vec!["workspaceContains:**/Cargo.toml".to_owned(), "*".to_owned()]);
    let mut both = first.clone();
    both.extend(second.iter().cloned());
    let files = vec!["a/Cargo.toml".to_owned()];
    for trigger in [
        Trigger::Language("go"),
        Trigger::WorkspaceFiles(&files),
        Trigger::StartupFinished,
        Trigger::Uri,
    ] {
        assert_eq!(
            any_fires(&both, &trigger, &glob),
            any_fires(&first, &trigger, &glob) || any_fires(&second, &trigger, &glob)
        );
    }
    assert!(any_fires(&both, &Trigger::WorkspaceFiles(&files), &glob));
    assert!(!any_fires(&both, &Trigger::Uri, &glob));
}
