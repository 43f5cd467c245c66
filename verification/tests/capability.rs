use deco::capability::{
    host_matches, normalize, Broker, Capability, CheckResult, Decision, DefaultPolicy, DenyReason,
    GrantStore, PathScope, ResolutionContext,
};
use deco::path::PathBuf;


fn ctx() -> ResolutionContext {
    ResolutionContext {
        workspace_roots: vec![PathBuf::from("/home/u/project")],
        extension_storage: Some(PathBuf::from("/home/u/.config/deco/storage/pub.ext")),
        extension_install: Some(PathBuf::from("/home/u/.config/deco/extensions/pub.ext")),
    }
}

fn read(path: &str) -> Capability {
    Capability::ReadFile {
        scope: PathScope::Subtree {
            path: PathBuf::from(path),
        },
    }
}

fn write(path: &str) -> Capability {
    Capability::WriteFile {
        scope: PathScope::Subtree {
            path: PathBuf::from(path),
        },
    }
}

fn broker(declared: Vec<Capability>, policy: DefaultPolicy) -> Broker {
    Broker::new(declared, GrantStore::default(), policy, ctx())
}

#[test]
fn an_undeclared_capability_is_denied_without_prompting() {
    let b = broker(vec![], DefaultPolicy::Prompt);
    assert_eq!(
        b.check(&Capability::Clipboard),
        CheckResult::Denied {
            reason: DenyReason::Undeclared
        }
    );
}

#[test]
fn a_declared_capability_prompts_under_the_default_policy() {
    let b = broker(vec![Capability::Clipboard], DefaultPolicy::Prompt);
    assert_eq!(
        b.check(&Capability::Clipboard),
        CheckResult::NeedsConsent {
            capability: Capability::Clipboard
        }
    );
}

#[test]
fn a_deny_policy_refuses_declared_capabilities_without_asking() {
    let b = broker(vec![Capability::Clipboard], DefaultPolicy::Deny);
    assert_eq!(
        b.check(&Capability::Clipboard),
        CheckResult::Denied {
            reason: DenyReason::PolicyDenied
        }
    );
}

#[test]
fn an_allow_policy_still_requires_declaration() {
    let b = broker(vec![Capability::Clipboard], DefaultPolicy::Allow);
    assert_eq!(b.check(&Capability::Clipboard), CheckResult::Allowed);
    assert_eq!(
        b.check(&Capability::Secrets),
        CheckResult::Denied {
            reason: DenyReason::Undeclared
        }
    );
}

#[test]
fn a_remembered_allow_stops_the_prompting() {
    let mut b = broker(vec![Capability::Clipboard], DefaultPolicy::Prompt);
    b.remember(Capability::Clipboard, Decision::Allow);
    assert_eq!(b.check(&Capability::Clipboard), CheckResult::Allowed);
}

#[test]
fn a_remembered_deny_outranks_a_broader_allow() {
    let mut b = broker(
        vec![Capability::ReadFile {
            scope: PathScope::Workspace,
        }],
        DefaultPolicy::Prompt,
    );
    b.remember(
        Capability::ReadFile {
            scope: PathScope::Workspace,
        },
        Decision::Allow,
    );
    b.remember(read("/home/u/project/.env"), Decision::Deny);

    assert_eq!(
        b.check(&read("/home/u/project/src/main.rs")),
        CheckResult::Allowed
    );
    assert_eq!(
        b.check(&read("/home/u/project/.env")),
        CheckResult::Denied {
            reason: DenyReason::UserDenied
        }
    );
}

#[test]
fn remembering_a_decision_replaces_the_opposite_one() {
    let mut b = broker(vec![Capability::Clipboard], DefaultPolicy::Prompt);
    b.remember(Capability::Clipboard, Decision::Deny);
    assert!(matches!(
        b.check(&Capability::Clipboard),
        CheckResult::Denied { .. }
    ));
    b.remember(Capability::Clipboard, Decision::Allow);
    assert_eq!(b.check(&Capability::Clipboard), CheckResult::Allowed);
    assert_eq!(b.grants().denied.len(), 0);
}

#[test]
fn a_grant_for_a_capability_no_longer_declared_is_ignored() {
    // The extension updated and dropped `secrets` from its manifest; the
    // stale grant must not keep working.
    let grants = GrantStore {
        allowed: vec![Capability::Secrets],
        denied: vec![],
    };
    let b = Broker::new(
        vec![Capability::Clipboard],
        grants,
        DefaultPolicy::Allow,
        ctx(),
    );
    assert_eq!(
        b.check(&Capability::Secrets),
        CheckResult::Denied {
            reason: DenyReason::Undeclared
        }
    );
}

#[test]
fn workspace_scope_covers_paths_inside_the_workspace() {
    let b = broker(
        vec![Capability::ReadFile {
            scope: PathScope::Workspace,
        }],
        DefaultPolicy::Allow,
    );
    assert_eq!(
        b.check(&read("/home/u/project/src/main.rs")),
        CheckResult::Allowed
    );
}

#[test]
fn workspace_scope_does_not_cover_paths_outside_it() {
    let b = broker(
        vec![Capability::ReadFile {
            scope: PathScope::Workspace,
        }],
        DefaultPolicy::Allow,
    );
    assert_eq!(
        b.check(&read("/home/u/.ssh/id_ed25519")),
        CheckResult::Denied {
            reason: DenyReason::Undeclared
        }
    );
}

#[test]
fn dot_dot_cannot_walk_out_of_a_scope() {
    let b = broker(
        vec![Capability::ReadFile {
            scope: PathScope::Workspace,
        }],
        DefaultPolicy::Allow,
    );
    for escape in [
        "/home/u/project/../.ssh/id_ed25519",
        "/home/u/project/src/../../../etc/passwd",
        "/home/u/project/./../../etc/shadow",
    ] {
        assert_eq!(
            b.check(&read(escape)),
            CheckResult::Denied {
                reason: DenyReason::Undeclared
            },
            "{escape} escaped the workspace"
        );
    }
}

#[test]
fn a_sibling_directory_with_a_shared_prefix_is_not_inside_the_scope() {
    // `/home/u/project-secrets` must not pass as a child of
    // `/home/u/project`; a plain string prefix test would let it through.
    let b = broker(
        vec![Capability::ReadFile {
            scope: PathScope::Workspace,
        }],
        DefaultPolicy::Allow,
    );
    assert_eq!(
        b.check(&read("/home/u/project-secrets/keys.txt")),
        CheckResult::Denied {
            reason: DenyReason::Undeclared
        }
    );
}

#[test]
fn write_access_implies_read_access_but_not_the_reverse() {
    let b = broker(
        vec![Capability::WriteFile {
            scope: PathScope::Workspace,
        }],
        DefaultPolicy::Allow,
    );
    assert_eq!(
        b.check(&read("/home/u/project/a.txt")),
        CheckResult::Allowed
    );

    let b = broker(
        vec![Capability::ReadFile {
            scope: PathScope::Workspace,
        }],
        DefaultPolicy::Allow,
    );
    assert_eq!(
        b.check(&write("/home/u/project/a.txt")),
        CheckResult::Denied {
            reason: DenyReason::Undeclared
        }
    );
}

#[test]
fn extension_storage_is_its_own_scope() {
    let b = broker(
        vec![Capability::WriteFile {
            scope: PathScope::ExtensionStorage,
        }],
        DefaultPolicy::Allow,
    );
    assert_eq!(
        b.check(&write("/home/u/.config/deco/storage/pub.ext/cache.json")),
        CheckResult::Allowed
    );
    assert_eq!(
        b.check(&write("/home/u/project/a.txt")),
        CheckResult::Denied {
            reason: DenyReason::Undeclared
        }
    );
}

#[test]
fn a_named_subtree_grant_covers_its_children_only() {
    let b = broker(vec![read("/opt/data")], DefaultPolicy::Allow);
    assert_eq!(b.check(&read("/opt/data/x/y.txt")), CheckResult::Allowed);
    assert_eq!(
        b.check(&read("/opt/other/x.txt")),
        CheckResult::Denied {
            reason: DenyReason::Undeclared
        }
    );
}

#[test]
fn network_grants_are_per_host() {
    let b = broker(
        vec![Capability::Network {
            host: "api.example.com".into(),
        }],
        DefaultPolicy::Allow,
    );
    assert_eq!(
        b.check(&Capability::Network {
            host: "api.example.com".into()
        }),
        CheckResult::Allowed
    );
    assert_eq!(
        b.check(&Capability::Network {
            host: "evil.example.com".into()
        }),
        CheckResult::Denied {
            reason: DenyReason::Undeclared
        }
    );
}

#[test]
fn network_host_matching_is_case_insensitive() {
    assert!(host_matches("API.Example.COM", "api.example.com"));
}

#[test]
fn a_wildcard_host_covers_subdomains_only() {
    assert!(host_matches("*.example.com", "api.example.com"));
    assert!(host_matches("*.example.com", "a.b.example.com"));
    // The bare domain is not a subdomain of itself.
    assert!(!host_matches("*.example.com", "example.com"));
    // And a suffix match without the dot must not pass.
    assert!(!host_matches("*.example.com", "notexample.com"));
    assert!(!host_matches("*.example.com", "example.com.evil.net"));
}

#[test]
fn process_grants_are_per_program() {
    let b = broker(
        vec![Capability::Process {
            program: "rustfmt".into(),
        }],
        DefaultPolicy::Allow,
    );
    assert_eq!(
        b.check(&Capability::Process {
            program: "rustfmt".into()
        }),
        CheckResult::Allowed
    );
    assert_eq!(
        b.check(&Capability::Process {
            program: "sh".into()
        }),
        CheckResult::Denied {
            reason: DenyReason::Undeclared
        }
    );
}

#[test]
fn env_grants_are_per_variable() {
    let b = broker(
        vec![Capability::Env {
            name: "CARGO_HOME".into(),
        }],
        DefaultPolicy::Allow,
    );
    assert_eq!(
        b.check(&Capability::Env {
            name: "CARGO_HOME".into()
        }),
        CheckResult::Allowed
    );
    // The classic exfiltration target must not come along for the ride.
    assert_eq!(
        b.check(&Capability::Env {
            name: "AWS_SECRET_ACCESS_KEY".into()
        }),
        CheckResult::Denied {
            reason: DenyReason::Undeclared
        }
    );
}

#[test]
fn capability_kinds_never_cross() {
    let b = broker(vec![Capability::Clipboard], DefaultPolicy::Allow);
    assert_eq!(
        b.check(&Capability::Secrets),
        CheckResult::Denied {
            reason: DenyReason::Undeclared
        }
    );
    assert_eq!(
        b.check(&Capability::OpenExternal),
        CheckResult::Denied {
            reason: DenyReason::Undeclared
        }
    );
}

#[test]
fn check_resolved_path_normalises_before_deciding() {
    let b = broker(
        vec![Capability::ReadFile {
            scope: PathScope::Workspace,
        }],
        DefaultPolicy::Allow,
    );
    assert_eq!(
        b.check_resolved_path(false, &PathBuf::from("/home/u/project/src/../lib.rs")),
        CheckResult::Allowed
    );
    assert_eq!(
        b.check_resolved_path(false, &PathBuf::from("/home/u/project/../secrets")),
        CheckResult::Denied {
            reason: DenyReason::Undeclared
        }
    );
}

#[test]
fn a_workspace_with_no_folders_grants_nothing() {
    let b = Broker::new(
        vec![Capability::ReadFile {
            scope: PathScope::Workspace,
        }],
        GrantStore::default(),
        DefaultPolicy::Allow,
        ResolutionContext::default(),
    );
    assert_eq!(
        b.check(&read("/anything")),
        CheckResult::Denied {
            reason: DenyReason::Undeclared
        }
    );
}

#[test]
fn multi_root_workspaces_cover_every_folder() {
    let context = ResolutionContext {
        workspace_roots: vec![PathBuf::from("/a"), PathBuf::from("/b")],
        ..Default::default()
    };
    let b = Broker::new(
        vec![Capability::ReadFile {
            scope: PathScope::Workspace,
        }],
        GrantStore::default(),
        DefaultPolicy::Allow,
        context,
    );
    assert_eq!(b.check(&read("/a/x")), CheckResult::Allowed);
    assert_eq!(b.check(&read("/b/y")), CheckResult::Allowed);
    assert_eq!(
        b.check(&read("/c/z")),
        CheckResult::Denied {
            reason: DenyReason::Undeclared
        }
    );
}

#[test]
fn normalisation_leaves_leading_parent_components_alone() {
    // Nothing to pop, so the `..` has to stay; dropping it would silently
    // turn a relative escape into an innocent-looking path.
    assert_eq!(
        normalize(&PathBuf::from("../etc/passwd")),
        PathBuf::from("../etc/passwd")
    );
    assert_eq!(normalize(&PathBuf::from("a/../../b")), PathBuf::from("../b"));
}

#[test]
fn default_policy_parses_the_setting_values() {
    assert_eq!(DefaultPolicy::parse("prompt"), Some(DefaultPolicy::Prompt));
    assert_eq!(DefaultPolicy::parse("deny"), Some(DefaultPolicy::Deny));
    assert_eq!(DefaultPolicy::parse("allow"), Some(DefaultPolicy::Allow));
    assert_eq!(DefaultPolicy::parse("maybe"), None);
    assert_eq!(DefaultPolicy::default(), DefaultPolicy::Prompt);
}

#[test]
fn a_capability_covers_itself() {
    for capability in [
        read("/home/u/a/../b"),
        write("relative/path"),
        Capability::ReadFile { scope: PathScope::Workspace },
        Capability::Network { host: "*.example.com".into() },
        Capability::Network { host: "*.".into() },
        Capability::Process { program: "git".into() },
        Capability::Secrets,
    ] {
        assert!(capability.covers(&capability, &ctx()));
    }
}

#[test]
fn covering_is_transitive() {
    let wide = Capability::Network { host: "*.example.com".into() };
    let narrow = Capability::Network { host: "*.api.example.com".into() };
    let one = Capability::Network { host: "v1.api.example.com".into() };
    assert!(wide.covers(&narrow, &ctx()));
    assert!(narrow.covers(&one, &ctx()));
    assert!(wide.covers(&one, &ctx()));
    let workspace = Capability::WriteFile { scope: PathScope::Workspace };
    assert!(workspace.covers(&write("/home/u/project/src"), &ctx()));
    assert!(write("/home/u/project/src").covers(&read("/home/u/project/src/a.rs"), &ctx()));
    assert!(workspace.covers(&read("/home/u/project/src/a.rs"), &ctx()));
}

#[test]
fn forgetting_undoes_remembering() {
    for decision in [Decision::Allow, Decision::Deny] {
        let mut b = broker(vec![Capability::Clipboard], DefaultPolicy::Prompt);
        let before = b.check(&Capability::Clipboard);
        b.remember(Capability::Clipboard, decision);
        assert_ne!(b.check(&Capability::Clipboard), before);
        b.forget(&Capability::Clipboard);
        assert_eq!(b.check(&Capability::Clipboard), before);
        assert!(b.grants().allowed.is_empty() && b.grants().denied.is_empty());
    }
}
