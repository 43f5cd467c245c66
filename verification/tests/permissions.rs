use deco::capability::{Capability, GrantStore, PathScope};
use deco::permissions::Permissions;

fn read_workspace() -> Capability {
    Capability::ReadFile {
        scope: PathScope::Workspace,
    }
}

fn granted() -> GrantStore {
    GrantStore {
        allowed: vec![read_workspace()],
        denied: Vec::new(),
    }
}

#[test]
fn an_update_means_the_decision_no_longer_applies() {
    // The main rule of this module. A grant for 1.0.0 applies to code that is
    // no longer installed.
    let mut permissions = Permissions::default();
    permissions.set("acme.tools", "1.0.0", granted());

    assert!(permissions.for_extension("acme.tools", "1.1.0").is_none());
    assert!(permissions.for_extension("acme.tools", "1.0.0").is_some());
    // The previous version is available, so the prompt can explain why it asks.
    assert_eq!(permissions.stale_for("acme.tools", "1.1.0"), Some("1.0.0"));
    assert_eq!(permissions.stale_for("acme.tools", "1.0.0"), None);
}

#[test]
fn forgetting_everything_removes_the_entry_rather_than_storing_an_empty_one() {
    let mut permissions = Permissions::default();
    permissions.set("acme.tools", "1.0.0", granted());
    permissions.set("acme.tools", "1.0.0", GrantStore::default());
    assert!(permissions.is_empty());
}

#[test]
fn a_decision_is_read_back_as_it_was_set() {
    let mut permissions = Permissions::default();
    permissions.set("acme.tools", "1.0.0", granted());
    assert_eq!(
        permissions
            .for_extension("acme.tools", "1.0.0")
            .map(|g| g.allowed.clone()),
        Some(vec![read_workspace()])
    );
}

#[test]
fn entries_are_in_the_order_of_their_identifiers() {
    let mut permissions = Permissions::default();
    for id in ["b.b", "a.z", "c.a", "a.a"] {
        permissions.set(id, "1.0.0", granted());
    }
    permissions.set("c.a", "2.0.0", granted());
    let ids: Vec<&str> = permissions
        .entries()
        .iter()
        .map(|entry| entry.id.as_str())
        .collect();
    assert_eq!(ids, ["a.a", "a.z", "b.b", "c.a"]);
    assert_eq!(permissions.stale_for("c.a", "1.0.0"), Some("2.0.0"));
}
