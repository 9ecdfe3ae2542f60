use container_desktop_entries::registry::{DaemonModel, RegistryCall};

fn entry(owner: &str, appid: &str, text: &str) -> RegistryCall {
    RegistryCall::Entry {
        appid: appid.to_string(),
        text: text.to_string(),
        owner: owner.to_string(),
    }
}

fn icon(owner: &str, name: &str, payload: &str) -> RegistryCall {
    RegistryCall::Icon {
        icon_name: name.to_string(),
        payload: payload.to_string(),
        owner: owner.to_string(),
    }
}

fn retract(owner: &str) -> RegistryCall {
    RegistryCall::Retract {
        owner: owner.to_string(),
    }
}

#[test]
fn register_then_lookup() {
    let mut m = DaemonModel::new();
    m.apply(&entry("demo", "app", "text-1"));
    m.apply(&icon("demo", "myapp", "/ws/icons/myapp.svg"));
    assert_eq!(m.entry_text("demo", "app").as_deref(), Some("text-1"));
    assert_eq!(
        m.icon_payload("demo", "myapp").as_deref(),
        Some("/ws/icons/myapp.svg")
    );
    assert!(m.entry_text("other", "app").is_none());
}

#[test]
fn later_registration_overrides_earlier() {
    let mut m = DaemonModel::new();
    m.apply(&entry("demo", "app", "old"));
    m.apply(&entry("demo", "app", "new"));
    assert_eq!(m.entry_text("demo", "app").as_deref(), Some("new"));
}

#[test]
fn retract_removes_only_that_owner() {
    let mut m = DaemonModel::new();
    m.apply(&entry("demo", "app", "t"));
    m.apply(&icon("demo", "i", "p"));
    m.apply(&entry("other", "app", "kept"));
    m.apply(&retract("demo"));
    assert!(m.entry_text("demo", "app").is_none());
    assert!(m.icon_payload("demo", "i").is_none());
    assert_eq!(m.entry_text("other", "app").as_deref(), Some("kept"));
}

#[test]
fn retract_of_absent_owner_is_noop() {
    let mut m = DaemonModel::new();
    m.apply(&entry("other", "app", "kept"));
    m.apply(&retract("demo"));
    assert_eq!(m.entry_text("other", "app").as_deref(), Some("kept"));
}

#[test]
fn rerun_leaves_only_second_runs_state() {
    let owner = "fedora-toolbox-40";
    let mut m = DaemonModel::new();
    // First completed pass: retract, then this run's snapshot.
    m.apply(&retract(owner));
    m.apply(&entry(owner, "stale-app", "old text"));
    m.apply(&icon(owner, "stale-icon", "old payload"));
    // Second completed pass for the same container.
    m.apply(&retract(owner));
    m.apply(&entry(owner, "fresh-app", "new text"));
    m.apply(&icon(owner, "fresh-icon", "new payload"));
    // Exactly the second run's entries and icons survive under the owner.
    assert!(m.entry_text(owner, "stale-app").is_none());
    assert!(m.icon_payload(owner, "stale-icon").is_none());
    assert_eq!(m.entry_text(owner, "fresh-app").as_deref(), Some("new text"));
    assert_eq!(
        m.icon_payload(owner, "fresh-icon").as_deref(),
        Some("new payload")
    );
}
