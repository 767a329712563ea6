use sshtunnel_manager::runtime::{
    action_feedback, actions_enabled, backend_status_text, editor_id_or_selected, merge_refresh,
    order_by_keys,
    profile_subtitle, refresh_failed_text, runtime_section, RefreshGate, RuntimeProfile,
};

fn local(id: &str, name: &str, autostart: bool) -> (String, String, bool) {
    (id.to_string(), name.to_string(), autostart)
}

fn row(id: &str, name: &str, status: &str, autostart: bool) -> (String, String, String, bool) {
    (id.to_string(), name.to_string(), status.to_string(), autostart)
}

fn ids(p: &[RuntimeProfile]) -> Vec<&str> {
    p.iter().map(|p| p.id.as_str()).collect()
}

#[test]
fn merge_without_backend_lists_stored_profiles_disconnected() {
    let snap = merge_refresh(&vec![local("b", "beta", false), local("a", "Alpha", true)], &None);
    assert!(!snap.backend_available);
    assert_eq!(ids(&snap.profiles), vec!["a", "b"]);
    assert!(snap.profiles.iter().all(|p| p.status == "disconnected" && p.last_error.is_empty()));
    assert!(snap.profiles[0].autostart);
}

#[test]
fn merge_applies_backend_rows_and_adds_unknown_ids() {
    let snap = merge_refresh(
        &vec![local("db", "Database", false), local("web", "Web", false)],
        &Some(vec![
            row("web", "Web Frontend", "connected", true),
            row("zz", "Extra", "failed", false),
        ]),
    );
    assert!(snap.backend_available);
    assert_eq!(ids(&snap.profiles), vec!["db", "zz", "web"]);
    let web = &snap.profiles[2];
    assert_eq!(web.name, "Web Frontend");
    assert_eq!(web.status, "connected");
    assert!(web.autostart);
    assert_eq!(snap.profiles[1].status, "failed");
    assert_eq!(snap.profiles[0].status, "disconnected");
}

#[test]
fn merge_orders_by_lowercase_name_then_id() {
    let snap = merge_refresh(
        &vec![
            local("c", "same", false),
            local("a", "SAME", false),
            local("b", "Same", false),
            local("d", "ärger", false),
            local("e", "Zed", false),
        ],
        &None,
    );
    assert_eq!(ids(&snap.profiles), vec!["a", "b", "c", "e", "d"]);
}

#[test]
fn merge_keeps_one_entry_per_id() {
    let snap = merge_refresh(
        &vec![local("a", "First", false), local("a", "Second", true)],
        &Some(vec![row("a", "Third", "connecting", false), row("a", "Fourth", "connected", true)]),
    );
    assert_eq!(snap.profiles.len(), 1);
    assert_eq!(snap.profiles[0].name, "Fourth");
    assert_eq!(snap.profiles[0].status, "connected");
}

#[test]
fn last_error_recorded_only_for_failed() {
    let mut snap = merge_refresh(
        &vec![],
        &Some(vec![row("a", "A", "failed", false), row("b", "B", "connected", false)]),
    );
    snap.record_last_error(0, "Connection refused".to_string());
    snap.record_last_error(1, "ignored".to_string());
    assert_eq!(snap.profiles[0].last_error, "Connection refused");
    assert_eq!(snap.profiles[1].last_error, "");
}

fn profile(status: &str, autostart: bool, last_error: &str) -> RuntimeProfile {
    RuntimeProfile {
        id: "demo".into(),
        name: "Demo".into(),
        status: status.into(),
        autostart,
        last_error: last_error.into(),
    }
}

#[test]
fn subtitles() {
    assert_eq!(profile_subtitle(&profile("connected", false, "")), "demo  •  connected");
    assert_eq!(
        profile_subtitle(&profile("connected", true, "stale")),
        "demo  •  connected  •  autostart"
    );
    assert_eq!(
        profile_subtitle(&profile("failed", true, "Connection refused")),
        "demo  •  failed  •  autostart\nConnection refused"
    );
    assert_eq!(profile_subtitle(&profile("failed", false, "")), "demo  •  failed");
}

#[test]
fn runtime_section_texts() {
    let list = vec![profile("failed", false, "boom")];
    assert_eq!(
        runtime_section(&None, &list),
        ("Status: disconnected".to_string(), String::new())
    );
    assert_eq!(
        runtime_section(&Some("demo".into()), &list),
        ("Status: failed".to_string(), "Last error: boom".to_string())
    );
    assert_eq!(
        runtime_section(&Some("other".into()), &list),
        ("Status: unknown".to_string(), String::new())
    );
    let ok = vec![profile("connected", false, "old")];
    assert_eq!(
        runtime_section(&Some("demo".into()), &ok),
        ("Status: connected".to_string(), String::new())
    );
}

#[test]
fn action_switches_and_ids() {
    assert!(actions_enabled(true, &Some("a".into())));
    assert!(!actions_enabled(false, &Some("a".into())));
    assert!(!actions_enabled(true, &Some(String::new())));
    assert!(!actions_enabled(true, &None));
    assert_eq!(editor_id_or_selected("  typed ", &Some("sel".into())), Some("typed".to_string()));
    assert_eq!(editor_id_or_selected("   ", &Some("sel".into())), Some("sel".to_string()));
    assert_eq!(editor_id_or_selected("", &None), None);
}

#[test]
fn status_texts() {
    assert_eq!(backend_status_text(true), "Backend: available");
    assert_eq!(backend_status_text(false), "Backend: unavailable (editing still works)");
    assert_eq!(refresh_failed_text("no bus"), "Backend refresh failed: no bus");
    let ok = action_feedback("Connect demo", &Ok(()));
    assert_eq!(ok.validation, "");
    assert!(!ok.is_error);
    assert_eq!(ok.status_line, Some("Connect demo succeeded".to_string()));
    let err = action_feedback("Disconnect demo", &Err("calling Disconnect".into()));
    assert_eq!(err.validation, "Disconnect demo failed: calling Disconnect");
    assert!(err.is_error);
    assert_eq!(err.status_line, None);
}

#[test]
fn one_refresh_at_a_time() {
    let mut gate = RefreshGate::new();
    assert!(gate.try_begin());
    assert!(!gate.try_begin());
    gate.finish();
    assert!(gate.try_begin());
}

#[test]
fn merge_lowercases_names_before_comparing() {
    let snap = merge_refresh(&vec![local("x", "Beta", false), local("y", "alpha", false)], &None);
    assert_eq!(ids(&snap.profiles), vec!["y", "x"]);
}

#[test]
fn order_by_keys_uses_given_keys_then_ids() {
    let mk = |key: &str, id: &str| (key.to_string(), RuntimeProfile {
        id: id.into(),
        name: "ignored".into(),
        status: "disconnected".into(),
        autostart: false,
        last_error: String::new(),
    });
    let out = order_by_keys(vec![mk("b", "1"), mk("a", "3"), mk("a", "2"), mk("", "9")]);
    let got: Vec<(&str, &str)> = out.iter().map(|(k, p)| (k.as_str(), p.id.as_str())).collect();
    assert_eq!(got, vec![("", "9"), ("a", "2"), ("a", "3"), ("b", "1")]);
    assert!(order_by_keys(vec![]).is_empty());
}
