use sshtunnel_manager::json::{reformat_profile_json, ProfileJsonError};
use sshtunnel_manager::profile_form::{
    ensure_unique_name, forward_from_row, forward_labels, resolve_profile_id, slugify_profile_id,
    trim_optional, ForwardSpec,
};

#[test]
fn slugify_examples() {
    assert_eq!(slugify_profile_id("Demo DB"), "demo-db");
    assert_eq!(slugify_profile_id("  --Hello,   World!--  "), "hello-world");
    assert_eq!(slugify_profile_id("Prod (EU) #2"), "prod-eu-2");
    assert_eq!(slugify_profile_id("Ünïcode Näme"), "n-code-n-me");
    assert_eq!(slugify_profile_id(""), "profile");
    assert_eq!(slugify_profile_id("!!!"), "profile");
    assert_eq!(slugify_profile_id("ABC123"), "abc123");
}

#[test]
fn slugify_is_idempotent_and_clean() {
    for name in ["Demo DB", "a--b", "-x-", "Ünïcode", "", "  ", "web_server.prod"] {
        let once = slugify_profile_id(name);
        assert_eq!(slugify_profile_id(&once), once);
        assert!(!once.is_empty());
        assert!(!once.starts_with('-') && !once.ends_with('-'));
        assert!(!once.contains("--"));
        assert!(once.chars().all(|c| c.is_ascii_lowercase() || c.is_ascii_digit() || c == '-'));
    }
}

#[test]
fn trim_optional_cases() {
    assert_eq!(trim_optional("  "), None);
    assert_eq!(trim_optional(""), None);
    assert_eq!(trim_optional(" ~/.ssh/id_ed25519 "), Some("~/.ssh/id_ed25519".to_string()));
}

#[test]
fn resolve_profile_id_cases() {
    assert_eq!(resolve_profile_id("  my-id ", "Whatever"), Ok("my-id".to_string()));
    assert_eq!(resolve_profile_id("   ", " Demo DB "), Ok("demo-db".to_string()));
    assert_eq!(resolve_profile_id("", "  "), Err("Profile ID is required".to_string()));
}

fn entries() -> Vec<(String, String)> {
    vec![
        ("alpha".to_string(), "Alpha".to_string()),
        ("beta".to_string(), " Shared ".to_string()),
        ("gamma".to_string(), "Shared".to_string()),
    ]
}

#[test]
fn unique_name_allows_own_and_new_names() {
    assert_eq!(ensure_unique_name("alpha", "Alpha", &entries()), Ok(()));
    assert_eq!(ensure_unique_name("delta", "Delta", &entries()), Ok(()));
    assert_eq!(ensure_unique_name("x", "alpha", &entries()), Ok(()));
}

#[test]
fn unique_name_reports_first_clash() {
    assert_eq!(
        ensure_unique_name("delta", "  Shared", &entries()),
        Err("profile name 'Shared' is already used by id 'beta'".to_string())
    );
    assert_eq!(
        ensure_unique_name("beta", "Shared", &entries()),
        Err("profile name 'Shared' is already used by id 'gamma'".to_string())
    );
}

#[test]
fn forward_labels_by_kind() {
    let (a, b, c) = forward_labels("remote");
    assert_eq!((a.as_str(), b.as_str(), c.as_str()), ("Remote Port", "Local Host", "Local Port"));
    let (a, b, c) = forward_labels("local");
    assert_eq!((a.as_str(), b.as_str(), c.as_str()), ("Local Port", "Remote Host", "Remote Port"));
    let (a, _, _) = forward_labels("");
    assert_eq!(a, "Local Port");
}

#[test]
fn forward_from_row_cases() {
    match forward_from_row("local", " 127.0.0.1 ", 8080, " localhost ", 80) {
        ForwardSpec::Local { bind_address, local_port, remote_host, remote_port } => {
            assert_eq!(bind_address, Some("127.0.0.1".to_string()));
            assert_eq!(local_port, 8080);
            assert_eq!(remote_host, "localhost");
            assert_eq!(remote_port, 80);
        }
        other => panic!("unexpected {other:?}"),
    }
    match forward_from_row("remote", "  ", 9000, "127.0.0.1", 3000) {
        ForwardSpec::Remote { bind_address, remote_port, local_host, local_port } => {
            assert_eq!(bind_address, None);
            assert_eq!(remote_port, 9000);
            assert_eq!(local_host, "127.0.0.1");
            assert_eq!(local_port, 3000);
        }
        other => panic!("unexpected {other:?}"),
    }
}

#[test]
fn reformats_profile_json() {
    let out = reformat_profile_json("{\"name\":\"demo\",\"autostart\":true}").expect("valid json");
    assert_eq!(out, "{\n  \"autostart\": true,\n  \"name\": \"demo\"\n}");
    assert_ne!(out, "{\"name\":\"demo\",\"autostart\":true}");
}

#[test]
fn rejects_invalid_profile_json() {
    match reformat_profile_json("{\"name\": ") {
        Err(ProfileJsonError::Parse(e)) => assert!(e.is_eof()),
        other => panic!("unexpected {other:?}"),
    }
    assert!(matches!(reformat_profile_json(""), Err(ProfileJsonError::Parse(_))));
}
