use sshtunnel_manager::listing::{
    no_profiles_message, profile_table_row, select_profile_source, table_header, table_row,
    ProfileSource,
};

#[test]
fn header_matches_columns() {
    assert_eq!(table_header(), format!("{:<24} {:<12} {:<5} NAME", "ID", "STATUS", "AUTO"));
}

#[test]
fn rows_are_padded_like_format() {
    let row = profile_table_row("demo-db", "active", true, "Demo DB");
    assert_eq!(row, format!("{:<24} {:<12} {:<5} {}", "demo-db", "active", "yes", "Demo DB"));
    let row = profile_table_row("x", "inactive", false, "X");
    assert_eq!(row, format!("{:<24} {:<12} {:<5} {}", "x", "inactive", "no", "X"));
}

#[test]
fn long_and_unicode_cells_are_not_cut() {
    let id = "a-very-long-profile-identifier-that-overflows";
    let row = table_row(id, "ünïcödé", "yes", "Név");
    assert_eq!(row, format!("{:<24} {:<12} {:<5} {}", id, "ünïcödé", "yes", "Név"));
}

#[test]
fn empty_listing_names_directory() {
    assert_eq!(
        no_profiles_message("/home/u/.config/sshtunnel-manager/profiles.d"),
        "No profiles found in /home/u/.config/sshtunnel-manager/profiles.d"
    );
}

#[test]
fn runner_profile_source() {
    match select_profile_source::<String>(Some("demo".into()), None) {
        Ok(ProfileSource::Id(id)) => assert_eq!(id, "demo"),
        _ => panic!("expected an id"),
    }
    match select_profile_source(None, Some("/tmp/p.json".to_string())) {
        Ok(ProfileSource::Path(p)) => assert_eq!(p, "/tmp/p.json"),
        _ => panic!("expected a path"),
    }
    match select_profile_source::<String>(None, None) {
        Err(e) => assert_eq!(e, "missing profile id (or use --profile-path <path>)"),
        _ => panic!("expected an error"),
    }
}
