use cuet::json::Json;
use cuet::migration::{
    check_module_history, check_module_migration_files,
    destination_action, ensure_default_workspace, ensure_migrated_snapshot, parse_history_target,
    state_snapshot_missing, DestinationAction, StateSnapshot, StateSnapshotMetadata,
};

fn snapshot(lineage: &str, serial: u64, contents: Vec<(String, Json)>) -> StateSnapshotMetadata {
    StateSnapshotMetadata { lineage: lineage.to_owned(), serial, contents }
}

#[test]
fn test_history_target_defaults_environment_and_accepts_workspace_prefix() {
    assert_eq!(
        parse_history_target("/infra/old", "prod").unwrap(),
        ("infra/old".to_owned(), "prod".to_owned())
    );
    assert_eq!(
        parse_history_target("infra/old:dev", "prod").unwrap(),
        ("infra/old".to_owned(), "dev".to_owned())
    );
}

#[test]
fn history_target_rejects_invalid_environment() {
    assert_eq!(
        parse_history_target("infra/old:../prod", "prod").unwrap_err(),
        "environment must match [A-Za-z0-9_-]+"
    );
}

#[test]
fn test_module_migration_requires_only_default_workspace() {
    ensure_default_workspace(b"* default\n").unwrap();

    let error = ensure_default_workspace(b"* default\n  development\n")
        .expect_err("additional workspaces should be rejected");

    assert!(error.message().contains("default, development"));
}

#[test]
fn default_workspace_listing_ignores_blank_lines() {
    ensure_default_workspace(b"\n* default  \r\n\n").unwrap();
    assert!(ensure_default_workspace(b"  * default\n").is_err());
    assert_eq!(
        ensure_default_workspace(b"").unwrap_err().message(),
        "Module migration requires exactly the default workspace; found: "
    );
}

#[test]
fn test_module_migration_requires_destination_snapshot() {
    let source = snapshot("source", 4, Vec::new());
    let current_destination = snapshot("source", 5, Vec::new());
    let stale_destination = snapshot("source", 3, Vec::new());

    ensure_migrated_snapshot(&source, &current_destination).unwrap();
    let error = ensure_migrated_snapshot(&source, &stale_destination)
        .expect_err("stale destination should be rejected");

    assert!(error.message().contains("migrated source snapshot"));
}

#[test]
fn test_module_migration_guards_destination_state() {
    let source = snapshot("source", 4, Vec::new());
    let current = StateSnapshot::Present(snapshot("source", 4, Vec::new()));
    let stale = StateSnapshot::Present(snapshot("source", 3, Vec::new()));
    let unrelated = StateSnapshot::Present(snapshot("other", 5, Vec::new()));
    let divergent = StateSnapshot::Present(snapshot(
        "source",
        4,
        vec![(
            "outputs".to_owned(),
            Json::Object(vec![("x".to_owned(), Json::Number("1".to_owned()))]),
        )],
    ));

    assert!(matches!(
        destination_action(&source, &StateSnapshot::Missing).unwrap(),
        DestinationAction::Copy
    ));
    assert!(destination_action(&source, &stale).is_err());
    assert!(matches!(destination_action(&source, &current).unwrap(), DestinationAction::Current));
    assert!(destination_action(&source, &unrelated).is_err());
    assert!(destination_action(&source, &divergent).is_err());
    assert!(state_snapshot_missing("Error: No state file was found!"));
    assert!(!state_snapshot_missing("permission denied"));
}

#[test]
fn destination_errors_name_their_cause() {
    let source = snapshot("source", 4, Vec::new());
    let unrelated = StateSnapshot::Present(snapshot("other", 4, Vec::new()));
    let divergent = StateSnapshot::Present(snapshot("source", 5, Vec::new()));

    assert_eq!(
        destination_action(&source, &unrelated).unwrap_err().message(),
        "Destination state is non-empty and has unrelated lineage"
    );
    assert_eq!(
        destination_action(&source, &divergent).unwrap_err().message(),
        "Destination state does not exactly match the source snapshot"
    );
}

#[test]
fn module_migration_files_are_checked_in_order() {
    let artifacts = |flags: [bool; 3]| -> Vec<(String, bool)> {
        ["o/tfmigrate.json", "o/_tfmigrate_override.tf", "o/.tfmigrate"]
            .iter()
            .zip(flags)
            .map(|(path, exists)| ((*path).to_owned(), exists))
            .collect()
    };
    assert!(check_module_migration_files(false, "s", "d", &artifacts([false; 3]), false, "x").is_ok());
    assert_eq!(
        check_module_migration_files(true, "old/.lock", "new/.lock", &artifacts([true; 3]), true, "x")
            .unwrap_err()
            .message(),
        "Historical provider lock still exists at 'old/.lock'; move it to 'new/.lock'"
    );
    assert_eq!(
        check_module_migration_files(false, "s", "d", &artifacts([false, true, true]), true, "x")
            .unwrap_err()
            .message(),
        "Stale tfmigrate artifact exists at 'o/_tfmigrate_override.tf'; remove it for native module migration"
    );
    assert_eq!(
        check_module_migration_files(false, "s", "d", &artifacts([false; 3]), true, "o.migrate")
            .unwrap_err()
            .message(),
        "Stale module migration directory exists at 'o.migrate'; remove it before continuing"
    );
}

fn number(text: &str) -> Json {
    Json::Number(text.to_owned())
}

#[test]
fn destination_contents_compare_as_json_values() {
    let fields = |zero: &str| {
        vec![
            ("outputs".to_owned(), Json::Object(vec![("x".to_owned(), number(zero))])),
            ("version".to_owned(), number("4")),
        ]
    };
    let source = snapshot("source", 4, fields("0.0"));

    assert!(matches!(
        destination_action(&source, &StateSnapshot::Present(snapshot("source", 4, fields("-0.0")))),
        Ok(DestinationAction::Current)
    ));
    assert!(destination_action(&source, &StateSnapshot::Present(snapshot("source", 4, fields("0"))))
        .is_err());
    assert!(destination_action(&source, &StateSnapshot::Present(snapshot("source", 4, fields("1.0"))))
        .is_err());
    assert!(destination_action(&source, &StateSnapshot::Present(snapshot("source", 4, Vec::new())))
        .is_err());
}

#[test]
fn module_history_entries_are_checked() {
    let history = |entries: Vec<Json>| Json::Object(vec![("moduleHistory".to_owned(), Json::Array(entries))]);
    let entry = |text: &str| Json::String(text.to_owned());

    assert_eq!(check_module_history(&history(vec![entry("/old:prod"), entry("infra/old")]), "prod"), Ok(()));
    assert_eq!(check_module_history(&Json::Object(Vec::new()), "prod"), Ok(()));
    assert_eq!(
        check_module_history(&history(vec![entry("old"), Json::Null]), "prod"),
        Err("Module history entries must be strings".to_owned())
    );
    assert_eq!(
        check_module_history(&history(vec![entry("old:../x"), Json::Null]), "prod"),
        Err("Invalid module history entry 'old:../x': environment must match [A-Za-z0-9_-]+".to_owned())
    );
}
