use cuet::cli::CueCommand;
use cuet::expression::{
    backend_expression, backend_override_value, metadata_expression_for_module, cue_arguments, cue_export_file_arguments,
    migration_expression, populated_arguments, reconciled_export_expression, reconciliation_json,
    tfmigrate_arguments, tfmigrate_exec_path,
};
use cuet::reconciliation::{HistoricalProvider, Reconciliation};
use cuet::workspace::Workspace;

fn workspace() -> Workspace {
    Workspace::from_canonical("/tmp/t/workspace".to_owned(), "/tmp/t/workspace/infra/neon".to_owned()).unwrap()
}

#[test]
fn test_reconciled_export_expression_injects_historical_providers() {
    let workspace = workspace();
    let reconciliation = Reconciliation {
        environment: "global".to_owned(),
        required_providers: vec![
            HistoricalProvider { source: "google".to_owned(), alias: String::new() },
            HistoricalProvider { source: "neon".to_owned(), alias: "readonly".to_owned() },
        ],
    };

    let expression = reconciled_export_expression(&workspace, "global", "null", Some(&reconciliation));

    assert_eq!(
        expression,
        r#"((infra & { #metadata: { module: "infra/neon", localBackendOverride: null, reconciliation: {"environment":"global","requiredProviders":[{"source":"google","alias":""},{"source":"neon","alias":"readonly"}]} } }).out)["global"].terraform"#
    );
    assert_eq!(
        reconciled_export_expression(&workspace, "dev", "null", None),
        r#"((infra & { #metadata: { module: "infra/neon", localBackendOverride: null } }).out)["dev"].terraform"#
    );
}

#[test]
fn cue_command_uses_module_metadata() {
    let arguments = cue_arguments(
        &workspace(),
        "dev",
        "null",
        &CueCommand::Export { args: vec!["--out".to_owned(), "yaml".to_owned()] },
    );

    assert_eq!(
        arguments,
        [
            "export",
            ".:neon",
            "-e",
            r#"((infra & { #metadata: { module: "infra/neon", localBackendOverride: null } }).out)["dev"].terraform"#,
            "--out",
            "yaml",
        ]
    );
}

#[test]
fn environment_command_queries_populated_input() {
    assert_eq!(
        populated_arguments(&workspace(), "null"),
        [
            "export",
            ".:neon",
            "-e",
            r#"[for env, _ in (infra & { #metadata: { module: "infra/neon", localBackendOverride: null } })["in"] {env}]"#,
            "--out",
            "json",
        ]
    );
}

#[test]
fn migration_and_backend_expressions_select_environment() {
    let local = backend_override_value(true);

    assert_eq!(local, "\"local.tfstate\"");
    assert_eq!(backend_override_value(false), "null");
    assert_eq!(
        migration_expression(&workspace(), "prod", local),
        r#"((infra & { #metadata: { module: "infra/neon", localBackendOverride: "local.tfstate" } }).#migration)["prod"]"#
    );
    assert_eq!(
        backend_expression("old \"one\"", "prod", "null"),
        r#"((infra & { #metadata: { module: "old \"one\"", localBackendOverride: null } }).#backends)["prod"]"#
    );
    assert_eq!(
        reconciliation_json(&Reconciliation { environment: "e".to_owned(), required_providers: Vec::new() }),
        r#"{"environment":"e","requiredProviders":[]}"#
    );
}

#[test]
fn command_arguments_keep_their_order() {
    assert_eq!(
        cue_export_file_arguments(&workspace(), "x", ".cuet/dev/main.tf.json"),
        ["export", ".:neon", "-e", "x", "-f", "-o", ".cuet/dev/main.tf.json"]
    );
    assert_eq!(
        tfmigrate_arguments("plan", &["--out=migration.tfplan".to_owned()]),
        ["plan", "--out=migration.tfplan", "tfmigrate.json"]
    );
    assert_eq!(tfmigrate_exec_path("/tools/tofu"), "/tools/tofu");
    assert_eq!(tfmigrate_exec_path("/my tools/tofu"), "'/my tools/tofu'");
}

#[test]
fn test_environment_command_queries_populated_input() {
    let workspace =
        Workspace::from_canonical("/w".to_owned(), "/w/infra/neon".to_owned()).unwrap();

    assert_eq!(
        populated_arguments(&workspace, "null"),
        [
            "export",
            ".:neon",
            "-e",
            r#"[for env, _ in (infra & { #metadata: { module: "infra/neon", localBackendOverride: null } })["in"] {env}]"#,
            "--out",
            "json",
        ]
    );
}

#[test]
fn module_names_are_escaped_as_json_strings() {
    assert_eq!(
        metadata_expression_for_module("a\"b\\c\nd\u{1}\té/", "null"),
        "{ #metadata: { module: \"a\\\"b\\\\c\\nd\\u0001\\té/\", localBackendOverride: null } }"
    );
}
