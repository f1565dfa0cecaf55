use cuet::reconciliation::{
    environment_choices, environment_names, environment_state, historical_provider,
    reconciliation_for, removes_emptied_environment, state_after_failed_pull, state_missing,
    without_remaining_state, EnvironmentEntry, HistoricalProvider, ProviderError, PulledState,
    StateResource,
};

fn resource(provider: &str) -> StateResource {
    StateResource { provider: provider.to_owned() }
}

fn strings(values: &[&str]) -> Vec<String> {
    values.iter().map(|value| (*value).to_owned()).collect()
}

#[test]
fn test_historical_provider_reads_source_and_alias() {
    assert_eq!(
        historical_provider(&StateResource {
            provider: r#"provider["registry.opentofu.org/kislerdm/neon"]"#.to_owned(),
        })
        .unwrap(),
        HistoricalProvider { source: "kislerdm/neon".to_owned(), alias: String::new() }
    );
    assert_eq!(
        historical_provider(&StateResource {
            provider: r#"provider["registry.terraform.io/hashicorp/google-beta"].bootstrap"#.to_owned(),
        })
        .unwrap(),
        HistoricalProvider { source: "hashicorp/google-beta".to_owned(), alias: "bootstrap".to_owned() }
    );
    assert_eq!(
        historical_provider(&StateResource {
            provider: r#"provider["providers.example.com/acme/cloud"]"#.to_owned(),
        })
        .unwrap(),
        HistoricalProvider { source: "providers.example.com/acme/cloud".to_owned(), alias: String::new() }
    );
    assert_eq!(
        historical_provider(&StateResource {
            provider: r#"provider["terraform.io/builtin/terraform"]"#.to_owned(),
        })
        .unwrap(),
        HistoricalProvider { source: "terraform.io/builtin/terraform".to_owned(), alias: String::new() }
    );
}

#[test]
fn test_historical_provider_rejects_invalid_source() {
    assert!(historical_provider(&StateResource { provider: r#"provider["example"]"#.to_owned() }).is_err());
}

#[test]
fn test_historical_provider_rejects_unsupported_configurations() {
    for provider in [
        r#"module.database.provider["registry.opentofu.org/hashicorp/google"]"#,
        r#"provider["registry.opentofu.org/hashicorp/aws"].by_region["eu-west-1"]"#,
    ] {
        assert!(historical_provider(&StateResource { provider: provider.to_owned() }).is_err());
    }
}

#[test]
fn historical_provider_errors_name_the_part() {
    assert_eq!(historical_provider(&resource("module.x")).unwrap_err(), ProviderError::ModuleScoped);
    assert_eq!(historical_provider(&resource("provider[example]")).unwrap_err(), ProviderError::InvalidAddress);
    assert_eq!(historical_provider(&resource(r#"provider["a/b""#)).unwrap_err(), ProviderError::InvalidAddress);
    assert_eq!(historical_provider(&resource(r#"provider["a//b"]"#)).unwrap_err(), ProviderError::InvalidSource);
    assert_eq!(historical_provider(&resource(r#"provider["a/b/c/d"]"#)).unwrap_err(), ProviderError::InvalidSource);
    assert_eq!(historical_provider(&resource(r#"provider["a/b"]."#)).unwrap_err(), ProviderError::InvalidAlias);
    assert_eq!(historical_provider(&resource(r#"provider["a/b"]x"#)).unwrap_err(), ProviderError::InvalidAlias);
    assert_eq!(
        ProviderError::InvalidAlias.message(),
        "OpenTofu returned invalid provider alias"
    );
}

#[test]
fn environment_state_collects_ordered_providers() {
    let state = PulledState {
        resources: vec![
            resource(r#"provider["registry.opentofu.org/kislerdm/neon"]"#),
            resource(r#"provider["registry.opentofu.org/hashicorp/google"].bootstrap"#),
            resource(r#"provider["registry.opentofu.org/kislerdm/neon"]"#),
        ],
        has_outputs: false,
    };

    let found = environment_state(&state).unwrap();

    assert!(found.has_state);
    assert_eq!(
        found.providers,
        [
            HistoricalProvider { source: "hashicorp/google".to_owned(), alias: "bootstrap".to_owned() },
            HistoricalProvider { source: "kislerdm/neon".to_owned(), alias: String::new() },
        ]
    );
}

#[test]
fn environment_state_counts_outputs_and_reports_first_error() {
    let outputs = environment_state(&PulledState { resources: Vec::new(), has_outputs: true }).unwrap();
    let empty = environment_state(&PulledState { resources: Vec::new(), has_outputs: false }).unwrap();
    let invalid = environment_state(&PulledState {
        resources: vec![resource(r#"provider["a/b"]"#), resource("module.m"), resource("x")],
        has_outputs: false,
    });

    assert!(outputs.has_state && outputs.providers.is_empty());
    assert!(!empty.has_state);
    assert_eq!(invalid.unwrap_err(), ProviderError::ModuleScoped);
    assert!(reconciliation_for("legacy", empty).is_none());
    let rec = reconciliation_for("outputs", outputs).unwrap();
    assert_eq!(rec.environment, "outputs");
}

#[test]
fn failed_pull_without_state_is_empty() {
    let missing = state_after_failed_pull("old", "exit status: 1", "Error: No state file was found!\n").unwrap();
    let failed = state_after_failed_pull("old", "exit status: 1", "  permission denied\n").unwrap_err();

    assert!(!missing.has_state);
    assert!(state_missing("No state file was found"));
    assert_eq!(failed, "Failed to inspect state for environment 'old' (exit status: 1): permission denied");
}

#[test]
fn environment_names_lists_only_initialized_environment_directories() {
    let entry = |name: Option<&str>, is_dir: bool, initialized: bool| EnvironmentEntry {
        name: name.map(str::to_owned),
        is_dir,
        initialized,
    };
    let names = environment_names(&[
        entry(Some("legacy"), true, true),
        entry(Some("dev"), true, true),
        entry(Some("not:valid"), true, true),
        entry(Some("fresh"), true, false),
        entry(Some("file"), false, true),
        entry(None, true, true),
        entry(Some("dev"), true, true),
    ]);

    assert_eq!(names, ["dev", "legacy"]);
}

#[test]
fn removal_follows_apply_and_destroy_of_historical_environments() {
    let desired = strings(&["dev"]);

    assert!(removes_emptied_environment(true, &desired, "old", &strings(&["-chdir=x", "apply"])));
    assert!(removes_emptied_environment(true, &desired, "old", &strings(&["destroy"])));
    assert!(!removes_emptied_environment(true, &desired, "old", &strings(&["plan"])));
    assert!(!removes_emptied_environment(false, &desired, "old", &strings(&["apply"])));
    assert!(!removes_emptied_environment(true, &desired, "dev", &strings(&["apply"])));
    assert!(without_remaining_state(&desired, "old", &None));
    assert!(!without_remaining_state(&desired, "dev", &None));
    assert_eq!(
        environment_choices(&strings(&["prod", "dev"]), &strings(&["old", "dev"])),
        ["dev", "old", "prod"]
    );
}
