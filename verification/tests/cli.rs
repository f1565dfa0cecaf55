use cuet::cli::{
    parse_env, validate_env, CueCommand, MigrationCommand, ModuleTarget, Target,
};
use std::str::FromStr;

#[test]
fn target_parses_module_and_environment() {
    assert_eq!(
        Target::from_str("infra/neon:dev").unwrap(),
        Target {
            module: ModuleTarget::Relative("infra/neon".to_owned()),
            environment: Some("dev".to_owned()),
        }
    );
    assert_eq!(
        Target::parse(":global").unwrap(),
        Target { module: ModuleTarget::Relative(".".to_owned()), environment: Some("global".to_owned()) }
    );
    assert_eq!(
        Target::parse("/infra/neon:prod").unwrap(),
        Target {
            module: ModuleTarget::WorkspaceRelative("infra/neon".to_owned()),
            environment: Some("prod".to_owned()),
        }
    );
    assert_eq!(
        Target::parse("../neon").unwrap(),
        Target { module: ModuleTarget::Relative("../neon".to_owned()), environment: None }
    );
    assert_eq!(
        Target::parse("/infra//neon:dev").unwrap().module,
        ModuleTarget::WorkspaceRelative("infra//neon".to_owned())
    );
    assert_eq!(Target::default(), Target { module: ModuleTarget::Relative(".".to_owned()), environment: None });
}

#[test]
fn target_rejects_invalid_environments() {
    for value in ["infra/neon:", ":../../prod", "a:b:c"] {
        assert_eq!(Target::parse(value).unwrap_err(), "environment must match [A-Za-z0-9_-]+");
    }
}

#[test]
fn environment_names_match_pattern() {
    assert!(validate_env("prod-eu_1").is_ok());
    assert!(validate_env("").is_err());
    assert!(validate_env("dev.1").is_err());
    assert_eq!(parse_env("dev".to_owned()), Ok("dev".to_owned()));
    assert_eq!(ModuleTarget::from_cli_component(""), ModuleTarget::Relative(".".to_owned()));
}

#[test]
fn subcommands_expose_their_arguments() {
    let plan = MigrationCommand::Plan { args: vec!["-x".to_owned()] };
    let check = MigrationCommand::Check;
    let export = CueCommand::Export { args: vec!["--out".to_owned(), "yaml".to_owned()] };

    assert_eq!(plan.tfmigrate_command_and_args(), Some(("plan", &["-x".to_owned()][..])));
    assert_eq!(check.tfmigrate_command_and_args(), None);
    assert!(check.args().is_empty());
    assert_eq!(plan.args(), ["-x"]);
    assert_eq!(export.command_and_args(), ("export", &["--out".to_owned(), "yaml".to_owned()][..]));
}

#[test]
fn test_cli_parses_workspace_relative_module() {
    assert_eq!(
        "/infra/neon:prod".parse::<Target>().unwrap(),
        Target {
            module: ModuleTarget::WorkspaceRelative("infra/neon".to_owned()),
            environment: Some("prod".to_owned()),
        }
    );
}

#[test]
fn test_cli_parses_module_without_environment() {
    assert_eq!(
        "../neon".parse::<Target>().unwrap(),
        Target {
            module: ModuleTarget::Relative("../neon".to_owned()),
            environment: None,
        }
    );
}

#[test]
fn test_cli_rejects_empty_environment() {
    let error = "infra/neon:".parse::<Target>().unwrap_err();

    assert!(error.contains("environment must match [A-Za-z0-9_-]+"));
}

#[test]
fn test_cli_allows_empty_module_component() {
    assert_eq!(
        "/infra//neon:dev".parse::<Target>().unwrap(),
        Target {
            module: ModuleTarget::WorkspaceRelative("infra//neon".to_owned()),
            environment: Some("dev".to_owned()),
        }
    );
}

#[test]
fn test_cli_rejects_environment_path() {
    let error = ":../../prod".parse::<Target>().unwrap_err();

    assert!(error.contains("environment must match [A-Za-z0-9_-]+"));
}

#[test]
fn module_targets_compare_as_paths() {
    let relative = |p: &str| ModuleTarget::Relative(p.to_owned());
    assert_eq!(relative("infra/"), relative("infra"));
    assert_eq!(relative("infra//neon"), relative("infra/neon"));
    assert_eq!(relative("infra/./neon/."), relative("infra/neon"));
    assert_ne!(relative("./infra"), relative("infra"));
    assert_ne!(relative("infra/../neon"), relative("neon"));
    assert_ne!(relative("a"), ModuleTarget::WorkspaceRelative("a".to_owned()));
    assert_eq!(
        "/infra/neon/:dev".parse::<Target>().unwrap(),
        "/infra//neon:dev".parse::<Target>().unwrap()
    );
    assert_ne!(
        "infra:dev".parse::<Target>().unwrap(),
        "infra:prod".parse::<Target>().unwrap()
    );
}
