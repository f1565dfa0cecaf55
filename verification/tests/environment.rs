use cuet::environment::{environments_from, populated, select_with, PopulatedError, SelectionError};

fn strings(values: &[&str]) -> Vec<String> {
    values.iter().map(|value| (*value).to_owned()).collect()
}

#[test]
fn test_select_environment_rejects_empty_list() {
    let error = select_with(Vec::new(), false, |_| unreachable!())
        .expect_err("empty environment list should fail");

    assert!(error.message().contains("No populated environments"));
}

#[test]
fn test_select_environment_uses_only_environment() {
    let environment = select_with(strings(&["dev"]), false, |_| unreachable!()).unwrap();

    assert_eq!(environment, "dev");
}

#[test]
fn test_select_environment_rejects_multiple_without_terminal() {
    let error = select_with(strings(&["dev", "prod"]), false, |_| unreachable!())
        .expect_err("non-interactive selection should fail");

    assert!(error.message().contains("dev, prod"));
    assert!(error.message().contains("-t :ENV"));
}

#[test]
fn test_select_environment_prompts_for_multiple() {
    let environment = select_with(strings(&["prod", "dev"]), true, |options| {
        assert_eq!(options, ["dev", "prod"]);
        Ok(Some(options[1].clone()))
    })
    .unwrap();

    assert_eq!(environment, "prod");
}

#[test]
fn test_select_environment_reports_cancellation() {
    let error = select_with(strings(&["dev", "prod"]), true, |_| Ok(None))
        .expect_err("cancelled selection should fail");

    assert!(error.message().contains("selection cancelled"));
}

#[test]
fn selection_passes_prompt_failures_through() {
    let error = select_with(strings(&["b", "a"]), true, |_| Err(SelectionError::Prompt("no tty".to_owned())))
        .expect_err("prompt failure should be reported");

    assert_eq!(error.message(), "no tty");
}

#[test]
fn test_populated_returns_set() {
    let environments = populated(true, "exit status: 0", b"", b"[\"prod\",\"dev\",\"dev\"]").unwrap();

    assert_eq!(environments, ["dev".to_owned(), "prod".to_owned()]);
}

#[test]
fn test_discover_reports_cue_failure() {
    let error = populated(false, "exit status: 17", b"invalid module", b"").unwrap_err();

    assert!(error.message().contains("invalid module"));
    assert!(error.message().contains("exit status: 17"));
}

#[test]
fn populated_failure_trims_output() {
    let error = populated(false, "exit status: 17", b"\n invalid module\n", b"").unwrap_err();

    assert_eq!(
        error.message(),
        "Failed to discover populated environments (exit status: 17): invalid module"
    );
}

#[test]
fn test_populated_rejects_invalid_environment_name() {
    let error = populated(true, "exit status: 0", b"", b"[\"invalid/name\"]").unwrap_err();

    assert!(error.message().contains("invalid/name"));
    assert!(error.message().contains("[A-Za-z0-9_-]+"));
}

#[test]
fn populated_reports_first_invalid_name() {
    let error = populated(true, "exit status: 0", b"", b"[\"dev\",\"invalid/name\",\"x y\"]").unwrap_err();

    assert!(matches!(error, PopulatedError::InvalidEnvironment(ref name) if name == "invalid/name"));
}

#[test]
fn populated_rejects_non_list_output() {
    let error = populated(true, "exit status: 0", b"", b"{\"dev\":1}").unwrap_err();

    assert!(error.message().starts_with("CUE returned invalid environment data: "));
}

#[test]
fn environments_from_parsed_names() {
    assert_eq!(
        environments_from(Ok(strings(&["prod", "dev", "prod"]))).unwrap(),
        strings(&["dev", "prod"])
    );
    assert!(matches!(
        environments_from(Err("expected value at line 1 column 1".to_owned())),
        Err(PopulatedError::InvalidData(ref text)) if text == "expected value at line 1 column 1"
    ));
    assert!(matches!(
        environments_from(Ok(strings(&["dev", "a b"]))),
        Err(PopulatedError::InvalidEnvironment(ref name)) if name == "a b"
    ));
}

#[test]
fn populated_reports_the_parser_error_text() {
    let error = populated(true, "exit status: 0", b"", b"{\"dev\":1}").unwrap_err();

    assert!(error
        .message()
        .starts_with("CUE returned invalid environment data: invalid type: map, expected a sequence at line 1 column "));
}
