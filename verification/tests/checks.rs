use cuet::checks::{
    check_label, check_report, discovery_failure, drift_failure, export_failure, plain_status_line,
};
use cuet::logger::Logger;
use cuet::order::{ordered_set, sort_strings};

#[test]
fn export_failures_indent_error_output() {
    assert_eq!(
        export_failure("alpha", "prod", "exit status: 7", b"first export error\nsecond export error\n"),
        "alpha:prod: exit status: 7\n  first export error\n  second export error"
    );
    assert_eq!(export_failure("a", "b", "exit status: 1", b"  \n"), "a:b: exit status: 1");
    assert_eq!(discovery_failure("beta", "bad"), "beta: bad");
    assert_eq!(check_label("m", "dev"), "m:dev");
}

#[test]
fn check_report_sorts_failures() {
    assert_eq!(check_report(Vec::new()), Ok(()));
    assert_eq!(
        check_report(vec!["b: x".to_owned(), "a: y".to_owned()]),
        Err("Module checks failed:\n- a: y\n- b: x".to_owned())
    );
    assert_eq!(plain_status_line("m:dev", Some(true)), "PASS Checking m:dev");
    assert_eq!(plain_status_line("m:dev", None), "FAIL Checking m:dev");
}

#[test]
fn ordering_matches_string_order() {
    let values = vec!["b".to_owned(), "a".to_owned(), "ab".to_owned(), "B".to_owned(), "é".to_owned(), "a".to_owned()];
    let mut expected = values.clone();
    expected.sort();

    assert_eq!(sort_strings(values.clone()), expected);
    expected.dedup();
    assert_eq!(ordered_set(values), expected);
}

#[test]
fn logger_renders_bullets() {
    assert_eq!(Logger::new(false, false).line("hello"), Some(" • hello".to_owned()));
    assert_eq!(Logger::new(false, true).line("hi"), Some(" \u{1b}[2m•\u{1b}[0m \u{1b}[2mhi\u{1b}[0m".to_owned()));
    assert_eq!(Logger::silent().line("hello"), None);
    assert_eq!(Logger::new(false, false).debug_line("detail"), None);
    assert_eq!(Logger::new(true, false).debug_line("detail"), Some(" • detail".to_owned()));
}

#[test]
fn reports_do_not_depend_on_failure_order() {
    let first = vec!["b: x".to_owned(), "a: y".to_owned(), "c: z".to_owned()];
    let second = vec!["c: z".to_owned(), "b: x".to_owned(), "a: y".to_owned()];

    assert_eq!(sort_strings(first.clone()), sort_strings(second.clone()));
    assert_eq!(check_report(first), check_report(second));
}

#[test]
fn drift_plans_pass_only_without_changes() {
    assert_eq!(drift_failure("m", "dev", Some(0), "exit status: 0", b"ignored"), None);
    assert_eq!(
        drift_failure("m", "dev", Some(2), "exit status: 2", b""),
        Some("m:dev: plan reports changes".to_owned())
    );
    assert_eq!(
        drift_failure("m", "dev", Some(1), "exit status: 1", b"locked\n"),
        Some("m:dev: exit status: 1\n  locked".to_owned())
    );
    assert_eq!(
        drift_failure("m", "dev", None, "signal: 9 (SIGKILL)", b""),
        Some("m:dev: signal: 9 (SIGKILL)".to_owned())
    );
}
