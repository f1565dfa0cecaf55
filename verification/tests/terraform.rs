use cuet::terraform::{
    automatic_init, chdir, init_arguments, read_timeout, reads_remote_state, subcommand, timeout,
    CommandTimeout, DEFAULT_READ_TIMEOUT_SECS,
};
use std::time::Duration;

fn strings(values: &[&str]) -> Vec<String> {
    values.iter().map(|value| (*value).to_owned()).collect()
}

#[test]
fn test_terraform_timeout_defaults_remote_reads() {
    let expected = Duration::from_secs(30);

    assert_eq!(timeout(&["output".to_owned()], None), Some(expected));
    assert_eq!(timeout(&["apply".to_owned()], None), None);
    assert_eq!(timeout(&["apply".to_owned()], Some(expected)), Some(expected));
}

#[test]
fn test_terraform_reads_default_to_thirty_seconds() {
    for args in [
        vec!["output".to_owned(), "-json".to_owned()],
        vec!["show".to_owned()],
        vec!["state".to_owned(), "pull".to_owned()],
        vec!["state".to_owned(), "list".to_owned()],
        vec!["state".to_owned(), "show".to_owned()],
        vec!["workspace".to_owned(), "list".to_owned()],
        vec!["workspace".to_owned(), "show".to_owned()],
    ] {
        assert_eq!(timeout(&args, None), Some(Duration::from_secs(DEFAULT_READ_TIMEOUT_SECS)));
    }
}

#[test]
fn test_terraform_writes_preserve_tool_defaults() {
    for args in [
        vec!["init".to_owned()],
        vec!["plan".to_owned()],
        vec!["apply".to_owned()],
        vec!["show".to_owned(), "saved.tfplan".to_owned()],
    ] {
        assert_eq!(timeout(&args, None), None);
    }
}

#[test]
fn test_explicit_timeout_overrides_command_policy() {
    let timeout_value = Duration::from_millis(275);

    assert_eq!(timeout(&["output".to_owned()], Some(timeout_value)), Some(timeout_value));
    assert_eq!(timeout(&["apply".to_owned()], Some(timeout_value)), Some(timeout_value));
}

#[test]
fn subcommand_skips_global_options() {
    let args = strings(&["-chdir=other", "-no-color", "state", "pull"]);

    assert_eq!(subcommand(&args), Some((2, "state")));
    assert_eq!(subcommand(&strings(&["-help"])), None);
    assert_eq!(subcommand(&[]), None);
}

#[test]
fn remote_reads_follow_nested_subcommands() {
    assert!(reads_remote_state(&strings(&["-chdir=x", "state", "-lock=false", "list"])));
    assert!(!reads_remote_state(&strings(&["state", "rm", "a.b"])));
    assert!(!reads_remote_state(&strings(&["state"])));
    assert!(reads_remote_state(&strings(&["workspace", "show"])));
    assert!(!reads_remote_state(&strings(&["workspace", "select", "dev"])));
    assert!(!reads_remote_state(&strings(&["-version"])));
}

#[test]
fn read_timeout_defaults_to_thirty_seconds() {
    assert_eq!(read_timeout(None), Duration::from_secs(30));
    assert_eq!(read_timeout(Some(Duration::from_millis(5))), Duration::from_millis(5));
}

#[test]
fn chdir_takes_the_first_option() {
    assert_eq!(chdir(&strings(&["-no-color", "-chdir=a/b", "-chdir=c"])), Some("a/b".to_owned()));
    assert_eq!(chdir(&strings(&["-chdir", "a"])), None);
    assert_eq!(chdir(&[]), None);
}

#[test]
fn automatic_init_runs_before_other_subcommands() {
    assert_eq!(automatic_init(&strings(&["-chdir=other", "plan"])), Some(1));
    assert_eq!(automatic_init(&strings(&["init", "-upgrade"])), None);
    assert_eq!(automatic_init(&strings(&["-help"])), None);
    assert_eq!(init_arguments(&strings(&["-chdir=other"])), strings(&["-chdir=other", "init"]));
}

#[test]
fn command_timeout_reports_its_limit() {
    let limit = CommandTimeout::new(Duration::from_millis(25));

    assert!(limit.remaining() <= Duration::from_millis(25));
    assert_eq!(
        limit.timed_out_message("slow-command --flag"),
        "Command timed out after 25ms: slow-command --flag"
    );
    assert_eq!(
        cuet::terraform::command_line("tofu", &strings(&["plan", "a b", "it's"])),
        "tofu plan 'a b' 'it'\\''s'"
    );
}

#[test]
fn command_lines_quote_only_words_that_need_it() {
    assert_eq!(
        cuet::terraform::command_line("tofu", &strings(&["", "a=b", "x\ny", "-chdir=dir", "plain-word_1.2/x"])),
        "tofu '' 'a=b' 'x\ny' '-chdir=dir' plain-word_1.2/x"
    );
}
