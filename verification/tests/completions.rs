use cuet::completions::{
    environment_candidates, escape_zsh_value, module_candidate_matches, module_candidates,
    shell_quote, write_template, zsh_completions, zsh_registration, Candidate, MODULE_MARKER,
};

fn strings(values: &[&str]) -> Vec<String> {
    values.iter().map(|value| (*value).to_owned()).collect()
}

#[test]
fn module_candidates_prefix_workspace_paths() {
    let modules = strings(&[".", "infra/neon", "services/api"]);

    assert_eq!(module_candidates(&modules, ""), [".", "/infra/neon", "/services/api"]);
    assert_eq!(module_candidates(&modules, "infra/n"), ["/infra/neon"]);
    assert_eq!(module_candidates(&modules, "/serv"), ["/services/api"]);
    assert!(module_candidate_matches("/infra/neon", "infra"));
    assert!(!module_candidate_matches("/infra/neon", "/neon"));
}

#[test]
fn environment_candidates_filter_by_prefix() {
    let environments = strings(&["dev", "prod", "stage", "demo"]);

    assert_eq!(environment_candidates("/infra/neon", &environments, "d"), ["/infra/neon:demo", "/infra/neon:dev"]);
    assert!(environment_candidates("m", &environments, "x").is_empty());
}

#[test]
fn quoting_and_escaping() {
    assert_eq!(shell_quote("it's"), "'it'\\''s'");
    assert_eq!(escape_zsh_value("a:b\\c"), "a\\:b\\\\c");
}

#[test]
fn templates_replace_known_keys() {
    assert_eq!(write_template("a @@X@@ b @@Y@@", &[("X", "1"), ("Y", "2")]).unwrap(), "a 1 b 2");
    assert_eq!(write_template("no keys", &[]).unwrap(), "no keys");
    assert_eq!(write_template("@@Z@@", &[("X", "1")]).unwrap_err().message(), "Unknown template key 'Z'");
    let error = write_template("a @@X@@ b @@Z@@ c", &[("X", "1")]).unwrap_err();
    assert_eq!(error.key, "Z");
    assert_eq!(error.written, "a 1 b ");
}

#[test]
fn zsh_registration_uses_removable_module_suffix() {
    let script = zsh_registration("COMPLETE", "cuet-cli", "/usr/bin/cuet", "/usr/bin/cuet").unwrap();

    assert!(script.starts_with("#compdef '/usr/bin/cuet'\nfunction _clap_dynamic_completer_cuet_cli() {"));
    assert!(script.contains("_describe -V 'modules' modules -S ':' -r ' '"));
    assert!(script.contains("COMPLETE=\"zsh\""));
    assert!(script.contains("== __cuet_target_module__$'\\t'*"));
    assert!(script.ends_with("compdef _clap_dynamic_completer_cuet_cli '/usr/bin/cuet'\n"));
}

#[test]
fn zsh_completions_mark_modules() {
    let candidates = [
        Candidate { value: "/infra/neon".to_owned(), module: true, help: None },
        Candidate { value: "--target".to_owned(), module: false, help: Some("Module\nmore".to_owned()) },
        Candidate { value: "a:b".to_owned(), module: false, help: None },
    ];

    assert_eq!(
        zsh_completions(&candidates, "\n"),
        format!("{MODULE_MARKER}\t/infra/neon\n--target:Module\na\\:b")
    );
}
