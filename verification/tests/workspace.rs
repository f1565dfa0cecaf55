use cuet::workspace::{
    environment_dir, file_name, is_ignored_directory, module_entry, path_join, relative_path, target_message,
    Workspace, WorkspaceError,
};

#[test]
fn workspace_names_module_and_package() {
    let workspace = Workspace::from_canonical("/r/workspace".to_owned(), "/r/workspace/infra/neon".to_owned()).unwrap();

    assert_eq!(workspace.root(), "/r/workspace");
    assert_eq!(workspace.target_dir(), "/r/workspace/infra/neon");
    assert_eq!(workspace.module_name(), "infra/neon");
    assert_eq!(workspace.module_package(), "neon");
}

#[test]
fn workspace_rejects_targets_outside_root() {
    let error = Workspace::from_canonical("/r/workspace".to_owned(), "/r/workspace2/x".to_owned()).unwrap_err();

    assert!(matches!(error, WorkspaceError::OutsideWorkspace { .. }));
    assert_eq!(error.message(), "Target module '/r/workspace2/x' must be inside workspace '/r/workspace'");
    assert!(matches!(
        Workspace::from_canonical("/".to_owned(), "/".to_owned()).unwrap_err(),
        WorkspaceError::NoPackage
    ));
}

#[test]
fn relative_paths_follow_components() {
    assert_eq!(relative_path("/a", "/a"), Some(String::new()));
    assert_eq!(relative_path("/a", "/a/b/c"), Some("b/c".to_owned()));
    assert_eq!(relative_path("/a", "/ab"), None);
    assert_eq!(relative_path("/", "/x/y"), Some("x/y".to_owned()));
    assert_eq!(file_name("/a/b"), Some("b".to_owned()));
    assert_eq!(file_name("/"), None);
    assert_eq!(module_entry(""), ".");
    assert_eq!(module_entry("infra/real"), "infra/real");
    assert!(is_ignored_directory(".git") && is_ignored_directory("target") && is_ignored_directory(".cuet"));
    assert!(!is_ignored_directory("infra"));
}

#[test]
fn target_message_names_module_and_environment() {
    let workspace = Workspace::from_canonical("/r/w".to_owned(), "/r/w/infra/neon".to_owned()).unwrap();
    assert_eq!(target_message(&workspace, "dev"), "Module: infra/neon\nEnvironment: dev");
}

#[test]
fn generated_environments_live_under_the_output_folder() {
    let workspace = Workspace::from_canonical("/r/w".to_owned(), "/r/w/infra/neon".to_owned()).unwrap();
    assert_eq!(environment_dir(&workspace, "dev"), "/r/w/infra/neon/.cuet/dev");
    let root = Workspace::from_canonical("/".to_owned(), "/".to_owned());
    assert!(root.is_err());
    assert_eq!(path_join("/", ".cuet"), "/.cuet");
    assert_eq!(path_join("a/", "b"), "a/b");
    assert_eq!(path_join("", "b"), "b");
    assert_eq!(path_join("a", "/abs"), "/abs");
}

#[test]
fn workspace_names_follow_the_target_path() {
    let workspace = Workspace::from_canonical("/r/w".to_owned(), "/r/w/a/b/c".to_owned()).unwrap();
    assert_eq!(relative_path(workspace.root(), workspace.target_dir()).as_deref(), Some(workspace.module_name()));
    assert_eq!(file_name(workspace.target_dir()).as_deref(), Some(workspace.module_package()));
}
