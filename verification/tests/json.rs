use cuet::json::{
    cue_json, decode_json, inspection, migration_file, replace_root_backend, values_equal,
    with_historical_backend, BackendError, BackendShape, BackendSource, Json,
};

fn text(value: &str) -> Json {
    Json::String(value.to_owned())
}

fn object(members: Vec<(&str, Json)>) -> Json {
    Json::Object(
        members
            .into_iter()
            .map(|(key, value)| (key.to_owned(), value))
            .collect(),
    )
}

fn historical_remote_backend() -> Json {
    object(vec![(
        "remote",
        object(vec![
            ("hostname", text("app.terraform.io")),
            ("organization", text("example")),
            ("workspaces", object(vec![("name", text("historical"))])),
        ]),
    )])
}

fn configuration_with_backend(backend: Json) -> Json {
    object(vec![
        (
            "terraform",
            object(vec![
                ("backend", backend),
                ("required_version", text("~> 1.9")),
                (
                    "required_providers",
                    object(vec![("example", object(vec![("source", text("example/example"))]))]),
                ),
            ]),
        ),
        ("provider", object(vec![("example", object(vec![("region", text("current"))]))])),
        (
            "resource",
            object(vec![("terraform_data", object(vec![("current", object(vec![]))]))]),
        ),
        (
            "data",
            object(vec![(
                "terraform_remote_state",
                object(vec![(
                    "dependency",
                    object(vec![("config", object(vec![("prefix", text("current"))]))]),
                )]),
            )]),
        ),
        ("output", object(vec![("value", object(vec![("value", text("current"))]))])),
    ])
}

#[test]
fn test_replace_root_backend_changes_only_backend() {
    let mut current = configuration_with_backend(object(vec![(
        "gcs",
        object(vec![("bucket", text("new")), ("prefix", text("new/path"))]),
    )]));
    let historical = object(vec![(
        "terraform",
        object(vec![
            ("required_version", text("~> 0.12")),
            ("backend", historical_remote_backend()),
        ]),
    )]);
    let expected = configuration_with_backend(historical_remote_backend());

    assert_eq!(replace_root_backend(&mut current, historical), Ok(()));
    assert_eq!(current, expected);
}

#[test]
fn test_replace_root_backend_rejects_multiple_backend_types() {
    let mut current = object(vec![(
        "terraform",
        object(vec![("backend", object(vec![("local", object(vec![]))]))]),
    )]);
    let historical = object(vec![(
        "terraform",
        object(vec![(
            "backend",
            object(vec![("gcs", object(vec![])), ("s3", object(vec![]))]),
        )]),
    )]);

    let error = replace_root_backend(&mut current, historical)
        .expect_err("multiple backend types should be rejected");

    assert!(error.message().contains("exactly one backend type"));
    assert_eq!(
        current,
        object(vec![(
            "terraform",
            object(vec![("backend", object(vec![("local", object(vec![]))]))]),
        )])
    );
}

#[test]
fn replace_root_backend_reports_each_failure() {
    let local = || object(vec![("local", object(vec![]))]);
    let replaced = |current: Json, historical: Json| {
        let mut config = current;
        let before = format!("{config:?}");
        let result = replace_root_backend(&mut config, historical);
        assert_eq!(format!("{config:?}"), before);
        result
    };
    let with_backend = |backend: Json| object(vec![("terraform", object(vec![("backend", backend)]))]);

    assert_eq!(
        replaced(with_backend(local()), object(vec![])),
        Err(BackendError::NoRootBackend(BackendSource::Historical))
    );
    assert_eq!(
        replaced(with_backend(local()), with_backend(text("gcs"))),
        Err(BackendError::Malformed(BackendSource::Historical, BackendShape::NotObject))
    );
    assert_eq!(
        replaced(with_backend(local()), with_backend(object(vec![("gcs", Json::Null)]))),
        Err(BackendError::Malformed(BackendSource::Historical, BackendShape::SettingsNotObject))
    );
    assert_eq!(
        replaced(object(vec![("terraform", text("x"))]), with_backend(local())),
        Err(BackendError::NoRootBackend(BackendSource::Current))
    );
    assert_eq!(
        replaced(Json::Array(vec![]), with_backend(local())),
        Err(BackendError::NoRootBackend(BackendSource::Current))
    );
    assert_eq!(
        replaced(with_backend(object(vec![])), with_backend(local())),
        Err(BackendError::Malformed(BackendSource::Current, BackendShape::NotOneType))
    );
    assert_eq!(
        BackendError::NoRootBackend(BackendSource::Current).message(),
        "Terraform configuration has no root backend"
    );
    assert_eq!(
        BackendError::Malformed(BackendSource::Historical, BackendShape::NotObject).message(),
        "Historical backend configuration root backend must be an object"
    );
    assert_eq!(
        BackendError::Malformed(BackendSource::Current, BackendShape::SettingsNotObject).message(),
        "Terraform configuration backend settings must be an object"
    );
}

#[test]
fn replace_root_backend_keeps_member_order() {
    let mut current = object(vec![(
        "terraform",
        object(vec![
            ("required_version", text("1")),
            ("backend", object(vec![("local", object(vec![]))])),
            ("z", Json::Bool(true)),
        ]),
    )]);
    let historical = object(vec![(
        "terraform",
        object(vec![("backend", object(vec![("s3", object(vec![("bucket", text("b"))]))]))]),
    )]);
    let expected = object(vec![(
        "terraform",
        object(vec![
            ("required_version", text("1")),
            ("backend", object(vec![("s3", object(vec![("bucket", text("b"))]))])),
            ("z", Json::Bool(true)),
        ]),
    )]);
    assert_eq!(replace_root_backend(&mut current, historical), Ok(()));
    assert_eq!(current, expected);
}

#[test]
fn values_compare_as_serde_json_values() {
    let number = |n: &str| Json::Number(n.to_owned());
    assert!(values_equal(&number("0.0"), &number("-0.0")));
    assert!(values_equal(&number("-0.0"), &number("0.0")));
    assert!(!values_equal(&number("0"), &number("0.0")));
    assert!(!values_equal(&number("1"), &number("1.0")));
    assert!(values_equal(
        &Json::Array(vec![Json::Null, Json::Bool(true), text("a")]),
        &Json::Array(vec![Json::Null, Json::Bool(true), text("a")])
    ));
    assert!(!values_equal(&Json::Array(vec![Json::Null]), &Json::Array(vec![])));
    assert!(values_equal(
        &object(vec![("a", number("-0.0")), ("b", object(vec![]))]),
        &object(vec![("a", number("0.0")), ("b", object(vec![]))])
    ));
    assert!(!values_equal(&object(vec![("a", Json::Null)]), &object(vec![("b", Json::Null)])));
    assert!(!values_equal(&text("1"), &number("1")));
}

#[test]
fn decoding_reads_json_into_the_tree() {
    assert_eq!(
        decode_json(br#"{"b": [1, -0.0, "x"], "a": null}"#, "Terraform configuration").unwrap(),
        object(vec![
            ("a", Json::Null),
            ("b", Json::Array(vec![Json::Number("1".to_owned()), Json::Number("-0.0".to_owned()), text("x")])),
        ])
    );
    let error = decode_json(b"{", "Terraform configuration").unwrap_err();
    assert!(error.starts_with("Failed to decode Terraform configuration: EOF while parsing"));
}

#[test]
fn cue_output_is_evaluated_then_decoded() {
    assert_eq!(
        cue_json(false, b"  bad module\n", b"", "migration history").unwrap_err(),
        "Failed to evaluate migration history: bad module"
    );
    assert_eq!(cue_json(true, b"", b"true", "migration history").unwrap(), Json::Bool(true));
    assert!(cue_json(true, b"", b"nope", "backend configuration")
        .unwrap_err()
        .starts_with("Failed to decode backend configuration: "));
}

#[test]
fn historical_backend_is_written_as_pretty_json() {
    let config = decode_json(
        br#"{"terraform":{"backend":{"gcs":{"bucket":"new"}},"required_version":"~> 1.9"}}"#,
        "Terraform configuration",
    )
    .unwrap();
    let historical = decode_json(
        br#"{"terraform":{"backend":{"local":{"path":"old.tfstate"}}}}"#,
        "backend configuration",
    )
    .unwrap();
    let written = with_historical_backend(config, historical).unwrap();
    assert_eq!(
        String::from_utf8(written).unwrap(),
        "{\n  \"terraform\": {\n    \"backend\": {\n      \"local\": {\n        \"path\": \"old.tfstate\"\n      }\n    },\n    \"required_version\": \"~> 1.9\"\n  }\n}"
    );
    let rejected = with_historical_backend(
        decode_json(br#"{"terraform":{"backend":{"local":{}}}}"#, "c").unwrap(),
        decode_json(br#"{"terraform":{"backend":{"gcs":{},"s3":{}}}}"#, "h").unwrap(),
    )
    .unwrap_err();
    assert_eq!(rejected, "Historical backend configuration must contain exactly one backend type");
}

#[test]
fn migration_details_render_as_pretty_json() {
    let metadata = decode_json(br#"{"moduleHistory":[],"n":1.5}"#, "migration history").unwrap();
    assert_eq!(
        String::from_utf8(migration_file(&metadata).unwrap()).unwrap(),
        "{\n  \"moduleHistory\": [],\n  \"n\": 1.5\n}"
    );
    assert_eq!(
        String::from_utf8(inspection(&metadata).unwrap()).unwrap(),
        "{\n  \"moduleHistory\": [],\n  \"n\": 1.5\n}\n"
    );
    assert!(migration_file(&Json::Number("not a number".to_owned())).is_err());
}
