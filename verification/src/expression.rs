//! The CUE expressions that select a module environment's generated
//! Terraform configuration, migration history and backend, and the
//! argument lists of the `cue` and `tfmigrate` invocations that use them.

use crate::cli::CueCommand;
use crate::reconciliation::{HistoricalProvider, Reconciliation};
use crate::text::{append_str, join, views};
use crate::workspace::Workspace;
use vstd::prelude::*;

verus! {

/// The folder below a module that holds one generated directory per environment.
pub const OUTPUT_FOLDER_NAME: &'static str = ".cuet";

/// The generated configuration file.
pub const OUTPUT_FILE_NAME: &'static str = "main.tf.json";

/// The migration file handed to tfmigrate.
pub const TFMIGRATE_FILE_NAME: &'static str = "tfmigrate.json";

/// The backend override that tfmigrate leaves behind when interrupted.
pub const TFMIGRATE_OVERRIDE_FILE: &'static str = "_tfmigrate_override.tf";

/// The backend override value that selects a local state file.
pub const LOCAL_BACKEND_OVERRIDE_VALUE: &'static str = "\"local.tfstate\"";

/// The lower-case hexadecimal digit of `n`, below 16.
pub open spec fn hex_digit(n: int) -> char {
    seq!['0', '1', '2', '3', '4', '5', '6', '7', '8', '9', 'a', 'b', 'c', 'd', 'e', 'f'][n]
}

/// How `serde_json` writes one character inside a string literal: `"` and
/// `\` after a backslash, the short escapes `\b \t \n \f \r`, any other
/// control character below U+0020 as `\u00` and two hexadecimal digits,
/// and every other character as it is.
pub open spec fn json_escaped_char(c: char) -> Seq<char> {
    let u = c as u32;
    if c == '"' {
        seq!['\\', '"']
    } else if c == '\\' {
        seq!['\\', '\\']
    } else if u == 0x08 {
        seq!['\\', 'b']
    } else if u == 0x09 {
        seq!['\\', 't']
    } else if u == 0x0a {
        seq!['\\', 'n']
    } else if u == 0x0c {
        seq!['\\', 'f']
    } else if u == 0x0d {
        seq!['\\', 'r']
    } else if u < 0x20 {
        seq!['\\', 'u', '0', '0', hex_digit((u / 16) as int), hex_digit((u % 16) as int)]
    } else {
        seq![c]
    }
}

/// The characters of `s`, each written as inside a JSON string literal.
pub open spec fn json_escaped(s: Seq<char>) -> Seq<char>
    decreases s.len(),
{
    if s.len() == 0 {
        Seq::empty()
    } else {
        json_escaped(s.drop_last()) + json_escaped_char(s.last())
    }
}

/// The JSON string literal that `serde_json` renders for `s`: the escaped
/// characters between double quotes.
pub open spec fn json_string_text(s: Seq<char>) -> Seq<char> {
    seq!['"'] + json_escaped(s) + seq!['"']
}

/// Renders `s` as a JSON string literal with `serde_json`, quoted and escaped.
#[verifier::external_body]
fn json_string(s: &str) -> (r: String)
    ensures
        r@ == json_string_text(s@),
{
    serde_json::Value::String(s.to_owned()).to_string()
}

/// The backend override value for the command line's choice: a local state
/// file, or `null` for the backend that the module configures.
pub fn backend_override_value(use_local_backend: bool) -> (r: &'static str)
    ensures
        r@ == if use_local_backend {
            LOCAL_BACKEND_OVERRIDE_VALUE@
        } else {
            "null"@
        },
{
    if use_local_backend {
        LOCAL_BACKEND_OVERRIDE_VALUE
    } else {
        "null"
    }
}

/// What a Terraform command is generated with.
pub struct TerraformMetadata<'a> {
    pub backend_override_value: &'a str,
    pub reconciliation: Option<&'a Reconciliation>,
}

/// The metadata that a module is evaluated with.
pub open spec fn metadata_text(module: Seq<char>, backend: Seq<char>) -> Seq<char> {
    "{ #metadata: { module: "@ + json_string_text(module) + ", localBackendOverride: "@ + backend
        + " } }"@
}

/// The metadata expression for module `module`.
pub fn metadata_expression_for_module(module: &str, backend_override_value: &str) -> (r: String)
    ensures
        r@ == metadata_text(module@, backend_override_value@),
{
    let mut r = "{ #metadata: { module: ".to_owned();
    append_str(&mut r, json_string(module).as_str());
    append_str(&mut r, ", localBackendOverride: ");
    append_str(&mut r, backend_override_value);
    append_str(&mut r, " } }");
    r
}

/// The metadata expression for the workspace's target module.
pub fn metadata_expression(workspace: &Workspace, backend_override_value: &str) -> (r: String)
    ensures
        r@ == metadata_text(workspace@.module_name, backend_override_value@),
{
    metadata_expression_for_module(workspace.module_name(), backend_override_value)
}

/// The JSON object of a provider.
pub open spec fn provider_json(p: (Seq<char>, Seq<char>)) -> Seq<char> {
    "{\"source\":"@ + json_string_text(p.0) + ",\"alias\":"@ + json_string_text(p.1) + "}"@
}

/// The JSON objects of providers.
pub open spec fn providers_json(ps: Seq<HistoricalProvider>) -> Seq<Seq<char>> {
    ps.map_values(|p: HistoricalProvider| provider_json(p@))
}

/// The JSON object of a reconciliation, as serde renders the struct: its
/// environment and its required providers in order.
pub open spec fn reconciliation_json_text(rec: Reconciliation) -> Seq<char> {
    "{\"environment\":"@ + json_string_text(rec.environment@) + ",\"requiredProviders\":["@ + join(
        providers_json(rec.required_providers@),
        ","@,
    ) + "]}"@
}

/// The JSON object of a provider.
fn provider_object(p: &HistoricalProvider) -> (r: String)
    ensures
        r@ == provider_json(p@),
{
    let mut r = "{\"source\":".to_owned();
    append_str(&mut r, json_string(p.source.as_str()).as_str());
    append_str(&mut r, ",\"alias\":");
    append_str(&mut r, json_string(p.alias.as_str()).as_str());
    append_str(&mut r, "}");
    r
}

/// The JSON object of a reconciliation.
pub fn reconciliation_json(rec: &Reconciliation) -> (r: String)
    ensures
        r@ == reconciliation_json_text(*rec),
{
    let mut objects: Vec<String> = Vec::new();
    let ps = &rec.required_providers;
    for i in 0..ps.len()
        invariant
            ps == rec.required_providers,
            views(objects@) == providers_json(ps@.take(i as int)),
    {
        let ghost before = views(objects@);
        objects.push(provider_object(&ps[i]));
        assert(views(objects@) =~= before.push(provider_json(ps@[i as int]@)));
        assert(providers_json(ps@.take(i + 1)) =~= providers_json(ps@.take(i as int)).push(
            provider_json(ps@[i as int]@),
        ));
    }
    assert(ps@.take(ps@.len() as int) =~= ps@);
    let mut r = "{\"environment\":".to_owned();
    append_str(&mut r, json_string(rec.environment.as_str()).as_str());
    append_str(&mut r, ",\"requiredProviders\":[");
    append_str(&mut r, crate::text::join_strings(objects.as_slice(), ",").as_str());
    append_str(&mut r, "]}");
    r
}

/// The metadata that a module is evaluated with, with a reconciliation when given.
pub open spec fn reconciled_metadata_text(
    module: Seq<char>,
    backend: Seq<char>,
    reconciliation: Option<Reconciliation>,
) -> Seq<char> {
    match reconciliation {
        None => metadata_text(module, backend),
        Some(rec) => "{ #metadata: { module: "@ + json_string_text(module)
            + ", localBackendOverride: "@ + backend + ", reconciliation: "@
            + reconciliation_json_text(rec) + " } }"@,
    }
}

/// The metadata expression, carrying the reconciliation when given.
pub fn reconciled_metadata_expression(
    workspace: &Workspace,
    backend_override_value: &str,
    reconciliation: Option<&Reconciliation>,
) -> (r: String)
    ensures
        r@ == reconciled_metadata_text(
            workspace@.module_name,
            backend_override_value@,
            match reconciliation {
                Some(rec) => Some(*rec),
                None => None,
            },
        ),
{
    let rec = match reconciliation {
        None => return metadata_expression(workspace, backend_override_value),
        Some(rec) => rec,
    };
    let mut r = "{ #metadata: { module: ".to_owned();
    append_str(&mut r, json_string(workspace.module_name()).as_str());
    append_str(&mut r, ", localBackendOverride: ");
    append_str(&mut r, backend_override_value);
    append_str(&mut r, ", reconciliation: ");
    append_str(&mut r, reconciliation_json(rec).as_str());
    append_str(&mut r, " } }");
    r
}

/// The expression of a module environment's migration history.
pub fn migration_expression(workspace: &Workspace, env: &str, backend_override_value: &str) -> (r:
    String)
    ensures
        r@ == "((infra & "@ + metadata_text(workspace@.module_name, backend_override_value@)
            + ").#migration)["@ + json_string_text(env@) + "]"@,
{
    let mut r = "((infra & ".to_owned();
    append_str(&mut r, metadata_expression(workspace, backend_override_value).as_str());
    append_str(&mut r, ").#migration)[");
    append_str(&mut r, json_string(env).as_str());
    append_str(&mut r, "]");
    r
}

/// The expression of the backend of module `module` in environment `env`.
pub fn backend_expression(module: &str, env: &str, backend_override_value: &str) -> (r: String)
    ensures
        r@ == "((infra & "@ + metadata_text(module@, backend_override_value@) + ").#backends)["@
            + json_string_text(env@) + "]"@,
{
    let mut r = "((infra & ".to_owned();
    append_str(&mut r, metadata_expression_for_module(module, backend_override_value).as_str());
    append_str(&mut r, ").#backends)[");
    append_str(&mut r, json_string(env).as_str());
    append_str(&mut r, "]");
    r
}

/// The expression of the Terraform configuration generated for an environment.
pub open spec fn export_text(metadata: Seq<char>, env: Seq<char>) -> Seq<char> {
    "((infra & "@ + metadata + ").out)["@ + json_string_text(env) + "].terraform"@
}

/// The expression of the Terraform configuration generated for `env`.
pub fn export_expression(workspace: &Workspace, env: &str, backend_override_value: &str) -> (r:
    String)
    ensures
        r@ == export_text(metadata_text(workspace@.module_name, backend_override_value@), env@),
{
    let mut r = "((infra & ".to_owned();
    append_str(&mut r, metadata_expression(workspace, backend_override_value).as_str());
    append_str(&mut r, ").out)[");
    append_str(&mut r, json_string(env).as_str());
    append_str(&mut r, "].terraform");
    r
}

/// The expression of the Terraform configuration generated for `env`, with
/// the reconciliation of its historical state when given.
pub fn reconciled_export_expression(
    workspace: &Workspace,
    env: &str,
    backend_override_value: &str,
    reconciliation: Option<&Reconciliation>,
) -> (r: String)
    ensures
        r@ == export_text(
            reconciled_metadata_text(
                workspace@.module_name,
                backend_override_value@,
                match reconciliation {
                    Some(rec) => Some(*rec),
                    None => None,
                },
            ),
            env@,
        ),
{
    let mut r = "((infra & ".to_owned();
    append_str(
        &mut r,
        reconciled_metadata_expression(workspace, backend_override_value, reconciliation).as_str(),
    );
    append_str(&mut r, ").out)[");
    append_str(&mut r, json_string(env).as_str());
    append_str(&mut r, "].terraform");
    r
}

/// The expression listing the environments that a module populates.
pub fn populated_expression(workspace: &Workspace, backend_override_value: &str) -> (r: String)
    ensures
        r@ == "[for env, _ in (infra & "@ + metadata_text(
            workspace@.module_name,
            backend_override_value@,
        ) + ")[\"in\"] {env}]"@,
{
    let mut r = "[for env, _ in (infra & ".to_owned();
    append_str(&mut r, metadata_expression(workspace, backend_override_value).as_str());
    append_str(&mut r, ")[\"in\"] {env}]");
    r
}

/// The package argument of the target module: `.:PACKAGE`.
pub fn package_argument(workspace: &Workspace) -> (r: String)
    ensures
        r@ == ".:"@ + workspace@.module_package,
{
    let mut r = ".:".to_owned();
    append_str(&mut r, workspace.module_package());
    r
}

/// Appends clones of `extra` to `v`.
fn extend_strings(v: &mut Vec<String>, extra: &[String])
    ensures
        views(final(v)@) == views(old(v)@) + views(extra@),
{
    for i in 0..extra.len()
        invariant
            views(v@) == views(old(v)@) + views(extra@.take(i as int)),
    {
        let ghost before = views(v@);
        v.push(extra[i].clone());
        assert(views(v@) =~= before.push(extra@[i as int]@));
        assert(views(extra@.take(i + 1)) =~= views(extra@.take(i as int)).push(extra@[i as int]@));
    }
    assert(extra@.take(extra@.len() as int) =~= extra@);
}

/// The name of a CUE subcommand.
pub open spec fn cue_subcommand(command: CueCommand) -> Seq<char> {
    match command {
        CueCommand::Eval { .. } => "eval"@,
        CueCommand::Def { .. } => "def"@,
        CueCommand::Export { .. } => "export"@,
    }
}

/// The pass-through arguments of a CUE subcommand.
pub open spec fn cue_pass_through(command: CueCommand) -> Seq<Seq<char>> {
    match command {
        CueCommand::Eval { args } => views(args@),
        CueCommand::Def { args } => views(args@),
        CueCommand::Export { args } => views(args@),
    }
}

/// The arguments of `cue` for a CUE subcommand on an environment's
/// configuration: the subcommand, the package, the export expression and
/// the pass-through arguments.
pub fn cue_arguments(
    workspace: &Workspace,
    env: &str,
    backend_override_value: &str,
    command: &CueCommand,
) -> (r: Vec<String>)
    ensures
        views(r@) == seq![
            cue_subcommand(*command),
            ".:"@ + workspace@.module_package,
            "-e"@,
            export_text(metadata_text(workspace@.module_name, backend_override_value@), env@),
        ] + cue_pass_through(*command),
{
    let (subcommand, args) = command.command_and_args();
    let mut r: Vec<String> = Vec::new();
    r.push(subcommand.to_owned());
    r.push(package_argument(workspace));
    r.push("-e".to_owned());
    r.push(export_expression(workspace, env, backend_override_value));
    let ghost head = views(r@);
    extend_strings(&mut r, args);
    assert(views(r@) =~= head + views(args@));
    r
}

/// The arguments of `cue export` writing `expression` to `output_file`,
/// a path relative to the module directory.
pub fn cue_export_file_arguments(workspace: &Workspace, expression: &str, output_file: &str) -> (r:
    Vec<String>)
    ensures
        views(r@) == seq![
            "export"@,
            ".:"@ + workspace@.module_package,
            "-e"@,
            expression@,
            "-f"@,
            "-o"@,
            output_file@,
        ],
{
    let mut r: Vec<String> = Vec::new();
    r.push("export".to_owned());
    r.push(package_argument(workspace));
    r.push("-e".to_owned());
    r.push(expression.to_owned());
    r.push("-f".to_owned());
    r.push("-o".to_owned());
    r.push(output_file.to_owned());
    assert(views(r@) =~= seq![
        "export"@,
        ".:"@ + workspace@.module_package,
        "-e"@,
        expression@,
        "-f"@,
        "-o"@,
        output_file@,
    ]);
    r
}

/// The arguments of `cue export` printing `expression` as JSON.
pub fn cue_json_arguments(workspace: &Workspace, expression: &str) -> (r: Vec<String>)
    ensures
        views(r@) == seq!["export"@, ".:"@ + workspace@.module_package, "-e"@, expression@],
{
    let mut r: Vec<String> = Vec::new();
    r.push("export".to_owned());
    r.push(package_argument(workspace));
    r.push("-e".to_owned());
    r.push(expression.to_owned());
    assert(views(r@) =~= seq!["export"@, ".:"@ + workspace@.module_package, "-e"@, expression@]);
    r
}

/// The arguments of `cue export` listing the populated environments as JSON.
pub fn populated_arguments(workspace: &Workspace, backend_override_value: &str) -> (r: Vec<String>)
    ensures
        views(r@) == seq![
            "export"@,
            ".:"@ + workspace@.module_package,
            "-e"@,
            "[for env, _ in (infra & "@ + metadata_text(
                workspace@.module_name,
                backend_override_value@,
            ) + ")[\"in\"] {env}]"@,
            "--out"@,
            "json"@,
        ],
{
    let expression = populated_expression(workspace, backend_override_value);
    let mut r = cue_json_arguments(workspace, expression.as_str());
    let ghost head = views(r@);
    r.push("--out".to_owned());
    r.push("json".to_owned());
    assert(views(r@) =~= head.push("--out"@).push("json"@));
    r
}

/// The arguments of `tfmigrate`: the operation, the pass-through arguments
/// and the migration file.
pub fn tfmigrate_arguments(operation: &str, args: &[String]) -> (r: Vec<String>)
    ensures
        views(r@) == seq![operation@] + views(args@) + seq![TFMIGRATE_FILE_NAME@],
{
    let mut r: Vec<String> = Vec::new();
    r.push(operation.to_owned());
    let ghost head = views(r@);
    extend_strings(&mut r, args);
    let ghost body = views(r@);
    r.push(TFMIGRATE_FILE_NAME.to_owned());
    assert(views(r@) =~= body.push(TFMIGRATE_FILE_NAME@));
    assert(head =~= seq![operation@]);
    r
}

/// The value of `TFMIGRATE_EXEC_PATH`: the OpenTofu binary as a shell word.
pub fn tfmigrate_exec_path(tf_bin: &str) -> (r: String)
    ensures
        r@ == crate::terraform::shell_joined(seq![tf_bin@]),
{
    let none: Vec<String> = Vec::new();
    let r = crate::terraform::command_line(tf_bin, none.as_slice());
    assert(seq![tf_bin@] + views(none@) =~= seq![tf_bin@]);
    r
}

} // verus!
