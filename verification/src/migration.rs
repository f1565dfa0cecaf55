//! The checks that guard a native module migration: the source workspace
//! layout, the history target, and how the destination state relates to
//! the source snapshot.

use crate::cli::{valid_env, validate_env, ENV_PATTERN_MESSAGE};
use crate::text::{
    append_str, chars_equal, chars_of, contains_text, find_char, join, join_strings, lines, lines_of,
    split_once, str_equal, string_of, trim, trim_start_char, trim_start_matching, trim_ws, utf8_lossy,
    utf8_lossy_text, views,
};
use crate::json::{
    find_member, get, items_view, json_view, members_view, same_members, values_equal, Json, JsonView,
};
use vstd::prelude::*;

verus! {

/// Why a migration may not go ahead.
#[derive(Debug, Clone)]
pub enum MigrationError {
    /// The source has other workspaces than `default`; the listing names
    /// the workspaces found.
    WorkspacesNotDefault(String),
    /// The destination does not hold the migrated source snapshot.
    SnapshotNotMigrated,
    /// The destination holds state of another lineage.
    UnrelatedLineage,
    /// The destination holds state that differs from the source snapshot.
    SnapshotMismatch,
    /// The historical provider lock is still at `source`; it belongs at `destination`.
    SourceLockPresent { source: String, destination: String },
    /// A tfmigrate file is left at this path.
    StaleArtifact(String),
    /// A module migration directory is left at this path.
    StaleScratch(String),
}

impl MigrationError {
    /// The text of the error.
    pub fn message(&self) -> (r: String)
        ensures
            r@ == match self {
                MigrationError::WorkspacesNotDefault(found) => "Module migration requires exactly the default workspace; found: "@
                    + found@,
                MigrationError::SnapshotNotMigrated => "The destination state does not contain the migrated source snapshot"@,
                MigrationError::UnrelatedLineage => "Destination state is non-empty and has unrelated lineage"@,
                MigrationError::SnapshotMismatch => "Destination state does not exactly match the source snapshot"@,
                MigrationError::SourceLockPresent { source, destination } => "Historical provider lock still exists at '"@
                    + source@ + "'; move it to '"@ + destination@ + "'"@,
                MigrationError::StaleArtifact(path) => "Stale tfmigrate artifact exists at '"@ + path@
                    + "'; remove it for native module migration"@,
                MigrationError::StaleScratch(path) => "Stale module migration directory exists at '"@
                    + path@ + "'; remove it before continuing"@,
            },
    {
        match self {
            MigrationError::WorkspacesNotDefault(found) => {
                let mut m = "Module migration requires exactly the default workspace; found: ".to_owned();
                append_str(&mut m, found.as_str());
                m
            },
            MigrationError::SnapshotNotMigrated => "The destination state does not contain the migrated source snapshot".to_owned(),
            MigrationError::UnrelatedLineage => "Destination state is non-empty and has unrelated lineage".to_owned(),
            MigrationError::SnapshotMismatch => "Destination state does not exactly match the source snapshot".to_owned(),
            MigrationError::SourceLockPresent { source, destination } => {
                let mut m = "Historical provider lock still exists at '".to_owned();
                append_str(&mut m, source.as_str());
                append_str(&mut m, "'; move it to '");
                append_str(&mut m, destination.as_str());
                append_str(&mut m, "'");
                m
            },
            MigrationError::StaleArtifact(path) => {
                let mut m = "Stale tfmigrate artifact exists at '".to_owned();
                append_str(&mut m, path.as_str());
                append_str(&mut m, "'; remove it for native module migration");
                m
            },
            MigrationError::StaleScratch(path) => {
                let mut m = "Stale module migration directory exists at '".to_owned();
                append_str(&mut m, path.as_str());
                append_str(&mut m, "'; remove it before continuing");
                m
            },
        }
    }
}

/// A workspace name as `workspace list` prints it: without the `*` that
/// marks the current one, and without surrounding whitespace.
pub open spec fn workspace_name(line: Seq<char>) -> Seq<char> {
    trim_ws(trim_start_char(line, '*'))
}

/// The workspace names of the listed lines, skipping blank ones.
pub open spec fn listed_workspaces(lines: Seq<Seq<char>>) -> Seq<Seq<char>>
    decreases lines.len(),
{
    if lines.len() == 0 {
        Seq::empty()
    } else {
        let init = listed_workspaces(lines.drop_last());
        let name = workspace_name(lines.last());
        if name.len() == 0 {
            init
        } else {
            init.push(name)
        }
    }
}

/// The workspaces that the output of `workspace list` names.
pub open spec fn workspaces_in(output: Seq<u8>) -> Seq<Seq<char>> {
    listed_workspaces(lines_of(utf8_lossy_text(output)))
}

/// Checks that the output of `workspace list` names exactly the `default` workspace.
pub fn ensure_default_workspace(output: &[u8]) -> (r: Result<(), MigrationError>)
    ensures
        workspaces_in(output@) == seq!["default"@] ==> r is Ok,
        workspaces_in(output@) != seq!["default"@] ==> (r matches Err(
            MigrationError::WorkspacesNotDefault(found),
        ) && found@ == join(workspaces_in(output@), ", "@)),
{
    let text = utf8_lossy(output);
    let cs = chars_of(text.as_str());
    let all_lines = lines(cs.as_slice());
    let ghost ls = crate::text::char_views(all_lines@);
    let mut names: Vec<String> = Vec::new();
    for i in 0..all_lines.len()
        invariant
            ls == crate::text::char_views(all_lines@),
            views(names@) == listed_workspaces(ls.take(i as int)),
    {
        assert(ls.take(i + 1).drop_last() =~= ls.take(i as int));
        assert(ls.take(i + 1).last() == all_lines@[i as int]@);
        let unstarred = trim_start_matching(all_lines[i].as_slice(), '*');
        let name = trim(unstarred.as_slice());
        if name.len() > 0 {
            let ghost before = views(names@);
            names.push(string_of(name.as_slice()));
            assert(views(names@) =~= before.push(name@));
        }
    }
    assert(ls.take(ls.len() as int) =~= ls);
    let default_name = chars_of("default");
    let only_default = names.len() == 1 && {
        let first = chars_of(names[0].as_str());
        chars_equal(first.as_slice(), default_name.as_slice())
    };
    if only_default {
        assert(views(names@) =~= seq!["default"@]);
        Ok(())
    } else {
        proof {
            if views(names@) == seq!["default"@] {
                assert(views(names@)[0] == names@[0]@);
            }
        }
        Err(MigrationError::WorkspacesNotDefault(join_strings(names.as_slice(), ", ")))
    }
}

/// The directory that tfmigrate keeps its own state in.
pub const TFMIGRATE_STATE_DIR: &'static str = ".tfmigrate";

/// The path of the first file that exists among `files`.
pub open spec fn first_present(files: Seq<(Seq<char>, bool)>) -> Option<Seq<char>>
    decreases files.len(),
{
    if files.len() == 0 {
        None
    } else if files[0].1 {
        Some(files[0].0)
    } else {
        first_present(files.drop_first())
    }
}

/// The views of paths with whether each exists.
pub open spec fn presence_views(files: Seq<(String, bool)>) -> Seq<(Seq<char>, bool)> {
    files.map_values(|f: (String, bool)| (f.0@, f.1))
}

/// Checks the repository files of a native module migration, in order:
/// the historical provider lock must have moved from `source_lock` to
/// `destination_lock`, no tfmigrate artifact (each path with whether it
/// exists) may be left, and no module migration directory may be left.
pub fn check_module_migration_files(
    source_lock_exists: bool,
    source_lock: &str,
    destination_lock: &str,
    artifacts: &[(String, bool)],
    scratch_exists: bool,
    scratch_dir: &str,
) -> (r: Result<(), MigrationError>)
    ensures
        source_lock_exists ==> (r matches Err(
            MigrationError::SourceLockPresent { source: s, destination: d },
        ) && s@ == source_lock@ && d@ == destination_lock@),
        !source_lock_exists ==> match first_present(presence_views(artifacts@)) {
            Some(path) => r matches Err(MigrationError::StaleArtifact(p)) && p@ == path,
            None => if scratch_exists {
                r matches Err(MigrationError::StaleScratch(p)) && p@ == scratch_dir@
            } else {
                r is Ok
            },
        },
{
    if source_lock_exists {
        return Err(
            MigrationError::SourceLockPresent {
                source: source_lock.to_owned(),
                destination: destination_lock.to_owned(),
            },
        );
    }
    let ghost all = presence_views(artifacts@);
    let mut i: usize = 0;
    assert(all.skip(0) =~= all);
    while i < artifacts.len()
        invariant
            !source_lock_exists,
            i <= artifacts.len(),
            all == presence_views(artifacts@),
            first_present(all) == first_present(all.skip(i as int)),
        decreases artifacts.len() - i,
    {
        assert(all.skip(i as int)[0] == (artifacts@[i as int].0@, artifacts@[i as int].1));
        if artifacts[i].1 {
            return Err(MigrationError::StaleArtifact(artifacts[i].0.clone()));
        }
        assert(all.skip(i as int).drop_first() =~= all.skip(i + 1));
        i = i + 1;
    }
    if scratch_exists {
        return Err(MigrationError::StaleScratch(scratch_dir.to_owned()));
    }
    Ok(())
}

/// Whether the output of a failed `state pull` says that there is no state.
pub fn state_snapshot_missing(stderr: &str) -> (r: bool)
    ensures
        r == contains_text(stderr@, "No state file was found"@),
{
    crate::text::contains(stderr, "No state file was found")
}

/// The lineage, serial and other top-level fields of a state snapshot; the
/// other fields are held in key order, as `serde_json` keeps a map.
#[derive(Debug)]
pub struct StateSnapshotMetadata {
    pub lineage: String,
    pub serial: u64,
    pub contents: Vec<(String, Json)>,
}

impl View for StateSnapshotMetadata {
    type V = (Seq<char>, u64, Seq<(Seq<char>, JsonView)>);

    open spec fn view(&self) -> (Seq<char>, u64, Seq<(Seq<char>, JsonView)>) {
        (self.lineage@, self.serial, members_view(self.contents@))
    }
}

/// A destination state: missing, or present with its metadata.
#[derive(Debug)]
pub enum StateSnapshot {
    Missing,
    Present(StateSnapshotMetadata),
}

/// What a migration does with the destination state.
#[derive(Debug, Clone, Copy, PartialEq, Eq, Structural)]
pub enum DestinationAction {
    /// Copy the source snapshot into the empty destination.
    Copy,
    /// The destination already holds the source snapshot.
    Current,
}

/// Whether the destination holds the migrated source snapshot: the same
/// lineage at the same or a later serial.
pub open spec fn holds_migrated_snapshot(
    source: (Seq<char>, u64, Seq<(Seq<char>, JsonView)>),
    destination: (Seq<char>, u64, Seq<(Seq<char>, JsonView)>),
) -> bool {
    source.0 == destination.0 && destination.1 >= source.1
}

/// Checks that the destination holds the migrated source snapshot.
pub fn ensure_migrated_snapshot(source: &StateSnapshotMetadata, destination: &StateSnapshotMetadata) -> (r:
    Result<(), MigrationError>)
    ensures
        holds_migrated_snapshot(source@, destination@) ==> r is Ok,
        !holds_migrated_snapshot(source@, destination@) ==> r matches Err(
            MigrationError::SnapshotNotMigrated,
        ),
        r is Ok <==> (source.lineage@ == destination.lineage@ && destination.serial >= source.serial),
        source.lineage@ != destination.lineage@ ==> r matches Err(MigrationError::SnapshotNotMigrated),
        r is Err ==> r matches Err(MigrationError::SnapshotNotMigrated),
{
    if !str_equal(source.lineage.as_str(), destination.lineage.as_str()) || destination.serial
        < source.serial {
        return Err(MigrationError::SnapshotNotMigrated);
    }
    Ok(())
}

/// A destination holds the migrated source snapshot exactly when it has the
/// source's lineage and a serial no lower than the source's; a destination of
/// another lineage never does, whatever the serials.
pub proof fn lemma_migrated_snapshot_needs_lineage(
    source: (Seq<char>, u64, Seq<(Seq<char>, JsonView)>),
    destination: (Seq<char>, u64, Seq<(Seq<char>, JsonView)>),
)
    ensures
        holds_migrated_snapshot(source, destination) <==> (source.0 == destination.0
            && destination.1 >= source.1),
        source.0 != destination.0 ==> !holds_migrated_snapshot(source, destination),
{
}

/// Whether two snapshots hold equal other fields, compared as
/// `serde_json` compares its maps of values.
fn same_contents(a: &Vec<(String, Json)>, b: &Vec<(String, Json)>) -> (r: bool)
    ensures
        r == same_members(members_view(a@), members_view(b@)),
{
    let ghost av = members_view(a@);
    let ghost bv = members_view(b@);
    let mut i: usize = 0;
    assert(av.skip(0) =~= av);
    assert(bv.skip(0) =~= bv);
    while i < a.len() && i < b.len()
        invariant
            i <= a.len(),
            i <= b.len(),
            av == members_view(a@),
            bv == members_view(b@),
            same_members(av, bv) == same_members(av.skip(i as int), bv.skip(i as int)),
        decreases a.len() - i,
    {
        assert(av.skip(i as int)[0] == av[i as int]);
        assert(bv.skip(i as int)[0] == bv[i as int]);
        assert(av.skip(i as int).drop_first() =~= av.skip(i + 1));
        assert(bv.skip(i as int).drop_first() =~= bv.skip(i + 1));
        if !str_equal(a[i].0.as_str(), b[i].0.as_str()) || !values_equal(&a[i].1, &b[i].1) {
            return false;
        }
        i = i + 1;
    }
    a.len() == b.len()
}

/// What a migration does with the destination: copy into a missing one;
/// nothing when it already holds exactly the source snapshot; otherwise it
/// is refused.
pub open spec fn destination_action_spec(
    source: (Seq<char>, u64, Seq<(Seq<char>, JsonView)>),
    destination: Option<(Seq<char>, u64, Seq<(Seq<char>, JsonView)>)>,
) -> Result<DestinationAction, MigrationError> {
    match destination {
        None => Ok(DestinationAction::Copy),
        Some(d) => if d.0 != source.0 {
            Err(MigrationError::UnrelatedLineage)
        } else if d.1 == source.1 && same_members(d.2, source.2) {
            Ok(DestinationAction::Current)
        } else {
            Err(MigrationError::SnapshotMismatch)
        },
    }
}

/// What a migration does with the destination state.
pub fn destination_action(source: &StateSnapshotMetadata, destination: &StateSnapshot) -> (r: Result<
    DestinationAction,
    MigrationError,
>)
    ensures
        match destination_action_spec(
            source@,
            match destination {
                StateSnapshot::Missing => None,
                StateSnapshot::Present(d) => Some(d@),
            },
        ) {
            Ok(a) => r == Ok::<DestinationAction, MigrationError>(a),
            Err(MigrationError::UnrelatedLineage) => r matches Err(MigrationError::UnrelatedLineage),
            Err(_) => r matches Err(MigrationError::SnapshotMismatch),
        },
{
    let destination = match destination {
        StateSnapshot::Missing => return Ok(DestinationAction::Copy),
        StateSnapshot::Present(d) => d,
    };
    if !str_equal(destination.lineage.as_str(), source.lineage.as_str()) {
        return Err(MigrationError::UnrelatedLineage);
    }
    if destination.serial == source.serial && same_contents(&destination.contents, &source.contents) {
        return Ok(DestinationAction::Current);
    }
    Err(MigrationError::SnapshotMismatch)
}

/// A destination that a migration finds current holds the migrated source
/// snapshot.
pub proof fn lemma_current_destination_is_migrated(
    source: (Seq<char>, u64, Seq<(Seq<char>, JsonView)>),
    destination: (Seq<char>, u64, Seq<(Seq<char>, JsonView)>),
)
    requires
        destination_action_spec(source, Some(destination)) == Ok::<
            DestinationAction,
            MigrationError,
        >(DestinationAction::Current),
    ensures
        holds_migrated_snapshot(source, destination),
{
}

/// The module and environment that a history entry names: `MODULE[:ENV]`,
/// the module without a leading `/`, the environment `default_environment`
/// when none is written.
pub open spec fn history_target(target: Seq<char>, default_environment: Seq<char>) -> Option<
    (Seq<char>, Seq<char>),
> {
    let (module, environment) = match split_once(target, seq![':']) {
        Some((m, e)) => (m, e),
        None => (target, default_environment),
    };
    let module = if module.len() > 0 && module[0] == '/' {
        module.drop_first()
    } else {
        module
    };
    if split_once(target, seq![':']) is Some && !valid_env(environment) {
        None
    } else {
        Some((module, environment))
    }
}

/// Reads a history entry of the form `MODULE[:ENV]`.
pub fn parse_history_target(target: &str, default_environment: &str) -> (r: Result<
    (String, String),
    String,
>)
    ensures
        match history_target(target@, default_environment@) {
            Some((m, e)) => r matches Ok(p) && p.0@ == m && p.1@ == e,
            None => r matches Err(message) && message@ == ENV_PATTERN_MESSAGE@,
        },
{
    let cs = chars_of(target);
    let (module, environment) = match find_char(cs.as_slice(), ':') {
        Some(k) => {
            let environment = string_of(crate::text::slice_from(cs.as_slice(), k + 1).as_slice());
            if validate_env(environment.as_str()).is_err() {
                return Err(ENV_PATTERN_MESSAGE.to_owned());
            }
            (crate::text::slice_range(cs.as_slice(), 0, k), environment)
        },
        None => (cs, default_environment.to_owned()),
    };
    let module = if module.len() > 0 && module[0] == '/' {
        crate::text::slice_from(module.as_slice(), 1)
    } else {
        module
    };
    Ok((string_of(module.as_slice()), environment))
}

} // verus!

verus! {

/// The first problem with the entries of a module history: an entry that is
/// not a string, or one that is not `MODULE[:ENV]` with a valid environment.
pub open spec fn history_problem(entries: Seq<JsonView>, environment: Seq<char>) -> Option<
    Seq<char>,
>
    decreases entries.len(),
{
    if entries.len() == 0 {
        None
    } else {
        match entries[0] {
            JsonView::String(entry) => if history_target(entry, environment) is None {
                Some("Invalid module history entry '"@ + entry + "': "@ + ENV_PATTERN_MESSAGE@)
            } else {
                history_problem(entries.drop_first(), environment)
            },
            _ => Some("Module history entries must be strings"@),
        }
    }
}

/// The first problem with the module history of migration details, when
/// they have one as an array under `moduleHistory`.
pub open spec fn module_history_problem(metadata: JsonView, environment: Seq<char>) -> Option<
    Seq<char>,
> {
    match get(metadata, "moduleHistory"@) {
        Some(JsonView::Array(entries)) => history_problem(entries, environment),
        _ => None,
    }
}

/// Checks that every entry of the module history in the migration details
/// is `MODULE[:ENV]` with a valid environment; entries without one take
/// `environment`.
pub fn check_module_history(metadata: &Json, environment: &str) -> (r: Result<(), String>)
    ensures
        match module_history_problem(metadata@, environment@) {
            None => r is Ok,
            Some(problem) => r matches Err(e) && e@ == problem,
        },
{
    let members = match metadata {
        Json::Object(members) => members,
        _ => return Ok(()),
    };
    let t = match find_member(members, "moduleHistory") {
        Some(t) => t,
        None => return Ok(()),
    };
    assert(members_view(members@)[t as int].1 == json_view(members@[t as int].1));
    let entries = match &members[t].1 {
        Json::Array(entries) => entries,
        _ => return Ok(()),
    };
    let ghost all = items_view(entries@);
    let mut i: usize = 0;
    assert(all.skip(0) =~= all);
    while i < entries.len()
        invariant
            i <= entries.len(),
            all == items_view(entries@),
            module_history_problem(metadata@, environment@) == history_problem(all, environment@),
            history_problem(all, environment@) == history_problem(all.skip(i as int), environment@),
        decreases entries.len() - i,
    {
        assert(all.skip(i as int)[0] == json_view(entries@[i as int]));
        assert(all.skip(i as int).drop_first() =~= all.skip(i + 1));
        match &entries[i] {
            Json::String(entry) => {
                if parse_history_target(entry.as_str(), environment).is_err() {
                    let mut m = "Invalid module history entry '".to_owned();
                    append_str(&mut m, entry.as_str());
                    append_str(&mut m, "': ");
                    append_str(&mut m, ENV_PATTERN_MESSAGE);
                    return Err(m);
                }
            },
            _ => return Err("Module history entries must be strings".to_owned()),
        }
        i = i + 1;
    }
    Ok(())
}

} // verus!
