//! Command-line vocabulary: module targets, environment names and the
//! subcommands that carry pass-through arguments.

use crate::text::{
    char_views, chars_equal, chars_of, find_char, slice_from, slice_range, split_by, split_char,
    split_once, string_of, views,
};
use vstd::prelude::*;

verus! {

/// An environment name.
pub type Env = String;

/// The message given for an environment name that is not accepted.
pub const ENV_PATTERN_MESSAGE: &'static str = "environment must match [A-Za-z0-9_-]+";

/// Whether `c` may appear in an environment name.
pub open spec fn env_char(c: char) -> bool {
    ||| ('A' <= c && c <= 'Z')
    ||| ('a' <= c && c <= 'z')
    ||| ('0' <= c && c <= '9')
    ||| c == '-'
    ||| c == '_'
}

/// Whether `s` is an environment name: `[A-Za-z0-9_-]+`.
pub open spec fn valid_env(s: Seq<char>) -> bool {
    s.len() > 0 && forall|i: int| 0 <= i < s.len() ==> env_char(#[trigger] s[i])
}

/// An environment name is a non-empty string of ASCII letters of either
/// case, digits, `-` and `_`.
pub proof fn lemma_env_name_characters(s: Seq<char>)
    ensures
        valid_env(s) <==> (s.len() > 0 && forall|i: int|
            0 <= i < s.len() ==> ('A' <= #[trigger] s[i] <= 'Z') || ('a' <= s[i] <= 'z') || ('0'
                <= s[i] <= '9') || s[i] == '-' || s[i] == '_'),
{
}

/// The letter `c` in upper case when it is an ASCII lower-case letter, `c`
/// otherwise.
pub open spec fn ascii_upper(c: char) -> char {
    if 'a' <= c <= 'z' {
        ((c as u32) - 32) as char
    } else {
        c
    }
}

/// Whether a name is an environment name does not depend on the case of its
/// letters: `prod`, `Prod` and `PROD` are all accepted.
pub proof fn lemma_env_name_case_insensitive(s: Seq<char>)
    ensures
        valid_env(s) <==> valid_env(s.map_values(|c: char| ascii_upper(c))),
{
    let u = s.map_values(|c: char| ascii_upper(c));
    assert forall|i: int| 0 <= i < s.len() implies env_char(#[trigger] s[i]) <==> env_char(u[i]) by {
        let c = s[i];
        assert(u[i] == ascii_upper(c));
        if 'a' <= c <= 'z' {
            assert('A' <= ascii_upper(c) <= 'Z');
        }
    }
    if valid_env(u) {
        assert forall|i: int| 0 <= i < s.len() implies env_char(#[trigger] s[i]) by {
            assert(env_char(u[i]));
        }
    }
}

/// Checks that `value` is an environment name.
pub fn validate_env(value: &str) -> (r: Result<(), String>)
    ensures
        r is Ok <==> valid_env(value@),
        r matches Err(m) ==> m@ == ENV_PATTERN_MESSAGE@,
        r is Ok <==> (value@.len() > 0 && forall|i: int|
            0 <= i < value@.len() ==> ('A' <= #[trigger] value@[i] <= 'Z') || ('a' <= value@[i] <= 'z')
                || ('0' <= value@[i] <= '9') || value@[i] == '-' || value@[i] == '_'),
{
    let cs = chars_of(value);
    let mut ok = cs.len() > 0;
    let mut i: usize = 0;
    while i < cs.len()
        invariant
            i <= cs.len(),
            cs@ == value@,
            ok == (cs@.len() > 0 && forall|k: int| 0 <= k < i ==> env_char(#[trigger] cs@[k])),
        decreases cs.len() - i,
    {
        let c = cs[i];
        let allowed = ('A' <= c && c <= 'Z') || ('a' <= c && c <= 'z') || ('0' <= c && c <= '9')
            || c == '-' || c == '_';
        if !allowed {
            ok = false;
        }
        i = i + 1;
    }
    if ok {
        Ok(())
    } else {
        Err(ENV_PATTERN_MESSAGE.to_owned())
    }
}

/// Accepts `value` as an environment name.
pub fn parse_env(value: String) -> (r: Result<Env, String>)
    ensures
        r is Ok <==> valid_env(value@),
        r matches Ok(e) ==> e@ == value@,
        r matches Err(m) ==> m@ == ENV_PATTERN_MESSAGE@,
{
    match validate_env(value.as_str()) {
        Ok(()) => Ok(value),
        Err(message) => Err(message),
    }
}

/// The module part of a target, before it is resolved against a directory.
#[derive(Debug, Clone)]
pub enum ModuleTarget {
    /// A path relative to the current directory.
    Relative(String),
    /// A path relative to the workspace root.
    WorkspaceRelative(String),
}

/// What a module target denotes.
pub enum ModuleTargetView {
    Relative(Seq<char>),
    WorkspaceRelative(Seq<char>),
}

impl View for ModuleTarget {
    type V = ModuleTargetView;

    open spec fn view(&self) -> ModuleTargetView {
        match self {
            ModuleTarget::Relative(p) => ModuleTargetView::Relative(p@),
            ModuleTarget::WorkspaceRelative(p) => ModuleTargetView::WorkspaceRelative(p@),
        }
    }
}

/// The module target that a command-line component denotes: the current
/// directory when empty, the workspace root's subpath after a leading `/`,
/// otherwise a path relative to the current directory.
pub open spec fn module_target_of(module: Seq<char>) -> ModuleTargetView {
    if module.len() == 0 {
        ModuleTargetView::Relative("."@)
    } else if module[0] == '/' {
        ModuleTargetView::WorkspaceRelative(module.drop_first())
    } else {
        ModuleTargetView::Relative(module)
    }
}

/// The pieces of a path that are components: not empty and not `.`.
pub open spec fn kept_pieces(pieces: Seq<Seq<char>>) -> Seq<Seq<char>>
    decreases pieces.len(),
{
    if pieces.len() == 0 {
        Seq::empty()
    } else {
        let init = kept_pieces(pieces.drop_last());
        let piece = pieces.last();
        if piece.len() == 0 || piece == seq!['.'] {
            init
        } else {
            init.push(piece)
        }
    }
}

/// The components of a path as `Path::components` yields them: the root
/// written `/`, a leading current directory written `.`, then the pieces
/// between separators that are neither empty nor `.`.
pub open spec fn path_components(p: Seq<char>) -> Seq<Seq<char>> {
    path_lead(p) + kept_pieces(split_char(p, '/'))
}

/// The root or leading current directory that a path starts with, if any.
pub open spec fn path_lead(p: Seq<char>) -> Seq<Seq<char>> {
    if p.len() > 0 && p[0] == '/' {
        seq![seq!['/']]
    } else if p.len() > 0 && p[0] == '.' && (p.len() == 1 || p[1] == '/') {
        seq![seq!['.']]
    } else {
        Seq::empty()
    }
}

/// Whether two paths are equal as paths: component by component.
pub open spec fn same_path(a: Seq<char>, b: Seq<char>) -> bool {
    path_components(a) == path_components(b)
}

/// The components of the path `p`.
fn components_of(p: &str) -> (r: Vec<Vec<char>>)
    ensures
        char_views(r@) == path_components(p@),
{
    let cs = chars_of(p);
    let mut r: Vec<Vec<char>> = Vec::new();
    let slash: Vec<char> = vec!['/'];
    let dot: Vec<char> = vec!['.'];
    assert(slash@ =~= seq!['/']);
    assert(dot@ =~= seq!['.']);
    if cs.len() > 0 && cs[0] == '/' {
        r.push(slash);
    } else if cs.len() > 0 && cs[0] == '.' && (cs.len() == 1 || cs[1] == '/') {
        r.push(dot);
    }
    let ghost lead = char_views(r@);
    assert(lead =~= path_lead(p@));
    let pieces = split_by(cs.as_slice(), '/');
    let ghost all = char_views(pieces@);
    for i in 0..pieces.len()
        invariant
            all == char_views(pieces@),
            all == split_char(p@, '/'),
            char_views(r@) == lead + kept_pieces(all.take(i as int)),
    {
        assert(all.take(i + 1).drop_last() =~= all.take(i as int));
        assert(all.take(i + 1).last() == pieces@[i as int]@);
        let piece = &pieces[i];
        let dot: Vec<char> = vec!['.'];
        assert(dot@ =~= seq!['.']);
        if piece.len() > 0 && !chars_equal(piece.as_slice(), dot.as_slice()) {
            let ghost before = char_views(r@);
            let kept = slice_from(piece.as_slice(), 0);
            assert(kept@ =~= piece@);
            r.push(kept);
            assert(char_views(r@) =~= before.push(piece@));
        }
    }
    assert(all.take(all.len() as int) =~= all);
    r
}

/// Whether two paths are equal component by component.
pub fn paths_equal(a: &str, b: &str) -> (r: bool)
    ensures
        r == same_path(a@, b@),
{
    let ca = components_of(a);
    let cb = components_of(b);
    if ca.len() != cb.len() {
        assert(char_views(ca@).len() != char_views(cb@).len());
        return false;
    }
    let mut i: usize = 0;
    while i < ca.len()
        invariant
            char_views(ca@) == path_components(a@),
            char_views(cb@) == path_components(b@),
            ca.len() == cb.len(),
            i <= ca.len(),
            forall|k: int| 0 <= k < i ==> #[trigger] ca@[k]@ == cb@[k]@,
        decreases ca.len() - i,
    {
        if !chars_equal(ca[i].as_slice(), cb[i].as_slice()) {
            assert(char_views(ca@)[i as int] != char_views(cb@)[i as int]);
            return false;
        }
        i = i + 1;
    }
    assert(char_views(ca@) =~= char_views(cb@));
    true
}

/// Module targets are equal when they have the same base and denote the
/// same path, compared component by component.
pub open spec fn same_module(a: ModuleTargetView, b: ModuleTargetView) -> bool {
    match (a, b) {
        (ModuleTargetView::Relative(x), ModuleTargetView::Relative(y)) => same_path(x, y),
        (ModuleTargetView::WorkspaceRelative(x), ModuleTargetView::WorkspaceRelative(y)) => same_path(x, y),
        _ => false,
    }
}

impl PartialEq for ModuleTarget {
    fn eq(&self, other: &Self) -> (r: bool) {
        match (self, other) {
            (ModuleTarget::Relative(a), ModuleTarget::Relative(b)) => paths_equal(a, b),
            (ModuleTarget::WorkspaceRelative(a), ModuleTarget::WorkspaceRelative(b)) => paths_equal(
                a,
                b,
            ),
            _ => false,
        }
    }
}

impl vstd::std_specs::cmp::PartialEqSpecImpl for ModuleTarget {
    open spec fn obeys_eq_spec() -> bool {
        true
    }

    open spec fn eq_spec(&self, other: &Self) -> bool {
        same_module(self@, other@)
    }
}

impl Eq for ModuleTarget {

}

impl ModuleTarget {
    /// The module target written as `module` on the command line.
    pub fn from_cli_component(module: &str) -> (r: ModuleTarget)
        ensures
            r@ == module_target_of(module@),
    {
        let cs = chars_of(module);
        if cs.len() == 0 {
            ModuleTarget::Relative(".".to_owned())
        } else if cs[0] == '/' {
            let rest = slice_from(cs.as_slice(), 1);
            assert(rest@ =~= module@.drop_first());
            ModuleTarget::WorkspaceRelative(string_of(rest.as_slice()))
        } else {
            ModuleTarget::Relative(module.to_owned())
        }
    }
}

/// A module and an optional environment, written `MODULE[:ENV]`.
#[derive(Debug, Clone)]
pub struct Target {
    pub module: ModuleTarget,
    pub environment: Option<Env>,
}

/// What a target denotes.
pub struct TargetView {
    pub module: ModuleTargetView,
    pub environment: Option<Seq<char>>,
}

impl View for Target {
    type V = TargetView;

    open spec fn view(&self) -> TargetView {
        TargetView {
            module: self.module@,
            environment: match self.environment {
                Some(e) => Some(e@),
                None => None,
            },
        }
    }
}

/// The target that `value` denotes, or `None` when its environment part is
/// not an environment name. Only the first `:` separates the parts.
pub open spec fn target_of(value: Seq<char>) -> Option<TargetView> {
    match split_once(value, seq![':']) {
        Some((module, env)) => if valid_env(env) {
            Some(TargetView { module: module_target_of(module), environment: Some(env) })
        } else {
            None
        },
        None => Some(TargetView { module: module_target_of(value), environment: None }),
    }
}

/// Every environment that a parsed target names is an environment name.
pub proof fn lemma_target_environment_is_valid(value: Seq<char>)
    ensures
        target_of(value) matches Some(t) ==> (t.environment matches Some(e) ==> valid_env(e)),
{
}

impl PartialEq for Target {
    fn eq(&self, other: &Self) -> (r: bool) {
        let same_environment = match (&self.environment, &other.environment) {
            (Some(a), Some(b)) => *a == *b,
            (None, None) => true,
            _ => false,
        };
        self.module == other.module && same_environment
    }
}

impl vstd::std_specs::cmp::PartialEqSpecImpl for Target {
    open spec fn obeys_eq_spec() -> bool {
        true
    }

    open spec fn eq_spec(&self, other: &Self) -> bool {
        same_module(self@.module, other@.module) && self@.environment == other@.environment
    }
}

impl Eq for Target {

}

impl Target {
    /// The current module, with no environment selected.
    pub fn current() -> (r: Target)
        ensures
            r@.module == ModuleTargetView::Relative("."@),
            r@.environment is None,
    {
        Target { module: ModuleTarget::Relative(".".to_owned()), environment: None }
    }

    /// Parses `MODULE[:ENV]`.
    pub fn parse(value: &str) -> (r: Result<Target, String>)
        ensures
            match target_of(value@) {
                Some(t) => r matches Ok(v) && v@ == t,
                None => r matches Err(m) && m@ == ENV_PATTERN_MESSAGE@,
            },
    {
        let cs = chars_of(value);
        match find_char(cs.as_slice(), ':') {
            Some(k) => {
                assert(k < cs.len());
                let module = string_of(slice_range(cs.as_slice(), 0, k).as_slice());
                let env = string_of(slice_from(cs.as_slice(), k + 1).as_slice());
                assert(module@ =~= value@.take(k as int));
                let environment = parse_env(env)?;
                Ok(Target {
                    module: ModuleTarget::from_cli_component(module.as_str()),
                    environment: Some(environment),
                })
            },
            None => Ok(Target { module: ModuleTarget::from_cli_component(value), environment: None }),
        }
    }
}

impl Default for Target {
    fn default() -> (r: Target)
        ensures
            r@.module == ModuleTargetView::Relative("."@),
            r@.environment is None,
    {
        Target::current()
    }
}

impl std::str::FromStr for Target {
    type Err = String;

    fn from_str(value: &str) -> (r: Result<Target, String>)
        ensures
            match target_of(value@) {
                Some(t) => r matches Ok(v) && v@ == t,
                None => r matches Err(m) && m@ == ENV_PATTERN_MESSAGE@,
            },
    {
        Target::parse(value)
    }
}

/// The migration subcommands.
#[derive(Debug)]
pub enum MigrationCommand {
    /// Validate migration history and repository layout.
    Check,
    /// Print migration details as JSON.
    Inspect,
    /// Validate a migration without updating remote state.
    Plan { args: Vec<String> },
    /// Apply a migration to remote state.
    Apply { args: Vec<String> },
}

impl MigrationCommand {
    /// The tfmigrate operation and its arguments, for the commands that run tfmigrate.
    pub fn tfmigrate_command_and_args(&self) -> (r: Option<(&'static str, &[String])>)
        ensures
            match self {
                MigrationCommand::Plan { args } => r matches Some((c, a)) && c@ == "plan"@ && a@
                    == args@,
                MigrationCommand::Apply { args } => r matches Some((c, a)) && c@ == "apply"@ && a@
                    == args@,
                _ => r is None,
            },
    {
        match self {
            MigrationCommand::Plan { args } => Some(("plan", args.as_slice())),
            MigrationCommand::Apply { args } => Some(("apply", args.as_slice())),
            MigrationCommand::Check | MigrationCommand::Inspect => None,
        }
    }

    /// The pass-through arguments; none for `check` and `inspect`.
    pub fn args(&self) -> (r: &[String])
        ensures
            match self {
                MigrationCommand::Plan { args } => r@ == args@,
                MigrationCommand::Apply { args } => r@ == args@,
                _ => r@.len() == 0,
            },
    {
        match self {
            MigrationCommand::Plan { args } | MigrationCommand::Apply { args } => args.as_slice(),
            MigrationCommand::Check | MigrationCommand::Inspect => &[],
        }
    }
}

/// The workspace-wide module subcommands.
#[derive(Debug, Clone, Copy, PartialEq, Eq, Structural)]
pub enum ModulesCommand {
    /// List modules in the workspace.
    List,
    /// Check CUE exports for every populated module environment; with
    /// `drift`, also plan each one and fail where a plan reports changes.
    Check { drift: bool },
}

/// The CUE subcommands.
#[derive(Debug)]
pub enum CueCommand {
    Eval { args: Vec<String> },
    Def { args: Vec<String> },
    Export { args: Vec<String> },
}

impl CueCommand {
    /// The `cue` subcommand and its pass-through arguments.
    pub fn command_and_args(&self) -> (r: (&'static str, &[String]))
        ensures
            match self {
                CueCommand::Eval { args } => r.0@ == "eval"@ && r.1@ == args@,
                CueCommand::Def { args } => r.0@ == "def"@ && r.1@ == args@,
                CueCommand::Export { args } => r.0@ == "export"@ && r.1@ == args@,
            },
    {
        match self {
            CueCommand::Eval { args } => ("eval", args.as_slice()),
            CueCommand::Def { args } => ("def", args.as_slice()),
            CueCommand::Export { args } => ("export", args.as_slice()),
        }
    }
}

} // verus!
