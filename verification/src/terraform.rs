//! How OpenTofu/Terraform is invoked: which subcommand an argument list
//! selects, which commands read remote state and so get a default time
//! limit, and the arguments of the automatic `init`.

use crate::text::{
    begins_with_char, chars_of, first_char_is, has_prefix, join, replace_char, slice_from,
    str_equal, string_of, strip_prefix, views,
};
use std::time::{Duration, Instant};
use vstd::prelude::*;

verus! {

/// The file that an initialized working directory holds.
pub const INIT_STATE_FILE: &'static str = ".terraform/terraform.tfstate";

/// Seconds that a remote-state read may take when no time limit is given.
pub const DEFAULT_READ_TIMEOUT_SECS: u64 = 30;

#[verifier::external_type_specification]
#[verifier::external_body]
pub struct ExInstant(std::time::Instant);

/// The duration of `secs` seconds (`Duration::from_secs`).
pub uninterp spec fn duration_from_secs(secs: u64) -> Duration;

/// `a - b`, or zero when `b` is longer (`Duration::saturating_sub`).
pub uninterp spec fn duration_saturating_sub(a: Duration, b: Duration) -> Duration;

/// The text that `humantime::format_duration` renders for `d`.
pub uninterp spec fn humantime_text(d: Duration) -> Seq<char>;

/// Whether `c` makes `shell_words::quote` quote a word.
pub open spec fn shell_special(c: char) -> bool {
    ||| c == '\n'
    ||| c == '\''
    ||| c == '|'
    ||| c == '&'
    ||| c == ';'
    ||| c == '<'
    ||| c == '>'
    ||| c == '('
    ||| c == ')'
    ||| c == '$'
    ||| c == '`'
    ||| c == '\\'
    ||| c == '"'
    ||| c == ' '
    ||| c == '\t'
    ||| c == '*'
    ||| c == '?'
    ||| c == '['
    ||| c == '#'
    ||| c == '~'
    ||| c == '='
    ||| c == '%'
}

/// A word as `shell_words::quote` writes it: as it is when it is not empty
/// and holds no special character, otherwise between single quotes with
/// each single quote written `'\''`.
pub open spec fn shell_word(w: Seq<char>) -> Seq<char> {
    if w.len() > 0 && forall|i: int| 0 <= i < w.len() ==> !shell_special(#[trigger] w[i]) {
        w
    } else {
        seq!['\''] + replace_char(w, '\'', seq!['\'', '\\', '\'', '\'']) + seq!['\'']
    }
}

/// The command line that `shell_words::join` renders for `words`: the
/// quoted words separated by single spaces.
pub open spec fn shell_joined(words: Seq<Seq<char>>) -> Seq<char> {
    join(words.map_values(|w: Seq<char>| shell_word(w)), seq![' '])
}

/// `Duration::from_secs` gives a value determined by its argument.
pub assume_specification[ core::time::Duration::from_secs ](secs: u64) -> (r: Duration)
    ensures
        r == duration_from_secs(secs),
;

/// `Duration::saturating_sub` gives a value determined by its arguments.
pub assume_specification[ core::time::Duration::saturating_sub ](a: Duration, b: Duration) -> (r:
    Duration)
    ensures
        r == duration_saturating_sub(a, b),
;

/// `Instant::now` reads the clock: nothing is promised of its result.
pub assume_specification[ std::time::Instant::now ]() -> Instant;

/// `Instant::elapsed` reads the clock: nothing is promised of its result.
pub assume_specification[ std::time::Instant::elapsed ](i: &Instant) -> Duration;

/// Renders `d` with `humantime::format_duration`, such as `25ms` or `30s`.
#[verifier::external_body]
fn format_duration(d: Duration) -> (r: String)
    ensures
        r@ == humantime_text(d),
{
    humantime::format_duration(d).to_string()
}

/// Joins `words` into a shell command line with `shell_words::join`,
/// quoting each word that needs it.
#[verifier::external_body]
fn shell_join(words: &[String]) -> (r: String)
    ensures
        r@ == shell_joined(views(words@)),
{
    shell_words::join(words)
}

/// The time limit for remote-state reads when none is given.
pub open spec fn default_read_timeout_spec() -> Duration {
    duration_from_secs(DEFAULT_READ_TIMEOUT_SECS)
}

/// The time limit for remote-state reads when none is given: thirty seconds.
pub fn default_read_timeout() -> (r: Duration)
    ensures
        r == default_read_timeout_spec(),
{
    Duration::from_secs(DEFAULT_READ_TIMEOUT_SECS)
}

/// Whether an argument is an option rather than a subcommand.
pub open spec fn is_flag(arg: Seq<char>) -> bool {
    begins_with_char(arg, '-')
}

/// The index of the first argument at or after `i` that does not start with `-`.
pub open spec fn first_positional(args: Seq<Seq<char>>, i: int) -> Option<int>
    decreases args.len() - i,
{
    if i < 0 || i >= args.len() {
        None
    } else if !is_flag(args[i]) {
        Some(i)
    } else {
        first_positional(args, i + 1)
    }
}

/// A found positional argument is in range.
pub proof fn lemma_first_positional(args: Seq<Seq<char>>, i: int)
    ensures
        first_positional(args, i) matches Some(k) ==> i <= k < args.len() && !is_flag(args[k]),
    decreases args.len() - i,
{
    if i >= 0 && i < args.len() && is_flag(args[i]) {
        lemma_first_positional(args, i + 1);
    }
}

/// The index of the first argument at or after `start` that does not start with `-`.
pub fn positional_from(args: &[String], start: usize) -> (r: Option<usize>)
    ensures
        match r {
            Some(k) => first_positional(views(args@), start as int) == Some(k as int),
            None => first_positional(views(args@), start as int) is None,
        },
        r matches Some(k) ==> start <= k < args@.len(),
{
    proof {
        lemma_first_positional(views(args@), start as int);
    }
    let mut i = start;
    while i < args.len()
        invariant
            start <= i,
            first_positional(views(args@), start as int) == first_positional(views(args@), i as int),
        decreases args.len() - i,
    {
        if !first_char_is(args[i].as_str(), '-') {
            return Some(i);
        }
        i = i + 1;
    }
    None
}

/// The first argument that does not start with `-`, with its index: the subcommand.
pub fn subcommand(args: &[String]) -> (r: Option<(usize, &str)>)
    ensures
        match first_positional(views(args@), 0) {
            Some(k) => r matches Some((i, c)) && i == k && c@ == args@[k]@,
            None => r is None,
        },
        r matches Some((i, c)) ==> i < args@.len(),
{
    match positional_from(args, 0) {
        Some(k) => Some((k, args[k].as_str())),
        None => None,
    }
}

/// Whether the subcommand after index `i` is one of the given names.
pub open spec fn nested_subcommand_is(args: Seq<Seq<char>>, i: int, names: Seq<Seq<char>>) -> bool {
    match first_positional(args, i + 1) {
        Some(j) => names.contains(args[j]),
        None => false,
    }
}

/// Whether the arguments select a command that only reads remote state:
/// `output`, `show` without a plan file, `state list|pull|show` and
/// `workspace list|show`.
pub open spec fn reads_remote_state_spec(args: Seq<Seq<char>>) -> bool {
    match first_positional(args, 0) {
        None => false,
        Some(k) => {
            let command = args[k];
            if command == "output"@ {
                true
            } else if command == "show"@ {
                first_positional(args, k + 1) is None
            } else if command == "state"@ {
                nested_subcommand_is(args, k, seq!["list"@, "pull"@, "show"@])
            } else if command == "workspace"@ {
                nested_subcommand_is(args, k, seq!["list"@, "show"@])
            } else {
                false
            }
        },
    }
}

/// Whether the argument at `k` is `name` and every argument before it starts
/// with `-`: `name` is the command, whatever follows it.
pub open spec fn command_at(args: Seq<Seq<char>>, k: int, name: Seq<char>) -> bool {
    &&& 0 <= k < args.len()
    &&& args[k] == name
    &&& forall|j: int| 0 <= j < k ==> #[trigger] args[j].len() > 0 && args[j][0] == '-'
}

/// Whether every argument from `i` up to, not including, `j` starts with `-`.
pub open spec fn options_between(args: Seq<Seq<char>>, i: int, j: int) -> bool {
    forall|m: int| i <= m < j ==> #[trigger] args[m].len() > 0 && args[m][0] == '-'
}

/// The first argument at or after `i` that does not start with `-` is the
/// one at `j` exactly when all from `i` to `j` start with `-` and the one at
/// `j` does not.
proof fn lemma_first_positional_is(args: Seq<Seq<char>>, i: int, j: int)
    requires
        0 <= i,
    ensures
        first_positional(args, i) == Some(j) <==> (i <= j < args.len() && !is_flag(args[j])
            && options_between(args, i, j)),
    decreases args.len() - i,
{
    if i < args.len() && is_flag(args[i]) {
        lemma_first_positional_is(args, i + 1, j);
        if i < j && options_between(args, i + 1, j) {
            assert(options_between(args, i, j));
        }
    } else if i < args.len() && i < j && options_between(args, i, j) {
        assert(args[i].len() > 0 && args[i][0] == '-');
    }
}

/// No argument at or after `i` is positional exactly when all of them start
/// with `-`.
proof fn lemma_no_positional_from(args: Seq<Seq<char>>, i: int)
    requires
        0 <= i,
    ensures
        first_positional(args, i) is None <==> options_between(args, i, args.len() as int),
    decreases args.len() - i,
{
    if i < args.len() && is_flag(args[i]) {
        lemma_no_positional_from(args, i + 1);
        if options_between(args, i + 1, args.len() as int) {
            assert(options_between(args, i, args.len() as int));
        }
    } else if i < args.len() {
        assert(!(args[i].len() > 0 && args[i][0] == '-'));
    }
}

/// The command named at `k` is the subcommand that the arguments select.
proof fn lemma_command_at(args: Seq<Seq<char>>, k: int, name: Seq<char>)
    requires
        command_at(args, k, name),
        !is_flag(name),
    ensures
        first_positional(args, 0) == Some(k),
{
    lemma_first_positional_is(args, 0, k);
}

/// Every argument list whose first argument not starting with `-` is
/// `output` reads remote state, whatever arguments follow.
pub proof fn lemma_output_reads_remote_state(args: Seq<Seq<char>>, k: int)
    requires
        command_at(args, k, "output"@),
    ensures
        reads_remote_state_spec(args),
{
    reveal_strlit("output");
    lemma_command_at(args, k, "output"@);
}

/// `show` reads remote state exactly when no argument after it is
/// positional, that is when no plan file is named.
pub proof fn lemma_show_reads_remote_state(args: Seq<Seq<char>>, k: int)
    requires
        command_at(args, k, "show"@),
    ensures
        reads_remote_state_spec(args) <==> options_between(args, k + 1, args.len() as int),
{
    reveal_strlit("show");
    reveal_strlit("output");
    assert("show"@.len() != "output"@.len());
    lemma_command_at(args, k, "show"@);
    lemma_no_positional_from(args, k + 1);
}

/// Whether the first argument after `k` that does not start with `-` is
/// one of `names`.
pub open spec fn next_command_among(args: Seq<Seq<char>>, k: int, names: Seq<Seq<char>>) -> bool {
    exists|j: int|
        k < j < args.len() && names.contains(#[trigger] args[j]) && options_between(args, k + 1, j)
}

/// The next command after `k` is among `names` exactly when the first
/// positional argument after `k` is, for names that do not start with `-`.
proof fn lemma_next_command_among(args: Seq<Seq<char>>, k: int, names: Seq<Seq<char>>)
    requires
        0 <= k,
        forall|n: int| 0 <= n < names.len() ==> !is_flag(#[trigger] names[n]),
    ensures
        nested_subcommand_is(args, k, names) <==> next_command_among(args, k, names),
{
    if next_command_among(args, k, names) {
        let j = choose|j: int|
            k < j < args.len() && names.contains(#[trigger] args[j]) && options_between(
                args,
                k + 1,
                j,
            );
        let n = choose|n: int| 0 <= n < names.len() && names[n] == args[j];
        assert(!is_flag(names[n]));
        lemma_first_positional_is(args, k + 1, j);
    }
    match first_positional(args, k + 1) {
        Some(j) => {
            lemma_first_positional_is(args, k + 1, j);
        },
        None => {},
    }
}

/// `state` reads remote state exactly when the next command after it is
/// `list`, `pull` or `show`.
pub proof fn lemma_state_reads_remote_state(args: Seq<Seq<char>>, k: int)
    requires
        command_at(args, k, "state"@),
    ensures
        reads_remote_state_spec(args) <==> next_command_among(
            args,
            k,
            seq!["list"@, "pull"@, "show"@],
        ),
{
    reveal_strlit("state");
    reveal_strlit("output");
    reveal_strlit("show");
    reveal_strlit("list");
    reveal_strlit("pull");
    assert("state"@.len() != "output"@.len());
    assert("state"@.len() != "show"@.len());
    lemma_command_at(args, k, "state"@);
    lemma_next_command_among(args, k, seq!["list"@, "pull"@, "show"@]);
}

/// `workspace` reads remote state exactly when the next command after it
/// is `list` or `show`.
pub proof fn lemma_workspace_reads_remote_state(args: Seq<Seq<char>>, k: int)
    requires
        command_at(args, k, "workspace"@),
    ensures
        reads_remote_state_spec(args) <==> next_command_among(args, k, seq!["list"@, "show"@]),
{
    reveal_strlit("workspace");
    reveal_strlit("state");
    reveal_strlit("output");
    reveal_strlit("show");
    reveal_strlit("list");
    assert("workspace"@.len() != "output"@.len());
    assert("workspace"@.len() != "show"@.len());
    assert("workspace"@.len() != "state"@.len());
    lemma_command_at(args, k, "workspace"@);
    lemma_next_command_among(args, k, seq!["list"@, "show"@]);
}

/// Any other command, and an argument list with no command at all, does
/// not read remote state.
pub proof fn lemma_other_commands_do_not_read(args: Seq<Seq<char>>, k: int, name: Seq<char>)
    requires
        command_at(args, k, name) || (k == args.len() && options_between(args, 0, k)),
        name.len() == 0 || name[0] != '-',
        name != "output"@,
        name != "show"@,
        name != "state"@,
        name != "workspace"@,
    ensures
        !reads_remote_state_spec(args),
{
    if command_at(args, k, name) {
        lemma_command_at(args, k, name);
    } else {
        lemma_no_positional_from(args, 0);
    }
}

/// Whether `s` is one of the given names.
fn is_one_of(s: &str, names: &[&str]) -> (r: bool)
    ensures
        r == names@.map_values(|n: &str| n@).contains(s@),
{
    let ghost all = names@.map_values(|n: &str| n@);
    let mut i: usize = 0;
    while i < names.len()
        invariant
            i <= names.len(),
            all == names@.map_values(|n: &str| n@),
            forall|k: int| 0 <= k < i ==> all[k] != s@,
        decreases names.len() - i,
    {
        if str_equal(s, names[i]) {
            assert(all[i as int] == s@);
            return true;
        }
        i = i + 1;
    }
    false
}

/// Whether the arguments select a command that only reads remote state.
pub fn reads_remote_state(args: &[String]) -> (r: bool)
    ensures
        r == reads_remote_state_spec(views(args@)),
        (exists|k: int| command_at(views(args@), k, "output"@)) ==> r,
{
    proof {
        if exists|k: int| command_at(views(args@), k, "output"@) {
            let k = choose|k: int| command_at(views(args@), k, "output"@);
            lemma_output_reads_remote_state(views(args@), k);
        }
    }
    let (index, command) = match subcommand(args) {
        Some(found) => found,
        None => return false,
    };
    let ghost a = views(args@);
    assert(a[index as int] == command@);
    let n = args.len();
    assert(index < n);
    if str_equal(command, "output") {
        true
    } else if str_equal(command, "show") {
        positional_from(args, index + 1).is_none()
    } else if str_equal(command, "state") {
        match positional_from(args, index + 1) {
            Some(j) => {
                let names = ["list", "pull", "show"];
                let found = is_one_of(args[j].as_str(), names.as_slice());
                assert(names@.map_values(|n: &str| n@) =~= seq!["list"@, "pull"@, "show"@]);
                found
            },
            None => false,
        }
    } else if str_equal(command, "workspace") {
        match positional_from(args, index + 1) {
            Some(j) => {
                let names = ["list", "show"];
                let found = is_one_of(args[j].as_str(), names.as_slice());
                assert(names@.map_values(|n: &str| n@) =~= seq!["list"@, "show"@]);
                found
            },
            None => false,
        }
    } else {
        false
    }
}

/// The time limit for a command: the explicit one when given, otherwise the
/// default read limit for remote-state reads and none for anything else.
pub fn timeout(args: &[String], explicit: Option<Duration>) -> (r: Option<Duration>)
    ensures
        r == match explicit {
            Some(d) => Some(d),
            None => if reads_remote_state_spec(views(args@)) {
                Some(default_read_timeout_spec())
            } else {
                None
            },
        },
        explicit is None && (exists|k: int| command_at(views(args@), k, "output"@)) ==> r == Some(
            duration_from_secs(30),
        ),
{
    proof {
        if exists|k: int| command_at(views(args@), k, "output"@) {
            let k = choose|k: int| command_at(views(args@), k, "output"@);
            lemma_output_reads_remote_state(views(args@), k);
        }
    }
    match explicit {
        Some(d) => Some(d),
        None => if reads_remote_state(args) {
            Some(default_read_timeout())
        } else {
            None
        },
    }
}

/// The time limit for a state read: the explicit one, or the default.
pub fn read_timeout(explicit: Option<Duration>) -> (r: Duration)
    ensures
        r == match explicit {
            Some(d) => d,
            None => default_read_timeout_spec(),
        },
{
    match explicit {
        Some(d) => d,
        None => default_read_timeout(),
    }
}

/// The directory named by the first `-chdir=` option at or after `i`.
pub open spec fn chdir_from(args: Seq<Seq<char>>, i: int) -> Option<Seq<char>>
    decreases args.len() - i,
{
    if i < 0 || i >= args.len() {
        None
    } else if strip_prefix(args[i], "-chdir="@) is Some {
        strip_prefix(args[i], "-chdir="@)
    } else {
        chdir_from(args, i + 1)
    }
}

/// The working directory that the first `-chdir=` option selects, relative
/// to the output directory; `None` when there is no such option.
pub fn chdir(global_args: &[String]) -> (r: Option<String>)
    ensures
        match chdir_from(views(global_args@), 0) {
            Some(d) => r matches Some(s) && s@ == d,
            None => r is None,
        },
{
    let prefix = chars_of("-chdir=");
    let mut i: usize = 0;
    while i < global_args.len()
        invariant
            i <= global_args.len(),
            prefix@ == "-chdir="@,
            chdir_from(views(global_args@), 0) == chdir_from(views(global_args@), i as int),
        decreases global_args.len() - i,
    {
        let arg = chars_of(global_args[i].as_str());
        if has_prefix(arg.as_slice(), prefix.as_slice()) {
            let rest = slice_from(arg.as_slice(), prefix.len());
            return Some(string_of(rest.as_slice()));
        }
        i = i + 1;
    }
    None
}

/// Where the automatic `init` splits the arguments: the index of the
/// subcommand, unless there is none or it is `init` itself.
pub fn automatic_init(args: &[String]) -> (r: Option<usize>)
    ensures
        match first_positional(views(args@), 0) {
            Some(k) => if views(args@)[k] == "init"@ {
                r is None
            } else {
                r == Some(k as usize)
            },
            None => r is None,
        },
{
    match subcommand(args) {
        Some((index, command)) => if str_equal(command, "init") {
            None
        } else {
            Some(index)
        },
        None => None,
    }
}

/// The arguments of `init` run with the given global options.
pub fn init_arguments(global_args: &[String]) -> (r: Vec<String>)
    ensures
        views(r@) == views(global_args@).push("init"@),
{
    let mut r: Vec<String> = Vec::new();
    for i in 0..global_args.len()
        invariant
            views(r@) == views(global_args@.take(i as int)),
    {
        r.push(global_args[i].clone());
        assert(views(global_args@.take(i + 1)) =~= views(global_args@.take(i as int)).push(
            global_args@[i as int]@,
        ));
    }
    assert(global_args@.take(global_args@.len() as int) =~= global_args@);
    r.push("init".to_owned());
    r
}

/// The shell-quoted command line of a program and its arguments.
pub fn command_line(program: &str, args: &[String]) -> (r: String)
    ensures
        r@ == shell_joined(seq![program@] + views(args@)),
{
    let mut words: Vec<String> = Vec::new();
    words.push(program.to_owned());
    for i in 0..args.len()
        invariant
            views(words@) == seq![program@] + views(args@.take(i as int)),
    {
        let ghost before = views(words@);
        words.push(args[i].clone());
        assert(views(words@) =~= before.push(args@[i as int]@));
        assert(views(args@.take(i + 1)) =~= views(args@.take(i as int)).push(args@[i as int]@));
        assert(views(words@) =~= seq![program@] + views(args@.take(i + 1)));
    }
    assert(args@.take(args@.len() as int) =~= args@);
    shell_join(words.as_slice())
}

/// A time limit that started counting when it was made.
#[derive(Clone, Copy)]
pub struct CommandTimeout {
    duration: Duration,
    started: Instant,
}

impl CommandTimeout {
    /// The whole time limit.
    pub closed spec fn limit(self) -> Duration {
        self.duration
    }

    /// Starts a time limit of `duration` now.
    pub fn new(duration: Duration) -> (r: CommandTimeout)
        ensures
            r.limit() == duration,
    {
        CommandTimeout { duration, started: Instant::now() }
    }

    /// The time left of the limit: what remains after the time that has
    /// passed since it started, or zero.
    pub fn remaining(self) -> (r: Duration)
        ensures
            exists|elapsed: Duration| r == duration_saturating_sub(self.limit(), elapsed),
    {
        let elapsed = self.started.elapsed();
        let r = self.duration.saturating_sub(elapsed);
        assert(r == duration_saturating_sub(self.limit(), elapsed));
        r
    }

    /// The message for a command that ran past the limit.
    pub fn timed_out_message(&self, command_line: &str) -> (r: String)
        ensures
            r@ == "Command timed out after "@ + humantime_text(self.limit()) + ": "@ + command_line@,
    {
        let mut r = "Command timed out after ".to_owned();
        let limit = format_duration(self.duration);
        crate::text::append_str(&mut r, limit.as_str());
        crate::text::append_str(&mut r, ": ");
        crate::text::append_str(&mut r, command_line);
        r
    }
}

} // verus!
