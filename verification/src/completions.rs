//! Shell completion: the registration script for Zsh, the lines that the
//! Zsh completer prints, and the target candidates offered for `--target`.

use crate::order::{is_sorted_permutation, sort_strings};
use crate::text::{
    append_chars, append_str, char_views, chars_equal, chars_of, has_prefix, join, join_strings,
    lines, lines_of, replace, replace_char, slice_from, split_on, split_text, starts_with, string_of,
    views,
};
use vstd::prelude::*;

verus! {

/// The tag of candidates that complete a module.
pub const MODULE_TAG: &'static str = "cuet-target-module";

/// The marker that precedes module candidates in the Zsh protocol.
pub const MODULE_MARKER: &'static str = "__cuet_target_module__";

/// The Zsh registration script, with `@@KEY@@` placeholders.
pub const ZSH_REGISTRATION_TEMPLATE: &'static str = r#"#compdef @@BIN@@
function _clap_dynamic_completer_@@NAME@@() {
    local _CLAP_COMPLETE_INDEX=$(expr $CURRENT - 1)
    local _CLAP_IFS=$'\n'

    local completions=("${(@f)$( \
        _CLAP_IFS="$_CLAP_IFS" \
        _CLAP_COMPLETE_INDEX="$_CLAP_COMPLETE_INDEX" \
        @@VAR@@="zsh" \
        @@COMPLETER@@ -- "${words[@]}" 2>/dev/null \
    )}")

    if [[ -n $completions ]]; then
        local -a dirs=()
        local -a modules=()
        local -a other=()
        local completion
        for completion in $completions; do
            if [[ "$completion" == @@MODULE_MARKER@@$'\t'* ]]; then
                modules+=("${completion#*$'\t'}")
                continue
            fi

            local value="${completion%%:*}"
            if [[ "$value" == */ ]]; then
                local dir_no_slash="${value%/}"
                if [[ "$completion" == *:* ]]; then
                    local desc="${completion#*:}"
                    dirs+=("$dir_no_slash:$desc")
                else
                    dirs+=("$dir_no_slash")
                fi
            else
                other+=("$completion")
            fi
        done
        [[ -n $dirs ]] && _describe -V 'values' dirs -S '/' -r '/'
        [[ -n $modules ]] && _describe -V 'modules' modules -S ':' -r ' '
        [[ -n $other ]] && _describe -V 'values' other
    fi
}

compdef _clap_dynamic_completer_@@NAME@@ @@BIN@@"#;

/// `value` quoted for a POSIX shell: in single quotes, each `'` written as `'\''`.
pub open spec fn shell_quoted(value: Seq<char>) -> Seq<char> {
    seq!['\''] + replace_char(value, '\'', seq!['\'', '\\', '\'', '\'']) + seq!['\'']
}

/// `value` quoted for a POSIX shell.
pub fn shell_quote(value: &str) -> (r: String)
    ensures
        r@ == shell_quoted(value@),
{
    let by: Vec<char> = vec!['\'', '\\', '\'', '\''];
    assert(by@ =~= seq!['\'', '\\', '\'', '\'']);
    let inner = replace(chars_of(value).as_slice(), '\'', by.as_slice());
    let mut r = String::new();
    crate::text::push_char(&mut r, '\'');
    append_chars(&mut r, inner.as_slice());
    crate::text::push_char(&mut r, '\'');
    assert(r@ =~= shell_quoted(value@));
    r
}

/// A completion value escaped for Zsh: `\` doubled, then `:` escaped.
pub open spec fn zsh_escaped(value: Seq<char>) -> Seq<char> {
    replace_char(replace_char(value, '\\', seq!['\\', '\\']), ':', seq!['\\', ':'])
}

/// A completion value escaped for Zsh.
pub fn escape_zsh_value(value: &str) -> (r: String)
    ensures
        r@ == zsh_escaped(value@),
{
    let doubled: Vec<char> = vec!['\\', '\\'];
    let colon: Vec<char> = vec!['\\', ':'];
    assert(doubled@ =~= seq!['\\', '\\']);
    assert(colon@ =~= seq!['\\', ':']);
    let first = replace(chars_of(value).as_slice(), '\\', doubled.as_slice());
    let second = replace(first.as_slice(), ':', colon.as_slice());
    string_of(second.as_slice())
}

/// Whether a module candidate completes what has been typed: it starts with
/// it, or, when the typed text does not start with `/`, its workspace path
/// after the `/` does.
pub open spec fn candidate_matches(candidate: Seq<char>, current: Seq<char>) -> bool {
    ||| starts_with(candidate, current)
    ||| (!starts_with(current, seq!['/']) && strip_slash(candidate) is Some && starts_with(
        strip_slash(candidate)->0,
        current,
    ))
}

/// `s` without a leading `/`, when it has one.
pub open spec fn strip_slash(s: Seq<char>) -> Option<Seq<char>> {
    if s.len() > 0 && s[0] == '/' {
        Some(s.drop_first())
    } else {
        None
    }
}

/// Whether a module candidate completes what has been typed.
pub fn module_candidate_matches(candidate: &str, current: &str) -> (r: bool)
    ensures
        r == candidate_matches(candidate@, current@),
{
    let c = chars_of(candidate);
    let t = chars_of(current);
    if has_prefix(c.as_slice(), t.as_slice()) {
        return true;
    }
    let slash: Vec<char> = vec!['/'];
    assert(slash@ =~= seq!['/']);
    if has_prefix(t.as_slice(), slash.as_slice()) {
        return false;
    }
    if c.len() > 0 && c[0] == '/' {
        let rest = slice_from(c.as_slice(), 1);
        assert(rest@ =~= candidate@.drop_first());
        has_prefix(rest.as_slice(), t.as_slice())
    } else {
        false
    }
}

/// Typing any prefix of a module's workspace path, with or without the
/// leading `/`, offers that module (a path relative to the workspace root).
pub proof fn lemma_module_offered_for_its_prefixes(module: Seq<char>, k: int)
    requires
        module != "."@,
        module.len() == 0 || module[0] != '/',
        0 <= k <= module.len(),
    ensures
        candidate_matches(module_candidate(module), module.take(k)),
        candidate_matches(module_candidate(module), (seq!['/'] + module).take(k + 1)),
{
    let c = seq!['/'] + module;
    assert(c.take(k + 1).take(k + 1) =~= c.take(k + 1));
    if k > 0 {
        assert(module.take(k)[0] == module[0]);
    }
    assert(!starts_with(module.take(k), seq!['/']));
    assert(c.drop_first() =~= module);
    assert(module.take(k).len() == k);
    assert(c.drop_first().take(k) =~= module.take(k));
}

/// A template without placeholders renders as itself.
pub proof fn lemma_template_without_placeholders(template: Seq<char>, replacements: Seq<(Seq<char>, Seq<char>)>)
    requires
        !crate::text::contains_text(template, seq!['@', '@']),
    ensures
        rendered(template, replacements) == Ok::<Seq<char>, (Seq<char>, Seq<char>)>(template),
{
    assert(split_text(template, seq!['@', '@']) =~= seq![template]);
    assert(seq![template].drop_first() =~= Seq::<Seq<char>>::empty());
    assert(template + Seq::<char>::empty() =~= template);
}

/// The candidate for a module listed by discovery: `.` for the workspace
/// root, `/MODULE` for any other module.
pub open spec fn module_candidate(module: Seq<char>) -> Seq<char> {
    if module == "."@ {
        module
    } else {
        seq!['/'] + module
    }
}

/// The candidates for the modules whose candidate matches `current`, in order.
pub open spec fn module_candidates_of(modules: Seq<Seq<char>>, current: Seq<char>) -> Seq<Seq<char>>
    decreases modules.len(),
{
    if modules.len() == 0 {
        Seq::empty()
    } else {
        let init = module_candidates_of(modules.drop_last(), current);
        let c = module_candidate(modules.last());
        if candidate_matches(c, current) {
            init.push(c)
        } else {
            init
        }
    }
}

/// The module candidates that complete `current`.
pub fn module_candidates(modules: &[String], current: &str) -> (r: Vec<String>)
    ensures
        views(r@) == module_candidates_of(views(modules@), current@),
{
    let mut r: Vec<String> = Vec::new();
    let ghost all = views(modules@);
    for i in 0..modules.len()
        invariant
            all == views(modules@),
            views(r@) == module_candidates_of(all.take(i as int), current@),
    {
        assert(all.take(i + 1).drop_last() =~= all.take(i as int));
        assert(all.take(i + 1).last() == modules@[i as int]@);
        let candidate = if crate::text::str_equal(modules[i].as_str(), ".") {
            modules[i].clone()
        } else {
            let mut c = "/".to_owned();
            append_str(&mut c, modules[i].as_str());
            proof {
                reveal_strlit("/");
            }
            assert(c@ =~= seq!['/'] + modules@[i as int]@);
            c
        };
        if module_candidate_matches(candidate.as_str(), current) {
            let ghost before = views(r@);
            r.push(candidate);
            assert(views(r@) =~= before.push(module_candidate(modules@[i as int]@)));
        }
    }
    assert(all.take(all.len() as int) =~= all);
    r
}

/// The candidates `MODULE:ENV` for the environments that start with `prefix`.
pub open spec fn environment_candidates_of(
    module: Seq<char>,
    environments: Seq<Seq<char>>,
    prefix: Seq<char>,
) -> Seq<Seq<char>>
    decreases environments.len(),
{
    if environments.len() == 0 {
        Seq::empty()
    } else {
        let init = environment_candidates_of(module, environments.drop_last(), prefix);
        let e = environments.last();
        if starts_with(e, prefix) {
            init.push(module + seq![':'] + e)
        } else {
            init
        }
    }
}

/// `MODULE:ENV` is a candidate exactly when `ENV` is one of the environments
/// and starts with the typed prefix.
pub proof fn lemma_environment_candidate_members(
    module: Seq<char>,
    environments: Seq<Seq<char>>,
    prefix: Seq<char>,
    c: Seq<char>,
)
    ensures
        environment_candidates_of(module, environments, prefix).contains(c) <==> exists|i: int|
            0 <= i < environments.len() && prefix.len() <= environments[i].len()
                && environments[i].take(prefix.len() as int) == prefix && c == module + seq![':']
                + #[trigger] environments[i],
    decreases environments.len(),
{
    if environments.len() > 0 {
        let init = environments.drop_last();
        let last = environments.len() - 1;
        lemma_environment_candidate_members(module, init, prefix, c);
        let found = environment_candidates_of(module, environments, prefix);
        let before = environment_candidates_of(module, init, prefix);
        if exists|i: int|
            0 <= i < init.len() && prefix.len() <= init[i].len() && init[i].take(prefix.len() as int)
                == prefix && c == module + seq![':'] + #[trigger] init[i] {
            let i = choose|i: int|
                0 <= i < init.len() && prefix.len() <= init[i].len() && init[i].take(
                    prefix.len() as int,
                ) == prefix && c == module + seq![':'] + #[trigger] init[i];
            assert(environments[i] == init[i]);
            let j = choose|j: int| 0 <= j < before.len() && before[j] == c;
            if starts_with(environments.last(), prefix) {
                assert(found[j] == c);
            }
        }
        if found.contains(c) && !before.contains(c) {
            assert(environments[last] == environments.last());
        }
        if exists|i: int|
            0 <= i < environments.len() && prefix.len() <= environments[i].len()
                && environments[i].take(prefix.len() as int) == prefix && c == module + seq![':']
                + #[trigger] environments[i] {
            let i = choose|i: int|
                0 <= i < environments.len() && prefix.len() <= environments[i].len()
                    && environments[i].take(prefix.len() as int) == prefix && c == module + seq![
                    ':',
                ] + #[trigger] environments[i];
            if i < last {
                assert(init[i] == environments[i]);
            } else {
                assert(found[found.len() - 1] == c);
            }
        }
    }
}

/// With nothing typed after the colon, every environment is offered, in the
/// order given.
pub proof fn lemma_empty_prefix_offers_all(module: Seq<char>, environments: Seq<Seq<char>>)
    ensures
        environment_candidates_of(module, environments, Seq::empty()) == environments.map_values(
            |e: Seq<char>| module + seq![':'] + e,
        ),
    decreases environments.len(),
{
    if environments.len() > 0 {
        lemma_empty_prefix_offers_all(module, environments.drop_last());
        assert(environments.last().take(0) =~= Seq::<char>::empty());
        assert(environments.map_values(|e: Seq<char>| module + seq![':'] + e) =~= environments.drop_last().map_values(
            |e: Seq<char>| module + seq![':'] + e,
        ).push(module + seq![':'] + environments.last()));
    } else {
        assert(environments.map_values(|e: Seq<char>| module + seq![':'] + e) =~= Seq::<
            Seq<char>,
        >::empty());
    }
}

/// The candidates `MODULE:ENV` for the environments that start with
/// `prefix`, in order.
pub fn environment_candidates(module: &str, environments: &[String], prefix: &str) -> (r: Vec<String>)
    ensures
        is_sorted_permutation(
            views(r@),
            environment_candidates_of(module@, views(environments@), prefix@),
        ),
{
    let mut found: Vec<String> = Vec::new();
    let ghost all = views(environments@);
    let p = chars_of(prefix);
    for i in 0..environments.len()
        invariant
            all == views(environments@),
            p@ == prefix@,
            views(found@) == environment_candidates_of(module@, all.take(i as int), prefix@),
    {
        assert(all.take(i + 1).drop_last() =~= all.take(i as int));
        assert(all.take(i + 1).last() == environments@[i as int]@);
        let e = chars_of(environments[i].as_str());
        if has_prefix(e.as_slice(), p.as_slice()) {
            let mut c = module.to_owned();
            crate::text::push_char(&mut c, ':');
            append_str(&mut c, environments[i].as_str());
            let ghost before = views(found@);
            assert(c@ =~= module@ + seq![':'] + environments@[i as int]@);
            found.push(c);
            assert(views(found@) =~= before.push(module@ + seq![':'] + environments@[i as int]@));
        }
    }
    assert(all.take(all.len() as int) =~= all);
    sort_strings(found)
}

/// The first replacement value for `key`.
pub open spec fn lookup(replacements: Seq<(Seq<char>, Seq<char>)>, key: Seq<char>) -> Option<
    Seq<char>,
>
    decreases replacements.len(),
{
    if replacements.len() == 0 {
        None
    } else if replacements[0].0 == key {
        Some(replacements[0].1)
    } else {
        lookup(replacements.drop_first(), key)
    }
}

/// The rendering of the pieces after the first: keys and the text after
/// each, each key replaced by its value. On the first unknown key, `Err`
/// with the text rendered before it and the key.
pub open spec fn render_pieces(pieces: Seq<Seq<char>>, replacements: Seq<(Seq<char>, Seq<char>)>) -> Result<
    Seq<char>,
    (Seq<char>, Seq<char>),
>
    decreases pieces.len(),
{
    if pieces.len() == 0 {
        Ok(Seq::empty())
    } else {
        match lookup(replacements, pieces[0]) {
            None => Err((Seq::empty(), pieces[0])),
            Some(value) => if pieces.len() == 1 {
                Ok(value)
            } else {
                match render_pieces(pieces.skip(2), replacements) {
                    Ok(rest) => Ok(value + pieces[1] + rest),
                    Err((written, key)) => Err((value + pieces[1] + written, key)),
                }
            },
        }
    }
}

/// The template with each `@@KEY@@` replaced by the value of `KEY`. On the
/// first key that has no value, `Err` with the text rendered before it and
/// the key.
pub open spec fn rendered(template: Seq<char>, replacements: Seq<(Seq<char>, Seq<char>)>) -> Result<
    Seq<char>,
    (Seq<char>, Seq<char>),
> {
    let pieces = split_text(template, seq!['@', '@']);
    match render_pieces(pieces.drop_first(), replacements) {
        Ok(rest) => Ok(pieces[0] + rest),
        Err((written, key)) => Err((pieces[0] + written, key)),
    }
}

/// A template key that has no value, and the text rendered before it.
#[derive(Debug, Clone)]
pub struct TemplateError {
    pub key: String,
    /// The text before the unknown key, which a writer has already written.
    pub written: String,
}

impl TemplateError {
    /// The text of the error.
    pub fn message(&self) -> (r: String)
        ensures
            r@ == "Unknown template key '"@ + self.key@ + "'"@,
    {
        let mut m = "Unknown template key '".to_owned();
        append_str(&mut m, self.key.as_str());
        append_str(&mut m, "'");
        m
    }
}

/// The views of replacement pairs.
pub open spec fn pair_views(r: Seq<(&str, &str)>) -> Seq<(Seq<char>, Seq<char>)> {
    r.map_values(|p: (&str, &str)| (p.0@, p.1@))
}

/// The value of `key`.
fn find_value<'a>(replacements: &[(&'a str, &'a str)], key: &[char]) -> (r: Option<&'a str>)
    ensures
        match lookup(pair_views(replacements@), key@) {
            Some(v) => r matches Some(s) && s@ == v,
            None => r is None,
        },
{
    let ghost all = pair_views(replacements@);
    let mut i: usize = 0;
    assert(all.skip(0) =~= all);
    while i < replacements.len()
        invariant
            i <= replacements.len(),
            all == pair_views(replacements@),
            lookup(all, key@) == lookup(all.skip(i as int), key@),
        decreases replacements.len() - i,
    {
        let (candidate, value) = replacements[i];
        assert(all.skip(i as int)[0] == (candidate@, value@));
        if chars_equal(chars_of(candidate).as_slice(), key) {
            return Some(value);
        }
        assert(all.skip(i as int).drop_first() =~= all.skip(i + 1));
        i = i + 1;
    }
    None
}

/// `done` followed by a rendering, or the error of the rendering.
pub open spec fn after(done: Seq<char>, r: Result<Seq<char>, (Seq<char>, Seq<char>)>) -> Result<
    Seq<char>,
    (Seq<char>, Seq<char>),
> {
    match r {
        Ok(t) => Ok(done + t),
        Err((written, k)) => Err((done + written, k)),
    }
}

/// Renders `template`, replacing each `@@KEY@@` by the value of `KEY`; on
/// an unknown key, the error holds the key and the text before it.
pub fn write_template(template: &str, replacements: &[(&str, &str)]) -> (r: Result<String, TemplateError>)
    ensures
        match rendered(template@, pair_views(replacements@)) {
            Ok(text) => r matches Ok(s) && s@ == text,
            Err((written, key)) => r matches Err(e) && e.key@ == key && e.written@ == written,
        },
{
    let marker: Vec<char> = vec!['@', '@'];
    assert(marker@ =~= seq!['@', '@']);
    let pieces = split_on(chars_of(template).as_slice(), marker.as_slice());
    let ghost ps = char_views(pieces@);
    let ghost repl = pair_views(replacements@);
    proof {
        lemma_split_text_nonempty(template@, seq!['@', '@']);
    }
    let ghost rest = ps.drop_first();
    let mut out = string_of(pieces[0].as_slice());
    let ghost mut done: Seq<char> = Seq::empty();
    let n = pieces.len() - 1;
    let mut j: usize = 0;
    assert(rest.skip(0) =~= rest);
    assert(out@ =~= ps[0] + done);
    while j < n
        invariant
            j <= n,
            n + 1 == pieces.len(),
            ps == char_views(pieces@),
            ps == split_text(template@, seq!['@', '@']),
            repl == pair_views(replacements@),
            ps.len() >= 1,
            rest == ps.drop_first(),
            out@ == ps[0] + done,
            render_pieces(rest, repl) == after(done, render_pieces(rest.skip(j as int), repl)),
        decreases n - j,
    {
        let key = &pieces[j + 1];
        assert(key@ == rest[j as int]);
        assert(rest.skip(j as int)[0] == rest[j as int]);
        match find_value(replacements, key.as_slice()) {
            None => {
                assert(render_pieces(rest.skip(j as int), repl) == Err::<
                    Seq<char>,
                    (Seq<char>, Seq<char>),
                >((Seq::empty(), key@)));
                assert(done + Seq::<char>::empty() =~= done);
                assert(ps[0] + done =~= out@);
                return Err(TemplateError { key: string_of(key.as_slice()), written: out });
            },
            Some(value) => {
                append_str(&mut out, value);
                if j + 1 < n {
                    append_chars(&mut out, pieces[j + 2].as_slice());
                    assert(rest.skip(j as int)[1] == rest[j + 1]);
                    assert(rest.skip(j as int).skip(2) =~= rest.skip(j + 2));
                    proof {
                        let old_done = done;
                        done = done + value@ + rest[j + 1];
                        assert(out@ =~= ps[0] + done);
                        match render_pieces(rest.skip(j + 2), repl) {
                            Ok(t) => {
                                assert(old_done + (value@ + rest[j + 1] + t) =~= done + t);
                            },
                            Err((w, _)) => {
                                assert(old_done + (value@ + rest[j + 1] + w) =~= done + w);
                            },
                        }
                    }
                    j = j + 2;
                } else {
                    proof {
                        done = done + value@;
                        assert(out@ =~= ps[0] + done);
                        assert(rest.skip(j + 1) =~= Seq::<Seq<char>>::empty());
                    }
                    j = j + 1;
                }
            },
        }
    }
    assert(rest.skip(n as int) =~= Seq::<Seq<char>>::empty());
    assert(done + Seq::<char>::empty() =~= done);
    Ok(out)
}

/// The Zsh registration script for the completer `completer` of the
/// program `bin` named `name`, with the environment variable `var`.
pub open spec fn zsh_registration_text(
    var: Seq<char>,
    name: Seq<char>,
    bin: Seq<char>,
    completer: Seq<char>,
) -> Result<Seq<char>, (Seq<char>, Seq<char>)> {
    match rendered(
        ZSH_REGISTRATION_TEMPLATE@,
        seq![
            ("BIN"@, shell_quoted(bin)),
            ("NAME"@, replace_char(name, '-', seq!['_'])),
            ("COMPLETER"@, shell_quoted(completer)),
            ("MODULE_MARKER"@, MODULE_MARKER@),
            ("VAR"@, var),
        ],
    ) {
        Ok(text) => Ok(text + seq!['\n']),
        Err(failure) => Err(failure),
    }
}

/// The Zsh registration script, ending with a line feed.
pub fn zsh_registration(var: &str, name: &str, bin: &str, completer: &str) -> (r: Result<
    String,
    TemplateError,
>)
    ensures
        match zsh_registration_text(var@, name@, bin@, completer@) {
            Ok(text) => r matches Ok(s) && s@ == text,
            Err((written, key)) => r matches Err(e) && e.key@ == key && e.written@ == written,
        },
{
    let underscore: Vec<char> = vec!['_'];
    assert(underscore@ =~= seq!['_']);
    let name = string_of(replace(chars_of(name).as_slice(), '-', underscore.as_slice()).as_slice());
    let bin = shell_quote(bin);
    let completer = shell_quote(completer);
    let replacements = [
        ("BIN", bin.as_str()),
        ("NAME", name.as_str()),
        ("COMPLETER", completer.as_str()),
        ("MODULE_MARKER", MODULE_MARKER),
        ("VAR", var),
    ];
    assert(pair_views(replacements@) =~= seq![
        ("BIN"@, bin@),
        ("NAME"@, name@),
        ("COMPLETER"@, completer@),
        ("MODULE_MARKER"@, MODULE_MARKER@),
        ("VAR"@, var@),
    ]);
    let mut script = write_template(ZSH_REGISTRATION_TEMPLATE, replacements.as_slice())?;
    crate::text::push_char(&mut script, '\n');
    Ok(script)
}

/// A completion candidate as the Zsh completer prints it.
#[derive(Debug, Clone)]
pub struct Candidate {
    pub value: String,
    /// Whether the candidate completes a module.
    pub module: bool,
    pub help: Option<String>,
}

/// The first line of a text, or nothing when it has none.
pub open spec fn first_line(text: Seq<char>) -> Seq<char> {
    if lines_of(text).len() > 0 {
        lines_of(text)[0]
    } else {
        Seq::empty()
    }
}

/// How a candidate is printed: a module after the module marker and a tab,
/// anything else escaped, with the first line of its help after `:`.
pub open spec fn candidate_line(value: Seq<char>, module: bool, help: Option<Seq<char>>) -> Seq<char> {
    if module {
        MODULE_MARKER@ + seq!['\t'] + value
    } else {
        zsh_escaped(value) + match help {
            Some(h) => seq![':'] + replace_char(first_line(h), '\\', seq!['\\', '\\']),
            None => Seq::empty(),
        }
    }
}

/// The lines of the candidates.
pub open spec fn candidate_lines(candidates: Seq<Candidate>) -> Seq<Seq<char>> {
    candidates.map_values(
        |c: Candidate|
            candidate_line(
                c.value@,
                c.module,
                match c.help {
                    Some(h) => Some(h@),
                    None => None,
                },
            ),
    )
}

/// How a candidate is printed.
fn candidate_text(c: &Candidate) -> (r: String)
    ensures
        r@ == candidate_line(
            c.value@,
            c.module,
            match c.help {
                Some(h) => Some(h@),
                None => None,
            },
        ),
{
    if c.module {
        let mut r = MODULE_MARKER.to_owned();
        crate::text::push_char(&mut r, '\t');
        append_str(&mut r, c.value.as_str());
        return r;
    }
    let mut r = escape_zsh_value(c.value.as_str());
    if let Some(help) = &c.help {
        let hl = lines(chars_of(help.as_str()).as_slice());
        let first: Vec<char> = if hl.len() > 0 {
            slice_from(hl[0].as_slice(), 0)
        } else {
            Vec::new()
        };
        assert(hl.len() > 0 ==> hl@[0]@ == lines_of(help@)[0]);
        assert(first@ =~= first_line(help@));
        let doubled: Vec<char> = vec!['\\', '\\'];
        assert(doubled@ =~= seq!['\\', '\\']);
        let escaped = replace(first.as_slice(), '\\', doubled.as_slice());
        crate::text::push_char(&mut r, ':');
        append_chars(&mut r, escaped.as_slice());
    }
    r
}

/// What the Zsh completer prints: the candidates' lines separated by `separator`.
pub fn zsh_completions(candidates: &[Candidate], separator: &str) -> (r: String)
    ensures
        r@ == join(candidate_lines(candidates@), separator@),
{
    let mut texts: Vec<String> = Vec::new();
    for i in 0..candidates.len()
        invariant
            views(texts@) == candidate_lines(candidates@.take(i as int)),
    {
        let ghost before = views(texts@);
        let t = candidate_text(&candidates[i]);
        texts.push(t);
        assert(views(texts@) =~= before.push(candidate_lines(candidates@)[i as int]));
        assert(candidate_lines(candidates@.take(i + 1)) =~= candidate_lines(candidates@.take(i as int)).push(
            candidate_lines(candidates@)[i as int],
        ));
    }
    assert(candidates@.take(candidates@.len() as int) =~= candidates@);
    join_strings(texts.as_slice(), separator)
}

/// Splitting always yields at least one piece.
pub proof fn lemma_split_text_nonempty(s: Seq<char>, p: Seq<char>)
    ensures
        split_text(s, p).len() >= 1,
    decreases s.len(),
{
}

} // verus!
