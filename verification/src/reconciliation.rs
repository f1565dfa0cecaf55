//! Reconciling environments that were removed from a module: which
//! generated environments still hold state, and which providers that state
//! needs so that OpenTofu can plan its removal.

use crate::cli::{valid_env, validate_env};
use crate::text::{
    chars_equal, chars_less, chars_of, char_views, contains_text, find_text, has_prefix,
    lemma_text_lt_total, lemma_text_lt_transitive, slice_from, slice_range, split_by, split_char,
    split_once, starts_with, string_of, strip_prefix, text_lt, views,
};
use vstd::prelude::*;

verus! {

/// A resource of a pulled state, by the address of its provider configuration.
#[derive(Debug, Clone)]
pub struct StateResource {
    pub provider: String,
}

/// A provider that a historical environment's state still needs.
#[derive(Debug, Clone)]
pub struct HistoricalProvider {
    pub source: String,
    pub alias: String,
}

impl View for HistoricalProvider {
    type V = (Seq<char>, Seq<char>);

    open spec fn view(&self) -> (Seq<char>, Seq<char>) {
        (self.source@, self.alias@)
    }
}

impl PartialEq for HistoricalProvider {
    fn eq(&self, other: &Self) -> (r: bool) {
        self.source == other.source && self.alias == other.alias
    }
}

impl vstd::std_specs::cmp::PartialEqSpecImpl for HistoricalProvider {
    open spec fn obeys_eq_spec() -> bool {
        true
    }

    open spec fn eq_spec(&self, other: &Self) -> bool {
        self@ == other@
    }
}

impl Eq for HistoricalProvider {

}

/// Why a provider address of a state is not accepted.
#[derive(Debug, Clone, Copy, PartialEq, Eq, Structural)]
pub enum ProviderError {
    /// The provider is configured inside a child module.
    ModuleScoped,
    /// The address is not `provider["SOURCE"]` with an optional alias.
    InvalidAddress,
    /// The source is not `[HOST/]NAMESPACE/TYPE`.
    InvalidSource,
    /// The alias is empty or holds `.`, `[`, `]` or `"`.
    InvalidAlias,
}

impl ProviderError {
    /// The text of the error.
    pub fn message(&self) -> (r: String)
        ensures
            r@ == match self {
                ProviderError::ModuleScoped => "OpenTofu state contains an unsupported module-scoped provider configuration"@,
                ProviderError::InvalidAddress => "OpenTofu returned invalid provider address"@,
                ProviderError::InvalidSource => "OpenTofu returned invalid provider source"@,
                ProviderError::InvalidAlias => "OpenTofu returned invalid provider alias"@,
            },
    {
        match self {
            ProviderError::ModuleScoped => "OpenTofu state contains an unsupported module-scoped provider configuration".to_owned(),
            ProviderError::InvalidAddress => "OpenTofu returned invalid provider address".to_owned(),
            ProviderError::InvalidSource => "OpenTofu returned invalid provider source".to_owned(),
            ProviderError::InvalidAlias => "OpenTofu returned invalid provider alias".to_owned(),
        }
    }
}

/// The source without the host of the OpenTofu or Terraform registry.
pub open spec fn without_registry(source: Seq<char>) -> Seq<char> {
    match strip_prefix(source, "registry.opentofu.org/"@) {
        Some(s) => s,
        None => match strip_prefix(source, "registry.terraform.io/"@) {
            Some(s) => s,
            None => source,
        },
    }
}

/// Whether `source` names a provider: the built-in `terraform` provider, or
/// two or three non-empty parts separated by `/`.
pub open spec fn valid_source(source: Seq<char>) -> bool {
    ||| source == "terraform.io/builtin/terraform"@
    ||| {
        let parts = split_char(source, '/');
        &&& (parts.len() == 2 || parts.len() == 3)
        &&& forall|i: int| 0 <= i < parts.len() ==> #[trigger] parts[i].len() > 0
    }
}

/// Whether `c` may appear in a provider alias.
pub open spec fn alias_char(c: char) -> bool {
    c != '.' && c != '[' && c != ']' && c != '"'
}

/// The alias that follows the source: none when the suffix is empty,
/// otherwise `.ALIAS` with a non-empty alias of accepted characters.
pub open spec fn alias_of(suffix: Seq<char>) -> Option<Seq<char>> {
    if suffix.len() == 0 {
        Some(Seq::empty())
    } else if suffix[0] == '.' && suffix.len() > 1 && forall|i: int|
        1 <= i < suffix.len() ==> alias_char(#[trigger] suffix[i]) {
        Some(suffix.drop_first())
    } else {
        None
    }
}

/// The source and alias that a provider configuration address names.
pub open spec fn provider_of(address: Seq<char>) -> Result<(Seq<char>, Seq<char>), ProviderError> {
    if starts_with(address, "module."@) {
        Err(ProviderError::ModuleScoped)
    } else {
        match strip_prefix(address, "provider[\""@) {
            None => Err(ProviderError::InvalidAddress),
            Some(rest) => match split_once(rest, "\"]"@) {
                None => Err(ProviderError::InvalidAddress),
                Some((raw, suffix)) => {
                    let source = without_registry(raw);
                    if !valid_source(source) {
                        Err(ProviderError::InvalidSource)
                    } else {
                        match alias_of(suffix) {
                            None => Err(ProviderError::InvalidAlias),
                            Some(alias) => Ok((source, alias)),
                        }
                    }
                },
            },
        }
    }
}

/// The address of a provider configuration: `provider["SOURCE"]`, followed
/// by `.ALIAS` when the alias is not empty.
pub open spec fn provider_address(source: Seq<char>, alias: Seq<char>) -> Seq<char> {
    "provider[\""@ + source + "\"]"@ + if alias.len() == 0 {
        Seq::empty()
    } else {
        seq!['.'] + alias
    }
}

/// Reading the address of a provider configuration gives back its source
/// and alias, for every source that names a provider, holds no `"` and does
/// not start with a registry host, and every alias of accepted characters.
pub proof fn lemma_provider_address_round_trip(source: Seq<char>, alias: Seq<char>)
    requires
        valid_source(source),
        without_registry(source) == source,
        forall|i: int| 0 <= i < source.len() ==> #[trigger] source[i] != '"',
        forall|i: int| 0 <= i < alias.len() ==> alias_char(#[trigger] alias[i]),
    ensures
        provider_of(provider_address(source, alias)) == Ok::<(Seq<char>, Seq<char>), ProviderError>(
            (source, alias),
        ),
{
    lemma_provider_address_reads(source, alias);
}

/// What the address of a provider configuration reads as, for a written
/// source that holds no `"` and an alias of accepted characters: the source
/// without its registry host when that names a provider.
proof fn lemma_provider_address_reads(raw: Seq<char>, alias: Seq<char>)
    requires
        forall|i: int| 0 <= i < raw.len() ==> #[trigger] raw[i] != '"',
        forall|i: int| 0 <= i < alias.len() ==> alias_char(#[trigger] alias[i]),
    ensures
        provider_of(provider_address(raw, alias)) == if valid_source(without_registry(raw)) {
            Ok::<(Seq<char>, Seq<char>), ProviderError>((without_registry(raw), alias))
        } else {
            Err(ProviderError::InvalidSource)
        },
{
    reveal_strlit("provider[\"");
    reveal_strlit("\"]");
    reveal_strlit("module.");
    let open = "provider[\""@;
    let close = "\"]"@;
    let suffix = if alias.len() == 0 {
        Seq::empty()
    } else {
        seq!['.'] + alias
    };
    let address = provider_address(raw, alias);
    let rest = raw + close + suffix;
    assert(address =~= open + rest);
    assert(address[0] == 'p');
    assert(!starts_with(address, "module."@)) by {
        if starts_with(address, "module."@) {
            assert(address.take(7)[0] == 'm');
        }
    }
    assert(address.take(open.len() as int) =~= open);
    assert(address.skip(open.len() as int) =~= rest);
    let k = raw.len() as int;
    assert(rest.subrange(k, k + 2) =~= close);
    assert forall|j: int| 0 <= j < k implies !crate::text::occurs_at(rest, close, j) by {
        if crate::text::occurs_at(rest, close, j) {
            assert(rest.subrange(j, j + 2)[0] == rest[j]);
            assert(rest[j] == raw[j]);
        }
    }
    crate::text::lemma_find_from_first(rest, close, 0, k);
    assert(rest.take(k) =~= raw);
    assert(rest.skip(k + 2) =~= suffix);
    if alias.len() > 0 {
        assert(suffix.drop_first() =~= alias);
        assert forall|i: int| 1 <= i < suffix.len() implies alias_char(#[trigger] suffix[i]) by {
            assert(suffix[i] == alias[i - 1]);
        }
    } else {
        assert(alias =~= Seq::<char>::empty());
    }
    assert(strip_prefix(address, open) == Some(rest));
    assert(split_once(rest, close) == Some((raw, suffix)));
    assert(alias_of(suffix) == Some(alias));
}

/// The address that OpenTofu writes for a provider of a registry,
/// `provider["HOST/NAMESPACE/TYPE"]` followed by `.ALIAS` when there is an
/// alias, reads as the source `NAMESPACE/TYPE` without the registry host,
/// and the alias as written; `_` and every other character but `.`, `[`,
/// `]` and `"` may stand in the alias.
pub proof fn lemma_registry_provider_address(
    host: Seq<char>,
    namespace: Seq<char>,
    name: Seq<char>,
    alias: Seq<char>,
)
    requires
        host == "registry.opentofu.org/"@ || host == "registry.terraform.io/"@,
        namespace.len() > 0,
        name.len() > 0,
        forall|i: int|
            0 <= i < namespace.len() ==> #[trigger] namespace[i] != '/' && namespace[i] != '"',
        forall|i: int| 0 <= i < name.len() ==> #[trigger] name[i] != '/' && name[i] != '"',
        forall|i: int|
            0 <= i < alias.len() ==> #[trigger] alias[i] != '.' && alias[i] != '[' && alias[i] != ']'
                && alias[i] != '"',
    ensures
        provider_of(provider_address(host + namespace + seq!['/'] + name, alias)) == Ok::<
            (Seq<char>, Seq<char>),
            ProviderError,
        >((namespace + seq!['/'] + name, alias)),
{
    reveal_strlit("registry.opentofu.org/");
    reveal_strlit("registry.terraform.io/");
    let source = namespace + seq!['/'] + name;
    let raw = host + source;
    assert(raw =~= host + namespace + seq!['/'] + name);
    assert forall|i: int| 0 <= i < alias.len() implies alias_char(#[trigger] alias[i]) by {}
    assert forall|i: int| 0 <= i < raw.len() implies #[trigger] raw[i] != '"' by {
        if i < host.len() {
            assert(raw[i] == host[i]);
        } else if i < host.len() + namespace.len() {
            assert(raw[i] == namespace[i - host.len()]);
        } else if i > host.len() + namespace.len() {
            assert(raw[i] == name[i - host.len() - namespace.len() - 1]);
        }
    }
    assert(raw.take(host.len() as int) =~= host);
    assert(raw.skip(host.len() as int) =~= source);
    if host == "registry.terraform.io/"@ {
        assert(!starts_with(raw, "registry.opentofu.org/"@)) by {
            assert(raw.take(22)[9] != "registry.opentofu.org/"@[9]);
        }
    }
    assert(without_registry(raw) == source);
    crate::text::lemma_split_char_single(namespace, '/');
    crate::text::lemma_split_char_single(name, '/');
    crate::text::lemma_split_char_concat(namespace, '/', name);
    assert(split_char(source, '/') =~= seq![namespace, name]);
    assert(valid_source(source));
    lemma_provider_address_reads(raw, alias);
}

/// A source of two or three non-empty parts separated by `/` names a
/// provider; a single part, or four, does not.
pub proof fn lemma_source_parts(a: Seq<char>, b: Seq<char>, c: Seq<char>, d: Seq<char>)
    requires
        a.len() > 0,
        b.len() > 0,
        c.len() > 0,
        d.len() > 0,
        forall|i: int| 0 <= i < a.len() ==> #[trigger] a[i] != '/',
        forall|i: int| 0 <= i < b.len() ==> #[trigger] b[i] != '/',
        forall|i: int| 0 <= i < c.len() ==> #[trigger] c[i] != '/',
        forall|i: int| 0 <= i < d.len() ==> #[trigger] d[i] != '/',
    ensures
        valid_source(a + seq!['/'] + b),
        valid_source(a + seq!['/'] + b + seq!['/'] + c),
        !valid_source(a),
        !valid_source(a + seq!['/'] + b + seq!['/'] + c + seq!['/'] + d),
{
    reveal_strlit("terraform.io/builtin/terraform");
    let builtin = "terraform.io/builtin/terraform"@;
    crate::text::lemma_split_char_single(a, '/');
    crate::text::lemma_split_char_single(b, '/');
    crate::text::lemma_split_char_single(c, '/');
    crate::text::lemma_split_char_single(d, '/');
    crate::text::lemma_split_char_concat(a, '/', b);
    let ab = a + seq!['/'] + b;
    assert(split_char(ab, '/') =~= seq![a, b]);
    crate::text::lemma_split_char_concat(ab, '/', c);
    let abc = ab + seq!['/'] + c;
    assert(split_char(abc, '/') =~= seq![a, b, c]);
    crate::text::lemma_split_char_concat(abc, '/', d);
    let abcd = abc + seq!['/'] + d;
    assert(split_char(abcd, '/') =~= seq![a, b, c, d]);
    assert(builtin[12] == '/');
    assert(a != builtin);
    let p1 = "terraform.io"@;
    let p2 = "builtin"@;
    let p3 = "terraform"@;
    reveal_strlit("terraform.io");
    reveal_strlit("builtin");
    reveal_strlit("terraform");
    assert(builtin =~= p1 + seq!['/'] + p2 + seq!['/'] + p3);
    assert forall|i: int| 0 <= i < p1.len() implies #[trigger] p1[i] != '/' by {}
    assert forall|i: int| 0 <= i < p2.len() implies #[trigger] p2[i] != '/' by {}
    assert forall|i: int| 0 <= i < p3.len() implies #[trigger] p3[i] != '/' by {}
    crate::text::lemma_split_char_single(p1, '/');
    crate::text::lemma_split_char_single(p2, '/');
    crate::text::lemma_split_char_single(p3, '/');
    crate::text::lemma_split_char_concat(p1, '/', p2);
    crate::text::lemma_split_char_concat(p1 + seq!['/'] + p2, '/', p3);
    assert(split_char(builtin, '/').len() == 3);
    assert(abcd != builtin);
}

/// A suffix `.ALIAS` is refused only when the alias is empty or holds `.`,
/// `[`, `]` or `"`; any other alias, `_` and every other character
/// included, is accepted and returned as it is.
pub proof fn lemma_alias_suffix(alias: Seq<char>)
    ensures
        alias_of(seq!['.'] + alias) == if alias.len() > 0 && forall|i: int|
            0 <= i < alias.len() ==> #[trigger] alias[i] != '.' && alias[i] != '[' && alias[i] != ']'
                && alias[i] != '"' {
            Some(alias)
        } else {
            None::<Seq<char>>
        },
{
    let suffix = seq!['.'] + alias;
    assert(suffix.drop_first() =~= alias);
    if alias.len() > 0 {
        if forall|i: int|
            0 <= i < alias.len() ==> #[trigger] alias[i] != '.' && alias[i] != '[' && alias[i] != ']'
                && alias[i] != '"' {
            assert forall|i: int| 1 <= i < suffix.len() implies alias_char(#[trigger] suffix[i]) by {
                assert(suffix[i] == alias[i - 1]);
            }
        } else {
            let i = choose|i: int|
                !(0 <= i < alias.len() ==> #[trigger] alias[i] != '.' && alias[i] != '[' && alias[i]
                    != ']' && alias[i] != '"');
            assert(suffix[i + 1] == alias[i]);
            assert(!alias_char(suffix[i + 1]));
        }
    }
}

/// `s` without the prefix `p` when it has it, `s` otherwise.
fn strip_or_keep(s: Vec<char>, p: &str) -> (r: (Vec<char>, bool))
    ensures
        match strip_prefix(s@, p@) {
            Some(t) => r.1 && r.0@ == t,
            None => !r.1 && r.0@ == s@,
        },
{
    let pc = chars_of(p);
    if has_prefix(s.as_slice(), pc.as_slice()) {
        (slice_from(s.as_slice(), pc.len()), true)
    } else {
        (s, false)
    }
}

/// Whether `source` names a provider.
fn source_is_valid(source: &[char]) -> (r: bool)
    ensures
        r == valid_source(source@),
{
    let builtin = chars_of("terraform.io/builtin/terraform");
    if chars_equal(source, builtin.as_slice()) {
        return true;
    }
    let parts = split_by(source, '/');
    let ghost pv = split_char(source@, '/');
    if parts.len() != 2 && parts.len() != 3 {
        return false;
    }
    let mut i: usize = 0;
    while i < parts.len()
        invariant
            i <= parts.len(),
            char_views(parts@) == pv,
            pv == split_char(source@, '/'),
            pv.len() == 2 || pv.len() == 3,
            source@ != "terraform.io/builtin/terraform"@,
            forall|k: int| 0 <= k < i ==> #[trigger] pv[k].len() > 0,
        decreases parts.len() - i,
    {
        assert(pv[i as int] == parts@[i as int]@);
        if parts[i].len() == 0 {
            assert(pv[i as int].len() == 0);
            return false;
        }
        i = i + 1;
    }
    true
}

/// The alias in `suffix`, as `alias_of` describes it.
fn alias_in(suffix: &[char]) -> (r: Option<Vec<char>>)
    ensures
        match alias_of(suffix@) {
            Some(a) => r matches Some(v) && v@ == a,
            None => r is None,
        },
{
    if suffix.len() == 0 {
        return Some(Vec::new());
    }
    if suffix[0] != '.' || suffix.len() == 1 {
        return None;
    }
    let mut i: usize = 1;
    while i < suffix.len()
        invariant
            1 <= i <= suffix.len(),
            forall|k: int| 1 <= k < i ==> alias_char(#[trigger] suffix@[k]),
        decreases suffix.len() - i,
    {
        let c = suffix[i];
        if c == '.' || c == '[' || c == ']' || c == '"' {
            assert(!alias_char(suffix@[i as int]));
            return None;
        }
        i = i + 1;
    }
    let alias = slice_from(suffix, 1);
    assert(alias@ =~= suffix@.drop_first());
    Some(alias)
}

/// The provider that the configuration address of a state resource names.
pub fn historical_provider(resource: &StateResource) -> (r: Result<HistoricalProvider, ProviderError>)
    ensures
        match provider_of(resource.provider@) {
            Ok(p) => r matches Ok(h) && h@ == p,
            Err(e) => r == Err::<HistoricalProvider, ProviderError>(e),
        },
{
    let address = chars_of(resource.provider.as_str());
    let module = chars_of("module.");
    if has_prefix(address.as_slice(), module.as_slice()) {
        return Err(ProviderError::ModuleScoped);
    }
    let (rest, found) = strip_or_keep(address, "provider[\"");
    if !found {
        return Err(ProviderError::InvalidAddress);
    }
    let close = chars_of("\"]");
    let k = match find_text(rest.as_slice(), close.as_slice(), 0) {
        Some(k) => k,
        None => return Err(ProviderError::InvalidAddress),
    };
    let raw = slice_range(rest.as_slice(), 0, k);
    let suffix = slice_from(rest.as_slice(), k + close.len());
    assert(raw@ =~= rest@.take(k as int));
    let (source, stripped) = strip_or_keep(raw, "registry.opentofu.org/");
    let source = if stripped {
        source
    } else {
        strip_or_keep(source, "registry.terraform.io/").0
    };
    if !source_is_valid(source.as_slice()) {
        return Err(ProviderError::InvalidSource);
    }
    match alias_in(suffix.as_slice()) {
        Some(alias) => Ok(
            HistoricalProvider {
                source: string_of(source.as_slice()),
                alias: string_of(alias.as_slice()),
            },
        ),
        None => Err(ProviderError::InvalidAlias),
    }
}

/// Whether the output of a failed `state pull` says that there is no state.
pub fn state_missing(stderr: &str) -> (r: bool)
    ensures
        r == contains_text(stderr@, "No state file was found"@),
{
    crate::text::contains(stderr, "No state file was found")
}

/// The order of providers: by source, then by alias.
pub open spec fn provider_lt(a: (Seq<char>, Seq<char>), b: (Seq<char>, Seq<char>)) -> bool {
    text_lt(a.0, b.0) || (a.0 == b.0 && text_lt(a.1, b.1))
}

proof fn lemma_provider_lt_total(a: (Seq<char>, Seq<char>), b: (Seq<char>, Seq<char>))
    ensures
        a != b ==> provider_lt(a, b) || provider_lt(b, a),
        !(provider_lt(a, b) && provider_lt(b, a)),
{
    lemma_text_lt_total(a.0, b.0);
    lemma_text_lt_total(a.1, b.1);
}

proof fn lemma_provider_lt_transitive(
    a: (Seq<char>, Seq<char>),
    b: (Seq<char>, Seq<char>),
    c: (Seq<char>, Seq<char>),
)
    requires
        provider_lt(a, b),
        provider_lt(b, c),
    ensures
        provider_lt(a, c),
{
    if text_lt(a.0, b.0) && text_lt(b.0, c.0) {
        lemma_text_lt_transitive(a.0, b.0, c.0);
    } else if a.0 == b.0 && b.0 == c.0 {
        lemma_text_lt_transitive(a.1, b.1, c.1);
    }
}

/// The views of a sequence of providers.
pub open spec fn provider_views(v: Seq<HistoricalProvider>) -> Seq<(Seq<char>, Seq<char>)> {
    v.map_values(|p: HistoricalProvider| p@)
}

/// Strictly ascending providers: an ordered set.
pub open spec fn providers_ordered(s: Seq<(Seq<char>, Seq<char>)>) -> bool {
    forall|i: int, j: int| 0 <= i < j < s.len() ==> provider_lt(#[trigger] s[i], #[trigger] s[j])
}

/// Whether `a` precedes `b`.
fn provider_less(a: &HistoricalProvider, b: &HistoricalProvider) -> (r: bool)
    ensures
        r == provider_lt(a@, b@),
{
    let a_source = chars_of(a.source.as_str());
    let b_source = chars_of(b.source.as_str());
    if chars_less(a_source.as_slice(), b_source.as_slice()) {
        return true;
    }
    if !chars_equal(a_source.as_slice(), b_source.as_slice()) {
        return false;
    }
    let a_alias = chars_of(a.alias.as_str());
    let b_alias = chars_of(b.alias.as_str());
    chars_less(a_alias.as_slice(), b_alias.as_slice())
}

/// Adds `x` to the ordered set of providers `v`.
fn insert_provider(v: &mut Vec<HistoricalProvider>, x: HistoricalProvider)
    requires
        providers_ordered(provider_views(old(v)@)),
    ensures
        providers_ordered(provider_views(final(v)@)),
        provider_views(final(v)@).to_set() == provider_views(old(v)@).to_set().insert(x@),
{
    let mut p: usize = 0;
    while p < v.len() && provider_less(&v[p], &x)
        invariant
            p <= v.len(),
            providers_ordered(provider_views(v@)),
            forall|i: int| 0 <= i < p ==> provider_lt(#[trigger] provider_views(v@)[i], x@),
        decreases v.len() - p,
    {
        p = p + 1;
    }
    let ghost before = provider_views(v@);
    if p < v.len() {
        let present = !provider_less(&x, &v[p]);
        if present {
            proof {
                lemma_provider_lt_total(before[p as int], x@);
            }
            assert(before[p as int] == x@);
            assert(before.to_set().insert(x@) =~= before.to_set());
            return;
        } else {
            assert(provider_lt(x@, before[p as int]));
        }
    }
    proof {
        assert(provider_views(v@.insert(p as int, x)) =~= before.insert(p as int, x@));
        let s = before.insert(p as int, x@);
        assert forall|i: int, j: int| 0 <= i < j < s.len() implies provider_lt(
            #[trigger] s[i],
            #[trigger] s[j],
        ) by {
            if j < p {
            } else if j == p {
            } else if i < p {
                lemma_provider_lt_transitive(before[i], x@, before[p as int]);
                if j - 1 > p {
                    lemma_provider_lt_transitive(before[i], before[p as int], before[j - 1]);
                }
            } else if i == p {
                if j - 1 > p {
                    lemma_provider_lt_transitive(x@, before[p as int], before[j - 1]);
                }
            } else {
            }
        }
        assert forall|t: (Seq<char>, Seq<char>)| #[trigger] s.to_set().contains(t) <==> before.to_set().insert(
            x@,
        ).contains(t) by {
            if s.contains(t) {
                let k = choose|k: int| 0 <= k < s.len() && s[k] == t;
                if k < p {
                    assert(before[k] == t);
                } else if k > p {
                    assert(before[k - 1] == t);
                }
            }
            if before.contains(t) {
                let k = choose|k: int| 0 <= k < before.len() && before[k] == t;
                if k < p {
                    assert(s[k] == t);
                } else {
                    assert(s[k + 1] == t);
                }
            }
            if t == x@ {
                assert(s[p as int] == t);
            }
        }
        assert(s.to_set() =~= before.to_set().insert(x@));
    }
    v.insert(p, x);
}

/// The providers that the resources' addresses name, or the error of the
/// first address that is not accepted.
pub open spec fn providers_of(addresses: Seq<Seq<char>>) -> Result<
    Set<(Seq<char>, Seq<char>)>,
    ProviderError,
>
    decreases addresses.len(),
{
    if addresses.len() == 0 {
        Ok(Set::empty())
    } else {
        match providers_of(addresses.drop_last()) {
            Err(e) => Err(e),
            Ok(found) => match provider_of(addresses.last()) {
                Err(e) => Err(e),
                Ok(p) => Ok(found.insert(p)),
            },
        }
    }
}

/// Once an address is refused, every longer list of addresses is refused
/// with the same error.
proof fn lemma_providers_of_error_persists(s: Seq<Seq<char>>, i: int)
    requires
        0 <= i <= s.len(),
        providers_of(s.take(i)) is Err,
    ensures
        providers_of(s) == providers_of(s.take(i)),
    decreases s.len() - i,
{
    if i == s.len() {
        assert(s.take(i) =~= s);
    } else {
        assert(s.drop_last().take(i) =~= s.take(i));
        lemma_providers_of_error_persists(s.drop_last(), i);
    }
}

/// The provider addresses of resources.
pub open spec fn addresses(resources: Seq<StateResource>) -> Seq<Seq<char>> {
    resources.map_values(|r: StateResource| r.provider@)
}

/// What `state pull` returned, as far as reconciliation reads it.
#[derive(Debug, Clone)]
pub struct PulledState {
    pub resources: Vec<StateResource>,
    pub has_outputs: bool,
}

/// Whether an environment still holds state, and the providers it needs.
#[derive(Debug, Clone)]
pub struct EnvironmentState {
    pub has_state: bool,
    pub providers: Vec<HistoricalProvider>,
}

/// The state of an environment after a successful `state pull`: it holds
/// state when it has resources or outputs, and it needs the ordered set of
/// providers of its resources.
pub fn environment_state(state: &PulledState) -> (r: Result<EnvironmentState, ProviderError>)
    ensures
        match providers_of(addresses(state.resources@)) {
            Ok(found) => r matches Ok(s) && s.has_state == (state.resources@.len() > 0
                || state.has_outputs) && providers_ordered(provider_views(s.providers@))
                && provider_views(s.providers@).to_set() == found,
            Err(e) => r == Err::<EnvironmentState, ProviderError>(e),
        },
{
    let mut providers: Vec<HistoricalProvider> = Vec::new();
    let ghost all = addresses(state.resources@);
    assert(all.take(0) =~= Seq::<Seq<char>>::empty());
    assert(provider_views(providers@).to_set() =~= Set::empty());
    for i in 0..state.resources.len()
        invariant
            all == addresses(state.resources@),
            providers_ordered(provider_views(providers@)),
            providers_of(all.take(i as int)) == Ok::<Set<(Seq<char>, Seq<char>)>, ProviderError>(
                provider_views(providers@).to_set(),
            ),
    {
        assert(all.take(i + 1).drop_last() =~= all.take(i as int));
        assert(all.take(i + 1).last() == state.resources@[i as int].provider@);
        let p = match historical_provider(&state.resources[i]) {
            Ok(p) => p,
            Err(e) => {
                proof {
                    lemma_providers_of_error_persists(all, i + 1);
                }
                return Err(e);
            },
        };
        insert_provider(&mut providers, p);
    }
    assert(all.take(state.resources.len() as int) =~= all);
    Ok(EnvironmentState {
        has_state: state.resources.len() > 0 || state.has_outputs,
        providers,
    })
}

/// What a failed `state pull` means: no state at all when OpenTofu says so,
/// otherwise the failure of the inspection.
pub fn state_after_failed_pull(environment: &str, status: &str, stderr: &str) -> (r: Result<
    EnvironmentState,
    String,
>)
    ensures
        contains_text(stderr@, "No state file was found"@) ==> (r matches Ok(s) && !s.has_state
            && s.providers@.len() == 0),
        !contains_text(stderr@, "No state file was found"@) ==> (r matches Err(m) && m@
            == "Failed to inspect state for environment '"@ + environment@ + "' ("@ + status@
            + "): "@ + crate::text::trim_ws(stderr@)),
{
    if state_missing(stderr) {
        return Ok(EnvironmentState { has_state: false, providers: Vec::new() });
    }
    let mut m = "Failed to inspect state for environment '".to_owned();
    crate::text::append_str(&mut m, environment);
    crate::text::append_str(&mut m, "' (");
    crate::text::append_str(&mut m, status);
    crate::text::append_str(&mut m, "): ");
    let trimmed = crate::text::trim(chars_of(stderr).as_slice());
    crate::text::append_chars(&mut m, trimmed.as_slice());
    Err(m)
}

/// The state a historical environment leaves behind, as `cuet` passes it to
/// CUE so that the removed resources keep their providers.
#[derive(Debug, Clone)]
pub struct Reconciliation {
    pub environment: String,
    pub required_providers: Vec<HistoricalProvider>,
}

/// The reconciliation for an environment with the given state; none when
/// the environment holds no state.
pub fn reconciliation_for(environment: &str, state: EnvironmentState) -> (r: Option<Reconciliation>)
    ensures
        state.has_state <==> r is Some,
        r matches Some(rec) ==> rec.environment@ == environment@ && provider_views(
            rec.required_providers@,
        ) == provider_views(state.providers@),
{
    if !state.has_state {
        return None;
    }
    Some(Reconciliation { environment: environment.to_owned(), required_providers: state.providers })
}

/// A directory entry under the generated-output folder.
#[derive(Debug, Clone)]
pub struct EnvironmentEntry {
    /// The entry's name, when it is valid UTF-8.
    pub name: Option<String>,
    /// Whether the entry is a directory.
    pub is_dir: bool,
    /// Whether the directory holds the file of an initialized working directory.
    pub initialized: bool,
}

/// Whether an entry is an initialized environment directory.
pub open spec fn is_initialized_environment(e: EnvironmentEntry) -> bool {
    e.is_dir && e.initialized && (e.name matches Some(n) && valid_env(n@))
}

/// The names of the initialized environment directories among `entries`.
pub open spec fn initialized_names(entries: Seq<EnvironmentEntry>) -> Set<Seq<char>> {
    Set::new(
        |n: Seq<char>|
            exists|i: int|
                0 <= i < entries.len() && is_initialized_environment(#[trigger] entries[i])
                    && entries[i].name->0@ == n,
    )
}

/// The ordered set of initialized environments among the entries of the
/// generated-output folder: directories with a valid environment name that
/// hold the file of an initialized working directory.
pub fn environment_names(entries: &[EnvironmentEntry]) -> (r: Vec<String>)
    ensures
        crate::order::strictly_sorted(views(r@)),
        views(r@).to_set() == initialized_names(entries@),
{
    let mut r: Vec<String> = Vec::new();
    assert(views(r@).to_set() =~= initialized_names(entries@.take(0)));
    for i in 0..entries.len()
        invariant
            crate::order::strictly_sorted(views(r@)),
            views(r@).to_set() == initialized_names(entries@.take(i as int)),
    {
        let e = &entries[i];
        let ghost before = initialized_names(entries@.take(i as int));
        let ghost after = initialized_names(entries@.take(i + 1));
        let accepted = match &e.name {
            Some(n) => e.is_dir && e.initialized && validate_env(n.as_str()).is_ok(),
            None => false,
        };
        if accepted {
            let n = e.name.clone().unwrap();
            crate::order::insert_unique(&mut r, n);
            assert forall|t: Seq<char>| #[trigger] after.contains(t) <==> before.insert(
                entries@[i as int].name->0@,
            ).contains(t) by {
                if after.contains(t) {
                    let k = choose|k: int|
                        0 <= k < i + 1 && is_initialized_environment(
                            #[trigger] entries@.take(i + 1)[k],
                        ) && entries@.take(i + 1)[k].name->0@ == t;
                    if k < i {
                        assert(entries@.take(i as int)[k] == entries@.take(i + 1)[k]);
                    }
                }
                if before.contains(t) {
                    let k = choose|k: int|
                        0 <= k < i && is_initialized_environment(#[trigger] entries@.take(i as int)[k])
                            && entries@.take(i as int)[k].name->0@ == t;
                    assert(entries@.take(i as int)[k] == entries@.take(i + 1)[k]);
                }
                if t == entries@[i as int].name->0@ {
                    assert(entries@.take(i + 1)[i as int] == entries@[i as int]);
                }
            }
            assert(after =~= before.insert(entries@[i as int].name->0@));
        } else {
            assert forall|t: Seq<char>| #[trigger] after.contains(t) <==> before.contains(t) by {
                if after.contains(t) {
                    let k = choose|k: int|
                        0 <= k < i + 1 && is_initialized_environment(
                            #[trigger] entries@.take(i + 1)[k],
                        ) && entries@.take(i + 1)[k].name->0@ == t;
                    if k < i {
                        assert(entries@.take(i as int)[k] == entries@.take(i + 1)[k]);
                    } else {
                        assert(entries@.take(i + 1)[k] == entries@[i as int]);
                    }
                }
                if before.contains(t) {
                    let k = choose|k: int|
                        0 <= k < i && is_initialized_environment(#[trigger] entries@.take(i as int)[k])
                            && entries@.take(i as int)[k].name->0@ == t;
                    assert(entries@.take(i as int)[k] == entries@.take(i + 1)[k]);
                }
            }
            assert(after =~= before);
        }
    }
    assert(entries@.take(entries@.len() as int) =~= entries@);
    r
}

/// Every listed environment has a valid environment name.
pub proof fn lemma_initialized_names_are_environments(entries: Seq<EnvironmentEntry>, n: Seq<char>)
    requires
        initialized_names(entries).contains(n),
    ensures
        valid_env(n),
{
    let i = choose|i: int|
        0 <= i < entries.len() && is_initialized_environment(#[trigger] entries[i])
            && entries[i].name->0@ == n;
}

/// Whether `list` holds `s`.
pub fn holds(list: &[String], s: &str) -> (r: bool)
    ensures
        r == views(list@).contains(s@),
{
    let mut i: usize = 0;
    while i < list.len()
        invariant
            i <= list.len(),
            forall|k: int| 0 <= k < i ==> views(list@)[k] != s@,
        decreases list.len() - i,
    {
        if crate::text::str_equal(list[i].as_str(), s) {
            assert(views(list@)[i as int] == s@);
            return true;
        }
        i = i + 1;
    }
    false
}

/// Whether a selected environment must be refused: CUE no longer defines it
/// and it holds no state to reconcile.
pub fn without_remaining_state(desired: &[String], environment: &str, reconciliation: &Option<
    Reconciliation,
>) -> (r: bool)
    ensures
        r == (!views(desired@).contains(environment@) && reconciliation is None),
{
    !holds(desired, environment) && reconciliation.is_none()
}

/// Whether a command that succeeded on an environment that CUE no longer
/// defines may have emptied it: its subcommand is `apply` or `destroy`.
pub fn removes_emptied_environment(succeeded: bool, desired: &[String], environment: &str, args: &[
    String
]) -> (r: bool)
    ensures
        r == (succeeded && !views(desired@).contains(environment@) && match crate::terraform::first_positional(
            views(args@),
            0,
        ) {
            Some(k) => views(args@)[k] == "apply"@ || views(args@)[k] == "destroy"@,
            None => false,
        }),
{
    if !succeeded || holds(desired, environment) {
        return false;
    }
    match crate::terraform::subcommand(args) {
        Some((_, command)) => crate::text::str_equal(command, "apply") || crate::text::str_equal(
            command,
            "destroy",
        ),
        None => false,
    }
}

/// The environments to choose from: those CUE defines and those still
/// initialized, as an ordered set.
pub fn environment_choices(desired: &[String], initialized: &[String]) -> (r: Vec<String>)
    ensures
        crate::order::is_ordered_set_of(views(r@), views(desired@) + views(initialized@)),
{
    let mut all: Vec<String> = Vec::new();
    for i in 0..desired.len()
        invariant
            views(all@) == views(desired@.take(i as int)),
    {
        let ghost before = views(all@);
        all.push(desired[i].clone());
        assert(views(all@) =~= before.push(desired@[i as int]@));
        assert(views(desired@.take(i + 1)) =~= views(desired@.take(i as int)).push(desired@[i as int]@));
    }
    for i in 0..initialized.len()
        invariant
            views(all@) == views(desired@) + views(initialized@.take(i as int)),
    {
        let ghost before = views(all@);
        all.push(initialized[i].clone());
        assert(views(all@) =~= before.push(initialized@[i as int]@));
        assert(views(initialized@.take(i + 1)) =~= views(initialized@.take(i as int)).push(
            initialized@[i as int]@,
        ));
    }
    assert(desired@.take(desired@.len() as int) =~= desired@);
    assert(initialized@.take(initialized@.len() as int) =~= initialized@);
    crate::order::ordered_set(all)
}

} // verus!
