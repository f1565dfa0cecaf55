//! Generated Terraform configuration as a JSON tree, and the replacement of
//! its root backend by the backend of a historical configuration.

use crate::text::{
    append_chars, append_str, chars_equal, chars_of, str_equal, trim, trim_ws, utf8_lossy,
    utf8_lossy_text,
};
use vstd::prelude::*;

verus! {

/// A JSON value. Object members keep their order; keys are unique.
#[derive(Debug, PartialEq, Eq)]
pub enum Json {
    Null,
    Bool(bool),
    /// A number, as its JSON text.
    Number(String),
    String(String),
    Array(Vec<Json>),
    Object(Vec<(String, Json)>),
}

/// What a JSON value denotes: the same tree with text for strings.
pub enum JsonView {
    Null,
    Bool(bool),
    Number(Seq<char>),
    String(Seq<char>),
    Array(Seq<JsonView>),
    Object(Seq<(Seq<char>, JsonView)>),
}

/// The view of a value.
pub open spec fn json_view(j: Json) -> JsonView
    decreases j, 1int,
{
    match j {
        Json::Null => JsonView::Null,
        Json::Bool(b) => JsonView::Bool(b),
        Json::Number(n) => JsonView::Number(n@),
        Json::String(s) => JsonView::String(s@),
        Json::Array(xs) => JsonView::Array(items_view(xs@)),
        Json::Object(ms) => JsonView::Object(members_view(ms@)),
    }
}

/// The views of the items of an array.
pub open spec fn items_view(xs: Seq<Json>) -> Seq<JsonView>
    decreases xs, 0int,
{
    Seq::new(
        xs.len(),
        |i: int|
            if 0 <= i < xs.len() {
                json_view(xs[i])
            } else {
                JsonView::Null
            },
    )
}

/// The views of the members of an object.
pub open spec fn members_view(ms: Seq<(String, Json)>) -> Seq<(Seq<char>, JsonView)>
    decreases ms, 0int,
{
    Seq::new(
        ms.len(),
        |i: int|
            if 0 <= i < ms.len() {
                (ms[i].0@, json_view(ms[i].1))
            } else {
                (Seq::empty(), JsonView::Null)
            },
    )
}

impl View for Json {
    type V = JsonView;

    open spec fn view(&self) -> JsonView {
        json_view(*self)
    }
}

/// The index of the first member named `key`.
pub open spec fn member_index(members: Seq<(Seq<char>, JsonView)>, key: Seq<char>) -> Option<int>
    decreases members.len(),
{
    if members.len() == 0 {
        None
    } else {
        match member_index(members.drop_last(), key) {
            Some(i) => Some(i),
            None => if members.last().0 == key {
                Some(members.len() - 1)
            } else {
                None
            },
        }
    }
}

proof fn lemma_member_index(members: Seq<(Seq<char>, JsonView)>, key: Seq<char>)
    ensures
        member_index(members, key) matches Some(i) ==> 0 <= i < members.len() && members[i].0
            == key,
    decreases members.len(),
{
    if members.len() > 0 {
        lemma_member_index(members.drop_last(), key);
    }
}

/// The member `key` of an object; `None` for anything else.
pub open spec fn get(value: JsonView, key: Seq<char>) -> Option<JsonView> {
    match value {
        JsonView::Object(members) => match member_index(members, key) {
            Some(i) => Some(members[i].1),
            None => None,
        },
        _ => None,
    }
}

/// The root backend of a configuration: `terraform.backend`.
pub open spec fn root_backend(config: JsonView) -> Option<JsonView> {
    match get(config, "terraform"@) {
        Some(terraform) => get(terraform, "backend"@),
        None => None,
    }
}

/// What is wrong with a backend block.
#[derive(Debug, Clone, Copy, PartialEq, Eq, Structural)]
pub enum BackendShape {
    /// The backend is not an object.
    NotObject,
    /// The backend does not hold exactly one backend type.
    NotOneType,
    /// The backend type's settings are not an object.
    SettingsNotObject,
}

/// Which configuration a backend error is about.
#[derive(Debug, Clone, Copy, PartialEq, Eq, Structural)]
pub enum BackendSource {
    Historical,
    Current,
}

/// Why the root backend cannot be replaced.
#[derive(Debug, Clone, Copy, PartialEq, Eq, Structural)]
pub enum BackendError {
    /// The configuration has no `terraform.backend`.
    NoRootBackend(BackendSource),
    /// The backend block is malformed.
    Malformed(BackendSource, BackendShape),
}

/// The name of a configuration in error messages.
pub open spec fn source_description(source: BackendSource) -> Seq<char> {
    match source {
        BackendSource::Historical => "Historical backend configuration"@,
        BackendSource::Current => "Terraform configuration"@,
    }
}

impl BackendError {
    /// The text of the error.
    pub open spec fn text(self) -> Seq<char> {
        match self {
            BackendError::NoRootBackend(s) => source_description(s) + " has no root backend"@,
            BackendError::Malformed(s, BackendShape::NotObject) => source_description(s)
                + " root backend must be an object"@,
            BackendError::Malformed(s, BackendShape::NotOneType) => source_description(s)
                + " must contain exactly one backend type"@,
            BackendError::Malformed(s, BackendShape::SettingsNotObject) => source_description(s)
                + " backend settings must be an object"@,
        }
    }

    /// The text of the error.
    pub fn message(&self) -> (r: String)
        ensures
            r@ == self.text(),
            r@ == match self {
                BackendError::NoRootBackend(s) => source_description(*s) + " has no root backend"@,
                BackendError::Malformed(s, BackendShape::NotObject) => source_description(*s)
                    + " root backend must be an object"@,
                BackendError::Malformed(s, BackendShape::NotOneType) => source_description(*s)
                    + " must contain exactly one backend type"@,
                BackendError::Malformed(s, BackendShape::SettingsNotObject) => source_description(*s)
                    + " backend settings must be an object"@,
            },
    {
        let (source, tail) = match self {
            BackendError::NoRootBackend(s) => (*s, " has no root backend"),
            BackendError::Malformed(s, BackendShape::NotObject) => (
                *s,
                " root backend must be an object",
            ),
            BackendError::Malformed(s, BackendShape::NotOneType) => (
                *s,
                " must contain exactly one backend type",
            ),
            BackendError::Malformed(s, BackendShape::SettingsNotObject) => (
                *s,
                " backend settings must be an object",
            ),
        };
        let mut m = match source {
            BackendSource::Historical => "Historical backend configuration".to_owned(),
            BackendSource::Current => "Terraform configuration".to_owned(),
        };
        append_str(&mut m, tail);
        m
    }
}

/// What is wrong with a backend block, if anything: it must be an object
/// with exactly one backend type whose settings are an object.
pub open spec fn backend_shape(backend: JsonView) -> Option<BackendShape> {
    match backend {
        JsonView::Object(members) => if members.len() != 1 {
            Some(BackendShape::NotOneType)
        } else if !(members[0].1 is Object) {
            Some(BackendShape::SettingsNotObject)
        } else {
            None
        },
        _ => Some(BackendShape::NotObject),
    }
}

/// The index of the first member named `key`.
pub(crate) fn find_member(members: &Vec<(String, Json)>, key: &str) -> (r: Option<usize>)
    ensures
        match r {
            Some(i) => member_index(members_view(members@), key@) == Some(i as int) && i
                < members@.len(),
            None => member_index(members_view(members@), key@) is None,
        },
{
    let ghost mv = members_view(members@);
    proof {
        lemma_member_index(mv, key@);
    }
    let mut i: usize = 0;
    while i < members.len()
        invariant
            i <= members.len(),
            mv == members_view(members@),
            member_index(mv.take(i as int), key@) is None,
        decreases members.len() - i,
    {
        let ghost prefix = mv.take(i + 1);
        assert(prefix.drop_last() =~= mv.take(i as int));
        assert(mv[i as int].0 == members@[i as int].0@);
        if str_equal(members[i].0.as_str(), key) {
            proof {
                lemma_index_extends(mv, key@, i as int);
            }
            return Some(i);
        }
        i = i + 1;
    }
    assert(mv.take(mv.len() as int) =~= mv);
    None
}

proof fn lemma_index_extends(members: Seq<(Seq<char>, JsonView)>, key: Seq<char>, i: int)
    requires
        0 <= i < members.len(),
        member_index(members.take(i), key) is None,
        members[i].0 == key,
    ensures
        member_index(members, key) == Some(i),
    decreases members.len(),
{
    if i == members.len() - 1 {
        assert(members.drop_last() =~= members.take(i));
    } else {
        assert(members.drop_last().take(i) =~= members.take(i));
        lemma_index_extends(members.drop_last(), key, i);
    }
}

/// What is wrong with a backend block, if anything.
fn check_backend(backend: &Json) -> (r: Option<BackendShape>)
    ensures
        r == backend_shape(backend@),
{
    match backend {
        Json::Object(members) => if members.len() != 1 {
            Some(BackendShape::NotOneType)
        } else {
            assert(members_view(members@)[0].1 == json_view(members@[0].1));
            match &members[0].1 {
                Json::Object(_) => None,
                _ => Some(BackendShape::SettingsNotObject),
            }
        },
        _ => Some(BackendShape::NotObject),
    }
}

/// `new` is `old` with the member at `i` given the value `value`.
pub open spec fn member_replaced(
    old: Seq<(Seq<char>, JsonView)>,
    new: Seq<(Seq<char>, JsonView)>,
    i: int,
    value: JsonView,
) -> bool {
    &&& 0 <= i < old.len()
    &&& new.len() == old.len()
    &&& new[i].0 == old[i].0
    &&& new[i].1 == value
    &&& forall|k: int| 0 <= k < old.len() && k != i ==> new[k] == old[k]
}

/// `new` is the configuration `old` with its root backend replaced by
/// `backend`, everything else unchanged.
pub open spec fn backend_replaced(old: JsonView, new: JsonView, backend: JsonView) -> bool {
    match (old, new) {
        (JsonView::Object(old_members), JsonView::Object(new_members)) => match member_index(
            old_members,
            "terraform"@,
        ) {
            Some(t) => match (old_members[t].1, new_members[t].1) {
                (JsonView::Object(old_inner), JsonView::Object(new_inner)) => match member_index(
                    old_inner,
                    "backend"@,
                ) {
                    Some(b) => member_replaced(old_members, new_members, t, new_members[t].1)
                        && member_replaced(old_inner, new_inner, b, backend),
                    None => false,
                },
                _ => false,
            },
            None => false,
        },
        _ => false,
    }
}

/// Members with the same keys in the same places find a key at the same index.
proof fn lemma_member_index_same_keys(
    a: Seq<(Seq<char>, JsonView)>,
    b: Seq<(Seq<char>, JsonView)>,
    key: Seq<char>,
)
    requires
        a.len() == b.len(),
        forall|k: int| 0 <= k < a.len() ==> #[trigger] a[k].0 == b[k].0,
    ensures
        member_index(a, key) == member_index(b, key),
    decreases a.len(),
{
    if a.len() > 0 {
        lemma_member_index_same_keys(a.drop_last(), b.drop_last(), key);
    }
}

/// Replacing one member's value keeps every lookup of another key, and a
/// lookup of the replaced member's key finds the new value.
proof fn lemma_member_replaced_get(
    old: Seq<(Seq<char>, JsonView)>,
    new: Seq<(Seq<char>, JsonView)>,
    i: int,
    value: JsonView,
    key: Seq<char>,
)
    requires
        member_replaced(old, new, i, value),
        member_index(old, key) is Some,
    ensures
        member_index(new, key) == member_index(old, key),
        member_index(old, key) == Some(i) ==> new[i].1 == value,
        member_index(old, key) != Some(i) ==> new[member_index(old, key)->0] == old[member_index(
            old,
            key,
        )->0],
{
    assert forall|k: int| 0 <= k < old.len() implies #[trigger] old[k].0 == new[k].0 by {
        if k != i {
            assert(new[k] == old[k]);
        }
    }
    lemma_member_index_same_keys(old, new, key);
    lemma_member_index(old, key);
}

/// Replacing the root backend changes nothing but the backend: the backend
/// reads back as the new one, and every other member of the configuration
/// and of its `terraform` block reads as before.
pub proof fn lemma_replaced_backend_reads_back(old: JsonView, new: JsonView, backend: JsonView)
    requires
        backend_replaced(old, new, backend),
    ensures
        root_backend(new) == Some(backend),
        forall|key: Seq<char>| key != "terraform"@ ==> #[trigger] get(new, key) == get(old, key),
        get(old, "terraform"@) matches Some(old_terraform) && get(new, "terraform"@) matches Some(
            new_terraform,
        ) && forall|key: Seq<char>|
            key != "backend"@ ==> #[trigger] get(new_terraform, key) == get(old_terraform, key),
{
    let (old_members, new_members) = match (old, new) {
        (JsonView::Object(o), JsonView::Object(n)) => (o, n),
        _ => (Seq::empty(), Seq::empty()),
    };
    let t = member_index(old_members, "terraform"@)->0;
    lemma_member_index(old_members, "terraform"@);
    lemma_member_replaced_get(old_members, new_members, t, new_members[t].1, "terraform"@);
    let (old_inner, new_inner) = match (old_members[t].1, new_members[t].1) {
        (JsonView::Object(o), JsonView::Object(n)) => (o, n),
        _ => (Seq::empty(), Seq::empty()),
    };
    let b = member_index(old_inner, "backend"@)->0;
    lemma_member_index(old_inner, "backend"@);
    lemma_member_replaced_get(old_inner, new_inner, b, backend, "backend"@);
    assert forall|key: Seq<char>| key != "terraform"@ implies #[trigger] get(new, key) == get(
        old,
        key,
    ) by {
        if member_index(old_members, key) is Some {
            lemma_member_replaced_get(old_members, new_members, t, new_members[t].1, key);
            lemma_member_index(old_members, key);
        } else {
            assert forall|k: int| 0 <= k < old_members.len() implies #[trigger] old_members[k].0
                == new_members[k].0 by {
                if k != t {
                    assert(new_members[k] == old_members[k]);
                }
            }
            lemma_member_index_same_keys(old_members, new_members, key);
        }
    }
    assert forall|key: Seq<char>| key != "backend"@ implies #[trigger] get(
        new_members[t].1,
        key,
    ) == get(old_members[t].1, key) by {
        if member_index(old_inner, key) is Some {
            lemma_member_replaced_get(old_inner, new_inner, b, backend, key);
            lemma_member_index(old_inner, key);
        } else {
            assert forall|k: int| 0 <= k < old_inner.len() implies #[trigger] old_inner[k].0
                == new_inner[k].0 by {
                if k != b {
                    assert(new_inner[k] == old_inner[k]);
                }
            }
            lemma_member_index_same_keys(old_inner, new_inner, key);
        }
    }
}

/// The root backend of a configuration, borrowed.
fn root_backend_of(config: &Json) -> (r: Option<&Json>)
    ensures
        match root_backend(config@) {
            Some(b) => r matches Some(x) && x@ == b,
            None => r is None,
        },
{
    match config {
        Json::Object(members) => match find_member(members, "terraform") {
            Some(t) => {
                assert(members_view(members@)[t as int].1 == json_view(members@[t as int].1));
                match &members[t].1 {
                    Json::Object(inner) => match find_member(inner, "backend") {
                        Some(b) => {
                            assert(members_view(inner@)[b as int].1 == json_view(
                                inner@[b as int].1,
                            ));
                            Some(&inner[b].1)
                        },
                        None => None,
                    },
                    _ => None,
                }
            },
            None => None,
        },
        _ => None,
    }
}

/// Takes the root backend out of a configuration.
fn take_root_backend(config: Json) -> (r: Option<Json>)
    ensures
        match root_backend(config@) {
            Some(b) => r matches Some(x) && x@ == b,
            None => r is None,
        },
{
    match config {
        Json::Object(mut members) => match find_member(&members, "terraform") {
            Some(t) => {
                assert(members_view(members@)[t as int].1 == json_view(members@[t as int].1));
                let (_, terraform) = members.remove(t);
                match terraform {
                    Json::Object(mut inner) => match find_member(&inner, "backend") {
                        Some(b) => {
                            assert(members_view(inner@)[b as int].1 == json_view(
                                inner@[b as int].1,
                            ));
                            let (_, backend) = inner.remove(b);
                            Some(backend)
                        },
                        None => None,
                    },
                    _ => None,
                }
            },
            None => None,
        },
        _ => None,
    }
}

/// Sets the value of the member at `i`.
fn set_member(members: &mut Vec<(String, Json)>, i: usize, value: Json)
    requires
        i < old(members)@.len(),
    ensures
        member_replaced(members_view(old(members)@), members_view(final(members)@), i as int, value@),
{
    let ghost before = members@;
    let (key, _) = members.remove(i);
    members.insert(i, (key, value));
    assert(members@ =~= before.update(i as int, (before[i as int].0, value)));
    let ghost old_view = members_view(before);
    let ghost new_view = members_view(members@);
    assert forall|k: int| 0 <= k < before.len() && k != i implies new_view[k] == old_view[k] by {
        assert(members@[k] == before[k]);
    }
}

/// The configuration `config`, which has a root backend, with that backend
/// replaced by `backend`.
fn with_backend(config: Json, backend: Json) -> (r: Json)
    requires
        root_backend(config@) is Some,
    ensures
        backend_replaced(config@, r@, backend@),
{
    let mut members = match config {
        Json::Object(members) => members,
        _ => vstd::pervasive::unreached(),
    };
    let ghost old_members = members@;
    let t = match find_member(&members, "terraform") {
        Some(t) => t,
        None => vstd::pervasive::unreached(),
    };
    assert(members_view(members@)[t as int].1 == json_view(members@[t as int].1));
    let (key, terraform) = members.remove(t);
    let mut inner = match terraform {
        Json::Object(inner) => inner,
        _ => vstd::pervasive::unreached(),
    };
    let b = match find_member(&inner, "backend") {
        Some(b) => b,
        None => vstd::pervasive::unreached(),
    };
    let ghost old_inner = inner@;
    set_member(&mut inner, b, backend);
    let ghost new_inner = inner@;
    let updated = Json::Object(inner);
    members.insert(t, (key, updated));
    proof {
        assert(members@ =~= old_members.update(t as int, (old_members[t as int].0, updated)));
        let ov = members_view(old_members);
        let nv = members_view(members@);
        assert forall|k: int| 0 <= k < old_members.len() && k != t implies nv[k] == ov[k] by {
            assert(members@[k] == old_members[k]);
        }
        assert(nv[t as int].1 == json_view(updated));
    }
    Json::Object(members)
}

/// Replaces the root backend of `current` by the root backend of
/// `historical`, after checking that both backends hold exactly one backend
/// type with settings. On failure `current` is left as it was.
pub fn replace_root_backend(current: &mut Json, historical: Json) -> (r: Result<(), BackendError>)
    ensures
        r is Err ==> *final(current) == *old(current),
        match root_backend(historical@) {
            None => r == Err::<(), BackendError>(BackendError::NoRootBackend(BackendSource::Historical)),
            Some(h) => match backend_shape(h) {
                Some(shape) => r == Err::<(), BackendError>(
                    BackendError::Malformed(BackendSource::Historical, shape),
                ),
                None => match root_backend(old(current)@) {
                    None => r == Err::<(), BackendError>(
                        BackendError::NoRootBackend(BackendSource::Current),
                    ),
                    Some(c) => match backend_shape(c) {
                        Some(shape) => r == Err::<(), BackendError>(
                            BackendError::Malformed(BackendSource::Current, shape),
                        ),
                        None => r is Ok && backend_replaced(old(current)@, final(current)@, h),
                    },
                },
            },
        },
{
    let historical_backend = match take_root_backend(historical) {
        Some(b) => b,
        None => return Err(BackendError::NoRootBackend(BackendSource::Historical)),
    };
    if let Some(shape) = check_backend(&historical_backend) {
        return Err(BackendError::Malformed(BackendSource::Historical, shape));
    }
    match root_backend_of(current) {
        Some(c) => {
            if let Some(shape) = check_backend(c) {
                return Err(BackendError::Malformed(BackendSource::Current, shape));
            }
        },
        None => return Err(BackendError::NoRootBackend(BackendSource::Current)),
    }
    let mut config = Json::Null;
    std::mem::swap(&mut config, current);
    *current = with_backend(config, historical_backend);
    Ok(())
}

/// Whether two numbers, written as `serde_json` writes them, are equal as
/// `serde_json::Number` compares them: the same text, or the two float
/// zeros `0.0` and `-0.0`, which are equal floats.
pub open spec fn same_number(a: Seq<char>, b: Seq<char>) -> bool {
    ||| a == b
    ||| (a == seq!['0', '.', '0'] && b == seq!['-', '0', '.', '0'])
    ||| (a == seq!['-', '0', '.', '0'] && b == seq!['0', '.', '0'])
}

/// Whether two values are equal as `serde_json::Value` compares them: of
/// the same kind with equal numbers, strings and booleans, arrays equal item
/// by item, and objects whose members, in key order as `serde_json` keeps
/// them, have equal keys and equal values.
pub open spec fn same_value(a: JsonView, b: JsonView) -> bool
    decreases a, 1int,
{
    match (a, b) {
        (JsonView::Null, JsonView::Null) => true,
        (JsonView::Bool(x), JsonView::Bool(y)) => x == y,
        (JsonView::Number(x), JsonView::Number(y)) => same_number(x, y),
        (JsonView::String(x), JsonView::String(y)) => x == y,
        (JsonView::Array(xs), JsonView::Array(ys)) => same_items(xs, ys),
        (JsonView::Object(xs), JsonView::Object(ys)) => same_members(xs, ys),
        _ => false,
    }
}

/// Whether two sequences of values are equal item by item.
pub open spec fn same_items(xs: Seq<JsonView>, ys: Seq<JsonView>) -> bool
    decreases xs, 0int,
{
    if xs.len() == 0 {
        ys.len() == 0
    } else {
        ys.len() > 0 && same_value(xs[0], ys[0]) && same_items(xs.drop_first(), ys.drop_first())
    }
}

/// Whether two sequences of members have equal keys and equal values, member
/// by member.
pub open spec fn same_members(xs: Seq<(Seq<char>, JsonView)>, ys: Seq<(Seq<char>, JsonView)>) -> bool
    decreases xs, 0int,
{
    if xs.len() == 0 {
        ys.len() == 0
    } else {
        &&& ys.len() > 0
        &&& xs[0].0 == ys[0].0
        &&& same_value(xs[0].1, ys[0].1)
        &&& same_members(xs.drop_first(), ys.drop_first())
    }
}

/// Whether two numbers written as `serde_json` writes them are equal.
fn numbers_equal(a: &str, b: &str) -> (r: bool)
    ensures
        r == same_number(a@, b@),
{
    let zero = chars_of("0.0");
    let negative_zero = chars_of("-0.0");
    proof {
        reveal_strlit("0.0");
        reveal_strlit("-0.0");
        assert(zero@ =~= seq!['0', '.', '0']);
        assert(negative_zero@ =~= seq!['-', '0', '.', '0']);
    }
    let ac = chars_of(a);
    let bc = chars_of(b);
    chars_equal(ac.as_slice(), bc.as_slice()) || (chars_equal(ac.as_slice(), zero.as_slice())
        && chars_equal(bc.as_slice(), negative_zero.as_slice())) || (chars_equal(
        ac.as_slice(),
        negative_zero.as_slice(),
    ) && chars_equal(bc.as_slice(), zero.as_slice()))
}

/// Whether two values are equal as `serde_json::Value` compares them.
pub fn values_equal(a: &Json, b: &Json) -> (r: bool)
    ensures
        r == same_value(a@, b@),
    decreases a,
{
    match (a, b) {
        (Json::Null, Json::Null) => true,
        (Json::Bool(x), Json::Bool(y)) => *x == *y,
        (Json::Number(x), Json::Number(y)) => numbers_equal(x.as_str(), y.as_str()),
        (Json::String(x), Json::String(y)) => str_equal(x.as_str(), y.as_str()),
        (Json::Array(xs), Json::Array(ys)) => {
            let mut i: usize = 0;
            assert(items_view(xs@).skip(0) =~= items_view(xs@));
            assert(items_view(ys@).skip(0) =~= items_view(ys@));
            while i < xs.len() && i < ys.len()
                invariant
                    *a == Json::Array(*xs),
                    *b == Json::Array(*ys),
                    i <= xs.len(),
                    i <= ys.len(),
                    same_items(items_view(xs@), items_view(ys@)) == same_items(
                        items_view(xs@).skip(i as int),
                        items_view(ys@).skip(i as int),
                    ),
                decreases xs.len() - i,
            {
                proof {
                    assert(decreases_to!(*a => a->Array_0));
                    assert(decreases_to!(a->Array_0 => a->Array_0@));
                    assert(decreases_to!(a->Array_0@ => a->Array_0@[i as int]));
                }
                assert(items_view(xs@).skip(i as int)[0] == items_view(xs@)[i as int]);
                assert(items_view(ys@).skip(i as int)[0] == items_view(ys@)[i as int]);
                assert(items_view(xs@).skip(i as int).drop_first() =~= items_view(xs@).skip(i + 1));
                assert(items_view(ys@).skip(i as int).drop_first() =~= items_view(ys@).skip(i + 1));
                if !values_equal(&xs[i], &ys[i]) {
                    return false;
                }
                i = i + 1;
            }
            xs.len() == ys.len()
        },
        (Json::Object(xs), Json::Object(ys)) => {
            let mut i: usize = 0;
            assert(members_view(xs@).skip(0) =~= members_view(xs@));
            assert(members_view(ys@).skip(0) =~= members_view(ys@));
            while i < xs.len() && i < ys.len()
                invariant
                    *a == Json::Object(*xs),
                    *b == Json::Object(*ys),
                    i <= xs.len(),
                    i <= ys.len(),
                    same_members(members_view(xs@), members_view(ys@)) == same_members(
                        members_view(xs@).skip(i as int),
                        members_view(ys@).skip(i as int),
                    ),
                decreases xs.len() - i,
            {
                proof {
                    assert(decreases_to!(*a => a->Object_0));
                    assert(decreases_to!(a->Object_0 => a->Object_0@));
                    assert(decreases_to!(a->Object_0@ => a->Object_0@[i as int]));
                    assert(decreases_to!(a->Object_0@[i as int] => a->Object_0@[i as int].1));
                }
                assert(members_view(xs@).skip(i as int)[0] == members_view(xs@)[i as int]);
                assert(members_view(ys@).skip(i as int)[0] == members_view(ys@)[i as int]);
                assert(members_view(xs@).skip(i as int).drop_first() =~= members_view(xs@).skip(i + 1));
                assert(members_view(ys@).skip(i as int).drop_first() =~= members_view(ys@).skip(i + 1));
                if !str_equal(xs[i].0.as_str(), ys[i].0.as_str()) {
                    return false;
                }
                if !values_equal(&xs[i].1, &ys[i].1) {
                    return false;
                }
                i = i + 1;
            }
            xs.len() == ys.len()
        },
        _ => false,
    }
}

} // verus!

verus! {

#[verifier::external_type_specification]
#[verifier::external_body]
pub struct ExValue(serde_json::Value);

/// What `serde_json::from_slice` reads from `bytes` as a JSON value, or else
/// the text of its error.
pub uninterp spec fn json_value_of(bytes: Seq<u8>) -> Result<JsonView, Seq<char>>;

/// What `serde_json::to_vec_pretty` writes for a value whose numbers are
/// read from their text with `serde_json::Number::from_str`, or else the
/// text of the first error.
pub uninterp spec fn json_pretty_bytes(value: JsonView) -> Result<Seq<u8>, Seq<char>>;

/// The tree of a `serde_json::Value`, member for member in the map's order;
/// `parse_json` states what comes of it.
#[verifier::external_body]
fn json_of_value(value: serde_json::Value) -> Json {
    match value {
        serde_json::Value::Null => Json::Null,
        serde_json::Value::Bool(b) => Json::Bool(b),
        serde_json::Value::Number(n) => Json::Number(n.to_string()),
        serde_json::Value::String(s) => Json::String(s),
        serde_json::Value::Array(items) => Json::Array(items.into_iter().map(json_of_value).collect()),
        serde_json::Value::Object(members) => Json::Object(
            members.into_iter().map(|(key, value)| (key, json_of_value(value))).collect(),
        ),
    }
}

/// The `serde_json::Value` of a tree, each number read from its text;
/// `render_json_pretty` states what comes of it.
#[verifier::external_body]
fn value_of_json(json: &Json) -> Result<serde_json::Value, String> {
    Ok(match json {
        Json::Null => serde_json::Value::Null,
        Json::Bool(b) => serde_json::Value::Bool(*b),
        Json::Number(n) => serde_json::Value::Number(n.parse().map_err(|e: serde_json::Error| e.to_string())?),
        Json::String(s) => serde_json::Value::String(s.clone()),
        Json::Array(items) => serde_json::Value::Array(items.iter().map(value_of_json).collect::<Result<_, _>>()?),
        Json::Object(members) => serde_json::Value::Object(
            members.iter().map(|(k, v)| Ok((k.clone(), value_of_json(v)?))).collect::<Result<_, String>>()?,
        ),
    })
}

/// Reads `bytes` as a JSON value with `serde_json::from_slice`; an error is
/// rendered with its `Display` implementation.
#[verifier::external_body]
fn parse_json(bytes: &[u8]) -> (r: Result<Json, String>)
    ensures
        match json_value_of(bytes@) {
            Ok(v) => r matches Ok(j) && j@ == v,
            Err(text) => r matches Err(e) && e@ == text,
        },
{
    match serde_json::from_slice::<serde_json::Value>(bytes) {
        Ok(value) => Ok(json_of_value(value)),
        Err(error) => Err(error.to_string()),
    }
}

/// Writes `value` as pretty-printed JSON with `serde_json::to_vec_pretty`.
#[verifier::external_body]
fn render_json_pretty(value: &Json) -> (r: Result<Vec<u8>, String>)
    ensures
        match json_pretty_bytes(value@) {
            Ok(bytes) => r matches Ok(v) && v@ == bytes,
            Err(text) => r matches Err(e) && e@ == text,
        },
{
    serde_json::to_vec_pretty(&value_of_json(value)?).map_err(|error| error.to_string())
}

/// Reads `bytes` as the JSON of `description`; the error names it.
pub fn decode_json(bytes: &[u8], description: &str) -> (r: Result<Json, String>)
    ensures
        match json_value_of(bytes@) {
            Ok(v) => r matches Ok(j) && j@ == v,
            Err(text) => r matches Err(m) && m@ == "Failed to decode "@ + description@ + ": "@
                + text,
        },
{
    match parse_json(bytes) {
        Ok(json) => Ok(json),
        Err(text) => {
            let mut m = "Failed to decode ".to_owned();
            append_str(&mut m, description);
            append_str(&mut m, ": ");
            append_str(&mut m, text.as_str());
            Err(m)
        },
    }
}

/// The JSON of `description` that CUE printed: its error output, trimmed,
/// when the evaluation failed, otherwise its output read as JSON.
pub fn cue_json(success: bool, stderr: &[u8], stdout: &[u8], description: &str) -> (r: Result<
    Json,
    String,
>)
    ensures
        !success ==> (r matches Err(m) && m@ == "Failed to evaluate "@ + description@ + ": "@
            + trim_ws(utf8_lossy_text(stderr@))),
        success ==> match json_value_of(stdout@) {
            Ok(v) => r matches Ok(j) && j@ == v,
            Err(text) => r matches Err(m) && m@ == "Failed to decode "@ + description@ + ": "@
                + text,
        },
{
    if !success {
        let text = utf8_lossy(stderr);
        let trimmed = trim(chars_of(text.as_str()).as_slice());
        let mut m = "Failed to evaluate ".to_owned();
        append_str(&mut m, description);
        append_str(&mut m, ": ");
        append_chars(&mut m, trimmed.as_slice());
        return Err(m);
    }
    decode_json(stdout, description)
}

/// The generated configuration `config` with the root backend of the
/// historical configuration, written as pretty-printed JSON; the error text
/// when a backend is missing or malformed, or the configuration cannot be
/// written.
pub fn with_historical_backend(config: Json, historical: Json) -> (r: Result<Vec<u8>, String>)
    ensures
        match root_backend(historical@) {
            None => r matches Err(m) && m@ == BackendError::NoRootBackend(
                BackendSource::Historical,
            ).text(),
            Some(h) => match backend_shape(h) {
                Some(shape) => r matches Err(m) && m@ == BackendError::Malformed(
                    BackendSource::Historical,
                    shape,
                ).text(),
                None => match root_backend(config@) {
                    None => r matches Err(m) && m@ == BackendError::NoRootBackend(
                        BackendSource::Current,
                    ).text(),
                    Some(c) => match backend_shape(c) {
                        Some(shape) => r matches Err(m) && m@ == BackendError::Malformed(
                            BackendSource::Current,
                            shape,
                        ).text(),
                        None => exists|new: JsonView|
                            #![trigger json_pretty_bytes(new)]
                            backend_replaced(config@, new, h) && match json_pretty_bytes(new) {
                                Ok(bytes) => r matches Ok(v) && v@ == bytes,
                                Err(text) => r matches Err(m) && m@ == text,
                            },
                    },
                },
            },
        },
{
    let mut config = config;
    match replace_root_backend(&mut config, historical) {
        Ok(()) => render_json_pretty(&config),
        Err(error) => Err(error.message()),
    }
}

/// The contents of a tfmigrate migration file: the migration as
/// pretty-printed JSON.
pub fn migration_file(migration: &Json) -> (r: Result<Vec<u8>, String>)
    ensures
        match json_pretty_bytes(migration@) {
            Ok(bytes) => r matches Ok(v) && v@ == bytes,
            Err(text) => r matches Err(e) && e@ == text,
        },
{
    render_json_pretty(migration)
}

/// What `migrate inspect` prints: the migration details as pretty-printed
/// JSON and a line feed.
pub fn inspection(metadata: &Json) -> (r: Result<Vec<u8>, String>)
    ensures
        match json_pretty_bytes(metadata@) {
            Ok(bytes) => r matches Ok(v) && v@ == bytes.push(10u8),
            Err(text) => r matches Err(e) && e@ == text,
        },
{
    let mut bytes = render_json_pretty(metadata)?;
    bytes.push(10u8);
    Ok(bytes)
}

} // verus!
