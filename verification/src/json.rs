//! JSON documents as plain values.

use vstd::prelude::*;

use crate::text::{decimal, same_text};

verus! {

/// A JSON document. Members of an object stand in the order in which they were
/// written; a look-up takes the first member of a name.
#[derive(Debug)]
pub enum Json {
    Null,
    Bool(bool),
    /// `uint` is the value where it is an integer that fits in 64 unsigned bits.
    Number { uint: Option<u64>, text: String },
    Str(String),
    Array(Vec<Json>),
    Object(Vec<(String, Json)>),
}

/// What a [`Json`] document says.
pub enum JsonView {
    Null,
    Bool(bool),
    Number { uint: Option<u64>, text: Seq<char> },
    Str(Seq<char>),
    Array(Seq<JsonView>),
    Object(Seq<(Seq<char>, JsonView)>),
}

/// What `j` says.
pub open spec fn json_view(j: Json) -> JsonView
    decreases j,
{
    match j {
        Json::Null => JsonView::Null,
        Json::Bool(b) => JsonView::Bool(b),
        Json::Number { uint, text } => JsonView::Number { uint, text: text@ },
        Json::Str(s) => JsonView::Str(s@),
        Json::Array(items) => JsonView::Array(
            Seq::new(
                items@.len(),
                |i: int|
                    if 0 <= i < items@.len() {
                        json_view(items@[i])
                    } else {
                        JsonView::Null
                    },
            ),
        ),
        Json::Object(members) => JsonView::Object(
            Seq::new(
                members@.len(),
                |i: int|
                    if 0 <= i < members@.len() {
                        (members@[i].0@, json_view(members@[i].1))
                    } else {
                        (seq![], JsonView::Null)
                    },
            ),
        ),
    }
}

impl View for Json {
    type V = JsonView;

    open spec fn view(&self) -> JsonView {
        json_view(*self)
    }
}

/// What the items of an array say.
pub open spec fn json_views(items: Seq<Json>) -> Seq<JsonView> {
    Seq::new(items.len(), |i: int| items[i]@)
}

/// What the members of an object say.
pub open spec fn member_views(members: Seq<(String, Json)>) -> Seq<(Seq<char>, JsonView)> {
    Seq::new(members.len(), |i: int| (members[i].0@, members[i].1@))
}

pub broadcast proof fn lemma_array_view(items: Vec<Json>)
    ensures
        #[trigger] Json::Array(items)@ == JsonView::Array(json_views(items@)),
{
    reveal_with_fuel(json_view, 2);
    assert(Json::Array(items)@->Array_0 =~= json_views(items@));
}

pub broadcast proof fn lemma_object_view(members: Vec<(String, Json)>)
    ensures
        #[trigger] Json::Object(members)@ == JsonView::Object(member_views(members@)),
{
    reveal_with_fuel(json_view, 2);
    assert(Json::Object(members)@->Object_0 =~= member_views(members@));
}

/// The position of the first member named `key`, or the number of members.
pub open spec fn member_index(members: Seq<(Seq<char>, JsonView)>, key: Seq<char>) -> int
    decreases members.len(),
{
    if members.len() == 0 {
        0
    } else if members[0].0 == key {
        0
    } else {
        1 + member_index(members.drop_first(), key)
    }
}

pub proof fn lemma_member_index(members: Seq<(Seq<char>, JsonView)>, key: Seq<char>)
    ensures
        0 <= member_index(members, key) <= members.len(),
        member_index(members, key) < members.len() ==> members[member_index(members, key)].0
            == key,
        forall|i: int| 0 <= i < member_index(members, key) ==> members[i].0 != key,
    decreases members.len(),
{
    if members.len() == 0 || members[0].0 == key {
    } else {
        let rest = members.drop_first();
        lemma_member_index(rest, key);
        let k = member_index(members, key);
        assert forall|i: int| 0 <= i < k implies members[i].0 != key by {
            if i > 0 {
                assert(rest[i - 1] == members[i]);
            }
        }
        if k < members.len() {
            assert(rest[k - 1] == members[k]);
        }
    }
}

pub proof fn lemma_member_index_is(
    members: Seq<(Seq<char>, JsonView)>,
    key: Seq<char>,
    i: int,
)
    requires
        0 <= i <= members.len(),
        i < members.len() ==> members[i].0 == key,
        forall|j: int| 0 <= j < i ==> members[j].0 != key,
    ensures
        member_index(members, key) == i,
{
    lemma_member_index(members, key);
}

/// The value of member `key`: `Null` where the document is no object or has no such
/// member.
pub open spec fn member(v: JsonView, key: Seq<char>) -> JsonView {
    match v {
        JsonView::Object(members) => {
            let i = member_index(members, key);
            if i < members.len() {
                members[i].1
            } else {
                JsonView::Null
            }
        },
        _ => JsonView::Null,
    }
}

/// Whether the document is an object with a member `key`.
pub open spec fn has_member(v: JsonView, key: Seq<char>) -> bool {
    match v {
        JsonView::Object(members) => member_index(members, key) < members.len(),
        _ => false,
    }
}

/// The text of a string document.
pub open spec fn str_of(v: JsonView) -> Option<Seq<char>> {
    match v {
        JsonView::Str(s) => Some(s),
        _ => None,
    }
}

/// The value of an unsigned integer document.
pub open spec fn uint_of(v: JsonView) -> Option<u64> {
    match v {
        JsonView::Number { uint, .. } => uint,
        _ => None,
    }
}

/// The document of an unsigned integer.
pub open spec fn uint_view(n: u64) -> JsonView {
    JsonView::Number { uint: Some(n), text: crate::text::dec(n as nat) }
}

/// The document of an unsigned number that is written as `text`.
pub open spec fn number(n: u64, text: Seq<char>) -> JsonView {
    JsonView::Number { uint: Some(n), text }
}

/// Whether the document is an object in which `x`, and nothing else, goes by the name `key`.
pub open spec fn names(v: JsonView, key: Seq<char>, x: JsonView) -> bool {
    v matches JsonView::Object(members) && exists|i: int|
        0 <= i < members.len() && #[trigger] members[i] == (key, x) && forall|j: int|
            0 <= j < members.len() && j != i ==> (#[trigger] members[j]).0 != key
}

/// Whether the document is no object, or one in which nothing goes by the name `key`.
pub open spec fn lacks(v: JsonView, key: Seq<char>) -> bool {
    v matches JsonView::Object(members) ==> forall|j: int|
        0 <= j < members.len() ==> (#[trigger] members[j]).0 != key
}

/// A member is found by its name, wherever it stands among the others, and where nothing goes by
/// the name nothing is found.
pub proof fn law_members_are_found_by_name(v: JsonView, key: Seq<char>, x: JsonView)
    ensures
        names(v, key, x) ==> member(v, key) == x && has_member(v, key),
        lacks(v, key) ==> member(v, key) == JsonView::Null && !has_member(v, key),
{
    if let JsonView::Object(members) = v {
        lemma_member_index(members, key);
        if names(v, key, x) {
            let i = choose|i: int|
                0 <= i < members.len() && #[trigger] members[i] == (key, x) && forall|j: int|
                    0 <= j < members.len() && j != i ==> (#[trigger] members[j]).0 != key;
            assert(members[i].0 == key);
        }
        if lacks(v, key) && has_member(v, key) {
            assert(members[member_index(members, key)].0 == key);
        }
    }
}

/// A text document is read as its text, and an unsigned number as that number; nothing else is
/// either.
pub proof fn law_texts_and_numbers_are_read(s: Seq<char>, n: u64, t: Seq<char>, v: JsonView)
    ensures
        str_of(JsonView::Str(s)) == Some(s),
        uint_of(JsonView::Number { uint: Some(n), text: t }) == Some(n),
        uint_of(JsonView::Number { uint: None, text: t }) is None,
        str_of(v) is Some ==> v == JsonView::Str(str_of(v)->Some_0),
        uint_of(v) is Some ==> (v matches JsonView::Number { uint, .. } && uint == uint_of(v)),
{
}

fn find_member(members: &Vec<(String, Json)>, key: &str) -> (r: Option<usize>)
    ensures
        match r {
            Some(i) => i < members.len() && i == member_index(member_views(members@), key@),
            None => member_index(member_views(members@), key@) == members.len(),
        },
{
    let mut i: usize = 0;
    while i < members.len()
        invariant
            i <= members.len(),
            forall|j: int| 0 <= j < i ==> (#[trigger] member_views(members@)[j]).0 != key@,
        decreases members.len() - i,
    {
        if same_text(members[i].0.as_str(), key) {
            proof {
                lemma_member_index_is(member_views(members@), key@, i as int);
            }
            return Some(i);
        }
        i = i + 1;
    }
    proof {
        lemma_member_index_is(member_views(members@), key@, i as int);
    }
    None
}

/// The members with `name` set to `value`: in the place of the first member of that name, or
/// behind the others where there is none.
pub open spec fn with_member(
    members: Seq<(Seq<char>, JsonView)>,
    name: Seq<char>,
    value: JsonView,
) -> Seq<(Seq<char>, JsonView)> {
    let i = member_index(members, name);
    if i < members.len() {
        members.update(i, (name, value))
    } else {
        members.push((name, value))
    }
}

/// The members with `name` set to `value`.
pub fn set_member(members: Vec<(String, Json)>, name: &str, value: Json) -> (r: Vec<(String, Json)>)
    ensures
        member_views(r@) == with_member(member_views(members@), name@, value@),
{
    let mut members = members;
    let ghost before = member_views(members@);
    match find_member(&members, name) {
        Some(i) => {
            members.set(i, (name.to_owned(), value));
            assert(member_views(members@) =~= before.update(i as int, (name@, value@)));
        },
        None => {
            members.push((name.to_owned(), value));
            assert(member_views(members@) =~= before.push((name@, value@)));
        },
    }
    members
}

/// A member that was set is read back, and every other member is as it was.
pub proof fn law_set_members_read_back(
    members: Seq<(Seq<char>, JsonView)>,
    name: Seq<char>,
    value: JsonView,
    other: Seq<char>,
)
    ensures
        member(JsonView::Object(with_member(members, name, value)), name) == value,
        other != name ==> member(JsonView::Object(with_member(members, name, value)), other)
            == member(JsonView::Object(members), other),
{
    let new = with_member(members, name, value);
    let i = member_index(members, name);
    lemma_member_index(members, name);
    lemma_member_index_is(new, name, i);
    if other != name {
        let j = member_index(members, other);
        lemma_member_index(members, other);
        if j < members.len() {
            lemma_member_index_is(new, other, j);
        } else {
            assert forall|k: int| 0 <= k < new.len() implies new[k].0 != other by {
                if k < members.len() && k != i {
                    assert(members[k].0 != other);
                }
            }
            lemma_member_index_is(new, other, new.len() as int);
        }
    }
}

impl Json {
    /// A string document.
    pub fn string(s: &str) -> (r: Json)
        ensures
            r@ == JsonView::Str(s@),
    {
        Json::Str(s.to_owned())
    }

    /// An unsigned integer document.
    pub fn uint(n: u64) -> (r: Json)
        ensures
            r@ == uint_view(n),
    {
        Json::Number { uint: Some(n), text: decimal(n as u128) }
    }

    /// A string document, or `Null` for an absent text.
    pub fn opt_string(s: &Option<String>) -> (r: Json)
        ensures
            r@ == opt_str_view(crate::text::opt_view(*s)),
    {
        match s {
            Some(s) => Json::Str(s.clone()),
            None => Json::Null,
        }
    }

    /// A document that says the same.
    #[verifier::loop_isolation(false)]
    pub fn duplicate(&self) -> (r: Json)
        ensures
            r@ == self@,
        decreases self,
    {
        broadcast use {lemma_array_view, lemma_object_view};

        match self {
            Json::Null => Json::Null,
            Json::Bool(b) => Json::Bool(*b),
            Json::Number { uint, text } => Json::Number { uint: *uint, text: text.clone() },
            Json::Str(s) => Json::Str(s.clone()),
            Json::Array(items) => {
                let mut out: Vec<Json> = Vec::new();
                let mut i: usize = 0;
                while i < items.len()
                    invariant
                        i <= items.len(),
                        json_views(out@) == json_views(items@).take(i as int),
                    decreases items.len() - i,
                {
                    assert(decreases_to!(self => items@[i as int]));
                    let copy = items[i].duplicate();
                    let ghost before = out@;
                    out.push(copy);
                    assert(json_views(out@) =~= json_views(before).push(copy@));
                    assert(json_views(items@).take(i + 1) =~= json_views(items@).take(
                        i as int,
                    ).push(items@[i as int]@));
                    i = i + 1;
                }
                assert(json_views(items@).take(items@.len() as int) =~= json_views(items@));
                Json::Array(out)
            },
            Json::Object(members) => {
                let mut out: Vec<(String, Json)> = Vec::new();
                let mut i: usize = 0;
                while i < members.len()
                    invariant
                        i <= members.len(),
                        member_views(out@) == member_views(members@).take(i as int),
                    decreases members.len() - i,
                {
                    assert(decreases_to!(self => members@[i as int].1));
                    let name = members[i].0.clone();
                    let copy = members[i].1.duplicate();
                    let ghost before = out@;
                    out.push((name, copy));
                    assert(member_views(out@) =~= member_views(before).push((name@, copy@)));
                    assert(member_views(members@).take(i + 1) =~= member_views(members@).take(
                        i as int,
                    ).push((members@[i as int].0@, members@[i as int].1@)));
                    i = i + 1;
                }
                assert(member_views(members@).take(members@.len() as int) =~= member_views(
                    members@,
                ));
                Json::Object(out)
            },
        }
    }

    /// The value of member `key`, where there is one.
    pub fn get(&self, key: &str) -> (r: Option<&Json>)
        ensures
            match r {
                Some(v) => has_member(self@, key@) && v@ == member(self@, key@),
                None => !has_member(self@, key@) && member(self@, key@) == JsonView::Null,
            },
    {
        match self {
            Json::Object(members) => {
                proof {
                    lemma_object_view(*members);
                }
                match find_member(members, key) {
                    Some(i) => Some(&members[i].1),
                    None => None,
                }
            },
            _ => None,
        }
    }

    /// The text of a string document.
    pub fn as_str(&self) -> (r: Option<&str>)
        ensures
            match r {
                Some(s) => str_of(self@) == Some(s@),
                None => str_of(self@) is None,
            },
    {
        match self {
            Json::Str(s) => Some(s.as_str()),
            _ => None,
        }
    }

    /// The value of an unsigned integer document.
    pub fn as_u64(&self) -> (r: Option<u64>)
        ensures
            r == uint_of(self@),
    {
        match self {
            Json::Number { uint, .. } => *uint,
            _ => None,
        }
    }
}

/// What [`Json::opt_string`] says.
pub open spec fn opt_str_view(s: Option<Seq<char>>) -> JsonView {
    match s {
        Some(s) => JsonView::Str(s),
        None => JsonView::Null,
    }
}

/// A document as `serde_json` holds it.
#[verifier::external_type_specification]
#[verifier::external_body]
pub struct ExValue(serde_json::Value);

/// What a `serde_json` document holds.
pub uninterp spec fn value_view(v: serde_json::Value) -> JsonView;

/// Whether arrays and objects nest no deeper than `levels`.
pub open spec fn shallow(v: JsonView, levels: nat) -> bool
    decreases levels,
{
    match v {
        JsonView::Array(items) => levels > 0 && forall|i: int|
            0 <= i < items.len() ==> shallow(#[trigger] items[i], (levels - 1) as nat),
        JsonView::Object(members) => levels > 0 && forall|i: int|
            0 <= i < members.len() ==> shallow((#[trigger] members[i]).1, (levels - 1) as nat),
        _ => true,
    }
}

/// How deep a document may be nested that is read by recursion.
pub const MAX_LEVELS: usize = 4;

/// Reads a `serde_json::Value`, variant by variant, with `Number::as_u64` and
/// `Number::to_string` for a number. The members of an object come in the order in which
/// its map is walked. The result is what the name says the value holds. It calls itself for
/// what an array or object holds, so the document must be shallow.
#[verifier::external_body]
pub(crate) fn from_value(v: &serde_json::Value) -> (r: Json)
    requires
        shallow(value_view(*v), MAX_LEVELS as nat),
    ensures
        r@ == value_view(*v),
{
    match v {
        serde_json::Value::Null => Json::Null,
        serde_json::Value::Bool(b) => Json::Bool(*b),
        serde_json::Value::Number(n) => Json::Number { uint: n.as_u64(), text: n.to_string() },
        serde_json::Value::String(s) => Json::Str(s.clone()),
        serde_json::Value::Array(a) => Json::Array(a.iter().map(from_value).collect()),
        serde_json::Value::Object(o) => {
            Json::Object(o.iter().map(|(k, v)| (k.clone(), from_value(v))).collect())
        }
    }
}

/// A document is seen as it is: the items of an array and the members of an object in their order,
/// each with its own name.
pub proof fn law_documents_are_seen_as_they_are(
    b: bool,
    s: String,
    uint: Option<u64>,
    items: Vec<Json>,
    members: Vec<(String, Json)>,
)
    ensures
        Json::Null@ == JsonView::Null,
        Json::Bool(b)@ == JsonView::Bool(b),
        Json::Str(s)@ == JsonView::Str(s@),
        (Json::Number { uint, text: s })@ == (JsonView::Number { uint, text: s@ }),
        Json::Array(items)@ matches JsonView::Array(seen) && seen.len() == items@.len()
            && forall|i: int| 0 <= i < seen.len() ==> #[trigger] seen[i] == items@[i]@,
        Json::Object(members)@ matches JsonView::Object(seen) && seen.len() == members@.len()
            && forall|i: int|
            0 <= i < seen.len() ==> (#[trigger] seen[i]).0 == members@[i].0@ && seen[i].1
                == members@[i].1@,
{
    lemma_array_view(items);
    lemma_object_view(members);
}

/// A text that may be absent is a text document, or null where it is absent; an unsigned integer is
/// a number written in decimal.
pub proof fn law_plain_values_as_documents(s: Seq<char>, n: u64)
    ensures
        opt_str_view(Some(s)) == JsonView::Str(s),
        opt_str_view(None) == JsonView::Null,
        uint_view(n) == (JsonView::Number { uint: Some(n), text: crate::text::dec(n as nat) }),
{
}

} // verus!
