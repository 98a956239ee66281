//! JSON values as the companion app's messages carry them, with the object
//! lookups and member updates that event normalisation needs.
use vstd::prelude::*;
use crate::search::{first_index, lemma_first_index_at, lemma_first_index_is_first};
use crate::text::str_eq;

verus! {

broadcast use {
    vstd::std_specs::vec::axiom_vec_index_decreases,
    vstd::std_specs::vec::axiom_vec_decreases_to_view,
};

/// A JSON number, in the three shapes a JSON parser tells apart: a
/// non-negative integer, a negative integer, or any other number (held as its
/// decimal text).
#[derive(Debug)]
pub enum JsonNumber {
    PosInt(u64),
    NegInt(i64),
    Float(String),
}

/// A JSON value. An object keeps its members in order; a lookup takes the
/// first member with the key.
#[derive(Debug)]
pub enum Json {
    Null,
    Bool(bool),
    Number(JsonNumber),
    Str(String),
    Array(Vec<Json>),
    Object(Vec<JsonMember>),
}

/// One member of a JSON object.
#[derive(Debug)]
pub struct JsonMember {
    pub key: String,
    pub value: Json,
}

/// The mathematical model of a JSON number.
pub enum NumberView {
    PosInt(u64),
    NegInt(i64),
    Float(Seq<char>),
}

/// The mathematical model of a JSON value.
pub enum JsonView {
    Null,
    Bool(bool),
    Number(NumberView),
    Str(Seq<char>),
    Array(Seq<JsonView>),
    Object(Seq<(Seq<char>, JsonView)>),
}

impl JsonNumber {
    pub open spec fn number_view(self) -> NumberView {
        match self {
            JsonNumber::PosInt(u) => NumberView::PosInt(u),
            JsonNumber::NegInt(i) => NumberView::NegInt(i),
            JsonNumber::Float(s) => NumberView::Float(s@),
        }
    }
}

/// The models of the items of an array.
pub open spec fn items_view(items: Seq<Json>) -> Seq<JsonView>
    decreases items,
{
    Seq::new(
        items.len(),
        |i: int|
            if 0 <= i < items.len() {
                items[i].json_view()
            } else {
                JsonView::Null
            },
    )
}

/// The models of the members of an object: each key's characters and the
/// model of its value.
pub open spec fn members_view(members: Seq<JsonMember>) -> Seq<(Seq<char>, JsonView)>
    decreases members,
{
    Seq::new(
        members.len(),
        |i: int|
            if 0 <= i < members.len() {
                (members[i].key@, members[i].value.json_view())
            } else {
                (Seq::empty(), JsonView::Null)
            },
    )
}

impl Json {
    /// The model of a value: strings by their characters, arrays and objects
    /// element by element.
    pub open spec fn json_view(self) -> JsonView
        decreases self,
    {
        match self {
            Json::Null => JsonView::Null,
            Json::Bool(b) => JsonView::Bool(b),
            Json::Number(n) => JsonView::Number(n.number_view()),
            Json::Str(s) => JsonView::Str(s@),
            Json::Array(items) => JsonView::Array(items_view(items@)),
            Json::Object(members) => JsonView::Object(members_view(members@)),
        }
    }
}

impl View for Json {
    type V = JsonView;

    open spec fn view(&self) -> JsonView {
        self.json_view()
    }
}

/// Whether an object member has the key `key`.
pub open spec fn key_is(key: Seq<char>) -> spec_fn((Seq<char>, JsonView)) -> bool {
    |m: (Seq<char>, JsonView)| m.0 == key
}

/// The value of the first member named `key` among `members`.
pub open spec fn member_of(members: Seq<(Seq<char>, JsonView)>, key: Seq<char>) -> Option<JsonView> {
    let i = first_index(members, key_is(key));
    if i >= 0 {
        Some(members[i].1)
    } else {
        None
    }
}

/// The value of the first member named `key`, when `v` is an object.
pub open spec fn member(v: JsonView, key: Seq<char>) -> Option<JsonView> {
    match v {
        JsonView::Object(members) => member_of(members, key),
        _ => None,
    }
}

/// The members with `key` set to `value`: the first member with that key
/// takes the value, or a new member goes at the end.
pub open spec fn with_member(
    members: Seq<(Seq<char>, JsonView)>,
    key: Seq<char>,
    value: JsonView,
) -> Seq<(Seq<char>, JsonView)> {
    let i = first_index(members, key_is(key));
    if i >= 0 {
        members.update(i, (key, value))
    } else {
        members.push((key, value))
    }
}

/// The text of a string value.
pub open spec fn text_of(v: JsonView) -> Option<Seq<char>> {
    match v {
        JsonView::Str(s) => Some(s),
        _ => None,
    }
}

/// The truth value of a boolean value.
pub open spec fn bool_of(v: JsonView) -> Option<bool> {
    match v {
        JsonView::Bool(b) => Some(b),
        _ => None,
    }
}

/// A number that is a non-negative integer.
pub open spec fn u64_of(v: JsonView) -> Option<u64> {
    match v {
        JsonView::Number(NumberView::PosInt(u)) => Some(u),
        _ => None,
    }
}

/// A number that is an integer within `i64`.
pub open spec fn i64_of(v: JsonView) -> Option<i64> {
    match v {
        JsonView::Number(NumberView::PosInt(u)) => if u <= i64::MAX {
            Some(u as i64)
        } else {
            None
        },
        JsonView::Number(NumberView::NegInt(i)) => Some(i),
        _ => None,
    }
}

/// The model of a borrowed value, if there is one.
pub open spec fn opt_view(r: Option<&Json>) -> Option<JsonView> {
    match r {
        Some(j) => Some(j@),
        None => None,
    }
}

/// The model of an owned value, if there is one.
pub open spec fn owned_view(o: Option<Json>) -> Option<JsonView> {
    match o {
        Some(j) => Some(j@),
        None => None,
    }
}

/// The characters of a borrowed string, if there is one.
pub open spec fn opt_text(r: Option<&str>) -> Option<Seq<char>> {
    match r {
        Some(s) => Some(s@),
        None => None,
    }
}

/// A value by its model: `Null` for nothing.
pub open spec fn or_null(v: Option<JsonView>) -> JsonView {
    match v {
        Some(x) => x,
        None => JsonView::Null,
    }
}

/// The position of the first member named `key`.
pub fn find_member(members: &Vec<JsonMember>, key: &str) -> (r: Option<usize>)
    ensures
        match r {
            Some(i) => i < members@.len() && first_index(members_view(members@), key_is(key@)) == i,
            None => first_index(members_view(members@), key_is(key@)) == -1,
        },
{
    let ghost ms = members_view(members@);
    let mut i: usize = 0;
    while i < members.len()
        invariant
            i <= members.len(),
            ms == members_view(members@),
            forall|k: int| 0 <= k < i ==> !(#[trigger] key_is(key@)(ms[k])),
        decreases members.len() - i,
    {
        if str_eq(members[i].key.as_str(), key) {
            proof {
                assert(ms[i as int] == (members[i as int].key@, members[i as int].value.json_view()));
                assert(key_is(key@)(ms[i as int]));
                lemma_first_index_at(ms, key_is(key@), i as int);
            }
            return Some(i);
        }
        i = i + 1;
    }
    proof {
        lemma_first_index_at(ms, key_is(key@), i as int);
    }
    None
}

impl Json {
    /// The value of the first member named `key`; nothing unless this is an
    /// object with such a member.
    pub fn get(&self, key: &str) -> (r: Option<&Json>)
        ensures
            opt_view(r) == member(self@, key@),
    {
        match self {
            Json::Object(members) => match find_member(members, key) {
                Some(i) => Some(&members[i].value),
                None => None,
            },
            _ => None,
        }
    }

    /// The text of a string value.
    pub fn as_str(&self) -> (r: Option<&str>)
        ensures
            opt_text(r) == text_of(self@),
    {
        match self {
            Json::Str(s) => Some(s.as_str()),
            _ => None,
        }
    }

    /// The truth value of a boolean value.
    pub fn as_bool(&self) -> (r: Option<bool>)
        ensures
            r == bool_of(self@),
    {
        match self {
            Json::Bool(b) => Some(*b),
            _ => None,
        }
    }

    /// A number that is a non-negative integer.
    pub fn as_u64(&self) -> (r: Option<u64>)
        ensures
            r == u64_of(self@),
    {
        match self {
            Json::Number(JsonNumber::PosInt(u)) => Some(*u),
            _ => None,
        }
    }

    /// A number that is an integer within `i64`.
    pub fn as_i64(&self) -> (r: Option<i64>)
        ensures
            r == i64_of(self@),
    {
        match self {
            Json::Number(JsonNumber::PosInt(u)) => if *u <= 0x7fff_ffff_ffff_ffffu64 {
                Some(*u as i64)
            } else {
                None
            },
            Json::Number(JsonNumber::NegInt(i)) => Some(*i),
            _ => None,
        }
    }

    /// Whether this is `null`.
    pub fn is_null(&self) -> (b: bool)
        ensures
            b == (self@ is Null),
    {
        match self {
            Json::Null => true,
            _ => false,
        }
    }
}

/// A copy of a value, element by element.
pub fn copy_json(j: &Json) -> (c: Json)
    ensures
        c@ == j@,
    decreases j,
{
    match j {
        Json::Null => Json::Null,
        Json::Bool(b) => Json::Bool(*b),
        Json::Number(n) => Json::Number(
            match n {
                JsonNumber::PosInt(u) => JsonNumber::PosInt(*u),
                JsonNumber::NegInt(i) => JsonNumber::NegInt(*i),
                JsonNumber::Float(s) => JsonNumber::Float(s.clone()),
            },
        ),
        Json::Str(s) => Json::Str(s.clone()),
        Json::Array(items) => {
            let mut out: Vec<Json> = Vec::new();
            let mut i: usize = 0;
            proof {
                assert(decreases_to!(*j => *items));
            }
            while i < items.len()
                invariant
                    decreases_to!(*j => *items),
                    i <= items.len(),
                    out.len() == i,
                    forall|k: int| 0 <= k < i ==> (#[trigger] out[k]).json_view() == items[k].json_view(),
                decreases items.len() - i,
            {
                proof {
                    assert(decreases_to!(*items => items[i as int]));
                }
                let c = copy_json(&items[i]);
                out.push(c);
                i = i + 1;
            }
            assert(items_view(out@) =~= items_view(items@));
            Json::Array(out)
        },
        Json::Object(members) => {
            let mut out: Vec<JsonMember> = Vec::new();
            let mut i: usize = 0;
            proof {
                assert(decreases_to!(*j => *members));
            }
            while i < members.len()
                invariant
                    decreases_to!(*j => *members),
                    i <= members.len(),
                    out.len() == i,
                    forall|k: int|
                        0 <= k < i ==> (#[trigger] out[k]).key@ == members[k].key@
                            && out[k].value.json_view() == members[k].value.json_view(),
                decreases members.len() - i,
            {
                proof {
                    assert(decreases_to!(*members => members[i as int]));
                    assert(decreases_to!(members[i as int] => members[i as int].value));
                }
                let v = copy_json(&members[i].value);
                out.push(JsonMember { key: members[i].key.clone(), value: v });
                i = i + 1;
            }
            assert(members_view(out@) =~= members_view(members@));
            Json::Object(out)
        },
    }
}

/// A copy of a value that may be missing.
pub fn copy_opt(j: Option<&Json>) -> (c: Option<Json>)
    ensures
        owned_view(c) == opt_view(j),
{
    match j {
        Some(v) => Some(copy_json(v)),
        None => None,
    }
}

/// Sets `key` to `value` among an object's members: the first member with
/// the key takes the value, or a new member is appended.
pub fn set_member(members: &mut Vec<JsonMember>, key: String, value: Json)
    ensures
        members_view(final(members)@) == with_member(members_view(old(members)@), key@, value@),
{
    let ghost ms = members_view(members@);
    let ghost kv = key@;
    let ghost vv = value@;
    match find_member(members, key.as_str()) {
        Some(i) => {
            let ghost old_members = members@;
            members.set(i, JsonMember { key, value });
            assert(members_view(members@) =~= ms.update(i as int, (kv, vv))) by {
                assert forall|k: int| 0 <= k < members@.len() && k != i implies members@[k] == old_members[k] by {}
            }
        },
        None => {
            members.push(JsonMember { key, value });
            assert(members_view(members@) =~= ms.push((kv, vv)));
        },
    }
}

/// Appends a member (the caller knows the key is new).
pub fn push_member(members: &mut Vec<JsonMember>, key: &str, value: Json)
    ensures
        members_view(final(members)@) == members_view(old(members)@).push((key@, value@)),
{
    let ghost ms = members_view(members@);
    let ghost vv = value@;
    members.push(JsonMember { key: key.to_owned(), value });
    assert(members_view(members@) =~= ms.push((key@, vv)));
}

/// An object with the given members.
pub fn object(members: Vec<JsonMember>) -> (j: Json)
    ensures
        j@ == JsonView::Object(members_view(members@)),
{
    Json::Object(members)
}

/// An object with no members.
pub fn no_members() -> (members: Vec<JsonMember>)
    ensures
        members_view(members@) == Seq::<(Seq<char>, JsonView)>::empty(),
{
    let members: Vec<JsonMember> = Vec::new();
    assert(members_view(members@) =~= Seq::<(Seq<char>, JsonView)>::empty());
    members
}

/// Reading a member back after setting it: the key gives the value that was
/// set, and every other key gives what it gave before.
pub proof fn lemma_member_after_set(
    members: Seq<(Seq<char>, JsonView)>,
    key: Seq<char>,
    value: JsonView,
    other: Seq<char>,
)
    ensures
        member_of(with_member(members, key, value), key) == Some(value),
        other != key ==> member_of(with_member(members, key, value), other) == member_of(members, other),
{
    let after = with_member(members, key, value);
    let i = first_index(members, key_is(key));
    lemma_first_index_is_first(members, key_is(key));
    lemma_first_index_is_first(members, key_is(other));
    lemma_first_index_is_first(after, key_is(other));
    if i >= 0 {
        assert forall|j: int| 0 <= j < i implies !key_is(key)(#[trigger] after[j]) by {
            assert(after[j] == members[j]);
        }
        lemma_first_index_at(after, key_is(key), i);
        if other != key {
            let j = first_index(members, key_is(other));
            if j >= 0 {
                assert(j != i);
                assert forall|l: int| 0 <= l < j implies !key_is(other)(#[trigger] after[l]) by {
                    if l != i {
                        assert(after[l] == members[l]);
                    }
                }
                assert(after[j] == members[j]);
                lemma_first_index_at(after, key_is(other), j);
            } else {
                assert forall|l: int| 0 <= l < after.len() implies !key_is(other)(#[trigger] after[l]) by {
                    if l != i {
                        assert(after[l] == members[l]);
                    }
                }
                lemma_first_index_at(after, key_is(other), after.len() as int);
            }
        }
    } else {
        assert forall|j: int| 0 <= j < members.len() implies !key_is(key)(#[trigger] after[j]) by {
            assert(after[j] == members[j]);
        }
        lemma_first_index_at(after, key_is(key), members.len() as int);
        if other != key {
            let j = first_index(members, key_is(other));
            if j >= 0 {
                assert forall|l: int| 0 <= l < j implies !key_is(other)(#[trigger] after[l]) by {
                    assert(after[l] == members[l]);
                }
                assert(after[j] == members[j]);
                lemma_first_index_at(after, key_is(other), j);
            } else {
                assert forall|l: int| 0 <= l < after.len() implies !key_is(other)(#[trigger] after[l]) by {
                    if l < members.len() {
                        assert(after[l] == members[l]);
                    }
                }
                lemma_first_index_at(after, key_is(other), after.len() as int);
            }
        }
    }
}

} // verus!
