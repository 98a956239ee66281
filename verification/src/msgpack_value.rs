//! MessagePack values as a generic decoder reads them, and the JSON they
//! stand for when a message does not decode into the protocol's shape
//! directly.
use vstd::prelude::*;
use vstd::utf8::{decode_utf8, valid_utf8};
use crate::json::{
    items_view, members_view, set_member, with_member, Json, JsonMember, JsonNumber, JsonView,
    NumberView,
};
use crate::base64_codec::{base64_encode, base64_standard_encoded};
use crate::search::{first_index, lemma_first_index_at};
use crate::text::{str_eq, str_from_utf8};
use rmpv::Value;

verus! {

broadcast use {
    vstd::std_specs::vec::axiom_vec_index_decreases,
    vstd::std_specs::vec::axiom_vec_decreases_to_view,
};

/// A MessagePack value. Integers are told apart as a decoder reports them
/// (a value that fits `u64`, or a negative one); a float is held as the
/// decimal text of its value when it is finite; a string keeps its raw bytes,
/// which need not be UTF-8.
#[derive(Debug)]
pub enum MsgPackValue {
    Nil,
    Boolean(bool),
    PosInt(u64),
    NegInt(i64),
    Float(Option<String>),
    Str(Vec<u8>),
    Binary(Vec<u8>),
    Array(Vec<MsgPackValue>),
    Mapping(Vec<MsgPackEntry>),
    Ext(i8, Vec<u8>),
}

/// One key/value pair of a map, in the order the encoder wrote it.
#[derive(Debug)]
pub struct MsgPackEntry {
    pub key: MsgPackValue,
    pub value: MsgPackValue,
}

/// The mathematical model of a MessagePack value.
pub enum MsgPackView {
    Nil,
    Boolean(bool),
    PosInt(u64),
    NegInt(i64),
    Float(Option<Seq<char>>),
    Str(Seq<u8>),
    Binary(Seq<u8>),
    Array(Seq<MsgPackView>),
    Mapping(Seq<(MsgPackView, MsgPackView)>),
    Ext(i8, Seq<u8>),
}

/// The models of the items of an array.
pub open spec fn values_view(items: Seq<MsgPackValue>) -> Seq<MsgPackView>
    decreases items,
{
    Seq::new(
        items.len(),
        |i: int|
            if 0 <= i < items.len() {
                items[i].msgpack_view()
            } else {
                MsgPackView::Nil
            },
    )
}

/// The models of the entries of a map.
pub open spec fn entries_view(entries: Seq<MsgPackEntry>) -> Seq<(MsgPackView, MsgPackView)>
    decreases entries,
{
    Seq::new(
        entries.len(),
        |i: int|
            if 0 <= i < entries.len() {
                (entries[i].key.msgpack_view(), entries[i].value.msgpack_view())
            } else {
                (MsgPackView::Nil, MsgPackView::Nil)
            },
    )
}

impl MsgPackValue {
    /// The model of a value: byte strings and texts by their contents,
    /// arrays and maps element by element.
    pub open spec fn msgpack_view(self) -> MsgPackView
        decreases self,
    {
        match self {
            MsgPackValue::Nil => MsgPackView::Nil,
            MsgPackValue::Boolean(b) => MsgPackView::Boolean(b),
            MsgPackValue::PosInt(u) => MsgPackView::PosInt(u),
            MsgPackValue::NegInt(i) => MsgPackView::NegInt(i),
            MsgPackValue::Float(t) => MsgPackView::Float(
                match t {
                    Some(s) => Some(s@),
                    None => None,
                },
            ),
            MsgPackValue::Str(b) => MsgPackView::Str(b@),
            MsgPackValue::Binary(b) => MsgPackView::Binary(b@),
            MsgPackValue::Array(items) => MsgPackView::Array(values_view(items@)),
            MsgPackValue::Mapping(entries) => MsgPackView::Mapping(entries_view(entries@)),
            MsgPackValue::Ext(tag, b) => MsgPackView::Ext(tag, b@),
        }
    }
}

impl View for MsgPackValue {
    type V = MsgPackView;

    open spec fn view(&self) -> MsgPackView {
        self.msgpack_view()
    }
}

/// The text of a string's bytes: their UTF-8 reading, or empty text when
/// they are not UTF-8.
pub open spec fn text_or_empty(bytes: Seq<u8>) -> Seq<char> {
    if valid_utf8(bytes) {
        decode_utf8(bytes)
    } else {
        Seq::empty()
    }
}

/// The JSON a MessagePack value stands for: nil, extension values and
/// non-finite floats are `null`; integers and finite floats are numbers;
/// strings are their text (empty when not UTF-8); binary data is an array of
/// its byte values; a map is an object of its string-keyed entries.
pub open spec fn json_of(v: MsgPackView) -> JsonView
    decreases v,
{
    match v {
        MsgPackView::Nil => JsonView::Null,
        MsgPackView::Boolean(b) => JsonView::Bool(b),
        MsgPackView::PosInt(u) => JsonView::Number(NumberView::PosInt(u)),
        MsgPackView::NegInt(i) => if i >= 0 {
            JsonView::Number(NumberView::PosInt(i as u64))
        } else {
            JsonView::Number(NumberView::NegInt(i))
        },
        MsgPackView::Float(t) => match t {
            Some(s) => JsonView::Number(NumberView::Float(s)),
            None => JsonView::Null,
        },
        MsgPackView::Str(b) => JsonView::Str(text_or_empty(b)),
        MsgPackView::Binary(b) => JsonView::Array(
            Seq::new(b.len(), |i: int| JsonView::Number(NumberView::PosInt(b[i] as u64))),
        ),
        MsgPackView::Array(items) => JsonView::Array(
            Seq::new(
                items.len(),
                |i: int|
                    if 0 <= i < items.len() {
                        json_of(items[i])
                    } else {
                        JsonView::Null
                    },
            ),
        ),
        MsgPackView::Mapping(entries) => JsonView::Object(object_of(entries)),
        MsgPackView::Ext(_, _) => JsonView::Null,
    }
}

/// The members of the object a map stands for: its entries in order, each
/// string-keyed one setting its key (a later entry with the same key
/// replaces the value); entries with other keys are dropped.
pub open spec fn object_of(entries: Seq<(MsgPackView, MsgPackView)>) -> Seq<(Seq<char>, JsonView)>
    decreases entries,
{
    if entries.len() == 0 {
        Seq::empty()
    } else {
        let rest = object_of(entries.subrange(0, entries.len() - 1));
        let last = entries[entries.len() - 1];
        match last.0 {
            MsgPackView::Str(k) => with_member(rest, text_or_empty(k), json_of(last.1)),
            _ => rest,
        }
    }
}

/// The text of a string's bytes, or empty text when they are not UTF-8.
fn text_or_empty_string(bytes: &Vec<u8>) -> (s: String)
    ensures
        s@ == text_or_empty(bytes@),
{
    match str_from_utf8(bytes.as_slice()) {
        Some(t) => t.to_owned(),
        None => String::new(),
    }
}

/// The JSON a MessagePack value stands for (see `json_of`).
pub fn msgpack_to_json(value: &MsgPackValue) -> (j: Json)
    ensures
        j@ == json_of(value@),
    decreases value,
{
    match value {
        MsgPackValue::Nil => Json::Null,
        MsgPackValue::Boolean(b) => Json::Bool(*b),
        MsgPackValue::PosInt(u) => Json::Number(JsonNumber::PosInt(*u)),
        MsgPackValue::NegInt(i) => if *i >= 0 {
            Json::Number(JsonNumber::PosInt(*i as u64))
        } else {
            Json::Number(JsonNumber::NegInt(*i))
        },
        MsgPackValue::Float(t) => match t {
            Some(text) => Json::Number(JsonNumber::Float(text.clone())),
            None => Json::Null,
        },
        MsgPackValue::Str(bytes) => Json::Str(text_or_empty_string(bytes)),
        MsgPackValue::Binary(bytes) => {
            let mut out: Vec<Json> = Vec::new();
            let mut i: usize = 0;
            while i < bytes.len()
                invariant
                    i <= bytes.len(),
                    out.len() == i,
                    forall|k: int|
                        0 <= k < i ==> (#[trigger] out[k]).json_view() == JsonView::Number(
                            NumberView::PosInt(bytes@[k] as u64),
                        ),
                decreases bytes.len() - i,
            {
                out.push(Json::Number(JsonNumber::PosInt(bytes[i] as u64)));
                i = i + 1;
            }
            assert(items_view(out@) =~= Seq::new(
                bytes@.len(),
                |k: int| JsonView::Number(NumberView::PosInt(bytes@[k] as u64)),
            ));
            let j = Json::Array(out);
            assert(j@ == json_of(value@));
            j
        },
        MsgPackValue::Array(items) => {
            let mut out: Vec<Json> = Vec::new();
            let mut i: usize = 0;
            proof {
                assert(decreases_to!(*value => *items));
            }
            while i < items.len()
                invariant
                    decreases_to!(*value => *items),
                    i <= items.len(),
                    out.len() == i,
                    forall|k: int|
                        0 <= k < i ==> (#[trigger] out[k]).json_view() == json_of(
                            items[k].msgpack_view(),
                        ),
                decreases items.len() - i,
            {
                proof {
                    assert(decreases_to!(*items => items[i as int]));
                }
                let c = msgpack_to_json(&items[i]);
                out.push(c);
                i = i + 1;
            }
            proof {
                let vs = values_view(items@);
                assert(value@ == MsgPackView::Array(vs));
                if let JsonView::Array(s) = json_of(value@) {
                    assert(s.len() == vs.len());
                    assert forall|k: int| 0 <= k < s.len() implies s[k] == items_view(out@)[k] by {
                        assert(s[k] == json_of(vs[k]));
                        assert(vs[k] == items[k].msgpack_view());
                    }
                    assert(s =~= items_view(out@));
                }
            }
            let j = Json::Array(out);
            assert(j@ == json_of(value@));
            j
        },
        MsgPackValue::Mapping(entries) => {
            let mut members: Vec<JsonMember> = Vec::new();
            let mut i: usize = 0;
            let ghost ev = entries_view(entries@);
            proof {
                assert(decreases_to!(*value => *entries));
                assert(ev.subrange(0, 0) =~= Seq::<(MsgPackView, MsgPackView)>::empty());
                assert(members_view(members@) =~= Seq::<(Seq<char>, JsonView)>::empty());
            }
            while i < entries.len()
                invariant
                    decreases_to!(*value => *entries),
                    ev == entries_view(entries@),
                    i <= entries.len(),
                    members_view(members@) == object_of(ev.subrange(0, i as int)),
                decreases entries.len() - i,
            {
                proof {
                    assert(decreases_to!(*entries => entries[i as int]));
                    assert(decreases_to!(entries[i as int] => entries[i as int].value));
                    assert(ev.subrange(0, i + 1).subrange(0, i as int) =~= ev.subrange(0, i as int));
                    assert(ev.subrange(0, i + 1)[i as int] == ev[i as int]);
                }
                match &entries[i].key {
                    MsgPackValue::Str(k) => {
                        let key = text_or_empty_string(k);
                        let v = msgpack_to_json(&entries[i].value);
                        set_member(&mut members, key, v);
                    },
                    _ => {},
                }
                i = i + 1;
            }
            assert(ev.subrange(0, i as int) =~= ev);
            let j = Json::Object(members);
            assert(j@ == json_of(value@));
            j
        },
        MsgPackValue::Ext(_, _) => Json::Null,
    }
}

/// Whether `v` is a string whose bytes read as the text `t`.
pub open spec fn is_text(v: MsgPackView, t: Seq<char>) -> bool {
    match v {
        MsgPackView::Str(b) => valid_utf8(b) && decode_utf8(b) == t,
        _ => false,
    }
}

/// Whether a map entry's key is the text `t`.
pub open spec fn key_text_is(t: Seq<char>) -> spec_fn((MsgPackView, MsgPackView)) -> bool {
    |e: (MsgPackView, MsgPackView)| is_text(e.0, t)
}

/// Whether a map is a `result` message: some entry maps the key `type` to
/// the text `result`.
pub open spec fn is_result_message(entries: Seq<(MsgPackView, MsgPackView)>) -> bool {
    exists|i: int|
        0 <= i < entries.len() && is_text(#[trigger] entries[i].0, "type"@) && is_text(
            entries[i].1,
            "result"@,
        )
}

/// A `result` message whose `result` map carries its `data` as binary, with
/// that data as standard base64 text instead (the first `result` and the
/// first `data` entry count); any other value unchanged.
pub open spec fn with_binary_data_as_base64(v: MsgPackView) -> MsgPackView {
    match v {
        MsgPackView::Mapping(root) => {
            let ri = first_index(root, key_text_is("result"@));
            if is_result_message(root) && ri >= 0 {
                match root[ri].1 {
                    MsgPackView::Mapping(result) => {
                        let di = first_index(result, key_text_is("data"@));
                        if di >= 0 {
                            match result[di].1 {
                                MsgPackView::Binary(b) => MsgPackView::Mapping(
                                    root.update(
                                        ri,
                                        (
                                            root[ri].0,
                                            MsgPackView::Mapping(
                                                result.update(
                                                    di,
                                                    (
                                                        result[di].0,
                                                        MsgPackView::Str(base64_standard_encoded(b)),
                                                    ),
                                                ),
                                            ),
                                        ),
                                    ),
                                ),
                                _ => v,
                            }
                        } else {
                            v
                        }
                    },
                    _ => v,
                }
            } else {
                v
            }
        },
        _ => v,
    }
}

/// Whether `v` is a string whose bytes read as `t`.
fn text_is(v: &MsgPackValue, t: &str) -> (r: bool)
    ensures
        r == is_text(v@, t@),
{
    match v {
        MsgPackValue::Str(b) => match str_from_utf8(b.as_slice()) {
            Some(s) => str_eq(s, t),
            None => false,
        },
        _ => false,
    }
}

/// The index of the first entry whose key is the text `t`.
fn find_text_key(entries: &Vec<MsgPackEntry>, t: &str) -> (r: Option<usize>)
    ensures
        match r {
            Some(i) => i < entries@.len() && first_index(entries_view(entries@), key_text_is(t@))
                == i,
            None => first_index(entries_view(entries@), key_text_is(t@)) == -1,
        },
{
    let ghost ev = entries_view(entries@);
    let mut i: usize = 0;
    while i < entries.len()
        invariant
            i <= entries.len(),
            ev == entries_view(entries@),
            forall|k: int| 0 <= k < i ==> !(#[trigger] key_text_is(t@)(ev[k])),
        decreases entries.len() - i,
    {
        if text_is(&entries[i].key, t) {
            proof {
                assert(key_text_is(t@)(ev[i as int]));
                lemma_first_index_at(ev, key_text_is(t@), i as int);
            }
            return Some(i);
        }
        assert(!key_text_is(t@)(ev[i as int]));
        i = i + 1;
    }
    proof {
        lemma_first_index_at(ev, key_text_is(t@), i as int);
    }
    None
}

/// Whether a map is a `result` message (see `is_result_message`).
fn has_result_type(entries: &Vec<MsgPackEntry>) -> (r: bool)
    ensures
        r == is_result_message(entries_view(entries@)),
{
    let ghost ev = entries_view(entries@);
    let mut i: usize = 0;
    while i < entries.len()
        invariant
            i <= entries.len(),
            ev == entries_view(entries@),
            forall|k: int|
                0 <= k < i ==> !(is_text(#[trigger] ev[k].0, "type"@) && is_text(
                    ev[k].1,
                    "result"@,
                )),
        decreases entries.len() - i,
    {
        if text_is(&entries[i].key, "type") && text_is(&entries[i].value, "result") {
            assert(is_text(ev[i as int].0, "type"@) && is_text(ev[i as int].1, "result"@));
            return true;
        }
        i = i + 1;
    }
    false
}

/// Replaces the `index`th entry's value of a map.
fn replace_entry_value(entries: &mut Vec<MsgPackEntry>, index: usize, value: MsgPackValue)
    requires
        index < old(entries)@.len(),
    ensures
        entries_view(final(entries)@) == entries_view(old(entries)@).update(
            index as int,
            (entries_view(old(entries)@)[index as int].0, value@),
        ),
{
    let ghost before = entries_view(entries@);
    let ghost vv = value@;
    let removed = entries.remove(index);
    entries.insert(index, MsgPackEntry { key: removed.key, value });
    assert(entries_view(entries@) =~= before.update(index as int, (before[index as int].0, vv)));
}

/// A `result` message with binary `data` turned into base64 text (see
/// `with_binary_data_as_base64`).
fn with_data_as_base64(v: MsgPackValue) -> (r: MsgPackValue)
    ensures
        r@ == with_binary_data_as_base64(v@),
{
    match v {
        MsgPackValue::Mapping(mut root) => {
            let ghost rv = entries_view(root@);
            if !has_result_type(&root) {
                return MsgPackValue::Mapping(root);
            }
            let ri = match find_text_key(&root, "result") {
                Some(i) => i,
                None => {
                    return MsgPackValue::Mapping(root);
                },
            };
            let data_index = match &root[ri].value {
                MsgPackValue::Mapping(result) => match find_text_key(result, "data") {
                    Some(di) => match &result[di].value {
                        MsgPackValue::Binary(_) => Some(di),
                        _ => None,
                    },
                    None => None,
                },
                _ => None,
            };
            let di = match data_index {
                Some(di) => di,
                None => {
                    return MsgPackValue::Mapping(root);
                },
            };
            let removed = root.remove(ri);
            let MsgPackEntry { key, value } = removed;
            match value {
                MsgPackValue::Mapping(mut result) => {
                    let ghost resv = entries_view(result@);
                    let encoded = match &result[di].value {
                        MsgPackValue::Binary(bytes) => base64_encode(bytes.as_slice()),
                        _ => Vec::new(),
                    };
                    replace_entry_value(&mut result, di, MsgPackValue::Str(encoded));
                    let ghost newres = entries_view(result@);
                    root.insert(ri, MsgPackEntry { key, value: MsgPackValue::Mapping(result) });
                    assert(entries_view(root@) =~= rv.update(
                        ri as int,
                        (rv[ri as int].0, MsgPackView::Mapping(newres)),
                    ));
                    MsgPackValue::Mapping(root)
                },
                other => {
                    root.insert(ri, MsgPackEntry { key, value: other });
                    MsgPackValue::Mapping(root)
                },
            }
        },
        other => other,
    }
}

/// Turns the binary `data` of a `result` message into standard base64
/// text, so the message reads as JSON the way a text-encoded one does.
pub fn normalize_transfer_result_binary(value: &mut MsgPackValue)
    ensures
        final(value)@ == with_binary_data_as_base64(old(value)@),
{
    let mut v = MsgPackValue::Nil;
    std::mem::swap(&mut v, value);
    *value = with_data_as_base64(v);
}

#[verifier::external_type_specification]
#[verifier::external_body]
pub struct ExRmpvValue(Value);

/// The value `rmpv::decode::read_value` reads from the front of `bytes`
/// (`None` when they do not start with a MessagePack value), as modelled by
/// `MsgPackValue`.
pub uninterp spec fn msgpack_decoded(bytes: Seq<u8>) -> Option<MsgPackView>;

/// How a decoded integer is told apart: by whether it fits `u64`, else by
/// whether it fits `i64` (a MessagePack integer always fits one of them).
fn integer_model(unsigned: Option<u64>, signed: Option<i64>) -> (v: MsgPackValue)
    ensures
        v@ == match (unsigned, signed) {
            (Some(u), _) => MsgPackView::PosInt(u),
            (None, Some(s)) => MsgPackView::NegInt(s),
            (None, None) => MsgPackView::Nil,
        },
{
    match (unsigned, signed) {
        (Some(u), _) => MsgPackValue::PosInt(u),
        (None, Some(s)) => MsgPackValue::NegInt(s),
        (None, None) => MsgPackValue::Nil,
    }
}

/// The items of a decoded array, each modelled, in order.
fn items_model(items: Vec<Value>) -> (out: Vec<MsgPackValue>)
    ensures
        out.len() == items.len(),
{
    let mut rest = items;
    let mut out: Vec<MsgPackValue> = Vec::new();
    while rest.len() > 0
        invariant
            out.len() + rest.len() == items.len(),
        decreases rest.len(),
    {
        let item = rest.remove(0);
        out.push(rmpv_model(item));
    }
    out
}

/// The entries of a decoded map, each key and value modelled, in order.
fn entries_model(entries: Vec<(Value, Value)>) -> (out: Vec<MsgPackEntry>)
    ensures
        out.len() == entries.len(),
{
    let mut rest = entries;
    let mut out: Vec<MsgPackEntry> = Vec::new();
    while rest.len() > 0
        invariant
            out.len() + rest.len() == entries.len(),
        decreases rest.len(),
    {
        let (key, value) = rest.remove(0);
        out.push(MsgPackEntry { key: rmpv_model(key), value: rmpv_model(value) });
    }
    out
}

/// The JSON number text of a decoded float (`rmpv::Value::as_f64`, then
/// `serde_json::Number::from_f64`): `None` when it is not finite.
#[verifier::external_body]
fn float_text(value: &Value) -> Option<String> {
    value.as_f64().and_then(serde_json::Number::from_f64).map(|n| n.to_string())
}

/// The library model of a value `rmpv` decoded, variant by variant: strings
/// by their raw bytes, integers and floats as the functions above tell them.
#[verifier::external_body]
fn rmpv_model(value: Value) -> MsgPackValue {
    match value {
        Value::Nil => MsgPackValue::Nil,
        Value::Boolean(b) => MsgPackValue::Boolean(b),
        Value::Integer(i) => integer_model(i.as_u64(), i.as_i64()),
        Value::F32(_) | Value::F64(_) => MsgPackValue::Float(float_text(&value)),
        Value::String(s) => MsgPackValue::Str(s.into_bytes()),
        Value::Binary(b) => MsgPackValue::Binary(b),
        Value::Array(items) => MsgPackValue::Array(items_model(items)),
        Value::Map(entries) => MsgPackValue::Mapping(entries_model(entries)),
        Value::Ext(tag, data) => MsgPackValue::Ext(tag, data),
    }
}

/// `rmpv::decode::read_value` on `bytes`, modelled: a pure function of the
/// bytes, named by `msgpack_decoded`. Which value a byte string encodes (the
/// MessagePack format) is not restated here.
#[verifier::external_body]
fn decode_msgpack(bytes: &[u8]) -> (v: Option<MsgPackValue>)
    ensures
        match v {
            Some(x) => msgpack_decoded(bytes@) == Some(x@),
            None => msgpack_decoded(bytes@) is None,
        },
{
    rmpv::decode::read_value(&mut &bytes[..]).ok().map(rmpv_model)
}

/// The JSON a complete message that did not decode into the protocol's shape
/// stands for: the generic MessagePack value it holds, with the binary
/// `data` of a `result` as base64 text; `None` when the bytes are not
/// MessagePack.
pub fn decode_complete_message(bytes: &[u8]) -> (j: Option<Json>)
    ensures
        match msgpack_decoded(bytes@) {
            Some(m) => j matches Some(x) && x@ == json_of(with_binary_data_as_base64(m)),
            None => j is None,
        },
{
    match decode_msgpack(bytes) {
        Some(v) => {
            let mut value = v;
            normalize_transfer_result_binary(&mut value);
            Some(msgpack_to_json(&value))
        },
        None => None,
    }
}

} // verus!
