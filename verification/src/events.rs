//! The companion app's events as the daemon passes them on: each known
//! topic's payload rewritten with its canonical (snake_case) field names,
//! whichever spelling the phone used.
use vstd::prelude::*;
use vstd::string::*;
use crate::address::{address_chars, address_text, Address};
use crate::dispatch::{
    CallRoute, media_control_response_kind, media_response_for, ota_call_for, ota_call_kind, reported_volume, OtaCall,
};
use crate::json::{
    find_member, key_is, member_of, owned_view, bool_of, copy_json, object, copy_opt, i64_of, member, members_view, no_members, opt_view, or_null,
    push_member, set_member, text_of, u64_of, with_member, Json, JsonMember, JsonNumber, JsonView,
    NumberView,
};
use crate::search::{first_index, lemma_first_index_at, lemma_first_index_is_first};
use crate::text::{ascii_string, concat, remove_all, str_eq, without_all};
use crate::base64_codec::{base64_encode, base64_standard_encoded, is_base64_symbol};
use crate::chunking::ascii_chars;

verus! {

// ---------------------------------------------------------------------------
// Reading fields under either of two spellings.

/// The value under `first`, or else under `second`.
pub open spec fn field(data: JsonView, first: Seq<char>, second: Seq<char>) -> Option<JsonView> {
    match member(data, first) {
        Some(v) => Some(v),
        None => member(data, second),
    }
}

/// The value under the first of three names that is present.
pub open spec fn field3(data: JsonView, a: Seq<char>, b: Seq<char>, c: Seq<char>) -> Option<JsonView> {
    match member(data, a) {
        Some(v) => Some(v),
        None => field(data, b, c),
    }
}

/// The text of a field; nothing when the value found is not a string.
pub open spec fn field_text(data: JsonView, first: Seq<char>, second: Seq<char>) -> Option<Seq<char>> {
    match field(data, first, second) {
        Some(v) => text_of(v),
        None => None,
    }
}

/// The truth value of a field; nothing when the value found is not a boolean.
pub open spec fn field_bool(data: JsonView, first: Seq<char>, second: Seq<char>) -> Option<bool> {
    match field(data, first, second) {
        Some(v) => bool_of(v),
        None => None,
    }
}

/// A field that is a non-negative integer.
pub open spec fn field_u64(data: JsonView, first: Seq<char>, second: Seq<char>) -> Option<u64> {
    match field(data, first, second) {
        Some(v) => u64_of(v),
        None => None,
    }
}

/// A field that is an integer within `i64`.
pub open spec fn field_i64(data: JsonView, first: Seq<char>, second: Seq<char>) -> Option<i64> {
    match field(data, first, second) {
        Some(v) => i64_of(v),
        None => None,
    }
}

/// The characters of an owned string, if there is one.
pub open spec fn opt_chars(s: Option<String>) -> Option<Seq<char>> {
    match s {
        Some(t) => Some(t@),
        None => None,
    }
}

fn either<'a>(data: &'a Json, first: &str, second: &str) -> (r: Option<&'a Json>)
    ensures
        opt_view(r) == field(data@, first@, second@),
{
    match data.get(first) {
        Some(v) => Some(v),
        None => data.get(second),
    }
}

/// The text under `snake`, or else under `camel`; nothing when the value
/// found is not a string.
pub fn string_field(data: &Json, snake: &str, camel: &str) -> (r: Option<String>)
    ensures
        opt_chars(r) == field_text(data@, snake@, camel@),
{
    match either(data, snake, camel) {
        Some(v) => match v.as_str() {
            Some(s) => Some(s.to_owned()),
            None => None,
        },
        None => None,
    }
}

/// The boolean under `snake`, or else under `camel`.
pub fn bool_field(data: &Json, snake: &str, camel: &str) -> (r: Option<bool>)
    ensures
        r == field_bool(data@, snake@, camel@),
{
    match either(data, snake, camel) {
        Some(v) => v.as_bool(),
        None => None,
    }
}

/// The non-negative integer under `snake`, or else under `camel`.
pub fn u64_field(data: &Json, snake: &str, camel: &str) -> (r: Option<u64>)
    ensures
        r == field_u64(data@, snake@, camel@),
{
    match either(data, snake, camel) {
        Some(v) => v.as_u64(),
        None => None,
    }
}

/// The `i64` integer under `snake`, or else under `camel`.
pub fn i64_field(data: &Json, snake: &str, camel: &str) -> (r: Option<i64>)
    ensures
        r == field_i64(data@, snake@, camel@),
{
    match either(data, snake, camel) {
        Some(v) => v.as_i64(),
        None => None,
    }
}

// ---------------------------------------------------------------------------
// Writing canonical fields: an absent optional field is written as `null`.

/// A string, or `null`.
pub open spec fn text_json(t: Option<Seq<char>>) -> JsonView {
    match t {
        Some(s) => JsonView::Str(s),
        None => JsonView::Null,
    }
}

/// A boolean, or `null`.
pub open spec fn bool_json(b: Option<bool>) -> JsonView {
    match b {
        Some(x) => JsonView::Bool(x),
        None => JsonView::Null,
    }
}

/// An unsigned integer.
pub open spec fn u64_json(n: u64) -> JsonView {
    JsonView::Number(NumberView::PosInt(n))
}

/// An unsigned integer, or `null`.
pub open spec fn opt_u64_json(n: Option<u64>) -> JsonView {
    match n {
        Some(x) => u64_json(x),
        None => JsonView::Null,
    }
}

/// A signed integer, or `null`. A JSON number that is not negative is a
/// non-negative integer, whatever type it was written from.
pub open spec fn opt_i64_json(n: Option<i64>) -> JsonView {
    match n {
        Some(x) => if x >= 0 {
            JsonView::Number(NumberView::PosInt(x as u64))
        } else {
            JsonView::Number(NumberView::NegInt(x))
        },
        None => JsonView::Null,
    }
}

fn text_value(t: Option<String>) -> (j: Json)
    ensures
        j@ == text_json(opt_chars(t)),
{
    match t {
        Some(s) => Json::Str(s),
        None => Json::Null,
    }
}

fn bool_value(b: Option<bool>) -> (j: Json)
    ensures
        j@ == bool_json(b),
{
    match b {
        Some(x) => Json::Bool(x),
        None => Json::Null,
    }
}

fn u64_value(n: Option<u64>) -> (j: Json)
    ensures
        j@ == opt_u64_json(n),
{
    match n {
        Some(x) => Json::Number(JsonNumber::PosInt(x)),
        None => Json::Null,
    }
}

fn i64_value(n: Option<i64>) -> (j: Json)
    ensures
        j@ == opt_i64_json(n),
{
    match n {
        Some(x) => if x >= 0 {
            Json::Number(JsonNumber::PosInt(x as u64))
        } else {
            Json::Number(JsonNumber::NegInt(x))
        },
        None => Json::Null,
    }
}

fn value_or_null(v: Option<Json>) -> (j: Json)
    ensures
        j@ == match v {
            Some(x) => x@,
            None => JsonView::Null,
        },
{
    match v {
        Some(x) => x,
        None => Json::Null,
    }
}

// ---------------------------------------------------------------------------
// Device events.

/// `app.ready` with its canonical fields.
pub open spec fn app_ready_view(data: JsonView) -> JsonView {
    JsonView::Object(
        seq![
            ("datetime"@, text_json(field_text(data, "datetime"@, "datetime"@))),
            ("timezone"@, or_null(member(data, "timezone"@))),
            ("platform"@, text_json(field_text(data, "platform"@, "platform"@))),
            ("subscribed"@, bool_json(field_bool(data, "subscribed"@, "subscribed"@))),
            ("subscription_status"@, text_json(field_text(data, "subscription_status"@, "subscriptionStatus"@))),
            ("has_lifetime"@, bool_json(field_bool(data, "has_lifetime"@, "hasLifetime"@))),
            ("is_admin"@, bool_json(field_bool(data, "is_admin"@, "isAdmin"@))),
            ("entitlements_verified"@, bool_json(field_bool(data, "entitlements_verified"@, "entitlementsVerified"@))),
            ("spotify_skipped"@, bool_json(field_bool(data, "spotify_skipped"@, "spotifySkipped"@))),
        ],
    )
}

/// `subscription.updated` with its canonical fields.
pub open spec fn subscription_updated_view(data: JsonView) -> JsonView {
    JsonView::Object(
        seq![
            ("subscribed"@, bool_json(field_bool(data, "subscribed"@, "subscribed"@))),
            ("subscription_status"@, text_json(field_text(data, "subscription_status"@, "subscriptionStatus"@))),
            ("has_lifetime"@, bool_json(field_bool(data, "has_lifetime"@, "hasLifetime"@))),
            ("is_admin"@, bool_json(field_bool(data, "is_admin"@, "isAdmin"@))),
            ("entitlements_verified"@, bool_json(field_bool(data, "entitlements_verified"@, "entitlementsVerified"@))),
        ],
    )
}

/// `notification.show` read field by field, under either spelling (a
/// missing title is empty).
pub open spec fn notification_show_view(data: JsonView) -> JsonView {
    JsonView::Object(
        seq![
            ("id"@, text_json(field_text(data, "id"@, "id"@))),
            ("title"@, JsonView::Str(
                match field_text(data, "title"@, "title"@) {
                    Some(t) => t,
                    None => ""@,
                },
            )),
            ("body"@, text_json(field_text(data, "body"@, "body"@))),
            ("subtitle"@, text_json(field_text(data, "subtitle"@, "subtitle"@))),
            ("category"@, text_json(field_text(data, "category"@, "category"@))),
            ("days_until_expiry"@, opt_i64_json(field_i64(data, "days_until_expiry"@, "daysUntilExpiry"@))),
            ("timestamp"@, opt_u64_json(field_u64(data, "timestamp"@, "timestamp"@))),
            ("app_bundle_id"@, text_json(field_text(data, "app_bundle_id"@, "appBundleId"@))),
            ("app_name"@, text_json(field_text(data, "app_name"@, "appName"@))),
            ("silent"@, bool_json(field_bool(data, "silent"@, "silent"@))),
            ("important"@, bool_json(field_bool(data, "important"@, "important"@))),
            ("pre_existing"@, bool_json(field_bool(data, "pre_existing"@, "preExisting"@))),
        ],
    )
}

/// Rewrites an `app.ready` payload with its canonical fields.
pub fn normalize_app_ready_event(data: Json) -> (out: Json)
    ensures
        out@ == app_ready_view(data@),
{
    let mut m = no_members();
    push_member(&mut m, "datetime", text_value(string_field(&data, "datetime", "datetime")));
    push_member(&mut m, "timezone", value_or_null(copy_opt(data.get("timezone"))));
    push_member(&mut m, "platform", text_value(string_field(&data, "platform", "platform")));
    push_member(&mut m, "subscribed", bool_value(bool_field(&data, "subscribed", "subscribed")));
    push_member(
        &mut m,
        "subscription_status",
        text_value(string_field(&data, "subscription_status", "subscriptionStatus")),
    );
    push_member(&mut m, "has_lifetime", bool_value(bool_field(&data, "has_lifetime", "hasLifetime")));
    push_member(&mut m, "is_admin", bool_value(bool_field(&data, "is_admin", "isAdmin")));
    push_member(
        &mut m,
        "entitlements_verified",
        bool_value(bool_field(&data, "entitlements_verified", "entitlementsVerified")),
    );
    push_member(&mut m, "spotify_skipped", bool_value(bool_field(&data, "spotify_skipped", "spotifySkipped")));
    assert(members_view(m@) =~= app_ready_view(data@)->Object_0);
    object(m)
}

/// Rewrites a `subscription.updated` payload with its canonical fields.
pub fn normalize_entitlement_update_event(data: Json) -> (out: Json)
    ensures
        out@ == subscription_updated_view(data@),
{
    let mut m = no_members();
    push_member(&mut m, "subscribed", bool_value(bool_field(&data, "subscribed", "subscribed")));
    push_member(
        &mut m,
        "subscription_status",
        text_value(string_field(&data, "subscription_status", "subscriptionStatus")),
    );
    push_member(&mut m, "has_lifetime", bool_value(bool_field(&data, "has_lifetime", "hasLifetime")));
    push_member(&mut m, "is_admin", bool_value(bool_field(&data, "is_admin", "isAdmin")));
    push_member(
        &mut m,
        "entitlements_verified",
        bool_value(bool_field(&data, "entitlements_verified", "entitlementsVerified")),
    );
    assert(members_view(m@) =~= subscription_updated_view(data@)->Object_0);
    object(m)
}

/// Rewrites a `notification.show` payload. `decoded` is the payload as the
/// notification schema reads it, written back out, when the payload fits
/// that schema; otherwise each field is read under either spelling.
pub fn normalize_notification_show_event(data: Json, decoded: Option<Json>) -> (out: Json)
    ensures
        out@ == match decoded {
            Some(d) => d@,
            None => notification_show_view(data@),
        },
{
    match decoded {
        Some(d) => d,
        None => {
            let mut m = no_members();
            push_member(&mut m, "id", text_value(string_field(&data, "id", "id")));
            let title = match string_field(&data, "title", "title") {
                Some(t) => t,
                None => "".to_owned(),
            };
            push_member(&mut m, "title", Json::Str(title));
            push_member(&mut m, "body", text_value(string_field(&data, "body", "body")));
            push_member(&mut m, "subtitle", text_value(string_field(&data, "subtitle", "subtitle")));
            push_member(&mut m, "category", text_value(string_field(&data, "category", "category")));
            push_member(
                &mut m,
                "days_until_expiry",
                i64_value(i64_field(&data, "days_until_expiry", "daysUntilExpiry")),
            );
            push_member(&mut m, "timestamp", u64_value(u64_field(&data, "timestamp", "timestamp")));
            push_member(
                &mut m,
                "app_bundle_id",
                text_value(string_field(&data, "app_bundle_id", "appBundleId")),
            );
            push_member(&mut m, "app_name", text_value(string_field(&data, "app_name", "appName")));
            push_member(&mut m, "silent", bool_value(bool_field(&data, "silent", "silent")));
            push_member(&mut m, "important", bool_value(bool_field(&data, "important", "important")));
            push_member(&mut m, "pre_existing", bool_value(bool_field(&data, "pre_existing", "preExisting")));
            assert(members_view(m@) =~= notification_show_view(data@)->Object_0);
    object(m)
        },
    }
}

/// Topics whose payload is passed on as its schema reads it, when it fits.
pub open spec fn schema_topic(topic: Seq<char>) -> bool {
    ||| topic == "network.status"@
    ||| topic == "chunk.retransmit_request"@
    ||| topic == "audio.recording.started"@
    ||| topic == "audio.data"@
    ||| topic == "audio.recording.stopped"@
}

/// A Bluetooth-only event's payload after normalisation.
pub open spec fn bt_only_view(topic: Seq<char>, data: JsonView, decoded: Option<JsonView>) -> JsonView {
    if topic == "app.ready"@ {
        app_ready_view(data)
    } else if topic == "subscription.updated"@ {
        subscription_updated_view(data)
    } else if topic == "notification.show"@ {
        match decoded {
            Some(d) => d,
            None => notification_show_view(data),
        }
    } else if schema_topic(topic) {
        match decoded {
            Some(d) => d,
            None => data,
        }
    } else {
        data
    }
}

/// Normalises a Bluetooth-only event: `app.ready` and
/// `subscription.updated` are rewritten field by field; `notification.show`
/// and the schema topics take `decoded` (the payload as the topic's schema
/// reads it, written back out) when the payload fits; any other topic passes
/// through. The topic is kept.
pub fn normalize_bt_only_event(topic: String, data: Json, decoded: Option<Json>) -> (r: (String, Json))
    ensures
        r.0@ == topic@,
        r.1@ == bt_only_view(topic@, data@, owned_view(decoded)),
{
    let t = topic.as_str();
    let out = if str_eq(t, "app.ready") {
        normalize_app_ready_event(data)
    } else if str_eq(t, "subscription.updated") {
        normalize_entitlement_update_event(data)
    } else if str_eq(t, "notification.show") {
        normalize_notification_show_event(data, decoded)
    } else if str_eq(t, "network.status") || str_eq(t, "chunk.retransmit_request") || str_eq(
        t,
        "audio.recording.started",
    ) || str_eq(t, "audio.data") || str_eq(t, "audio.recording.stopped") {
        match decoded {
            Some(d) => d,
            None => data,
        }
    } else {
        data
    };
    (topic, out)
}

/// Topics of phone-call events.
pub open spec fn phone_call_topic(topic: Seq<char>) -> bool {
    topic == "phone.call.started"@ || topic == "phone.call.updated"@ || topic == "phone.call.ended"@
}

/// A phone-call event names the phone the daemon is connected to: its
/// `device` member is set to that peer's address (added if missing). Other
/// topics, other payloads, or no peer: unchanged.
pub open spec fn phone_source_view(topic: Seq<char>, data: JsonView, peer: Option<Address>) -> JsonView {
    match (peer, data) {
        (Some(p), JsonView::Object(ms)) => if phone_call_topic(topic) {
            JsonView::Object(with_member(ms, "device"@, JsonView::Str(address_chars(p))))
        } else {
            data
        },
        _ => data,
    }
}

/// Marks a phone-call event with the address of the phone it came from, as
/// the daemon observed the connection.
pub fn attach_phone_source(topic: &str, data: Json, connection_peer: Option<Address>) -> (out: Json)
    ensures
        out@ == phone_source_view(topic@, data@, connection_peer),
{
    if str_eq(topic, "phone.call.started") || str_eq(topic, "phone.call.updated") || str_eq(
        topic,
        "phone.call.ended",
    ) {
        match (connection_peer, data) {
            (Some(peer), Json::Object(mut members)) => {
                set_member(&mut members, "device".to_owned(), Json::Str(address_text(&peer)));
                Json::Object(members)
            },
            (_, other) => other,
        }
    } else {
        data
    }
}

// ---------------------------------------------------------------------------
// Voice and assistant events.

/// Text, or `default` when there is none.
pub open spec fn text_or(t: Option<Seq<char>>, default: Seq<char>) -> Seq<char> {
    match t {
        Some(s) => s,
        None => default,
    }
}

/// One step of a merge: a member whose key is already present is dropped,
/// any other is appended.
pub open spec fn merge_step(
    acc: Seq<(Seq<char>, JsonView)>,
    m: (Seq<char>, JsonView),
) -> Seq<(Seq<char>, JsonView)> {
    if member_of(acc, m.0) is Some {
        acc
    } else {
        acc.push(m)
    }
}

/// `acc` with the members of `extra`, in order, whose keys it lacks.
pub open spec fn merged_members(
    acc: Seq<(Seq<char>, JsonView)>,
    extra: Seq<(Seq<char>, JsonView)>,
) -> Seq<(Seq<char>, JsonView)>
    decreases extra.len(),
{
    if extra.len() == 0 {
        acc
    } else {
        merged_members(merge_step(acc, extra[0]), extra.drop_first())
    }
}

/// The canonical payload with the phone's other members kept after it:
/// canonical fields win; a payload that is not an object adds nothing.
pub open spec fn merge_view(canonical: JsonView, phone_payload: JsonView) -> JsonView {
    match (canonical, phone_payload) {
        (JsonView::Object(c), JsonView::Object(o)) => JsonView::Object(merged_members(c, o)),
        _ => canonical,
    }
}

/// Keeps the phone's extra metadata: each member of `phone_payload` whose key the
/// canonical payload lacks is added to it.
pub fn merge_voice_metadata(canonical: Json, phone_payload: Json) -> (out: Json)
    ensures
        out@ == merge_view(canonical@, phone_payload@),
{
    match canonical {
        Json::Object(mut c) => match phone_payload {
            Json::Object(o) => {
                let ghost target = merged_members(members_view(c@), members_view(o@));
                assert(members_view(o@).skip(0) =~= members_view(o@));
                let mut i: usize = 0;
                while i < o.len()
                    invariant
                        i <= o.len(),
                        merged_members(members_view(c@), members_view(o@).skip(i as int)) == target,
                    decreases o.len() - i,
                {
                    let ghost s = members_view(o@).skip(i as int);
                    proof {
                        assert(s[0] == (o[i as int].key@, o[i as int].value@));
                        assert(s.drop_first() =~= members_view(o@).skip(i as int + 1));
                    }
                    match find_member(&c, o[i].key.as_str()) {
                        Some(_) => {},
                        None => {
                            push_member(&mut c, o[i].key.as_str(), copy_json(&o[i].value));
                        },
                    }
                    i = i + 1;
                }
                assert(members_view(o@).skip(i as int) =~= Seq::<(Seq<char>, JsonView)>::empty());
                object(c)
            },
            _ => object(c),
        },
        other => other,
    }
}

/// A key's value after a member is appended: unchanged where the key was
/// present, else the new member's value if it has the key.
proof fn lemma_member_of_push(c: Seq<(Seq<char>, JsonView)>, m: (Seq<char>, JsonView), key: Seq<char>)
    ensures
        member_of(c.push(m), key) == match member_of(c, key) {
            Some(v) => Some(v),
            None => if m.0 == key {
                Some(m.1)
            } else {
                None
            },
        },
{
    let after = c.push(m);
    lemma_first_index_is_first(c, key_is(key));
    let i = first_index(c, key_is(key));
    if i >= 0 {
        assert forall|j: int| 0 <= j < i implies !key_is(key)(#[trigger] after[j]) by {
            assert(after[j] == c[j]);
        }
        assert(after[i] == c[i]);
        lemma_first_index_at(after, key_is(key), i);
    } else {
        assert forall|j: int| 0 <= j < c.len() implies !key_is(key)(#[trigger] after[j]) by {
            assert(after[j] == c[j]);
        }
        lemma_first_index_at(after, key_is(key), c.len() as int);
        if m.0 != key {
            lemma_first_index_at(after, key_is(key), after.len() as int);
        }
    }
}

/// A key's value in a non-empty member list: the first member's when it has
/// the key, else the value among the rest.
proof fn lemma_member_of_first(o: Seq<(Seq<char>, JsonView)>, key: Seq<char>)
    requires
        o.len() > 0,
    ensures
        member_of(o, key) == if o[0].0 == key {
            Some(o[0].1)
        } else {
            member_of(o.drop_first(), key)
        },
{
    if o[0].0 != key {
        let r = first_index(o.drop_first(), key_is(key));
        if r >= 0 {
            lemma_first_index_is_first(o.drop_first(), key_is(key));
            assert(o[r + 1] == o.drop_first()[r]);
        }
    }
}

/// Merging keeps every canonical field and adds the phone's others: after a
/// merge a key reads as in the canonical payload when that has it, and
/// otherwise as in the phone's payload.
pub proof fn lemma_merge_prefers_canonical(
    canonical: Seq<(Seq<char>, JsonView)>,
    phone_payload: Seq<(Seq<char>, JsonView)>,
    key: Seq<char>,
)
    ensures
        member_of(merged_members(canonical, phone_payload), key) == match member_of(canonical, key) {
            Some(v) => Some(v),
            None => member_of(phone_payload, key),
        },
    decreases phone_payload.len(),
{
    if phone_payload.len() == 0 {
        lemma_first_index_is_first(phone_payload, key_is(key));
    } else {
        let m = phone_payload[0];
        let next = merge_step(canonical, m);
        lemma_merge_prefers_canonical(next, phone_payload.drop_first(), key);
        lemma_member_of_first(phone_payload, key);
        if member_of(canonical, m.0) is None {
            lemma_member_of_push(canonical, m, key);
        } else if m.0 == key {
            assert(member_of(canonical, key) is Some);
        }
    }
}

/// `voice.transcription` with its canonical fields.
pub open spec fn transcription_view(data: JsonView) -> JsonView {
    JsonView::Object(
        seq![
            ("transcript"@, JsonView::Str(text_or(field_text(data, "transcript"@, "text"@), ""@))),
            ("is_final"@, JsonView::Bool(
                match field_bool(data, "is_final"@, "isFinal"@) {
                    Some(b) => b,
                    None => false,
                },
            )),
            ("session_id"@, text_json(field_text(data, "session_id"@, "sessionId"@))),
        ],
    )
}

/// `ai.state` with its canonical fields (the state defaults to `idle`).
pub open spec fn ai_state_view(data: JsonView) -> JsonView {
    JsonView::Object(
        seq![
            ("state"@, JsonView::Str(text_or(field_text(data, "state"@, "state"@), "idle"@))),
            ("message"@, text_json(field_text(data, "message"@, "message"@))),
            ("session_id"@, text_json(field_text(data, "session_id"@, "sessionId"@))),
        ],
    )
}

/// `ai.response` with its canonical fields.
pub open spec fn ai_response_view(data: JsonView) -> JsonView {
    JsonView::Object(
        seq![
            ("message"@, text_json(field_text(data, "message"@, "message"@))),
            ("text"@, text_json(field_text(data, "text"@, "response"@))),
            ("is_final"@, bool_json(field_bool(data, "is_final"@, "isFinal"@))),
            ("session_id"@, text_json(field_text(data, "session_id"@, "sessionId"@))),
        ],
    )
}

/// `ai.tool_executed` with its canonical fields (the tool's name falls back
/// to `tool`).
pub open spec fn ai_tool_view(data: JsonView) -> JsonView {
    JsonView::Object(
        seq![
            ("tool_name"@, text_json(
                match field3(data, "tool_name"@, "toolName"@, "tool"@) {
                    Some(v) => text_of(v),
                    None => None,
                },
            )),
            ("tool"@, text_json(field_text(data, "tool"@, "tool"@))),
            ("call_id"@, text_json(field_text(data, "call_id"@, "callId"@))),
            ("status"@, text_json(field_text(data, "status"@, "status"@))),
            ("tool_arguments"@, or_null(field(data, "tool_arguments"@, "toolArguments"@))),
            ("result"@, or_null(member(data, "result"@))),
            ("error"@, text_json(field_text(data, "error"@, "error"@))),
            ("session_id"@, text_json(field_text(data, "session_id"@, "sessionId"@))),
        ],
    )
}

/// A voice or assistant event's payload after normalisation: the canonical
/// fields, then the phone's other metadata. Other topics pass through.
pub open spec fn voice_event_view(topic: Seq<char>, data: JsonView) -> JsonView {
    if topic == "voice.transcription"@ {
        merge_view(transcription_view(data), data)
    } else if topic == "ai.state"@ {
        merge_view(ai_state_view(data), data)
    } else if topic == "ai.response"@ {
        merge_view(ai_response_view(data), data)
    } else if topic == "ai.tool_executed"@ {
        merge_view(ai_tool_view(data), data)
    } else {
        data
    }
}

fn either3<'a>(data: &'a Json, a: &str, b: &str, c: &str) -> (r: Option<&'a Json>)
    ensures
        opt_view(r) == field3(data@, a@, b@, c@),
{
    match data.get(a) {
        Some(v) => Some(v),
        None => either(data, b, c),
    }
}

fn transcription_payload(data: &Json) -> (out: Json)
    ensures
        out@ == transcription_view(data@),
{
    let mut m = no_members();
    let transcript = match string_field(data, "transcript", "text") {
        Some(t) => t,
        None => "".to_owned(),
    };
    push_member(&mut m, "transcript", Json::Str(transcript));
    let is_final = match bool_field(data, "is_final", "isFinal") {
        Some(b) => b,
        None => false,
    };
    push_member(&mut m, "is_final", Json::Bool(is_final));
    push_member(&mut m, "session_id", text_value(string_field(data, "session_id", "sessionId")));
    assert(members_view(m@) =~= transcription_view(data@)->Object_0);
    object(m)
}

fn ai_state_payload(data: &Json) -> (out: Json)
    ensures
        out@ == ai_state_view(data@),
{
    let mut m = no_members();
    let state = match string_field(data, "state", "state") {
        Some(t) => t,
        None => "idle".to_owned(),
    };
    push_member(&mut m, "state", Json::Str(state));
    push_member(&mut m, "message", text_value(string_field(data, "message", "message")));
    push_member(&mut m, "session_id", text_value(string_field(data, "session_id", "sessionId")));
    assert(members_view(m@) =~= ai_state_view(data@)->Object_0);
    object(m)
}

fn ai_response_payload(data: &Json) -> (out: Json)
    ensures
        out@ == ai_response_view(data@),
{
    let mut m = no_members();
    push_member(&mut m, "message", text_value(string_field(data, "message", "message")));
    push_member(&mut m, "text", text_value(string_field(data, "text", "response")));
    push_member(&mut m, "is_final", bool_value(bool_field(data, "is_final", "isFinal")));
    push_member(&mut m, "session_id", text_value(string_field(data, "session_id", "sessionId")));
    assert(members_view(m@) =~= ai_response_view(data@)->Object_0);
    object(m)
}

fn ai_tool_payload(data: &Json) -> (out: Json)
    ensures
        out@ == ai_tool_view(data@),
{
    let mut m = no_members();
    let tool_name = match either3(data, "tool_name", "toolName", "tool") {
        Some(v) => match v.as_str() {
            Some(s) => Some(s.to_owned()),
            None => None,
        },
        None => None,
    };
    push_member(&mut m, "tool_name", text_value(tool_name));
    push_member(&mut m, "tool", text_value(string_field(data, "tool", "tool")));
    push_member(&mut m, "call_id", text_value(string_field(data, "call_id", "callId")));
    push_member(&mut m, "status", text_value(string_field(data, "status", "status")));
    push_member(
        &mut m,
        "tool_arguments",
        value_or_null(copy_opt(either(data, "tool_arguments", "toolArguments"))),
    );
    push_member(&mut m, "result", value_or_null(copy_opt(data.get("result"))));
    push_member(&mut m, "error", text_value(string_field(data, "error", "error")));
    push_member(&mut m, "session_id", text_value(string_field(data, "session_id", "sessionId")));
    assert(members_view(m@) =~= ai_tool_view(data@)->Object_0);
    object(m)
}

/// Normalises a voice or assistant event: its canonical fields, under
/// whichever spelling the phone used, followed by the phone's other
/// metadata. The topic is kept; other topics pass through.
pub fn normalize_voice_event(topic: String, data: Json) -> (r: (String, Json))
    ensures
        r.0@ == topic@,
        r.1@ == voice_event_view(topic@, data@),
{
    let t = topic.as_str();
    let out = if str_eq(t, "voice.transcription") {
        let canonical = transcription_payload(&data);
        merge_voice_metadata(canonical, data)
    } else if str_eq(t, "ai.state") {
        let canonical = ai_state_payload(&data);
        merge_voice_metadata(canonical, data)
    } else if str_eq(t, "ai.response") {
        let canonical = ai_response_payload(&data);
        merge_voice_metadata(canonical, data)
    } else if str_eq(t, "ai.tool_executed") {
        let canonical = ai_tool_payload(&data);
        merge_voice_metadata(canonical, data)
    } else {
        data
    };
    (topic, out)
}

// ---------------------------------------------------------------------------
// Media events.

/// The now-playing generation a payload carries, under either spelling.
pub open spec fn media_generation_of(data: JsonView) -> Option<u64> {
    field_u64(data, "media_generation"@, "mediaGeneration"@)
}

/// Members followed by `media_generation`, which is present only when the
/// generation is known.
pub open spec fn with_generation(
    ms: Seq<(Seq<char>, JsonView)>,
    generation: Option<u64>,
) -> Seq<(Seq<char>, JsonView)> {
    match generation {
        Some(g) => ms.push(("media_generation"@, u64_json(g))),
        None => ms,
    }
}

/// `media.now_playing.update` with its canonical fields.
pub open spec fn now_playing_update_view(data: JsonView) -> JsonView {
    JsonView::Object(
        with_generation(
            seq![
                ("media_item_attributes"@, or_null(
                    field3(data, "media_item_attributes"@, "mediaItemAttributes"@, "MediaItemAttributes"@),
                )),
                ("playback_attributes"@, or_null(
                    field3(data, "playback_attributes"@, "playbackAttributes"@, "PlaybackAttributes"@),
                )),
            ],
            media_generation_of(data),
        ),
    )
}

/// `media.now_playing.artwork` with its canonical fields (the content type
/// defaults to JPEG).
pub open spec fn artwork_view(data: JsonView) -> JsonView {
    JsonView::Object(
        with_generation(
            seq![
                ("data"@, JsonView::Str(text_or(field_text(data, "data"@, "data"@), ""@))),
                ("content_type"@, JsonView::Str(
                    text_or(field_text(data, "content_type"@, "contentType"@), "image/jpeg"@),
                )),
            ],
            media_generation_of(data),
        ),
    )
}

/// An artwork event keeps its picture: under either spelling of the topic it
/// becomes `media.now_playing.artwork`, the `data` text it carries comes out
/// unchanged, and so does its content type (under either spelling), which
/// is JPEG when none is given.
pub proof fn lemma_artwork_carries_its_bytes(
    topic: Seq<char>,
    data: JsonView,
    decoded_transfer_id: Option<u32>,
    decoded_volume: Option<u8>,
    bytes: Seq<char>,
    content_type: Seq<char>,
)
    requires
        topic == "media.nowPlaying.artwork"@ || topic == "media.now_playing.artwork"@,
    ensures
        ({
            let (t, out) = media_event_view(topic, data, decoded_transfer_id, decoded_volume);
            &&& t == "media.now_playing.artwork"@
            &&& member(data, "data"@) == Some(JsonView::Str(bytes)) ==> member(out, "data"@) == Some(
                JsonView::Str(bytes),
            )
            &&& member(data, "content_type"@) == Some(JsonView::Str(content_type))
                ==> member(out, "content_type"@) == Some(JsonView::Str(content_type))
            &&& member(data, "content_type"@) is None && member(data, "contentType"@) == Some(
                JsonView::Str(content_type),
            ) ==> member(out, "content_type"@) == Some(JsonView::Str(content_type))
            &&& member(data, "content_type"@) is None && member(data, "contentType"@) is None
                ==> member(out, "content_type"@) == Some(JsonView::Str("image/jpeg"@))
        }),
{
    reveal_strlit("media.nowPlaying.update");
    reveal_strlit("media.now_playing.update");
    reveal_strlit("media.nowPlaying.artwork");
    reveal_strlit("media.now_playing.artwork");
    reveal_strlit("data");
    reveal_strlit("content_type");
    reveal_strlit("media_generation");
    let ms = seq![
        ("data"@, JsonView::Str(text_or(field_text(data, "data"@, "data"@), ""@))),
        ("content_type"@, JsonView::Str(
            text_or(field_text(data, "content_type"@, "contentType"@), "image/jpeg"@),
        )),
    ];
    // The spellings differ in length or in a character.
    assert("media.nowPlaying.update"@.len() == 23 && "media.now_playing.update"@.len() == 24);
    assert("media.nowPlaying.artwork"@.len() == 24 && "media.now_playing.artwork"@.len() == 25);
    assert("media.nowPlaying.artwork"@[9] != "media.now_playing.update"@[9]);
    assert(topic != "media.nowPlaying.update"@ && topic != "media.now_playing.update"@);
    assert("data"@.len() == 4 && "content_type"@.len() == 12 && "media_generation"@.len() == 16);
    lemma_member_of_first(ms, "data"@);
    lemma_member_of_first(ms, "content_type"@);
    assert(member_of(ms, "data"@) == Some(ms[0].1));
    assert(member_of(ms, "content_type"@) == Some(ms[1].1));
    lemma_member_of_first(ms.drop_first(), "content_type"@);
    match media_generation_of(data) {
        Some(g) => {
            lemma_member_of_push(ms, ("media_generation"@, u64_json(g)), "data"@);
            lemma_member_of_push(ms, ("media_generation"@, u64_json(g)), "content_type"@);
        },
        None => {},
    }
}

/// The transfer id of a failed artwork transfer: the decoded one, or else
/// the one the payload carries (0 when none), at most `u32::MAX`.
pub open spec fn failed_transfer_id(data: JsonView, decoded: Option<u32>) -> u64 {
    match decoded {
        Some(t) => t as u64,
        None => match field_u64(data, "transferId"@, "transfer_id"@) {
            Some(t) => if t <= u32::MAX {
                t
            } else {
                u32::MAX as u64
            },
            None => 0,
        },
    }
}

/// The phone's volume: the decoded one, or else the one the payload carries
/// (0 when none), at most 100.
pub open spec fn reported_volume_percent(data: JsonView, decoded: Option<u8>) -> u64 {
    match decoded {
        Some(v) => v as u64,
        None => match field_u64(data, "volumePercent"@, "volume_percent"@) {
            Some(v) => if v <= 100 {
                v
            } else {
                100
            },
            None => 0,
        },
    }
}

/// A media event's topic and payload after normalisation: the now-playing
/// topics take their snake_case spelling.
pub open spec fn media_event_view(
    topic: Seq<char>,
    data: JsonView,
    decoded_transfer_id: Option<u32>,
    decoded_volume: Option<u8>,
) -> (Seq<char>, JsonView) {
    if topic == "media.nowPlaying.update"@ || topic == "media.now_playing.update"@ {
        ("media.now_playing.update"@, now_playing_update_view(data))
    } else if topic == "media.nowPlaying.artwork"@ || topic == "media.now_playing.artwork"@ {
        ("media.now_playing.artwork"@, artwork_view(data))
    } else if topic == "media.nowPlaying.artwork.failed"@ || topic == "media.now_playing.artwork.failed"@ {
        (
            "media.now_playing.artwork.failed"@,
            JsonView::Object(seq![("transfer_id"@, u64_json(failed_transfer_id(data, decoded_transfer_id)))]),
        )
    } else if topic == "phone.volume.update"@ {
        (topic, JsonView::Object(seq![("volume_percent"@, u64_json(reported_volume_percent(data, decoded_volume)))]))
    } else {
        (topic, data)
    }
}

/// The now-playing generation a payload carries, under either spelling.
pub fn media_generation(data: &Json) -> (g: Option<u64>)
    ensures
        g == media_generation_of(data@),
{
    u64_field(data, "media_generation", "mediaGeneration")
}

fn push_generation(m: &mut Vec<JsonMember>, generation: Option<u64>)
    ensures
        members_view(final(m)@) == with_generation(members_view(old(m)@), generation),
{
    match generation {
        Some(g) => push_member(m, "media_generation", Json::Number(JsonNumber::PosInt(g))),
        None => {},
    }
}

fn now_playing_update_payload(data: &Json) -> (out: Json)
    ensures
        out@ == now_playing_update_view(data@),
{
    let mut m = no_members();
    push_member(
        &mut m,
        "media_item_attributes",
        value_or_null(copy_opt(either3(data, "media_item_attributes", "mediaItemAttributes", "MediaItemAttributes"))),
    );
    push_member(
        &mut m,
        "playback_attributes",
        value_or_null(copy_opt(either3(data, "playback_attributes", "playbackAttributes", "PlaybackAttributes"))),
    );
    let ghost base = members_view(m@);
    push_generation(&mut m, media_generation(data));
    assert(base =~= seq![
        ("media_item_attributes"@, or_null(
            field3(data@, "media_item_attributes"@, "mediaItemAttributes"@, "MediaItemAttributes"@),
        )),
        ("playback_attributes"@, or_null(
            field3(data@, "playback_attributes"@, "playbackAttributes"@, "PlaybackAttributes"@),
        )),
    ]);
    object(m)
}

fn artwork_payload(data: &Json) -> (out: Json)
    ensures
        out@ == artwork_view(data@),
{
    let mut m = no_members();
    let bytes = match string_field(data, "data", "data") {
        Some(t) => t,
        None => "".to_owned(),
    };
    push_member(&mut m, "data", Json::Str(bytes));
    let content_type = match string_field(data, "content_type", "contentType") {
        Some(t) => t,
        None => "image/jpeg".to_owned(),
    };
    push_member(&mut m, "content_type", Json::Str(content_type));
    let ghost base = members_view(m@);
    push_generation(&mut m, media_generation(data));
    assert(base =~= seq![
        ("data"@, JsonView::Str(text_or(field_text(data@, "data"@, "data"@), ""@))),
        ("content_type"@, JsonView::Str(
            text_or(field_text(data@, "content_type"@, "contentType"@), "image/jpeg"@),
        )),
    ]);
    object(m)
}

fn single_number(key: &str, n: u64) -> (out: Json)
    ensures
        out@ == JsonView::Object(seq![(key@, u64_json(n))]),
{
    let mut m = no_members();
    push_member(&mut m, key, Json::Number(JsonNumber::PosInt(n)));
    assert(members_view(m@) =~= seq![(key@, u64_json(n))]);
    object(m)
}

/// Normalises a media event: now-playing updates and artwork take their
/// canonical topic and fields (the generation only when known); a failed
/// artwork transfer and a volume report take the decoded value
/// (`decoded_transfer_id`, `decoded_volume`: the payload as the topic's
/// schema reads it, when it fits) or else the value read under either
/// spelling, clamped. Other topics pass through.
pub fn normalize_media_control_event(
    topic: String,
    data: Json,
    decoded_transfer_id: Option<u32>,
    decoded_volume: Option<u8>,
) -> (r: (String, Json))
    ensures
        (r.0@, r.1@) == media_event_view(topic@, data@, decoded_transfer_id, decoded_volume),
{
    let t = topic.as_str();
    if str_eq(t, "media.nowPlaying.update") || str_eq(t, "media.now_playing.update") {
        ("media.now_playing.update".to_owned(), now_playing_update_payload(&data))
    } else if str_eq(t, "media.nowPlaying.artwork") || str_eq(t, "media.now_playing.artwork") {
        ("media.now_playing.artwork".to_owned(), artwork_payload(&data))
    } else if str_eq(t, "media.nowPlaying.artwork.failed") || str_eq(t, "media.now_playing.artwork.failed") {
        let id: u64 = match decoded_transfer_id {
            Some(v) => v as u64,
            None => match u64_field(&data, "transferId", "transfer_id") {
                Some(n) => if n <= 0xffff_ffffu64 { n } else { 0xffff_ffffu64 },
                None => 0,
            },
        };
        ("media.now_playing.artwork.failed".to_owned(), single_number("transfer_id", id))
    } else if str_eq(t, "phone.volume.update") {
        let volume: u64 = match decoded_volume {
            Some(v) => v as u64,
            None => match u64_field(&data, "volumePercent", "volume_percent") {
                Some(n) => if n <= 100 { n } else { 100 },
                None => 0,
            },
        };
        (topic, single_number("volume_percent", volume))
    } else {
        (topic, data)
    }
}

/// The payload acknowledging a media control: `{"status": "ok"}`.
pub open spec fn status_ok_view() -> JsonView {
    JsonView::Object(seq![("status"@, JsonView::Str("ok"@))])
}

/// The typed acknowledgement of a media-control method, `{"status": "ok"}`;
/// nothing for a method without a typed response.
pub fn media_control_response_payload(method: &str) -> (r: Option<Json>)
    ensures
        match r {
            Some(j) => media_response_for(method@) is Some && j@ == status_ok_view(),
            None => media_response_for(method@) is None,
        },
{
    match media_control_response_kind(method) {
        Some(_) => {
            let mut m = no_members();
            push_member(&mut m, "status", Json::Str("ok".to_owned()));
            assert(members_view(m@) =~= seq![("status"@, JsonView::Str("ok"@))]);
            Some(object(m))
        },
        None => None,
    }
}

/// An artist name without the streaming badges: ` • Video Available`,
/// `Video Available • `, `Video Available`, ` • Lossless`, `Lossless • `
/// and `Lossless` are removed, in that order.
pub open spec fn cleaned_artist(a: Seq<char>) -> Seq<char> {
    let a1 = without_all(a, " \u{2022} Video Available"@);
    let a2 = without_all(a1, "Video Available \u{2022} "@);
    let a3 = without_all(a2, "Video Available"@);
    let a4 = without_all(a3, " \u{2022} Lossless"@);
    let a5 = without_all(a4, "Lossless \u{2022} "@);
    without_all(a5, "Lossless"@)
}

/// Strips the streaming badges from an artist name.
pub fn clean_artist(artist: &str) -> (r: String)
    ensures
        r@ == cleaned_artist(artist@),
{
    let a1 = remove_all(artist, " \u{2022} Video Available");
    let a2 = remove_all(a1.as_str(), "Video Available \u{2022} ");
    let a3 = remove_all(a2.as_str(), "Video Available");
    let a4 = remove_all(a3.as_str(), " \u{2022} Lossless");
    let a5 = remove_all(a4.as_str(), "Lossless \u{2022} ");
    remove_all(a5.as_str(), "Lossless")
}

/// A now-playing payload whose `media_item_attributes` object holds a
/// string `MediaItemArtist` gets that artist cleaned; anything else is
/// unchanged.
pub open spec fn artist_cleaned_view(data: JsonView) -> JsonView {
    match data {
        JsonView::Object(ms) => match member_of(ms, "media_item_attributes"@) {
            Some(JsonView::Object(attrs)) => match member_of(attrs, "MediaItemArtist"@) {
                Some(JsonView::Str(a)) => JsonView::Object(
                    with_member(
                        ms,
                        "media_item_attributes"@,
                        JsonView::Object(with_member(attrs, "MediaItemArtist"@, JsonView::Str(cleaned_artist(a)))),
                    ),
                ),
                _ => data,
            },
            _ => data,
        },
        _ => data,
    }
}

/// Cleans the artist of a now-playing update before the UI shows it.
pub fn clean_now_playing_artist(data: Json) -> (out: Json)
    ensures
        out@ == artist_cleaned_view(data@),
{
    match data {
        Json::Object(mut members) => {
            let ghost ms = members_view(members@);
            match find_member(&members, "media_item_attributes") {
                Some(i) => {
                    assert(ms[i as int] == (members[i as int].key@, members[i as int].value@));
                    let attrs_value = copy_json(&members[i].value);
                    match attrs_value {
                        Json::Object(mut attrs) => {
                            let ghost avs = members_view(attrs@);
                            match find_member(&attrs, "MediaItemArtist") {
                                Some(k) => {
                                    assert(avs[k as int] == (attrs[k as int].key@, attrs[k as int].value@));
                                    let cleaned = match attrs[k].value.as_str() {
                                        Some(a) => Some(clean_artist(a)),
                                        None => None,
                                    };
                                    match cleaned {
                                        Some(c) => {
                                            set_member(&mut attrs, "MediaItemArtist".to_owned(), Json::Str(c));
                                            set_member(
                                                &mut members,
                                                "media_item_attributes".to_owned(),
                                                object(attrs),
                                            );
                                            object(members)
                                        },
                                        None => object(members),
                                    }
                                },
                                None => object(members),
                            }
                        },
                        other => {
                            assert(!(other@ is Object));
                            object(members)
                        },
                    }
                },
                None => object(members),
            }
        },
        other => other,
    }
}

// ---------------------------------------------------------------------------
// The path of an event from the phone.

/// What the generated event schemas read from a payload, for the topics
/// whose normalisation prefers them: the Bluetooth-only event written back
/// out, a failed artwork transfer's id, the phone's volume. Each is `None`
/// when the payload does not fit (or the topic has none).
pub struct SchemaReadings {
    pub bt_only: Option<Json>,
    pub artwork_transfer_id: Option<u32>,
    pub volume_percent: Option<u8>,
}

/// Where an event from the phone goes.
#[derive(Clone, Copy, Debug, PartialEq, Eq, Structural)]
pub enum PhoneEventRoute {
    /// To the update actor, as this OTA call.
    Ota(OtaCall),
    /// To the UI clients.
    Broadcast,
}

/// An event's route, topic and payload: Bluetooth-only normalisation and
/// the source phone first; OTA topics then go to the update actor (when it
/// is attached); everything else is normalised as a voice and a media event
/// (now-playing artists cleaned) and broadcast.
pub open spec fn phone_event_view(
    topic: Seq<char>,
    data: JsonView,
    peer: Option<Address>,
    ota_attached: bool,
    bt_only: Option<JsonView>,
    artwork_transfer_id: Option<u32>,
    volume_percent: Option<u8>,
) -> (PhoneEventRoute, Seq<char>, JsonView) {
    let d1 = phone_source_view(topic, bt_only_view(topic, data, bt_only), peer);
    if ota_attached && ota_call_for(topic) is Some {
        (PhoneEventRoute::Ota(ota_call_for(topic)->Some_0), topic, d1)
    } else {
        let d2 = voice_event_view(topic, d1);
        let (t3, d3) = media_event_view(topic, d2, artwork_transfer_id, volume_percent);
        if t3 == "media.now_playing.update"@ {
            (PhoneEventRoute::Broadcast, t3, artist_cleaned_view(d3))
        } else {
            (PhoneEventRoute::Broadcast, t3, d3)
        }
    }
}

/// Routes and normalises an event from the phone.
pub fn route_phone_event(
    topic: String,
    data: Json,
    connection_peer: Option<Address>,
    ota_attached: bool,
    readings: SchemaReadings,
) -> (r: (PhoneEventRoute, String, Json))
    ensures
        (r.0, r.1@, r.2@) == phone_event_view(
            topic@,
            data@,
            connection_peer,
            ota_attached,
            owned_view(readings.bt_only),
            readings.artwork_transfer_id,
            readings.volume_percent,
        ),
{
    let SchemaReadings { bt_only, artwork_transfer_id, volume_percent } = readings;
    let (topic, data) = normalize_bt_only_event(topic, data, bt_only);
    let data = attach_phone_source(topic.as_str(), data, connection_peer);
    if ota_attached {
        match ota_call_kind(topic.as_str()) {
            Some(call) => {
                return (PhoneEventRoute::Ota(call), topic, data);
            },
            None => {},
        }
    }
    let (topic, data) = normalize_voice_event(topic, data);
    let (topic, data) = normalize_media_control_event(topic, data, artwork_transfer_id, volume_percent);
    if str_eq(topic.as_str(), "media.now_playing.update") {
        let data = clean_now_playing_artist(data);
        (PhoneEventRoute::Broadcast, topic, data)
    } else {
        (PhoneEventRoute::Broadcast, topic, data)
    }
}

/// The phone's reported volume: `volume_percent` (either spelling) when it
/// fits a byte, else 0.
pub open spec fn device_volume_of(params: JsonView) -> u8 {
    match field_u64(params, "volume_percent"@, "volumePercent"@) {
        Some(p) => if p <= 255 {
            p as u8
        } else {
            0
        },
        None => 0,
    }
}

/// Answers a `device.volume.update` call: the volume, the
/// `phone.volume.update` payload for the UI and the call's result.
pub fn device_volume_update(params: &Json) -> (r: (u8, Json, Json))
    ensures
        r.0 == device_volume_of(params@),
        r.1@ == JsonView::Object(seq![("volume_percent"@, u64_json(r.0 as u64))]),
        r.2@ == JsonView::Object(seq![("success"@, JsonView::Bool(true))]),
{
    let volume = reported_volume(u64_field(params, "volume_percent", "volumePercent"));
    let event = single_number("volume_percent", volume as u64);
    let mut m = no_members();
    push_member(&mut m, "success", Json::Bool(true));
    assert(members_view(m@) =~= seq![("success"@, JsonView::Bool(true))]);
    (volume, event, object(m))
}

// ---------------------------------------------------------------------------
// Messages the daemon sends.

/// A message of the daemon's MessagePack protocol.
#[derive(Debug)]
pub enum MsgPackMessage {
    Call { id: String, method: String, params: Json },
    Result { id: String, result: Json },
    Error { id: String, error: String },
    Event { topic: String, data: Json },
}

/// The topic and payload of an event message.
pub open spec fn event_of(m: MsgPackMessage) -> Option<(Seq<char>, JsonView)> {
    match m {
        MsgPackMessage::Event { topic, data } => Some((topic@, data@)),
        _ => None,
    }
}

/// Audio capture started: its format.
#[derive(Clone, Copy, Debug, PartialEq, Eq, Structural)]
pub struct AudioRecordingStartedEvent {
    pub sample_rate: u32,
    pub channels: u8,
    pub frame_ms: u32,
}

/// Audio capture stopped: why, and how many frames were sent.
#[derive(Debug)]
pub struct AudioRecordingStoppedEvent {
    pub reason: String,
    pub total_frames: u64,
}


/// `daemon.ready`, which carries no fields (its payload is `null`).
pub fn create_daemon_ready_event() -> (m: MsgPackMessage)
    ensures
        event_of(m) == Some(("daemon.ready"@, JsonView::Null)),
{
    MsgPackMessage::Event { topic: "daemon.ready".to_owned(), data: Json::Null }
}

/// `daemon.heartbeat` with its timestamp.
pub fn create_daemon_heartbeat_event(timestamp: u64) -> (m: MsgPackMessage)
    ensures
        event_of(m) == Some(("daemon.heartbeat"@, JsonView::Object(seq![("timestamp"@, u64_json(timestamp))]))),
{
    MsgPackMessage::Event { topic: "daemon.heartbeat".to_owned(), data: single_number("timestamp", timestamp) }
}

/// `chunk.retransmit_request`: asks the phone to send chunk `chunk_idx` of
/// message `message_id` again.
pub fn create_chunk_retransmit_request_event(message_id: &str, chunk_idx: u16) -> (m: MsgPackMessage)
    ensures
        event_of(m) == Some((
            "chunk.retransmit_request"@,
            JsonView::Object(
                seq![
                    ("message_id"@, JsonView::Str(message_id@)),
                    ("chunk_idx"@, u64_json(chunk_idx as u64)),
                ],
            ),
        )),
{
    let mut members = no_members();
    push_member(&mut members, "message_id", Json::Str(message_id.to_owned()));
    push_member(&mut members, "chunk_idx", Json::Number(JsonNumber::PosInt(chunk_idx as u64)));
    assert(members_view(members@) =~= seq![
        ("message_id"@, JsonView::Str(message_id@)),
        ("chunk_idx"@, u64_json(chunk_idx as u64)),
    ]);
    MsgPackMessage::Event { topic: "chunk.retransmit_request".to_owned(), data: object(members) }
}

/// The payload of an `audio.data` event.
pub open spec fn audio_data_view(seq: u64, opus: Seq<u8>, timestamp_ms: u64) -> JsonView {
    JsonView::Object(
        seq![
            ("seq"@, u64_json(seq)),
            ("opus"@, JsonView::Str(ascii_chars(base64_standard_encoded(opus)))),
            ("ts"@, u64_json(timestamp_ms)),
        ],
    )
}

/// `audio.data`: one encoded audio frame, base64, with its sequence number
/// and capture time.
pub fn create_audio_data_event(seq: u64, opus_data: &[u8], timestamp_ms: u64) -> (m: MsgPackMessage)
    ensures
        event_of(m) == Some(("audio.data"@, audio_data_view(seq, opus_data@, timestamp_ms))),
{
    let mut members = no_members();
    push_member(&mut members, "seq", Json::Number(JsonNumber::PosInt(seq)));
    let opus = base64_encode(opus_data);
    assert forall|i: int| 0 <= i < opus@.len() implies #[trigger] opus@[i] < 128 by {
        assert(is_base64_symbol(opus@[i]));
    }
    push_member(&mut members, "opus", Json::Str(ascii_string(opus.as_slice())));
    push_member(&mut members, "ts", Json::Number(JsonNumber::PosInt(timestamp_ms)));
    assert(members_view(members@) =~= audio_data_view(seq, opus_data@, timestamp_ms)->Object_0);
    MsgPackMessage::Event { topic: "audio.data".to_owned(), data: object(members) }
}

/// `audio.recording.started` with the capture format.
pub fn create_audio_recording_started_event(payload: AudioRecordingStartedEvent) -> (m: MsgPackMessage)
    ensures
        event_of(m) == Some((
            "audio.recording.started"@,
            JsonView::Object(
                seq![
                    ("sample_rate"@, u64_json(payload.sample_rate as u64)),
                    ("channels"@, u64_json(payload.channels as u64)),
                    ("frame_ms"@, u64_json(payload.frame_ms as u64)),
                ],
            ),
        )),
{
    let mut members = no_members();
    push_member(&mut members, "sample_rate", Json::Number(JsonNumber::PosInt(payload.sample_rate as u64)));
    push_member(&mut members, "channels", Json::Number(JsonNumber::PosInt(payload.channels as u64)));
    push_member(&mut members, "frame_ms", Json::Number(JsonNumber::PosInt(payload.frame_ms as u64)));
    assert(members_view(members@) =~= seq![
        ("sample_rate"@, u64_json(payload.sample_rate as u64)),
        ("channels"@, u64_json(payload.channels as u64)),
        ("frame_ms"@, u64_json(payload.frame_ms as u64)),
    ]);
    MsgPackMessage::Event { topic: "audio.recording.started".to_owned(), data: object(members) }
}

/// `audio.recording.stopped` with the reason and the number of frames sent.
pub fn create_audio_recording_stopped_event(payload: AudioRecordingStoppedEvent) -> (m: MsgPackMessage)
    ensures
        event_of(m) == Some((
            "audio.recording.stopped"@,
            JsonView::Object(
                seq![
                    ("reason"@, JsonView::Str(payload.reason@)),
                    ("total_frames"@, u64_json(payload.total_frames)),
                ],
            ),
        )),
{
    let ghost reason = payload.reason@;
    let mut members = no_members();
    push_member(&mut members, "reason", Json::Str(payload.reason));
    push_member(&mut members, "total_frames", Json::Number(JsonNumber::PosInt(payload.total_frames)));
    assert(members_view(members@) =~= seq![
        ("reason"@, JsonView::Str(reason)),
        ("total_frames"@, u64_json(payload.total_frames)),
    ]);
    MsgPackMessage::Event { topic: "audio.recording.stopped".to_owned(), data: object(members) }
}

// ---------------------------------------------------------------------------
// Messages handed to the daemon for the phone.

/// Why a message for the phone could not be sent.
#[derive(Clone, Copy, Debug, PartialEq, Eq, Structural)]
pub enum AppMessageError {
    /// Its data is not JSON.
    InvalidJson,
}

/// The text of the member `key`, when it is a string.
pub open spec fn member_text(data: JsonView, key: Seq<char>) -> Option<Seq<char>> {
    match member(data, key) {
        Some(v) => text_of(v),
        None => None,
    }
}

/// A member's value, or an empty object when it is absent.
pub open spec fn member_or_empty(data: JsonView, key: Seq<char>) -> JsonView {
    match member(data, key) {
        Some(v) => v,
        None => JsonView::Object(Seq::empty()),
    }
}

/// Whether `m` is the message the JSON `data` asks to send under `id`: an
/// event when it names a `topic` (carrying its `data`, or an empty object),
/// else a call of its `method` (`unknown` when it names none) with its
/// `params` (or an empty object).
pub open spec fn is_outbound_message(m: MsgPackMessage, id: Seq<char>, data: JsonView) -> bool {
    match member_text(data, "topic"@) {
        Some(topic) => match m {
            MsgPackMessage::Event { topic: t, data: d } => t@ == topic && d@ == member_or_empty(
                data,
                "data"@,
            ),
            _ => false,
        },
        None => match m {
            MsgPackMessage::Call { id: i, method, params } => i@ == id && method@ == match member_text(
                data,
                "method"@,
            ) {
                Some(name) => name,
                None => "unknown"@,
            } && params@ == member_or_empty(data, "params"@),
            _ => false,
        },
    }
}

/// A member's value copied, or an empty object when it is absent.
fn copy_member_or_empty(data: &Json, key: &str) -> (v: Json)
    ensures
        v@ == member_or_empty(data@, key@),
{
    match data.get(key) {
        Some(v) => copy_json(v),
        None => {
            let members = no_members();
            object(members)
        },
    }
}

/// The message the phone's app sent for delivery, read from its JSON data
/// (`decoded`, `None` when the data is not JSON): an event or a call (see
/// `is_outbound_message`).
pub fn outbound_app_message(id: String, decoded: Option<Json>) -> (r: Result<MsgPackMessage, AppMessageError>)
    ensures
        match (decoded, r) {
            (None, Err(e)) => e == AppMessageError::InvalidJson,
            (Some(d), Ok(m)) => is_outbound_message(m, id@, d@),
            _ => false,
        },
{
    let data = match decoded {
        Some(d) => d,
        None => {
            return Err(AppMessageError::InvalidJson);
        },
    };
    if let Some(t) = data.get("topic") {
        if let Some(topic) = t.as_str() {
            let payload = copy_member_or_empty(&data, "data");
            return Ok(MsgPackMessage::Event { topic: topic.to_owned(), data: payload });
        }
    }
    let method = match data.get("method") {
        Some(m) => match m.as_str() {
            Some(name) => name.to_owned(),
            None => "unknown".to_owned(),
        },
        None => "unknown".to_owned(),
    };
    let params = copy_member_or_empty(&data, "params");
    Ok(MsgPackMessage::Call { id, method, params })
}

// ---------------------------------------------------------------------------
// Answering the phone's calls.

/// `{"success": true}`, the answer to a volume report.
pub open spec fn success_view() -> JsonView {
    JsonView::Object(seq![("success"@, JsonView::Bool(true))])
}

/// `{"__error": error}`: what a waiting call receives when the phone answers
/// it with an error.
pub open spec fn call_error_view(error: Seq<char>) -> JsonView {
    JsonView::Object(seq![("__error"@, JsonView::Str(error))])
}

/// The result a waiting call receives for an error reply.
pub fn pending_call_error(error: &str) -> (j: Json)
    ensures
        j@ == call_error_view(error@),
{
    let mut m = no_members();
    push_member(&mut m, "__error", Json::Str(error.to_owned()));
    assert(members_view(m@) =~= seq![("__error"@, JsonView::Str(error@))]);
    object(m)
}

/// The reply to the call `id` of `method`, routed as `route`, given what the
/// daemon's outside work gave: `hid_send_error` is the failure of handing the
/// HID control over (`None` when it went), `handler_result` the registered
/// handler's answer (`None` when no handler is registered). OTA calls are
/// answered by the update actor, so get no reply here.
pub open spec fn is_call_reply(
    m: Option<MsgPackMessage>,
    id: Seq<char>,
    method: Seq<char>,
    route: CallRoute,
    hid_send_error: Option<Seq<char>>,
    handler_result: Option<JsonView>,
) -> bool {
    match route {
        CallRoute::Ota(_) => m is None,
        CallRoute::Hid(_) => match hid_send_error {
            None => m matches Some(MsgPackMessage::Result { id: i, result }) && i@ == id && result@
                == status_ok_view(),
            Some(e) => m matches Some(MsgPackMessage::Error { id: i, error }) && i@ == id && error@
                == "hid_send_failed: "@ + e,
        },
        CallRoute::HidUnavailable => m matches Some(MsgPackMessage::Error { id: i, error }) && i@ == id
            && error@ == "hid_unavailable"@,
        CallRoute::UnknownMediaMethod => m matches Some(MsgPackMessage::Error { id: i, error }) && i@
            == id && error@ == "unknown_method: "@ + method,
        CallRoute::VolumeUpdate => m matches Some(MsgPackMessage::Result { id: i, result }) && i@ == id
            && result@ == success_view(),
        CallRoute::Handler => match handler_result {
            Some(r) => m matches Some(MsgPackMessage::Result { id: i, result }) && i@ == id && result@
                == r,
            None => m matches Some(MsgPackMessage::Error { id: i, error }) && i@ == id && error@
                == "Method not found: "@ + method,
        },
    }
}

/// The reply to a call (see `is_call_reply`).
pub fn call_reply(
    id: String,
    method: &str,
    route: CallRoute,
    hid_send_error: Option<String>,
    handler_result: Option<Json>,
) -> (m: Option<MsgPackMessage>)
    ensures
        is_call_reply(m, id@, method@, route, opt_chars(hid_send_error), owned_view(handler_result)),
{
    match route {
        CallRoute::Ota(_) => None,
        CallRoute::Hid(_) => match hid_send_error {
            None => {
                let result = match media_control_response_payload(method) {
                    Some(j) => j,
                    None => {
                        let mut m = no_members();
                        push_member(&mut m, "status", Json::Str("ok".to_owned()));
                        assert(members_view(m@) =~= seq![("status"@, JsonView::Str("ok"@))]);
                        object(m)
                    },
                };
                Some(MsgPackMessage::Result { id, result })
            },
            Some(e) => Some(MsgPackMessage::Error { id, error: concat("hid_send_failed: ", e.as_str()) }),
        },
        CallRoute::HidUnavailable => Some(MsgPackMessage::Error { id, error: "hid_unavailable".to_owned() }),
        CallRoute::UnknownMediaMethod => Some(
            MsgPackMessage::Error { id, error: concat("unknown_method: ", method) },
        ),
        CallRoute::VolumeUpdate => {
            let mut m = no_members();
            push_member(&mut m, "success", Json::Bool(true));
            assert(members_view(m@) =~= seq![("success"@, JsonView::Bool(true))]);
            Some(MsgPackMessage::Result { id, result: object(m) })
        },
        CallRoute::Handler => match handler_result {
            Some(result) => Some(MsgPackMessage::Result { id, result }),
            None => Some(MsgPackMessage::Error { id, error: concat("Method not found: ", method) }),
        },
    }
}

} // verus!
