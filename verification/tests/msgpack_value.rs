use nocturned::json::{Json, JsonMember, JsonNumber};
use nocturned::msgpack_value::{
    msgpack_to_json, normalize_transfer_result_binary, MsgPackEntry, MsgPackValue,
};
use nocturned::ota::transfer_result_bytes;

fn text(t: &str) -> MsgPackValue {
    MsgPackValue::Str(t.as_bytes().to_vec())
}

fn entry(key: MsgPackValue, value: MsgPackValue) -> MsgPackEntry {
    MsgPackEntry { key, value }
}

fn transfer_result(data: MsgPackValue) -> MsgPackValue {
    MsgPackValue::Mapping(vec![
        entry(text("type"), text("result")),
        entry(text("id"), text("transfer-1")),
        entry(text("result"), MsgPackValue::Mapping(vec![entry(text("data"), data)])),
    ])
}

fn member<'a>(json: &'a Json, key: &str) -> &'a Json {
    json.get(key).expect("member")
}

#[test]
fn transfer_result_accepts_msgpack_binary_data() {
    let mut wire = transfer_result(MsgPackValue::Binary(vec![0, 1, 2, 127, 128, 255]));
    normalize_transfer_result_binary(&mut wire);
    let json = msgpack_to_json(&wire);
    assert_eq!(member(&json, "type").as_str(), Some("result"));
    let result = json.get("result").expect("binary result should convert through fallback");
    assert!(member(result, "data").as_str().is_some());
    assert_eq!(
        transfer_result_bytes(result).expect("binary data should decode"),
        vec![0, 1, 2, 127, 128, 255]
    );
}

#[test]
fn binary_data_becomes_standard_base64_text() {
    let mut wire = transfer_result(MsgPackValue::Binary(vec![0xAB, 0xCD, 0xEF]));
    normalize_transfer_result_binary(&mut wire);
    let json = msgpack_to_json(&wire);
    assert_eq!(member(member(&json, "result"), "data").as_str(), Some("q83v"));
}

#[test]
fn only_result_messages_have_their_data_rewritten() {
    let mut event = MsgPackValue::Mapping(vec![
        entry(text("type"), text("event")),
        entry(text("result"), MsgPackValue::Mapping(vec![entry(text("data"), MsgPackValue::Binary(vec![1, 2]))])),
    ]);
    normalize_transfer_result_binary(&mut event);
    let json = msgpack_to_json(&event);
    let data = member(member(&json, "result"), "data");
    assert!(matches!(data, Json::Array(items) if items.len() == 2));

    let mut textual = transfer_result(text("AAEC"));
    normalize_transfer_result_binary(&mut textual);
    let json = msgpack_to_json(&textual);
    assert_eq!(member(member(&json, "result"), "data").as_str(), Some("AAEC"));

    let mut not_a_map = MsgPackValue::Binary(vec![1]);
    normalize_transfer_result_binary(&mut not_a_map);
    assert!(matches!(not_a_map, MsgPackValue::Binary(ref b) if b == &vec![1u8]));
}

#[test]
fn scalars_read_as_json() {
    assert!(matches!(msgpack_to_json(&MsgPackValue::Nil), Json::Null));
    assert!(matches!(msgpack_to_json(&MsgPackValue::Boolean(true)), Json::Bool(true)));
    assert!(matches!(
        msgpack_to_json(&MsgPackValue::PosInt(u64::MAX)),
        Json::Number(JsonNumber::PosInt(u64::MAX))
    ));
    assert!(matches!(
        msgpack_to_json(&MsgPackValue::NegInt(-5)),
        Json::Number(JsonNumber::NegInt(-5))
    ));
    assert!(matches!(msgpack_to_json(&MsgPackValue::NegInt(7)), Json::Number(JsonNumber::PosInt(7))));
    assert!(matches!(
        msgpack_to_json(&MsgPackValue::Float(Some("1.5".to_string()))),
        Json::Number(JsonNumber::Float(ref t)) if t == "1.5"
    ));
    assert!(matches!(msgpack_to_json(&MsgPackValue::Float(None)), Json::Null));
    assert!(matches!(msgpack_to_json(&MsgPackValue::Ext(3, vec![1, 2])), Json::Null));
    assert_eq!(msgpack_to_json(&text("héllo")).as_str(), Some("héllo"));
    assert_eq!(msgpack_to_json(&MsgPackValue::Str(vec![0xFF, 0xFE])).as_str(), Some(""));
}

#[test]
fn binary_and_arrays_read_as_json_arrays() {
    let json = msgpack_to_json(&MsgPackValue::Binary(vec![0, 255]));
    match json {
        Json::Array(items) => {
            assert_eq!(items.len(), 2);
            assert!(matches!(items[1], Json::Number(JsonNumber::PosInt(255))));
        }
        other => panic!("expected array, got {other:?}"),
    }
    let json = msgpack_to_json(&MsgPackValue::Array(vec![MsgPackValue::Nil, text("x")]));
    match json {
        Json::Array(items) => {
            assert!(matches!(items[0], Json::Null));
            assert_eq!(items[1].as_str(), Some("x"));
        }
        other => panic!("expected array, got {other:?}"),
    }
}

#[test]
fn maps_keep_string_keys_and_the_last_value_of_each() {
    let json = msgpack_to_json(&MsgPackValue::Mapping(vec![
        entry(text("a"), MsgPackValue::PosInt(1)),
        entry(MsgPackValue::PosInt(9), MsgPackValue::PosInt(2)),
        entry(text("b"), MsgPackValue::PosInt(3)),
        entry(text("a"), MsgPackValue::PosInt(4)),
    ]));
    match &json {
        Json::Object(members) => {
            let keys: Vec<&str> = members.iter().map(|m: &JsonMember| m.key.as_str()).collect();
            assert_eq!(keys, vec!["a", "b"]);
        }
        other => panic!("expected object, got {other:?}"),
    }
    assert_eq!(member(&json, "a").as_u64(), Some(4));
    assert_eq!(member(&json, "b").as_u64(), Some(3));
}

#[test]
fn complete_messages_decode_through_the_generic_reader() {
    // {"type": "result", "id": "t", "result": {"data": bin8 [1, 2, 3]}}
    let mut wire = vec![0x83];
    wire.extend_from_slice(&[0xa4, b't', b'y', b'p', b'e', 0xa6, b'r', b'e', b's', b'u', b'l', b't']);
    wire.extend_from_slice(&[0xa2, b'i', b'd', 0xa1, b't']);
    wire.extend_from_slice(&[0xa6, b'r', b'e', b's', b'u', b'l', b't', 0x81]);
    wire.extend_from_slice(&[0xa4, b'd', b'a', b't', b'a', 0xc4, 0x03, 1, 2, 3]);
    let json = nocturned::msgpack_value::decode_complete_message(&wire).expect("MessagePack");
    assert_eq!(member(&json, "id").as_str(), Some("t"));
    assert_eq!(member(member(&json, "result"), "data").as_str(), Some("AQID"));
    assert!(nocturned::msgpack_value::decode_complete_message(&[0xa4, b't']).is_none());
    assert!(nocturned::msgpack_value::decode_complete_message(&[]).is_none());
}

#[test]
fn generic_reader_keeps_integer_signs_and_float_text() {
    let decode = nocturned::msgpack_value::decode_complete_message;
    // [-1, 300, 1.5, nil, true]
    let wire = [0x95, 0xff, 0xcd, 0x01, 0x2c, 0xcb, 0x3f, 0xf8, 0, 0, 0, 0, 0, 0, 0xc0, 0xc3];
    match decode(&wire).expect("MessagePack") {
        Json::Array(items) => {
            assert_eq!(items.len(), 5);
            assert!(matches!(items[0], Json::Number(JsonNumber::NegInt(-1))));
            assert!(matches!(items[1], Json::Number(JsonNumber::PosInt(300))));
            match &items[2] {
                Json::Number(JsonNumber::Float(text)) => assert_eq!(text, "1.5"),
                other => panic!("expected a float, got {:?}", other),
            }
            assert!(matches!(items[3], Json::Null));
            assert!(matches!(items[4], Json::Bool(true)));
        }
        other => panic!("expected an array, got {:?}", other),
    }
}
