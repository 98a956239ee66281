use nocturned::address::{address_text, Address};
use nocturned::events::{
    attach_phone_source, bool_field, create_chunk_retransmit_request_event, clean_artist, clean_now_playing_artist, device_volume_update,
    route_phone_event, PhoneEventRoute, SchemaReadings, create_audio_data_event, create_audio_recording_started_event,
    create_audio_recording_stopped_event, create_daemon_heartbeat_event, create_daemon_ready_event,
    i64_field, media_control_response_payload, media_generation, merge_voice_metadata,
    normalize_app_ready_event, normalize_bt_only_event, normalize_entitlement_update_event,
    normalize_media_control_event, normalize_notification_show_event, normalize_voice_event,
    call_reply, outbound_app_message, pending_call_error, string_field, u64_field, AppMessageError, AudioRecordingStartedEvent, AudioRecordingStoppedEvent, MsgPackMessage,
};
use nocturned::dispatch::{route_call, CallRoute, HidControl, OtaCall};
use nocturned::ota::app_rpc_error;
use nocturned::json::{copy_json, set_member, Json, JsonMember, JsonNumber};
use nocturned::text::remove_all;

fn s(x: &str) -> Json {
    Json::Str(x.to_string())
}

fn n(x: u64) -> Json {
    Json::Number(JsonNumber::PosInt(x))
}

fn b(x: bool) -> Json {
    Json::Bool(x)
}

fn obj(members: Vec<(&str, Json)>) -> Json {
    Json::Object(
        members
            .into_iter()
            .map(|(k, v)| JsonMember { key: k.to_string(), value: v })
            .collect(),
    )
}

fn text<'a>(j: &'a Json, key: &str) -> Option<&'a str> {
    j.get(key).and_then(|v| v.as_str())
}

fn flag(j: &Json, key: &str) -> Option<bool> {
    j.get(key).and_then(|v| v.as_bool())
}

fn number(j: &Json, key: &str) -> Option<u64> {
    j.get(key).and_then(|v| v.as_u64())
}

fn event(m: MsgPackMessage) -> (String, Json) {
    match m {
        MsgPackMessage::Event { topic, data } => (topic, data),
        other => panic!("expected event message, got {other:?}"),
    }
}

#[test]
fn media_generation_is_preserved_across_companion_casing() {
    let (topic, update) = normalize_media_control_event(
        "media.nowPlaying.update".to_string(),
        obj(vec![
            ("MediaItemAttributes", obj(vec![("MediaItemTitle", s("Song"))])),
            ("PlaybackAttributes", obj(vec![("PlaybackStatus", s("playing"))])),
            ("mediaGeneration", n(7)),
        ]),
        None,
        None,
    );
    assert_eq!(topic, "media.now_playing.update");
    assert_eq!(number(&update, "media_generation"), Some(7));
    assert_eq!(
        update.get("media_item_attributes").and_then(|v| text(v, "MediaItemTitle")),
        Some("Song")
    );

    let (topic, artwork) = normalize_media_control_event(
        "media.now_playing.artwork".to_string(),
        obj(vec![
            ("data", s("YWJj")),
            ("content_type", s("image/png")),
            ("media_generation", n(7)),
        ]),
        None,
        None,
    );
    assert_eq!(topic, "media.now_playing.artwork");
    assert_eq!(number(&artwork, "media_generation"), Some(7));
    assert_eq!(text(&artwork, "content_type"), Some("image/png"));
}

#[test]
fn untagged_media_events_remain_untagged() {
    let (_, update) = normalize_media_control_event(
        "media.nowPlaying.update".to_string(),
        obj(vec![
            ("mediaItemAttributes", obj(vec![("MediaItemTitle", s("Legacy"))])),
            ("playbackAttributes", obj(vec![("PlaybackStatus", s("paused"))])),
        ]),
        None,
        None,
    );
    assert!(update.get("media_generation").is_none());

    let (_, artwork) = normalize_media_control_event(
        "media.nowPlaying.artwork".to_string(),
        obj(vec![("data", s("YWJj")), ("contentType", s("image/jpeg"))]),
        None,
        None,
    );
    assert!(artwork.get("media_generation").is_none());
}

#[test]
fn entitlement_events_normalize_compatible_camel_case_to_canonical_fields() {
    let ready = normalize_app_ready_event(obj(vec![
        ("platform", s("ios")),
        ("subscribed", b(true)),
        ("subscriptionStatus", s("none")),
        ("hasLifetime", b(true)),
        ("isAdmin", b(true)),
        ("entitlementsVerified", b(true)),
        ("spotifySkipped", b(false)),
    ]));

    assert_eq!(text(&ready, "subscription_status"), Some("none"));
    assert_eq!(flag(&ready, "has_lifetime"), Some(true));
    assert_eq!(flag(&ready, "is_admin"), Some(true));
    assert_eq!(flag(&ready, "entitlements_verified"), Some(true));
    assert_eq!(flag(&ready, "spotify_skipped"), Some(false));
    assert!(ready.get("subscriptionStatus").is_none());
    assert!(ready.get("hasLifetime").is_none());
    assert!(ready.get("isAdmin").is_none());
    assert!(ready.get("entitlementsVerified").is_none());

    let update = normalize_entitlement_update_event(obj(vec![
        ("subscribed", b(true)),
        ("subscriptionStatus", s("active")),
        ("hasLifetime", b(false)),
        ("isAdmin", b(false)),
        ("entitlementsVerified", b(true)),
    ]));

    assert_eq!(text(&update, "subscription_status"), Some("active"));
    assert_eq!(flag(&update, "has_lifetime"), Some(false));
    assert_eq!(flag(&update, "is_admin"), Some(false));
    assert_eq!(flag(&update, "entitlements_verified"), Some(true));
    assert!(update.get("subscriptionStatus").is_none());
    assert!(update.get("hasLifetime").is_none());
    assert!(update.get("isAdmin").is_none());
    assert!(update.get("entitlementsVerified").is_none());
}

#[test]
fn audio_data_event_has_expected_wire_format() {
    let opus_data = [0xAA, 0xBB, 0xCC, 0xDD];
    let (topic, data) = event(create_audio_data_event(42, &opus_data, 1_713_000));
    assert_eq!(topic, "audio.data");
    assert_eq!(number(&data, "seq"), Some(42));
    assert_eq!(text(&data, "opus"), Some("qrvM3Q=="));
    assert_eq!(number(&data, "ts"), Some(1_713_000));
}

#[test]
fn audio_recording_started_event_has_expected_fields() {
    let (topic, data) = event(create_audio_recording_started_event(AudioRecordingStartedEvent {
        sample_rate: 16000,
        channels: 1,
        frame_ms: 20,
    }));
    assert_eq!(topic, "audio.recording.started");
    assert_eq!(number(&data, "sample_rate"), Some(16000));
    assert_eq!(number(&data, "channels"), Some(1));
    assert_eq!(number(&data, "frame_ms"), Some(20));
}

#[test]
fn audio_recording_stopped_event_has_expected_fields() {
    let (topic, data) = event(create_audio_recording_stopped_event(AudioRecordingStoppedEvent {
        reason: "user_requested".to_string(),
        total_frames: 128,
    }));
    assert_eq!(topic, "audio.recording.stopped");
    assert_eq!(text(&data, "reason"), Some("user_requested"));
    assert_eq!(number(&data, "total_frames"), Some(128));
}

#[test]
fn companion_phone_lifecycle_uses_daemon_observed_peer_identity() {
    let peer = Address([0xD8, 0x3A, 0xDD, 0x31, 0xB0, 0x49]);
    for topic in ["phone.call.started", "phone.call.updated", "phone.call.ended"] {
        let data = attach_phone_source(
            topic,
            obj(vec![("call_id", s("call-1")), ("device", s("02:00:00:00:00:00"))]),
            Some(peer),
        );

        assert_eq!(text(&data, "device"), Some(address_text(&peer).as_str()));
        assert_eq!(text(&data, "device"), Some("D8:3A:DD:31:B0:49"));
        assert_eq!(text(&data, "call_id"), Some("call-1"));
    }
}

#[test]
fn companion_source_identity_does_not_modify_unrelated_events() {
    let peer = Address([0xD8, 0x3A, 0xDD, 0x31, 0xB0, 0x49]);
    let data = attach_phone_source(
        "notification.show",
        obj(vec![("device", s("mobile-owned"))]),
        Some(peer),
    );

    assert_eq!(text(&data, "device"), Some("mobile-owned"));
}

#[test]
fn voice_transcription_normalization_preserves_session_metadata() {
    let (topic, data) = normalize_voice_event(
        "voice.transcription".to_string(),
        obj(vec![
            ("transcript", s("play daft punk")),
            ("is_final", b(true)),
            ("session_id", s("voice-session-1")),
        ]),
    );

    assert_eq!(topic, "voice.transcription");
    assert_eq!(text(&data, "transcript"), Some("play daft punk"));
    assert_eq!(flag(&data, "is_final"), Some(true));
    assert_eq!(text(&data, "session_id"), Some("voice-session-1"));
}

#[test]
fn ai_tool_normalization_preserves_ios_tool_metadata() {
    let (topic, data) = normalize_voice_event(
        "ai.tool_executed".to_string(),
        obj(vec![
            ("tool", s("spotify_play")),
            ("call_id", s("call-1")),
            ("status", s("completed")),
            ("result", obj(vec![("uri", s("spotify:track:123"))])),
            ("tool_arguments", obj(vec![("uri", s("spotify:track:123"))])),
            ("session_id", s("voice-session-1")),
        ]),
    );

    assert_eq!(topic, "ai.tool_executed");
    assert_eq!(text(&data, "tool_name"), Some("spotify_play"));
    assert_eq!(text(&data, "tool"), Some("spotify_play"));
    assert_eq!(text(&data, "call_id"), Some("call-1"));
    assert_eq!(text(&data, "status"), Some("completed"));
    assert_eq!(data.get("result").and_then(|r| text(r, "uri")), Some("spotify:track:123"));
    assert_eq!(
        data.get("tool_arguments").and_then(|r| text(r, "uri")),
        Some("spotify:track:123")
    );
    assert_eq!(text(&data, "session_id"), Some("voice-session-1"));
}

#[test]
fn voice_normalization_canonicalizes_camel_case_metadata() {
    let (topic, data) = normalize_voice_event(
        "ai.state".to_string(),
        obj(vec![("state", s("thinking")), ("sessionId", s("voice-session-1"))]),
    );

    assert_eq!(topic, "ai.state");
    assert_eq!(text(&data, "state"), Some("thinking"));
    assert_eq!(text(&data, "session_id"), Some("voice-session-1"));
    assert_eq!(text(&data, "sessionId"), Some("voice-session-1"));
}

#[test]
fn voice_defaults_fill_missing_fields() {
    let (_, transcription) = normalize_voice_event(
        "voice.transcription".to_string(),
        obj(vec![("text", s("hello"))]),
    );
    assert_eq!(text(&transcription, "transcript"), Some("hello"));
    assert_eq!(flag(&transcription, "is_final"), Some(false));
    assert!(transcription.get("session_id").unwrap().is_null());

    let (_, state) = normalize_voice_event("ai.state".to_string(), obj(vec![]));
    assert_eq!(text(&state, "state"), Some("idle"));

    let (_, response) = normalize_voice_event(
        "ai.response".to_string(),
        obj(vec![("response", s("done")), ("isFinal", b(true))]),
    );
    assert_eq!(text(&response, "text"), Some("done"));
    assert_eq!(flag(&response, "is_final"), Some(true));
    assert!(response.get("message").unwrap().is_null());
}

#[test]
fn voice_events_of_other_topics_pass_through() {
    let (topic, data) = normalize_voice_event("other.topic".to_string(), obj(vec![("x", n(1))]));
    assert_eq!(topic, "other.topic");
    assert_eq!(number(&data, "x"), Some(1));
    assert!(data.get("session_id").is_none());
}

#[test]
fn merge_keeps_canonical_fields_and_adds_the_rest() {
    let merged = merge_voice_metadata(
        obj(vec![("state", s("idle"))]),
        obj(vec![("state", s("thinking")), ("extra", n(3))]),
    );
    assert_eq!(text(&merged, "state"), Some("idle"));
    assert_eq!(number(&merged, "extra"), Some(3));

    let unchanged = merge_voice_metadata(obj(vec![("state", s("idle"))]), s("not an object"));
    assert_eq!(text(&unchanged, "state"), Some("idle"));
}

#[test]
fn notification_show_falls_back_to_either_spelling() {
    let data = normalize_notification_show_event(
        obj(vec![
            ("appBundleId", s("com.apple.MobileSMS")),
            ("daysUntilExpiry", Json::Number(JsonNumber::NegInt(-3))),
            ("preExisting", b(true)),
        ]),
        None,
    );
    assert_eq!(text(&data, "title"), Some(""));
    assert_eq!(text(&data, "app_bundle_id"), Some("com.apple.MobileSMS"));
    assert_eq!(data.get("days_until_expiry").and_then(|v| v.as_i64()), Some(-3));
    assert_eq!(flag(&data, "pre_existing"), Some(true));
    assert!(data.get("body").unwrap().is_null());

    let decoded = normalize_notification_show_event(
        obj(vec![("title", s("raw"))]),
        Some(obj(vec![("title", s("decoded"))])),
    );
    assert_eq!(text(&decoded, "title"), Some("decoded"));
}

#[test]
fn bt_only_events_route_by_topic() {
    let (topic, ready) = normalize_bt_only_event(
        "app.ready".to_string(),
        obj(vec![("isAdmin", b(true))]),
        None,
    );
    assert_eq!(topic, "app.ready");
    assert_eq!(flag(&ready, "is_admin"), Some(true));

    let (_, status) = normalize_bt_only_event(
        "network.status".to_string(),
        obj(vec![("raw", n(1))]),
        Some(obj(vec![("decoded", n(2))])),
    );
    assert_eq!(number(&status, "decoded"), Some(2));

    let (_, undecoded) = normalize_bt_only_event(
        "audio.data".to_string(),
        obj(vec![("raw", n(1))]),
        None,
    );
    assert_eq!(number(&undecoded, "raw"), Some(1));

    let (_, other) = normalize_bt_only_event(
        "unknown".to_string(),
        obj(vec![("raw", n(1))]),
        Some(obj(vec![("decoded", n(2))])),
    );
    assert_eq!(number(&other, "raw"), Some(1));
}

#[test]
fn volume_and_failed_artwork_values_are_clamped() {
    let (topic, volume) = normalize_media_control_event(
        "phone.volume.update".to_string(),
        obj(vec![("volumePercent", n(250))]),
        None,
        None,
    );
    assert_eq!(topic, "phone.volume.update");
    assert_eq!(number(&volume, "volume_percent"), Some(100));

    let (_, decoded_volume) = normalize_media_control_event(
        "phone.volume.update".to_string(),
        obj(vec![("volume_percent", n(40))]),
        None,
        Some(55),
    );
    assert_eq!(number(&decoded_volume, "volume_percent"), Some(55));

    let (topic, failed) = normalize_media_control_event(
        "media.nowPlaying.artwork.failed".to_string(),
        obj(vec![("transfer_id", n(u64::MAX))]),
        None,
        None,
    );
    assert_eq!(topic, "media.now_playing.artwork.failed");
    assert_eq!(number(&failed, "transfer_id"), Some(u32::MAX as u64));

    let (_, missing) = normalize_media_control_event(
        "media.now_playing.artwork.failed".to_string(),
        obj(vec![]),
        None,
        None,
    );
    assert_eq!(number(&missing, "transfer_id"), Some(0));
}

#[test]
fn artwork_defaults_to_jpeg() {
    let (_, artwork) = normalize_media_control_event(
        "media.nowPlaying.artwork".to_string(),
        obj(vec![]),
        None,
        None,
    );
    assert_eq!(text(&artwork, "data"), Some(""));
    assert_eq!(text(&artwork, "content_type"), Some("image/jpeg"));
}

#[test]
fn media_control_responses_acknowledge_known_methods() {
    let ack = media_control_response_payload("media.control.volume_up").unwrap();
    assert_eq!(text(&ack, "status"), Some("ok"));
    assert!(media_control_response_payload("media.control.prev").is_some());
    assert!(media_control_response_payload("media.control.like").is_none());
}

#[test]
fn daemon_lifecycle_events() {
    let (topic, data) = event(create_daemon_ready_event());
    assert_eq!(topic, "daemon.ready");
    assert!(data.is_null());

    let (topic, data) = event(create_daemon_heartbeat_event(99));
    assert_eq!(topic, "daemon.heartbeat");
    assert_eq!(number(&data, "timestamp"), Some(99));
}

#[test]
fn fields_are_read_under_either_spelling() {
    let data = obj(vec![
        ("snake_case", s("first")),
        ("camelCase", s("second")),
        ("flag", b(true)),
        ("big", n(u64::MAX)),
        ("small", Json::Number(JsonNumber::NegInt(-5))),
        ("wrong", n(1)),
    ]);
    assert_eq!(string_field(&data, "snake_case", "camelCase").as_deref(), Some("first"));
    assert_eq!(string_field(&data, "missing", "camelCase").as_deref(), Some("second"));
    assert_eq!(string_field(&data, "wrong", "camelCase"), None);
    assert_eq!(bool_field(&data, "flag", "flag"), Some(true));
    assert_eq!(u64_field(&data, "big", "big"), Some(u64::MAX));
    assert_eq!(i64_field(&data, "big", "big"), None);
    assert_eq!(i64_field(&data, "small", "small"), Some(-5));
    assert_eq!(u64_field(&data, "small", "small"), None);
    assert_eq!(media_generation(&obj(vec![("mediaGeneration", n(4))])), Some(4));
}

#[test]
fn set_member_replaces_or_appends() {
    let mut members = vec![JsonMember { key: "a".to_string(), value: n(1) }];
    set_member(&mut members, "a".to_string(), n(2));
    set_member(&mut members, "b".to_string(), n(3));
    let j = Json::Object(members);
    assert_eq!(number(&j, "a"), Some(2));
    assert_eq!(number(&j, "b"), Some(3));
    let copy = copy_json(&j);
    assert_eq!(number(&copy, "a"), Some(2));
    assert_eq!(number(&copy, "b"), Some(3));
}

#[test]
fn address_text_is_upper_case_with_colons() {
    assert_eq!(address_text(&Address([0, 0x1a, 0xff, 0x10, 0x09, 0xa0])), "00:1A:FF:10:09:A0");
}

fn no_readings() -> SchemaReadings {
    SchemaReadings { bt_only: None, artwork_transfer_id: None, volume_percent: None }
}

#[test]
fn artist_badges_are_removed() {
    assert_eq!(clean_artist("Daft Punk \u{2022} Video Available"), "Daft Punk");
    assert_eq!(clean_artist("Lossless \u{2022} Daft Punk"), "Daft Punk");
    assert_eq!(clean_artist("Daft Punk \u{2022} Lossless"), "Daft Punk");
    assert_eq!(clean_artist("Video Available \u{2022} Justice"), "Justice");
    assert_eq!(clean_artist("Justice"), "Justice");
    assert_eq!(clean_artist("LosslessLossless"), "");
}

#[test]
fn remove_all_scans_from_the_left() {
    assert_eq!(remove_all("aaa", "aa"), "a");
    assert_eq!(remove_all("abcabc", "bc"), "aa");
    assert_eq!(remove_all("abc", ""), "abc");
    assert_eq!(remove_all("", "x"), "");
    assert_eq!(remove_all("h\u{e9}llo \u{2022} x", " \u{2022} "), "h\u{e9}llox");
}

#[test]
fn now_playing_artist_is_cleaned_in_place() {
    let data = obj(vec![
        (
            "media_item_attributes",
            obj(vec![
                ("MediaItemTitle", s("One More Time")),
                ("MediaItemArtist", s("Daft Punk \u{2022} Lossless")),
            ]),
        ),
        ("playback_attributes", obj(vec![])),
    ]);
    let cleaned = clean_now_playing_artist(data);
    let attrs = cleaned.get("media_item_attributes").unwrap();
    assert_eq!(text(attrs, "MediaItemArtist"), Some("Daft Punk"));
    assert_eq!(text(attrs, "MediaItemTitle"), Some("One More Time"));
    assert!(cleaned.get("playback_attributes").is_some());

    let numeric = clean_now_playing_artist(obj(vec![(
        "media_item_attributes",
        obj(vec![("MediaItemArtist", n(5))]),
    )]));
    assert_eq!(numeric.get("media_item_attributes").and_then(|a| number(a, "MediaItemArtist")), Some(5));
}

#[test]
fn phone_events_are_normalised_and_routed() {
    let (route, topic, data) = route_phone_event(
        "media.nowPlaying.update".to_string(),
        obj(vec![(
            "mediaItemAttributes",
            obj(vec![("MediaItemArtist", s("Justice \u{2022} Video Available"))]),
        )]),
        None,
        true,
        no_readings(),
    );
    assert_eq!(route, PhoneEventRoute::Broadcast);
    assert_eq!(topic, "media.now_playing.update");
    assert_eq!(
        data.get("media_item_attributes").and_then(|a| text(a, "MediaItemArtist")),
        Some("Justice")
    );

    let peer = Address([1, 2, 3, 4, 5, 6]);
    let (route, topic, data) = route_phone_event(
        "phone.call.started".to_string(),
        obj(vec![("call_id", s("c"))]),
        Some(peer),
        true,
        no_readings(),
    );
    assert_eq!(route, PhoneEventRoute::Broadcast);
    assert_eq!(topic, "phone.call.started");
    assert_eq!(text(&data, "device"), Some("01:02:03:04:05:06"));

    let (route, topic, _) = route_phone_event(
        "ota.asset_range_chunk".to_string(),
        obj(vec![]),
        None,
        true,
        no_readings(),
    );
    assert_eq!(route, PhoneEventRoute::Ota(OtaCall::AssetRangeChunk));
    assert_eq!(topic, "ota.asset_range_chunk");

    let (route, _, _) = route_phone_event(
        "ota.asset_range_chunk".to_string(),
        obj(vec![]),
        None,
        false,
        no_readings(),
    );
    assert_eq!(route, PhoneEventRoute::Broadcast);

    let (_, _, ready) = route_phone_event(
        "app.ready".to_string(),
        obj(vec![("hasLifetime", b(true))]),
        None,
        true,
        no_readings(),
    );
    assert_eq!(flag(&ready, "has_lifetime"), Some(true));
}

#[test]
fn device_volume_updates_answer_success() {
    let (volume, event, reply) = device_volume_update(&obj(vec![("volumePercent", n(42))]));
    assert_eq!(volume, 42);
    assert_eq!(number(&event, "volume_percent"), Some(42));
    assert_eq!(flag(&reply, "success"), Some(true));

    let (volume, _, _) = device_volume_update(&obj(vec![("volume_percent", n(300))]));
    assert_eq!(volume, 0);
}

#[test]
fn retransmit_requests_name_the_chunk() {
    let (topic, data) = event(create_chunk_retransmit_request_event("0123abcd-0000-4000-8000-00000000abcd", 3));
    assert_eq!(topic, "chunk.retransmit_request");
    assert_eq!(text(&data, "message_id"), Some("0123abcd-0000-4000-8000-00000000abcd"));
    assert_eq!(number(&data, "chunk_idx"), Some(3));
}

#[test]
fn outbound_app_message_preserves_event_shape() {
    let data = obj(vec![
        ("topic", s("ota.asset_range")),
        (
            "data",
            obj(vec![
                ("requestId", s("550e8400-e29b-41d4-a716-446655440000")),
                ("updateId", s("update-1")),
                ("asset", s("rootfs.swu")),
                ("ranges", Json::Array(vec![obj(vec![("start", n(0)), ("length", n(4))])])),
            ]),
        ),
        ("_targetPeer", s("00:11:22:33:44:55")),
    ]);

    let message = outbound_app_message("msg-1".to_string(), Some(data))
        .expect("event app message should convert");

    match message {
        MsgPackMessage::Event { topic, data } => {
            assert_eq!(topic, "ota.asset_range");
            assert_eq!(text(&data, "requestId"), Some("550e8400-e29b-41d4-a716-446655440000"));
            assert!(data.get("_targetPeer").is_none());
        }
        other => panic!("expected event message, got {other:?}"),
    }
}

#[test]
fn outbound_app_messages_without_a_topic_are_calls() {
    let message = outbound_app_message(
        "msg-2".to_string(),
        Some(obj(vec![("method", s("media.play")), ("params", obj(vec![("volume", n(3))]))])),
    )
    .expect("call app message should convert");
    match message {
        MsgPackMessage::Call { id, method, params } => {
            assert_eq!(id, "msg-2");
            assert_eq!(method, "media.play");
            assert_eq!(number(&params, "volume"), Some(3));
        }
        other => panic!("expected call message, got {other:?}"),
    }

    let message = outbound_app_message("msg-3".to_string(), Some(obj(vec![("topic", n(7))])))
        .expect("app message should convert");
    match message {
        MsgPackMessage::Call { method, params, .. } => {
            assert_eq!(method, "unknown");
            assert!(matches!(params, Json::Object(ref m) if m.is_empty()));
        }
        other => panic!("expected call message, got {other:?}"),
    }

    let (topic, data) = event(
        outbound_app_message("msg-4".to_string(), Some(obj(vec![("topic", s("ping"))]))).unwrap(),
    );
    assert_eq!(topic, "ping");
    assert!(matches!(data, Json::Object(ref m) if m.is_empty()));

    assert!(matches!(
        outbound_app_message("msg-5".to_string(), None),
        Err(AppMessageError::InvalidJson)
    ));
}

fn reply_error(m: Option<MsgPackMessage>) -> (String, String) {
    match m {
        Some(MsgPackMessage::Error { id, error }) => (id, error),
        other => panic!("expected error reply, got {other:?}"),
    }
}

fn reply_result(m: Option<MsgPackMessage>) -> (String, Json) {
    match m {
        Some(MsgPackMessage::Result { id, result }) => (id, result),
        other => panic!("expected result reply, got {other:?}"),
    }
}

#[test]
fn calls_are_answered_by_their_route() {
    let route = route_call("media.control.next", false, true);
    assert_eq!(route, CallRoute::Hid(HidControl::Next));
    let (id, result) = reply_result(call_reply("c1".to_string(), "media.control.next", route, None, None));
    assert_eq!(id, "c1");
    assert_eq!(text(&result, "status"), Some("ok"));
    let (_, error) = reply_error(call_reply(
        "c2".to_string(),
        "media.control.next",
        route,
        Some("closed".to_string()),
        None,
    ));
    assert_eq!(error, "hid_send_failed: closed");
    let (_, error) =
        reply_error(call_reply("c3".to_string(), "media.control.next", CallRoute::HidUnavailable, None, None));
    assert_eq!(error, "hid_unavailable");
    let (_, error) =
        reply_error(call_reply("c4".to_string(), "media.control.dance", CallRoute::UnknownMediaMethod, None, None));
    assert_eq!(error, "unknown_method: media.control.dance");
    let (_, result) =
        reply_result(call_reply("c5".to_string(), "device.volume.update", CallRoute::VolumeUpdate, None, None));
    assert_eq!(flag(&result, "success"), Some(true));
    let (_, result) =
        reply_result(call_reply("c6".to_string(), "custom", CallRoute::Handler, None, Some(n(9))));
    assert!(matches!(result, Json::Number(JsonNumber::PosInt(9))));
    let (_, error) = reply_error(call_reply("c7".to_string(), "custom", CallRoute::Handler, None, None));
    assert_eq!(error, "Method not found: custom");
    assert!(call_reply("c8".to_string(), "ota.begin", CallRoute::Ota(OtaCall::Begin), None, None).is_none());
}

#[test]
fn an_error_reply_fails_the_waiting_call_with_its_text() {
    let result = pending_call_error("transfer refused");
    assert_eq!(app_rpc_error(&result).as_deref(), Some("transfer refused"));
}
