use nocturned::dispatch::{
    aborts_ota_pull, media_control_response_kind, method_to_hid_command, ota_call_kind,
    reported_volume, route_call, unknown_method_error, websocket_route, ws_reply_status, CallRoute,
    HidControl, MediaResponseKind, OtaCall, WsRoute,
};

#[test]
fn maps_like_feedback_to_distinct_high_byte_hid_controls() {
    assert_eq!(method_to_hid_command("media.control.like"), Some(HidControl::Promote));
    assert_eq!(method_to_hid_command("media.control.unlike"), Some(HidControl::Demote));
    assert_ne!(HidControl::Promote, HidControl::Shuffle);
    assert_ne!(HidControl::Demote, HidControl::Repeat);
}

#[test]
fn media_methods_and_their_aliases_press_one_control() {
    for method in ["media.control.play", "media.control.pause", "media.control.playPause", "media.control.togglePlayPause"] {
        assert_eq!(method_to_hid_command(method), Some(HidControl::PlayPause));
    }
    assert_eq!(method_to_hid_command("media.control.prev"), Some(HidControl::Previous));
    assert_eq!(method_to_hid_command("media.control.volume_up"), Some(HidControl::VolumeUp));
    assert_eq!(method_to_hid_command("media.control.volumeDown"), Some(HidControl::VolumeDown));
    assert_eq!(method_to_hid_command("media.control.seek"), None);
    assert_eq!(media_control_response_kind("media.control.prev"), Some(MediaResponseKind::Previous));
    assert_eq!(media_control_response_kind("media.control.like"), None);
}

#[test]
fn calls_route_to_ota_hid_volume_or_handlers() {
    assert_eq!(route_call("system.ota.begin", true, true), CallRoute::Ota(OtaCall::Begin));
    assert_eq!(route_call("device.ota.package_state", true, false), CallRoute::Ota(OtaCall::PackageReady));
    assert_eq!(route_call("ota.begin", false, true), CallRoute::Handler);
    assert_eq!(route_call("media.control.next", false, true), CallRoute::Hid(HidControl::Next));
    assert_eq!(route_call("media.control.next", true, false), CallRoute::HidUnavailable);
    assert_eq!(route_call("media.control.dance", true, true), CallRoute::UnknownMediaMethod);
    assert_eq!(route_call("device.volume.update", true, true), CallRoute::VolumeUpdate);
    assert_eq!(route_call("spotify.auth.get_status", true, true), CallRoute::Handler);
    assert_eq!(unknown_method_error("media.control.dance"), "unknown_method: media.control.dance");
    assert_eq!(ota_call_kind("ota.asset_range_rejected"), Some(OtaCall::AssetRangeRejected));
    assert!(aborts_ota_pull(OtaCall::Cancel));
    assert!(!aborts_ota_pull(OtaCall::Chunk));
}

#[test]
fn phone_volume_reports_fit_a_byte() {
    assert_eq!(reported_volume(Some(42)), 42);
    assert_eq!(reported_volume(Some(300)), 0);
    assert_eq!(reported_volume(None), 0);
}

#[test]
fn ui_requests_are_forwarded_or_answered_locally() {
    assert_eq!(websocket_route("device.time.get"), WsRoute::ForwardToPhone);
    assert_eq!(websocket_route("voice.cancel"), WsRoute::StopCaptureAndForward);
    assert_eq!(websocket_route("audio.record.start"), WsRoute::StartRecording);
    assert_eq!(ws_reply_status(WsRoute::StartRecording), Some("recording"));
    assert_eq!(ws_reply_status(websocket_route("audio.record.stop")), Some("idle"));
    assert_eq!(ws_reply_status(websocket_route("wakeword.pause")), Some("paused"));
    assert_eq!(ws_reply_status(websocket_route("wakeword.resume")), Some("resumed"));
    assert_eq!(websocket_route("nope"), WsRoute::Unknown);
    assert_eq!(ws_reply_status(WsRoute::ForwardToPhone), None);
}
