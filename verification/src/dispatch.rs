//! Where a companion-app call goes: OTA calls to the update actor, media
//! controls to the iAP2 HID channel, volume reports to the UI, everything
//! else to a registered handler.
use vstd::prelude::*;
use vstd::string::*;
use crate::text::{concat, has_prefix, str_eq};

verus! {

/// A media key pressed over the iAP2 HID channel.
#[derive(Clone, Copy, Debug, PartialEq, Eq, Structural)]
pub enum HidControl {
    PlayPause,
    Next,
    Previous,
    Shuffle,
    Repeat,
    /// Like the current track.
    Promote,
    /// Unlike the current track.
    Demote,
    VolumeUp,
    VolumeDown,
}

/// The HID control a media-control method presses.
pub open spec fn hid_control_for(method: Seq<char>) -> Option<HidControl> {
    if method == "media.control.play"@ || method == "media.control.pause"@ || method == "media.control.playPause"@
        || method == "media.control.togglePlayPause"@ {
        Some(HidControl::PlayPause)
    } else if method == "media.control.next"@ {
        Some(HidControl::Next)
    } else if method == "media.control.previous"@ || method == "media.control.prev"@ {
        Some(HidControl::Previous)
    } else if method == "media.control.shuffle"@ {
        Some(HidControl::Shuffle)
    } else if method == "media.control.repeat"@ {
        Some(HidControl::Repeat)
    } else if method == "media.control.like"@ {
        Some(HidControl::Promote)
    } else if method == "media.control.unlike"@ {
        Some(HidControl::Demote)
    } else if method == "media.control.volumeUp"@ || method == "media.control.volume_up"@ {
        Some(HidControl::VolumeUp)
    } else if method == "media.control.volumeDown"@ || method == "media.control.volume_down"@ {
        Some(HidControl::VolumeDown)
    } else {
        None
    }
}

/// The method that names each HID control.
pub open spec fn control_method(c: HidControl) -> Seq<char> {
    match c {
        HidControl::PlayPause => "media.control.playPause"@,
        HidControl::Next => "media.control.next"@,
        HidControl::Previous => "media.control.previous"@,
        HidControl::Shuffle => "media.control.shuffle"@,
        HidControl::Repeat => "media.control.repeat"@,
        HidControl::Promote => "media.control.like"@,
        HidControl::Demote => "media.control.unlike"@,
        HidControl::VolumeUp => "media.control.volumeUp"@,
        HidControl::VolumeDown => "media.control.volumeDown"@,
    }
}

/// Each media-control method presses the control it names, so no two
/// controls share a method; and only `media.control.` methods press one.
pub proof fn lemma_each_method_presses_its_control(c: HidControl, method: Seq<char>)
    ensures
        hid_control_for(control_method(c)) == Some(c),
        hid_control_for(method) is Some ==> method.len() > 14 && method.subrange(0, 14) == "media.control."@,
{
    reveal_strlit("media.control.");
    reveal_strlit("media.control.play");
    reveal_strlit("media.control.pause");
    reveal_strlit("media.control.playPause");
    reveal_strlit("media.control.togglePlayPause");
    reveal_strlit("media.control.next");
    reveal_strlit("media.control.previous");
    reveal_strlit("media.control.prev");
    reveal_strlit("media.control.shuffle");
    reveal_strlit("media.control.repeat");
    reveal_strlit("media.control.like");
    reveal_strlit("media.control.unlike");
    reveal_strlit("media.control.volumeUp");
    reveal_strlit("media.control.volume_up");
    reveal_strlit("media.control.volumeDown");
    reveal_strlit("media.control.volume_down");
    let m = control_method(c);
    // Each method differs from the ones tested before it in a character
    // after the common prefix.
    match c {
        HidControl::PlayPause => {},
        HidControl::Next => {
            assert(m[14] != "media.control.play"@[14] && m[14] != "media.control.pause"@[14]);
        },
        HidControl::Previous => {
            assert(m[15] != "media.control.play"@[15] && m[15] != "media.control.pause"@[15]);
            assert(m[14] != "media.control.next"@[14]);
        },
        HidControl::Shuffle => {
            assert(m[14] != "media.control.pause"@[14] && m[14] != "media.control.repeat"@[14]);
        },
        HidControl::Repeat => {
            assert(m[14] != "media.control.pause"@[14] && m[14] != "media.control.shuffle"@[14]);
        },
        HidControl::Promote => {
            assert(m[14] != "media.control.play"@[14] && m[14] != "media.control.next"@[14]
                && m[14] != "media.control.prev"@[14]);
        },
        HidControl::Demote => {
            assert(m[14] != "media.control.repeat"@[14] && m[14] != "media.control.shuffle"@[14]
                && m[14] != "media.control.pause"@[14]);
        },
        HidControl::VolumeUp => {
            assert(m[14] != "media.control.shuffle"@[14] && m[14] != "media.control.unlike"@[14]);
        },
        HidControl::VolumeDown => {
            assert(m[14] != "media.control.shuffle"@[14] && m[14] != "media.control.unlike"@[14]);
            assert(m[20] != "media.control.volumeUp"@[20] && m[20] != "media.control.volume_up"@[20]);
        },
    }
}

/// The HID control for a media-control method, if it has one.
pub fn method_to_hid_command(method: &str) -> (c: Option<HidControl>)
    ensures
        c == hid_control_for(method@),
{
    if str_eq(method, "media.control.play") || str_eq(method, "media.control.pause") || str_eq(
        method,
        "media.control.playPause",
    ) || str_eq(method, "media.control.togglePlayPause") {
        Some(HidControl::PlayPause)
    } else if str_eq(method, "media.control.next") {
        Some(HidControl::Next)
    } else if str_eq(method, "media.control.previous") || str_eq(method, "media.control.prev") {
        Some(HidControl::Previous)
    } else if str_eq(method, "media.control.shuffle") {
        Some(HidControl::Shuffle)
    } else if str_eq(method, "media.control.repeat") {
        Some(HidControl::Repeat)
    } else if str_eq(method, "media.control.like") {
        Some(HidControl::Promote)
    } else if str_eq(method, "media.control.unlike") {
        Some(HidControl::Demote)
    } else if str_eq(method, "media.control.volumeUp") || str_eq(method, "media.control.volume_up") {
        Some(HidControl::VolumeUp)
    } else if str_eq(method, "media.control.volumeDown") || str_eq(method, "media.control.volume_down") {
        Some(HidControl::VolumeDown)
    } else {
        None
    }
}

/// The typed response a media-control method is answered with.
#[derive(Clone, Copy, Debug, PartialEq, Eq, Structural)]
pub enum MediaResponseKind {
    Play,
    Pause,
    Next,
    Previous,
    Shuffle,
    Repeat,
    VolumeUp,
    VolumeDown,
}

/// The typed response of a media-control method; methods without one are
/// answered with a plain `{"status": "ok"}`.
pub open spec fn media_response_for(method: Seq<char>) -> Option<MediaResponseKind> {
    if method == "media.control.play"@ {
        Some(MediaResponseKind::Play)
    } else if method == "media.control.pause"@ {
        Some(MediaResponseKind::Pause)
    } else if method == "media.control.next"@ {
        Some(MediaResponseKind::Next)
    } else if method == "media.control.previous"@ || method == "media.control.prev"@ {
        Some(MediaResponseKind::Previous)
    } else if method == "media.control.shuffle"@ {
        Some(MediaResponseKind::Shuffle)
    } else if method == "media.control.repeat"@ {
        Some(MediaResponseKind::Repeat)
    } else if method == "media.control.volumeUp"@ || method == "media.control.volume_up"@ {
        Some(MediaResponseKind::VolumeUp)
    } else if method == "media.control.volumeDown"@ || method == "media.control.volume_down"@ {
        Some(MediaResponseKind::VolumeDown)
    } else {
        None
    }
}

/// The typed response of a media-control method.
pub fn media_control_response_kind(method: &str) -> (k: Option<MediaResponseKind>)
    ensures
        k == media_response_for(method@),
{
    if str_eq(method, "media.control.play") {
        Some(MediaResponseKind::Play)
    } else if str_eq(method, "media.control.pause") {
        Some(MediaResponseKind::Pause)
    } else if str_eq(method, "media.control.next") {
        Some(MediaResponseKind::Next)
    } else if str_eq(method, "media.control.previous") || str_eq(method, "media.control.prev") {
        Some(MediaResponseKind::Previous)
    } else if str_eq(method, "media.control.shuffle") {
        Some(MediaResponseKind::Shuffle)
    } else if str_eq(method, "media.control.repeat") {
        Some(MediaResponseKind::Repeat)
    } else if str_eq(method, "media.control.volumeUp") || str_eq(method, "media.control.volume_up") {
        Some(MediaResponseKind::VolumeUp)
    } else if str_eq(method, "media.control.volumeDown") || str_eq(method, "media.control.volume_down") {
        Some(MediaResponseKind::VolumeDown)
    } else {
        None
    }
}

/// An OTA call handled by the update actor.
#[derive(Clone, Copy, Debug, PartialEq, Eq, Structural)]
pub enum OtaCall {
    Begin,
    Chunk,
    AssetRangeChunk,
    AssetRangeReply,
    AssetRangeRejected,
    Abandon,
    DownloadProgress,
    PackageReady,
    Cancel,
}

/// The OTA call a method names (with or without the `system.` prefix).
pub open spec fn ota_call_for(method: Seq<char>) -> Option<OtaCall> {
    if method == "ota.begin"@ || method == "system.ota.begin"@ {
        Some(OtaCall::Begin)
    } else if method == "ota.chunk"@ || method == "system.ota.chunk"@ {
        Some(OtaCall::Chunk)
    } else if method == "ota.asset_range_chunk"@ || method == "system.ota.asset_range_chunk"@ {
        Some(OtaCall::AssetRangeChunk)
    } else if method == "ota.asset_range_reply"@ || method == "system.ota.asset_range_reply"@ {
        Some(OtaCall::AssetRangeReply)
    } else if method == "ota.asset_range_rejected"@ || method == "system.ota.asset_range_rejected"@ {
        Some(OtaCall::AssetRangeRejected)
    } else if method == "ota.abandon"@ || method == "system.ota.abandon"@ {
        Some(OtaCall::Abandon)
    } else if method == "ota.download_progress"@ || method == "system.ota.download_progress"@ {
        Some(OtaCall::DownloadProgress)
    } else if method == "ota.package_ready"@ || method == "system.ota.package_ready"@ || method
        == "device.ota.package_state"@ {
        Some(OtaCall::PackageReady)
    } else if method == "ota.cancel"@ || method == "system.ota.cancel"@ {
        Some(OtaCall::Cancel)
    } else {
        None
    }
}

/// The OTA call a method names, if any.
pub fn ota_call_kind(method: &str) -> (k: Option<OtaCall>)
    ensures
        k == ota_call_for(method@),
{
    if str_eq(method, "ota.begin") || str_eq(method, "system.ota.begin") {
        Some(OtaCall::Begin)
    } else if str_eq(method, "ota.chunk") || str_eq(method, "system.ota.chunk") {
        Some(OtaCall::Chunk)
    } else if str_eq(method, "ota.asset_range_chunk") || str_eq(method, "system.ota.asset_range_chunk") {
        Some(OtaCall::AssetRangeChunk)
    } else if str_eq(method, "ota.asset_range_reply") || str_eq(method, "system.ota.asset_range_reply") {
        Some(OtaCall::AssetRangeReply)
    } else if str_eq(method, "ota.asset_range_rejected") || str_eq(method, "system.ota.asset_range_rejected") {
        Some(OtaCall::AssetRangeRejected)
    } else if str_eq(method, "ota.abandon") || str_eq(method, "system.ota.abandon") {
        Some(OtaCall::Abandon)
    } else if str_eq(method, "ota.download_progress") || str_eq(method, "system.ota.download_progress") {
        Some(OtaCall::DownloadProgress)
    } else if str_eq(method, "ota.package_ready") || str_eq(method, "system.ota.package_ready") || str_eq(
        method,
        "device.ota.package_state",
    ) {
        Some(OtaCall::PackageReady)
    } else if str_eq(method, "ota.cancel") || str_eq(method, "system.ota.cancel") {
        Some(OtaCall::Cancel)
    } else {
        None
    }
}

/// Whether an OTA call stops a pull in progress: a new transfer, an
/// abandoned or cancelled one, and a package-ready call once its new pull is
/// authorized.
pub fn aborts_ota_pull(call: OtaCall) -> (b: bool)
    ensures
        b == (call == OtaCall::Begin || call == OtaCall::Abandon || call == OtaCall::Cancel || call
            == OtaCall::PackageReady),
{
    match call {
        OtaCall::Begin | OtaCall::Abandon | OtaCall::Cancel | OtaCall::PackageReady => true,
        _ => false,
    }
}

/// Where a call goes.
#[derive(Clone, Copy, Debug, PartialEq, Eq, Structural)]
pub enum CallRoute {
    /// To the update actor.
    Ota(OtaCall),
    /// Press this HID control and answer with the media-control response.
    Hid(HidControl),
    /// A media-control method while no HID channel is up: `hid_unavailable`.
    HidUnavailable,
    /// A media-control method without a control: `unknown_method: <method>`.
    UnknownMediaMethod,
    /// The phone reports its volume.
    VolumeUpdate,
    /// Any other method: a registered handler, else `Method not found`.
    Handler,
}

/// The text `media.control.`.
pub open spec fn media_control_prefix() -> Seq<char> {
    seq!['m', 'e', 'd', 'i', 'a', '.', 'c', 'o', 'n', 't', 'r', 'o', 'l', '.']
}

/// Where a call with `method` goes: OTA calls first (only when the update
/// actor is attached), then media controls, then volume reports, then
/// handlers.
pub open spec fn route_for(method: Seq<char>, ota_attached: bool, hid_attached: bool) -> CallRoute {
    if ota_attached && ota_call_for(method) is Some {
        CallRoute::Ota(ota_call_for(method)->Some_0)
    } else if media_control_prefix().is_prefix_of(method) {
        match hid_control_for(method) {
            Some(c) => if hid_attached {
                CallRoute::Hid(c)
            } else {
                CallRoute::HidUnavailable
            },
            None => CallRoute::UnknownMediaMethod,
        }
    } else if method == "device.volume.update"@ {
        CallRoute::VolumeUpdate
    } else {
        CallRoute::Handler
    }
}

/// Routes a call.
pub fn route_call(method: &str, ota_attached: bool, hid_attached: bool) -> (r: CallRoute)
    ensures
        r == route_for(method@, ota_attached, hid_attached),
{
    if ota_attached {
        match ota_call_kind(method) {
            Some(call) => {
                return CallRoute::Ota(call);
            },
            None => {},
        }
    }
    proof {
        reveal_strlit("media.control.");
        assert("media.control."@ =~= media_control_prefix());
    }
    if has_prefix(method, "media.control.") {
        return match method_to_hid_command(method) {
            Some(c) => if hid_attached {
                CallRoute::Hid(c)
            } else {
                CallRoute::HidUnavailable
            },
            None => CallRoute::UnknownMediaMethod,
        };
    }
    if str_eq(method, "device.volume.update") {
        CallRoute::VolumeUpdate
    } else {
        CallRoute::Handler
    }
}

/// The error text for a media-control method without a control.
pub fn unknown_method_error(method: &str) -> (e: String)
    ensures
        e@ == "unknown_method: "@ + method@,
{
    concat("unknown_method: ", method)
}

/// The volume a phone reports: the percentage when it fits a byte, else 0.
pub fn reported_volume(value: Option<u64>) -> (v: u8)
    ensures
        v == match value {
            Some(p) => if p <= 255 {
                p as u8
            } else {
                0u8
            },
            None => 0u8,
        },
{
    match value {
        Some(p) => if p <= 255 {
            p as u8
        } else {
            0
        },
        None => 0,
    }
}

/// What the daemon does with a UI request (one that is not a music request).
#[derive(Clone, Copy, Debug, PartialEq, Eq, Structural)]
pub enum WsRoute {
    /// Forward it to the phone (time, time zone, speech, onboarding).
    ForwardToPhone,
    /// Stop audio capture, then forward it to the phone.
    StopCaptureAndForward,
    /// Pause the wake word for the recording, start capture, answer
    /// `recording`.
    StartRecording,
    /// Stop capture, answer `idle`.
    StopRecording,
    /// Mute the wake word (persisted), answer `paused`.
    PauseWakeword,
    /// Unmute the wake word (persisted), answer `resumed`.
    ResumeWakeword,
    /// Answer `Unknown method: <method>`.
    Unknown,
}

/// Where a UI request with `method` goes.
pub open spec fn ws_route_for(method: Seq<char>) -> WsRoute {
    if method == "device.timezone.get"@ || method == "device.time.get"@ || method == "tts.speak"@ || method
        == "tts.stop"@ || method == "onboarding.set_state"@ {
        WsRoute::ForwardToPhone
    } else if method == "voice.cancel"@ {
        WsRoute::StopCaptureAndForward
    } else if method == "audio.record.start"@ {
        WsRoute::StartRecording
    } else if method == "audio.record.stop"@ {
        WsRoute::StopRecording
    } else if method == "wakeword.pause"@ {
        WsRoute::PauseWakeword
    } else if method == "wakeword.resume"@ {
        WsRoute::ResumeWakeword
    } else {
        WsRoute::Unknown
    }
}

/// Routes a UI request.
pub fn websocket_route(method: &str) -> (r: WsRoute)
    ensures
        r == ws_route_for(method@),
{
    if str_eq(method, "device.timezone.get") || str_eq(method, "device.time.get") || str_eq(method, "tts.speak")
        || str_eq(method, "tts.stop") || str_eq(method, "onboarding.set_state") {
        WsRoute::ForwardToPhone
    } else if str_eq(method, "voice.cancel") {
        WsRoute::StopCaptureAndForward
    } else if str_eq(method, "audio.record.start") {
        WsRoute::StartRecording
    } else if str_eq(method, "audio.record.stop") {
        WsRoute::StopRecording
    } else if str_eq(method, "wakeword.pause") {
        WsRoute::PauseWakeword
    } else if str_eq(method, "wakeword.resume") {
        WsRoute::ResumeWakeword
    } else {
        WsRoute::Unknown
    }
}

/// The status a locally answered UI request replies with.
pub fn ws_reply_status(route: WsRoute) -> (status: Option<&'static str>)
    ensures
        route == WsRoute::StartRecording ==> (status matches Some(t) && t@ == "recording"@),
        route == WsRoute::StopRecording ==> (status matches Some(t) && t@ == "idle"@),
        route == WsRoute::PauseWakeword ==> (status matches Some(t) && t@ == "paused"@),
        route == WsRoute::ResumeWakeword ==> (status matches Some(t) && t@ == "resumed"@),
        route == WsRoute::ForwardToPhone || route == WsRoute::StopCaptureAndForward || route == WsRoute::Unknown
            ==> status is None,
{
    match route {
        WsRoute::StartRecording => Some("recording"),
        WsRoute::StopRecording => Some("idle"),
        WsRoute::PauseWakeword => Some("paused"),
        WsRoute::ResumeWakeword => Some("resumed"),
        _ => None,
    }
}

} // verus!
