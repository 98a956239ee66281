//! The UI's Bluetooth control requests (connect, disconnect, unpair) and the
//! order in which a connection to a phone or computer is attempted.
use vstd::prelude::*;
use crate::address::{address_fields, parse_address, Address};
use crate::text::str_eq;

verus! {

/// A control request, by method.
#[derive(Clone, Copy, Debug, PartialEq, Eq, Structural)]
pub enum ControlMethod {
    Connect,
    Disconnect,
    Unpair,
    Unknown,
}

/// The control request a method names; `bluetooth.device.forget` is an
/// unpair.
pub open spec fn method_for(method: Seq<char>) -> ControlMethod {
    if method == "bluetooth.device.connect"@ {
        ControlMethod::Connect
    } else if method == "bluetooth.device.disconnect"@ {
        ControlMethod::Disconnect
    } else if method == "bluetooth.device.unpair"@ || method == "bluetooth.device.forget"@ {
        ControlMethod::Unpair
    } else {
        ControlMethod::Unknown
    }
}

/// What to do with a control request.
#[derive(Clone, Copy, Debug, PartialEq, Eq)]
pub enum ControlStep {
    /// Start connecting to the device.
    Connect(Address),
    /// Disconnect the device.
    Disconnect(Address),
    /// Remove the device's pairing.
    Unpair(Address),
    /// Answer the request with this error.
    Reject(&'static str),
    /// An unknown method: nothing is done.
    Ignore,
}

/// The step for a control request of `method` whose parameters name the
/// device `address` (`None` when the parameters are missing or do not read
/// as the request): an unknown method is ignored; a request without an
/// address is refused (`Missing or invalid address parameter` for a
/// connect, `Missing address parameter` otherwise), as is one whose address
/// does not read as a Bluetooth address (`Invalid Bluetooth address`).
pub open spec fn is_control_step(r: ControlStep, method: Seq<char>, address: Option<Seq<char>>) -> bool {
    match method_for(method) {
        ControlMethod::Unknown => r == ControlStep::Ignore,
        m => match address {
            None => r matches ControlStep::Reject(e) && e@ == if m == ControlMethod::Connect {
                "Missing or invalid address parameter"@
            } else {
                "Missing address parameter"@
            },
            Some(text) => match address_fields(text) {
                None => r matches ControlStep::Reject(e) && e@ == "Invalid Bluetooth address"@,
                Some(bytes) => match r {
                    ControlStep::Connect(a) => m == ControlMethod::Connect && a.bytes() == bytes,
                    ControlStep::Disconnect(a) => m == ControlMethod::Disconnect && a.bytes() == bytes,
                    ControlStep::Unpair(a) => m == ControlMethod::Unpair && a.bytes() == bytes,
                    _ => false,
                },
            },
        },
    }
}

/// The control request `method` names.
pub fn control_method(method: &str) -> (m: ControlMethod)
    ensures
        m == method_for(method@),
{
    if str_eq(method, "bluetooth.device.connect") {
        ControlMethod::Connect
    } else if str_eq(method, "bluetooth.device.disconnect") {
        ControlMethod::Disconnect
    } else if str_eq(method, "bluetooth.device.unpair") || str_eq(method, "bluetooth.device.forget") {
        ControlMethod::Unpair
    } else {
        ControlMethod::Unknown
    }
}

/// What to do with a control request (see `is_control_step`).
pub fn control_step(method: &str, address: Option<&str>) -> (r: ControlStep)
    ensures
        is_control_step(
            r,
            method@,
            match address {
                Some(a) => Some(a@),
                None => None,
            },
        ),
{
    let m = control_method(method);
    if m == ControlMethod::Unknown {
        return ControlStep::Ignore;
    }
    let text = match address {
        Some(t) => t,
        None => {
            return ControlStep::Reject(
                if m == ControlMethod::Connect {
                    "Missing or invalid address parameter"
                } else {
                    "Missing address parameter"
                },
            );
        },
    };
    match parse_address(text) {
        None => ControlStep::Reject("Invalid Bluetooth address"),
        Some(a) => match m {
            ControlMethod::Connect => ControlStep::Connect(a),
            ControlMethod::Disconnect => ControlStep::Disconnect(a),
            _ => ControlStep::Unpair(a),
        },
    }
}

/// How a connection attempt ended.
#[derive(Clone, Copy, Debug, PartialEq, Eq, Structural)]
pub enum ConnectOutcome {
    /// A session with the device is open.
    Connected,
    /// The iPhone is to open its iAP2 session.
    WaitingForIos,
    /// The Mac's connector is to dial back.
    WaitingForMacConnector,
    /// The Android phone is to connect back over SPP.
    WaitingForAndroid,
}

/// The status the UI is answered with for an outcome.
pub fn connect_status(outcome: ConnectOutcome) -> (status: &'static str)
    ensures
        status@ == match outcome {
            ConnectOutcome::Connected => "connected"@,
            ConnectOutcome::WaitingForIos => "waiting_for_ios"@,
            ConnectOutcome::WaitingForMacConnector => "waiting_for_macos_connector"@,
            ConnectOutcome::WaitingForAndroid => "waiting_for_android"@,
        },
{
    match outcome {
        ConnectOutcome::Connected => "connected",
        ConnectOutcome::WaitingForIos => "waiting_for_ios",
        ConnectOutcome::WaitingForMacConnector => "waiting_for_macos_connector",
        ConnectOutcome::WaitingForAndroid => "waiting_for_android",
    }
}

/// Where a connection attempt stands.
#[derive(Clone, Copy, Debug, PartialEq, Eq, Structural)]
pub enum ConnectState {
    /// Nothing is known of the device yet.
    Checking,
    /// The macOS connector probe is out.
    Probing,
    /// A direct iAP2 link is being opened; `in_bluez` says whether BlueZ
    /// knows the device.
    DialingDirect { in_bluez: bool },
    /// BlueZ was asked to connect the iAP2 profile.
    RequestingProfile,
    /// The attempt is over.
    Finished,
}

/// What the daemon learned, in the order it learns it.
#[derive(Clone, Copy, Debug, PartialEq, Eq, Structural)]
pub enum ConnectEvent {
    /// What is known before anything is tried: whether a session with the
    /// device is already open, whether a recovery dial for it is running,
    /// whether it is a Mac running the connector (hinted, remembered, or
    /// classified as a computer), whether it may be an iPhone, and whether
    /// BlueZ knows it.
    Facts {
        session_open: bool,
        recovery_dialing: bool,
        macos_connector: bool,
        iap2_candidate: bool,
        in_bluez: bool,
    },
    /// The connector probe was sent (`Some(true)`), failed (`Some(false)`),
    /// or timed out (`None`).
    Probed(Option<bool>),
    /// The direct iAP2 link opened or not.
    Dialed(bool),
    /// BlueZ accepted the profile request or not.
    ProfileRequested(bool),
}

/// What to do next.
#[derive(Clone, Copy, Debug, PartialEq, Eq, Structural)]
pub enum ConnectAction {
    /// The attempt ends with this outcome.
    Finish(ConnectOutcome),
    /// Announce the attempt, then probe the macOS connector.
    ProbeMacConnector,
    /// Remember the Mac, then end waiting for its connector.
    RememberMac,
    /// The probe failed; the attempt fails.
    ProbeFailed,
    /// The probe timed out; the attempt fails.
    ProbeTimedOut,
    /// (Announce the attempt, if not yet done, then) open a direct iAP2
    /// link.
    DialIap2,
    /// (Announce the attempt, if not yet done, then) ask BlueZ to connect
    /// the iAP2 profile.
    RequestIap2Profile,
    /// (Announce the attempt, if not yet done, then) grant the Android phone
    /// a window to connect back, and end waiting for it.
    GrantAndroidWake,
    /// The event does not belong to this stage; nothing changes.
    Ignore,
}

/// After the macOS connector is ruled out: an iPhone candidate is dialed
/// directly, else a device BlueZ knows gets a profile request, else an
/// Android phone is granted a window to connect back.
pub open spec fn after_mac(iap2_candidate: bool, in_bluez: bool) -> (ConnectState, ConnectAction) {
    if iap2_candidate {
        (ConnectState::DialingDirect { in_bluez }, ConnectAction::DialIap2)
    } else {
        after_direct(in_bluez)
    }
}

/// After the direct link is ruled out.
pub open spec fn after_direct(in_bluez: bool) -> (ConnectState, ConnectAction) {
    if in_bluez {
        (ConnectState::RequestingProfile, ConnectAction::RequestIap2Profile)
    } else {
        (ConnectState::Finished, ConnectAction::GrantAndroidWake)
    }
}

/// The order of a connection attempt: an open session ends it at once
/// (connected), as does a running recovery dial (waiting for the iPhone);
/// a Mac running the connector is probed (sent: remembered, waiting for the
/// connector; failed or timed out: the attempt fails); then the iAP2 and
/// Android paths follow (see `after_mac`). A direct link that opens ends it
/// connected; a profile request that BlueZ accepts ends it waiting for the
/// iPhone; a refused one falls back to the Android wake.
pub open spec fn spec_connect_step(state: ConnectState, event: ConnectEvent) -> (ConnectState, ConnectAction) {
    match (state, event) {
        (ConnectState::Checking, ConnectEvent::Facts { session_open, recovery_dialing, macos_connector, iap2_candidate, in_bluez }) => {
            if session_open {
                (ConnectState::Finished, ConnectAction::Finish(ConnectOutcome::Connected))
            } else if recovery_dialing {
                (ConnectState::Finished, ConnectAction::Finish(ConnectOutcome::WaitingForIos))
            } else if macos_connector {
                (ConnectState::Probing, ConnectAction::ProbeMacConnector)
            } else {
                after_mac(iap2_candidate, in_bluez)
            }
        },
        (ConnectState::Probing, ConnectEvent::Probed(p)) => match p {
            Some(true) => (ConnectState::Finished, ConnectAction::RememberMac),
            Some(false) => (ConnectState::Finished, ConnectAction::ProbeFailed),
            None => (ConnectState::Finished, ConnectAction::ProbeTimedOut),
        },
        (ConnectState::DialingDirect { in_bluez }, ConnectEvent::Dialed(ok)) => if ok {
            (ConnectState::Finished, ConnectAction::Finish(ConnectOutcome::Connected))
        } else {
            after_direct(in_bluez)
        },
        (ConnectState::RequestingProfile, ConnectEvent::ProfileRequested(ok)) => if ok {
            (ConnectState::Finished, ConnectAction::Finish(ConnectOutcome::WaitingForIos))
        } else {
            (ConnectState::Finished, ConnectAction::GrantAndroidWake)
        },
        _ => (state, ConnectAction::Ignore),
    }
}

/// One step of a connection attempt (see `spec_connect_step`).
pub fn connect_step(state: ConnectState, event: ConnectEvent) -> (r: (ConnectState, ConnectAction))
    ensures
        r == spec_connect_step(state, event),
{
    match (state, event) {
        (ConnectState::Checking, ConnectEvent::Facts { session_open, recovery_dialing, macos_connector, iap2_candidate, in_bluez }) => {
            if session_open {
                (ConnectState::Finished, ConnectAction::Finish(ConnectOutcome::Connected))
            } else if recovery_dialing {
                (ConnectState::Finished, ConnectAction::Finish(ConnectOutcome::WaitingForIos))
            } else if macos_connector {
                (ConnectState::Probing, ConnectAction::ProbeMacConnector)
            } else if iap2_candidate {
                (ConnectState::DialingDirect { in_bluez }, ConnectAction::DialIap2)
            } else if in_bluez {
                (ConnectState::RequestingProfile, ConnectAction::RequestIap2Profile)
            } else {
                (ConnectState::Finished, ConnectAction::GrantAndroidWake)
            }
        },
        (ConnectState::Probing, ConnectEvent::Probed(p)) => match p {
            Some(true) => (ConnectState::Finished, ConnectAction::RememberMac),
            Some(false) => (ConnectState::Finished, ConnectAction::ProbeFailed),
            None => (ConnectState::Finished, ConnectAction::ProbeTimedOut),
        },
        (ConnectState::DialingDirect { in_bluez }, ConnectEvent::Dialed(ok)) => if ok {
            (ConnectState::Finished, ConnectAction::Finish(ConnectOutcome::Connected))
        } else if in_bluez {
            (ConnectState::RequestingProfile, ConnectAction::RequestIap2Profile)
        } else {
            (ConnectState::Finished, ConnectAction::GrantAndroidWake)
        },
        (ConnectState::RequestingProfile, ConnectEvent::ProfileRequested(ok)) => if ok {
            (ConnectState::Finished, ConnectAction::Finish(ConnectOutcome::WaitingForIos))
        } else {
            (ConnectState::Finished, ConnectAction::GrantAndroidWake)
        },
        _ => (state, ConnectAction::Ignore),
    }
}

/// Every connection attempt ends: from any stage but the end, each event
/// either moves the attempt to a later stage or leaves it where it is
/// without doing anything, and once it is over no event does anything.
pub proof fn lemma_connect_progresses(state: ConnectState, event: ConnectEvent)
    ensures
        spec_connect_step(state, event).1 == ConnectAction::Ignore ==> spec_connect_step(state, event).0 == state,
        state == ConnectState::Finished ==> spec_connect_step(state, event) == (state, ConnectAction::Ignore),
        spec_connect_step(state, event).1 != ConnectAction::Ignore ==> stage_rank(spec_connect_step(state, event).0)
            > stage_rank(state),
{
}

/// How far along an attempt is.
pub open spec fn stage_rank(s: ConnectState) -> int {
    match s {
        ConnectState::Checking => 0,
        ConnectState::Probing => 1,
        ConnectState::DialingDirect { .. } => 1,
        ConnectState::RequestingProfile => 2,
        ConnectState::Finished => 3,
    }
}

/// The Android wake is the last resort: it is granted only once the iAP2
/// profile was requested and refused, or when BlueZ does not know the
/// device. A device BlueZ knows always gets the profile request first: at
/// once when it is no iPhone candidate, and after a failed direct dial when
/// it is one.
pub proof fn lemma_profile_requested_before_android_wake(
    state: ConnectState,
    event: ConnectEvent,
    iap2_candidate: bool,
)
    ensures
        spec_connect_step(state, event).1 == ConnectAction::GrantAndroidWake ==> {
            ||| state == ConnectState::RequestingProfile
            ||| state == (ConnectState::DialingDirect { in_bluez: false })
            ||| (state == ConnectState::Checking && (event matches ConnectEvent::Facts { in_bluez, .. } && !in_bluez))
        },
        ({
            let facts = ConnectEvent::Facts {
                session_open: false,
                recovery_dialing: false,
                macos_connector: false,
                iap2_candidate,
                in_bluez: true,
            };
            let first = spec_connect_step(ConnectState::Checking, facts);
            &&& !iap2_candidate ==> first == (ConnectState::RequestingProfile, ConnectAction::RequestIap2Profile)
            &&& iap2_candidate ==> first == (ConnectState::DialingDirect { in_bluez: true }, ConnectAction::DialIap2)
            &&& iap2_candidate ==> spec_connect_step(first.0, ConnectEvent::Dialed(false))
                == (ConnectState::RequestingProfile, ConnectAction::RequestIap2Profile)
        }),
{
}

} // verus!
