use nocturned::address::Address;
use nocturned::control::{
    connect_status, connect_step, control_step, ConnectAction, ConnectEvent, ConnectOutcome, ConnectState,
    ControlStep,
};

const PHONE: [u8; 6] = [0xD8, 0x3A, 0xDD, 0x31, 0xB0, 0x49];

#[test]
fn control_requests_are_checked_before_anything_is_done() {
    assert_eq!(
        control_step("bluetooth.device.connect", Some("D8:3A:DD:31:B0:49")),
        ControlStep::Connect(Address(PHONE))
    );
    assert_eq!(
        control_step("bluetooth.device.disconnect", Some("d8:3a:dd:31:b0:49")),
        ControlStep::Disconnect(Address(PHONE))
    );
    assert_eq!(control_step("bluetooth.device.forget", Some("D8:3A:DD:31:B0:49")), ControlStep::Unpair(Address(PHONE)));
    assert_eq!(control_step("bluetooth.device.unpair", Some("D8:3A:DD:31:B0:49")), ControlStep::Unpair(Address(PHONE)));
    assert_eq!(
        control_step("bluetooth.device.connect", None),
        ControlStep::Reject("Missing or invalid address parameter")
    );
    assert_eq!(control_step("bluetooth.device.unpair", None), ControlStep::Reject("Missing address parameter"));
    assert_eq!(
        control_step("bluetooth.device.disconnect", Some("not-an-address")),
        ControlStep::Reject("Invalid Bluetooth address")
    );
    assert_eq!(control_step("bluetooth.device.scan", Some("D8:3A:DD:31:B0:49")), ControlStep::Ignore);
}

fn facts(session_open: bool, recovery_dialing: bool, macos_connector: bool, iap2_candidate: bool, in_bluez: bool) -> ConnectEvent {
    ConnectEvent::Facts { session_open, recovery_dialing, macos_connector, iap2_candidate, in_bluez }
}

#[test]
fn connection_attempts_follow_the_platform_order() {
    assert_eq!(
        connect_step(ConnectState::Checking, facts(true, true, true, true, true)),
        (ConnectState::Finished, ConnectAction::Finish(ConnectOutcome::Connected))
    );
    assert_eq!(
        connect_step(ConnectState::Checking, facts(false, true, true, true, true)),
        (ConnectState::Finished, ConnectAction::Finish(ConnectOutcome::WaitingForIos))
    );
    let (s, a) = connect_step(ConnectState::Checking, facts(false, false, true, true, true));
    assert_eq!((s, a), (ConnectState::Probing, ConnectAction::ProbeMacConnector));
    assert_eq!(connect_step(s, ConnectEvent::Probed(Some(true))).1, ConnectAction::RememberMac);
    assert_eq!(connect_step(s, ConnectEvent::Probed(Some(false))).1, ConnectAction::ProbeFailed);
    assert_eq!(connect_step(s, ConnectEvent::Probed(None)).1, ConnectAction::ProbeTimedOut);

    let (s, a) = connect_step(ConnectState::Checking, facts(false, false, false, true, true));
    assert_eq!(a, ConnectAction::DialIap2);
    assert_eq!(connect_step(s, ConnectEvent::Dialed(true)).1, ConnectAction::Finish(ConnectOutcome::Connected));
    let (s, a) = connect_step(s, ConnectEvent::Dialed(false));
    assert_eq!((s, a), (ConnectState::RequestingProfile, ConnectAction::RequestIap2Profile));
    assert_eq!(
        connect_step(s, ConnectEvent::ProfileRequested(true)).1,
        ConnectAction::Finish(ConnectOutcome::WaitingForIos)
    );
    assert_eq!(connect_step(s, ConnectEvent::ProfileRequested(false)).1, ConnectAction::GrantAndroidWake);

    assert_eq!(
        connect_step(ConnectState::Checking, facts(false, false, false, false, false)),
        (ConnectState::Finished, ConnectAction::GrantAndroidWake)
    );
    assert_eq!(connect_step(ConnectState::Finished, ConnectEvent::Dialed(true)), (ConnectState::Finished, ConnectAction::Ignore));
}

#[test]
fn outcomes_answer_the_ui_with_their_status() {
    assert_eq!(connect_status(ConnectOutcome::Connected), "connected");
    assert_eq!(connect_status(ConnectOutcome::WaitingForIos), "waiting_for_ios");
    assert_eq!(connect_status(ConnectOutcome::WaitingForMacConnector), "waiting_for_macos_connector");
    assert_eq!(connect_status(ConnectOutcome::WaitingForAndroid), "waiting_for_android");
}
