use nocturned::pairing::{
    agent_event, begin_request, cancel_current, clear_event, comparison_event,
    comparison_event_with_id, comparison_pin, matches_device, pairing_finished, pending_request,
    take_pending, AgentError, PairingSlot,
};

#[test]
fn comparison_codes_preserve_leading_zeroes_and_get_unique_challenge_ids() {
    let first = comparison_event("/org/bluez/hci0/dev_AA_BB_CC_DD_EE_FF", 42, None, None).unwrap();
    let second = comparison_event("/org/bluez/hci0/dev_AA_BB_CC_DD_EE_FF", 42, None, None).unwrap();
    assert_eq!(first.pin.as_deref(), Some("000042"));
    assert_ne!(first.request_id, second.request_id);
    assert!(comparison_event("/device", 1_000_000, None, None).is_err());
}

#[test]
fn completion_only_matches_the_challenged_device() {
    let mut event = agent_event("request_confirmation");
    event.device = Some("/org/bluez/hci0/dev_AA_BB_CC_DD_EE_FF".to_string());
    assert!(matches_device(&event, "aa:bb:cc:dd:ee:ff"));
    assert!(!matches_device(&event, "11:22:33:44:55:66"));
    event.address = Some("00:11:22:33:44:55".to_string());
    assert!(matches_device(&event, "00:11:22:33:44:55"));
}

#[test]
fn comparison_event_carries_the_device_and_code() {
    let event = comparison_event_with_id(
        "/org/bluez/hci0/dev_AA_BB_CC_DD_EE_FF",
        999_999,
        Some("AA:BB:CC:DD:EE:FF".to_string()),
        Some("Phone".to_string()),
        "id-1".to_string(),
    )
    .unwrap();
    assert_eq!(event.event.as_deref(), Some("request_confirmation"));
    assert_eq!(event.kind.as_deref(), Some("bluetooth_pin"));
    assert_eq!(event.pin.as_deref(), Some("999999"));
    assert_eq!(event.request_id.as_deref(), Some("id-1"));
    assert_eq!(event.address.as_deref(), Some("AA:BB:CC:DD:EE:FF"));
    assert_eq!(event.name.as_deref(), Some("Phone"));
    assert_eq!(event.device.as_deref(), Some("/org/bluez/hci0/dev_AA_BB_CC_DD_EE_FF"));
    assert!(matches!(
        comparison_event_with_id("/d", 1_000_000, None, None, "x".to_string()),
        Err(AgentError::MatchingCodeRequired)
    ));
    let fresh = comparison_event("/d", 7, None, None).unwrap();
    assert_eq!(fresh.request_id.unwrap().len(), 36);
    assert_eq!(comparison_pin(0), "000000");
    assert_eq!(comparison_pin(120_034), "120034");
}

#[test]
fn device_path_matching_uses_the_last_dev_segment_and_ignores_case() {
    let mut event = agent_event("request_confirmation");
    event.device = Some("/org/bluez/dev_11_11_11_11_11_11/hci0/dev_aa_bb_cc_dd_ee_ff".to_string());
    assert!(matches_device(&event, "AA:BB:CC:DD:EE:FF"));
    assert!(!matches_device(&event, "11:11:11:11:11:11"));
    event.device = Some("/org/bluez/hci0".to_string());
    assert!(!matches_device(&event, "AA:BB:CC:DD:EE:FF"));
}

fn pending_for(address: &str, id: &str) -> PairingSlot {
    let mut slot = PairingSlot::new();
    let event = comparison_event_with_id(
        &format!("/org/bluez/hci0/dev_{}", address.replace(':', "_")),
        123,
        None,
        None,
        id.to_string(),
    )
    .unwrap();
    assert!(begin_request(&mut slot, event).is_ok());
    slot
}

#[test]
fn only_one_comparison_may_be_pending() {
    let mut slot = pending_for("AA:BB:CC:DD:EE:FF", "first");
    let other = agent_event("request_confirmation");
    assert_eq!(begin_request(&mut slot, other), Err(AgentError::AnotherRequestActive));
    assert_eq!(pending_request(&slot).unwrap().request_id.as_deref(), Some("first"));
}

#[test]
fn finishing_another_device_keeps_the_request() {
    let mut slot = pending_for("AA:BB:CC:DD:EE:FF", "first");
    assert!(pairing_finished(&mut slot, "11:22:33:44:55:66").is_none());
    assert!(slot.pending.is_some());
    let cleared = pairing_finished(&mut slot, "aa:bb:cc:dd:ee:ff").unwrap();
    assert_eq!(cleared.event.as_deref(), Some("cancel"));
    assert_eq!(cleared.request_id.as_deref(), Some("first"));
    assert!(slot.pending.is_none());
    assert!(pending_request(&slot).is_none());
}

#[test]
fn timeouts_take_only_their_own_request() {
    let mut slot = pending_for("AA:BB:CC:DD:EE:FF", "first");
    assert!(take_pending(&mut slot, "other").is_none());
    assert!(slot.pending.is_some());
    assert!(take_pending(&mut slot, "first").is_some());
    assert!(slot.pending.is_none());
}

#[test]
fn cancelling_clears_and_reports_the_request() {
    let mut slot = pending_for("AA:BB:CC:DD:EE:FF", "first");
    let cleared = cancel_current(&mut slot).unwrap();
    assert_eq!(cleared.event.as_deref(), Some("cancel"));
    assert_eq!(cleared.device.as_deref(), Some("/org/bluez/hci0/dev_AA_BB_CC_DD_EE_FF"));
    assert!(cleared.pin.is_none());
    assert!(cancel_current(&mut slot).is_none());
    let again = clear_event(&agent_event("x"));
    assert!(again.request_id.is_none());
}

#[test]
fn device_events_carry_the_device_and_its_identity() {
    let e = nocturned::pairing::device_event(
        "authorize",
        "/org/bluez/hci0/dev_AA_BB_CC_DD_EE_FF",
        Some("AA:BB:CC:DD:EE:FF".to_string()),
        None,
    );
    assert_eq!(e.event.as_deref(), Some("authorize"));
    assert_eq!(e.device.as_deref(), Some("/org/bluez/hci0/dev_AA_BB_CC_DD_EE_FF"));
    assert_eq!(e.address.as_deref(), Some("AA:BB:CC:DD:EE:FF"));
    assert_eq!(e.name, None);
    assert_eq!(e.request_id, None);
}
