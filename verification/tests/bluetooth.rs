use std::collections::HashMap;

use nocturned::accessory::{advertisement_is_absent, should_advertise};
use nocturned::address::{address_text, parse_address, Address};
use nocturned::bluetooth::{
    classify_iap2_metadata, device_type_identifies_ios, iap2_metadata_is_ready,
    iap2_reconnect_allowed, is_macos_connector_hint, metadata_identifies_computer,
    metadata_identifies_iap2_device, name_identifies_ios_device, remove_generic_connection,
    select_device_address, should_route_message, spp_connection_route, target_connection,
    target_peer, GenericConnection,
    Iap2CandidateClassification,
};
use nocturned::hci::{
    any_le_acl_connected, le_acl_connected, parse_connection_list, ConnectionListError,
    CONN_INFO_BDADDR_OFFSET, CONN_INFO_SIZE, CONN_INFO_TYPE_OFFSET, LE_LINK,
};
use nocturned::reconnect::{
    address_key, is_transient_adapter_startup_error, key_address, promote_map_key,
    promote_recent_pairing, update_recent_pairing, AdapterErrorKind, MacConnectorRegistry,
};

fn address(text: &str) -> Address {
    let mut bytes = [0u8; 6];
    for (i, part) in text.split(':').enumerate() {
        bytes[i] = u8::from_str_radix(part, 16).expect("hex byte");
    }
    Address(bytes)
}

fn key(text: &str) -> u64 {
    address_key(address(text))
}

fn generic_connection(connection_id: &str, device_address: Address) -> GenericConnection<()> {
    GenericConnection { connection_id: connection_id.to_string(), device_address, tx: () }
}

#[test]
fn advertising_eligibility_preserves_explicit_pairing_during_le_connections() {
    assert!(!should_advertise(false, true, true, false));
    assert!(should_advertise(true, true, false, false));
    assert!(should_advertise(true, false, true, false));
    assert!(!should_advertise(true, false, false, false));
    assert!(!should_advertise(true, false, true, true));
    assert!(should_advertise(true, true, false, true));
    assert!(should_advertise(true, true, true, true));
}

#[test]
fn connection_list_distinguishes_classic_and_le_links() {
    let mut buffer = vec![0_u8; 4 + 2 * CONN_INFO_SIZE];
    buffer[2..4].copy_from_slice(&2_u16.to_ne_bytes());

    let classic = 4;
    buffer[classic + CONN_INFO_BDADDR_OFFSET..classic + CONN_INFO_BDADDR_OFFSET + 6]
        .copy_from_slice(&[1, 2, 3, 4, 5, 6]);
    buffer[classic + CONN_INFO_TYPE_OFFSET] = 0x01;

    let le = 4 + CONN_INFO_SIZE;
    buffer[le + CONN_INFO_BDADDR_OFFSET..le + CONN_INFO_BDADDR_OFFSET + 6]
        .copy_from_slice(&[6, 5, 4, 3, 2, 1]);
    buffer[le + CONN_INFO_TYPE_OFFSET] = LE_LINK;

    let connections = parse_connection_list(&buffer).unwrap();
    assert_eq!(connections.len(), 2);
    assert_ne!(connections[0].link_type, LE_LINK);
    assert_eq!(connections[1].link_type, LE_LINK);
    assert!(connections.iter().any(|connection| connection.link_type == LE_LINK));
}

#[test]
fn connection_list_rejects_truncated_entries() {
    let mut buffer = vec![0_u8; 4 + CONN_INFO_SIZE];
    buffer[2..4].copy_from_slice(&2_u16.to_ne_bytes());

    assert_eq!(parse_connection_list(&buffer).unwrap_err(), ConnectionListError::EntriesTruncated);
    assert_eq!(parse_connection_list(&[0, 0, 1]).unwrap_err(), ConnectionListError::HeaderTruncated);
}

#[test]
fn le_links_are_found_by_address() {
    let mut buffer = vec![0_u8; 4 + 2 * CONN_INFO_SIZE];
    buffer[2..4].copy_from_slice(&2_u16.to_ne_bytes());
    // Controller byte order is reversed: 01:02:03:04:05:06 is stored 06..01.
    buffer[4 + CONN_INFO_BDADDR_OFFSET..4 + CONN_INFO_BDADDR_OFFSET + 6].copy_from_slice(&[6, 5, 4, 3, 2, 1]);
    buffer[4 + CONN_INFO_TYPE_OFFSET] = 0x01;
    let le = 4 + CONN_INFO_SIZE;
    buffer[le + CONN_INFO_BDADDR_OFFSET..le + CONN_INFO_BDADDR_OFFSET + 6].copy_from_slice(&[1, 2, 3, 4, 5, 6]);
    buffer[le + CONN_INFO_TYPE_OFFSET] = LE_LINK;
    let connections = parse_connection_list(&buffer).unwrap();

    assert!(le_acl_connected(&connections, address("06:05:04:03:02:01")));
    assert!(!le_acl_connected(&connections, address("01:02:03:04:05:06")));
    assert!(any_le_acl_connected(&connections));
    assert!(!any_le_acl_connected(&connections[..1].to_vec()));
}

#[test]
fn removing_duplicate_generic_connection_preserves_active_peer_state() {
    let peer = address("D8:3A:DD:31:B0:49");
    let other = address("30:E3:D6:00:B5:5F");
    let mut connections = vec![
        generic_connection("stale", peer),
        generic_connection("active", peer),
        generic_connection("other", other),
    ];

    assert!(remove_generic_connection(&mut connections, "stale", peer));
    assert_eq!(connections.len(), 2);
    assert!(connections.iter().any(|connection| connection.connection_id == "active"));
    assert!(connections.iter().any(|connection| connection.connection_id == "other"));
}

#[test]
fn removing_final_generic_connection_reports_peer_disconnected() {
    let peer = address("D8:3A:DD:31:B0:49");
    let mut connections = vec![generic_connection("final", peer)];

    assert!(!remove_generic_connection(&mut connections, "final", peer));
    assert!(connections.is_empty());
}

#[test]
fn connection_target_routes_to_exactly_one_simultaneous_spp_session() {
    let pi = "D8:3A:DD:31:B0:49";
    let mac = "50:F2:65:EB:36:E1";
    let target = Some("spp:pi");

    let matching_routes = [("spp:pi", pi), ("spp:mac", mac)]
        .into_iter()
        .filter(|(route, peer)| should_route_message(target, None, route, peer))
        .count();

    assert_eq!(matching_routes, 1);
    assert!(should_route_message(target, None, "spp:pi", pi));
    assert!(!should_route_message(target, None, "spp:mac", mac));
}

#[test]
fn connection_target_selects_one_overlapping_route_for_the_same_peer() {
    let peer = "D8:3A:DD:31:B0:49";
    let target = Some("spp:current");

    let matching_routes = [("spp:stale", peer), ("spp:current", peer)]
        .into_iter()
        .filter(|(route, route_peer)| should_route_message(target, None, route, route_peer))
        .count();

    assert_eq!(matching_routes, 1);
    assert!(!should_route_message(target, None, "spp:stale", peer));
    assert!(should_route_message(target, None, "spp:current", peer));
}

#[test]
fn connection_target_takes_precedence_over_peer_target() {
    let pi = "D8:3A:DD:31:B0:49";
    let mac = "50:F2:65:EB:36:E1";
    let target = Some("spp:mac");

    assert!(!should_route_message(target, Some(pi), "spp:pi", pi));
    assert!(should_route_message(target, Some(pi), "spp:mac", mac));
}

#[test]
fn peer_target_and_untargeted_messages_route_by_peer() {
    let pi = "D8:3A:DD:31:B0:49";
    let mac = "50:F2:65:EB:36:E1";
    assert!(should_route_message(None, Some(pi), "spp:a", pi));
    assert!(!should_route_message(None, Some(pi), "spp:b", mac));
    assert!(should_route_message(None, None, "spp:b", mac));
    assert_eq!(spp_connection_route("abc"), "spp:abc");
}

#[test]
fn bluez_identity_address_resolves_to_live_private_object() {
    let private = address("61:B7:33:1C:77:95");
    let identity = address("A8:AB:B5:AB:02:ED");

    assert_eq!(select_device_address(identity, &[(private, Some(identity))]), Some((private, identity)));
}

#[test]
fn bluez_private_object_address_canonicalizes_to_identity() {
    let private = address("61:B7:33:1C:77:95");
    let identity = address("A8:AB:B5:AB:02:ED");

    assert_eq!(select_device_address(private, &[(private, Some(identity))]), Some((private, identity)));
}

#[test]
fn bluez_exact_object_address_takes_priority_over_remote_match() {
    let requested = address("61:B7:33:1C:77:95");
    let exact_identity = address("A8:AB:B5:AB:02:ED");
    let unrelated_object = address("D8:3A:DD:31:B0:49");

    assert_eq!(
        select_device_address(
            requested,
            &[(unrelated_object, Some(requested)), (requested, Some(exact_identity))],
        ),
        Some((requested, exact_identity))
    );
}

#[test]
fn bluez_address_resolution_rejects_unrelated_device() {
    let requested = address("A8:AB:B5:AB:02:ED");
    let object = address("D8:3A:DD:31:B0:49");

    assert_eq!(select_device_address(requested, &[(object, None)]), None);
}

#[test]
fn fresh_pairing_is_recorded_under_the_canonical_identity() {
    let private = key("61:B7:33:1C:77:95");
    let identity = key("A8:AB:B5:AB:02:ED");
    let paired_at: u64 = 10_000;
    let mut pairings = HashMap::from([(private, paired_at - 1_000)]);

    let _ = update_recent_pairing(&mut pairings, private, identity, true, paired_at);

    assert_eq!(pairings, HashMap::from([(identity, paired_at)]));
}

#[test]
fn unpairing_removes_private_and_canonical_pairing_keys() {
    let private = key("61:B7:33:1C:77:95");
    let identity = key("A8:AB:B5:AB:02:ED");
    let paired_at: u64 = 10_000;
    let mut pairings = HashMap::from([(private, paired_at), (identity, paired_at)]);

    let _ = update_recent_pairing(&mut pairings, private, identity, false, paired_at);

    assert!(pairings.is_empty());
}

#[test]
fn duplicate_paired_snapshots_start_one_transport_recovery() {
    let device = key("50:F2:65:EB:36:E1");
    let paired_at: u64 = 10_000;
    let mut pairings = HashMap::new();

    assert!(update_recent_pairing(&mut pairings, device, device, true, paired_at));
    assert!(!update_recent_pairing(&mut pairings, device, device, true, paired_at + 1));
}

#[test]
fn address_promotion_preserves_the_newest_pairing_timestamp() {
    let private = key("61:B7:33:1C:77:95");
    let identity = key("A8:AB:B5:AB:02:ED");
    let older: u64 = 8_000;
    let newer: u64 = 10_000;
    let mut pairings = HashMap::from([(private, newer), (identity, older)]);

    promote_recent_pairing(&mut pairings, private, identity);

    assert_eq!(pairings, HashMap::from([(identity, newer)]));
}

#[test]
fn reconnect_key_promotion_yields_to_an_existing_canonical_task() {
    let private = key("61:B7:33:1C:77:95");
    let identity = key("A8:AB:B5:AB:02:ED");
    let mut reconnects = HashMap::from([(private, "private"), (identity, "canonical")]);

    assert!(!promote_map_key(&mut reconnects, private, identity));
    assert_eq!(reconnects, HashMap::from([(identity, "canonical")]));
}

#[test]
fn reconnect_key_follows_canonical_address_promotion() {
    let private = key("61:B7:33:1C:77:95");
    let identity = key("A8:AB:B5:AB:02:ED");
    let mut reconnects = HashMap::from([(private, "task")]);

    assert!(promote_map_key(&mut reconnects, private, identity));
    assert_eq!(reconnects, HashMap::from([(identity, "task")]));
}

#[test]
fn address_keys_are_the_big_endian_value() {
    assert_eq!(key("00:00:00:00:01:02"), 0x0102);
    assert_eq!(key("A8:AB:B5:AB:02:ED"), 0xA8AB_B5AB_02ED);
}

#[test]
fn iphone_metadata_recovers_from_stale_cached_uuids() {
    assert!(metadata_identifies_iap2_device(Some("Neel's iPhone"), Some("iPhone"), false));
    assert!(metadata_identifies_iap2_device(None, None, true));
    assert_eq!(
        classify_iap2_metadata(None, Some("61:B7:33:1C:77:95"), false, false),
        Iap2CandidateClassification::Incomplete
    );
    assert!(!iap2_metadata_is_ready(None, None));
    assert!(!iap2_metadata_is_ready(None, Some(0)));
    assert!(iap2_metadata_is_ready(Some("Neel's iPhone"), Some(0)));
    assert!(iap2_metadata_is_ready(None, Some(1)));
}

#[test]
fn android_metadata_does_not_trigger_direct_iap2_dial() {
    assert!(!metadata_identifies_iap2_device(Some("Pixel 10"), Some("Pixel 10"), false));
    assert!(!device_type_identifies_ios("android"));
    assert!(device_type_identifies_ios("iphone"));
}

#[test]
fn macos_metadata_does_not_trigger_direct_iap2_dial() {
    assert!(!metadata_identifies_iap2_device(
        Some("Neel's MacBook Pro"),
        Some("Nocturne Connector"),
        false
    ));
    assert!(!device_type_identifies_ios("macos_connector"));
}

#[test]
fn macos_metadata_triggers_connector_transport_recovery() {
    assert!(metadata_identifies_computer(Some("computer"), None, None, None));
    assert!(metadata_identifies_computer(None, Some(0x010c), None, None));
    assert!(metadata_identifies_computer(
        None,
        None,
        Some("Neel's MacBook Pro"),
        Some("Nocturne Connector")
    ));
    assert!(!metadata_identifies_computer(
        Some("phone"),
        Some(0x020c),
        Some("Pixel 10"),
        Some("Pixel 10")
    ));
}

#[test]
fn custom_mac_name_still_uses_computer_identity() {
    assert!(metadata_identifies_computer(Some("computer"), None, Some("Astrid"), Some("Astrid")));
    assert!(metadata_identifies_computer(None, Some(0x010c), Some("Astrid"), Some("Astrid")));
}

#[test]
fn ios_names_and_connector_hints() {
    assert!(name_identifies_ios_device(Some("My IPAD")));
    assert!(!name_identifies_ios_device(None));
    assert!(device_type_identifies_ios("  iPod "));
    assert!(is_macos_connector_hint(3, "android"));
    assert!(is_macos_connector_hint(1, " MacOS-Connector "));
    assert!(!is_macos_connector_hint(1, "iphone"));
}

#[test]
fn iap2_recovery_requires_an_unblocked_pairing() {
    assert!(iap2_reconnect_allowed(true, false));
    assert!(!iap2_reconnect_allowed(true, true));
    assert!(!iap2_reconnect_allowed(false, false));
}

#[test]
fn recognizes_transient_adapter_startup_errors() {
    let dbus = |name: &str| AdapterErrorKind::DBus(name.to_string());

    assert!(is_transient_adapter_startup_error(&AdapterErrorKind::NotFound));
    assert!(is_transient_adapter_startup_error(&AdapterErrorKind::NotReady));
    assert!(is_transient_adapter_startup_error(&dbus("org.bluez.Error.Busy")));
    assert!(is_transient_adapter_startup_error(&dbus("org.freedesktop.DBus.Error.ServiceUnknown")));
    assert!(is_transient_adapter_startup_error(&dbus("org.freedesktop.DBus.Error.NameHasNoOwner")));
    assert!(!is_transient_adapter_startup_error(&AdapterErrorKind::Other));
    assert!(!is_transient_adapter_startup_error(&dbus("org.bluez.Error.Failed")));
}

use nocturned::accessory::{
    AdvertisingController, EligibilityStep, WakeStep, ADV_RETRY_INITIAL_DELAY_MS,
    ADV_RETRY_MAX_DELAY_MS, ADV_STATE_POLL_INTERVAL_MS,
};
use nocturned::hci::adapter_index;
use nocturned::json::{Json, JsonMember};

#[test]
fn advertising_registers_only_after_confirmed_eligibility() {
    let mut controller = AdvertisingController::new();
    let step = controller.on_eligibility(Some(true));
    assert_eq!(step, EligibilityStep { register: true, stop_first: false, retry: false });
    assert!(!controller.advertising);
    let step = controller.on_confirmed(Some(false));
    assert_eq!(step, EligibilityStep { register: false, stop_first: true, retry: false });
    assert!(!controller.advertising);

    controller.on_eligibility(Some(true));
    let step = controller.on_confirmed(Some(true));
    assert_eq!(step, EligibilityStep { register: false, stop_first: false, retry: false });
    assert!(controller.advertising);
    assert!(controller.on_shutdown());
    assert_eq!(controller.on_eligibility(Some(true)), EligibilityStep { register: false, stop_first: false, retry: false });
}

#[test]
fn unreadable_eligibility_fails_closed_and_backs_off() {
    let mut controller = AdvertisingController::new();
    controller.on_eligibility(Some(true));
    controller.on_confirmed(Some(true));
    let step = controller.on_eligibility(None);
    assert_eq!(step, EligibilityStep { register: false, stop_first: true, retry: true });
    assert!(!controller.advertising);
    let delays: Vec<u64> = (0..7).map(|_| controller.wait_delay_ms(true)).collect();
    assert_eq!(delays, vec![250, 500, 1000, 2000, 4000, 5000, 5000]);
    assert_eq!(controller.wait_delay_ms(false), ADV_STATE_POLL_INTERVAL_MS);
    controller.on_eligibility(Some(false));
    assert_eq!(controller.retry_delay_ms, ADV_RETRY_INITIAL_DELAY_MS);
    assert!(ADV_RETRY_MAX_DELAY_MS > ADV_RETRY_INITIAL_DELAY_MS);
}

#[test]
fn lost_publishers_are_replaced_and_ended_streams_resubscribed() {
    let mut controller = AdvertisingController::new();
    controller.on_eligibility(Some(true));
    controller.on_confirmed(Some(true));
    assert_eq!(controller.on_woke(true, false, false), WakeStep::Continue);
    assert!(controller.advertising);
    assert_eq!(controller.on_woke(false, false, false), WakeStep::Resubscribe { stop_first: true });
    assert!(!controller.advertising);
    assert_eq!(controller.on_resubscribed(false), Some(250));
    assert_eq!(controller.on_resubscribed(false), Some(500));
    assert_eq!(controller.on_resubscribed(true), None);
    assert_eq!(controller.retry_delay_ms, ADV_RETRY_INITIAL_DELAY_MS);
    assert_eq!(controller.on_woke(true, true, false), WakeStep::ReplacePublisher);
}

#[test]
fn adapter_names_give_controller_indices() {
    assert_eq!(adapter_index("hci0"), Some(0));
    assert_eq!(adapter_index("hci12"), Some(12));
    assert_eq!(adapter_index("hci+3"), Some(3));
    assert_eq!(adapter_index("hci65535"), Some(65535));
    assert_eq!(adapter_index("hci65536"), None);
    assert_eq!(adapter_index("hci"), None);
    assert_eq!(adapter_index("hci+"), None);
    assert_eq!(adapter_index("hcix"), None);
    assert_eq!(adapter_index("usb0"), None);
}


#[test]
fn learned_macos_identities_are_kept_in_persisted_order() {
    let astrid = key("50:F2:65:EB:36:E1");
    let other = key("30:E3:D6:00:B5:5F");
    let mut registry = MacConnectorRegistry::new();
    assert!(registry.remember(astrid));
    assert!(!registry.remember(astrid));
    assert!(registry.remember(other));
    assert!(registry.contains(astrid));
    assert_eq!(registry.keys(), &vec![other, astrid]);
    assert!(registry.forget(&[astrid, astrid]));
    assert!(!registry.contains(astrid));
    assert!(!registry.forget(&[astrid]));
    assert_eq!(registry.keys(), &vec![other]);
}

#[test]
fn missing_advertisements_are_recognised_by_error_name() {
    assert!(advertisement_is_absent(Some("org.bluez.Error.DoesNotExist")));
    assert!(advertisement_is_absent(Some("org.freedesktop.DBus.Error.UnknownObject")));
    assert!(!advertisement_is_absent(Some("org.bluez.Error.Failed")));
    assert!(!advertisement_is_absent(None));
}

#[test]
fn addresses_read_and_display_as_upper_case_hex() {
    let a = parse_address("50:f2:65:eb:36:e1").expect("address");
    assert_eq!(a, Address([0x50, 0xF2, 0x65, 0xEB, 0x36, 0xE1]));
    assert_eq!(address_text(&a), "50:F2:65:EB:36:E1");
    assert_eq!(parse_address("+f:0:00ff:1:2:3"), Some(Address([0x0F, 0, 0xFF, 1, 2, 3])));
    assert_eq!(parse_address("50:F2:65:EB:36"), None);
    assert_eq!(parse_address("50:F2:65:EB:36:E1:00"), None);
    assert_eq!(parse_address("50:F2:65:EB:36:100"), None);
    assert_eq!(parse_address("50:F2:65:EB::E1"), None);
    assert_eq!(parse_address("50:F2:65:EB:36:G1"), None);
    assert_eq!(parse_address(""), None);
}

#[test]
fn address_keys_convert_back_to_addresses() {
    let a = address("D8:3A:DD:31:B0:49");
    assert_eq!(key_address(address_key(a)), a);
    assert_eq!(key_address(0x0000_0102_0304_0506), Address([1, 2, 3, 4, 5, 6]));
}

#[test]
fn learned_macos_identity_survives_a_reload() {
    let astrid = key("50:F2:65:EB:36:E1");
    let other = key("30:E3:D6:00:B5:5F");
    let mut registry = MacConnectorRegistry::new();
    registry.remember(astrid);
    registry.remember(other);
    let persisted = registry.persisted_addresses();
    assert_eq!(persisted, vec!["30:E3:D6:00:B5:5F".to_string(), "50:F2:65:EB:36:E1".to_string()]);
    let reloaded = MacConnectorRegistry::from_persisted(&persisted);
    assert!(reloaded.contains(astrid));
    assert!(reloaded.contains(other));
    assert_eq!(reloaded.keys(), registry.keys());
}

#[test]
fn invalid_persisted_addresses_are_ignored() {
    let persisted = vec![
        "not an address".to_string(),
        "d8:3a:dd:31:b0:49".to_string(),
        "D8:3A:DD:31:B0:49".to_string(),
        "01:02:03".to_string(),
    ];
    let registry = MacConnectorRegistry::from_persisted(&persisted);
    assert_eq!(registry.keys(), &vec![key("D8:3A:DD:31:B0:49")]);
    assert!(MacConnectorRegistry::from_persisted(&Vec::new()).keys().is_empty());
}

#[test]
fn app_messages_name_their_target_peer_and_connection() {
    let data = Json::Object(vec![
        JsonMember { key: "_targetPeer".to_string(), value: Json::Str("00:11:22:33:44:55".to_string()) },
        JsonMember { key: "_targetConnection".to_string(), value: Json::Bool(true) },
    ]);
    assert_eq!(target_peer(Some(&data)).as_deref(), Some("00:11:22:33:44:55"));
    assert_eq!(target_connection(Some(&data)), None);
    assert_eq!(target_peer(None), None);
    assert_eq!(target_peer(Some(&Json::Str("_targetPeer".to_string()))), None);
}
