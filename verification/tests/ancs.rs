use nocturned::address::Address;
use nocturned::ancs::{
    build_get_app_attributes, build_get_notification_attributes, bundle_fallback_name,
    is_current_discovery_result, nonempty, notification_id, parse_app_response, parse_attribute,
    parse_notification_response, removed_device_matches_session, response_header_matches,
    unique_autonomous_candidate, NotificationCategory, NotificationMeta, PendingRequest,
    APP_ATTR_DISPLAY_NAME, ATTR_APP_IDENTIFIER, ATTR_DATE, ATTR_MESSAGE,
    ATTR_NEGATIVE_ACTION_LABEL, ATTR_POSITIVE_ACTION_LABEL, ATTR_SUBTITLE, ATTR_TITLE,
    COMMAND_GET_APP_ATTRIBUTES, COMMAND_GET_NOTIFICATION_ATTRIBUTES, EVENT_ADDED, EVENT_REMOVED,
    MESSAGE_MAX, SUBTITLE_MAX, TITLE_MAX,
};

fn attribute(id: u8, value: &[u8]) -> Vec<u8> {
    let mut bytes = vec![id];
    bytes.extend_from_slice(&(value.len() as u16).to_le_bytes());
    bytes.extend_from_slice(value);
    bytes
}

fn notification_response(uid: u32) -> Vec<u8> {
    let mut bytes = vec![COMMAND_GET_NOTIFICATION_ATTRIBUTES];
    bytes.extend_from_slice(&uid.to_le_bytes());
    bytes.extend(attribute(ATTR_APP_IDENTIFIER, b"com.apple.MobileSMS"));
    bytes.extend(attribute(ATTR_TITLE, b"Alex"));
    bytes.extend(attribute(ATTR_SUBTITLE, b"Messages"));
    bytes.extend(attribute(ATTR_MESSAGE, b"On my way"));
    bytes.extend(attribute(ATTR_POSITIVE_ACTION_LABEL, b"Reply"));
    bytes.extend(attribute(ATTR_NEGATIVE_ACTION_LABEL, b"Dismiss"));
    bytes.extend(attribute(ATTR_DATE, b"20260715T171500"));
    bytes
}

#[test]
fn autonomous_monitor_requires_a_unique_iphone() {
    let first = Address([0xA8, 0xAB, 0xB5, 0xAB, 0x02, 0xED]);
    let second = Address([0xA8, 0xAB, 0xB5, 0xAB, 0x02, 0xEE]);

    assert_eq!(unique_autonomous_candidate::<Address>(vec![]), Ok(None));
    assert_eq!(unique_autonomous_candidate(vec![first]), Ok(Some(first)));
    assert_eq!(unique_autonomous_candidate(vec![first, second]), Err(2));
}

#[test]
fn autonomous_monitor_ignores_stale_discovery_results() {
    assert!(is_current_discovery_result(4, 4, true));
    assert!(!is_current_discovery_result(3, 4, true));
    assert!(!is_current_discovery_result(4, 4, false));
}

#[test]
fn ancs_session_matches_all_bluez_address_forms_on_removal() {
    let stable = Address([0xA8, 0xAB, 0xB5, 0xAB, 0x02, 0xED]);
    let le = Address([0x41, 0x42, 0x43, 0x44, 0x45, 0x46]);
    let object = Address([0x51, 0x52, 0x53, 0x54, 0x55, 0x56]);
    let unrelated = Address([0x61, 0x62, 0x63, 0x64, 0x65, 0x66]);

    assert!(removed_device_matches_session(stable, stable, le, object));
    assert!(removed_device_matches_session(le, stable, le, object));
    assert!(removed_device_matches_session(object, stable, le, object));
    assert!(!removed_device_matches_session(unrelated, stable, le, object));
}

#[test]
fn notification_source_frame_is_little_endian() {
    let meta = NotificationMeta::parse(&[EVENT_ADDED, 0x07, 4, 2, 0x78, 0x56, 0x34, 0x12])
        .expect("valid source frame");
    assert_eq!(meta.event_id, EVENT_ADDED);
    assert_eq!(meta.flags, 0x07);
    assert!(matches!(meta.category, NotificationCategory::Social));
    assert_eq!(meta.uid, 0x1234_5678);
}

#[test]
fn notification_source_frame_rejects_short_frames_and_maps_unknown_categories() {
    assert!(NotificationMeta::parse(&[EVENT_REMOVED, 0, 1, 0, 1, 2, 3]).is_none());
    let meta = NotificationMeta::parse(&[EVENT_REMOVED, 0, 200, 0, 1, 0, 0, 0, 99]).unwrap();
    assert_eq!(meta.event_id, EVENT_REMOVED);
    assert_eq!(meta.category, NotificationCategory::Other);
    assert_eq!(meta.uid, 1);
}

#[test]
fn categories_have_snake_case_names() {
    assert_eq!(NotificationCategory::from_code(1).as_str(), "incoming_call");
    assert_eq!(NotificationCategory::from_code(11).as_str(), "entertainment");
    assert_eq!(NotificationCategory::from(9).as_str(), "business_and_finance");
    assert_eq!(NotificationCategory::from_code(0).as_str(), "other");
    assert_eq!(NotificationCategory::from_code(12), NotificationCategory::Other);
}

#[test]
fn notification_request_asks_for_date_last() {
    let command = build_get_notification_attributes(7);
    assert_eq!(command.last(), Some(&ATTR_DATE));
    assert_eq!(&command[1..5], &7_u32.to_le_bytes());
}

#[test]
fn notification_request_bounds_text_attributes() {
    let command = build_get_notification_attributes(0x0102_0304);
    let mut expected = vec![COMMAND_GET_NOTIFICATION_ATTRIBUTES, 4, 3, 2, 1, ATTR_APP_IDENTIFIER, ATTR_TITLE];
    expected.extend_from_slice(&TITLE_MAX.to_le_bytes());
    expected.push(ATTR_SUBTITLE);
    expected.extend_from_slice(&SUBTITLE_MAX.to_le_bytes());
    expected.push(ATTR_MESSAGE);
    expected.extend_from_slice(&MESSAGE_MAX.to_le_bytes());
    expected.push(ATTR_POSITIVE_ACTION_LABEL);
    expected.push(ATTR_NEGATIVE_ACTION_LABEL);
    expected.push(ATTR_DATE);
    assert_eq!(command, expected);
}

#[test]
fn notification_response_waits_for_all_fragments() {
    let response = notification_response(42);
    let split = response.len() - 5;
    assert!(parse_notification_response(&response[..split], 42).is_none());
    let (fields, consumed) = parse_notification_response(&response, 42).expect("complete response");
    assert_eq!(consumed, response.len());
    assert_eq!(fields.app_identifier.as_deref(), Some("com.apple.MobileSMS"));
    assert_eq!(fields.title.as_deref(), Some("Alex"));
    assert_eq!(fields.subtitle.as_deref(), Some("Messages"));
    assert_eq!(fields.message.as_deref(), Some("On my way"));
}

#[test]
fn notification_response_rejects_wrong_uid() {
    assert!(parse_notification_response(&notification_response(42), 7).is_none());
}

#[test]
fn back_to_back_notification_responses_preserve_boundary() {
    let first = notification_response(1);
    let mut combined = first.clone();
    combined.extend(notification_response(2));
    let (_, consumed) = parse_notification_response(&combined, 1).expect("first response parses");
    assert_eq!(consumed, first.len());
    assert!(parse_notification_response(&combined[consumed..], 2).is_some());
}

#[test]
fn app_response_parses_display_name_and_fragmentation() {
    let bundle_id = "com.apple.MobileSMS";
    let mut response = vec![COMMAND_GET_APP_ATTRIBUTES];
    response.extend_from_slice(bundle_id.as_bytes());
    response.push(0);
    response.extend(attribute(APP_ATTR_DISPLAY_NAME, b"Messages"));
    assert!(parse_app_response(&response[..response.len() - 1], bundle_id).is_none());
    let (name, consumed) = parse_app_response(&response, bundle_id).expect("app response");
    assert_eq!(name, "Messages");
    assert_eq!(consumed, response.len());
}

#[test]
fn app_response_for_another_bundle_is_not_accepted() {
    let mut response = vec![COMMAND_GET_APP_ATTRIBUTES];
    response.extend_from_slice(b"com.other.App");
    response.push(0);
    response.extend(attribute(APP_ATTR_DISPLAY_NAME, b"Other"));
    assert!(parse_app_response(&response, "com.apple.MobileSMS").is_none());
}

#[test]
fn app_request_is_nul_terminated() {
    let command = build_get_app_attributes("com.spotify.client");
    assert_eq!(command[0], COMMAND_GET_APP_ATTRIBUTES);
    assert_eq!(command[command.len() - 2], 0);
    assert_eq!(command.last(), Some(&APP_ATTR_DISPLAY_NAME));
}

#[test]
fn attribute_reader_waits_for_the_whole_value() {
    let bytes = attribute(ATTR_TITLE, b"Hello");
    assert!(parse_attribute(&bytes[..4], 0).is_none());
    let (id, value, next) = parse_attribute(&bytes, 0).unwrap();
    assert_eq!(id, ATTR_TITLE);
    assert_eq!(value, b"Hello");
    assert_eq!(next, bytes.len());
}

#[test]
fn response_headers_are_checked_against_the_request() {
    let meta = NotificationMeta::parse(&[EVENT_ADDED, 0, 0, 0, 42, 0, 0, 0]).unwrap();
    let request = PendingRequest::Notification { meta, attempts: 0 };
    let response = notification_response(42);
    assert_eq!(response_header_matches(&request, &response[..3]), None);
    assert_eq!(response_header_matches(&request, &response), Some(true));
    assert_eq!(response_header_matches(&request, &notification_response(7)), Some(false));

    let app = PendingRequest::App { bundle_id: "com.apple.MobileSMS".to_string(), attempts: 2 };
    assert_eq!(app.attempts(), 2);
    assert_eq!(response_header_matches(&app, &[]), None);
    assert_eq!(response_header_matches(&app, &[COMMAND_GET_NOTIFICATION_ATTRIBUTES]), Some(false));
    let mut header = vec![COMMAND_GET_APP_ATTRIBUTES];
    header.extend_from_slice(b"com.apple.MobileSMS");
    assert_eq!(response_header_matches(&app, &header), None);
    header.push(0);
    assert_eq!(response_header_matches(&app, &header), Some(true));
}

#[test]
fn request_attempts_saturate() {
    let meta = NotificationMeta::parse(&[EVENT_ADDED, 0, 0, 0, 1, 0, 0, 0]).unwrap();
    let request = PendingRequest::Notification { meta, attempts: 254 };
    let request = request.increment_attempts();
    assert_eq!(request.attempts(), 255);
    assert_eq!(request.increment_attempts().attempts(), 255);
}

#[test]
fn text_helpers_trim_and_fall_back() {
    assert_eq!(nonempty(Some("  hi  ".to_string())).as_deref(), Some("hi"));
    assert_eq!(nonempty(Some("   ".to_string())), None);
    assert_eq!(nonempty(None), None);
    assert_eq!(notification_id(42), "ancs:42");
    assert_eq!(notification_id(0), "ancs:0");
    assert_eq!(bundle_fallback_name("com.apple.MobileSMS"), "MobileSMS");
    assert_eq!(bundle_fallback_name("plain"), "plain");
    assert_eq!(bundle_fallback_name("ends.with."), "iPhone");
}
