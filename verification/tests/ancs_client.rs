use nocturned::ancs::{
    NotificationFields, NotificationMeta, PendingRequest, APP_ATTR_DISPLAY_NAME,
    ATTR_APP_IDENTIFIER, ATTR_DATE, ATTR_MESSAGE, ATTR_SUBTITLE, ATTR_TITLE,
    COMMAND_GET_APP_ATTRIBUTES, COMMAND_GET_NOTIFICATION_ATTRIBUTES, EVENT_ADDED, EVENT_MODIFIED,
    EVENT_REMOVED,
};
use nocturned::ancs_client::{AncsClient, FetchQueue, SourceOutcome, PENDING_QUEUE_CAP};
use nocturned::notification_board::{notification_show, NotificationBoard};

fn source(event: u8, flags: u8, category: u8, uid: u32) -> Vec<u8> {
    let mut frame = vec![event, flags, category, 1];
    frame.extend_from_slice(&uid.to_le_bytes());
    frame
}

fn attribute(id: u8, value: &[u8]) -> Vec<u8> {
    let mut bytes = vec![id];
    bytes.extend_from_slice(&(value.len() as u16).to_le_bytes());
    bytes.extend_from_slice(value);
    bytes
}

fn response(uid: u32, bundle: &[u8], title: &[u8], message: &[u8]) -> Vec<u8> {
    let mut bytes = vec![COMMAND_GET_NOTIFICATION_ATTRIBUTES];
    bytes.extend_from_slice(&uid.to_le_bytes());
    bytes.extend(attribute(ATTR_APP_IDENTIFIER, bundle));
    bytes.extend(attribute(ATTR_TITLE, title));
    bytes.extend(attribute(ATTR_SUBTITLE, b""));
    bytes.extend(attribute(ATTR_MESSAGE, message));
    bytes.extend(attribute(ATTR_DATE, b"20260715T171500"));
    bytes
}

fn app_response(bundle: &str, name: &str) -> Vec<u8> {
    let mut bytes = vec![COMMAND_GET_APP_ATTRIBUTES];
    bytes.extend_from_slice(bundle.as_bytes());
    bytes.push(0);
    bytes.extend(attribute(APP_ATTR_DISPLAY_NAME, name.as_bytes()));
    bytes
}

fn uid_of(request: &PendingRequest) -> Option<u32> {
    match request {
        PendingRequest::Notification { meta, .. } => Some(meta.uid),
        PendingRequest::App { .. } => None,
    }
}

/// Writes the next queued fetch and reports the write as successful.
fn pump(client: &mut AncsClient) -> PendingRequest {
    assert!(client.fetches.can_pump());
    let (request, _command) = client.fetches.next_request().expect("a queued fetch");
    let kept = match &request {
        PendingRequest::Notification { meta, attempts } => PendingRequest::Notification { meta: *meta, attempts: *attempts },
        PendingRequest::App { bundle_id, attempts } => PendingRequest::App { bundle_id: bundle_id.clone(), attempts: *attempts },
    };
    client.fetches.write_succeeded(request);
    kept
}

#[test]
fn an_added_notification_is_fetched_and_shown_then_titled_by_app_name() {
    let mut client = AncsClient::new();
    assert_eq!(client.on_notification_source(&source(EVENT_ADDED, 0b011, 4, 7)), SourceOutcome::Queued(7));
    let request = pump(&mut client);
    assert_eq!(uid_of(&request), Some(7));

    let bytes = response(7, b"com.apple.MobileSMS", b"", b"On my way");
    let (first, rest) = bytes.split_at(10);
    assert!(client.on_data_source(first, 100).is_empty());
    let shows = client.on_data_source(rest, 100);
    assert_eq!(shows.len(), 1);
    let show = &shows[0];
    assert_eq!(show.id, "ancs:7");
    assert_eq!(show.title, "MobileSMS");
    assert_eq!(show.body, "On my way");
    assert_eq!(show.subtitle, None);
    assert_eq!(show.category, "ios.social");
    assert_eq!(show.timestamp_ms, 100);
    assert_eq!(show.app_bundle_id, "com.apple.MobileSMS");
    assert_eq!(show.app_name, None);
    assert!(show.silent && show.important && !show.pre_existing);

    // The app's name is fetched next, first in line.
    let request = pump(&mut client);
    match &request {
        PendingRequest::App { bundle_id, .. } => assert_eq!(bundle_id, "com.apple.MobileSMS"),
        _ => panic!("expected an app-name fetch"),
    }
    let shows = client.on_data_source(&app_response("com.apple.MobileSMS", "  Messages "), 200);
    assert_eq!(shows.len(), 1);
    assert_eq!(shows[0].title, "Messages");
    assert_eq!(shows[0].app_name.as_deref(), Some("Messages"));
    assert!(!client.fetches.can_pump());
}

#[test]
fn a_notification_removed_during_its_fetch_is_never_shown() {
    let mut client = AncsClient::new();
    client.on_notification_source(&source(EVENT_ADDED, 0, 0, 9));
    pump(&mut client);
    assert_eq!(client.on_notification_source(&source(EVENT_REMOVED, 0, 0, 9)), SourceOutcome::Removed(9));
    let shows = client.on_data_source(&response(9, b"com.example", b"Hi", b"There"), 5);
    assert!(shows.is_empty());
    assert!(!client.fetches.can_pump());
}

#[test]
fn failed_fetches_are_retried_first_and_dropped_after_three_attempts() {
    let mut queue = FetchQueue::new();
    queue.on_notification_source(&source(EVENT_ADDED, 0, 0, 1));
    queue.on_notification_source(&source(EVENT_ADDED, 0, 0, 2));
    for attempt in 1..=3u8 {
        let (request, _) = queue.next_request().unwrap();
        assert_eq!(uid_of(&request), Some(1));
        let dropped = queue.retry_or_drop(request);
        assert_eq!(dropped.is_some(), attempt == 3);
    }
    let (request, _) = queue.next_request().unwrap();
    assert_eq!(uid_of(&request), Some(2));
    assert!(queue.next_request().is_none());
}

#[test]
fn timeouts_and_bad_responses_retry_the_fetch_in_flight() {
    let mut client = AncsClient::new();
    client.on_notification_source(&source(EVENT_ADDED, 0, 0, 3));
    pump(&mut client);
    client.on_fetch_timeout();
    let request = pump(&mut client);
    match request {
        PendingRequest::Notification { attempts, .. } => assert_eq!(attempts, 1),
        _ => panic!("expected the notification fetch"),
    }
    // A response for another UID is invalid: the fetch goes back in line.
    assert!(client.on_data_source(&response(4, b"a.b", b"t", b"m"), 0).is_empty());
    assert!(client.fetches.can_pump());
}

#[test]
fn modifications_replace_queued_fetches_and_the_queue_is_capped() {
    let mut queue = FetchQueue::new();
    queue.on_notification_source(&source(EVENT_ADDED, 0, 0, 1));
    queue.on_notification_source(&source(EVENT_MODIFIED, 0, 0, 1));
    let (request, _) = queue.next_request().unwrap();
    assert_eq!(uid_of(&request), Some(1));
    assert!(queue.next_request().is_none());

    for uid in 0..(PENDING_QUEUE_CAP as u32 + 1) {
        queue.on_notification_source(&source(EVENT_ADDED, 0, 0, 100 + uid));
    }
    let mut uids = Vec::new();
    while let Some((request, _)) = queue.next_request() {
        uids.push(uid_of(&request).unwrap());
    }
    assert_eq!(uids.len(), PENDING_QUEUE_CAP);
    assert_eq!(uids[0], 101);
    assert_eq!(*uids.last().unwrap(), 100 + PENDING_QUEUE_CAP as u32);
    assert_eq!(queue.on_notification_source(&[1, 2, 3]), SourceOutcome::Ignored);
    assert_eq!(queue.on_notification_source(&source(9, 0, 0, 1)), SourceOutcome::Ignored);
}

#[test]
fn unsolicited_data_is_discarded() {
    let mut client = AncsClient::new();
    assert!(client.on_data_source(&[1, 2, 3], 0).is_empty());
    assert!(!client.fetches.can_pump());
}

#[test]
fn clearing_the_session_reports_every_shown_notification() {
    let mut board = NotificationBoard::new();
    let meta = NotificationMeta::parse(&source(EVENT_ADDED, 0, 1, 11)).unwrap();
    let fields = NotificationFields {
        app_identifier: None,
        title: Some(" Call ".to_string()),
        subtitle: Some("Mobile".to_string()),
        message: None,
    };
    let (show, fetch) = board.handle_notification_fields(meta, fields, 1);
    assert_eq!(show.title, "Call");
    assert_eq!(show.app_bundle_id, "unknown");
    assert_eq!(show.body, "");
    assert_eq!(show.subtitle.as_deref(), Some("Mobile"));
    assert_eq!(fetch.as_deref(), Some("unknown"));
    let meta2 = NotificationMeta::parse(&source(EVENT_ADDED, 0, 1, 12)).unwrap();
    let (_, fetch2) = board.handle_notification_fields(meta2, NotificationFields::default(), 2);
    assert_eq!(fetch2, None);
    let mut ids = board.clear_active();
    ids.sort();
    assert_eq!(ids, vec![11, 12]);
    assert!(board.clear_active().is_empty());
}

#[test]
fn notifications_fall_back_to_app_name_then_bundle() {
    let meta = NotificationMeta::parse(&source(EVENT_ADDED, 0b100, 6, 5)).unwrap();
    let fields = NotificationFields { app_identifier: None, title: None, subtitle: None, message: Some("x".to_string()) };
    let show = notification_show(meta, &fields, "com.google.Gmail", Some("Gmail"), 9);
    assert_eq!(show.title, "Gmail");
    assert_eq!(show.category, "ios.email");
    assert!(show.pre_existing && !show.silent && !show.important);
    let show = notification_show(meta, &fields, "com.google.Gmail", None, 9);
    assert_eq!(show.title, "Gmail");
    let show = notification_show(meta, &fields, "plain", None, 9);
    assert_eq!(show.title, "plain");
}

#[test]
fn failed_control_point_writes_retry_then_drop_the_fetch() {
    let mut client = AncsClient::new();
    client.on_notification_source(&source(EVENT_ADDED, 0, 0, 4));
    for _ in 0..3 {
        let (request, _command) = client.fetches.next_request().expect("a queued fetch");
        assert_eq!(uid_of(&request), Some(4));
        client.write_failed(request);
    }
    assert!(client.fetches.next_request().is_none());
}
