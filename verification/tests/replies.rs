use nocturned::json::{Json, JsonMember, JsonNumber};
use nocturned::replies::ReplyTracker;

fn data(text: &str) -> Json {
    Json::Object(vec![JsonMember { key: "data".to_string(), value: Json::Str(text.to_string()) }])
}

#[test]
fn a_waiting_call_takes_the_reply_alone() {
    let mut tracker = ReplyTracker::new();
    tracker.await_call("r1");
    tracker.mark_as_websocket_message("r1");
    let route = tracker.on_result("r1", &Json::Number(JsonNumber::PosInt(5)));
    assert!(matches!(route.call_reply, Some(Json::Number(JsonNumber::PosInt(5)))));
    assert!(!route.to_websocket);
    let route = tracker.on_result("r1", &Json::Null);
    assert!(route.call_reply.is_none() && route.to_websocket);
    let route = tracker.on_result("r1", &Json::Null);
    assert!(route.call_reply.is_none() && !route.to_websocket);
}

#[test]
fn a_cancelled_call_no_longer_waits() {
    let mut tracker = ReplyTracker::new();
    tracker.await_call("c");
    assert!(tracker.cancel_call("c"));
    assert!(!tracker.cancel_call("c"));
    assert!(tracker.on_result("c", &Json::Null).call_reply.is_none());
}

#[test]
fn image_results_are_cached_under_their_url_once() {
    let mut tracker = ReplyTracker::new();
    tracker.mark_as_image_request("img-1", "https://i.scdn.co/image/abc".to_string());
    let route = tracker.on_result("img-1", &data("YWJj"));
    assert_eq!(route.image_url.as_deref(), Some("https://i.scdn.co/image/abc"));
    assert_eq!(route.image_data.as_deref(), Some("YWJj"));
    assert!(!route.set_time && !route.to_websocket);
    let again = tracker.on_result("img-1", &data("YWJj"));
    assert_eq!(again.image_url, None);
    assert_eq!(again.image_data, None);
    let untracked = tracker.on_result("other", &data("YWJj"));
    assert_eq!(untracked.image_data, None);
}

#[test]
fn a_time_reply_sets_the_clock() {
    let mut tracker = ReplyTracker::new();
    tracker.mark_method_for_message("t1", "device.timezone.get".to_string());
    tracker.mark_method_for_message("t1", "device.time.get".to_string());
    tracker.mark_method_for_message("t2", "device.timezone.get".to_string());
    assert!(tracker.on_result("t1", &Json::Null).set_time);
    assert!(!tracker.on_result("t2", &Json::Null).set_time);
    assert!(!tracker.on_result("t1", &Json::Null).set_time);
}

#[test]
fn error_replies_go_to_the_call_or_the_ui_client() {
    let mut tracker = ReplyTracker::new();
    tracker.await_call("w");
    tracker.mark_as_websocket_message("w");
    let route = tracker.on_error("w", "busy");
    let reply = route.call_reply.expect("the waiting call gets the error");
    assert_eq!(reply.get("__error").and_then(|v| v.as_str()), Some("busy"));
    assert!(!route.to_websocket);
    let route = tracker.on_error("w", "busy");
    assert!(route.call_reply.is_none() && route.to_websocket);
    let route = tracker.on_error("w", "busy");
    assert!(route.call_reply.is_none() && !route.to_websocket);
}
