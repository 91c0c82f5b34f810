use keenio::dispatch::{
    compute_timeout, DispatchMessage, DispatcherState, QueueEvent, SendRequest,
    MAX_EVENTS_BY_REQUEST,
};
use keenio::json::{JsonValue, Member};
use keenio::settings::ProjectSettings;
use keenio::wire::render_request;

fn publish(collection: &str, payload: JsonValue) -> QueueEvent {
    QueueEvent::Message(DispatchMessage::Publish { collection: collection.to_string(), payload })
}

fn event(x: i64) -> JsonValue {
    JsonValue::Object(vec![Member { key: "x".to_string(), value: JsonValue::Int(x) }])
}

#[test]
fn eager_mode_sends_each_event_alone() {
    let settings = ProjectSettings::new(None, "pid", "wkey").unwrap();
    let st = DispatcherState::new(true);
    let (st, act) = st.step(publish("clicks", event(1)));
    let req = act.send.expect("an eager publish must send");
    assert!(!act.stop);
    assert!(!act.notify);
    assert!(act.reset_deadline);
    let http = render_request(&settings, &req);
    assert_eq!(http.url, "https://api.keen.io/3.0/projects/pid/events/clicks?api_key=wkey");
    assert_eq!(http.body, "{\"x\":1}");
    // the next event is again sent alone: nothing accumulated
    let (_st, act2) = st.step(publish("taps", event(2)));
    let req2 = act2.send.expect("an eager publish must send");
    let http2 = render_request(&settings, &req2);
    assert_eq!(http2.url, "https://api.keen.io/3.0/projects/pid/events/taps?api_key=wkey");
    assert_eq!(http2.body, "{\"x\":2}");
}

#[test]
fn interval_mode_batches_until_the_deadline() {
    let settings = ProjectSettings::new(None, "pid", "wkey").unwrap();
    let mut st = DispatcherState::new(false);
    for x in 1..=3 {
        let (next, act) = st.step(publish("clicks", event(x)));
        st = next;
        assert!(act.send.is_none(), "no send may happen before the deadline");
        assert!(!act.reset_deadline);
    }
    let (_st, act) = st.step(QueueEvent::TimedOut);
    assert!(act.reset_deadline);
    let req = act.send.expect("the deadline must flush the batch");
    let http = render_request(&settings, &req);
    assert_eq!(http.url, "https://api.keen.io/3.0/projects/pid/events?api_key=wkey");
    assert_eq!(http.body, "{\"clicks\":[{\"x\":1},{\"x\":2},{\"x\":3}]}");
}

#[test]
fn batches_group_by_collection_in_first_arrival_order() {
    let settings = ProjectSettings::new(None, "pid", "wkey").unwrap();
    let mut st = DispatcherState::new(false);
    for (c, x) in [("a", 1), ("b", 2), ("a", 3)] {
        let (next, act) = st.step(publish(c, event(x)));
        st = next;
        assert!(act.send.is_none());
    }
    let (_st, act) = st.step(QueueEvent::TimedOut);
    let http = render_request(&settings, &act.send.unwrap());
    assert_eq!(http.body, "{\"a\":[{\"x\":1},{\"x\":3}],\"b\":[{\"x\":2}]}");
}

#[test]
fn a_waiting_flush_sends_everything_pending_and_notifies() {
    let settings = ProjectSettings::new(None, "pid", "wkey").unwrap();
    let mut st = DispatcherState::new(false);
    let (next, _) = st.step(publish("clicks", event(1)));
    st = next;
    let (next, act) = st.step(QueueEvent::Message(DispatchMessage::FlushRequest(true)));
    st = next;
    assert!(act.notify, "a waiting flush must be signalled after the attempt");
    let http = render_request(&settings, &act.send.expect("the flush must send the batch"));
    assert_eq!(http.body, "{\"clicks\":[{\"x\":1}]}");
    // nothing further is pending: the next deadline sends nothing
    let (_st, act2) = st.step(QueueEvent::TimedOut);
    assert!(act2.send.is_none());
    assert!(!act2.notify);
}

#[test]
fn a_flush_with_nothing_pending_still_notifies() {
    let st = DispatcherState::new(false);
    let (_st, act) = st.step(QueueEvent::Message(DispatchMessage::FlushRequest(true)));
    assert!(act.send.is_none());
    assert!(act.notify);
}

#[test]
fn the_closed_queue_stops_and_drops_buffered_events() {
    let mut st = DispatcherState::new(false);
    for x in 0..2 {
        let (next, _) = st.step(publish("clicks", event(x)));
        st = next;
    }
    let (_st, act) = st.step(QueueEvent::Closed);
    assert!(act.stop);
    assert!(act.send.is_none(), "shutdown drops, never sends");
    assert_eq!(act.dropped, 2);
}

#[test]
fn a_full_batch_is_sent_without_waiting() {
    let mut st = DispatcherState::new(false);
    for x in 0..(MAX_EVENTS_BY_REQUEST as i64 - 1) {
        let (next, act) = st.step(publish("clicks", JsonValue::Int(x)));
        st = next;
        assert!(act.send.is_none());
    }
    let (st, act) = st.step(publish("clicks", JsonValue::Int(4999)));
    assert!(act.send.is_some(), "the size cap must trigger a send");
    assert!(act.reset_deadline);
    match act.send.unwrap() {
        SendRequest::Batched(_) => {}
        SendRequest::Single { .. } => panic!("a capped batch is sent as a batch"),
    }
    // the batch starts over afterwards
    let (_st, act2) = st.step(QueueEvent::TimedOut);
    assert!(act2.send.is_none());
}

#[test]
fn timeout_is_the_interval_less_the_elapsed_time() {
    assert_eq!(compute_timeout(2000, 0), 2000);
    assert_eq!(compute_timeout(2000, 500), 1500);
    assert_eq!(compute_timeout(2000, 2000), 0);
    assert_eq!(compute_timeout(2000, 2500), 0);
}
