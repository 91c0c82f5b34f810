use keenio::client::KeenClient;
use keenio::dispatch::{DispatchMessage, DispatcherState, QueueEvent};
use keenio::json::{JsonValue, Member};
use keenio::settings::{KeenError, ProjectSettings};
use keenio::wire::render_request;

fn settings() -> ProjectSettings {
    ProjectSettings::new(None, "pid", "wkey").unwrap()
}

fn payload(x: i64) -> JsonValue {
    JsonValue::Object(vec![Member { key: "x".to_string(), value: JsonValue::Int(x) }])
}

fn timestamp_of(m: &DispatchMessage) -> String {
    let DispatchMessage::Publish { payload, .. } = m else {
        panic!("expected a publish message");
    };
    let JsonValue::Object(members) = payload else {
        panic!("expected an object payload");
    };
    let keen = members.iter().find(|m| m.key == "keen").expect("keen metadata");
    let JsonValue::Object(keen_members) = &keen.value else {
        panic!("expected keen metadata object");
    };
    let ts = keen_members.iter().find(|m| m.key == "timestamp").expect("timestamp");
    let JsonValue::Str(s) = &ts.value else {
        panic!("expected a timestamp string");
    };
    s.clone()
}

#[test]
fn calls_before_start_are_refused_and_nothing_reaches_the_wire() {
    let client = KeenClient::new(settings(), None);
    assert!(matches!(client.add_event("clicks", payload(1)), Err(KeenError::NotStarted)));
    assert!(matches!(client.flush(true), Err(KeenError::NotStarted)));
    assert!(matches!(client.flush(false), Err(KeenError::NotStarted)));
}

#[test]
fn start_spawns_once_and_stop_is_terminal() {
    let mut client = KeenClient::new(settings(), Some(2000));
    assert!(client.start(), "the first start spawns the worker");
    assert!(!client.start(), "a second start is a no-op");
    assert!(client.stop(), "stopping a running client joins the worker");
    assert!(!client.stop(), "a second stop is a no-op");
    assert!(!client.start(), "a stopped client cannot be restarted");
    assert!(matches!(client.add_event("clicks", payload(1)), Err(KeenError::NotStarted)));
}

#[test]
fn stop_before_start_changes_nothing() {
    let mut client = KeenClient::new(settings(), None);
    assert!(!client.stop());
    assert!(client.start(), "an idle client can still be started");
}

#[test]
fn accepted_events_carry_the_enriched_payload() {
    let mut client = KeenClient::new(settings(), None);
    client.start();
    let m = client.add_event("clicks", payload(1)).expect("running client accepts events");
    let ts = timestamp_of(&m);
    assert_eq!(ts.len(), 24, "millisecond UTC timestamps are 24 characters");
    assert!(ts.ends_with('Z'));
    assert!(ts.contains('T'));
}

#[test]
fn geo_enrichment_adds_the_placeholder_field() {
    let mut client = KeenClient::new(settings(), None);
    client.start();
    let m = client
        .add_event_with_geo_enrichment("clicks", payload(1))
        .expect("running client accepts events");
    let DispatchMessage::Publish { payload: enriched, .. } = &m else {
        panic!("expected a publish message");
    };
    let JsonValue::Object(members) = enriched else {
        panic!("expected an object payload");
    };
    assert!(members.iter().any(|mb| mb.key == "ip_address"));
    assert!(members.iter().any(|mb| mb.key == "keen"));
}

#[test]
fn timestamps_do_not_decrease_for_sequential_events() {
    let mut client = KeenClient::new(settings(), None);
    client.start();
    let mut previous: Option<String> = None;
    for x in 0..50 {
        let m = client.add_event("clicks", payload(x)).unwrap();
        let ts = timestamp_of(&m);
        if let Some(p) = previous {
            assert!(p <= ts, "timestamps must not decrease: {} then {}", p, ts);
        }
        previous = Some(ts);
    }
}

#[test]
fn one_send_attempt_per_waiting_flush() {
    // an idle client on a long interval: one event, then a waiting
    // flush; the flush triggers exactly one send attempt
    let mut client = KeenClient::new(settings(), Some(60_000));
    client.start();
    let m = client.add_event("clicks", payload(1)).unwrap();
    let f = client.flush(true).unwrap();
    assert!(matches!(f, DispatchMessage::FlushRequest(true)));
    let st = DispatcherState::new(false);
    let (st, act) = st.step(QueueEvent::Message(m));
    assert!(act.send.is_none());
    let (st, act) = st.step(QueueEvent::Message(f));
    assert!(act.send.is_some(), "the flush covers the event enqueued before it");
    assert!(act.notify);
    let (_st, act) = st.step(QueueEvent::TimedOut);
    assert!(act.send.is_none(), "nothing further is sent until the next trigger");
}

#[test]
fn sequential_events_all_reach_one_batch() {
    let settings = settings();
    let mut client = KeenClient::new(settings.clone(), Some(2000));
    client.start();
    let mut st = DispatcherState::new(false);
    let n = 10;
    for x in 0..n {
        let m = client.add_event("clicks", payload(x)).unwrap();
        let (next, act) = st.step(QueueEvent::Message(m));
        st = next;
        assert!(act.send.is_none());
    }
    let (_st, act) = st.step(QueueEvent::TimedOut);
    let http = render_request(&settings, &act.send.expect("the deadline flushes the batch"));
    let body = http.body;
    assert_eq!(body.matches("\"x\":").count(), n as usize, "every event is delivered once");
    assert!(body.starts_with("{\"clicks\":["));
}
