use robot_admin::model::ServiceError;
use robot_admin::service::{
    GameControlService, StreamStep, CLIENT_TTL_SECS, STREAM_CAPACITY, STREAM_PERIOD_SECS,
    SWEEP_PERIOD_SECS,
};

fn service_with(ids: &[&str]) -> GameControlService {
    let mut s = GameControlService::new();
    for id in ids {
        s.register_as(id.to_string(), "Bot".to_string(), "Test".to_string(), "1.0".to_string(), 1, 0);
    }
    s
}

#[test]
fn defaults_of_the_background_tasks() {
    assert_eq!(CLIENT_TTL_SECS, 2);
    assert_eq!(SWEEP_PERIOD_SECS, 2);
    assert_eq!(STREAM_CAPACITY, 128);
    assert_eq!(STREAM_PERIOD_SECS, 1);
}

#[test]
fn stream_of_unknown_client_is_not_found() {
    let mut s = service_with(&[]);
    assert!(matches!(s.stream_status("ghost"), Err(ServiceError::NotFound)));
    assert!(matches!(s.stream_status_as("ghost", "t".to_string()), Err(ServiceError::NotFound)));
    assert!(matches!(s.stream_tick_at("ghost", "t", 1), StreamStep::Stop));
    assert!(matches!(s.stream_tick("ghost", "t"), StreamStep::Stop));
    assert!(s.stream_failed("ghost", "t").is_none());
}

#[test]
fn stream_ticks_send_snapshots_and_count_as_contact() {
    let mut s = service_with(&["a"]);
    let token = s.stream_status("a").expect("registered");
    assert_eq!(token.chars().count(), 36);
    match s.stream_tick_at("a", &token, 5) {
        StreamStep::Send(snapshot) => {
            assert_eq!(snapshot.client_id, "a");
            assert_eq!(snapshot.status, "Test");
            assert_eq!(snapshot.timestamp, 5);
            assert!(snapshot.current_command.is_none());
        },
        StreamStep::Stop => panic!("the stream is the subscriber"),
    }
    assert_eq!(s.get_clients().get("a").expect("registered").last_seen, 5);
    assert!(s.evict_stale(7, 2).is_empty());
    match s.stream_tick("a", &token) {
        StreamStep::Send(snapshot) => assert!(snapshot.timestamp > 1_577_836_800),
        StreamStep::Stop => panic!("the stream is the subscriber"),
    }
}

#[test]
fn a_second_stream_replaces_the_first() {
    let mut s = service_with(&["a"]);
    s.stream_status_as("a", "first".to_string()).expect("registered");
    s.stream_status_as("a", "second".to_string()).expect("registered");
    assert!(matches!(s.stream_tick_at("a", "first", 1), StreamStep::Stop));
    assert!(s.stream_failed("a", "first").is_none());
    assert_eq!(s.get_clients().len(), 1);
    assert!(matches!(s.stream_tick_at("a", "second", 2), StreamStep::Send(_)));
}

#[test]
fn a_stream_that_cannot_deliver_disconnects_its_client() {
    let mut s = service_with(&["a", "b"]);
    s.stream_status_as("a", "t".to_string()).expect("registered");
    let gone = s.stream_failed("a", "t").expect("the stream is the subscriber");
    assert_eq!(gone.name, "Bot");
    let clients = s.get_clients();
    assert_eq!(clients.len(), 1);
    assert!(clients.contains_key("b"));
    assert!(matches!(s.stream_tick_at("a", "t", 3), StreamStep::Stop));
    assert!(s.stream_failed("a", "t").is_none());
    assert!(matches!(s.get_status_at("a", 4), Err(ServiceError::NotFound)));
}

#[test]
fn sweep_reads_the_clock() {
    let mut s = service_with(&["a"]);
    // Registered at time 0, the client is long silent by the clock of this
    // machine.
    let swept = s.sweep(CLIENT_TTL_SECS);
    assert!(swept.now > 1_577_836_800);
    assert_eq!(swept.evicted.len(), 1);
    assert_eq!(swept.evicted[0].0, "a");
    assert_eq!(swept.evicted[0].1.silent_for(swept.now), swept.now);
    let id = s.register("Bot".to_string(), "Test".to_string(), "1.0".to_string(), 1).client_id;
    assert!(s.sweep(3600).evicted.is_empty());
    assert!(s.get_clients().contains_key(&id));
}
