use robot_admin::agent::{
    recovery_for, status_report, Backoff, ClientState, Failure, Recovery, RetryStep,
    COMMAND_DURATION_SECS, MAX_DELAY_SECS, MAX_RETRIES,
};
use robot_admin::command::CurrentCommand;
use robot_admin::metrics::Metrics;
use robot_admin::service::GameControlService;
use robot_admin::strmap::StringMap;

fn pairs(pairs: &[(&str, &str)]) -> Metrics {
    let mut m: Metrics = StringMap::new();
    for (k, v) in pairs {
        m.insert(k.to_string(), v.to_string());
    }
    m
}

fn command(id: &str, started_at: i64) -> CurrentCommand {
    CurrentCommand {
        command_id: id.to_string(),
        command: "move".to_string(),
        parameters: pairs(&[("dx", "1")]),
        started_at,
    }
}

#[test]
fn agent_state_starts_empty() {
    let s = ClientState::new();
    assert!(s.client_id.is_none());
    assert!(s.current_command.is_none());
    assert_eq!(s.last_update, 0);
    assert_eq!(s.reconnect_count, 0);
    assert!(s.command_start_time.is_none());
    assert!(!s.is_command_finished());
    assert!(!s.is_command_finished_at(i64::MAX));
}

#[test]
fn agent_finishes_a_command_after_five_seconds() {
    assert_eq!(COMMAND_DURATION_SECS, 5);
    let mut s = ClientState::new();
    s.start_command_at(command("id-1", 90), 100);
    assert_eq!(s.command_start_time, Some(100));
    assert!(!s.is_command_finished_at(100));
    assert!(!s.is_command_finished_at(104));
    assert!(s.is_command_finished_at(105));
    assert!(s.is_command_finished_at(i64::MAX));
    assert!(!s.is_command_finished_at(i64::MIN));
    assert_eq!(s.complete_command(), Some("id-1".to_string()));
    assert!(s.current_command.is_none());
    assert!(s.command_start_time.is_none());
    assert_eq!(s.complete_command(), None);
}

#[test]
fn agent_takes_the_start_time_from_the_clock() {
    let mut s = ClientState::new();
    s.start_command(command("id-1", 90));
    let started = s.command_start_time.expect("just started");
    assert!(started > 1_577_836_800);
    assert!(!s.is_command_finished());
    s.command_start_time = Some(started - 5);
    assert!(s.is_command_finished());
}

#[test]
fn agent_takes_up_a_command_only_when_idle() {
    let mut s = ClientState::new();
    s.on_status(None, 10);
    assert_eq!(s.last_update, 10);
    assert!(s.current_command.is_none());
    s.on_status(Some(command("id-1", 9)), 11);
    assert_eq!(s.current_command.as_ref().expect("taken up").command_id, "id-1");
    assert_eq!(s.command_start_time, Some(11));
    s.on_status(Some(command("id-2", 12)), 13);
    assert_eq!(s.current_command.as_ref().expect("kept").command_id, "id-1");
    assert_eq!(s.command_start_time, Some(11));
    assert_eq!(s.last_update, 13);
}

#[test]
fn agent_reports_current_then_completed() {
    let mut s = ClientState::new();
    s.client_id = Some("me".to_string());
    s.on_status(Some(command("id-1", 9)), 10);
    let r = s.next_report(12);
    assert_eq!(r.client_id, Some("me".to_string()));
    assert_eq!(r.current_command.expect("in hand").command_id, "id-1");
    assert_eq!(r.completed_command_id, None);
    let r = s.next_report(15);
    assert!(r.current_command.is_none());
    assert_eq!(r.completed_command_id, Some("id-1".to_string()));
    let r = s.next_report(16);
    assert!(r.current_command.is_none());
    assert_eq!(r.completed_command_id, None);
    s.adopt_id("me again".to_string());
    assert_eq!(s.client_id, Some("me again".to_string()));
    assert_eq!(s.last_update, 10);
    s.note_failure();
    s.note_failure();
    assert_eq!(s.reconnect_count, 2);
    s.reconnect_count = u32::MAX;
    s.note_failure();
    assert_eq!(s.reconnect_count, u32::MAX);
}

#[test]
fn status_report_holds_vital_signs_and_command() {
    let m = status_report(None, None);
    assert_eq!(m.len(), 3);
    assert_eq!(m.get("status"), Some(&"running".to_string()));
    assert_eq!(m.get("memory_usage"), Some(&"128MB".to_string()));
    assert_eq!(m.get("cpu_usage"), Some(&"25%".to_string()));

    let m = status_report(None, Some("id-0".to_string()));
    assert_eq!(m.len(), 4);
    assert_eq!(m.get("completed_command_id"), Some(&"id-0".to_string()));

    let c = command("id-1", 77);
    let m = status_report(Some(&c), Some("id-0".to_string()));
    assert_eq!(m.len(), 8);
    assert_eq!(m.get("current_command_id"), Some(&"id-1".to_string()));
    assert_eq!(m.get("current_command"), Some(&"move".to_string()));
    assert_eq!(m.get("command_started_at"), Some(&"77".to_string()));
    assert_eq!(m.get("parameter_dx"), Some(&"1".to_string()));
}

#[test]
fn agent_and_service_play_a_command_through() {
    let mut service = GameControlService::new();
    service.register_as("me".to_string(), "Test Client".to_string(), "Test".to_string(), "1.0.0".to_string(), 1000, 0);
    let mut agent = ClientState::new();
    agent.client_id = Some("me".to_string());
    assert!(service.dispatch_as("id-1".to_string(), "me", "move".to_string(), pairs(&[("dx", "1")]), 1).is_ok());

    let shown = service.get_status_at("me", 2).expect("registered").current_command;
    agent.on_status(shown, 2);
    let report = agent.next_report(3);
    let update = status_report(report.current_command.as_ref(), report.completed_command_id);
    service.update_status_at("me", &update, 3).expect("registered");
    // What the agent echoes of its command does not reach the bag.
    assert_eq!(service.current_command("me").expect("in flight").started_at, 1);

    let report = agent.next_report(7);
    assert_eq!(report.completed_command_id, Some("id-1".to_string()));
    let update = status_report(report.current_command.as_ref(), report.completed_command_id);
    service.update_status_at("me", &update, 7).expect("registered");
    assert!(service.current_command("me").is_none());
    assert!(service.dispatch_as("id-2".to_string(), "me", "jump".to_string(), pairs(&[]), 8).is_ok());
}

#[test]
fn backoff_doubles_up_to_thirty_and_gives_up_at_ten() {
    assert_eq!(MAX_RETRIES, 10);
    assert_eq!(MAX_DELAY_SECS, 30);
    let mut b = Backoff::new();
    assert_eq!(b, Backoff { retry_count: 0, delay_secs: 1 });
    let mut waits = Vec::new();
    loop {
        match b.on_failure() {
            RetryStep::Wait(secs) => waits.push(secs),
            RetryStep::GiveUp => break,
        }
    }
    assert_eq!(waits, vec![1, 2, 4, 8, 16, 30, 30, 30, 30]);
    assert_eq!(b.retry_count, 10);
    assert_eq!(b.on_failure(), RetryStep::GiveUp);
    let mut b = Backoff { retry_count: u32::MAX, delay_secs: u64::MAX };
    assert_eq!(b.on_failure(), RetryStep::GiveUp);
    assert_eq!(b, Backoff { retry_count: u32::MAX, delay_secs: u64::MAX });
    let mut b = Backoff { retry_count: 0, delay_secs: u64::MAX };
    assert_eq!(b.on_failure(), RetryStep::Wait(u64::MAX));
    assert_eq!(b.delay_secs, 30);
    let mut b = Backoff { retry_count: 0, delay_secs: 15 };
    assert_eq!(b.on_failure(), RetryStep::Wait(15));
    assert_eq!(b.delay_secs, 30);
}

#[test]
fn recovery_follows_the_kind_of_failure() {
    let f = |description: &str, not_found: Option<&str>| Failure {
        description: description.to_string(),
        not_found: not_found.map(|m| m.to_string()),
    };
    assert_eq!(recovery_for(&f("transport error", None)), Recovery::Reconnect);
    assert_eq!(recovery_for(&f("tcp connect error: connection refused", None)), Recovery::Reconnect);
    assert_eq!(
        recovery_for(&f("status: Unavailable, transport error", Some("Client not found"))),
        Recovery::Reconnect
    );
    assert_eq!(
        recovery_for(&f("status: NotFound, message: \"Client not found\"", Some("Client not found"))),
        Recovery::Reregister
    );
    assert_eq!(recovery_for(&f("status: NotFound", Some("Command not found"))), Recovery::Fail);
    assert_eq!(recovery_for(&f("Client not found", None)), Recovery::Fail);
    assert_eq!(recovery_for(&f("", None)), Recovery::Fail);
}
