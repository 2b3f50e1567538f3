use robot_admin::command::{CommandStatus, PendingCommand};
use robot_admin::metrics::Metrics;
use robot_admin::model::ServiceError;
use robot_admin::service::GameControlService;
use robot_admin::strmap::StringMap;

fn bag(pairs: &[(&str, &str)]) -> Metrics {
    let mut m: Metrics = StringMap::new();
    for (k, v) in pairs {
        m.insert(k.to_string(), v.to_string());
    }
    m
}

fn text(m: &Metrics, key: &str) -> Option<String> {
    m.get(key).cloned()
}

#[test]
fn dispatch_complete_dispatch() {
    let mut s = GameControlService::new();
    let a = s
        .register_as("A".to_string(), "Bot1".to_string(), "Test".to_string(), "1.0".to_string(), 1, 100)
        .client_id;
    assert_eq!(a, "A");

    let first = s.dispatch_as("move-1".to_string(), &a, "move".to_string(), bag(&[("dx", "1")]), 101);
    assert_eq!(first, Ok("move-1".to_string()));

    let second = s.dispatch_as("jump-1".to_string(), &a, "jump".to_string(), bag(&[]), 102);
    assert_eq!(second, Err(ServiceError::FailedPrecondition));
    assert_eq!(
        ServiceError::FailedPrecondition.message(),
        "Client is busy processing another command"
    );

    let status = s.get_status_at(&a, 103).expect("the client is registered");
    let current = status.current_command.expect("the move is in flight");
    assert_eq!(current.command_id, "move-1");
    assert_eq!(current.command, "move");
    assert_eq!(current.started_at, 101);
    assert_eq!(current.parameters.len(), 1);
    assert_eq!(text(&current.parameters, "dx"), Some("1".to_string()));

    let done = s
        .update_status_at(&a, &bag(&[("completed_command_id", "move-1")]), 104)
        .expect("the client is registered");
    assert!(done.success);
    assert_eq!(done.message, "Status updated");
    let status = s.get_status_at(&a, 105).expect("the client is registered");
    assert!(status.current_command.is_none());

    let third = s.dispatch_as("jump-2".to_string(), &a, "jump".to_string(), bag(&[]), 106);
    assert!(third.is_ok());
    let status = s.get_status_at(&a, 107).expect("the client is registered");
    assert_eq!(status.current_command.expect("the jump is in flight").command, "jump");
}

#[test]
fn status_of_unknown_client_is_not_found() {
    let mut s = GameControlService::new();
    let r = s.get_status("nonexistent");
    assert!(matches!(r, Err(ServiceError::NotFound)));
    assert_eq!(ServiceError::NotFound.message(), "Client not found");
    let r = s.get_status_at("nonexistent", 7);
    assert!(matches!(r, Err(ServiceError::NotFound)));
}

#[test]
fn unknown_client_is_not_found_everywhere() {
    let mut s = GameControlService::new();
    assert!(matches!(
        s.send_command("ghost", "move".to_string(), bag(&[])),
        Err(ServiceError::NotFound)
    ));
    assert!(matches!(s.update_status("ghost", &bag(&[("k", "v")])), Err(ServiceError::NotFound)));
    assert!(s.current_command("ghost").is_none());
    assert_eq!(s.get_clients().len(), 0);
}

#[test]
fn register_draws_distinct_ids() {
    let mut s = GameControlService::new();
    let a = s.register("Bot1".to_string(), "Test".to_string(), "1.0".to_string(), 1);
    let b = s.register("Bot2".to_string(), "Test".to_string(), "1.0".to_string(), 1);
    assert!(a.success && b.success);
    assert_eq!(a.message, "Successfully registered");
    assert_eq!(a.client_id.chars().count(), 36);
    assert_eq!(b.client_id.chars().count(), 36);
    assert_ne!(a.client_id, b.client_id);
    let clients = s.get_clients();
    assert_eq!(clients.len(), 2);
    let first = clients.get(&a.client_id).expect("registered");
    assert_eq!(first.name, "Bot1");
    assert_eq!(first.client_type, "Test");
    assert_eq!(first.version, "1.0");
    assert_eq!(first.max_players, 1);
    assert!(first.status.is_none());
    // The clock of this machine stands after the year 2020.
    assert!(first.last_seen > 1_577_836_800);
}

#[test]
fn send_command_draws_an_id_and_the_time() {
    let mut s = GameControlService::new();
    let a = s.register("Bot1".to_string(), "Test".to_string(), "1.0".to_string(), 1).client_id;
    let r = s.send_command(&a, "move".to_string(), bag(&[("dx", "1")])).expect("idle");
    assert!(r.success);
    assert_eq!(r.message, "Command accepted");
    let current = s.current_command(&a).expect("in flight");
    assert_eq!(current.command_id.chars().count(), 36);
    assert_eq!(current.command, "move");
    assert!(current.started_at > 1_577_836_800);
    let status = s.get_status(&a).expect("registered");
    assert!(status.timestamp >= current.started_at);
    assert_eq!(status.status, "Test");
    assert_eq!(status.client_id, a);
    assert!(status.pending_commands.is_empty());
    assert!(matches!(
        s.send_command(&a, "jump".to_string(), bag(&[])),
        Err(ServiceError::FailedPrecondition)
    ));
}

#[test]
fn dispatch_returns_the_id_it_drew() {
    let mut s = GameControlService::new();
    let a = s.register("Bot1".to_string(), "Test".to_string(), "1.0".to_string(), 1).client_id;
    let id = s.dispatch(&a, "move".to_string(), bag(&[("dx", "1")])).expect("idle");
    assert_eq!(id.chars().count(), 36);
    assert_ne!(id, a);
    assert_eq!(s.current_command(&a).expect("in flight").command_id, id);
    assert_eq!(s.dispatch(&a, "jump".to_string(), bag(&[])), Err(ServiceError::FailedPrecondition));
    assert_eq!(s.dispatch("ghost", "jump".to_string(), bag(&[])), Err(ServiceError::NotFound));
    s.update_status(&a, &bag(&[("completed_command_id", id.as_str())])).expect("registered");
    assert!(s.current_command(&a).is_none());
    let next = s.dispatch(&a, "jump".to_string(), bag(&[])).expect("idle again");
    assert_ne!(next, id);
}

#[test]
fn metrics_merge_keeps_untouched_keys() {
    let mut s = GameControlService::new();
    s.register_as("c".to_string(), "n".to_string(), "t".to_string(), "v".to_string(), 4, 10);
    s.update_status_at("c", &bag(&[("k", "v1")]), 11).expect("registered");
    s.update_status_at("c", &bag(&[("k2", "v2")]), 12).expect("registered");
    let status = s.get_status_at("c", 13).expect("registered");
    assert_eq!(status.metrics.len(), 2);
    assert_eq!(text(&status.metrics, "k"), Some("v1".to_string()));
    assert_eq!(text(&status.metrics, "k2"), Some("v2".to_string()));
    s.update_status_at("c", &bag(&[("k", "v3")]), 14).expect("registered");
    let status = s.get_status_at("c", 15).expect("registered");
    assert_eq!(status.metrics.len(), 2);
    assert_eq!(text(&status.metrics, "k"), Some("v3".to_string()));
    assert_eq!(text(&status.metrics, "k2"), Some("v2".to_string()));
}

#[test]
fn status_update_cannot_set_protected_keys() {
    let mut s = GameControlService::new();
    s.register_as("c".to_string(), "n".to_string(), "t".to_string(), "v".to_string(), 4, 10);
    let update = bag(&[
        ("current_command_id", "forged"),
        ("current_command", "forged"),
        ("command_started_at", "1"),
        ("parameter_x", "forged"),
        ("parameter_", "forged"),
        ("status", "running"),
    ]);
    s.update_status_at("c", &update, 11).expect("registered");
    let status = s.get_status_at("c", 12).expect("registered");
    assert_eq!(status.metrics.len(), 1);
    assert_eq!(text(&status.metrics, "status"), Some("running".to_string()));
    assert!(status.current_command.is_none());
    assert!(s.dispatch_as("x".to_string(), "c", "move".to_string(), bag(&[]), 13).is_ok());
}

#[test]
fn status_update_stores_keys_that_only_look_reserved() {
    let mut s = GameControlService::new();
    let a = s.register("Bot1".to_string(), "Test".to_string(), "1.0".to_string(), 1).client_id;
    let update = bag(&[
        ("current_commands_total", "5"),
        ("current_command_extra", "x"),
        ("command_started_at_", "y"),
        ("parameter", "z"),
    ]);
    let answer = s.update_status(&a, &update).expect("registered");
    assert!(answer.success);
    let status = s.get_status(&a).expect("registered");
    assert_eq!(status.metrics.len(), 4);
    assert_eq!(text(&status.metrics, "current_commands_total"), Some("5".to_string()));
    assert_eq!(text(&status.metrics, "current_command_extra"), Some("x".to_string()));
    assert_eq!(text(&status.metrics, "command_started_at_"), Some("y".to_string()));
    assert_eq!(text(&status.metrics, "parameter"), Some("z".to_string()));
    assert!(status.current_command.is_none());

    // Such keys outlive a command and its completion.
    let id = s.dispatch(&a, "move".to_string(), bag(&[("dx", "1")])).expect("idle");
    s.update_status(&a, &bag(&[("completed_command_id", id.as_str())])).expect("registered");
    let status = s.get_status(&a).expect("registered");
    assert_eq!(status.metrics.len(), 5);
    assert_eq!(text(&status.metrics, "current_commands_total"), Some("5".to_string()));
}

#[test]
fn completion_is_idempotent_and_tolerant() {
    let mut s = GameControlService::new();
    s.register_as("c".to_string(), "n".to_string(), "t".to_string(), "v".to_string(), 4, 10);
    // An unknown id is no error and leaves the client idle.
    let done = bag(&[("completed_command_id", "never-sent")]);
    assert!(s.update_status_at("c", &done, 11).is_ok());
    assert!(s.current_command("c").is_none());
    assert!(!s.get_clients().get("c").expect("registered").is_busy());

    assert!(s.dispatch_as("x".to_string(), "c", "move".to_string(), bag(&[("a", "b")]), 12).is_ok());
    assert!(s.get_clients().get("c").expect("registered").is_busy());
    let done = bag(&[("completed_command_id", "x")]);
    assert!(s.update_status_at("c", &done, 13).is_ok());
    assert!(!s.get_clients().get("c").expect("registered").is_busy());
    assert!(s.update_status_at("c", &done, 14).is_ok());
    assert!(!s.get_clients().get("c").expect("registered").is_busy());
    let status = s.get_status_at("c", 15).expect("registered");
    assert_eq!(status.metrics.len(), 1);
    assert_eq!(text(&status.metrics, "completed_command_id"), Some("x".to_string()));

    // A late duplicate does not end the next command.
    assert!(s.dispatch_as("y".to_string(), "c", "jump".to_string(), bag(&[]), 16).is_ok());
    assert!(s.update_status_at("c", &done, 17).is_ok());
    assert_eq!(s.current_command("c").expect("still in flight").command_id, "y");
    s.complete("x");
    s.complete("unknown");
    assert_eq!(s.current_command("c").expect("still in flight").command_id, "y");
    s.complete("y");
    assert!(s.current_command("c").is_none());
}

#[test]
fn sweep_evicts_silent_clients_only() {
    let mut s = GameControlService::new();
    s.register_as("old".to_string(), "n".to_string(), "t".to_string(), "v".to_string(), 4, 100);
    s.register_as("new".to_string(), "n".to_string(), "t".to_string(), "v".to_string(), 4, 100);
    s.get_status_at("new", 102).expect("registered");
    // At 102 nobody has been silent for more than 2 seconds.
    assert!(s.evict_stale(102, 2).is_empty());
    assert_eq!(s.get_clients().len(), 2);
    // At 103 the client last seen at 100 has.
    let evicted = s.evict_stale(103, 2);
    assert_eq!(evicted.len(), 1);
    assert_eq!(evicted[0].0, "old");
    assert_eq!(evicted[0].1.last_seen, 100);
    let clients = s.get_clients();
    assert_eq!(clients.len(), 1);
    assert!(clients.contains_key("new"));
    assert!(!clients.contains_key("old"));
    assert!(matches!(s.get_status_at("old", 104), Err(ServiceError::NotFound)));
}

#[test]
fn a_client_that_refreshes_is_never_evicted() {
    let mut s = GameControlService::new();
    s.register_as("c".to_string(), "n".to_string(), "t".to_string(), "v".to_string(), 4, 0);
    let mut now = 0;
    while now < 50 {
        now += 2;
        s.update_status_at("c", &bag(&[("tick", "1")]), now).expect("registered");
        assert!(s.evict_stale(now + 2, 2).is_empty());
    }
    assert_eq!(s.get_clients().len(), 1);
}

#[test]
fn eviction_abandons_the_command_in_flight() {
    let mut s = GameControlService::new();
    s.register_as("c".to_string(), "n".to_string(), "t".to_string(), "v".to_string(), 4, 0);
    assert!(s.dispatch_as("x".to_string(), "c", "move".to_string(), bag(&[]), 1).is_ok());
    let evicted = s.evict_stale(10, 2);
    assert_eq!(evicted.len(), 1);
    assert!(evicted[0].1.is_busy());
    assert!(matches!(
        s.dispatch_as("y".to_string(), "c", "move".to_string(), bag(&[]), 11),
        Err(ServiceError::NotFound)
    ));
}

#[test]
fn last_contact_never_goes_back() {
    let mut s = GameControlService::new();
    s.register_as("c".to_string(), "n".to_string(), "t".to_string(), "v".to_string(), 4, 100);
    s.get_status_at("c", 200).expect("registered");
    s.get_status_at("c", 150).expect("registered");
    assert_eq!(s.get_clients().get("c").expect("registered").last_seen, 200);
    s.update_status_at("c", &bag(&[]), 120).expect("registered");
    assert_eq!(s.get_clients().get("c").expect("registered").last_seen, 200);
    s.update_status_at("c", &bag(&[]), 201).expect("registered");
    assert_eq!(s.get_clients().get("c").expect("registered").last_seen, 201);
}

#[test]
fn listing_shows_each_client_with_its_command() {
    let mut s = GameControlService::new();
    s.register_as("a".to_string(), "Bot1".to_string(), "Test".to_string(), "1.0".to_string(), 1, 5);
    s.register_as("b".to_string(), "Bot2".to_string(), "Prod".to_string(), "2.0".to_string(), 9, 6);
    assert!(s.dispatch_as("x".to_string(), "b", "move".to_string(), bag(&[("dx", "1")]), 7).is_ok());
    let list = s.list_clients();
    assert_eq!(list.len(), 2);
    assert_eq!(list[0].id, "a");
    assert_eq!(list[0].name, "Bot1");
    assert_eq!(list[0].client_type, "Test");
    assert_eq!(list[0].version, "1.0");
    assert_eq!(list[0].last_seen, 5);
    assert_eq!(list[0].metrics.len(), 0);
    assert!(list[0].current_command.is_none());
    assert_eq!(list[1].id, "b");
    assert_eq!(list[1].metrics.len(), 4);
    assert_eq!(text(&list[1].metrics, "current_command_id"), Some("x".to_string()));
    assert_eq!(text(&list[1].metrics, "current_command"), Some("move".to_string()));
    assert_eq!(text(&list[1].metrics, "command_started_at"), Some("7".to_string()));
    assert_eq!(text(&list[1].metrics, "parameter_dx"), Some("1".to_string()));
    let current = list[1].current_command.as_ref().expect("in flight");
    assert_eq!(current.command_id, "x");
    assert_eq!(current.started_at, 7);
}

#[test]
fn many_registrations_return_distinct_ids() {
    let mut s = GameControlService::new();
    let mut ids = Vec::new();
    for i in 0..50 {
        let r = s.register(format!("Bot{}", i), "Test".to_string(), "1.0".to_string(), 1);
        assert!(!ids.contains(&r.client_id));
        ids.push(r.client_id);
    }
    assert_eq!(s.get_clients().len(), 50);
    let listed: Vec<String> = s.list_clients().into_iter().map(|c| c.id).collect();
    assert_eq!(listed, ids);
}

#[test]
fn an_id_stays_issued_after_its_client_is_gone() {
    let mut s = GameControlService::new();
    assert!(!s.was_issued("a"));
    s.register_as("a".to_string(), "Bot1".to_string(), "Test".to_string(), "1.0".to_string(), 1, 5);
    assert!(s.was_issued("a"));
    assert_eq!(s.evict_stale(100, 2).len(), 1);
    assert!(s.get_clients().is_empty());
    assert!(s.was_issued("a"));
    assert!(!s.was_issued("b"));

    let mut ids = Vec::new();
    for round in 0..20 {
        let id = s.register("Bot".to_string(), "Test".to_string(), "1.0".to_string(), 1).client_id;
        assert!(!ids.contains(&id));
        assert!(s.was_issued(&id));
        ids.push(id);
        // Now and then every client is lost again.
        if round % 3 == 0 {
            assert!(!s.sweep(-1).evicted.is_empty());
            assert!(s.get_clients().is_empty());
        }
    }
    for id in &ids {
        assert!(s.was_issued(id));
    }
    assert!(s.was_issued("a"));
}

#[test]
fn a_dispatch_never_stores_over_an_earlier_command() {
    let mut s = GameControlService::new();
    s.register_as("c".to_string(), "n".to_string(), "t".to_string(), "v".to_string(), 4, 10);
    assert!(s.command("X").is_none());
    let first = s.dispatch_as("X".to_string(), "c", "move".to_string(), bag(&[("dx", "1")]), 11);
    assert_eq!(first, Ok("X".to_string()));
    assert_eq!(s.command("X").expect("stored").status, CommandStatus::Pending);
    s.update_status_at("c", &bag(&[("completed_command_id", "X")]), 12).expect("registered");
    assert_eq!(s.command("X").expect("kept").status, CommandStatus::Completed);

    // The same id again: the command is stored under a longer one.
    let second = s.dispatch_as("X".to_string(), "c", "jump".to_string(), bag(&[]), 13);
    assert_eq!(second, Ok("X-".to_string()));
    let first = s.command("X").expect("kept");
    assert_eq!(first.status, CommandStatus::Completed);
    assert_eq!(first.created_at, 11);
    assert_eq!(first.parameters.len(), 1);
    let second = s.command("X-").expect("stored");
    assert_eq!(second.status, CommandStatus::Pending);
    assert_eq!(second.created_at, 13);
    let current = s.get_status_at("c", 14).expect("registered").current_command.expect("in flight");
    assert_eq!(current.command_id, "X-");
    assert_eq!(current.command, "jump");
    s.complete("X-");

    // And so through `add_command_at`, which hands no id back.
    let again = PendingCommand {
        command_id: "X".to_string(),
        command: "turn".to_string(),
        parameters: bag(&[]),
        created_at: 15,
    };
    assert_eq!(s.add_command_at("c", again, 16), Ok(()));
    assert_eq!(s.current_command("c").expect("in flight").command_id, "X--");
    assert_eq!(s.command("X--").expect("stored").created_at, 15);
    assert_eq!(s.command("X").expect("kept").status, CommandStatus::Completed);
    assert_eq!(s.command("X-").expect("kept").status, CommandStatus::Completed);
}

#[test]
fn the_listing_shows_a_command_that_the_bag_reports_as_completed() {
    let mut s = GameControlService::new();
    s.register_as("c".to_string(), "n".to_string(), "t".to_string(), "v".to_string(), 4, 10);
    // The client names a command as completed that the table does not know
    // yet, and the next command gets that very id.
    s.update_status_at("c", &bag(&[("completed_command_id", "X")]), 11).expect("registered");
    let accepted = s.dispatch_as("X".to_string(), "c", "move".to_string(), bag(&[("dx", "1")]), 12);
    assert_eq!(accepted, Ok("X".to_string()));
    assert!(s.get_clients().get("c").expect("registered").is_busy());
    assert!(s.get_status_at("c", 13).expect("registered").current_command.is_none());
    let list = s.list_clients();
    let shown = list[0].current_command.as_ref().expect("the three command keys are there");
    assert_eq!(shown.command_id, "X");
    assert_eq!(shown.command, "move");
    assert_eq!(shown.started_at, 12);
    assert_eq!(
        s.dispatch_as("Y".to_string(), "c", "jump".to_string(), bag(&[]), 14),
        Err(ServiceError::FailedPrecondition)
    );
    s.update_status_at("c", &bag(&[("completed_command_id", "X")]), 15).expect("registered");
    assert!(s.list_clients()[0].current_command.is_none());

    // The listing wants all three command keys.
    let mut partial =
        robot_admin::client::Client::new("n".to_string(), "t".to_string(), "v".to_string(), 1, 0);
    partial.status = Some(bag(&[("current_command_id", "X"), ("current_command", "move")]));
    assert!(partial.listed_command().is_none());
    partial.status = Some(bag(&[
        ("current_command_id", "X"),
        ("current_command", "move"),
        ("command_started_at", "soon"),
    ]));
    assert_eq!(partial.listed_command().expect("three keys").started_at, 0);
}

#[test]
fn registering_an_id_again_replaces_the_record() {
    let mut s = GameControlService::new();
    s.register_as("a".to_string(), "Bot1".to_string(), "Test".to_string(), "1.0".to_string(), 1, 5);
    assert!(s.dispatch_as("x".to_string(), "a", "move".to_string(), bag(&[]), 6).is_ok());
    s.register_as("a".to_string(), "Bot2".to_string(), "Test".to_string(), "1.1".to_string(), 2, 7);
    let clients = s.get_clients();
    assert_eq!(clients.len(), 1);
    let a = clients.get("a").expect("registered");
    assert_eq!(a.name, "Bot2");
    assert_eq!(a.max_players, 2);
    assert!(!a.is_busy());
}
