use song_recommender::checkpoint::{write_checkpoint, CheckpointError};
use song_recommender::index::{make_rules_map, RuleIndex, RuleRecord};
use song_recommender::server::{
    answer_query, check_for_update, update_rules, QueryServerMsg, ReloadStep, RuleServer,
    ServerAction, Trigger, RETRY_SECONDS,
};
use song_recommender::snapshot::RuleSnapshot;

fn songs(items: &[&str]) -> Vec<String> {
    items.iter().map(|s| s.to_string()).collect()
}

fn one_rule(antecedent: &[&str], consequent: &str) -> Vec<RuleRecord> {
    vec![RuleRecord { antecedent: songs(antecedent), consequent: consequent.to_string() }]
}

fn small_index(consequent: &str) -> RuleIndex {
    make_rules_map(one_rule(&["A"], consequent))
}

fn offer(timestamp: i64, consequent: &str) -> QueryServerMsg {
    QueryServerMsg::NewRules { timestamp, rules_map: small_index(consequent), when: 0 }
}

fn answer_of(server: &mut RuleServer, query: &[&str]) -> Option<(Vec<String>, String)> {
    match server.handle(QueryServerMsg::Query(songs(query))) {
        ServerAction::Reply { songs, label } => Some((songs, label)),
        _ => None,
    }
}

#[test]
fn retry_delay_is_five_seconds() {
    assert_eq!(RETRY_SECONDS, 5);
}

#[test]
fn new_server_has_no_snapshot() {
    let server = RuleServer::new();
    assert_eq!(server.adopted(), None);
    assert!(server.current().is_none());
}

#[test]
fn startup_sends_a_change_hint() {
    assert!(matches!(RuleServer::startup(17), QueryServerMsg::WatchedFileChanged(17)));
}

#[test]
fn query_before_first_load_is_deferred_then_answered() {
    let mut server = RuleServer::new();
    let deferred = match server.handle(QueryServerMsg::Query(songs(&["A"]))) {
        ServerAction::Defer { query, seconds } => {
            assert_eq!(seconds, 5);
            query
        }
        other => panic!("expected a deferred query, got {:?}", other),
    };
    assert_eq!(deferred, songs(&["A"]));
    assert_eq!(server.adopted(), None);
    // A valid pair of checkpoint and rules appears and is loaded.
    let step = check_for_update(&write_checkpoint("data", 42), server.adopted());
    assert_eq!(step, Ok(ReloadStep::ReadRules(42)));
    let adoption = update_rules(42, one_rule(&["A"], "X"), 1);
    assert!(matches!(server.handle(adoption), ServerAction::Adopted));
    // The deferred query comes back and succeeds.
    match server.handle(QueryServerMsg::Query(deferred)) {
        ServerAction::Reply { songs: found, label } => {
            assert_eq!(found, songs(&["X"]));
            assert_eq!(label, "1970-01-01 00:00:00.000000042");
        }
        other => panic!("expected a reply, got {:?}", other),
    }
}

#[test]
fn stale_signal_triggers_no_rebuild() {
    let mut server = RuleServer::new();
    let content = write_checkpoint("data", 42);
    // First hint: the checkpoint is new, the rules are read and adopted.
    let first = server.handle(QueryServerMsg::WatchedFileChanged(1));
    let adopted = match first {
        ServerAction::Reload { trigger, adopted } => {
            assert_eq!(trigger, Trigger::WatchedFileChanged(1));
            adopted
        }
        other => panic!("expected a reload, got {:?}", other),
    };
    assert_eq!(adopted, None);
    assert_eq!(check_for_update(&content, adopted), Ok(ReloadStep::ReadRules(42)));
    assert!(matches!(
        server.handle(update_rules(42, one_rule(&["A"], "X"), 2)),
        ServerAction::Adopted
    ));
    // The checkpoint is written again with the same time: the second hint
    // ends after the checkpoint has been read.
    let second = server.handle(QueryServerMsg::WatchedFileChanged(3));
    let adopted = match second {
        ServerAction::Reload { trigger, adopted } => {
            assert_eq!(trigger, Trigger::WatchedFileChanged(3));
            adopted
        }
        other => panic!("expected a reload, got {:?}", other),
    };
    assert_eq!(adopted, Some(42));
    assert_eq!(check_for_update(&content, adopted), Ok(ReloadStep::UpToDate));
    assert_eq!(server.adopted(), Some(42));
}

#[test]
fn older_and_equal_rules_are_discarded() {
    let mut server = RuleServer::new();
    assert!(matches!(server.handle(offer(42, "X")), ServerAction::Adopted));
    assert!(matches!(server.handle(offer(42, "same-time")), ServerAction::Discarded));
    assert!(matches!(server.handle(offer(41, "older")), ServerAction::Discarded));
    assert!(matches!(server.handle(offer(i64::MIN, "oldest")), ServerAction::Discarded));
    assert_eq!(server.adopted(), Some(42));
    assert_eq!(answer_of(&mut server, &["A"]).unwrap().0, songs(&["X"]));
}

#[test]
fn adoption_follows_timestamps_not_arrival() {
    let mut server = RuleServer::new();
    let arrivals: [i64; 8] = [5, 3, 9, 9, 1, 12, 11, -4];
    let mut newest = None;
    for t in arrivals.iter() {
        let before = server.adopted();
        let action = server.handle(offer(*t, &t.to_string()));
        let expect_adoption = match before {
            Some(b) => *t > b,
            None => true,
        };
        assert_eq!(matches!(action, ServerAction::Adopted), expect_adoption);
        assert_eq!(matches!(action, ServerAction::Discarded), !expect_adoption);
        let after = server.adopted();
        assert!(after >= before);
        newest = newest.max(Some(*t));
        assert_eq!(after, newest);
    }
    assert_eq!(server.adopted(), Some(12));
    assert_eq!(answer_of(&mut server, &["A"]).unwrap().0, songs(&["12"]));
}

#[test]
fn first_rules_are_adopted_whatever_their_time() {
    let mut server = RuleServer::new();
    assert!(matches!(server.handle(offer(i64::MIN, "X")), ServerAction::Adopted));
    assert_eq!(server.adopted(), Some(i64::MIN));
}

#[test]
fn hints_and_requests_start_reloads_and_change_nothing() {
    let mut server = RuleServer::new();
    server.handle(offer(7, "X"));
    match server.handle(QueryServerMsg::ReadRules(99)) {
        ServerAction::Reload { trigger, adopted } => {
            assert_eq!(trigger, Trigger::ReadRules(99));
            assert_eq!(adopted, Some(7));
        }
        other => panic!("expected a reload, got {:?}", other),
    }
    match server.handle(QueryServerMsg::WatchedFileChanged(100)) {
        ServerAction::Reload { trigger, adopted } => {
            assert_eq!(trigger, Trigger::WatchedFileChanged(100));
            assert_eq!(adopted, Some(7));
        }
        other => panic!("expected a reload, got {:?}", other),
    }
    assert_eq!(server.adopted(), Some(7));
}

#[test]
fn exit_stops_the_server() {
    let mut server = RuleServer::new();
    assert!(matches!(server.handle(QueryServerMsg::Exit), ServerAction::Stop));
}

#[test]
fn failed_reload_sends_its_trigger_again() {
    assert!(matches!(
        Trigger::WatchedFileChanged(5).retry(),
        (5, QueryServerMsg::WatchedFileChanged(5))
    ));
    assert!(matches!(Trigger::ReadRules(6).retry(), (5, QueryServerMsg::ReadRules(6))));
}

#[test]
fn reload_reads_rules_only_for_a_newer_checkpoint() {
    let content = "0.1.0 data 42\n";
    assert_eq!(check_for_update(content, None), Ok(ReloadStep::ReadRules(42)));
    assert_eq!(check_for_update(content, Some(41)), Ok(ReloadStep::ReadRules(42)));
    assert_eq!(check_for_update(content, Some(42)), Ok(ReloadStep::UpToDate));
    assert_eq!(check_for_update(content, Some(43)), Ok(ReloadStep::UpToDate));
    assert_eq!(check_for_update("0.1.0 data", None), Err(CheckpointError::MissingTimestamp));
    assert_eq!(check_for_update("0.1.0 data x", Some(1)), Err(CheckpointError::InvalidTimestamp));
}

#[test]
fn update_rules_offers_the_index_of_the_rules() {
    let records = vec![
        RuleRecord { antecedent: songs(&["B", "A"]), consequent: "X".to_string() },
        RuleRecord { antecedent: songs(&["A", "B"]), consequent: "Y".to_string() },
    ];
    match update_rules(42, records, 7) {
        QueryServerMsg::NewRules { timestamp, rules_map, when } => {
            assert_eq!(timestamp, 42);
            assert_eq!(when, 7);
            assert_eq!(rules_map.len(), 1);
            assert_eq!(rules_map.get(&songs(&["A", "B"])), Some(&songs(&["X", "Y"])));
        }
        other => panic!("expected new rules, got {:?}", other),
    }
}

#[test]
fn snapshot_label_is_the_utc_time_of_its_timestamp() {
    let snapshot = RuleSnapshot::new(0, small_index("X"));
    assert_eq!(snapshot.timestamp(), 0);
    assert_eq!(snapshot.label(), "1970-01-01 00:00:00");
    assert_eq!(snapshot.index().len(), 1);
    let later = RuleSnapshot::new(1662921288_000_000_000, small_index("X"));
    assert_eq!(later.label(), "2022-09-11 18:34:48");
    let fraction = RuleSnapshot::new(1700000000_123_000_000, small_index("X"));
    assert_eq!(fraction.label(), "2023-11-14 22:13:20.123");
    let early = RuleSnapshot::new(-1, small_index("X"));
    assert_eq!(early.label(), "1969-12-31 23:59:59.999999999");
}

#[test]
fn answer_carries_the_label_of_the_snapshot() {
    let snapshot = RuleSnapshot::new(1662921288_000_000_000, small_index("X"));
    let (found, label) = answer_query(songs(&["A", "Z"]), &snapshot);
    assert_eq!(found, songs(&["X"]));
    assert_eq!(label, "2022-09-11 18:34:48");
    let mut server = RuleServer::new();
    server.handle(offer(1662921288_000_000_000, "X"));
    assert_eq!(server.current().unwrap().label(), "2022-09-11 18:34:48");
    assert_eq!(
        answer_of(&mut server, &["A"]),
        Some((songs(&["X"]), "2022-09-11 18:34:48".to_string()))
    );
}
