use song_recommender::actor::{
    call_outcome, ActorLoop, Disconnected, LoopAction, LoopEvent, Msg, Phase, MAILBOX_DEPTH,
};
use song_recommender::index::{make_rules_map, RuleRecord};
use song_recommender::server::{QueryServerMsg, ServerAction, Service};

fn new_rules(timestamp: i64) -> QueryServerMsg {
    let rules = vec![RuleRecord {
        antecedent: vec!["A".to_string()],
        consequent: timestamp.to_string(),
    }];
    QueryServerMsg::NewRules { timestamp, rules_map: make_rules_map(rules), when: 0 }
}

fn running_service() -> Service {
    let mut service = Service::new();
    assert_eq!(service.notice(LoopEvent::Initialized { ok: true }), LoopAction::Wait);
    service
}

#[test]
fn mailbox_holds_eight_messages() {
    assert_eq!(MAILBOX_DEPTH, 8);
}

#[test]
fn messages_are_calls_or_casts() {
    let call: Msg<u8, u8, ()> = Msg::Call(1, ());
    let cast: Msg<u8, u8, ()> = Msg::Cast(2);
    assert!(call.is_call());
    assert!(!cast.is_call());
}

#[test]
fn actor_goes_through_its_phases() {
    let mut actor = ActorLoop::new();
    assert_eq!(actor.phase(), Phase::Starting);
    assert_eq!(actor.step(LoopEvent::Initialized { ok: true }), LoopAction::Wait);
    assert_eq!(actor.phase(), Phase::Running);
    assert_eq!(actor.step(LoopEvent::Received), LoopAction::Handle);
    assert_eq!(actor.step(LoopEvent::Handled { ok: true }), LoopAction::Wait);
    assert_eq!(actor.phase(), Phase::Running);
    assert_eq!(actor.step(LoopEvent::Cancelled), LoopAction::ShutDown);
    assert_eq!(actor.phase(), Phase::Stopping);
    assert_eq!(actor.step(LoopEvent::Finished), LoopAction::Exit { failed: false });
    assert_eq!(actor.phase(), Phase::Stopped);
    assert!(!actor.failed());
}

#[test]
fn handler_error_stops_the_actor_with_a_failure() {
    let mut actor = ActorLoop::new();
    actor.step(LoopEvent::Initialized { ok: true });
    actor.step(LoopEvent::Received);
    assert_eq!(actor.step(LoopEvent::Handled { ok: false }), LoopAction::ShutDown);
    assert_eq!(actor.phase(), Phase::Stopping);
    assert!(actor.failed());
    assert_eq!(actor.step(LoopEvent::Finished), LoopAction::Exit { failed: true });
    assert_eq!(actor.phase(), Phase::Stopped);
}

#[test]
fn failing_init_stops_the_actor_before_it_runs() {
    let mut actor = ActorLoop::new();
    assert_eq!(actor.step(LoopEvent::Initialized { ok: false }), LoopAction::ShutDown);
    assert_eq!(actor.phase(), Phase::Stopping);
    assert!(actor.failed());
    assert_eq!(actor.step(LoopEvent::Received), LoopAction::Drop);
}

#[test]
fn closed_mailbox_stops_the_actor() {
    let mut actor = ActorLoop::new();
    actor.step(LoopEvent::Initialized { ok: true });
    assert_eq!(actor.step(LoopEvent::Closed), LoopAction::ShutDown);
    assert_eq!(actor.phase(), Phase::Stopping);
    assert!(!actor.failed());
}

#[test]
fn cancel_is_idempotent() {
    let mut actor = ActorLoop::new();
    actor.step(LoopEvent::Initialized { ok: true });
    assert_eq!(actor.step(LoopEvent::Cancelled), LoopAction::ShutDown);
    let phase = actor.phase();
    assert_eq!(actor.step(LoopEvent::Cancelled), LoopAction::Nothing);
    assert_eq!(actor.phase(), phase);
    assert_eq!(actor.step(LoopEvent::Cancelled), LoopAction::Nothing);
    assert_eq!(actor.phase(), Phase::Stopping);
}

#[test]
fn cancel_before_start_stops_the_actor() {
    let mut actor = ActorLoop::new();
    assert_eq!(actor.step(LoopEvent::Received), LoopAction::Drop);
    assert_eq!(actor.step(LoopEvent::Cancelled), LoopAction::ShutDown);
    assert_eq!(actor.step(LoopEvent::Initialized { ok: true }), LoopAction::Nothing);
    assert_eq!(actor.phase(), Phase::Stopping);
}

#[test]
fn stopped_actor_stays_stopped() {
    let mut actor = ActorLoop::new();
    actor.step(LoopEvent::Cancelled);
    actor.step(LoopEvent::Finished);
    let events = [
        LoopEvent::Initialized { ok: true },
        LoopEvent::Received,
        LoopEvent::Closed,
        LoopEvent::Cancelled,
        LoopEvent::Handled { ok: true },
        LoopEvent::Handled { ok: false },
        LoopEvent::Finished,
    ];
    for event in events.iter() {
        let action = actor.step(*event);
        assert!(action == LoopAction::Nothing || action == LoopAction::Drop);
        assert_eq!(actor.phase(), Phase::Stopped);
        assert!(!actor.failed());
    }
}

#[test]
fn cancelled_service_adopts_nothing_and_exits() {
    let mut service = running_service();
    assert!(matches!(service.deliver(new_rules(1)), Some(ServerAction::Adopted)));
    // A reload is under way when the service is cancelled.
    assert!(matches!(
        service.deliver(QueryServerMsg::WatchedFileChanged(5)),
        Some(ServerAction::Reload { .. })
    ));
    assert_eq!(service.notice(LoopEvent::Cancelled), LoopAction::ShutDown);
    // The reload delivers its snapshot afterwards.
    assert!(service.deliver(new_rules(2)).is_none());
    assert_eq!(service.server().adopted(), Some(1));
    assert!(service.deliver(QueryServerMsg::Query(vec!["A".to_string()])).is_none());
    // The loop exits.
    assert_eq!(service.notice(LoopEvent::Finished), LoopAction::Exit { failed: false });
    assert_eq!(service.phase(), Phase::Stopped);
    assert!(service.deliver(new_rules(3)).is_none());
    assert_eq!(service.server().adopted(), Some(1));
}

#[test]
fn service_handles_messages_only_while_running() {
    let mut service = Service::new();
    assert_eq!(service.phase(), Phase::Starting);
    assert!(service.deliver(new_rules(1)).is_none());
    assert_eq!(service.server().adopted(), None);
    assert_eq!(service.notice(LoopEvent::Initialized { ok: true }), LoopAction::Wait);
    assert!(matches!(service.deliver(new_rules(1)), Some(ServerAction::Adopted)));
    assert!(matches!(service.deliver(new_rules(1)), Some(ServerAction::Discarded)));
    assert_eq!(service.phase(), Phase::Running);
    assert_eq!(service.server().adopted(), Some(1));
}

#[test]
fn exit_message_ends_the_service() {
    let mut service = running_service();
    assert!(matches!(service.deliver(QueryServerMsg::Exit), Some(ServerAction::Stop)));
    assert_eq!(service.phase(), Phase::Stopping);
    assert!(service.deliver(new_rules(9)).is_none());
    assert_eq!(service.server().adopted(), None);
}

#[test]
fn call_fails_when_the_actor_is_gone() {
    assert_eq!(call_outcome(true, Some(5)), Ok(5));
    assert_eq!(call_outcome(false, Some(5)), Err(Disconnected::NotSent));
    assert_eq!(call_outcome::<u8>(false, None), Err(Disconnected::NotSent));
    assert_eq!(call_outcome::<u8>(true, None), Err(Disconnected::NoReply));
    assert_eq!(Disconnected::NotSent.message(), "Failed to send call to actor");
    assert_eq!(Disconnected::NoReply.message(), "Failed to receive actor's reply");
}

#[test]
fn resume_says_what_belongs_to_the_phase() {
    let mut actor = ActorLoop::new();
    assert_eq!(actor.resume(), LoopAction::Init);
    actor.step(LoopEvent::Initialized { ok: true });
    assert_eq!(actor.resume(), LoopAction::Wait);
    actor.step(LoopEvent::Received);
    actor.step(LoopEvent::Handled { ok: false });
    assert_eq!(actor.resume(), LoopAction::ShutDown);
    actor.step(LoopEvent::Finished);
    assert_eq!(actor.resume(), LoopAction::Exit { failed: true });
}
