//! The life of an actor: one task that owns its state and takes messages from
//! a bounded mailbox until it is cancelled, its mailbox closes, or a handler
//! fails.
//!
//! The loop itself waits and calls handlers, which this module cannot do. It
//! asks `ActorLoop::step` after everything that happens and does what the
//! answer says.

use vstd::prelude::*;

verus! {

/// How many messages a mailbox holds before senders have to wait.
pub const MAILBOX_DEPTH: usize = 8;

/// A message in a mailbox: a call, which carries the slot for its reply, or a
/// cast, which expects none.
#[derive(Debug)]
pub enum Msg<Call, Cast, Slot> {
    Call(Call, Slot),
    Cast(Cast),
}

impl<Call, Cast, Slot> Msg<Call, Cast, Slot> {
    /// Whether the sender waits for a reply.
    pub fn is_call(&self) -> (call: bool)
        ensures
            call == (self is Call),
    {
        match self {
            Msg::Call(_, _) => true,
            Msg::Cast(_) => false,
        }
    }
}

/// Why a call got no reply: the actor's task has ended, or ended before it
/// answered.
#[derive(Clone, Copy, Debug, PartialEq, Eq, Structural)]
pub enum Disconnected {
    /// The mailbox did not take the call.
    NotSent,
    /// The slot for the reply was dropped unfilled.
    NoReply,
}

impl Disconnected {
    /// A sentence for the log.
    pub fn message(&self) -> (text: &'static str)
        ensures
            text@ == match *self {
                Disconnected::NotSent => "Failed to send call to actor"@,
                Disconnected::NoReply => "Failed to receive actor's reply"@,
            },
    {
        match self {
            Disconnected::NotSent => "Failed to send call to actor",
            Disconnected::NoReply => "Failed to receive actor's reply",
        }
    }
}

/// What a call comes to, from whether the mailbox took it and from what came
/// back in the slot for the reply.
pub fn call_outcome<Reply>(sent: bool, reply: Option<Reply>) -> (outcome: Result<
    Reply,
    Disconnected,
>)
    ensures
        outcome == if !sent {
            Err::<Reply, Disconnected>(Disconnected::NotSent)
        } else {
            match reply {
                Some(r) => Ok::<Reply, Disconnected>(r),
                None => Err::<Reply, Disconnected>(Disconnected::NoReply),
            }
        },
{
    if !sent {
        Err(Disconnected::NotSent)
    } else {
        match reply {
            Some(r) => Ok(r),
            None => Err(Disconnected::NoReply),
        }
    }
}

/// Where an actor is in its life.
#[derive(Clone, Copy, Debug, PartialEq, Eq, Structural)]
pub enum Phase {
    /// The task exists; `init` has not returned yet.
    Starting,
    /// Messages are taken and handled, one at a time.
    Running,
    /// The loop has been left; what the actor holds is being released.
    Stopping,
    /// The task has ended.
    Stopped,
}

/// What can happen to an actor.
#[derive(Clone, Copy, Debug, PartialEq, Eq, Structural)]
pub enum LoopEvent {
    /// `init` returned, with or without an error.
    Initialized { ok: bool },
    /// The mailbox handed out a message.
    Received,
    /// The mailbox is closed: no handle to the actor is left.
    Closed,
    /// Cancellation was asked for and won the race at a point where the actor
    /// was waiting.
    Cancelled,
    /// The handler of the message in hand returned, with or without an error.
    Handled { ok: bool },
    /// Everything the actor held has been released.
    Finished,
}

/// What the task is to do next.
#[derive(Clone, Copy, Debug, PartialEq, Eq, Structural)]
pub enum LoopAction {
    /// Call `init` and wait for it to return.
    Init,
    /// Wait for the next message or for cancellation, whichever comes first.
    Wait,
    /// Give the message in hand to its handler and wait for it to return.
    Handle,
    /// Drop the message in hand without handling it.
    Drop,
    /// Release what the actor holds; cancel its children.
    ShutDown,
    /// End the task. `failed` says whether a handler had failed.
    Exit { failed: bool },
    /// Go on as before.
    Nothing,
}

/// The state of the loop: its phase, and whether a handler has failed.
#[derive(Clone, Copy, Debug, PartialEq, Eq, Structural)]
pub struct LoopState {
    pub phase: Phase,
    pub failed: bool,
}

/// The state after `event`.
pub open spec fn next_state(s: LoopState, event: LoopEvent) -> LoopState {
    match (s.phase, event) {
        (Phase::Starting, LoopEvent::Initialized { ok }) => if ok {
            LoopState { phase: Phase::Running, failed: s.failed }
        } else {
            LoopState { phase: Phase::Stopping, failed: true }
        },
        (Phase::Starting, LoopEvent::Cancelled) => LoopState {
            phase: Phase::Stopping,
            failed: s.failed,
        },
        (Phase::Running, LoopEvent::Handled { ok }) => if ok {
            s
        } else {
            LoopState { phase: Phase::Stopping, failed: true }
        },
        (Phase::Running, LoopEvent::Closed) => LoopState {
            phase: Phase::Stopping,
            failed: s.failed,
        },
        (Phase::Running, LoopEvent::Cancelled) => LoopState {
            phase: Phase::Stopping,
            failed: s.failed,
        },
        (Phase::Stopping, LoopEvent::Finished) => LoopState {
            phase: Phase::Stopped,
            failed: s.failed,
        },
        _ => s,
    }
}

/// What the task does after `event`.
pub open spec fn next_action(s: LoopState, event: LoopEvent) -> LoopAction {
    match (s.phase, event) {
        (Phase::Starting, LoopEvent::Initialized { ok }) => if ok {
            LoopAction::Wait
        } else {
            LoopAction::ShutDown
        },
        (Phase::Starting, LoopEvent::Cancelled) => LoopAction::ShutDown,
        (Phase::Running, LoopEvent::Received) => LoopAction::Handle,
        (Phase::Running, LoopEvent::Handled { ok }) => if ok {
            LoopAction::Wait
        } else {
            LoopAction::ShutDown
        },
        (Phase::Running, LoopEvent::Closed) => LoopAction::ShutDown,
        (Phase::Running, LoopEvent::Cancelled) => LoopAction::ShutDown,
        (Phase::Stopping, LoopEvent::Finished) => LoopAction::Exit { failed: s.failed },
        (_, LoopEvent::Received) => LoopAction::Drop,
        _ => LoopAction::Nothing,
    }
}

/// What a task does in a phase while nothing happens to it.
pub open spec fn standing_action(s: LoopState) -> LoopAction {
    match s.phase {
        Phase::Starting => LoopAction::Init,
        Phase::Running => LoopAction::Wait,
        Phase::Stopping => LoopAction::ShutDown,
        Phase::Stopped => LoopAction::Exit { failed: s.failed },
    }
}

/// The loop of one actor.
#[derive(Debug)]
pub struct ActorLoop {
    state: LoopState,
}

impl View for ActorLoop {
    type V = LoopState;

    closed spec fn view(&self) -> LoopState {
        self.state
    }
}

impl ActorLoop {
    /// The loop of an actor whose task has just been started.
    pub fn new() -> (actor: ActorLoop)
        ensures
            actor@ == (LoopState { phase: Phase::Starting, failed: false }),
    {
        ActorLoop { state: LoopState { phase: Phase::Starting, failed: false } }
    }

    /// The phase the actor is in.
    pub fn phase(&self) -> (phase: Phase)
        ensures
            phase == self@.phase,
    {
        self.state.phase
    }

    /// Whether a handler has failed.
    pub fn failed(&self) -> (failed: bool)
        ensures
            failed == self@.failed,
    {
        self.state.failed
    }

    /// What the task is to do while nothing happens: after a message has
    /// been dropped, or when `step` answered `Nothing`.
    pub fn resume(&self) -> (action: LoopAction)
        ensures
            action == standing_action(self@),
    {
        match self.state.phase {
            Phase::Starting => LoopAction::Init,
            Phase::Running => LoopAction::Wait,
            Phase::Stopping => LoopAction::ShutDown,
            Phase::Stopped => LoopAction::Exit { failed: self.state.failed },
        }
    }

    /// Takes note of `event` and says what to do next.
    pub fn step(&mut self, event: LoopEvent) -> (action: LoopAction)
        ensures
            final(self)@ == next_state(old(self)@, event),
            action == next_action(old(self)@, event),
    {
        let phase = self.state.phase;
        let failed = self.state.failed;
        match phase {
            Phase::Starting => match event {
                LoopEvent::Initialized { ok } => {
                    if ok {
                        self.state = LoopState { phase: Phase::Running, failed };
                        LoopAction::Wait
                    } else {
                        self.state = LoopState { phase: Phase::Stopping, failed: true };
                        LoopAction::ShutDown
                    }
                },
                LoopEvent::Cancelled => {
                    self.state = LoopState { phase: Phase::Stopping, failed };
                    LoopAction::ShutDown
                },
                LoopEvent::Received => LoopAction::Drop,
                _ => LoopAction::Nothing,
            },
            Phase::Running => match event {
                LoopEvent::Received => LoopAction::Handle,
                LoopEvent::Handled { ok } => {
                    if ok {
                        LoopAction::Wait
                    } else {
                        self.state = LoopState { phase: Phase::Stopping, failed: true };
                        LoopAction::ShutDown
                    }
                },
                LoopEvent::Closed => {
                    self.state = LoopState { phase: Phase::Stopping, failed };
                    LoopAction::ShutDown
                },
                LoopEvent::Cancelled => {
                    self.state = LoopState { phase: Phase::Stopping, failed };
                    LoopAction::ShutDown
                },
                _ => LoopAction::Nothing,
            },
            Phase::Stopping => match event {
                LoopEvent::Finished => {
                    self.state = LoopState { phase: Phase::Stopped, failed };
                    LoopAction::Exit { failed }
                },
                LoopEvent::Received => LoopAction::Drop,
                _ => LoopAction::Nothing,
            },
            Phase::Stopped => match event {
                LoopEvent::Received => LoopAction::Drop,
                _ => LoopAction::Nothing,
            },
        }
    }
}

/// The state after a sequence of events, the first of them first.
pub open spec fn after_events(s: LoopState, events: Seq<LoopEvent>) -> LoopState
    decreases events.len(),
{
    if events.len() == 0 {
        s
    } else {
        next_state(after_events(s, events.drop_last()), events.last())
    }
}

/// How far an actor has come: phases are passed in one direction only.
pub open spec fn rank(phase: Phase) -> int {
    match phase {
        Phase::Starting => 0,
        Phase::Running => 1,
        Phase::Stopping => 2,
        Phase::Stopped => 3,
    }
}

/// What `step` asks for is to handle or to drop the message in hand, to go
/// on as before, or what belongs to the phase that the actor is then in.
pub proof fn lemma_action_fits_phase(s: LoopState, event: LoopEvent)
    ensures
        next_action(s, event) == LoopAction::Handle || next_action(s, event) == LoopAction::Drop
            || next_action(s, event) == LoopAction::Nothing || next_action(s, event)
            == standing_action(next_state(s, event)),
{
}

/// To cancel twice is to cancel once.
pub proof fn lemma_cancel_idempotent(s: LoopState)
    ensures
        next_state(next_state(s, LoopEvent::Cancelled), LoopEvent::Cancelled) == next_state(
            s,
            LoopEvent::Cancelled,
        ),
{
}

/// An actor that is asked to stop while it waits is on its way out, and once
/// it has released what it held it has stopped.
pub proof fn lemma_cancel_stops(s: LoopState)
    ensures
        rank(next_state(s, LoopEvent::Cancelled).phase) >= 2,
        next_state(next_state(s, LoopEvent::Cancelled), LoopEvent::Finished).phase
            == Phase::Stopped,
{
}

/// A message is handled only while the actor runs; at any other time it is
/// dropped.
pub proof fn lemma_handled_only_when_running(s: LoopState)
    ensures
        next_action(s, LoopEvent::Received) == if s.phase == Phase::Running {
            LoopAction::Handle
        } else {
            LoopAction::Drop
        },
        next_state(s, LoopEvent::Received) == s,
{
}

/// An actor never goes back to an earlier phase, and a failure is never
/// forgotten.
pub proof fn lemma_phases_advance(s: LoopState, events: Seq<LoopEvent>)
    ensures
        rank(after_events(s, events).phase) >= rank(s.phase),
        s.failed ==> after_events(s, events).failed,
    decreases events.len(),
{
    if events.len() > 0 {
        lemma_phases_advance(s, events.drop_last());
    }
}

/// Once an actor has left its loop, no message is handled again, whatever
/// happens afterwards.
pub proof fn lemma_no_handling_after_stop(s: LoopState, events: Seq<LoopEvent>, event: LoopEvent)
    requires
        rank(s.phase) >= 2,
    ensures
        next_action(after_events(s, events), event) != LoopAction::Handle,
{
    lemma_phases_advance(s, events);
}

} // verus!
