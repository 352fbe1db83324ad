//! The rule server: it owns the current snapshot, answers queries from it,
//! and decides when a snapshot built by a reload is adopted.
//!
//! The server is written as a function from its state and a message to its
//! next state and an action. Whoever runs the mailbox performs the action:
//! sends the reply, starts the reload, or puts a message back after a delay.

use vstd::prelude::*;
use crate::actor::{
    next_action, next_state, rank, ActorLoop, LoopAction, LoopEvent, LoopState, Phase,
};
use crate::checkpoint::{checkpoint_timestamp, timestamp_of, CheckpointError};
use crate::index::{make_rules_map, rule_views, rules_map, RuleIndex, RuleRecord};
use crate::query::{recommend, recommend_songs};
use crate::snapshot::{snapshot_of, RuleSnapshot, SnapshotView};
use crate::text::texts;

verus! {

/// How long a failed reload or a query that came too early waits before it is
/// tried again, in seconds.
pub const RETRY_SECONDS: u64 = 5;

/// What may start a reload: a hint that the checkpoint file changed, or a
/// request to read the rules again. Either carries the instant at which it
/// arose, and means no more than "go and look".
#[derive(Clone, Copy, Debug, PartialEq, Eq, Structural)]
pub enum Trigger {
    WatchedFileChanged(u64),
    ReadRules(u64),
}

/// The messages of the rule server.
#[derive(Debug)]
pub enum QueryServerMsg {
    /// Which songs go with these?
    Query(Vec<String>),
    /// The checkpoint file may have changed.
    WatchedFileChanged(u64),
    /// A reload has built rules for the checkpoint written at `timestamp`.
    NewRules { timestamp: i64, rules_map: RuleIndex, when: u64 },
    /// Look at the checkpoint and the rules again.
    ReadRules(u64),
    /// Stop serving.
    Exit,
}

/// What a message says.
pub enum MsgView {
    Query(Seq<Seq<char>>),
    WatchedFileChanged(u64),
    NewRules { timestamp: i64, rules_map: Map<Seq<Seq<char>>, Set<Seq<char>>>, when: u64 },
    ReadRules(u64),
    Exit,
}

impl View for QueryServerMsg {
    type V = MsgView;

    open spec fn view(&self) -> MsgView {
        match *self {
            QueryServerMsg::Query(q) => MsgView::Query(texts(q@)),
            QueryServerMsg::WatchedFileChanged(when) => MsgView::WatchedFileChanged(when),
            QueryServerMsg::NewRules { timestamp, rules_map, when } => MsgView::NewRules {
                timestamp,
                rules_map: rules_map@,
                when,
            },
            QueryServerMsg::ReadRules(when) => MsgView::ReadRules(when),
            QueryServerMsg::Exit => MsgView::Exit,
        }
    }
}

impl Trigger {
    /// What is done about a reload that failed: after `RETRY_SECONDS` the
    /// message that started it is sent to the server again, as it was.
    pub fn retry(self) -> (again: (u64, QueryServerMsg))
        ensures
            again.0 == RETRY_SECONDS,
            again.1@ == match self {
                Trigger::WatchedFileChanged(when) => MsgView::WatchedFileChanged(when),
                Trigger::ReadRules(when) => MsgView::ReadRules(when),
            },
    {
        match self {
            Trigger::WatchedFileChanged(when) => (
                RETRY_SECONDS,
                QueryServerMsg::WatchedFileChanged(when),
            ),
            Trigger::ReadRules(when) => (RETRY_SECONDS, QueryServerMsg::ReadRules(when)),
        }
    }
}

/// What the mailbox loop is to do after a message.
#[derive(Debug)]
pub enum ServerAction {
    /// Answer the query with these songs and the label of the snapshot.
    Reply { songs: Vec<String>, label: String },
    /// No snapshot yet: send the query to the server again after `seconds`,
    /// and keep its caller waiting.
    Defer { query: Vec<String>, seconds: u64 },
    /// Start a reload on a task of its own. `adopted` is the time of the
    /// snapshot in use, if there is one.
    Reload { trigger: Trigger, adopted: Option<i64> },
    /// The snapshot was replaced.
    Adopted,
    /// The rules offered were not newer than the snapshot in use.
    Discarded,
    /// Leave the loop.
    Stop,
}

/// What an action says. The songs of a reply are a set: their order means nothing.
pub enum ActionView {
    Reply { songs: Set<Seq<char>>, label: Seq<char> },
    Defer { query: Seq<Seq<char>>, seconds: u64 },
    Reload { trigger: Trigger, adopted: Option<i64> },
    Adopted,
    Discarded,
    Stop,
}

impl View for ServerAction {
    type V = ActionView;

    open spec fn view(&self) -> ActionView {
        match *self {
            ServerAction::Reply { songs, label } => ActionView::Reply {
                songs: texts(songs@).to_set(),
                label: label@,
            },
            ServerAction::Defer { query, seconds } => ActionView::Defer {
                query: texts(query@),
                seconds,
            },
            ServerAction::Reload { trigger, adopted } => ActionView::Reload { trigger, adopted },
            ServerAction::Adopted => ActionView::Adopted,
            ServerAction::Discarded => ActionView::Discarded,
            ServerAction::Stop => ActionView::Stop,
        }
    }
}

/// The time of the snapshot in use, if there is one.
pub open spec fn adopted_time(current: Option<SnapshotView>) -> Option<i64> {
    match current {
        Some(s) => Some(s.timestamp),
        None => None,
    }
}

/// Whether rules for a checkpoint written at `timestamp` are newer than what
/// is in use: there is no snapshot yet, or its time is strictly earlier.
pub open spec fn is_newer(timestamp: i64, adopted: Option<i64>) -> bool {
    match adopted {
        Some(t) => timestamp > t,
        None => true,
    }
}

/// The snapshot in use after a message.
pub open spec fn next_snapshot(current: Option<SnapshotView>, msg: MsgView) -> Option<
    SnapshotView,
> {
    match msg {
        MsgView::NewRules { timestamp, rules_map, when } => if is_newer(
            timestamp,
            adopted_time(current),
        ) {
            Some(snapshot_of(timestamp, rules_map))
        } else {
            current
        },
        _ => current,
    }
}

/// The action that a message calls for.
pub open spec fn reaction(current: Option<SnapshotView>, msg: MsgView) -> ActionView {
    match msg {
        MsgView::Query(q) => match current {
            Some(s) => ActionView::Reply { songs: recommend(q, s.index), label: s.label },
            None => ActionView::Defer { query: q, seconds: RETRY_SECONDS },
        },
        MsgView::WatchedFileChanged(when) => ActionView::Reload {
            trigger: Trigger::WatchedFileChanged(when),
            adopted: adopted_time(current),
        },
        MsgView::ReadRules(when) => ActionView::Reload {
            trigger: Trigger::ReadRules(when),
            adopted: adopted_time(current),
        },
        MsgView::NewRules { timestamp, rules_map, when } => if is_newer(
            timestamp,
            adopted_time(current),
        ) {
            ActionView::Adopted
        } else {
            ActionView::Discarded
        },
        MsgView::Exit => ActionView::Stop,
    }
}

/// The state of the rule server: the snapshot in use, or none before the
/// first one has been loaded.
#[derive(Debug)]
pub struct RuleServer {
    current: Option<RuleSnapshot>,
}

impl View for RuleServer {
    type V = Option<SnapshotView>;

    closed spec fn view(&self) -> Option<SnapshotView> {
        match self.current {
            Some(s) => Some(s@),
            None => None,
        }
    }
}

/// Answers `query` from `snapshot`: the recommended songs, each once, and the
/// label of the snapshot.
pub fn answer_query(query: Vec<String>, snapshot: &RuleSnapshot) -> (answer: (Vec<String>, String))
    ensures
        texts(answer.0@).to_set() == recommend(texts(query@), snapshot@.index),
        texts(answer.0@).no_duplicates(),
        answer.1@ == snapshot@.label,
{
    let songs = recommend_songs(query, snapshot.index());
    let label = snapshot.label().to_owned();
    (songs, label)
}

impl RuleServer {
    /// A server that has not loaded any rules yet.
    pub fn new() -> (server: RuleServer)
        ensures
            server@ is None,
    {
        RuleServer { current: None }
    }

    /// The hint that a server sends to itself when it starts, so that the
    /// first reload begins without waiting for the file to change.
    pub fn startup(now: u64) -> (msg: QueryServerMsg)
        ensures
            msg@ == MsgView::WatchedFileChanged(now),
    {
        QueryServerMsg::WatchedFileChanged(now)
    }

    /// The time of the snapshot in use, if there is one.
    pub fn adopted(&self) -> (time: Option<i64>)
        ensures
            time == adopted_time(self@),
    {
        match &self.current {
            Some(s) => Some(s.timestamp()),
            None => None,
        }
    }

    /// The snapshot in use, if there is one.
    pub fn current(&self) -> (snapshot: Option<&RuleSnapshot>)
        ensures
            match snapshot {
                Some(s) => self@ == Some(s@),
                None => self@ is None,
            },
    {
        self.current.as_ref()
    }

    /// Takes one message. Only rules that are strictly newer than the snapshot
    /// in use replace it; every other message leaves the snapshot as it is.
    pub fn handle(&mut self, msg: QueryServerMsg) -> (action: ServerAction)
        ensures
            final(self)@ == next_snapshot(old(self)@, msg@),
            action@ == reaction(old(self)@, msg@),
            action matches ServerAction::Reply { songs, .. } ==> texts(songs@).no_duplicates(),
    {
        match msg {
            QueryServerMsg::Query(query) => match &self.current {
                Some(snapshot) => {
                    let (songs, label) = answer_query(query, snapshot);
                    ServerAction::Reply { songs, label }
                },
                None => ServerAction::Defer { query, seconds: RETRY_SECONDS },
            },
            QueryServerMsg::WatchedFileChanged(when) => ServerAction::Reload {
                trigger: Trigger::WatchedFileChanged(when),
                adopted: self.adopted(),
            },
            QueryServerMsg::ReadRules(when) => ServerAction::Reload {
                trigger: Trigger::ReadRules(when),
                adopted: self.adopted(),
            },
            QueryServerMsg::NewRules { timestamp, rules_map, when } => {
                let newer = match self.adopted() {
                    Some(t) => timestamp > t,
                    None => true,
                };
                if newer {
                    self.current = Some(RuleSnapshot::new(timestamp, rules_map));
                    ServerAction::Adopted
                } else {
                    ServerAction::Discarded
                }
            },
            QueryServerMsg::Exit => ServerAction::Stop,
        }
    }
}

/// What a reload does once it has read the checkpoint.
#[derive(Clone, Copy, Debug, PartialEq, Eq, Structural)]
pub enum ReloadStep {
    /// The checkpoint is not newer than the snapshot in use: nothing more is
    /// read, and nothing is sent.
    UpToDate,
    /// The checkpoint was written at this time, later than the snapshot in
    /// use: read the rules file and offer its rules to the server.
    ReadRules(i64),
}

/// The first step of a reload, from the content of the checkpoint file and the
/// time of the snapshot in use.
pub open spec fn reload_step(content: Seq<char>, adopted: Option<i64>) -> Result<
    ReloadStep,
    CheckpointError,
> {
    match timestamp_of(content) {
        Ok(t) => if is_newer(t, adopted) {
            Ok(ReloadStep::ReadRules(t))
        } else {
            Ok(ReloadStep::UpToDate)
        },
        Err(e) => Err(e),
    }
}

/// Decides from the checkpoint whether the rules are to be read again.
pub fn check_for_update(content: &str, adopted: Option<i64>) -> (step: Result<
    ReloadStep,
    CheckpointError,
>)
    ensures
        step == reload_step(content@, adopted),
{
    match checkpoint_timestamp(content) {
        Ok(t) => {
            let newer = match adopted {
                Some(a) => t > a,
                None => true,
            };
            if newer {
                Ok(ReloadStep::ReadRules(t))
            } else {
                Ok(ReloadStep::UpToDate)
            }
        },
        Err(e) => Err(e),
    }
}

/// The second step of a reload: builds the index of the rules read and the
/// message that offers it to the server.
pub fn update_rules(timestamp: i64, rules: Vec<RuleRecord>, when: u64) -> (msg: QueryServerMsg)
    ensures
        msg@ == (MsgView::NewRules {
            timestamp,
            rules_map: rules_map(rule_views(rules@)),
            when,
        }),
{
    let rules_map = make_rules_map(rules);
    QueryServerMsg::NewRules { timestamp, rules_map, when }
}

/// The snapshot in use after a sequence of messages, the first of them first.
pub open spec fn after_all(current: Option<SnapshotView>, msgs: Seq<MsgView>) -> Option<
    SnapshotView,
>
    decreases msgs.len(),
{
    if msgs.len() == 0 {
        current
    } else {
        next_snapshot(after_all(current, msgs.drop_last()), msgs.last())
    }
}

/// Whether `later` is at least as recent as `earlier`: a snapshot is never
/// lost, and its time never goes back.
pub open spec fn not_older(earlier: Option<SnapshotView>, later: Option<SnapshotView>) -> bool {
    match earlier {
        Some(e) => later is Some && later->0.timestamp >= e.timestamp,
        None => true,
    }
}

/// Whatever messages arrive, and in whatever order reloads finish, the time of
/// the snapshot in use never goes back.
pub proof fn lemma_adoption_monotonic(current: Option<SnapshotView>, msgs: Seq<MsgView>)
    ensures
        not_older(current, after_all(current, msgs)),
    decreases msgs.len(),
{
    if msgs.len() > 0 {
        lemma_adoption_monotonic(current, msgs.drop_last());
    }
}

/// Between any two points of a run the time of the snapshot does not go back.
pub proof fn lemma_adoption_monotonic_between(
    current: Option<SnapshotView>,
    msgs: Seq<MsgView>,
    n: int,
)
    requires
        0 <= n <= msgs.len(),
    ensures
        not_older(after_all(current, msgs.take(n)), after_all(current, msgs)),
    decreases msgs.len() - n,
{
    if n == msgs.len() {
        assert(msgs.take(n) =~= msgs);
    } else {
        lemma_adoption_monotonic_between(current, msgs, n + 1);
        assert(msgs.take(n + 1).drop_last() =~= msgs.take(n));
    }
}

/// A checkpoint whose time is that of the snapshot in use starts nothing: the
/// reload ends after its first step, and rules offered for that time are
/// discarded without touching the snapshot.
pub proof fn lemma_unchanged_checkpoint_is_noop(
    current: SnapshotView,
    content: Seq<char>,
    rules: Map<Seq<Seq<char>>, Set<Seq<char>>>,
    when: u64,
)
    requires
        timestamp_of(content) == Ok::<i64, CheckpointError>(current.timestamp),
    ensures
        reload_step(content, Some(current.timestamp)) == Ok::<ReloadStep, CheckpointError>(
            ReloadStep::UpToDate,
        ),
        next_snapshot(
            Some(current),
            MsgView::NewRules { timestamp: current.timestamp, rules_map: rules, when },
        ) == Some(current),
        reaction(
            Some(current),
            MsgView::NewRules { timestamp: current.timestamp, rules_map: rules, when },
        ) == ActionView::Discarded,
{
}

/// The rule server in its mailbox loop.
#[derive(Debug)]
pub struct Service {
    mailbox: ActorLoop,
    server: RuleServer,
}

/// What a service is: where its loop stands, and the snapshot in use.
pub struct ServiceView {
    pub mailbox: LoopState,
    pub current: Option<SnapshotView>,
}

/// What can happen to a service: a message is taken from its mailbox, or
/// something happens to its loop.
pub enum ServiceStep {
    Deliver(MsgView),
    Notice(LoopEvent),
}

/// The service after a message has been taken from its mailbox. A service
/// that is not running drops the message. `Exit` makes a running service
/// leave its loop as cancellation does.
pub open spec fn after_delivery(v: ServiceView, msg: MsgView) -> ServiceView {
    if v.mailbox.phase == Phase::Running {
        ServiceView {
            mailbox: if msg is Exit {
                next_state(v.mailbox, LoopEvent::Cancelled)
            } else {
                v.mailbox
            },
            current: next_snapshot(v.current, msg),
        }
    } else {
        v
    }
}

/// The service after one step.
pub open spec fn after_step(v: ServiceView, step: ServiceStep) -> ServiceView {
    match step {
        ServiceStep::Deliver(msg) => after_delivery(v, msg),
        ServiceStep::Notice(event) => ServiceView {
            mailbox: next_state(v.mailbox, event),
            current: v.current,
        },
    }
}

/// The service after a sequence of steps, the first of them first.
pub open spec fn after_steps(v: ServiceView, steps: Seq<ServiceStep>) -> ServiceView
    decreases steps.len(),
{
    if steps.len() == 0 {
        v
    } else {
        after_step(after_steps(v, steps.drop_last()), steps.last())
    }
}

impl View for Service {
    type V = ServiceView;

    closed spec fn view(&self) -> ServiceView {
        ServiceView { mailbox: self.mailbox@, current: self.server@ }
    }
}

impl Service {
    /// A service whose task has just been started and holds no snapshot.
    pub fn new() -> (service: Service)
        ensures
            service@.mailbox == (LoopState { phase: Phase::Starting, failed: false }),
            service@.current is None,
    {
        Service { mailbox: ActorLoop::new(), server: RuleServer::new() }
    }

    /// The phase of the loop.
    pub fn phase(&self) -> (phase: Phase)
        ensures
            phase == self@.mailbox.phase,
    {
        self.mailbox.phase()
    }

    /// The server.
    pub fn server(&self) -> (server: &RuleServer)
        ensures
            server@ == self@.current,
    {
        &self.server
    }

    /// Takes note of something that happened to the loop. The snapshot is
    /// left alone.
    pub fn notice(&mut self, event: LoopEvent) -> (action: LoopAction)
        ensures
            final(self)@ == after_step(old(self)@, ServiceStep::Notice(event)),
            action == next_action(old(self)@.mailbox, event),
    {
        self.mailbox.step(event)
    }

    /// Takes a message from the mailbox. A running service handles it and
    /// returns what is to be done; at any other time the message is dropped
    /// and `None` is returned.
    pub fn deliver(&mut self, msg: QueryServerMsg) -> (action: Option<ServerAction>)
        ensures
            final(self)@ == after_delivery(old(self)@, msg@),
            match action {
                Some(a) => old(self)@.mailbox.phase == Phase::Running && a@ == reaction(
                    old(self)@.current,
                    msg@,
                ) && (a matches ServerAction::Reply { songs, .. } ==> texts(
                    songs@,
                ).no_duplicates()),
                None => old(self)@.mailbox.phase != Phase::Running,
            },
    {
        match self.mailbox.step(LoopEvent::Received) {
            LoopAction::Handle => {
                let action = self.server.handle(msg);
                match action {
                    ServerAction::Stop => {
                        self.mailbox.step(LoopEvent::Cancelled);
                    },
                    _ => {
                        self.mailbox.step(LoopEvent::Handled { ok: true });
                    },
                }
                Some(action)
            },
            _ => None,
        }
    }
}

/// A service that has left its loop keeps its snapshot: rules that arrive
/// after cancellation are never adopted, whatever else happens, and the
/// service does not return to its loop.
pub proof fn lemma_nothing_adopted_after_cancel(v: ServiceView, steps: Seq<ServiceStep>)
    requires
        rank(v.mailbox.phase) >= 2,
    ensures
        after_steps(v, steps).current == v.current,
        rank(after_steps(v, steps).mailbox.phase) >= 2,
    decreases steps.len(),
{
    if steps.len() > 0 {
        lemma_nothing_adopted_after_cancel(v, steps.drop_last());
    }
}

/// Whatever happens to a service, the time of its snapshot never goes back.
pub proof fn lemma_service_monotonic(v: ServiceView, steps: Seq<ServiceStep>)
    ensures
        not_older(v.current, after_steps(v, steps).current),
    decreases steps.len(),
{
    if steps.len() > 0 {
        lemma_service_monotonic(v, steps.drop_last());
    }
}

} // verus!
