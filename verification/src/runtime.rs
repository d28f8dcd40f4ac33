//! The life of a turn: what is submitted, what steers it, what waits behind it, and how it ends.

use crate::history;
use crate::history::{AgentHistory, EntryView};
use crate::message;
use crate::message::{InputMessage, MessageView};
use std::collections::VecDeque;
use vstd::prelude::*;

verus! {

#[derive(Debug, Clone, Copy, PartialEq, Eq, Structural)]
pub enum SubmitError {
    Busy,
}

#[derive(Debug, Clone, Copy, PartialEq, Eq, Structural)]
pub enum DeliveryIntent {
    Submit,
    Steer,
    Queue,
}

#[derive(Debug, Clone, Copy, PartialEq, Eq, Structural)]
pub enum DeliveryResult {
    Submitted,
    Steered,
    Queued,
}

#[derive(Debug, Clone, Copy, PartialEq, Eq, Structural)]
pub enum RuntimeTurnSnapshot {
    Idle,
    Running,
    Paused,
    Preempting,
    PendingAck,
    Failed,
}

#[derive(Debug, Clone, Copy, PartialEq, Eq, Structural)]
pub struct RuntimeBusy;

impl RuntimeBusy {
    pub fn message(&self) -> (message: &'static str)
        ensures
            message@ == "runtime is busy"@,
    {
        "runtime is busy"
    }
}

#[derive(Debug, PartialEq, Eq)]
pub enum RuntimeControlError {
    NoActiveTurn,
    Agent(String),
}

pub open spec fn control_error_text(error: RuntimeControlError) -> Seq<char> {
    match error {
        RuntimeControlError::NoActiveTurn => "no active turn"@,
        RuntimeControlError::Agent(message) => message@,
    }
}

impl RuntimeControlError {
    pub fn message(&self) -> (message: String)
        ensures
            message@ == control_error_text(*self),
    {
        match self {
            RuntimeControlError::NoActiveTurn => "no active turn".to_owned(),
            RuntimeControlError::Agent(message) => message.clone(),
        }
    }
}

/// Inputs that wait for the turn to end, and the channel on which their own turn reports.
#[derive(Debug)]
pub struct QueuedInputBatch {
    pub inputs: Vec<InputMessage>,
    pub channel: u64,
}

/// Inputs that wait, with their texts.
pub struct BatchView {
    pub inputs: Seq<MessageView>,
    pub channel: u64,
}

impl View for QueuedInputBatch {
    type V = BatchView;

    open spec fn view(&self) -> BatchView {
        BatchView { inputs: message::message_views(self.inputs@), channel: self.channel }
    }
}

pub open spec fn batch_views(batches: Seq<QueuedInputBatch>) -> Seq<BatchView> {
    Seq::new(batches.len(), |i: int| batches[i]@)
}

/// Where a turn is in its life.
#[derive(Debug)]
pub enum RuntimeTurn {
    Idle,
    Ready { history: AgentHistory },
    Running { abort_requested: bool, pending_steers: VecDeque<InputMessage> },
    PendingAck { history: AgentHistory },
    Failed { history: AgentHistory },
}

/// Where a turn is, with its texts.
pub enum TurnView {
    Idle,
    Ready(Seq<EntryView>),
    Running { abort_requested: bool, pending_steers: Seq<MessageView> },
    PendingAck(Seq<EntryView>),
    Failed(Seq<EntryView>),
}

impl View for RuntimeTurn {
    type V = TurnView;

    open spec fn view(&self) -> TurnView {
        match self {
            RuntimeTurn::Idle => TurnView::Idle,
            RuntimeTurn::Ready { history } => TurnView::Ready(history@),
            RuntimeTurn::Running { abort_requested, pending_steers } => TurnView::Running {
                abort_requested: *abort_requested,
                pending_steers: message::message_views(pending_steers@),
            },
            RuntimeTurn::PendingAck { history } => TurnView::PendingAck(history@),
            RuntimeTurn::Failed { history } => TurnView::Failed(history@),
        }
    }
}

/// What a turn starts with, and what the session falls back to when the turn fails.
#[derive(Debug)]
pub struct TurnStart {
    pub history: AgentHistory,
    pub rollback: AgentHistory,
}

/// What has to be done for an input that was taken.
#[derive(Debug)]
pub enum DeliveryAction {
    Start(TurnStart),
    Push(InputMessage),
    Wait,
}

impl DeliveryAction {
    pub open spec fn spec_result(&self) -> DeliveryResult {
        match self {
            DeliveryAction::Start(_) => DeliveryResult::Submitted,
            DeliveryAction::Push(_) => DeliveryResult::Steered,
            DeliveryAction::Wait => DeliveryResult::Queued,
        }
    }

    pub fn result(&self) -> (result: DeliveryResult)
        ensures
            result == self.spec_result(),
    {
        match self {
            DeliveryAction::Start(_) => DeliveryResult::Submitted,
            DeliveryAction::Push(_) => DeliveryResult::Steered,
            DeliveryAction::Wait => DeliveryResult::Queued,
        }
    }
}

/// A turn that starts with inputs that had waited for it.
#[derive(Debug)]
pub struct QueuedStart {
    pub start: TurnStart,
    pub batch: QueuedInputBatch,
}

/// The session: the turn that it is in, and the inputs that wait for the next ones.
#[derive(Debug)]
pub struct AgentRuntime {
    pub turn: RuntimeTurn,
    pub queue: VecDeque<QueuedInputBatch>,
}

/// The session, with its texts.
pub struct RuntimeView {
    pub turn: TurnView,
    pub queue: Seq<BatchView>,
}

impl View for AgentRuntime {
    type V = RuntimeView;

    open spec fn view(&self) -> RuntimeView {
        RuntimeView { turn: self.turn@, queue: batch_views(self.queue@) }
    }
}

impl RuntimeView {
    pub open spec fn with_turn(self, turn: TurnView) -> RuntimeView {
        RuntimeView { turn, ..self }
    }

    /// A turn is on its way, or its end has not been acknowledged.
    pub open spec fn busy(self) -> bool {
        !(self.turn is Idle || self.turn is Ready)
    }

    /// A turn that has just started.
    pub open spec fn started(self) -> RuntimeView {
        self.with_turn(
            TurnView::Running { abort_requested: false, pending_steers: Seq::empty() },
        )
    }

    /// One more input that waits, with a batch of its own.
    pub open spec fn with_queued(self, input: MessageView, channel: u64) -> RuntimeView {
        RuntimeView {
            queue: self.queue.push(BatchView { inputs: seq![input], channel }),
            ..self
        }
    }

    /// One more input for the turn that runs.
    pub open spec fn with_steer(self, input: MessageView) -> RuntimeView {
        match self.turn {
            TurnView::Running { abort_requested, pending_steers } => self.with_turn(
                TurnView::Running { abort_requested, pending_steers: pending_steers.push(input) },
            ),
            _ => self,
        }
    }

    /// The steers that the turn has not taken up.
    pub open spec fn steers(self) -> Seq<MessageView> {
        match self.turn {
            TurnView::Running { pending_steers, .. } => pending_steers,
            _ => Seq::empty(),
        }
    }

    /// The oldest steer has been taken up.
    pub open spec fn with_steer_committed(self) -> RuntimeView {
        match self.turn {
            TurnView::Running { abort_requested, pending_steers } => if pending_steers.len() > 0 {
                self.with_turn(
                    TurnView::Running {
                        abort_requested,
                        pending_steers: pending_steers.drop_first(),
                    },
                )
            } else {
                self
            },
            _ => self,
        }
    }

    /// The steers that the turn has not taken up wait in one batch ahead of all others.
    pub open spec fn with_steers_requeued(self, channel: u64) -> RuntimeView {
        match self.turn {
            TurnView::Running { abort_requested, pending_steers } => if pending_steers.len() > 0 {
                RuntimeView {
                    turn: TurnView::Running { abort_requested, pending_steers: Seq::empty() },
                    queue: seq![BatchView { inputs: pending_steers, channel }] + self.queue,
                }
            } else {
                self
            },
            _ => self,
        }
    }

    /// Whether the turn that runs has been asked to stop.
    pub open spec fn abort_asked(self) -> bool {
        self.turn matches TurnView::Running { abort_requested, .. } && abort_requested
    }

    /// The turn that runs has been asked to stop.
    pub open spec fn with_abort(self) -> RuntimeView {
        match self.turn {
            TurnView::Running { pending_steers, .. } => self.with_turn(
                TurnView::Running { abort_requested: true, pending_steers },
            ),
            _ => self,
        }
    }

    /// The end of a turn has been acknowledged: the next batch starts, if one waits.
    pub open spec fn after_success(self, history: Seq<EntryView>) -> RuntimeView {
        if self.queue.len() > 0 {
            RuntimeView { queue: self.queue.drop_first(), ..self.started() }
        } else {
            self.with_turn(TurnView::Ready(history))
        }
    }

    /// An emptied session.
    pub open spec fn after_reset(self, seed: Seq<EntryView>) -> RuntimeView {
        RuntimeView { turn: TurnView::Ready(seed), queue: Seq::empty() }
    }
}

pub open spec fn snapshot_of(turn: TurnView) -> RuntimeTurnSnapshot {
    match turn {
        TurnView::Idle => RuntimeTurnSnapshot::Idle,
        TurnView::Ready(_) => RuntimeTurnSnapshot::Idle,
        TurnView::Running { .. } => RuntimeTurnSnapshot::Running,
        TurnView::PendingAck(_) => RuntimeTurnSnapshot::PendingAck,
        TurnView::Failed(_) => RuntimeTurnSnapshot::Failed,
    }
}

/// The history that a session has while no turn changes it.
pub open spec fn settled_history(turn: TurnView) -> Option<Seq<EntryView>> {
    match turn {
        TurnView::Ready(history) => Some(history),
        TurnView::PendingAck(history) => Some(history),
        TurnView::Failed(history) => Some(history),
        _ => None,
    }
}

/// What an input that is delivered does to the session: `None` where it is refused.
pub open spec fn delivered(
    runtime: RuntimeView,
    input: MessageView,
    delivery: DeliveryIntent,
    channel: u64,
) -> Option<RuntimeView> {
    match delivery {
        DeliveryIntent::Submit => if runtime.turn is Ready {
            Some(runtime.started())
        } else {
            None
        },
        DeliveryIntent::Steer => if runtime.turn is Running {
            Some(runtime.with_steer(input))
        } else {
            None
        },
        DeliveryIntent::Queue => Some(runtime.with_queued(input, channel)),
    }
}

/// Whether an action is what has to be done for an input that a session takes.
pub open spec fn acts_for(
    action: DeliveryAction,
    runtime: RuntimeView,
    input: MessageView,
    delivery: DeliveryIntent,
) -> bool {
    match delivery {
        DeliveryIntent::Submit => match (action, runtime.turn) {
            (DeliveryAction::Start(start), TurnView::Ready(before)) => {
                &&& start.history@ == history::with_input(before, input)
                &&& start.rollback@ == before
            },
            _ => false,
        },
        DeliveryIntent::Steer => action matches DeliveryAction::Push(pushed) && pushed@ == input,
        DeliveryIntent::Queue => action is Wait,
    }
}

fn fresh_turn() -> (turn: RuntimeTurn)
    ensures
        turn@ == (TurnView::Running { abort_requested: false, pending_steers: Seq::empty() }),
{
    let turn = RuntimeTurn::Running { abort_requested: false, pending_steers: VecDeque::new() };
    assert(turn@->pending_steers =~= Seq::<MessageView>::empty());
    turn
}

impl AgentRuntime {
    pub fn new() -> (runtime: AgentRuntime)
        ensures
            runtime@ == (RuntimeView { turn: TurnView::Ready(Seq::empty()), queue: Seq::empty() }),
    {
        AgentRuntime::new_with_history(AgentHistory::default())
    }

    pub fn new_with_history(history: AgentHistory) -> (runtime: AgentRuntime)
        ensures
            runtime@ == (RuntimeView { turn: TurnView::Ready(history@), queue: Seq::empty() }),
    {
        let runtime = AgentRuntime { turn: RuntimeTurn::Ready { history }, queue: VecDeque::new() };
        assert(runtime@.queue =~= Seq::<BatchView>::empty());
        runtime
    }

    pub fn is_busy(&self) -> (busy: bool)
        ensures
            busy == self@.busy(),
    {
        match &self.turn {
            RuntimeTurn::Idle => false,
            RuntimeTurn::Ready { .. } => false,
            _ => true,
        }
    }

    /// The history, while no turn changes it.
    pub fn history(&self) -> (history: Option<AgentHistory>)
        ensures
            match history {
                Some(history) => settled_history(self@.turn) == Some(history@),
                None => settled_history(self@.turn) is None,
            },
    {
        match &self.turn {
            RuntimeTurn::Ready { history } => Some(history.clone()),
            RuntimeTurn::PendingAck { history } => Some(history.clone()),
            RuntimeTurn::Failed { history } => Some(history.clone()),
            _ => None,
        }
    }

    pub fn turn_snapshot(&self) -> (snapshot: RuntimeTurnSnapshot)
        ensures
            snapshot == snapshot_of(self@.turn),
    {
        match &self.turn {
            RuntimeTurn::Idle => RuntimeTurnSnapshot::Idle,
            RuntimeTurn::Ready { .. } => RuntimeTurnSnapshot::Idle,
            RuntimeTurn::Running { .. } => RuntimeTurnSnapshot::Running,
            RuntimeTurn::PendingAck { .. } => RuntimeTurnSnapshot::PendingAck,
            RuntimeTurn::Failed { .. } => RuntimeTurnSnapshot::Failed,
        }
    }

    /// Starts over from a history, unless a turn is on its way.
    pub fn reset_history(&mut self, seed: AgentHistory) -> (done: Result<(), RuntimeBusy>)
        ensures
            done is Err <==> old(self)@.busy(),
            final(self)@ == (if old(self)@.busy() {
                old(self)@
            } else {
                old(self)@.after_reset(seed@)
            }),
    {
        if self.is_busy() {
            return Err(RuntimeBusy);
        }
        self.queue.clear();
        self.turn = RuntimeTurn::Ready { history: seed };
        assert(self@.queue =~= Seq::<BatchView>::empty());
        Ok(())
    }

    /// Takes an input: it starts a turn, steers the turn that runs, or waits for its end.
    pub fn accept_user_input(
        &mut self,
        input: InputMessage,
        delivery: DeliveryIntent,
        channel: u64,
    ) -> (taken: Result<DeliveryAction, SubmitError>)
        ensures
            match taken {
                Ok(action) => {
                    &&& delivered(old(self)@, input@, delivery, channel) == Some(final(self)@)
                    &&& acts_for(action, old(self)@, input@, delivery)
                },
                Err(_) => {
                    &&& delivered(old(self)@, input@, delivery, channel) is None
                    &&& *final(self) == *old(self)
                },
            },
    {
        match delivery {
            DeliveryIntent::Submit => self.start_input_turn(input),
            DeliveryIntent::Steer => self.steer_input(input),
            DeliveryIntent::Queue => {
                self.queue_input(input, channel);
                Ok(DeliveryAction::Wait)
            },
        }
    }

    fn start_input_turn(&mut self, input: InputMessage) -> (taken: Result<
        DeliveryAction,
        SubmitError,
    >)
        ensures
            match taken {
                Ok(action) => {
                    &&& old(self)@.turn is Ready
                    &&& final(self)@ == old(self)@.started()
                    &&& acts_for(action, old(self)@, input@, DeliveryIntent::Submit)
                },
                Err(_) => !(old(self)@.turn is Ready) && *final(self) == *old(self),
            },
    {
        let rollback = match &self.turn {
            RuntimeTurn::Ready { history } => history.clone(),
            _ => {
                return Err(SubmitError::Busy);
            },
        };
        let mut history = rollback.clone();
        history.push_input(input);
        self.turn = fresh_turn();
        Ok(DeliveryAction::Start(TurnStart { history, rollback }))
    }

    fn steer_input(&mut self, input: InputMessage) -> (taken: Result<DeliveryAction, SubmitError>)
        ensures
            match taken {
                Ok(action) => {
                    &&& old(self)@.turn is Running
                    &&& final(self)@ == old(self)@.with_steer(input@)
                    &&& action matches DeliveryAction::Push(pushed) && pushed@ == input@
                },
                Err(_) => !(old(self)@.turn is Running) && *final(self) == *old(self),
            },
    {
        let ghost before = self@;
        match &mut self.turn {
            RuntimeTurn::Running { abort_requested: _, pending_steers } => {
                let pushed = input.clone();
                let ghost steers = pending_steers@;
                pending_steers.push_back(input);
                assert(message::message_views(pending_steers@) =~= message::message_views(
                    steers,
                ).push(input@));
                Ok(DeliveryAction::Push(pushed))
            },
            _ => Err(SubmitError::Busy),
        }
    }

    fn queue_input(&mut self, input: InputMessage, channel: u64)
        ensures
            final(self)@ == old(self)@.with_queued(input@, channel),
    {
        let ghost before = self@;
        let mut inputs: Vec<InputMessage> = Vec::new();
        inputs.push(input);
        let batch = QueuedInputBatch { inputs, channel };
        assert(batch@.inputs =~= seq![input@]);
        self.queue.push_back(batch);
        assert(self@.queue =~= before.with_queued(input@, channel).queue);
    }

    /// The end of a turn is acknowledged. The next batch starts, if one waits.
    pub fn finish_success(&mut self, history: AgentHistory) -> (next: Option<QueuedStart>)
        ensures
            final(self)@ == old(self)@.after_success(history@),
            match next {
                Some(next) => {
                    &&& old(self)@.queue.len() > 0
                    &&& next.batch@ == old(self)@.queue[0]
                    &&& next.start.rollback@ == history@
                    &&& next.start.history@ == history::with_inputs(
                        history@,
                        old(self)@.queue[0].inputs,
                    )
                },
                None => old(self)@.queue.len() == 0,
            },
    {
        let ghost before = self@;
        let ghost base = history@;
        let batch = match self.queue.pop_front() {
            Some(batch) => batch,
            None => {
                self.turn = RuntimeTurn::Ready { history };
                assert(self@.queue =~= before.queue);
                return None;
            },
        };
        assert(self@.queue =~= before.queue.drop_first());
        assert(batch@ == before.queue[0]);
        let rollback = history.clone();
        let mut history = history;
        let ghost inputs = batch@.inputs;
        let mut i: usize = 0;
        while i < batch.inputs.len()
            invariant
                i <= batch.inputs@.len(),
                inputs == message::message_views(batch.inputs@),
                history@ == history::with_inputs(base, inputs.take(i as int)),
            decreases batch.inputs@.len() - i,
        {
            let ghost earlier = history@;
            history.push_input(batch.inputs[i].clone());
            i = i + 1;
            assert(history@ =~= history::with_inputs(base, inputs.take(i as int)));
        }
        assert(inputs.take(i as int) =~= inputs);
        self.turn = fresh_turn();
        assert(self@.queue =~= before.queue.drop_first());
        Some(QueuedStart { start: TurnStart { history, rollback }, batch })
    }

    /// The failure of a turn is acknowledged.
    pub fn finish_failure(&mut self, history: AgentHistory)
        ensures
            final(self)@ == old(self)@.with_turn(TurnView::Ready(history@)),
    {
        self.turn = RuntimeTurn::Ready { history };
    }

    /// Whether there is a turn to control. A turn that is to be aborted is marked.
    pub fn active_turn(&mut self, mark_abort: bool) -> (active: Result<(), RuntimeControlError>)
        ensures
            match active {
                Ok(_) => {
                    &&& old(self)@.turn is Running
                    &&& final(self)@ == (if mark_abort {
                        old(self)@.with_abort()
                    } else {
                        old(self)@
                    })
                },
                Err(error) => {
                    &&& !(old(self)@.turn is Running)
                    &&& error is NoActiveTurn
                    &&& *final(self) == *old(self)
                },
            },
    {
        match &mut self.turn {
            RuntimeTurn::Running { abort_requested, pending_steers: _ } => {
                if mark_abort {
                    *abort_requested = true;
                }
                Ok(())
            },
            _ => Err(RuntimeControlError::NoActiveTurn),
        }
    }

    /// Whether the turn that runs has been asked to stop.
    pub fn abort_requested(&self) -> (asked: bool)
        ensures
            asked == self@.abort_asked(),
    {
        match &self.turn {
            RuntimeTurn::Running { abort_requested, .. } => *abort_requested,
            _ => false,
        }
    }

    /// The turn has taken up the oldest steer.
    pub fn mark_steer_committed(&mut self)
        ensures
            final(self)@ == old(self)@.with_steer_committed(),
    {
        match &mut self.turn {
            RuntimeTurn::Running { abort_requested: _, pending_steers } => {
                let ghost steers = pending_steers@;
                let _ = pending_steers.pop_front();
                assert(steers.len() > 0 ==> message::message_views(pending_steers@)
                    =~= message::message_views(steers).drop_first());
                assert(steers.len() == 0 ==> message::message_views(pending_steers@)
                    =~= message::message_views(steers));
            },
            _ => {},
        }
    }

    /// The steers that the turn has not taken up, which wait from now on.
    pub fn requeue_uncommitted_steers(&mut self, channel: u64) -> (inputs: Vec<InputMessage>)
        ensures
            final(self)@ == old(self)@.with_steers_requeued(channel),
            message::message_views(inputs@) == old(self)@.steers(),
    {
        let ghost before = self@;
        let mut inputs: Vec<InputMessage> = Vec::new();
        let mut copies: Vec<InputMessage> = Vec::new();
        let mut steers: VecDeque<InputMessage> = VecDeque::new();
        match &mut self.turn {
            RuntimeTurn::Running { abort_requested: _, pending_steers } => {
                steers.append(pending_steers);
                assert(message::message_views(pending_steers@) =~= Seq::<MessageView>::empty());
            },
            _ => {},
        }
        let ghost all = message::message_views(steers@);
        assert(all =~= before.steers());
        let ghost mut i: int = 0;
        while steers.len() > 0
            invariant
                0 <= i <= all.len(),
                i + steers@.len() == all.len(),
                inputs@.len() == i,
                copies@.len() == i,
                forall|k: int| 0 <= k < i ==> (#[trigger] inputs@[k])@ == all[k],
                forall|k: int| 0 <= k < i ==> (#[trigger] copies@[k])@ == all[k],
                forall|k: int| 0 <= k < steers@.len() ==> (#[trigger] steers@[k])@ == all[i + k],
            decreases steers@.len(),
        {
            let ghost left = steers@;
            match steers.pop_front() {
                Some(input) => {
                    assert(left[0]@ == all[i + 0]);
                    copies.push(input.clone());
                    inputs.push(input);
                    proof {
                        assert forall|k: int| 0 <= k < steers@.len() implies (
                        #[trigger] steers@[k])@ == all[i + 1 + k] by {
                            assert(left[k + 1]@ == all[i + (k + 1)]);
                        }
                        i = i + 1;
                    }
                },
                None => {},
            }
        }
        assert(message::message_views(inputs@) =~= all);
        assert(message::message_views(copies@) =~= all);
        if copies.len() > 0 {
            let batch = QueuedInputBatch { inputs: copies, channel };
            self.queue.push_front(batch);
            assert(self@.queue =~= seq![batch@] + before.queue);
        } else {
            assert(self@.queue =~= before.queue);
        }
        inputs
    }
}

/// An input is submitted only to a session that is ready, and steers only a turn that runs; it can
/// always be queued. What is taken is held: a submitted input starts a turn that nothing steers
/// yet, a steer waits behind the earlier ones, and a queued input waits in a batch of its own behind
/// all others. The rest of the session stays.
pub proof fn law_inputs_are_taken_where_they_belong(
    runtime: RuntimeView,
    input: MessageView,
    channel: u64,
)
    ensures
        ({
            let submitted = delivered(runtime, input, DeliveryIntent::Submit, channel);
            let steered = delivered(runtime, input, DeliveryIntent::Steer, channel);
            let queued = delivered(runtime, input, DeliveryIntent::Queue, channel);
            &&& submitted is Some <==> runtime.turn is Ready
            &&& submitted matches Some(after) ==> {
                &&& after.turn is Running
                &&& after.turn->pending_steers.len() == 0
                &&& !after.turn->abort_requested
                &&& after.queue == runtime.queue
            }
            &&& steered is Some <==> runtime.turn is Running
            &&& steered matches Some(after) ==> {
                let steers = after.turn->pending_steers;
                &&& after.turn is Running
                &&& steers.len() == runtime.turn->pending_steers.len() + 1
                &&& steers.last() == input
                &&& steers.drop_last() == runtime.turn->pending_steers
                &&& after.turn->abort_requested == runtime.turn->abort_requested
                &&& after.queue == runtime.queue
            }
            &&& queued matches Some(after) && {
                &&& after.turn == runtime.turn
                &&& after.queue.len() == runtime.queue.len() + 1
                &&& after.queue.drop_last() == runtime.queue
                &&& after.queue.last().inputs.len() == 1
                &&& after.queue.last().inputs[0] == input
                &&& after.queue.last().channel == channel
            }
        }),
{
    if let Some(after) = delivered(runtime, input, DeliveryIntent::Steer, channel) {
        assert(after.turn->pending_steers.drop_last() =~= runtime.turn->pending_steers);
    }
    if let Some(after) = delivered(runtime, input, DeliveryIntent::Queue, channel) {
        assert(after.queue.drop_last() =~= runtime.queue);
    }
}

/// A turn that a submitted input starts is given the history with that input at its end, and falls
/// back to the history without it.
pub proof fn law_submitted_turn_starts_from_the_history(
    action: DeliveryAction,
    runtime: RuntimeView,
    input: MessageView,
)
    requires
        acts_for(action, runtime, input, DeliveryIntent::Submit),
    ensures
        runtime.turn is Ready,
        action is Start,
        action->Start_0.rollback@ == runtime.turn->Ready_0,
        action->Start_0.history@.len() == runtime.turn->Ready_0.len() + 1,
        action->Start_0.history@.drop_last() == runtime.turn->Ready_0,
        action->Start_0.history@.last() == EntryView::Input(input),
{
    assert(action->Start_0.history@.drop_last() =~= runtime.turn->Ready_0);
}

/// What has to be done for an input tells how it was taken: a turn starts for a submitted one, a
/// steer is pushed to the turn as it is, and a queued one has to wait.
pub proof fn law_actions_tell_how_inputs_were_taken(
    action: DeliveryAction,
    runtime: RuntimeView,
    input: MessageView,
    delivery: DeliveryIntent,
)
    requires
        acts_for(action, runtime, input, delivery),
    ensures
        action.spec_result() == DeliveryResult::Submitted <==> delivery == DeliveryIntent::Submit,
        action.spec_result() == DeliveryResult::Steered <==> delivery == DeliveryIntent::Steer,
        action.spec_result() == DeliveryResult::Queued <==> delivery == DeliveryIntent::Queue,
        delivery == DeliveryIntent::Steer ==> action is Push && action->Push_0@ == input,
{
}

/// Once the end of a turn was noticed, the batch that waited longest starts a turn of its own, with
/// its inputs at the end of the history in their order; the others go on waiting. Where nothing
/// waits the session is ready with the history.
pub proof fn law_oldest_batch_starts_next(runtime: RuntimeView, history: Seq<EntryView>)
    ensures
        runtime.queue.len() == 0 ==> {
            &&& runtime.after_success(history).turn == TurnView::Ready(history)
            &&& runtime.after_success(history).queue == runtime.queue
        },
        runtime.queue.len() > 0 ==> {
            let after = runtime.after_success(history);
            let inputs = runtime.queue[0].inputs;
            let given = history::with_inputs(history, inputs);
            &&& after.turn == (TurnView::Running {
                abort_requested: false,
                pending_steers: Seq::empty(),
            })
            &&& after.queue.len() == runtime.queue.len() - 1
            &&& forall|i: int|
                0 <= i < after.queue.len() ==> #[trigger] after.queue[i] == runtime.queue[i + 1]
            &&& given.len() == history.len() + inputs.len()
            &&& forall|i: int| 0 <= i < history.len() ==> #[trigger] given[i] == history[i]
            &&& forall|i: int|
                0 <= i < inputs.len() ==> #[trigger] given[history.len() + i] == EntryView::Input(
                    inputs[i],
                )
        },
{
}

/// A turn that was asked to stop stays asked, keeps its steers, and the inputs that wait stay; a
/// session without a running turn cannot be asked.
pub proof fn law_abort_marks_only_the_turn(runtime: RuntimeView)
    ensures
        runtime.turn is Running ==> {
            &&& runtime.with_abort().abort_asked()
            &&& runtime.with_abort().turn->pending_steers == runtime.turn->pending_steers
        },
        !(runtime.turn is Running) ==> runtime.with_abort() == runtime && !runtime.abort_asked(),
        runtime.with_abort().queue == runtime.queue,
        runtime.turn is Running ==> runtime.abort_asked() == runtime.turn->abort_requested,
{
}

/// A session is busy from the start of a turn until its end was noticed, and while it is busy with a
/// running turn it has no history to show.
pub proof fn law_busy_until_the_end_is_noticed(runtime: RuntimeView)
    ensures
        runtime.turn is Running ==> runtime.busy() && settled_history(runtime.turn) is None,
        runtime.turn is PendingAck ==> runtime.busy() && settled_history(runtime.turn) == Some(
            runtime.turn->PendingAck_0,
        ),
        runtime.turn is Failed ==> runtime.busy() && settled_history(runtime.turn) == Some(
            runtime.turn->Failed_0,
        ),
        runtime.turn is Ready ==> !runtime.busy() && settled_history(runtime.turn) == Some(
            runtime.turn->Ready_0,
        ),
        runtime.turn is Idle ==> !runtime.busy() && settled_history(runtime.turn) is None,
        snapshot_of(runtime.turn) == RuntimeTurnSnapshot::Running <==> runtime.turn is Running,
        snapshot_of(runtime.turn) == RuntimeTurnSnapshot::PendingAck <==> runtime.turn
            is PendingAck,
        snapshot_of(runtime.turn) == RuntimeTurnSnapshot::Failed <==> runtime.turn is Failed,
        snapshot_of(runtime.turn) == RuntimeTurnSnapshot::Idle <==> !runtime.busy(),
{
}

/// A session that starts over forgets what waited and has the given history.
pub proof fn law_reset_forgets_what_waits(runtime: RuntimeView, seed: Seq<EntryView>)
    ensures
        runtime.after_reset(seed).queue.len() == 0,
        runtime.after_reset(seed).turn == TurnView::Ready(seed),
{
}

/// Why a turn could not be controlled is told in the words of the agent, or that there is none.
pub proof fn law_control_errors_are_told(message: String)
    ensures
        control_error_text(RuntimeControlError::Agent(message)) == message@,
        control_error_text(RuntimeControlError::NoActiveTurn) == "no active turn"@,
{
}

} // verus!
