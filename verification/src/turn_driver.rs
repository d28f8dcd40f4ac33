//! What is done, step by step, to bring a running turn to its end.

use crate::events::AgentEvent;
use crate::history::{AgentHistory, EntryView};
use crate::message;
use crate::message::{InputMessage, MessageView};
use crate::runtime::{AgentRuntime, RuntimeControlError, RuntimeTurn, RuntimeView, TurnView};
use vstd::prelude::*;

verus! {

/// What is told of a turn while it runs.
#[derive(Debug)]
pub enum RuntimeEvent {
    Agent(AgentEvent),
    TurnFinished { history: AgentHistory },
    /// The history is the one that the turn started from.
    TurnFailed { history: AgentHistory, message: String },
    SteerQueued { input: InputMessage },
    QueuedInputSubmitted { input: InputMessage },
    ControlFailed { message: String },
}

/// What is told of a turn, with its texts.
pub enum RuntimeEventView {
    Agent(AgentEvent),
    TurnFinished { history: Seq<EntryView> },
    TurnFailed { history: Seq<EntryView>, message: Seq<char> },
    SteerQueued { input: MessageView },
    QueuedInputSubmitted { input: MessageView },
    ControlFailed { message: Seq<char> },
}

impl View for RuntimeEvent {
    type V = RuntimeEventView;

    open spec fn view(&self) -> RuntimeEventView {
        match self {
            RuntimeEvent::Agent(event) => RuntimeEventView::Agent(*event),
            RuntimeEvent::TurnFinished { history } => RuntimeEventView::TurnFinished {
                history: history@,
            },
            RuntimeEvent::TurnFailed { history, message } => RuntimeEventView::TurnFailed {
                history: history@,
                message: message@,
            },
            RuntimeEvent::SteerQueued { input } => RuntimeEventView::SteerQueued {
                input: input@,
            },
            RuntimeEvent::QueuedInputSubmitted { input } => {
                RuntimeEventView::QueuedInputSubmitted { input: input@ }
            },
            RuntimeEvent::ControlFailed { message } => RuntimeEventView::ControlFailed {
                message: message@,
            },
        }
    }
}

pub open spec fn event_views(events: Seq<RuntimeEvent>) -> Seq<RuntimeEventView> {
    Seq::new(events.len(), |i: int| events[i]@)
}

/// What the turn answered.
#[derive(Debug)]
pub enum TurnReply {
    /// It ran up to a point of control, with these events, and is finished after it or not.
    Stepped { events: Vec<AgentEvent>, finished: bool },
    /// It went on from a point of control.
    Continued,
    /// It could not step, go on, or give its next event.
    Failed(String),
    /// One more event after the last point of control.
    Event(AgentEvent),
    /// There are no more events.
    Ended,
    /// What the history has become.
    History(AgentHistory),
    /// Whether anybody still listens.
    Sent(bool),
}

/// What is asked of the turn next.
#[derive(Debug, Clone, Copy, PartialEq, Eq, Structural)]
pub enum TurnRequest {
    Step,
    Continue,
    NextEvent,
    TakeHistory,
    Confirm,
    Stop,
}

/// How far the turn has been brought.
#[derive(Debug)]
pub enum DriverPhase {
    Stepping,
    Continuing { finished: bool },
    Draining { aborting: bool },
    Closing,
    Finishing { history: AgentHistory },
    Failing,
    Done,
}

/// How far the turn has been brought, with its texts.
pub enum PhaseView {
    Stepping,
    Continuing { finished: bool },
    Draining { aborting: bool },
    Closing,
    Finishing { history: Seq<EntryView> },
    Failing,
    Done,
}

impl View for DriverPhase {
    type V = PhaseView;

    open spec fn view(&self) -> PhaseView {
        match self {
            DriverPhase::Stepping => PhaseView::Stepping,
            DriverPhase::Continuing { finished } => PhaseView::Continuing { finished: *finished },
            DriverPhase::Draining { aborting } => PhaseView::Draining { aborting: *aborting },
            DriverPhase::Closing => PhaseView::Closing,
            DriverPhase::Finishing { history } => PhaseView::Finishing { history: history@ },
            DriverPhase::Failing => PhaseView::Failing,
            DriverPhase::Done => PhaseView::Done,
        }
    }
}

/// Brings one turn to its end.
#[derive(Debug)]
pub struct TurnDriver {
    pub rollback: AgentHistory,
    pub channel: u64,
    pub phase: DriverPhase,
}

/// A driver, with its texts.
pub struct DriverView {
    pub rollback: Seq<EntryView>,
    pub channel: u64,
    pub phase: PhaseView,
}

impl View for TurnDriver {
    type V = DriverView;

    open spec fn view(&self) -> DriverView {
        DriverView { rollback: self.rollback@, channel: self.channel, phase: self.phase@ }
    }
}

/// What one answer of the turn leads to.
pub struct Advance {
    pub phase: PhaseView,
    pub runtime: RuntimeView,
    pub sends: Seq<RuntimeEventView>,
    pub request: TurnRequest,
}

/// The session after the first `count` events of a step: each input that was taken up is the
/// oldest steer.
pub open spec fn after_commits(
    runtime: RuntimeView,
    events: Seq<AgentEvent>,
    count: int,
) -> RuntimeView
    decreases count,
{
    if count <= 0 {
        runtime
    } else {
        let before = after_commits(runtime, events, count - 1);
        if events[count - 1] is InputCommitted {
            before.with_steer_committed()
        } else {
            before
        }
    }
}

/// The events as they are told.
pub open spec fn forwarded(events: Seq<AgentEvent>) -> Seq<RuntimeEventView> {
    Seq::new(events.len(), |i: int| RuntimeEventView::Agent(events[i]))
}

/// What is told of steers that have to wait.
pub open spec fn requeued(steers: Seq<MessageView>) -> Seq<RuntimeEventView> {
    Seq::new(steers.len(), |i: int| RuntimeEventView::SteerQueued { input: steers[i] })
}

/// The turn failed: the session falls back to what it was, and what had not been taken up waits.
pub open spec fn failed(driver: DriverView, runtime: RuntimeView, message: Seq<char>) -> Advance {
    Advance {
        phase: PhaseView::Failing,
        runtime: runtime.with_steers_requeued(driver.channel).with_turn(
            TurnView::Failed(driver.rollback),
        ),
        sends: requeued(runtime.steers()).push(
            RuntimeEventView::TurnFailed { history: driver.rollback, message },
        ),
        request: TurnRequest::Confirm,
    }
}

/// The turn refused to go on: either it was asked to stop, or it failed.
pub open spec fn refused(driver: DriverView, runtime: RuntimeView, message: Seq<char>) -> Advance {
    if runtime.abort_asked() {
        Advance {
            phase: PhaseView::Draining { aborting: true },
            runtime,
            sends: Seq::empty(),
            request: TurnRequest::NextEvent,
        }
    } else {
        failed(driver, runtime, message)
    }
}

/// What an answer of the turn leads to. An answer that was not asked for ends it all.
pub open spec fn advance(driver: DriverView, runtime: RuntimeView, reply: TurnReply) -> Advance {
    match (driver.phase, reply) {
        (PhaseView::Stepping, TurnReply::Stepped { events, finished }) => Advance {
            phase: PhaseView::Continuing { finished },
            runtime: after_commits(runtime, events@, events@.len() as int),
            sends: forwarded(events@),
            request: TurnRequest::Continue,
        },
        (PhaseView::Stepping, TurnReply::Failed(message)) => refused(driver, runtime, message@),
        (PhaseView::Continuing { finished }, TurnReply::Continued) => if finished {
            Advance {
                phase: PhaseView::Draining { aborting: false },
                runtime,
                sends: Seq::empty(),
                request: TurnRequest::NextEvent,
            }
        } else {
            Advance {
                phase: PhaseView::Stepping,
                runtime,
                sends: Seq::empty(),
                request: TurnRequest::Step,
            }
        },
        (PhaseView::Continuing { .. }, TurnReply::Failed(message)) => refused(
            driver,
            runtime,
            message@,
        ),
        (PhaseView::Draining { .. }, TurnReply::Event(event)) => Advance {
            phase: driver.phase,
            runtime,
            sends: seq![RuntimeEventView::Agent(event)],
            request: TurnRequest::NextEvent,
        },
        (PhaseView::Draining { aborting }, TurnReply::Failed(message)) => if aborting {
            Advance {
                phase: driver.phase,
                runtime,
                sends: Seq::empty(),
                request: TurnRequest::NextEvent,
            }
        } else {
            failed(driver, runtime, message@)
        },
        (PhaseView::Draining { .. }, TurnReply::Ended) => Advance {
            phase: PhaseView::Closing,
            runtime: runtime.with_steers_requeued(driver.channel),
            sends: requeued(runtime.steers()),
            request: TurnRequest::TakeHistory,
        },
        (PhaseView::Closing, TurnReply::History(history)) => Advance {
            phase: PhaseView::Finishing { history: history@ },
            runtime: runtime.with_turn(TurnView::PendingAck(history@)),
            sends: seq![RuntimeEventView::TurnFinished { history: history@ }],
            request: TurnRequest::Confirm,
        },
        (PhaseView::Finishing { history }, TurnReply::Sent(heard)) => Advance {
            phase: PhaseView::Done,
            runtime: if heard {
                runtime
            } else {
                runtime.with_turn(TurnView::Ready(history))
            },
            sends: Seq::empty(),
            request: TurnRequest::Stop,
        },
        (PhaseView::Failing, TurnReply::Sent(heard)) => Advance {
            phase: PhaseView::Done,
            runtime: if heard {
                runtime
            } else {
                runtime.with_turn(TurnView::Ready(driver.rollback))
            },
            sends: Seq::empty(),
            request: TurnRequest::Stop,
        },
        _ => Advance {
            phase: PhaseView::Done,
            runtime,
            sends: Seq::empty(),
            request: TurnRequest::Stop,
        },
    }
}

/// What is told now, and what is asked of the turn next.
#[derive(Debug)]
pub struct TurnStep {
    pub sends: Vec<RuntimeEvent>,
    pub request: TurnRequest,
}

fn nothing_to_tell() -> (sends: Vec<RuntimeEvent>)
    ensures
        event_views(sends@) == Seq::<RuntimeEventView>::empty(),
{
    let sends: Vec<RuntimeEvent> = Vec::new();
    assert(event_views(sends@) =~= Seq::<RuntimeEventView>::empty());
    sends
}

fn tell_steers(inputs: Vec<InputMessage>) -> (sends: Vec<RuntimeEvent>)
    ensures
        event_views(sends@) == requeued(message::message_views(inputs@)),
{
    let ghost all = inputs@;
    let mut sends: Vec<RuntimeEvent> = Vec::new();
    for input in iter: inputs
        invariant
            iter.seq() == all,
            sends@.len() == iter.index(),
            forall|i: int|
                0 <= i < sends@.len() ==> (#[trigger] sends@[i])@
                    == (RuntimeEventView::SteerQueued { input: all[i]@ }),
    {
        sends.push(RuntimeEvent::SteerQueued { input });
    }
    assert(event_views(sends@) =~= requeued(message::message_views(all)));
    sends
}

impl TurnDriver {
    /// A driver for a turn that has just started, and what to ask of it first.
    pub fn new(rollback: AgentHistory, channel: u64) -> (driver: TurnDriver)
        ensures
            driver@ == (DriverView {
                rollback: rollback@,
                channel,
                phase: PhaseView::Stepping,
            }),
    {
        TurnDriver { rollback, channel, phase: DriverPhase::Stepping }
    }

    fn fail(&mut self, runtime: &mut AgentRuntime, message: String) -> (step: TurnStep)
        ensures
            ({
                let to = failed(old(self)@, old(runtime)@, message@);
                &&& final(self)@ == (DriverView { phase: to.phase, ..old(self)@ })
                &&& final(runtime)@ == to.runtime
                &&& event_views(step.sends@) == to.sends
                &&& step.request == to.request
            }),
    {
        let ghost before = runtime@;
        let steers = runtime.requeue_uncommitted_steers(self.channel);
        let mut sends = tell_steers(steers);
        let ghost told = event_views(sends@);
        runtime.turn = RuntimeTurn::Failed { history: self.rollback.clone() };
        sends.push(RuntimeEvent::TurnFailed { history: self.rollback.clone(), message });
        assert(event_views(sends@) =~= told.push(
            RuntimeEventView::TurnFailed { history: self.rollback@, message: message@ },
        ));
        self.phase = DriverPhase::Failing;
        TurnStep { sends, request: TurnRequest::Confirm }
    }

    fn refuse(&mut self, runtime: &mut AgentRuntime, message: String) -> (step: TurnStep)
        ensures
            ({
                let to = refused(old(self)@, old(runtime)@, message@);
                &&& final(self)@ == (DriverView { phase: to.phase, ..old(self)@ })
                &&& final(runtime)@ == to.runtime
                &&& event_views(step.sends@) == to.sends
                &&& step.request == to.request
            }),
    {
        if runtime.abort_requested() {
            self.phase = DriverPhase::Draining { aborting: true };
            return TurnStep { sends: nothing_to_tell(), request: TurnRequest::NextEvent };
        }
        self.fail(runtime, message)
    }

    fn forward(&mut self, runtime: &mut AgentRuntime, events: Vec<AgentEvent>) -> (sends: Vec<
        RuntimeEvent,
    >)
        ensures
            *final(self) == *old(self),
            final(runtime)@ == after_commits(old(runtime)@, events@, events@.len() as int),
            event_views(sends@) == forwarded(events@),
    {
        let ghost all = events@;
        let ghost start = runtime@;
        let mut sends: Vec<RuntimeEvent> = Vec::new();
        for event in iter: events
            invariant
                iter.seq() == all,
                *self == *old(self),
                runtime@ == after_commits(start, all, iter.index()),
                sends@.len() == iter.index(),
                forall|i: int|
                    0 <= i < sends@.len() ==> (#[trigger] sends@[i])@ == RuntimeEventView::Agent(
                        all[i],
                    ),
        {
            let committed = match &event {
                AgentEvent::InputCommitted { .. } => true,
                _ => false,
            };
            if committed {
                runtime.mark_steer_committed();
            }
            sends.push(RuntimeEvent::Agent(event));
        }
        assert(event_views(sends@) =~= forwarded(all));
        sends
    }

    /// Takes the answer of the turn to the last request.
    pub fn advance(&mut self, runtime: &mut AgentRuntime, reply: TurnReply) -> (step: TurnStep)
        ensures
            ({
                let to = advance(old(self)@, old(runtime)@, reply);
                &&& final(self)@ == (DriverView { phase: to.phase, ..old(self)@ })
                &&& final(runtime)@ == to.runtime
                &&& event_views(step.sends@) == to.sends
                &&& step.request == to.request
            }),
    {
        let mut phase = DriverPhase::Done;
        std::mem::swap(&mut phase, &mut self.phase);
        match (phase, reply) {
            (DriverPhase::Stepping, TurnReply::Stepped { events, finished }) => {
                let sends = self.forward(runtime, events);
                self.phase = DriverPhase::Continuing { finished };
                TurnStep { sends, request: TurnRequest::Continue }
            },
            (DriverPhase::Stepping, TurnReply::Failed(message)) => self.refuse(runtime, message),
            (DriverPhase::Continuing { finished }, TurnReply::Continued) => {
                if finished {
                    self.phase = DriverPhase::Draining { aborting: false };
                    TurnStep { sends: nothing_to_tell(), request: TurnRequest::NextEvent }
                } else {
                    self.phase = DriverPhase::Stepping;
                    TurnStep { sends: nothing_to_tell(), request: TurnRequest::Step }
                }
            },
            (DriverPhase::Continuing { .. }, TurnReply::Failed(message)) => self.refuse(
                runtime,
                message,
            ),
            (DriverPhase::Draining { aborting }, TurnReply::Event(event)) => {
                self.phase = DriverPhase::Draining { aborting };
                let mut sends: Vec<RuntimeEvent> = Vec::new();
                sends.push(RuntimeEvent::Agent(event));
                assert(event_views(sends@) =~= seq![RuntimeEventView::Agent(event)]);
                TurnStep { sends, request: TurnRequest::NextEvent }
            },
            (DriverPhase::Draining { aborting }, TurnReply::Failed(message)) => {
                if aborting {
                    self.phase = DriverPhase::Draining { aborting };
                    TurnStep { sends: nothing_to_tell(), request: TurnRequest::NextEvent }
                } else {
                    self.fail(runtime, message)
                }
            },
            (DriverPhase::Draining { .. }, TurnReply::Ended) => {
                let steers = runtime.requeue_uncommitted_steers(self.channel);
                self.phase = DriverPhase::Closing;
                TurnStep { sends: tell_steers(steers), request: TurnRequest::TakeHistory }
            },
            (DriverPhase::Closing, TurnReply::History(history)) => {
                runtime.turn = RuntimeTurn::PendingAck { history: history.clone() };
                let mut sends: Vec<RuntimeEvent> = Vec::new();
                sends.push(RuntimeEvent::TurnFinished { history: history.clone() });
                assert(event_views(sends@) =~= seq![
                    RuntimeEventView::TurnFinished { history: history@ },
                ]);
                self.phase = DriverPhase::Finishing { history };
                TurnStep { sends, request: TurnRequest::Confirm }
            },
            (DriverPhase::Finishing { history }, TurnReply::Sent(heard)) => {
                if !heard {
                    runtime.turn = RuntimeTurn::Ready { history };
                }
                TurnStep { sends: nothing_to_tell(), request: TurnRequest::Stop }
            },
            (DriverPhase::Failing, TurnReply::Sent(heard)) => {
                if !heard {
                    runtime.turn = RuntimeTurn::Ready { history: self.rollback.clone() };
                }
                TurnStep { sends: nothing_to_tell(), request: TurnRequest::Stop }
            },
            _ => TurnStep { sends: nothing_to_tell(), request: TurnRequest::Stop },
        }
    }
}

/// What is asked of a turn that is to be aborted: a turn that is paused is resumed before it is
/// preempted.
pub fn resumes_before_abort(paused: Result<bool, String>) -> (resumes: bool)
    ensures
        resumes == (paused matches Ok(paused) && paused),
{
    match paused {
        Ok(paused) => paused,
        Err(_) => false,
    }
}

/// Whether a turn can be resumed, from what it told of itself: only one that is paused.
pub fn check_resume(paused: Result<bool, String>) -> (checked: Result<(), RuntimeControlError>)
    ensures
        match paused {
            Ok(paused) => if paused {
                checked is Ok
            } else {
                checked matches Err(RuntimeControlError::Agent(message)) && message@
                    == "turn is not paused"@
            },
            Err(told) => checked matches Err(RuntimeControlError::Agent(message)) && message
                == told,
        },
{
    match paused {
        Ok(paused) => if paused {
            Ok(())
        } else {
            Err(RuntimeControlError::Agent("turn is not paused".to_owned()))
        },
        Err(message) => Err(RuntimeControlError::Agent(message)),
    }
}

/// A submitted input is refused while a turn is on its way or its end has not been acknowledged.
pub proof fn law_busy_refuses_submission(
    runtime: RuntimeView,
    input: MessageView,
    channel: u64,
)
    requires
        runtime.busy(),
    ensures
        crate::runtime::delivered(
            runtime,
            input,
            crate::runtime::DeliveryIntent::Submit,
            channel,
        ) is None,
{
}

/// All the inputs that a session still holds, in the order in which they will be taken up: the
/// steers of the turn that runs, then the batches that wait.
pub open spec fn waiting(queue: Seq<crate::runtime::BatchView>, count: int) -> Seq<MessageView>
    decreases count,
{
    if count <= 0 {
        Seq::empty()
    } else {
        waiting(queue, count - 1) + queue[count - 1].inputs
    }
}

pub open spec fn held(runtime: RuntimeView) -> Seq<MessageView> {
    runtime.steers() + waiting(runtime.queue, runtime.queue.len() as int)
}

proof fn lemma_waiting_front(
    batch: crate::runtime::BatchView,
    queue: Seq<crate::runtime::BatchView>,
    count: int,
)
    requires
        0 <= count <= queue.len(),
    ensures
        waiting(seq![batch] + queue, count + 1) == batch.inputs + waiting(queue, count),
    decreases count,
{
    let longer = seq![batch] + queue;
    if count == 0 {
        reveal_with_fuel(waiting, 2);
        assert(longer[0] == batch);
        assert(waiting(longer, 1) =~= batch.inputs + waiting(queue, 0));
    } else {
        lemma_waiting_front(batch, queue, count - 1);
        assert(longer[count] == queue[count - 1]);
        assert(waiting(longer, count + 1) =~= batch.inputs + waiting(queue, count));
    }
}

/// No input is lost, and none overtakes another, when the steers that a turn has not taken up
/// have to wait.
pub proof fn law_requeue_keeps_order(runtime: RuntimeView, channel: u64)
    ensures
        held(runtime.with_steers_requeued(channel)) == held(runtime),
{
    if let TurnView::Running { abort_requested, pending_steers } = runtime.turn {
        if pending_steers.len() > 0 {
            let batch = crate::runtime::BatchView { inputs: pending_steers, channel };
            lemma_waiting_front(batch, runtime.queue, runtime.queue.len() as int);
            assert(held(runtime.with_steers_requeued(channel)) =~= held(runtime));
        }
    }
}

/// A turn that fails leaves the session with the history that it started from, and with every
/// input that it had not taken up; what is told says so.
pub proof fn law_failure_rolls_back(driver: DriverView, runtime: RuntimeView, reply: TurnReply)
    requires
        advance(driver, runtime, reply).phase is Failing,
    ensures
        advance(driver, runtime, reply).runtime.turn == TurnView::Failed(driver.rollback),
        waiting(
            advance(driver, runtime, reply).runtime.queue,
            advance(driver, runtime, reply).runtime.queue.len() as int,
        ) == held(runtime),
        advance(driver, runtime, reply).sends.last() matches RuntimeEventView::TurnFailed {
            history,
            ..
        } && history == driver.rollback,
{
    law_requeue_keeps_order(runtime, driver.channel);
    let after = runtime.with_steers_requeued(driver.channel);
    assert(after.steers() =~= Seq::<MessageView>::empty()) by {
        if let TurnView::Running { pending_steers, .. } = runtime.turn {
            if pending_steers.len() == 0 {
                assert(pending_steers =~= Seq::<MessageView>::empty());
            }
        }
    }
    assert(held(after) =~= waiting(after.queue, after.queue.len() as int));
}

/// A turn that was asked to stop does not fail.
pub proof fn law_abort_is_no_failure(driver: DriverView, runtime: RuntimeView, reply: TurnReply)
    requires
        runtime.abort_asked(),
        driver.phase is Stepping || driver.phase is Continuing || driver.phase
            == (PhaseView::Draining { aborting: true }),
    ensures
        !(advance(driver, runtime, reply).phase is Failing),
{
}

/// The end of a turn keeps the session busy until it is acknowledged, and afterwards the oldest
/// batch that waits has started, or the session is ready with the history that the turn left.
pub proof fn law_end_is_acknowledged(
    driver: DriverView,
    runtime: RuntimeView,
    history: AgentHistory,
)
    requires
        driver.phase is Closing,
    ensures
        ({
            let ended = advance(driver, runtime, TurnReply::History(history)).runtime;
            &&& ended.busy()
            &&& ended.queue == runtime.queue
            &&& if runtime.queue.len() > 0 {
                &&& ended.after_success(history@).turn is Running
                &&& ended.after_success(history@).queue == runtime.queue.drop_first()
            } else {
                ended.after_success(history@).turn == TurnView::Ready(history@)
            }
        }),
{
}

/// How many of a step's events say that an input was taken up.
pub open spec fn taken_up(events: Seq<AgentEvent>) -> nat {
    events.filter(|event: AgentEvent| event is InputCommitted).len()
}

/// Steers without the oldest ones.
pub open spec fn without_oldest(steers: Seq<MessageView>, count: nat) -> Seq<MessageView> {
    if count <= steers.len() {
        steers.skip(count as int)
    } else {
        Seq::empty()
    }
}

proof fn lemma_taken_up_last(events: Seq<AgentEvent>)
    requires
        events.len() > 0,
    ensures
        taken_up(events) == taken_up(events.drop_last()) + if events.last() is InputCommitted {
            1nat
        } else {
            0
        },
{
    reveal(Seq::filter);
    let committed = |event: AgentEvent| event is InputCommitted;
    let before = events.drop_last().filter(committed);
    if events.last() is InputCommitted {
        assert(events.filter(committed) =~= before.push(events.last()));
    } else {
        assert(events.filter(committed) =~= before);
    }
}

proof fn lemma_commits(runtime: RuntimeView, events: Seq<AgentEvent>, count: int)
    requires
        0 <= count <= events.len(),
        runtime.turn is Running,
    ensures
        after_commits(runtime, events, count).queue == runtime.queue,
        after_commits(runtime, events, count).turn == (TurnView::Running {
            abort_requested: runtime.turn->abort_requested,
            pending_steers: without_oldest(
                runtime.turn->pending_steers,
                taken_up(events.take(count)),
            ),
        }),
    decreases count,
{
    let steers = runtime.turn->pending_steers;
    if count == 0 {
        reveal(Seq::filter);
        assert(events.take(0) =~= Seq::<AgentEvent>::empty());
        assert(taken_up(events.take(0)) == 0);
        assert(without_oldest(steers, 0) =~= steers);
    } else {
        lemma_commits(runtime, events, count - 1);
        let now = events.take(count);
        assert(now.drop_last() =~= events.take(count - 1));
        lemma_taken_up_last(now);
        let k = taken_up(events.take(count - 1));
        if events[count - 1] is InputCommitted {
            assert(without_oldest(steers, k + 1) =~= if without_oldest(steers, k).len() > 0 {
                without_oldest(steers, k).drop_first()
            } else {
                without_oldest(steers, k)
            });
        }
    }
}

/// No input is taken up twice: a step in which a turn took up `k` inputs leaves the steers without
/// the `k` oldest ones. Nothing else of the session changes, and every event of the step is told,
/// in its order.
pub proof fn law_each_steer_is_taken_up_once(
    driver: DriverView,
    runtime: RuntimeView,
    events: Vec<AgentEvent>,
    finished: bool,
)
    requires
        driver.phase is Stepping,
        runtime.turn is Running,
    ensures
        ({
            let to = advance(driver, runtime, TurnReply::Stepped { events, finished });
            &&& to.runtime.turn == (TurnView::Running {
                abort_requested: runtime.turn->abort_requested,
                pending_steers: without_oldest(runtime.turn->pending_steers, taken_up(events@)),
            })
            &&& to.runtime.queue == runtime.queue
            &&& to.sends.len() == events@.len()
            &&& forall|i: int|
                0 <= i < events@.len() ==> #[trigger] to.sends[i] == RuntimeEventView::Agent(
                    events@[i],
                )
        }),
{
    lemma_commits(runtime, events@, events@.len() as int);
    assert(events@.take(events@.len() as int) =~= events@);
}

/// When a turn ends, the steers that it has not taken up, and no others, are told to wait, and they
/// wait in one batch ahead of all others.
pub proof fn law_steers_left_over_wait(driver: DriverView, runtime: RuntimeView)
    requires
        driver.phase is Draining,
        runtime.turn is Running,
    ensures
        ({
            let to = advance(driver, runtime, TurnReply::Ended);
            let left = runtime.turn->pending_steers;
            &&& to.sends.len() == left.len()
            &&& forall|i: int|
                0 <= i < left.len() ==> #[trigger] to.sends[i] == (RuntimeEventView::SteerQueued {
                    input: left[i],
                })
            &&& left.len() == 0 ==> to.runtime.queue == runtime.queue
            &&& left.len() > 0 ==> {
                &&& to.runtime.queue.len() == runtime.queue.len() + 1
                &&& to.runtime.queue[0].inputs == left
                &&& to.runtime.queue[0].channel == driver.channel
                &&& to.runtime.queue.drop_first() == runtime.queue
            }
            &&& to.runtime.turn == (TurnView::Running {
                abort_requested: runtime.turn->abort_requested,
                pending_steers: Seq::empty(),
            })
            &&& to.phase is Closing
            &&& to.request == TurnRequest::TakeHistory
        }),
{
    let to = advance(driver, runtime, TurnReply::Ended);
    let left = runtime.turn->pending_steers;
    if left.len() > 0 {
        assert(to.runtime.queue.drop_first() =~= runtime.queue);
    } else {
        assert(left =~= Seq::<MessageView>::empty());
    }
}

/// A turn from its last step to its end: the steers that were not taken up in that step are the
/// ones that wait afterwards; where all were taken up nothing is told and the queue stays.
pub proof fn law_taken_up_steers_do_not_come_back(
    driver: DriverView,
    runtime: RuntimeView,
    events: Vec<AgentEvent>,
)
    requires
        driver.phase is Stepping,
        runtime.turn is Running,
    ensures
        ({
            let stepped = advance(driver, runtime, TurnReply::Stepped { events, finished: true });
            let second = DriverView { phase: stepped.phase, ..driver };
            let continued = advance(second, stepped.runtime, TurnReply::Continued);
            let third = DriverView { phase: continued.phase, ..driver };
            let ended = advance(third, continued.runtime, TurnReply::Ended);
            let left = without_oldest(runtime.turn->pending_steers, taken_up(events@));
            &&& stepped.request == TurnRequest::Continue
            &&& continued.request == TurnRequest::NextEvent
            &&& continued.sends.len() == 0
            &&& ended.sends.len() == left.len()
            &&& forall|i: int|
                0 <= i < left.len() ==> #[trigger] ended.sends[i]
                    == (RuntimeEventView::SteerQueued { input: left[i] })
            &&& left.len() == 0 ==> ended.runtime.queue == runtime.queue
            &&& left.len() > 0 ==> {
                &&& ended.runtime.queue[0].inputs == left
                &&& ended.runtime.queue.drop_first() == runtime.queue
            }
        }),
{
    law_each_steer_is_taken_up_once(driver, runtime, events, true);
    let stepped = advance(driver, runtime, TurnReply::Stepped { events, finished: true });
    let second = DriverView { phase: stepped.phase, ..driver };
    let continued = advance(second, stepped.runtime, TurnReply::Continued);
    let third = DriverView { phase: continued.phase, ..driver };
    law_steers_left_over_wait(third, continued.runtime);
}

/// A turn that is not finished after a step takes the next one, and the session stays as it is in
/// between.
pub proof fn law_unfinished_turn_steps_on(driver: DriverView, runtime: RuntimeView)
    requires
        driver.phase == (PhaseView::Continuing { finished: false }),
    ensures
        ({
            let to = advance(driver, runtime, TurnReply::Continued);
            &&& to.phase is Stepping
            &&& to.request == TurnRequest::Step
            &&& to.runtime == runtime
            &&& to.sends.len() == 0
        }),
{
}

/// What a turn gives after its last step is told at once, and changes nothing else.
pub proof fn law_late_events_are_told(driver: DriverView, runtime: RuntimeView, event: AgentEvent)
    requires
        driver.phase is Draining,
    ensures
        ({
            let to = advance(driver, runtime, TurnReply::Event(event));
            &&& to.sends.len() == 1
            &&& to.sends[0] == RuntimeEventView::Agent(event)
            &&& to.runtime == runtime
            &&& to.phase == driver.phase
            &&& to.request == TurnRequest::NextEvent
        }),
{
}

/// A turn that refuses to go on fails, unless it was asked to stop: the session then falls back to
/// the history from before the turn, every steer that was not taken up is told to wait, and then
/// the failure is told with its message.
pub proof fn law_refusal_fails_unless_aborted(
    driver: DriverView,
    runtime: RuntimeView,
    message: String,
)
    requires
        runtime.turn is Running,
        driver.phase is Stepping || driver.phase is Continuing || driver.phase
            == (PhaseView::Draining { aborting: false }),
    ensures
        ({
            let to = advance(driver, runtime, TurnReply::Failed(message));
            let left = runtime.turn->pending_steers;
            let stopped = runtime.turn->abort_requested && !(driver.phase is Draining);
            &&& stopped ==> {
                &&& to.phase == (PhaseView::Draining { aborting: true })
                &&& to.request == TurnRequest::NextEvent
                &&& to.runtime == runtime
                &&& to.sends.len() == 0
            }
            &&& !stopped ==> {
                &&& to.phase is Failing
                &&& to.request == TurnRequest::Confirm
                &&& to.runtime.turn == TurnView::Failed(driver.rollback)
                &&& to.sends.len() == left.len() + 1
                &&& forall|i: int|
                    0 <= i < left.len() ==> #[trigger] to.sends[i]
                        == (RuntimeEventView::SteerQueued { input: left[i] })
                &&& to.sends.last() == (RuntimeEventView::TurnFailed {
                    history: driver.rollback,
                    message: message@,
                })
                &&& left.len() == 0 ==> to.runtime.queue == runtime.queue
                &&& left.len() > 0 ==> {
                    &&& to.runtime.queue[0].inputs == left
                    &&& to.runtime.queue[0].channel == driver.channel
                    &&& to.runtime.queue.drop_first() == runtime.queue
                }
            }
        }),
{
    let to = advance(driver, runtime, TurnReply::Failed(message));
    if runtime.turn->pending_steers.len() > 0 && to.phase is Failing {
        assert(to.runtime.queue.drop_first() =~= runtime.queue);
    }
}

/// While a turn is being stopped, what goes wrong in it is not told and changes nothing.
pub proof fn law_stopping_turn_hides_failures(
    driver: DriverView,
    runtime: RuntimeView,
    message: String,
)
    requires
        driver.phase == (PhaseView::Draining { aborting: true }),
    ensures
        ({
            let to = advance(driver, runtime, TurnReply::Failed(message));
            &&& to.phase == driver.phase
            &&& to.runtime == runtime
            &&& to.sends.len() == 0
            &&& to.request == TurnRequest::NextEvent
        }),
{
}

/// The end of a turn is told once, with the history that the turn left. The session keeps that
/// history; if nobody heard of the end the session is ready at once, else it waits to be told that
/// the end was noticed. After a failure the same holds of the history from before the turn.
pub proof fn law_unheard_end_frees_the_session(
    driver: DriverView,
    runtime: RuntimeView,
    history: AgentHistory,
    heard: bool,
)
    ensures
        driver.phase is Closing ==> {
            let told = advance(driver, runtime, TurnReply::History(history));
            let last = advance(
                DriverView { phase: told.phase, ..driver },
                told.runtime,
                TurnReply::Sent(heard),
            );
            &&& told.sends.len() == 1
            &&& told.sends[0] == (RuntimeEventView::TurnFinished { history: history@ })
            &&& told.runtime.turn == TurnView::PendingAck(history@)
            &&& told.request == TurnRequest::Confirm
            &&& last.request == TurnRequest::Stop
            &&& last.sends.len() == 0
            &&& last.runtime.queue == runtime.queue
            &&& last.runtime.turn == if heard {
                TurnView::PendingAck(history@)
            } else {
                TurnView::Ready(history@)
            }
        },
        driver.phase is Failing ==> {
            let last = advance(driver, runtime, TurnReply::Sent(heard));
            &&& last.request == TurnRequest::Stop
            &&& last.sends.len() == 0
            &&& last.runtime.queue == runtime.queue
            &&& heard ==> last.runtime.turn == runtime.turn
            &&& !heard ==> last.runtime.turn == TurnView::Ready(driver.rollback)
        },
{
}

/// What is asked of a turn at some point of its life.
pub open spec fn asks(phase: PhaseView, request: TurnRequest) -> bool {
    match request {
        TurnRequest::Step => phase is Stepping,
        TurnRequest::Continue => phase is Continuing,
        TurnRequest::NextEvent => phase is Draining,
        TurnRequest::TakeHistory => phase is Closing,
        TurnRequest::Confirm => phase is Finishing || phase is Failing,
        TurnRequest::Stop => phase is Done,
    }
}

/// Whether an answer is one to a request.
pub open spec fn answers(reply: TurnReply, request: TurnRequest) -> bool {
    match request {
        TurnRequest::Step => reply is Stepped || reply is Failed,
        TurnRequest::Continue => reply is Continued || reply is Failed,
        TurnRequest::NextEvent => reply is Event || reply is Ended || reply is Failed,
        TurnRequest::TakeHistory => reply is History,
        TurnRequest::Confirm => reply is Sent,
        TurnRequest::Stop => false,
    }
}

/// The driver always knows what it asked for. An answer to it leads on, and the driver stops only
/// after the end was told; an answer that was not asked for stops it and changes nothing.
pub proof fn law_requests_and_answers_alternate(
    driver: DriverView,
    runtime: RuntimeView,
    request: TurnRequest,
    reply: TurnReply,
)
    requires
        asks(driver.phase, request),
    ensures
        asks(advance(driver, runtime, reply).phase, advance(driver, runtime, reply).request),
        !answers(reply, request) ==> {
            let to = advance(driver, runtime, reply);
            to.request == TurnRequest::Stop && to.runtime == runtime && to.sends.len() == 0
        },
        answers(reply, request) && request != TurnRequest::Confirm ==> advance(
            driver,
            runtime,
            reply,
        ).request != TurnRequest::Stop,
{
}

/// Whatever a turn answers, no input that waits in the session is lost and none overtakes another:
/// the inputs held afterwards are those held before without the oldest steers, which the turn took
/// up in the step, and there are no more of those than the step says.
pub proof fn law_inputs_are_held_until_taken_up(
    driver: DriverView,
    runtime: RuntimeView,
    reply: TurnReply,
)
    requires
        runtime.turn is Running,
        !(driver.phase is Closing) && !(driver.phase is Finishing) && !(driver.phase is Failing),
    ensures
        ({
            let after = held(advance(driver, runtime, reply).runtime);
            let before = held(runtime);
            match (driver.phase, reply) {
                (PhaseView::Stepping, TurnReply::Stepped { events, .. }) => {
                    let steers = runtime.turn->pending_steers;
                    let gone = if taken_up(events@) <= steers.len() {
                        taken_up(events@)
                    } else {
                        steers.len()
                    };
                    after == before.skip(gone as int)
                },
                _ => after == before,
            }
        }),
{
    let to = advance(driver, runtime, reply);
    match (driver.phase, reply) {
        (PhaseView::Stepping, TurnReply::Stepped { events, finished }) => {
            law_each_steer_is_taken_up_once(driver, runtime, events, finished);
            let steers = runtime.turn->pending_steers;
            let gone = if taken_up(events@) <= steers.len() {
                taken_up(events@) as int
            } else {
                steers.len() as int
            };
            assert(held(to.runtime) =~= held(runtime).skip(gone));
        },
        _ => {
            law_requeue_keeps_order(runtime, driver.channel);
            if to.phase is Failing {
                law_failure_rolls_back(driver, runtime, reply);
                assert(held(to.runtime) =~= waiting(
                    to.runtime.queue,
                    to.runtime.queue.len() as int,
                ));
            }
        },
    }
}

} // verus!
