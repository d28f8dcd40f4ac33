//! What a running turn tells, and what it changes in the conversation.

use crate::message::{InputMessage, OutputContentDelta, ToolResult};
use crate::state::{AppState, KindView, StateView};
use vstd::prelude::*;

verus! {

/// What a turn tells of its progress.
#[derive(Debug)]
pub enum AgentEvent {
    TurnStarted,
    TurnFinished,
    TurnAborted,
    InputCommitted { input: InputMessage },
    ModelDelta { content_index: usize, delta: OutputContentDelta },
    ToolStarted,
    ToolResultCommitted { result: ToolResult },
    AssistantCommitted,
    StepReady,
    StepStarted,
    StepCompleted,
    ControlRequired,
    TurnPaused,
    TurnResumed,
    TurnPreempted,
    TurnRecovering,
}

/// What an event makes of the conversation.
pub open spec fn after_event(state: StateView, event: AgentEvent) -> StateView {
    match event {
        AgentEvent::InputCommitted { input } => state.with_input(input@),
        AgentEvent::ModelDelta { content_index, delta } => state.with_delta(
            content_index,
            delta@,
        ),
        AgentEvent::ToolResultCommitted { result } => state.with_tool_result(result@),
        _ => state,
    }
}

/// Brings the conversation up to date with an event.
pub fn apply_agent_event(event: AgentEvent, state: &mut AppState)
    requires
        old(state)@.next_id < u64::MAX,
    ensures
        final(state)@ == after_event(old(state)@, event),
{
    match event {
        AgentEvent::InputCommitted { input } => state.push_input(input),
        AgentEvent::ModelDelta { content_index, delta } => state.apply_delta_at(
            content_index,
            delta,
        ),
        AgentEvent::ToolResultCommitted { result } => state.apply_tool_result(result),
        _ => {},
    }
}

/// Shows an error at the end of the conversation.
pub fn apply_runtime_error(message: String, state: &mut AppState)
    requires
        old(state)@.next_id < u64::MAX,
    ensures
        final(state)@ == old(state)@.pushed(KindView::Error { text: message@ }, false),
{
    state.push_error(message);
}

/// What a turn tells of inputs, output and tool results is put into the conversation as it comes; the
/// rest of what it tells leaves the conversation as it is.
pub proof fn law_events_are_put_into_the_conversation(state: StateView, event: AgentEvent)
    ensures
        match event {
            AgentEvent::InputCommitted { input } => after_event(state, event) == state.with_input(
                input@,
            ),
            AgentEvent::ModelDelta { content_index, delta } => after_event(state, event)
                == state.with_delta(content_index, delta@),
            AgentEvent::ToolResultCommitted { result } => after_event(state, event)
                == state.with_tool_result(result@),
            _ => after_event(state, event) == state,
        },
{
}

} // verus!
