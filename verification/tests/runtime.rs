use coox::events::AgentEvent;
use coox::history::{AgentHistory, Message, OutputContent};
use coox::message::{InputContent, InputMessage, OutputContentDelta};
use coox::runtime::{
    AgentRuntime, DeliveryAction, DeliveryIntent, DeliveryResult, RuntimeControlError,
    RuntimeTurnSnapshot, SubmitError, TurnStart,
};
use coox::turn_driver::{
    check_resume, resumes_before_abort, RuntimeEvent, TurnDriver, TurnReply, TurnRequest,
};

fn user_message(text: &str) -> InputMessage {
    InputMessage::User(vec![InputContent::Text(text.to_string())])
}

fn user_entry(text: &str) -> Message {
    Message::user(vec![InputContent::Text(text.to_string())])
}

fn deliver(
    runtime: &mut AgentRuntime,
    delivery: DeliveryIntent,
    text: &str,
    channel: u64,
) -> Result<DeliveryAction, SubmitError> {
    runtime.accept_user_input(user_message(text), delivery, channel)
}

fn started(taken: Result<DeliveryAction, SubmitError>) -> TurnStart {
    match taken {
        Ok(DeliveryAction::Start(start)) => start,
        _ => panic!("expected a turn to start"),
    }
}

/// What a scripted turn does: it answers with text, fails, or is stopped.
#[derive(Clone, Copy)]
enum Script {
    Answers(&'static str),
    Fails {
        partial: Option<&'static str>,
        message: &'static str,
    },
    Stopped,
}

fn text_delta(text: &str) -> AgentEvent {
    AgentEvent::ModelDelta {
        content_index: 0,
        delta: OutputContentDelta::Text(text.to_string()),
    }
}

/// A stream that a turn runs through up to its end, or up to what goes wrong in it.
fn stepped(stream: Vec<Result<AgentEvent, &str>>) -> TurnReply {
    match stream.into_iter().collect::<Result<Vec<_>, _>>() {
        Ok(events) => TurnReply::Stepped {
            events,
            finished: true,
        },
        Err(message) => TurnReply::Failed(message.to_string()),
    }
}

fn drive(
    runtime: &mut AgentRuntime,
    start: TurnStart,
    channel: u64,
    script: Script,
    heard: bool,
) -> Vec<RuntimeEvent> {
    let mut driver = TurnDriver::new(start.rollback, channel);
    let mut request = TurnRequest::Step;
    let mut told = Vec::new();
    loop {
        let reply = match request {
            TurnRequest::Step => match script {
                Script::Answers(text) => stepped(vec![Ok(text_delta(text))]),
                Script::Fails { partial, message } => {
                    let mut stream = Vec::new();
                    stream.extend(partial.map(|text| Ok(text_delta(text))));
                    stream.push(Err(message));
                    stepped(stream)
                }
                Script::Stopped => stepped(vec![Err("preempted")]),
            },
            TurnRequest::Continue => TurnReply::Continued,
            TurnRequest::NextEvent => TurnReply::Ended,
            TurnRequest::TakeHistory => {
                let mut messages = start.history.messages().to_vec();
                if let Script::Answers(text) = script {
                    let content = if text.is_empty() {
                        Vec::new()
                    } else {
                        vec![OutputContent::Text(text.to_string())]
                    };
                    messages.push(Message::assistant(content));
                }
                TurnReply::History(AgentHistory::from_messages(messages))
            }
            TurnRequest::Confirm => TurnReply::Sent(heard),
            TurnRequest::Stop => return told,
        };
        let step = driver.advance(runtime, reply);
        told.extend(step.sends);
        request = step.request;
    }
}

fn finished_history(events: Vec<RuntimeEvent>) -> AgentHistory {
    match events.into_iter().last() {
        Some(RuntimeEvent::TurnFinished { history }) => history,
        _ => panic!("expected finished event"),
    }
}

fn runtime_messages(runtime: &AgentRuntime) -> Option<Vec<Message>> {
    runtime.history().map(|history| history.messages().to_vec())
}

#[test]
fn runtime_can_start_with_initial_history() {
    let history = AgentHistory::from_messages(vec![Message::developer(vec![InputContent::Text(
        "Current workspace: /workspace".to_string(),
    )])]);
    let runtime = AgentRuntime::new_with_history(history.clone());

    assert_eq!(runtime.history(), Some(history));
}

#[test]
fn successful_submit_finishes_with_updated_history() {
    let mut runtime = AgentRuntime::new();

    let taken = deliver(&mut runtime, DeliveryIntent::Submit, "hi", 1);
    assert_eq!(
        taken.as_ref().map(|action| action.result()),
        Ok(DeliveryResult::Submitted)
    );

    let events = drive(
        &mut runtime,
        started(taken),
        1,
        Script::Answers("hello"),
        true,
    );
    let history = finished_history(events);

    assert_eq!(
        history.messages(),
        &[
            user_entry("hi"),
            Message::assistant(vec![OutputContent::Text("hello".to_string())]),
        ]
    );

    runtime.finish_success(history);

    assert!(!runtime.is_busy());
    assert_eq!(
        runtime_messages(&runtime),
        Some(vec![
            user_entry("hi"),
            Message::assistant(vec![OutputContent::Text("hello".to_string())]),
        ])
    );
}

#[test]
fn completed_submit_remains_busy_until_terminal_event_is_acked() {
    let mut runtime = AgentRuntime::new();

    let start = started(deliver(&mut runtime, DeliveryIntent::Submit, "first", 1));
    let history = finished_history(drive(
        &mut runtime,
        start,
        1,
        Script::Answers("hello"),
        true,
    ));

    assert_eq!(
        deliver(&mut runtime, DeliveryIntent::Submit, "second", 1).err(),
        Some(SubmitError::Busy)
    );
    assert!(runtime.is_busy());
    assert_eq!(runtime.turn_snapshot(), RuntimeTurnSnapshot::PendingAck);

    runtime.finish_success(history);

    assert_eq!(
        deliver(&mut runtime, DeliveryIntent::Submit, "second", 1)
            .map(|action| action.result())
            .ok(),
        Some(DeliveryResult::Submitted)
    );
}

#[test]
fn queued_inputs_start_separate_follow_up_turns() {
    let mut runtime = AgentRuntime::new();
    let mut requests = Vec::new();

    let start = started(deliver(&mut runtime, DeliveryIntent::Submit, "first", 1));
    requests.push(start.history.messages().to_vec());
    let history = finished_history(drive(&mut runtime, start, 1, Script::Answers(""), true));

    assert_eq!(
        deliver(&mut runtime, DeliveryIntent::Queue, "second", 2)
            .map(|action| action.result())
            .ok(),
        Some(DeliveryResult::Queued)
    );
    assert_eq!(
        deliver(&mut runtime, DeliveryIntent::Queue, "third", 3)
            .map(|action| action.result())
            .ok(),
        Some(DeliveryResult::Queued)
    );
    let next = runtime.finish_success(history).expect("second turn");

    assert_eq!(next.batch.inputs, vec![user_message("second")]);
    assert_eq!(next.batch.channel, 2);
    requests.push(next.start.history.messages().to_vec());
    let history = finished_history(drive(
        &mut runtime,
        next.start,
        2,
        Script::Answers(""),
        true,
    ));
    let next = runtime.finish_success(history).expect("third turn");

    assert_eq!(next.batch.inputs, vec![user_message("third")]);
    assert_eq!(next.batch.channel, 3);
    requests.push(next.start.history.messages().to_vec());
    let history = finished_history(drive(
        &mut runtime,
        next.start,
        3,
        Script::Answers(""),
        true,
    ));
    assert!(runtime.finish_success(history).is_none());

    assert!(!runtime.is_busy());
    assert_eq!(
        requests,
        vec![
            vec![user_entry("first")],
            vec![
                user_entry("first"),
                Message::assistant(Vec::new()),
                user_entry("second"),
            ],
            vec![
                user_entry("first"),
                Message::assistant(Vec::new()),
                user_entry("second"),
                Message::assistant(Vec::new()),
                user_entry("third"),
            ],
        ]
    );
}

#[test]
fn uncommitted_steers_fallback_as_one_follow_up_turn() {
    let mut runtime = AgentRuntime::new();
    let mut requests = Vec::new();

    let start = started(deliver(&mut runtime, DeliveryIntent::Submit, "first", 1));
    requests.push(start.history.messages().to_vec());
    assert_eq!(
        deliver(&mut runtime, DeliveryIntent::Steer, "second", 1)
            .map(|action| action.result())
            .ok(),
        Some(DeliveryResult::Steered)
    );
    assert_eq!(
        deliver(&mut runtime, DeliveryIntent::Steer, "third", 1)
            .map(|action| action.result())
            .ok(),
        Some(DeliveryResult::Steered)
    );
    runtime.active_turn(true).expect("an active turn");
    assert!(runtime.abort_requested());

    let events = drive(&mut runtime, start, 1, Script::Stopped, true);
    let requeued = events
        .iter()
        .filter_map(|event| match event {
            RuntimeEvent::SteerQueued { input } => Some(input.clone()),
            _ => None,
        })
        .collect::<Vec<_>>();
    assert_eq!(requeued, [user_message("second"), user_message("third")]);
    let next = runtime
        .finish_success(finished_history(events))
        .expect("fallback turn");
    requests.push(next.start.history.messages().to_vec());
    let history = finished_history(drive(
        &mut runtime,
        next.start,
        1,
        Script::Answers("done"),
        true,
    ));
    runtime.finish_success(history);

    assert!(!runtime.is_busy());
    assert_eq!(
        requests,
        vec![
            vec![user_entry("first")],
            vec![
                user_entry("first"),
                user_entry("second"),
                user_entry("third"),
            ],
        ]
    );
}

#[test]
fn successful_submit_recovers_state_when_receiver_is_dropped() {
    let mut runtime = AgentRuntime::new();

    let start = started(deliver(&mut runtime, DeliveryIntent::Submit, "hi", 1));
    drive(&mut runtime, start, 1, Script::Answers("hello"), false);

    assert!(!runtime.is_busy());
    assert_eq!(
        runtime_messages(&runtime),
        Some(vec![
            user_entry("hi"),
            Message::assistant(vec![OutputContent::Text("hello".to_string())]),
        ])
    );

    assert_eq!(
        deliver(&mut runtime, DeliveryIntent::Submit, "again", 1)
            .map(|action| action.result())
            .ok(),
        Some(DeliveryResult::Submitted)
    );
}

#[test]
fn failed_submit_rolls_back_history() {
    let mut runtime = AgentRuntime::new();

    let start = started(deliver(&mut runtime, DeliveryIntent::Submit, "hi", 1));
    let events = drive(
        &mut runtime,
        start,
        1,
        Script::Fails {
            partial: None,
            message: "client error: missing api key",
        },
        true,
    );
    let Some(RuntimeEvent::TurnFailed { history, message }) = events.into_iter().last() else {
        panic!("expected failed event");
    };

    assert!(message.contains("missing api key"));
    assert!(history.messages().is_empty());
    assert_eq!(runtime.turn_snapshot(), RuntimeTurnSnapshot::Failed);

    runtime.finish_failure(history);

    assert!(!runtime.is_busy());
    assert_eq!(runtime_messages(&runtime), Some(Vec::new()));
}

#[test]
fn failed_submit_after_partial_event_does_not_synthesize_model_delta() {
    let mut runtime = AgentRuntime::new();

    let start = started(deliver(&mut runtime, DeliveryIntent::Submit, "hi", 1));
    let events = drive(
        &mut runtime,
        start,
        1,
        Script::Fails {
            partial: Some("partial"),
            message: "stream failed",
        },
        true,
    );

    assert!(!events
        .iter()
        .any(|event| matches!(event, RuntimeEvent::Agent(_))));
    let Some(RuntimeEvent::TurnFailed { history, message }) = events.into_iter().last() else {
        panic!("expected failed event");
    };
    assert!(message.contains("stream failed"));
    assert!(history.messages().is_empty());
}

#[test]
fn busy_submit_does_not_consume_input_or_change_history() {
    let mut runtime = AgentRuntime::new();

    assert!(deliver(&mut runtime, DeliveryIntent::Submit, "first", 1).is_ok());

    assert_eq!(
        deliver(&mut runtime, DeliveryIntent::Submit, "second", 1).err(),
        Some(SubmitError::Busy)
    );
    assert!(runtime.is_busy());
    assert!(runtime.history().is_none());
}

#[test]
fn a_busy_runtime_keeps_its_history() {
    let mut runtime = AgentRuntime::new();
    assert!(runtime.reset_history(AgentHistory::default()).is_ok());
    assert!(deliver(&mut runtime, DeliveryIntent::Submit, "first", 1).is_ok());
    let refused = runtime.reset_history(AgentHistory::default()).err();
    assert_eq!(refused.map(|busy| busy.message()), Some("runtime is busy"));
}

#[test]
fn control_needs_a_turn_that_runs() {
    let mut runtime = AgentRuntime::new();
    let error = runtime.active_turn(false).expect_err("no turn");
    assert_eq!(error.message(), "no active turn");
    assert!(resumes_before_abort(Ok(true)));
    assert!(!resumes_before_abort(Ok(false)));
    assert!(!resumes_before_abort(Err("gone".to_string())));
    assert!(check_resume(Ok(true)).is_ok());
    assert_eq!(
        check_resume(Ok(false)).expect_err("not paused").message(),
        RuntimeControlError::Agent("turn is not paused".to_string()).message()
    );
    assert!(check_resume(Err("gone".to_string()))
        .expect_err("no state")
        .message()
        .contains("gone"));
}
