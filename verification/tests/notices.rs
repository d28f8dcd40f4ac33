use coox::events::{apply_agent_event, apply_runtime_error, AgentEvent};
use coox::geometry::Rect;
use coox::harness::request::{PipelineStep, RequestPipeline};
use coox::harness::skills::{
    format_available_skills_prompt, format_skill_document, SkillDocument, SkillSummary,
};
use coox::harness::tools::{
    FnTool, ToolBuilder, ToolContext, ToolExecutionPolicy, ToolSlots, ToolUpdateParts,
    ToolUpdatePayload,
};
use coox::message::{ImageContent, InputContent, InputMessage, OutputContentDelta};
use coox::notifications::{NotificationCenter, NotificationKind, NOTIFICATION_TTL};
use coox::pending_inputs::{PendingDelivery, PendingInputs};
use coox::state::AppState;
use coox::status::{StatusBar, StatusBarState};
use coox::workspace::grep_tool::GrepProgress;

fn text_input(text: &str) -> InputMessage {
    InputMessage::User(vec![InputContent::Text(text.to_string())])
}

#[test]
fn model_delta_updates_app_state_without_mapping_protocol() {
    let mut state = AppState::default();

    apply_agent_event(
        AgentEvent::ModelDelta {
            content_index: 0,
            delta: OutputContentDelta::Text("hello".to_string()),
        },
        &mut state,
    );

    assert_eq!(state.blocks().len(), 1);
}

#[test]
fn runtime_error_appends_error_block() {
    let mut state = AppState::default();

    apply_runtime_error("client error: missing api key".to_string(), &mut state);

    assert_eq!(state.blocks().len(), 1);
}

#[test]
fn notification_expires_after_ttl() {
    let now = 1_000;
    let mut center = NotificationCenter::new();

    center.push_at(NotificationKind::Warning, "busy".to_string(), now);

    assert_eq!(center.current_message(), Some("busy"));
    assert!(!center.tick(now + NOTIFICATION_TTL - 1));
    assert!(center.tick(now + NOTIFICATION_TTL));
    assert_eq!(center.current_message(), None);
}

#[test]
fn a_notification_tells_how_long_it_stays() {
    let mut center = NotificationCenter::new();
    assert_eq!(center.next_deadline(5), None);
    center.push_at(NotificationKind::Success, "copied".to_string(), 5);
    assert_eq!(center.next_deadline(5), Some(NOTIFICATION_TTL));
    assert_eq!(center.next_deadline(5 + NOTIFICATION_TTL), Some(0));
    assert_eq!(center.next_deadline(u64::MAX), Some(0));
}

#[test]
fn a_notification_fits_its_area() {
    let mut center = NotificationCenter::new();
    assert!(center.render(Rect::new(0, 0, 80, 24)).is_none());
    center.push_at(NotificationKind::Error, "x".repeat(200), 0);
    let drawing = center.render(Rect::new(0, 0, 80, 24)).expect("drawn");
    assert_eq!((drawing.size.width, drawing.size.height), (44, 3));
    let small = center.render(Rect::new(0, 0, 20, 24)).expect("drawn");
    assert!(small.size.width <= 20);
    assert_eq!(NotificationKind::Info.label(), "info");
    assert_eq!(NotificationKind::Success.label(), "ok");
    assert_eq!(NotificationKind::Warning.label(), "wait");
    assert_eq!(NotificationKind::Error.label(), "error");
}

#[test]
fn renders_runtime_context_without_activity() {
    let status = StatusBarState {
        model: "gpt-test".to_string(),
        context: "42%".to_string(),
        workspace: "copro".to_string(),
    };

    let line = StatusBar::new(&status).line().text();

    assert!(line.contains("gpt-test"));
    assert!(line.contains("42%"));
    assert!(line.contains("copro"));
    assert!(!line.contains("idle"));
    assert!(!line.contains("streaming"));
    assert_eq!(line, "gpt-test · 42% · copro");
}

#[test]
fn committed_inputs_leave_in_their_order() {
    let mut pending = PendingInputs::default();
    pending.push(text_input("one"), PendingDelivery::Steer);
    pending.push(text_input("two"), PendingDelivery::Queue);
    assert_eq!(pending.render_height(), 2);
    assert!(!pending.commit_next(&text_input("two"), PendingDelivery::Steer));
    assert!(pending.commit_next(&text_input("one"), PendingDelivery::Steer));
    assert!(!pending.commit_next(&text_input("one"), PendingDelivery::Steer));
    assert!(pending.commit_next(&text_input("two"), PendingDelivery::Queue));
    assert!(pending.is_empty());
}

#[test]
fn a_steer_that_was_not_taken_becomes_a_queued_input() {
    let mut pending = PendingInputs::default();
    pending.push(text_input("one"), PendingDelivery::Steer);
    assert!(pending.requeue_next_steer(&text_input("one")));
    assert_eq!(pending.items()[0].delivery, PendingDelivery::Queue);
    assert!(!pending.requeue_next_steer(&text_input("one")));
}

#[test]
fn many_pending_inputs_are_counted() {
    let mut pending = PendingInputs::default();
    for index in 0..5 {
        pending.push(text_input(&format!("input\n{index}")), PendingDelivery::Queue);
    }
    let lines = pending
        .render_lines()
        .iter()
        .map(|line| line.text())
        .collect::<Vec<_>>();
    assert_eq!(lines, ["queue input 0", "queue input 1", "+3 pending"]);
}

#[test]
fn request_pipeline_runs_injectors_in_order() {
    let pipeline = RequestPipeline::new(vec!["first", "second"]);
    let mut messages = vec!["hello"];
    let mut done = 0;
    let mut result: Result<(), String> = Ok(());
    loop {
        match pipeline.prepare_request(done, result) {
            PipelineStep::Run(index) => {
                messages.push(pipeline.injectors[index]);
                done = index + 1;
                result = Ok(());
            }
            PipelineStep::Ready => break,
            PipelineStep::Stop(error) => panic!("{error}"),
        }
    }

    assert_eq!(messages[1], "first");
    assert_eq!(messages[2], "second");
    assert_eq!(messages.len(), 3);
}

#[test]
fn request_pipeline_builder_adds_injectors() {
    let pipeline = RequestPipeline::default()
        .with_injector("first")
        .with_injector("second");

    assert_eq!(pipeline.len(), 2);
    assert!(!pipeline.is_empty());
}

#[test]
fn a_failed_injector_stops_the_pipeline() {
    let pipeline = RequestPipeline::new(vec!["first", "second"]);
    assert!(matches!(
        pipeline.prepare_request(1, Err("no".to_string())),
        PipelineStep::Stop(error) if error == "no"
    ));
}

#[test]
fn skills_are_listed_and_documented() {
    assert_eq!(format_available_skills_prompt(&Vec::new()), None);
    let summary = SkillSummary::new("sql".to_string(), "Query data".to_string());
    let prompt = format_available_skills_prompt(&vec![summary]).expect("prompt");
    assert!(prompt.contains("sql"));
    assert!(prompt.contains("Query data"));
    let document = SkillDocument::new(
        SkillSummary::new("sql".to_string(), "Query data".to_string()),
        "/skills/sql".to_string(),
        "Use it.".to_string(),
    );
    let text = format_skill_document(&document);
    assert!(text.contains("/skills/sql"));
    assert!(text.contains("Use it."));
}

#[test]
fn a_slot_holds_its_last_value() {
    let mut slots = ToolSlots::new().with(1, "a").with(2, "b");
    slots.insert(1, "c");
    assert_eq!(slots.get(1).as_deref(), Some(&"c"));
    assert_eq!(slots.get(2).as_deref(), Some(&"b"));
    assert_eq!(slots.get(3), None);
}

#[test]
fn a_copy_of_slots_keeps_its_values() {
    let mut slots = ToolSlots::new().with(1, "a");
    let copy = slots.clone();
    slots.insert(1, "c");
    slots.insert(2, "b");
    assert_eq!(copy.get(1).as_deref(), Some(&"a"));
    assert_eq!(copy.get(2), None);
    assert_eq!(slots.get(1).as_deref(), Some(&"c"));
    assert_eq!(slots.get(2).as_deref(), Some(&"b"));
    assert_eq!(ToolSlots::<u8>::default().get(1), None);
}

#[test]
fn updates_are_numbered_while_someone_listens() {
    let progress = GrepProgress {
        searched_files: 1,
        matched_files: 0,
        current_path: None,
    };
    let payload = || serde_json::Value::from(7);
    let mut context = ToolContext::new("call-1".to_string(), "grep".to_string(), true);
    let first = context
        .emit(ToolUpdateParts::new(progress.kind().to_string(), payload()))
        .expect("update");
    let second = context
        .emit(ToolUpdateParts::new(progress.kind().to_string(), payload()))
        .expect("update");
    assert_eq!(first.kind, "grep.progress");
    assert_eq!(first.payload, payload());
    assert_eq!(second.sequence, first.sequence + 1);
    assert_eq!(first.call_id, "call-1");
    let mut silent = ToolContext::new("call-2".to_string(), "grep".to_string(), false);
    assert!(silent
        .emit(ToolUpdateParts::new("k".to_string(), payload()))
        .is_none());
}

#[test]
fn tools_run_one_after_the_other_by_default() {
    let tool = ToolBuilder::new("t".to_string(), "d".to_string(), 3).build();
    assert_eq!(tool.execution_policy, ToolExecutionPolicy::Serial);
    let parallel =
        FnTool::new("t".to_string(), "d".to_string(), 3).with_execution_policy(
            ToolExecutionPolicy::Parallel,
        );
    assert_eq!(parallel.execution_policy, ToolExecutionPolicy::Parallel);
}

#[test]
fn images_wait_as_a_word() {
    let mut pending = PendingInputs::default();
    pending.push(
        InputMessage::User(vec![
            InputContent::Text("see".to_string()),
            InputContent::Image(ImageContent::Url {
                url: "https://example.com/a.png".to_string(),
            }),
        ]),
        PendingDelivery::Steer,
    );
    assert_eq!(pending.render_lines()[0].text(), "steer see [image]");
}
