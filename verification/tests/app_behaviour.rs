use coox::app::commands::{ensure_running, format_help};
use coox::app::cycle::TerminalEvent;
use coox::app::frame::ConversationFrame;
use coox::app::keys::{KeyCode, KeyPress};
use coox::app::mouse::{MouseEvent, MouseHandled, MouseKind, MOUSE_SCROLL_ROWS};
use coox::app::surface::AppSelectionSurface;
use coox::app::view::{App, AppEffect, DirtyState};
use coox::blocks::{BlockSegment, CodeHighlighter};
use coox::command::builtins::builtins;
use coox::conversation::{BlockDrawing, DrawItem};
use coox::geometry::Rect;
use coox::history::{AgentHistory, Message};
use coox::input::InputEditor;
use coox::message::{ImageContent, InputContent, InputMessage, OutputContentDelta};
use coox::runtime::{AgentRuntime, DeliveryIntent, RuntimeTurnSnapshot, TurnStart};
use coox::state::BlockKind;
use coox::turn_driver::{RuntimeEvent, TurnDriver, TurnReply, TurnRequest};
use ratatui::buffer::Buffer;
use ratatui::widgets::{Paragraph, Widget, Wrap};
use std::sync::Arc;

const NOW: u64 = 1_000;

fn new_app() -> App {
    App::new(
        AgentRuntime::new(),
        "copro".to_string(),
        "gpt-test".to_string(),
    )
}

fn insert_text(input: &mut InputEditor, text: &str) {
    for ch in text.chars() {
        input.insert_char(ch);
    }
}

fn press(app: &mut App, code: KeyCode, width: usize) -> (DirtyState, Vec<AppEffect>) {
    app.handle_key(KeyPress::plain(code), width, NOW)
}

fn press_control(app: &mut App, code: KeyCode, width: usize) -> (DirtyState, Vec<AppEffect>) {
    let key = KeyPress {
        control: true,
        ..KeyPress::plain(code)
    };
    app.handle_key(key, width, NOW)
}

fn click(app: &mut App, kind: MouseKind, column: u16, row: u16) -> MouseHandled {
    app.handle_mouse(MouseEvent { kind, column, row }, NOW)
}

fn numbered_lines(prefix: &str, count: usize) -> String {
    (0..count)
        .map(|index| format!("{prefix} {index}"))
        .collect::<Vec<_>>()
        .join("\n")
}

fn show_text(app: &mut App, text: String) {
    app.state.apply_delta(OutputContentDelta::Text(text));
}

fn draw_blocks(app: &App, drawings: &[BlockDrawing], screen: &mut Buffer) {
    let layout = app.conversation_layout.as_ref().expect("a layout");
    for drawing in drawings {
        let segments = &layout.blocks()[drawing.block].segments;
        for item in &drawing.items {
            let DrawItem::Text(text) = item else {
                continue;
            };
            let lines = segments[text.start..text.end]
                .iter()
                .filter_map(|segment| match segment {
                    BlockSegment::Line(line) => {
                        Some(ratatui::text::Line::from(line.line().text()))
                    }
                    BlockSegment::Image(_) => None,
                })
                .collect::<Vec<_>>();
            let area = ratatui::layout::Rect::new(0, 0, text.width, text.slice_height);
            let mut slice = Buffer::empty(area);
            Paragraph::new(lines)
                .wrap(Wrap { trim: text.trim })
                .render(area, &mut slice);
            for row in 0..text.rows {
                for column in 0..text.width {
                    screen[(text.x + column, text.y + row)] =
                        slice[(column, text.from_row + row)].clone();
                }
            }
        }
    }
}

fn render_text(app: &mut App, width: u16, height: u16) -> String {
    let area = Rect::new(0, 0, width, height);
    let plan = app.render_app(area, &CodeHighlighter::new());
    let mut screen = Buffer::empty(ratatui::layout::Rect::new(0, 0, width, height));
    let drawings = match plan.conversation {
        ConversationFrame::Drawn { drawings, .. } => drawings,
        ConversationFrame::Cached => app
            .conversation_layout
            .as_ref()
            .expect("a layout")
            .render(plan.areas.conversation, app.conversation_scroll_from_bottom),
    };
    draw_blocks(app, &drawings, &mut screen);
    for cell in &plan.input.cells {
        screen[(cell.x, cell.y)].set_symbol(&cell.text);
    }
    if let Some(menu) = &plan.menu {
        let menu_area = plan.areas.conversation;
        app.command_menu.drawn(Some(Rect::new(
            menu_area.x,
            menu_area.bottom() - menu.height,
            menu_area.width,
            menu.height,
        )));
    }
    (0..height)
        .map(|y| {
            (0..width)
                .map(|x| screen[(x, y)].symbol())
                .collect::<String>()
                + "\n"
        })
        .collect()
}

/// Brings a turn of an app to its end: it finishes with its history, or was stopped.
fn end_turn(app: &mut App, start: TurnStart, stopped: bool) -> Vec<RuntimeEvent> {
    let mut driver = TurnDriver::new(start.rollback, 0);
    let mut history = Some(start.history);
    let mut request = TurnRequest::Step;
    let mut told = Vec::new();
    loop {
        let reply = match request {
            TurnRequest::Step if stopped => TurnReply::Failed("preempted".to_string()),
            TurnRequest::Step => TurnReply::Stepped {
                events: Vec::new(),
                finished: true,
            },
            TurnRequest::Continue => TurnReply::Continued,
            TurnRequest::NextEvent => TurnReply::Ended,
            TurnRequest::TakeHistory => TurnReply::History(history.take().expect("a history")),
            TurnRequest::Confirm => TurnReply::Sent(true),
            TurnRequest::Stop => return told,
        };
        let step = driver.advance(&mut app.runtime, reply);
        told.extend(step.sends);
        request = step.request;
    }
}

fn started(effects: Vec<AppEffect>) -> TurnStart {
    match effects.into_iter().next() {
        Some(AppEffect::StartTurn(start)) => start,
        _ => panic!("expected a turn to start"),
    }
}

fn draw_if_dirty(app: &mut App, images_ready: bool, highlighter: &CodeHighlighter) -> bool {
    let (draw, _) = app.prepare_drawing(Vec::new(), images_ready, NOW, highlighter);
    if draw {
        app.render_app(Rect::new(0, 0, 30, 18), highlighter);
        app.finish_drawing();
    }
    draw
}

#[test]
fn idle_frame_is_not_redrawn_after_initial_render() {
    let mut app = new_app();
    let highlighter = CodeHighlighter::new();

    assert!(draw_if_dirty(&mut app, false, &highlighter));
    assert!(!draw_if_dirty(&mut app, false, &highlighter));
}

#[test]
fn completed_image_prepare_marks_next_frame_dirty_once() {
    let mut app = new_app();
    let highlighter = CodeHighlighter::new();
    app.state
        .apply_delta(OutputContentDelta::Image(ImageContent::Data {
            mime_type: "image/png".to_string(),
            data: Arc::new(vec![1, 2, 3]),
        }));

    assert!(draw_if_dirty(&mut app, false, &highlighter));
    assert!(!draw_if_dirty(&mut app, false, &highlighter));
    assert!(draw_if_dirty(&mut app, true, &highlighter));
    assert!(!draw_if_dirty(&mut app, false, &highlighter));
}

#[test]
fn typing_marks_frame_dirty_without_rerendering_conversation() {
    let mut app = new_app();

    let (dirty, _) = press(&mut app, KeyCode::Char('a'), 20);

    assert_eq!(dirty, DirtyState::frame());
}

#[test]
fn scroll_marks_conversation_dirty() {
    let mut app = new_app();

    let (dirty, _) = press(&mut app, KeyCode::PageUp, 20);

    assert_eq!(dirty, DirtyState::conversation());
}

#[test]
fn mouse_wheel_scrolls_conversation_area() {
    let mut app = new_app();
    show_text(&mut app, numbered_lines("line", 20));
    render_text(&mut app, 40, 8);
    let area = app
        .conversation_selection_map()
        .expect("conversation selection map")
        .area();

    let handled = click(&mut app, MouseKind::ScrollUp, area.x, area.y);

    assert_eq!(handled.dirty, DirtyState::conversation());
    assert_eq!(
        app.conversation_scroll_from_bottom,
        u32::try_from(MOUSE_SCROLL_ROWS).unwrap()
    );
}

#[test]
fn mouse_wheel_at_top_clamps_without_overscroll() {
    let mut app = new_app();
    show_text(&mut app, numbered_lines("line", 20));
    render_text(&mut app, 40, 8);
    let map = app
        .conversation_selection_map()
        .expect("conversation selection map");
    let area = map.area();
    let max_scroll = map.max_viewport_start();

    for _ in 0..20 {
        click(&mut app, MouseKind::ScrollUp, area.x, area.y);
    }

    assert_eq!(app.conversation_scroll_from_bottom, max_scroll);

    let handled = click(&mut app, MouseKind::ScrollUp, area.x, area.y);

    assert_eq!(handled.dirty, DirtyState::none());
    assert_eq!(app.conversation_scroll_from_bottom, max_scroll);

    let handled = click(&mut app, MouseKind::ScrollDown, area.x, area.y);

    assert_eq!(handled.dirty, DirtyState::conversation());
    assert!(app.conversation_scroll_from_bottom < max_scroll);
}

#[test]
fn mouse_wheel_at_bottom_does_not_dirty_conversation() {
    let mut app = new_app();
    show_text(&mut app, numbered_lines("line", 20));
    render_text(&mut app, 40, 8);
    let area = app
        .conversation_selection_map()
        .expect("conversation selection map")
        .area();

    let handled = click(&mut app, MouseKind::ScrollDown, area.x, area.y);

    assert_eq!(handled.dirty, DirtyState::none());
    assert_eq!(app.conversation_scroll_from_bottom, 0);
}

#[test]
fn mouse_selection_release_copies_and_clears_selection() {
    let mut app = new_app();
    show_text(&mut app, "alpha beta".to_string());
    render_text(&mut app, 40, 8);
    let line = app
        .selection_manager
        .map_for(&AppSelectionSurface::Conversation)
        .expect("conversation selection map")
        .lines()
        .iter()
        .find(|line| line.text.contains("alpha"))
        .expect("alpha line is visible")
        .clone();
    let row = line.screen_y.expect("line has screen row");

    click(&mut app, MouseKind::LeftDown, line.x, row);
    click(&mut app, MouseKind::LeftDrag, line.x.saturating_add(5), row);
    let handled = click(&mut app, MouseKind::LeftUp, line.x.saturating_add(5), row);

    assert_eq!(handled.copy.as_deref(), Some("alpha"));
    app.finish_copy(true, NOW);
    assert_eq!(app.notifications.current_message(), Some("copied"));
    assert!(app
        .selection_manager
        .selection_for(&AppSelectionSurface::Conversation)
        .is_none());
    assert!(!app.selection_manager.is_dragging());
}

#[test]
fn drag_below_conversation_autoscrolls_selection_toward_bottom() {
    let mut app = new_app();
    show_text(&mut app, numbered_lines("line", 30));
    app.conversation_scroll_from_bottom = 10;
    render_text(&mut app, 40, 8);
    let map = app
        .conversation_selection_map()
        .expect("conversation selection map");
    let area = map.area();
    let line = map
        .lines()
        .iter()
        .find(|line| line.screen_y.is_some())
        .expect("visible line")
        .clone();
    let row = line.screen_y.expect("visible row");

    click(&mut app, MouseKind::LeftDown, line.x, row);
    click(&mut app, MouseKind::LeftDrag, line.x, area.bottom());
    let before = app.conversation_scroll_from_bottom;
    let dirty = app.tick_selection_autoscroll(NOW, &CodeHighlighter::new());

    assert_eq!(dirty, DirtyState::conversation());
    assert_eq!(
        app.conversation_scroll_from_bottom,
        before.saturating_sub(1)
    );
    assert!(app
        .selection_manager
        .selection_for(&AppSelectionSurface::Conversation)
        .is_some());
}

#[test]
fn resize_marks_conversation_dirty() {
    let mut app = new_app();
    app.render_dirty = false;
    app.conversation_dirty = false;

    let handled = app.handle_event(TerminalEvent::Resize, 20, NOW);

    assert_eq!(handled.dirty, DirtyState::conversation());
    assert!(app.render_dirty);
    assert!(app.conversation_dirty);
}

#[test]
fn new_app_starts_empty_with_runtime_context_and_no_notifications() {
    let app = new_app();

    assert!(app.state.blocks().is_empty());
    assert_eq!(app.status.workspace, "copro");
    assert_eq!(app.status.model, "gpt-test");
    assert_eq!(app.status.context, "0%");
    assert_eq!(app.notifications.current_message(), None);
}

#[test]
fn enter_submits_to_runtime_and_appends_protocol_native_user_message() {
    let mut app = new_app();
    insert_text(&mut app.input, "你好 cursor");

    let (_, effects) = press(&mut app, KeyCode::Enter, 20);

    assert!(matches!(
        app.state.blocks()[0].kind(),
        BlockKind::User { content }
            if content == &vec![InputContent::Text("你好 cursor".to_string())]
    ));
    assert_eq!(app.notifications.current_message(), None);
    assert_eq!(
        started(effects).history.messages(),
        &[Message::user(vec![InputContent::Text(
            "你好 cursor".to_string()
        )])]
    );
}

#[test]
fn double_slash_submits_escaped_user_text() {
    let mut app = new_app();
    insert_text(&mut app.input, "//hello");

    press(&mut app, KeyCode::Enter, 20);

    assert!(matches!(
        app.state.blocks()[0].kind(),
        BlockKind::User { content }
            if content == &vec![InputContent::Text("/hello".to_string())]
    ));
}

#[test]
fn help_command_renders_local_command_output() {
    let mut app = new_app();
    insert_text(&mut app.input, "/help");

    press(&mut app, KeyCode::Enter, 20);

    assert!(matches!(
        app.state.blocks()[0].kind(),
        BlockKind::Command { text, is_error: false }
            if text.contains("/help") && text.contains("/clear")
    ));
    assert!(format_help(&builtins()).contains("/resume"));
}

#[test]
fn unknown_slash_command_restores_input_and_renders_error() {
    let mut app = new_app();
    insert_text(&mut app.input, "/wat");

    press(&mut app, KeyCode::Enter, 20);

    assert_eq!(app.input.text(), "/wat");
    assert!(matches!(
        app.state.blocks()[0].kind(),
        BlockKind::Command { text, is_error: true } if text == "unknown command: /wat"
    ));
}

#[test]
fn clear_command_clears_session_history_and_visible_conversation() {
    let seed = AgentHistory::from_messages(vec![Message::developer(vec![InputContent::Text(
        "seed".to_string(),
    )])]);
    let mut app = App::new(
        AgentRuntime::new_with_history(seed),
        "copro".to_string(),
        "gpt-test".to_string(),
    );
    app.runtime
        .reset_history(AgentHistory::from_messages(vec![Message::user(vec![
            InputContent::Text("other".to_string()),
        ])]))
        .expect("reset to other history");
    show_text(&mut app, "visible".to_string());
    insert_text(&mut app.input, "/clear");

    press(&mut app, KeyCode::Enter, 20);

    assert!(app.state.blocks().is_empty());
    assert_eq!(app.runtime.history(), Some(AgentHistory::default()));
}

#[test]
fn model_command_without_args_renders_current_model() {
    let mut app = new_app();
    insert_text(&mut app.input, "/model");

    press(&mut app, KeyCode::Enter, 20);

    assert!(matches!(
        app.state.blocks()[0].kind(),
        BlockKind::Command { text, is_error: false } if text == "model: gpt-test"
    ));
}

#[test]
fn busy_clear_is_rejected_without_clearing_visible_blocks() {
    let mut app = new_app();
    insert_text(&mut app.input, "first");
    press(&mut app, KeyCode::Enter, 20);
    insert_text(&mut app.input, "/clear");

    press(&mut app, KeyCode::Enter, 20);

    assert!(app.runtime.is_busy());
    assert!(matches!(
        app.state.blocks()[0].kind(),
        BlockKind::User { .. }
    ));
    assert!(matches!(
        app.state.blocks()[1].kind(),
        BlockKind::Command { text, is_error: true } if text == "runtime is busy"
    ));
}

#[test]
fn stop_command_idle_renders_local_error() {
    let mut app = new_app();
    insert_text(&mut app.input, "/stop");

    press(&mut app, KeyCode::Enter, 20);

    assert!(matches!(
        app.state.blocks()[0].kind(),
        BlockKind::Command { text, is_error: true } if text == "no active turn"
    ));
    assert_eq!(
        ensure_running(RuntimeTurnSnapshot::Idle),
        Err("no active turn".to_string())
    );
    assert_eq!(ensure_running(RuntimeTurnSnapshot::Running), Ok(()));
}

#[test]
fn stop_command_aborts_pending_turn_and_preserves_user_message() {
    let mut app = new_app();
    insert_text(&mut app.input, "question");
    let (_, effects) = press(&mut app, KeyCode::Enter, 20);
    let start = started(effects);
    insert_text(&mut app.input, "/stop");

    let (_, effects) = press(&mut app, KeyCode::Enter, 20);
    assert!(matches!(effects.as_slice(), [AppEffect::AbortTurn]));
    app.runtime.active_turn(true).expect("an active turn");
    let events = end_turn(&mut app, start, true);
    app.drain_runtime_events(events, NOW, &CodeHighlighter::new());

    assert!(!app.runtime.is_busy());
    let messages = app
        .runtime
        .history()
        .expect("runtime history")
        .messages()
        .to_vec();
    assert_eq!(
        messages.first(),
        Some(&Message::user(vec![InputContent::Text(
            "question".to_string()
        )]))
    );
}

#[test]
fn command_menu_tab_accepts_without_submission() {
    let mut app = new_app();
    insert_text(&mut app.input, "/mo");

    press(&mut app, KeyCode::Tab, 20);

    assert_eq!(app.input.text(), "/model ");
    assert!(app.state.blocks().is_empty());
}

#[test]
fn command_menu_enter_accepts_and_submits() {
    let mut app = new_app();
    show_text(&mut app, "visible".to_string());
    insert_text(&mut app.input, "/cl");

    press(&mut app, KeyCode::Enter, 20);

    assert!(app.state.blocks().is_empty());
    assert_eq!(app.input.text(), "");
}

#[test]
fn command_menu_down_changes_selected_command() {
    let mut app = new_app();
    show_text(&mut app, "visible".to_string());
    insert_text(&mut app.input, "/");
    press(&mut app, KeyCode::Down, 20);

    press(&mut app, KeyCode::Enter, 20);

    assert!(app.state.blocks().is_empty());
}

#[test]
fn command_menu_mouse_shields_conversation_scroll() {
    let mut app = new_app();
    show_text(&mut app, numbered_lines("line", 20));
    insert_text(&mut app.input, "/");
    render_text(&mut app, 40, 10);
    let rect = app.command_menu.overlay_rect.expect("menu overlay rect");
    let before = app.conversation_scroll_from_bottom;

    let handled = click(&mut app, MouseKind::ScrollUp, rect.x, rect.y);

    assert_eq!(handled.dirty, DirtyState::none());
    assert_eq!(app.conversation_scroll_from_bottom, before);
}

#[test]
fn short_busy_turn_stays_in_live_viewport() {
    let mut app = new_app();
    insert_text(&mut app.input, "question");
    press(&mut app, KeyCode::Enter, 20);

    assert_eq!(app.conversation_scroll_from_bottom, 0);
}

#[test]
fn busy_overflow_renders_latest_content_inside_fullscreen() {
    let mut app = new_app();
    insert_text(&mut app.input, "question");
    press(&mut app, KeyCode::Enter, 40);
    show_text(&mut app, numbered_lines("stream line", 12));

    let screen = render_text(&mut app, 40, 8);

    assert!(app.runtime.is_busy());
    assert_eq!(app.conversation_scroll_from_bottom, 0);
    assert!(screen.contains("stream line"));
}

#[test]
fn finished_overflow_uses_app_managed_scroll_not_native_scrollback() {
    let mut app = new_app();
    show_text(&mut app, numbered_lines("line", 20));

    let screen = render_text(&mut app, 30, 8);

    assert_eq!(screen.lines().count(), 8);
    assert!(screen.contains("line 19"));
}

#[test]
fn page_up_renders_older_content_inside_fullscreen() {
    let mut app = new_app();
    show_text(&mut app, numbered_lines("line", 20));
    let initial_screen = render_text(&mut app, 40, 8);

    press(&mut app, KeyCode::PageUp, 40);
    let scrolled_screen = render_text(&mut app, 40, 8);

    assert!(initial_screen.contains("line 19"));
    assert_ne!(initial_screen, scrolled_screen);
    assert!(app.conversation_scroll_from_bottom > 0);
}

#[test]
fn page_keys_adjust_fullscreen_scroll() {
    let mut app = new_app();

    press(&mut app, KeyCode::PageUp, 20);
    press(&mut app, KeyCode::PageUp, 20);

    assert!(app.conversation_scroll_from_bottom > 0);

    press_control(&mut app, KeyCode::End, 20);

    assert_eq!(app.conversation_scroll_from_bottom, 0);
}

#[test]
fn ctrl_home_scrolls_beyond_u16_sized_history() {
    let mut app = new_app();
    show_text(&mut app, numbered_lines("line", 70_000));

    press_control(&mut app, KeyCode::Home, 40);
    let screen = render_text(&mut app, 40, 8);

    assert!(app.conversation_scroll_from_bottom > u16::MAX.into());
    assert!(screen.contains("line 0"));
    assert!(!screen.contains("line 69999"));
}

#[test]
fn submitting_new_message_returns_fullscreen_conversation_to_bottom() {
    let mut app = new_app();
    show_text(&mut app, numbered_lines("line", 20));
    press(&mut app, KeyCode::PageUp, 40);
    insert_text(&mut app.input, "next question");

    press(&mut app, KeyCode::Enter, 40);

    assert_eq!(app.conversation_scroll_from_bottom, 0);
}

#[test]
fn busy_submit_restores_input_and_does_not_append_user_block() {
    let mut app = new_app();
    assert!(app
        .runtime
        .accept_user_input(
            InputMessage::User(vec![InputContent::Text("first".to_string())]),
            DeliveryIntent::Submit,
            0,
        )
        .is_ok());
    insert_text(&mut app.input, "second\nline");

    press(&mut app, KeyCode::Enter, 20);

    assert_eq!(app.input.text(), "second\nline");
    assert!(app.state.blocks().is_empty());
    assert_eq!(app.notifications.current_message(), Some("busy"));
}

#[test]
fn completed_turn_pending_ack_keeps_ui_submit_busy() {
    let mut app = new_app();
    insert_text(&mut app.input, "first");

    let (_, effects) = press(&mut app, KeyCode::Enter, 20);
    let events = end_turn(&mut app, started(effects), false);
    assert!(matches!(
        events.last(),
        Some(RuntimeEvent::TurnFinished { .. })
    ));

    insert_text(&mut app.input, "second");
    press(&mut app, KeyCode::Enter, 20);

    assert_eq!(app.input.text(), "second");
    assert_eq!(app.state.blocks().len(), 1);
    assert_eq!(app.notifications.current_message(), Some("busy"));
}

#[test]
fn turn_failed_event_appends_error_block() {
    let mut app = new_app();

    app.drain_runtime_events(
        vec![RuntimeEvent::TurnFailed {
            history: AgentHistory::default(),
            message: "client error: missing api key".to_string(),
        }],
        NOW,
        &CodeHighlighter::new(),
    );

    assert!(matches!(
        app.state.blocks()[0].kind(),
        BlockKind::Error { text } if text == "client error: missing api key"
    ));
    assert_eq!(
        app.notifications.current_message(),
        Some("client error: missing api key")
    );
    assert!(!app.runtime.is_busy());
}

#[test]
fn ctrl_j_inserts_newline_without_submission() {
    let mut app = new_app();
    app.input.insert_char('a');

    press_control(&mut app, KeyCode::Char('j'), 20);
    app.input.insert_char('b');

    assert_eq!(app.input.text(), "a\nb");
    assert!(app.state.blocks().is_empty());
}

#[test]
fn escape_prefixed_enter_inserts_newline_without_submission() {
    let mut app = new_app();
    app.input.insert_char('a');

    let key = KeyPress {
        alt: true,
        ..KeyPress::plain(KeyCode::Enter)
    };
    app.handle_key(key, 20, NOW);
    app.input.insert_char('b');

    assert_eq!(app.input.text(), "a\nb");
    assert!(app.state.blocks().is_empty());
}

#[test]
fn horizontal_arrow_keys_move_input_cursor() {
    let mut app = new_app();
    insert_text(&mut app.input, "你a");

    press(&mut app, KeyCode::Left, 20);
    assert_eq!(app.input.cursor(), 3);

    press(&mut app, KeyCode::Left, 20);
    assert_eq!(app.input.cursor(), 0);

    press(&mut app, KeyCode::Right, 20);
    assert_eq!(app.input.cursor(), 3);

    press(&mut app, KeyCode::Right, 20);
    assert_eq!(app.input.cursor(), 4);
}

#[test]
fn vertical_arrow_keys_move_input_cursor_between_input_rows() {
    let mut app = new_app();
    insert_text(&mut app.input, "a\nb");

    press(&mut app, KeyCode::Up, 20);
    assert_eq!(app.input.cursor(), 1);

    press(&mut app, KeyCode::Down, 20);
    assert_eq!(app.input.cursor(), 3);
}

#[test]
fn ctrl_c_quits_and_releases_do_nothing() {
    let mut app = new_app();
    insert_text(&mut app.input, "draft");
    let released = KeyPress {
        released: true,
        control: true,
        ..KeyPress::plain(KeyCode::Char('c'))
    };
    let (dirty, effects) = app.handle_key(released, 20, NOW);
    assert_eq!(dirty, DirtyState::none());
    assert!(effects.is_empty());
    assert!(!app.quit);
    press_control(&mut app, KeyCode::Char('c'), 20);
    assert!(app.quit);
}

#[test]
fn switching_the_model_waits_for_it() {
    let mut app = new_app();
    insert_text(&mut app.input, "/model gpt-next");
    let (_, effects) = press(&mut app, KeyCode::Enter, 20);
    let Some(AppEffect::BuildModel { model_id, rest }) = effects.into_iter().next() else {
        panic!("expected a model to be built");
    };
    assert_eq!(model_id, "gpt-next");
    assert_eq!(app.status.model, "gpt-test");
    app.finish_model_switch(model_id, Ok(()), rest, NOW);
    assert_eq!(app.status.model, "gpt-next");
    assert_eq!(app.model_id, "gpt-next");
}

#[test]
fn a_frame_is_split_into_its_areas() {
    let mut app = new_app();
    let plan = app.render_app(Rect::new(0, 0, 40, 10), &CodeHighlighter::new());
    assert_eq!(plan.areas.conversation, Rect::new(0, 0, 40, 5));
    assert_eq!(plan.areas.input, Rect::new(0, 6, 40, 3));
    assert_eq!(plan.areas.status, Rect::new(0, 9, 40, 1));
}
