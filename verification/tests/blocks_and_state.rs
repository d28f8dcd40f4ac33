use coox::blocks::{render_block_lines, CodeHighlighter};
use coox::images::{
    decode_data_image, prepared_image, should_query_terminal_for, ImageCache, ImageSource,
    PrepareStep, PreparedImage, PreparedImageKey, MAX_IN_FLIGHT_IMAGES, MAX_PREPARED_IMAGES,
};
use coox::geometry::Size;
use coox::markdown::{
    parse_markdown_blocks, MarkdownBlock, MarkdownPreview, MarkdownSpan, MarkdownStyles,
};
use coox::message::{
    ImageContent, InputContent, InputMessage, OutputContentDelta, ToolResult, ToolResultStatus,
};
use coox::state::{AppState, AssistantItem, BlockKind, BlockState};
use coox::style::{Color, Line};
use image::{DynamicImage, ImageFormat, RgbaImage};
use ratatui::buffer::Buffer;
use ratatui::widgets::Widget;
use ratatui_image::picker::Picker;
use ratatui_image::sliced::{SignedPosition, SlicedImage, SlicedProtocol};
use std::io::Cursor;
use std::sync::Arc;

fn user(text: &str) -> InputMessage {
    InputMessage::User(vec![InputContent::Text(text.to_string())])
}

fn tool_call(id: Option<&str>, name: Option<&str>, arguments: &str) -> OutputContentDelta {
    OutputContentDelta::ToolCall {
        id: id.map(str::to_string),
        name: name.map(str::to_string),
        arguments: arguments.to_string(),
    }
}

fn png(data: Vec<u8>) -> ImageContent {
    ImageContent::Data {
        mime_type: "image/png".to_string(),
        data: Arc::new(data),
    }
}

fn text_result(call_id: &str, name: &str, status: ToolResultStatus, text: &str) -> ToolResult {
    ToolResult {
        call_id: call_id.to_string(),
        name: name.to_string(),
        status,
        content: vec![InputContent::Text(text.to_string())],
    }
}

#[test]
fn user_input_creates_user_block_without_mapping_protocol() {
    let mut state = AppState::default();

    state.push_input(user("fix unicode cursor"));

    assert_eq!(state.blocks().len(), 1);
    assert!(matches!(
        state.blocks()[0].kind(),
        BlockKind::User { content }
            if content == &vec![InputContent::Text("fix unicode cursor".to_string())]
    ));
}

#[test]
fn user_input_resets_active_content_index_routing() {
    let mut state = AppState::default();

    state.apply_delta_at(0, OutputContentDelta::Text("first".to_string()));
    state.push_input(user("next turn"));
    state.apply_delta_at(0, OutputContentDelta::Text("second".to_string()));

    assert_eq!(state.blocks().len(), 3);
    assert!(matches!(
        state.blocks()[0].kind(),
        BlockKind::Assistant { items }
            if items == &vec![AssistantItem::Text("first".to_string())]
    ));
    assert!(matches!(
        state.blocks()[2].kind(),
        BlockKind::Assistant { items }
            if items == &vec![AssistantItem::Text("second".to_string())]
    ));
}

#[test]
fn push_error_appends_error_block() {
    let mut state = AppState::default();

    state.push_error("request failed: missing api key".to_string());

    assert_eq!(state.blocks().len(), 1);
    assert!(matches!(
        state.blocks()[0].kind(),
        BlockKind::Error { text } if text == "request failed: missing api key"
    ));
    assert!(!state.blocks()[0].is_foldable());
}

#[test]
fn error_block_does_not_replace_active_delta_routing() {
    let mut state = AppState::default();

    state.apply_delta_at(0, OutputContentDelta::Text("hello".to_string()));
    state.push_error("network error".to_string());
    state.apply_delta_at(0, OutputContentDelta::Text(" world".to_string()));

    assert_eq!(state.blocks().len(), 2);
    assert!(matches!(
        state.blocks()[0].kind(),
        BlockKind::Assistant { items }
            if items == &vec![AssistantItem::Text("hello world".to_string())]
    ));
    assert!(matches!(
        state.blocks()[1].kind(),
        BlockKind::Error { text } if text == "network error"
    ));
}

#[test]
fn thinking_deltas_append_to_current_thinking_block() {
    let mut state = AppState::default();

    state.apply_delta(OutputContentDelta::Thinking("Need inspect".to_string()));
    state.apply_delta(OutputContentDelta::Thinking(" cursor code".to_string()));

    assert_eq!(state.blocks().len(), 1);
    assert!(matches!(
        state.blocks()[0].kind(),
        BlockKind::Thinking { text } if text == "Need inspect cursor code"
    ));
}

#[test]
fn text_deltas_append_to_current_assistant_text_item() {
    let mut state = AppState::default();

    state.apply_delta(OutputContentDelta::Text("hello".to_string()));
    state.apply_delta(OutputContentDelta::Text(" world".to_string()));

    assert!(matches!(
        state.blocks()[0].kind(),
        BlockKind::Assistant { items }
            if items == &vec![AssistantItem::Text("hello world".to_string())]
    ));
}

#[test]
fn image_delta_stays_inside_assistant_block() {
    let mut state = AppState::default();
    let image = png(vec![1, 2, 3]);

    state.apply_delta(OutputContentDelta::Text("hello".to_string()));
    state.apply_delta(OutputContentDelta::Image(image.clone()));

    assert_eq!(state.blocks().len(), 1);
    assert!(matches!(
        state.blocks()[0].kind(),
        BlockKind::Assistant { items }
            if items == &vec![
                AssistantItem::Text("hello".to_string()),
                AssistantItem::Image(image.clone()),
            ]
    ));
}

#[test]
fn repeated_image_deltas_replace_current_routed_image() {
    let mut state = AppState::default();
    let image1 = png(vec![1, 2, 3]);
    let image2 = png(vec![4, 5, 6]);

    state.apply_delta_at(0, OutputContentDelta::Image(image1));
    state.apply_delta_at(0, OutputContentDelta::Image(image2.clone()));

    assert_eq!(state.blocks().len(), 1);
    assert!(matches!(
        state.blocks()[0].kind(),
        BlockKind::Assistant { items }
            if items == &vec![AssistantItem::Image(image2.clone())]
    ));
}

#[test]
fn tool_call_deltas_stream_into_one_tool_block() {
    let mut state = AppState::default();

    state.apply_delta(tool_call(Some("call_1"), Some("rg"), "{\"pattern\":\"foo\""));
    state.apply_delta(tool_call(None, None, ",\"path\":\"src\"}"));

    assert!(matches!(
        state.blocks()[0].kind(),
        BlockKind::Tool(tool)
            if tool.call_id.as_deref() == Some("call_1")
                && tool.name == "rg"
                && tool.arguments == "{\"pattern\":\"foo\",\"path\":\"src\"}"
    ));
}

#[test]
fn tool_call_metadata_can_stream_across_deltas() {
    let mut state = AppState::default();

    state.apply_delta(tool_call(Some("call_1"), None, ""));
    state.apply_delta(tool_call(None, Some("rg"), ""));
    state.apply_delta(tool_call(None, None, "{}"));

    assert_eq!(state.blocks().len(), 1);
    assert!(matches!(
        state.blocks()[0].kind(),
        BlockKind::Tool(tool)
            if tool.call_id.as_deref() == Some("call_1")
                && tool.name == "rg"
                && tool.arguments == "{}"
    ));
}

#[test]
fn new_tool_call_id_starts_new_tool_block() {
    let mut state = AppState::default();

    state.apply_delta(tool_call(Some("call_1"), Some("rg"), "{}"));
    state.apply_delta(tool_call(
        Some("call_2"),
        Some("cat"),
        "{\"path\":\"README.md\"}",
    ));

    assert_eq!(state.blocks().len(), 2);
    assert!(matches!(
        state.blocks()[0].kind(),
        BlockKind::Tool(tool) if tool.call_id.as_deref() == Some("call_1")
    ));
    assert!(matches!(
        state.blocks()[1].kind(),
        BlockKind::Tool(tool)
            if tool.call_id.as_deref() == Some("call_2")
                && tool.name == "cat"
                && tool.arguments == "{\"path\":\"README.md\"}"
    ));
}

#[test]
fn interleaved_tool_calls_merge_by_content_index() {
    let mut state = AppState::default();

    state.apply_delta_at(0, tool_call(Some("call_1"), None, ""));
    state.apply_delta_at(1, tool_call(Some("call_2"), None, ""));
    state.apply_delta_at(0, tool_call(None, Some("rg"), ""));
    state.apply_delta_at(1, tool_call(None, Some("cat"), ""));
    state.apply_delta_at(1, tool_call(None, None, "{\"path\":\"README.md\"}"));
    state.apply_delta_at(0, tool_call(None, None, "{\"pattern\":\"foo\"}"));

    assert_eq!(state.blocks().len(), 2);
    assert!(matches!(
        state.blocks()[0].kind(),
        BlockKind::Tool(tool)
            if tool.call_id.as_deref() == Some("call_1")
                && tool.name == "rg"
                && tool.arguments == "{\"pattern\":\"foo\"}"
    ));
    assert!(matches!(
        state.blocks()[1].kind(),
        BlockKind::Tool(tool)
            if tool.call_id.as_deref() == Some("call_2")
                && tool.name == "cat"
                && tool.arguments == "{\"path\":\"README.md\"}"
    ));
}

#[test]
fn tool_result_merges_by_call_id() {
    let mut state = AppState::default();
    state.apply_delta(tool_call(Some("call_1"), Some("rg"), "{}"));

    state.apply_tool_result(text_result(
        "call_1",
        "rg",
        ToolResultStatus::Success,
        "match",
    ));

    assert!(matches!(
        state.blocks()[0].kind(),
        BlockKind::Tool(tool)
            if tool.result.as_ref().is_some_and(|result| {
                result.content == vec![InputContent::Text("match".to_string())]
            })
    ));
}

#[test]
fn unmatched_tool_result_creates_tool_block() {
    let mut state = AppState::default();

    state.apply_tool_result(text_result(
        "missing",
        "bash",
        ToolResultStatus::Error,
        "failed",
    ));

    assert_eq!(state.blocks().len(), 1);
    assert!(matches!(
        state.blocks()[0].kind(),
        BlockKind::Tool(tool)
            if tool.call_id.as_deref() == Some("missing")
                && tool.name == "bash"
                && tool.result.is_some()
    ));
}

#[test]
fn ctrl_o_toggles_all_foldable_blocks() {
    let mut state = AppState::default();
    state.apply_delta(OutputContentDelta::Thinking("long thinking".to_string()));
    state.apply_delta(OutputContentDelta::Text("answer".to_string()));

    assert!(state.blocks().iter().any(|block| block.is_foldable()));
    assert!(state.blocks().iter().any(|block| !block.is_foldable()));

    state.toggle_all_folds();
    assert!(state
        .blocks()
        .iter()
        .filter(|block| block.is_foldable())
        .all(|block| !block.is_expanded()));
    assert!(state
        .blocks()
        .iter()
        .filter(|block| !block.is_foldable())
        .all(|block| block.is_expanded()));

    state.toggle_all_folds();
    assert!(state
        .blocks()
        .iter()
        .filter(|block| block.is_foldable())
        .all(|block| block.is_expanded()));
    assert!(state
        .blocks()
        .iter()
        .filter(|block| !block.is_foldable())
        .all(|block| block.is_expanded()));
}

#[test]
fn every_block_has_its_own_number() {
    let mut state = AppState::default();
    for index in 0..4 {
        state.push_error(format!("{index}"));
    }
    let ids = state
        .blocks()
        .iter()
        .map(|block| block.id().get())
        .collect::<Vec<_>>();
    assert_eq!(ids, [1, 2, 3, 4]);
    state.clear_conversation();
    assert!(state.blocks().is_empty());
    state.push_error("later".to_string());
    assert_eq!(state.blocks()[0].id().get(), 5);
}

fn render_lines(block: &BlockState) -> Vec<Line> {
    render_block_lines(block, &CodeHighlighter::new())
}

fn render_text(block: &BlockState) -> Vec<String> {
    render_lines(block).iter().map(|line| line.text()).collect()
}

#[test]
fn user_block_has_no_user_label() {
    let mut state = AppState::default();
    state.push_input(user("fix unicode cursor"));

    let text = render_text(&state.blocks()[0]);

    assert_eq!(text, vec!["fix unicode cursor"]);
    assert!(!text.iter().any(|line| line.contains("user")));
}

#[test]
fn assistant_block_has_no_label_and_renders_markdown_bullet() {
    let mut state = AppState::default();
    state.apply_delta(OutputContentDelta::Text("- first".to_string()));

    let text = render_text(&state.blocks()[0]);

    assert_eq!(text, vec!["• first"]);
    assert!(!text.iter().any(|line| line.contains("assistant")));
}

#[test]
fn assistant_fence_tree_previews_markdown_and_highlights_code() {
    let mut state = AppState::default();
    state.apply_delta(OutputContentDelta::Text(
        "```markdown\n# Title\n\n- item\n\n```rust\nfn main() {}\n```\n```".to_string(),
    ));

    let lines = render_lines(&state.blocks()[0]);

    assert_eq!(
        lines.iter().map(|line| line.text()).collect::<Vec<_>>(),
        vec!["Title", "", "• item", "", "fn main() {}"]
    );
    assert!(lines[0].spans[0].style.bold);
    assert!(lines
        .iter()
        .flat_map(|line| line.spans.iter())
        .any(|span| span.content.contains("fn") && span.style.fg.is_some()));
}

#[test]
fn assistant_markdown_inline_code_is_styled() {
    let mut state = AppState::default();
    state.apply_delta(OutputContentDelta::Text("Use `copro-agent`.".to_string()));

    let lines = render_lines(&state.blocks()[0]);
    let code_span = lines[0]
        .spans
        .iter()
        .find(|span| span.content == "copro-agent")
        .expect("inline code span");

    assert_eq!(lines[0].text(), "Use copro-agent.");
    assert_eq!(code_span.style.fg, Some(Color::Cyan));
}

#[test]
fn error_block_renders_text_without_stack_trace_label() {
    let mut state = AppState::default();
    state.push_error("client error: missing api key".to_string());

    let text = render_text(&state.blocks()[0]);

    assert_eq!(text, vec!["client error: missing api key"]);
    assert!(!text.iter().any(|line| line.contains("stack")));
}

#[test]
fn tool_header_is_tool_name_only_without_call_id() {
    let mut state = AppState::default();
    state.apply_delta(tool_call(Some("call_123"), Some("rg"), "{}"));

    let text = render_text(&state.blocks()[0]);

    assert_eq!(text[0], "rg");
    assert!(!text[0].contains("call_123"));
    assert!(!text[0].contains("tool call"));
    assert!(!text[0].contains("tool result"));
}

#[test]
fn folded_block_includes_local_ctrl_o_hint() {
    let mut state = AppState::default();
    let text = (0..16)
        .map(|index| format!("line {index}"))
        .collect::<Vec<_>>()
        .join("\n");
    state.apply_delta(OutputContentDelta::Thinking(text));
    state.toggle_all_folds();

    let text = render_text(&state.blocks()[0]);

    assert_eq!(text.len(), 15);
    assert_eq!(text[0], "line 0");
    assert_eq!(text[13], "line 13");
    assert_eq!(text[14], "Ctrl+O expand all · 2 lines hidden");
}

#[test]
fn tool_result_renders_in_same_block_after_arguments() {
    let mut state = AppState::default();
    state.apply_delta(tool_call(Some("call_1"), Some("bash"), "{\"cmd\":\"pwd\"}"));
    state.apply_tool_result(text_result(
        "call_1",
        "bash",
        ToolResultStatus::Success,
        "/tmp/project",
    ));

    let text = render_text(&state.blocks()[0]);

    assert_eq!(text, vec!["bash", "{\"cmd\":\"pwd\"}", "─", "/tmp/project"]);
}

#[test]
fn read_tool_result_keeps_line_number_separator_visible() {
    let mut state = AppState::default();
    state.apply_delta(tool_call(
        Some("call_1"),
        Some("read"),
        "{\"path\":\"Cargo.toml\"}",
    ));
    state.apply_tool_result(text_result(
        "call_1",
        "read",
        ToolResultStatus::Success,
        "Cargo.toml\n1: [workspace]\n2: members = [",
    ));

    let text = render_text(&state.blocks()[0]);

    assert_eq!(
        text,
        vec![
            "read",
            "{\"path\":\"Cargo.toml\"}",
            "─",
            "Cargo.toml",
            "1: [workspace]",
            "2: members = [",
        ]
    );
    assert!(!text.iter().any(|line| line.contains('\t')));
}

#[test]
fn markdown_preview_lines_styles_structural_markdown() {
    let lines = MarkdownPreview::new("> quoted\n\n- item\n\n```rust\nfn main() {}\n```")
        .styles(MarkdownStyles::default())
        .lines();

    assert_eq!(
        lines.iter().map(|line| line.text()).collect::<Vec<_>>(),
        vec!["│ quoted", "", "• item", "", "fn main() {}"]
    );
}

#[test]
fn parse_markdown_blocks_keeps_heading_and_paragraph_separate() {
    let blocks = parse_markdown_blocks("# Title\n\nBody");

    assert_eq!(
        blocks,
        vec![
            MarkdownBlock::Heading {
                lines: vec![vec![MarkdownSpan::Text("Title".to_string())]],
            },
            MarkdownBlock::Paragraph {
                lines: vec![vec![MarkdownSpan::Text("Body".to_string())]],
            },
        ]
    );
}

#[test]
fn parse_markdown_blocks_preserves_inline_emphasis_link_and_code_text() {
    let blocks = parse_markdown_blocks("Hello *strong* [link](https://example.com) `code`");

    assert_eq!(
        blocks,
        vec![MarkdownBlock::Paragraph {
            lines: vec![vec![
                MarkdownSpan::Text("Hello strong link ".to_string()),
                MarkdownSpan::Code("code".to_string()),
            ]],
        }]
    );
}

#[test]
fn markdown_preview_inserts_gaps_between_body_and_next_heading() {
    let lines = MarkdownPreview::new("# Copro\n\nCopro is a Rust workspace.\n\n## Crates")
        .styles(MarkdownStyles::default())
        .lines();

    assert_eq!(
        lines.iter().map(|line| line.text()).collect::<Vec<_>>(),
        vec!["Copro", "", "Copro is a Rust workspace.", "", "Crates"]
    );
    assert!(lines[0].spans[0].style.bold);
    assert!(lines[4].spans[0].style.bold);
}

#[test]
fn markdown_preview_styles_heading_and_inline_code() {
    let lines = MarkdownPreview::new("# Title\n\nUse `copro-agent`.")
        .styles(MarkdownStyles::default())
        .lines();

    assert_eq!(
        lines.iter().map(|line| line.text()).collect::<Vec<_>>(),
        vec!["Title", "", "Use copro-agent."]
    );
    assert!(lines[0].spans[0].style.bold);
    let code_span = lines[2]
        .spans
        .iter()
        .find(|span| span.content == "copro-agent")
        .expect("inline code span");
    assert_eq!(code_span.style.fg, Some(Color::Cyan));
}

#[test]
fn markdown_preview_renders_parsed_lines() {
    let line = MarkdownPreview::new("- item").lines()[0].text();

    assert!(line.contains("• item"));
}

#[test]
fn terminal_query_is_skipped_for_non_interactive_terms() {
    assert!(!should_query_terminal_for(Some("dumb"), true, true));
    assert!(!should_query_terminal_for(None, true, true));
    assert!(!should_query_terminal_for(
        Some("xterm-ghostty"),
        false,
        true
    ));
    assert!(!should_query_terminal_for(
        Some("xterm-ghostty"),
        true,
        false
    ));
    assert!(should_query_terminal_for(Some("xterm-ghostty"), true, true));
}

const LOADING: &str = "[image loading]";

struct Renderer {
    cache: ImageCache<(u32, u32)>,
    started: Vec<(ImageSource, u64, Size)>,
}

impl Renderer {
    fn new() -> Self {
        Renderer {
            cache: ImageCache::default(),
            started: Vec::new(),
        }
    }

    fn prepare(&mut self, image: &ImageSource, size: Size) -> Result<(u32, u32), String> {
        let (copy, again, identity) = match image {
            ImageSource::Url { url } => {
                (ImageSource::url(url.clone()), ImageSource::url(url.clone()), 0)
            }
            ImageSource::Data { mime_type, data } => (
                ImageSource::data(mime_type.clone(), data.clone()),
                ImageSource::data(mime_type.clone(), data.clone()),
                Arc::as_ptr(data) as u64,
            ),
        };
        match self
            .cache
            .prepare_for_area(PreparedImageKey::new(copy, identity, size))
        {
            PrepareStep::Ready => match self.cache.latest().expect("an entry") {
                PreparedImage::Image(drawn) => Ok(*drawn),
                prepared => Err(prepared.placeholder().expect("a text").to_string()),
            },
            PrepareStep::Loading => Err(LOADING.to_string()),
            PrepareStep::Start => {
                self.started.push((again, identity, size));
                Err(LOADING.to_string())
            }
        }
    }

    fn wait_for_image_jobs(&mut self) {
        for (image, identity, size) in std::mem::take(&mut self.started) {
            let ImageSource::Data { mime_type, data } = &image else {
                panic!("only bytes are prepared");
            };
            let drawn = decode_data_image(mime_type, data)
                .ok()
                .map(|image| (image.width(), image.height()));
            let prepared = prepared_image(drawn, mime_type, data.len());
            self.cache
                .finish_prepared(PreparedImageKey::new(image, identity, size), prepared);
        }
        assert!(!self.cache.has_in_flight());
    }
}

fn png_bytes() -> Vec<u8> {
    let mut data = Vec::new();
    let image = DynamicImage::ImageRgba8(
        RgbaImage::from_vec(1, 1, vec![255, 0, 0, 255]).expect("valid rgba image"),
    );

    image
        .write_to(&mut Cursor::new(&mut data), ImageFormat::Png)
        .expect("valid png");

    data
}

fn png_source(data: Vec<u8>) -> ImageSource {
    ImageSource::data("image/png".to_string(), Arc::new(data))
}

#[test]
fn valid_data_renders_sliced_image_to_buffer() {
    let mut renderer = Renderer::new();
    let bytes = png_bytes();
    let image = png_source(bytes.clone());

    let loading = renderer.prepare(&image, Size::new(4, 4));
    assert_eq!(loading, Err(LOADING.to_string()));
    renderer.wait_for_image_jobs();
    assert!(renderer.prepare(&image, Size::new(4, 4)).is_ok());

    let decoded = decode_data_image("image/png", &bytes).expect("valid image");
    let size = ratatui::layout::Size::new(4, 4);
    let protocol = SlicedProtocol::new(&Picker::halfblocks(), decoded, Some(size))
        .expect("sliced image");
    let area = ratatui::layout::Rect::new(0, 0, 4, 4);
    let mut buffer = Buffer::empty(area);
    SlicedImage::new(&protocol, SignedPosition { x: 0, y: 0 }).render(area, &mut buffer);

    assert!(buffer
        .content()
        .iter()
        .any(|cell| matches!(cell.symbol(), "▀" | "▄")));
}

#[test]
fn prepared_data_image_is_reused_for_same_area() {
    let mut renderer = Renderer::new();
    let image = png_source(png_bytes());

    assert_eq!(
        renderer.prepare(&image, Size::new(4, 4)),
        Err(LOADING.to_string())
    );
    renderer.wait_for_image_jobs();
    assert!(renderer.prepare(&image, Size::new(4, 4)).is_ok());

    assert_eq!(renderer.cache.len(), 1);
}

#[test]
fn prepared_cache_keeps_data_identity_alive() {
    let mut renderer = Renderer::new();
    let data = Arc::new(png_bytes());
    let image = ImageSource::data("image/png".to_string(), data.clone());

    assert_eq!(
        renderer.prepare(&image, Size::new(4, 4)),
        Err(LOADING.to_string())
    );
    renderer.wait_for_image_jobs();
    assert!(renderer.prepare(&image, Size::new(4, 4)).is_ok());
    drop(image);

    assert!(Arc::strong_count(&data) > 1);
}

#[test]
fn prepares_data_image_again_for_different_area() {
    let mut renderer = Renderer::new();
    let image = png_source(png_bytes());

    assert_eq!(
        renderer.prepare(&image, Size::new(4, 4)),
        Err(LOADING.to_string())
    );
    renderer.wait_for_image_jobs();
    assert_eq!(renderer.cache.len(), 1);

    assert_eq!(
        renderer.prepare(&image, Size::new(8, 4)),
        Err(LOADING.to_string())
    );
    renderer.wait_for_image_jobs();
    assert!(renderer.prepare(&image, Size::new(8, 4)).is_ok());

    assert_eq!(renderer.cache.len(), 2);
}

#[test]
fn invalid_data_falls_back_to_compact_placeholder() {
    let mut renderer = Renderer::new();
    let image = png_source(vec![1, 2, 3]);

    assert_eq!(
        renderer.prepare(&image, Size::new(4, 4)),
        Err(LOADING.to_string())
    );
    renderer.wait_for_image_jobs();

    assert_eq!(
        renderer.prepare(&image, Size::new(4, 4)),
        Err("[image: invalid image/png, 3 bytes]".to_string())
    );
}

#[test]
fn url_image_remains_placeholder() {
    let image = ImageSource::url("https://example.com/a.png".to_string());

    let prepared = Renderer::new().prepare(&image, Size::new(4, 4));

    assert_eq!(prepared, Err("[image: url]".to_string()));
}

#[test]
fn image_view_renders_url_placeholder() {
    let mut renderer = Renderer::new();
    let image = ImageSource::url("https://example.com/a.png".to_string());

    let text = renderer
        .prepare(&image, Size::new(16, 1))
        .expect_err("a placeholder");

    assert!(text.contains("[image: url]"));
}

#[test]
fn a_valid_image_keeps_its_pixels() {
    let decoded = decode_data_image("image/png", &png_bytes()).expect("valid image");
    assert_eq!((decoded.width(), decoded.height()), (1, 1));
    assert_eq!(
        decode_data_image("image/gif", &vec![0; 7]).expect_err("no image"),
        "[image: invalid image/gif, 7 bytes]"
    );
}

#[test]
fn the_cache_stays_within_its_limits() {
    let mut cache: ImageCache<usize> = ImageCache::default();
    let source = |index: usize| png_source(vec![0; index]);
    for index in 0..MAX_IN_FLIGHT_IMAGES {
        let key = PreparedImageKey::new(source(index), index as u64, Size::new(1, 1));
        assert_eq!(cache.prepare_for_area(key), PrepareStep::Start);
    }
    let late = PreparedImageKey::new(source(90), 90, Size::new(1, 1));
    assert_eq!(cache.prepare_for_area(late), PrepareStep::Loading);
    for index in 0..MAX_PREPARED_IMAGES + 5 {
        let key = PreparedImageKey::new(source(index), index as u64, Size::new(1, 1));
        cache.finish_prepared(key, PreparedImage::Image(index));
    }
    assert_eq!(cache.len(), MAX_PREPARED_IMAGES);
    assert!(!cache.has_in_flight());
    let oldest = PreparedImageKey::new(source(0), 0, Size::new(1, 1));
    assert_eq!(cache.prepare_for_area(oldest), PrepareStep::Start);
    let kept = PreparedImageKey::new(source(7), 7, Size::new(1, 1));
    assert_eq!(cache.prepare_for_area(kept), PrepareStep::Ready);
    assert!(matches!(cache.latest(), Some(PreparedImage::Image(7))));
}

#[test]
fn every_change_of_the_blocks_changes_the_revision() {
    let mut state = AppState::default();
    let mut seen = vec![state.revision()];
    state.push_input(user("question"));
    seen.push(state.revision());
    state.apply_delta_at(0, OutputContentDelta::Thinking("hm".to_string()));
    seen.push(state.revision());
    state.apply_delta_at(0, OutputContentDelta::Thinking("m".to_string()));
    seen.push(state.revision());
    state.apply_tool_result(text_result("call", "read", ToolResultStatus::Success, "text"));
    seen.push(state.revision());
    state.toggle_all_folds();
    seen.push(state.revision());
    state.push_error("failed".to_string());
    seen.push(state.revision());
    let ids = state.blocks().iter().map(|block| block.id).collect::<Vec<_>>();
    assert!(ids.windows(2).all(|pair| pair[0].0 < pair[1].0));
    state.clear_conversation();
    seen.push(state.revision());
    assert_eq!(seen, vec![0, 1, 2, 3, 4, 5, 6, 7]);

    state.clear_conversation();
    state.toggle_all_folds();
    assert_eq!(state.revision(), 7);
}

#[test]
fn ended_markdown_blocks_stay() {
    let short = parse_markdown_blocks("# one\n\ntwo\n");
    let long = parse_markdown_blocks("# one\n\ntwo\n\n- three\n\n```\nfour\n```\n");
    assert_eq!(short.len(), 2);
    assert_eq!(long.len(), 4);
    assert_eq!(long[..2], short[..]);
}
