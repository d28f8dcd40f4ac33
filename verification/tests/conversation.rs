use coox::blocks::{BlockSegment, CodeHighlighter};
use coox::conversation::{
    ConversationLayout, ConversationView, DrawItem, ImageDrawing, TextDrawing,
    IMAGE_PREVIEW_HEIGHT,
};
use coox::geometry::Rect;
use coox::images::{decode_data_image, image_source};
use coox::message::{
    ImageContent, InputContent, InputMessage, OutputContentDelta, ToolResult, ToolResultStatus,
};
use coox::selection::{CopySeparator, Selection, SelectionMap, TextPosition};
use coox::state::AppState;
use image::{DynamicImage, ImageFormat, RgbaImage};
use ratatui::buffer::Buffer;
use ratatui::widgets::{Paragraph, Widget, Wrap};
use ratatui_image::picker::{Picker, ProtocolType};
use ratatui_image::sliced::{SignedPosition, SlicedImage, SlicedProtocol};
use std::io::Cursor;
use std::sync::Arc;

fn user(text: &str) -> InputMessage {
    InputMessage::User(vec![InputContent::Text(text.to_string())])
}

fn prepare(state: &AppState, width: u16) -> ConversationLayout {
    ConversationLayout::prepare(state, width, &CodeHighlighter::new())
}

fn selection_map(state: &AppState, area: Rect, scroll_from_bottom: u32) -> SelectionMap {
    prepare(state, area.width).selection_map(area, scroll_from_bottom)
}

fn screen_area(area: Rect) -> ratatui::layout::Rect {
    ratatui::layout::Rect::new(area.x, area.y, area.width, area.height)
}

fn draw_text(segments: &[BlockSegment], text: &TextDrawing, screen: &mut Buffer) {
    let lines = segments[text.start..text.end]
        .iter()
        .filter_map(|segment| match segment {
            BlockSegment::Line(line) => Some(ratatui::text::Line::from(line.line().text())),
            BlockSegment::Image(_) => None,
        })
        .collect::<Vec<_>>();
    let area = ratatui::layout::Rect::new(0, 0, text.width, text.slice_height);
    let wide = ratatui::layout::Rect::new(0, 0, text.width * 4, text.slice_height);
    let mut slice = Buffer::empty(wide);
    Paragraph::new(lines)
        .wrap(Wrap { trim: text.trim })
        .render(area, &mut slice);
    for row in 0..text.rows {
        for column in 0..text.width {
            screen[(text.x + column, text.y + row)] = slice[(column, text.from_row + row)].clone();
        }
    }
}

fn draw_image(
    segments: &[BlockSegment],
    image: &ImageDrawing,
    picker: &Picker,
    screen: &mut Buffer,
) {
    let BlockSegment::Image(content) = &segments[image.segment] else {
        panic!("expected an image");
    };
    let area = screen_area(image.area);
    match content {
        ImageContent::Data { mime_type, data } => {
            let decoded = decode_data_image(mime_type, data).expect("valid image");
            let size = ratatui::layout::Size::new(image.size.width, image.size.height);
            let protocol = SlicedProtocol::new(picker, decoded, Some(size)).expect("sliced image");
            let top = -i16::try_from(image.hidden_rows).expect("few rows");
            SlicedImage::new(&protocol, SignedPosition { x: 0, y: top }).render(area, screen);
        }
        ImageContent::Url { .. } => {
            Paragraph::new(image_source(content).placeholder_text()).render(area, screen);
        }
    }
}

fn render_conversation(
    state: &AppState,
    area: Rect,
    picker: &Picker,
    scroll_from_bottom: u32,
) -> Buffer {
    let layout = prepare(state, area.width);
    let mut screen = Buffer::empty(screen_area(area));
    for drawing in layout.render(area, scroll_from_bottom) {
        let segments = &layout.blocks()[drawing.block].segments;
        for item in &drawing.items {
            match item {
                DrawItem::Text(text) => draw_text(segments, text, &mut screen),
                DrawItem::Image(image) => draw_image(segments, image, picker, &mut screen),
            }
        }
    }
    screen
}

fn rendered_lines(state: &AppState, width: u16, height: u16, scroll: u32) -> Vec<String> {
    let area = Rect::new(0, 0, width, height);
    buffer_lines(&render_conversation(state, area, &Picker::halfblocks(), scroll))
}

fn buffer_lines(buffer: &Buffer) -> Vec<String> {
    (0..buffer.area.height)
        .map(|y| {
            (0..buffer.area.width)
                .map(|x| buffer[(x, y)].symbol())
                .collect::<String>()
                .trim_end()
                .to_string()
        })
        .collect()
}

fn png_bytes() -> Vec<u8> {
    png_bytes_with_size(32, 32)
}

fn tall_png_bytes() -> Vec<u8> {
    png_bytes_with_size(16, 256)
}

fn png_bytes_with_size(width: u32, height: u32) -> Vec<u8> {
    let mut data = Vec::new();
    let mut pixels = Vec::with_capacity(width as usize * height as usize * 4);
    for y in 0..height {
        let color = if y < height / 2 {
            [255, 0, 0, 255]
        } else {
            [0, 0, 255, 255]
        };
        for _ in 0..width {
            pixels.extend_from_slice(&color);
        }
    }
    let image = DynamicImage::ImageRgba8(
        RgbaImage::from_vec(width, height, pixels).expect("valid rgba image"),
    );

    image
        .write_to(&mut Cursor::new(&mut data), ImageFormat::Png)
        .expect("valid png");

    data
}

fn data_image(data: Vec<u8>) -> ImageContent {
    ImageContent::Data {
        mime_type: "image/png".to_string(),
        data: Arc::new(data),
    }
}

fn image_result(data: Vec<u8>) -> ToolResult {
    ToolResult {
        call_id: "call_1".to_string(),
        name: "read".to_string(),
        status: ToolResultStatus::Success,
        content: vec![InputContent::Image(data_image(data))],
    }
}

#[test]
fn conversation_layout_cache_key_tracks_revision_and_width() {
    let mut state = AppState::default();
    state.apply_delta(OutputContentDelta::Text("alpha".to_string()));
    let layout = prepare(&state, 40);

    assert!(layout.is_current(&state, 40));
    assert!(!layout.is_current(&state, 41));

    state.apply_delta(OutputContentDelta::Text(" beta".to_string()));

    assert!(!layout.is_current(&state, 40));
    assert!(prepare(&state, 40).is_current(&state, 40));
}

#[test]
fn renders_blocks_in_feed_order() {
    let mut state = AppState::default();
    state.push_input(user("fix cursor"));
    state.apply_delta(OutputContentDelta::Text("- done".to_string()));
    state.apply_delta(OutputContentDelta::ToolCall {
        id: Some("call_1".to_string()),
        name: Some("rg".to_string()),
        arguments: "{}".to_string(),
    });

    let lines = rendered_lines(&state, 24, 12, 0);

    assert_eq!(lines[0], "");
    assert_eq!(lines[1], " fix cursor");
    assert_eq!(lines[2], "");
    assert_eq!(lines[3], "");
    assert_eq!(lines[4], " • done");
    assert_eq!(lines[5], "");
    assert_eq!(lines[6], "");
    assert_eq!(lines[7], " rg");
    assert_eq!(lines[8], " {}");
    assert_eq!(lines[9], "");
}

#[test]
fn read_tool_result_preserves_leading_line_number_gutter() {
    let mut state = AppState::default();
    state.apply_delta(OutputContentDelta::ToolCall {
        id: Some("call_1".to_string()),
        name: Some("read".to_string()),
        arguments: "{\"path\":\"Cargo.toml\"}".to_string(),
    });
    state.apply_tool_result(ToolResult {
        call_id: "call_1".to_string(),
        name: "read".to_string(),
        status: ToolResultStatus::Success,
        content: vec![InputContent::Text(
            "Cargo.toml\n 1: [workspace]\n 2: members = [\n10:     \"crates/coox-tui\",".to_string(),
        )],
    });

    let lines = rendered_lines(&state, 48, 12, 0);

    assert!(lines.iter().any(|line| line == "  1: [workspace]"));
    assert!(lines.iter().any(|line| line == "  2: members = ["));
    assert!(lines
        .iter()
        .any(|line| line == " 10:     \"crates/coox-tui\","));
}

#[test]
fn wraps_long_user_text_to_available_width() {
    let mut state = AppState::default();
    state.push_input(user("abcdefg"));

    let lines = rendered_lines(&state, 8, 5, 0);

    assert_eq!(lines[0], "");
    assert!(lines.iter().any(|line| line.contains("abcdef")));
    assert!(lines.iter().any(|line| line.contains("g")));
    assert_eq!(lines[3], "");
}

#[test]
fn renders_error_block_in_feed_order() {
    let mut state = AppState::default();
    state.push_input(user("hello"));
    state.push_error("request failed".to_string());

    let lines = rendered_lines(&state, 24, 8, 0);

    let hello_row = lines
        .iter()
        .position(|line| line.contains("hello"))
        .expect("user block rendered");
    let error_row = lines
        .iter()
        .position(|line| line.contains("request failed"))
        .expect("error block rendered");
    assert!(hello_row < error_row);
}

#[test]
fn renders_latest_blocks_when_feed_is_taller_than_viewport() {
    let mut state = AppState::default();
    for text in ["one", "two", "three", "four"] {
        state.push_input(user(text));
    }

    let lines = rendered_lines(&state, 24, 6, 0);

    assert_eq!(lines[1], " three");
    assert_eq!(lines[4], " four");
    assert!(!lines.iter().any(|line| line.contains("one")));
    assert!(!lines.iter().any(|line| line.contains("two")));
}

#[test]
fn scroll_from_bottom_renders_retained_older_content() {
    let mut state = AppState::default();
    for text in ["one", "two", "three", "four"] {
        state.push_input(user(text));
    }

    let lines = rendered_lines(&state, 24, 6, 6);

    assert!(lines.iter().any(|line| line.contains("one")));
    assert!(lines.iter().any(|line| line.contains("two")));
    assert!(!lines.iter().any(|line| line.contains("four")));
}

#[test]
fn selection_map_rejoins_visible_soft_wraps_with_copy_separator() {
    let mut state = AppState::default();
    state.push_input(user("hello world"));

    let map = selection_map(&state, Rect::new(0, 0, 8, 5), 0);

    assert_eq!(
        map.lines()
            .iter()
            .map(|line| line.text.as_str())
            .collect::<Vec<_>>(),
        ["hello", "world"]
    );
    assert_eq!(
        map.lines()[0].copy_separator,
        CopySeparator::SoftWrap(" ".to_string())
    );
    assert_eq!(map.copy_visible_text(), "hello world");
}

#[test]
fn selection_map_rejoins_visible_split_words_without_newline() {
    let mut state = AppState::default();
    state.push_input(user("abcdefg"));

    let map = selection_map(&state, Rect::new(0, 0, 8, 5), 0);

    assert_eq!(
        map.lines()
            .iter()
            .map(|line| line.text.as_str())
            .collect::<Vec<_>>(),
        ["abcdef", "g"]
    );
    assert_eq!(map.lines()[0].copy_separator, CopySeparator::Empty);
    assert_eq!(map.copy_visible_text(), "abcdefg");
}

#[test]
fn copy_selection_uses_visible_text_positions() {
    let mut state = AppState::default();
    state.push_input(user("hello world"));
    let map = selection_map(&state, Rect::new(0, 0, 8, 5), 0);
    let first = &map.lines()[0];
    let second = &map.lines()[1];

    let selection = Selection::new(
        TextPosition::new(first.x + 2, first.y),
        TextPosition::new(second.x + 2, second.y),
    );

    assert_eq!(map.copy_selection(selection), "llo wo");
    assert_eq!(
        map.position_at(0, first.screen_y.expect("visible row")),
        Some(TextPosition::new(first.x, first.y))
    );
    assert_eq!(
        map.position_at(99, second.screen_y.expect("visible row")),
        Some(TextPosition::new(second.end_x(), second.y))
    );
}

#[test]
fn lazy_copy_selection_can_include_rows_outside_current_viewport() {
    let mut state = AppState::default();
    state.apply_delta(OutputContentDelta::Text(
        (0..8)
            .map(|index| format!("line {index}"))
            .collect::<Vec<_>>()
            .join("\n"),
    ));
    let area = Rect::new(0, 0, 20, 4);
    let layout = prepare(&state, area.width);
    let map = layout.selection_map(area, 0);
    let last = map
        .lines()
        .iter()
        .find(|line| line.text == "line 7")
        .expect("visible last line exists in copy map");

    assert!(map.lines().iter().all(|line| line.text != "line 0"));
    assert!(last.screen_y.is_some());
    let selection = Selection::new(
        TextPosition::new(last.x, last.y.saturating_sub(7)),
        TextPosition::new(last.end_x(), last.y),
    );

    let copied = layout.copy_selection(area, selection);
    assert!(copied.contains("line 0"));
    assert!(copied.contains("line 7"));
}

#[test]
fn selection_map_contains_only_viewport_rows_for_large_content() {
    let mut state = AppState::default();
    state.apply_delta(OutputContentDelta::Text(
        (0..1_000)
            .map(|index| format!("line {index}"))
            .collect::<Vec<_>>()
            .join("\n"),
    ));
    let area = Rect::new(0, 0, 24, 6);
    let map = selection_map(&state, area, 0);

    assert!(map.lines().len() <= usize::from(area.height));
    assert!(map.lines().iter().all(|line| line.screen_y.is_some()));
    assert!(map.lines().iter().all(|line| line.text != "line 0"));
}

#[test]
fn selection_map_includes_visible_image_placeholder_text() {
    let mut state = AppState::default();
    state.push_input(InputMessage::User(vec![InputContent::Image(
        ImageContent::Url {
            url: "https://example.test/image.png".to_string(),
        },
    )]));
    let map = selection_map(&state, Rect::new(0, 0, 30, 18), 0);

    assert!(map.copy_visible_text().contains("[image: url]"));
}

#[test]
fn selection_map_includes_placeholder_for_data_image() {
    let mut state = AppState::default();
    let image = png_bytes();
    let expected = format!("[image: image/png, {} bytes]", image.len());
    state.push_input(InputMessage::User(vec![InputContent::Image(data_image(
        image,
    ))]));
    let area = Rect::new(0, 0, 40, 18);

    let map = selection_map(&state, area, 0);

    assert!(map.copy_visible_text().contains(&expected));
}

#[test]
fn copy_selection_from_data_image_middle_row_copies_placeholder_once() {
    let mut state = AppState::default();
    let image = png_bytes();
    let expected = format!("[image: image/png, {} bytes]", image.len());
    state.push_input(InputMessage::User(vec![InputContent::Image(data_image(
        image,
    ))]));
    let area = Rect::new(0, 0, 40, 18);

    let map = selection_map(&state, area, 0);
    let image_rows = map
        .lines()
        .iter()
        .filter(|line| line.copy_group().is_some())
        .collect::<Vec<_>>();
    let middle = image_rows[usize::from(IMAGE_PREVIEW_HEIGHT / 2)];

    let selection = Selection::new(
        TextPosition::new(middle.x, middle.y),
        TextPosition::new(middle.x + 1, middle.y),
    );

    assert_eq!(map.copy_selection(selection), expected);
    assert_eq!(
        map.copy_visible_text().matches(expected.as_str()).count(),
        1
    );
}

#[test]
fn selection_highlight_marks_visible_text_cells() {
    let mut state = AppState::default();
    state.push_input(user("select me"));
    let area = Rect::new(0, 0, 14, 5);
    let map = selection_map(&state, area, 0);
    let line = &map.lines()[0];
    let selection = Selection::new(
        TextPosition::new(line.x + 1, line.y),
        TextPosition::new(line.x + 4, line.y),
    );

    let layout = prepare(&state, area.width);
    let spans = ConversationView::new(&layout)
        .scroll_from_bottom(0)
        .selection(Some(selection))
        .highlight(area);

    let screen_y = line.screen_y.expect("visible row");
    let reversed = |x: u16| {
        spans
            .iter()
            .any(|span| span.y == screen_y && span.start_x <= x && x < span.end_x)
    };
    assert!(reversed(line.x + 1));
    assert!(reversed(line.x + 3));
    assert!(!reversed(line.x));
}

#[test]
fn renders_tool_result_image_as_preview_not_placeholder() {
    let mut state = AppState::default();
    state.apply_tool_result(image_result(tall_png_bytes()));

    let buffer = render_conversation(
        &state,
        Rect::new(0, 0, 24, 16),
        &Picker::halfblocks(),
        0,
    );

    let lines = buffer_lines(&buffer);
    assert!(!lines.iter().any(|line| line.contains("[image:")));
    assert!(buffer
        .content()
        .iter()
        .any(|cell| matches!(cell.symbol(), "▀" | "▄")));
}

#[test]
fn clipped_kitty_image_restores_cursor_with_visible_height() {
    let mut state = AppState::default();
    state.apply_tool_result(image_result(png_bytes()));
    let mut picker = Picker::halfblocks();
    picker.set_protocol_type(ProtocolType::Kitty);

    let buffer = render_conversation(&state, Rect::new(0, 0, 24, 8), &picker, 9);

    let symbols = buffer
        .content()
        .iter()
        .map(|cell| cell.symbol())
        .collect::<String>();
    assert!(symbols.contains('\u{10EEEE}'));
    assert!(!symbols.contains("\x1b[13B"));
}

#[test]
fn top_clipped_kitty_image_remains_visible() {
    let mut state = AppState::default();
    state.apply_tool_result(image_result(tall_png_bytes()));
    let mut picker = Picker::halfblocks();
    picker.set_protocol_type(ProtocolType::Kitty);

    let buffer = render_conversation(&state, Rect::new(0, 0, 24, 8), &picker, 0);

    let symbols = buffer
        .content()
        .iter()
        .map(|cell| cell.symbol())
        .collect::<String>();
    assert!(symbols.contains('\u{10EEEE}'));
}

#[test]
fn nothing_is_drawn_outside_the_area() {
    let mut state = AppState::default();
    for index in 0..20 {
        state.push_input(user(&format!("line {index}")));
    }
    let area = Rect::new(3, 2, 17, 7);
    let layout = prepare(&state, area.width);
    for scroll in 0..layout.total_height() {
        for drawing in layout.render(area, scroll) {
            for item in &drawing.items {
                if let DrawItem::Text(text) = item {
                    assert!(text.x >= area.x && text.x + text.width <= area.right());
                    assert!(text.y >= area.y && text.y + text.rows <= area.bottom());
                    assert!(text.from_row + text.rows <= text.slice_height);
                }
            }
        }
    }
}

#[test]
fn rows_that_hang_over_are_cut_at_the_edge() {
    let mut state = AppState::default();
    state.push_input(user("a\u{200b}12345678你b"));
    let area = Rect::new(0, 0, 12, 5);
    let map = selection_map(&state, area, 0);
    let lines = map
        .lines()
        .iter()
        .map(|line| (line.text.as_str(), line.end_x() <= area.right()))
        .collect::<Vec<_>>();
    assert_eq!(lines, [("a", true), ("12345678你", true)]);
    let drawn = rendered_lines(&state, area.width, area.height, 0);
    assert!(drawn[1].starts_with(" a"));
    assert!(drawn[2].starts_with(" 12345678你"));
    assert!(drawn.iter().all(|line| !line.contains('b')));
}

#[test]
fn drawings_stay_on_their_part_of_the_screen() {
    let mut state = AppState::default();
    state.push_input(InputMessage::User(vec![
        InputContent::Text("a line that is wrapped into several rows".to_string()),
        InputContent::Image(ImageContent::Data {
            mime_type: "image/png".to_string(),
            data: Arc::new(png_bytes()),
        }),
        InputContent::Text("the end".to_string()),
    ]));
    state.push_error("failed".to_string());
    let area = Rect::new(3, 2, 12, 7);
    let layout = prepare(&state, area.width);
    for scroll in 0..layout.total_height() {
        for drawing in layout.render(area, scroll) {
            let target = drawing.target;
            assert!(target.y >= area.y && target.bottom() <= area.bottom());
            for item in &drawing.items {
                match item {
                    DrawItem::Text(text) => {
                        assert!(text.rows > 0 && text.from_row + text.rows <= text.slice_height);
                        assert!(text.x >= target.x && text.x + text.width <= target.right());
                        assert!(text.y >= target.y && text.y + text.rows <= target.bottom());
                    }
                    DrawItem::Image(image) => {
                        assert!(!image.area.is_empty());
                        assert!(image.area.x >= target.x && image.area.right() <= target.right());
                        assert!(
                            image.area.y >= target.y && image.area.bottom() <= target.bottom()
                        );
                        assert!(image.hidden_rows + image.area.height <= image.size.height);
                    }
                }
            }
        }
    }
}
