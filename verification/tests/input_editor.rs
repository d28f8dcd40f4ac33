use coox::geometry::{Position, Rect};
use coox::input::{InputBox, InputDrawing, InputEditor, MAX_INPUT_ROWS};
use coox::selection::{CopySeparator, Selection, TextPosition};
use coox::text::display_width;

fn typed(text: &str) -> InputEditor {
    let mut input = InputEditor::default();
    for ch in text.chars() {
        input.insert_char(ch);
    }
    input
}

fn numbered_lines(count: usize, width: usize) -> String {
    (0..count)
        .map(|index| format!("{index:0width$}"))
        .collect::<Vec<_>>()
        .join("\n")
}

fn screen_lines(drawing: &InputDrawing, area: Rect) -> Vec<String> {
    let mut rows =
        vec![vec![String::from(" "); usize::from(area.width)]; usize::from(area.height)];
    for cell in &drawing.cells {
        rows[usize::from(cell.y)][usize::from(cell.x)] = cell.text.clone();
        for hidden in 1..display_width(&cell.text) {
            rows[usize::from(cell.y)][usize::from(cell.x) + hidden] = String::new();
        }
    }
    rows.iter()
        .map(|row| row.concat().trim_end().to_string())
        .collect()
}

fn draw(input: &mut InputEditor, area: Rect) -> (Vec<String>, Option<Position>) {
    let input_box = InputBox::new();
    let layout = input_box.layout(input, area.width);
    let drawing = input_box.render(area, input);
    (screen_lines(&drawing, area), layout.cursor_position(area))
}

#[test]
fn input_box_layout_reports_shared_measurements() {
    let input = typed("abcde");
    let input_box = InputBox::new();
    let layout = input_box.layout(&input, 6);

    assert_eq!(input_box.content_width(6), 4);
    assert_eq!(layout.area_width(), 6);
    assert_eq!(layout.content_width(), 4);
    assert_eq!(layout.render_height(), 4);
    assert_eq!(
        layout.cursor_position(Rect::new(10, 5, 6, 4)),
        Some(Position::new(12, 7))
    );
}

#[test]
fn places_cursor_by_display_width_after_wide_text() {
    let mut input = typed("你a");

    let (_, cursor) = draw(&mut input, Rect::new(0, 0, 12, 3));

    assert_eq!(cursor, Some(Position::new(4, 1)));
}

#[test]
fn wraps_input_lines_with_cursor_on_continuation_row() {
    let mut input = typed("abcde");

    let (lines, cursor) = draw(&mut input, Rect::new(0, 0, 6, 4));

    assert_eq!(lines[0], "");
    assert_eq!(lines[1], " abcd");
    assert_eq!(lines[2], " e");
    assert_eq!(cursor, Some(Position::new(2, 2)));
}

#[test]
fn renders_hard_newline_without_continuation_gutter() {
    let mut input = typed("ab\nc");

    let (lines, cursor) = draw(&mut input, Rect::new(0, 0, 8, 4));

    assert_eq!(lines[0], "");
    assert_eq!(lines[1], " ab");
    assert_eq!(lines[2], " c");
    assert_eq!(cursor, Some(Position::new(2, 2)));
}

#[test]
fn clamps_cursor_inside_input_area() {
    let mut input = typed("abcdef");

    let (_, cursor) = draw(&mut input, Rect::new(0, 0, 4, 2));

    assert_eq!(cursor, Some(Position::new(3, 1)));
}

#[test]
fn cursor_position_tracks_scrolled_input_viewport() {
    let mut input = InputEditor::default();
    input.insert_str(&numbered_lines(20, 2));
    let area = Rect::new(0, 0, 8, 16);

    draw(&mut input, area);
    input.move_up(6);
    let (_, cursor) = draw(&mut input, area);

    assert_eq!(cursor, Some(Position::new(3, 13)));
}

#[test]
fn selection_map_tracks_scrolled_input_viewport() {
    let mut input = InputEditor::default();
    input.insert_str(&numbered_lines(20, 2));
    let area = Rect::new(0, 0, 8, 16);
    draw(&mut input, area);

    let layout = InputBox::new().layout(&input, area.width);
    let map = layout.selection_map(&input, area);
    let visible_lines = map
        .lines()
        .iter()
        .filter_map(|line| line.screen_y.map(|_| line.text.as_str()))
        .collect::<Vec<_>>();

    assert_eq!(map.viewport_start(), 6);
    assert_eq!(
        visible_lines,
        [
            "06", "07", "08", "09", "10", "11", "12", "13", "14", "15", "16", "17", "18", "19"
        ]
    );
}

#[test]
fn selection_map_contains_only_visible_input_rows_for_large_content() {
    let mut input = InputEditor::default();
    input.insert_str(&numbered_lines(1_000, 3));
    let area = Rect::new(0, 0, 8, 16);
    draw(&mut input, area);

    let layout = InputBox::new().layout(&input, area.width);
    let map = layout.selection_map(&input, area);

    assert!(map.lines().len() <= usize::from(layout.content_height()));
    assert!(map.lines().iter().all(|line| line.screen_y.is_some()));
    assert!(map.lines().iter().all(|line| line.text != "000"));
}

#[test]
fn copy_selection_can_include_input_rows_outside_current_viewport() {
    let mut input = InputEditor::default();
    let text = numbered_lines(20, 2);
    input.insert_str(&text);
    let area = Rect::new(0, 0, 8, 16);
    draw(&mut input, area);

    let layout = InputBox::new().layout(&input, area.width);
    let map = layout.selection_map(&input, area);
    let last = map
        .lines()
        .iter()
        .find(|line| line.text == "19")
        .expect("last line visible");
    let selection = Selection::new(
        TextPosition::new(last.x, 0),
        TextPosition::new(last.end_x(), last.y),
    );

    assert!(map.lines().iter().all(|line| line.text != "00"));
    assert_eq!(
        input.copy_selection(layout.content_width(), last.x, selection),
        text
    );
}

#[test]
fn selection_scroll_preserves_input_cursor() {
    let mut input = InputEditor::default();
    input.insert_str(&numbered_lines(20, 2));
    let cursor = input.cursor();
    draw(&mut input, Rect::new(0, 0, 8, 16));

    assert!(input.scroll_viewport_by(1, 6, 14));
    assert_eq!(input.cursor(), cursor);
}

#[test]
fn insert_and_submit_text() {
    let mut input = InputEditor::default();
    input.insert_char('h');
    input.insert_char('i');

    assert_eq!(input.take_submission(), Some("hi".to_string()));
    assert_eq!(input.text(), "");
    assert_eq!(input.cursor(), 0);
}

#[test]
fn empty_submission_returns_none() {
    let mut input = InputEditor::default();

    assert_eq!(input.take_submission(), None);
}

#[test]
fn inserted_newline_is_part_of_submission() {
    let mut input = InputEditor::default();
    input.insert_char('a');
    input.insert_newline();
    input.insert_char('b');

    assert_eq!(input.take_submission(), Some("a\nb".to_string()));
}

#[test]
fn backspace_removes_previous_scalar() {
    let mut input = InputEditor::default();
    input.insert_char('你');
    input.insert_char('a');
    input.backspace();

    assert_eq!(input.text(), "你");
}

#[test]
fn visual_rows_wrap_by_display_width_and_cap_at_fourteen() {
    let input = typed(&"你".repeat(20));

    assert_eq!(display_width(input.text()), 40);
    assert_eq!(input.visual_rows(4), 10);
    assert_eq!(input.visual_rows(1), MAX_INPUT_ROWS);
    assert_eq!(input.visual_row_count(1), 20);
}

#[test]
fn visual_lines_share_wrapping_with_cursor_positions() {
    let input = typed("abcde");

    assert_eq!(input.visual_lines(4), vec!["abcd", "e"]);
    assert_eq!(input.cursor_visual_position(4), (1, 1));
}

#[test]
fn visual_lines_split_hard_newlines_without_newline_bytes() {
    let input = typed("ab\ncd");

    assert_eq!(input.visual_lines(10), vec!["ab", "cd"]);
    assert_eq!(input.cursor_visual_position(10), (1, 2));
}

#[test]
fn unicode_text_wraps_without_counting_scalar_values_as_columns() {
    let input = typed("你a你a");

    assert_eq!(input.visual_rows(3), 2);
    assert_eq!(input.visual_lines(3), vec!["你a", "你a"]);
}

#[test]
fn horizontal_cursor_movement_uses_scalar_boundaries() {
    let mut input = InputEditor::default();
    input.insert_char('你');
    input.insert_char('a');

    assert_eq!(input.cursor(), 4);
    input.move_left();
    assert_eq!(input.cursor(), 3);
    assert_eq!(input.cursor_visual_position(10), (0, 2));

    input.move_left();
    assert_eq!(input.cursor(), 0);
    assert_eq!(input.cursor_visual_position(10), (0, 0));

    input.move_left();
    assert_eq!(input.cursor(), 0);

    input.move_right();
    assert_eq!(input.cursor(), 3);
    assert_eq!(input.cursor_visual_position(10), (0, 2));

    input.move_right();
    assert_eq!(input.cursor(), 4);
    assert_eq!(input.cursor_visual_position(10), (0, 3));

    input.move_right();
    assert_eq!(input.cursor(), 4);
}

#[test]
fn vertical_cursor_movement_uses_input_soft_wrap_rows() {
    let mut input = typed("abcd");

    assert_eq!(input.cursor_visual_position(2), (1, 2));
    input.move_up(2);
    assert_eq!(input.cursor_visual_position(2), (0, 1));
    assert_eq!(input.cursor(), 1);

    input.move_down(2);
    assert_eq!(input.cursor_visual_position(2), (1, 1));
    assert_eq!(input.cursor(), 3);
}

#[test]
fn moving_to_wrapped_row_start_reports_row_start_position() {
    let mut input = typed("abcd");
    for _ in 0..4 {
        input.move_left();
    }

    assert_eq!(input.cursor_visual_position(2), (0, 0));
    assert_eq!(input.cursor(), 0);

    input.move_down(2);
    assert_eq!(input.cursor_visual_position(2), (1, 0));
    assert_eq!(input.cursor(), 2);
}

#[test]
fn selection_map_rejoins_soft_wrapped_input_without_newline() {
    let input = typed("abcde");
    let layout = InputBox::new().layout(&input, 6);
    let map = layout.selection_map(&input, Rect::new(0, 0, 6, 4));

    assert_eq!(
        map.lines()
            .iter()
            .map(|line| line.text.as_str())
            .collect::<Vec<_>>(),
        ["abcd", "e"]
    );
    assert!(matches!(
        map.lines()[0].copy_separator,
        CopySeparator::Empty
    ));
    assert_eq!(map.copy_visible_text(), "abcde");
}

#[test]
fn selection_map_preserves_hard_newlines() {
    let input = typed("ab\ncd");
    let layout = InputBox::new().layout(&input, 10);
    let map = layout.selection_map(&input, Rect::new(0, 0, 10, 4));

    assert_eq!(
        map.lines()
            .iter()
            .map(|line| line.text.as_str())
            .collect::<Vec<_>>(),
        ["ab", "cd"]
    );
    assert!(matches!(
        map.lines()[0].copy_separator,
        CopySeparator::HardLine
    ));
    assert_eq!(map.copy_visible_text(), "ab\ncd");
}

#[test]
fn selection_map_uses_display_width_for_wide_text() {
    let input = typed("你a");
    let layout = InputBox::new().layout(&input, 10);
    let map = layout.selection_map(&input, Rect::new(0, 0, 10, 3));
    let line = &map.lines()[0];

    let selection = Selection::new(
        TextPosition::new(line.x, line.y),
        TextPosition::new(line.x + 2, line.y),
    );

    assert_eq!(map.copy_selection(selection), "你");
}

#[test]
fn selection_map_clamps_wide_text_width_to_content_area() {
    let mut input = typed("你");
    let input_box = InputBox::new();
    let area = Rect::new(0, 0, 3, 3);
    let layout = input_box.layout(&input, 3);
    let map = layout.selection_map(&input, area);
    let line = &map.lines()[0];
    let selection = Selection::new(
        TextPosition::new(line.x, line.y),
        TextPosition::new(line.end_x(), line.y),
    );

    InputBox::new()
        .selection(Some(selection))
        .render(area, &mut input);

    assert_eq!(line.end_x(), line.x + 1);
    assert_eq!(map.copy_selection(selection), "你");
}

#[test]
fn input_box_highlights_selection() {
    let mut input = typed("select");
    let input_box = InputBox::new();
    let area = Rect::new(0, 0, 10, 3);
    let layout = input_box.layout(&input, 10);
    let map = layout.selection_map(&input, area);
    let line = &map.lines()[0];
    let selection = Selection::new(
        TextPosition::new(line.x + 1, line.y),
        TextPosition::new(line.x + 4, line.y),
    );

    let drawing = InputBox::new()
        .selection(Some(selection))
        .render(area, &mut input);

    let screen_y = line.screen_y.expect("visible row");
    let reversed = |x: u16| {
        drawing
            .highlight
            .iter()
            .any(|span| span.y == screen_y && span.start_x <= x && x < span.end_x)
    };
    assert!(reversed(line.x + 1));
    assert!(!reversed(line.x));
}

#[test]
fn typing_then_removing_leaves_the_editor_as_it_was() {
    let mut input = typed("a你\nb");
    input.move_left();
    let text = input.text().to_string();
    let cursor = input.cursor();
    input.insert_char('é');
    input.backspace();
    assert_eq!(input.text(), text);
    assert_eq!(input.cursor(), cursor);
}

#[test]
fn removing_at_the_start_does_nothing() {
    let mut input = typed("ab");
    input.move_left();
    input.move_left();
    input.backspace();
    assert_eq!(input.text(), "ab");
    assert_eq!(input.cursor(), 0);
}
