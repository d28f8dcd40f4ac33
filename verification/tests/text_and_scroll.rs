use coox::fold::{FoldHint, FoldedText};
use coox::geometry::{Rect, Size};
use coox::scroll_view::{
    item_prefix_heights, max_scroll_from_bottom, ScrollViewState, VirtualContent,
    VirtualScrollView, VirtualViewport, VisibleItem,
};
use coox::style::{Line, Style};
use coox::text::{display_width, truncate_display_width};
use unicode_width::UnicodeWidthStr;

#[test]
fn truncate_uses_display_width_for_wide_and_combining_text() {
    assert_eq!(display_width("你a"), 3);
    assert_eq!(display_width("e\u{301}"), 1);
    assert_eq!(truncate_display_width("你abc", 3), "你a");
}

#[test]
fn truncate_uses_string_width_for_emoji_sequences() {
    let family = "👨\u{200d}👩\u{200d}👧\u{200d}👦";

    assert_eq!(display_width(family), UnicodeWidthStr::width(family));
    assert_eq!(UnicodeWidthStr::width(family), 2);
    assert_eq!(truncate_display_width(family, 2), family);
}

#[test]
fn truncated_text_is_a_prefix_that_fits() {
    let text = "a你b你c";
    for width in 0..10 {
        let cut = truncate_display_width(text, width);
        assert!(text.starts_with(cut.as_str()));
        assert!(display_width(&cut) <= width);
    }
    assert_eq!(truncate_display_width(text, 2), "a");
    assert_eq!(truncate_display_width(text, 7), text);
}

fn plain(text: &str) -> Line {
    Line::styled(text.to_string(), Style::default())
}

#[test]
fn folded_text_lines_keeps_head_and_counts_hidden_lines() {
    let lines = vec![plain("one"), plain("two"), plain("three"), plain("four")];
    let folded = FoldedText::new(lines, 2)
        .hint(FoldHint::new("hidden: {count}".to_string(), Style::default()))
        .lines();

    assert_eq!(folded[0].text(), "one");
    assert_eq!(folded[1].text(), "two");
    assert_eq!(folded[2].text(), "hidden: 2");
}

#[test]
fn short_lines_do_not_report_hidden_lines() {
    let lines = vec![plain("one")];

    let folded = FoldedText::new(lines, 3).lines();

    assert_eq!(folded.len(), 1);
    assert_eq!(folded[0].text(), "one");
}

#[test]
fn folded_text_renders_hint_when_content_is_longer_than_limit() {
    let lines = vec![plain("one"), plain("two"), plain("three")];

    let rendered: String = FoldedText::new(lines, 1)
        .hint(FoldHint::new("{count} hidden".to_string(), Style::default()))
        .lines()
        .iter()
        .map(|line| line.text())
        .collect();

    assert!(rendered.contains("one"));
    assert!(rendered.contains("2 hidden"));
}

#[test]
fn a_hint_without_a_place_for_the_count_is_shown_as_it_is() {
    let hint = FoldHint::new("more".to_string(), Style::default());
    assert_eq!(hint.text(3), "more");
    let twice = FoldHint::new("{count}/{count}".to_string(), Style::default());
    assert_eq!(twice.text(12), "12/12");
}

#[test]
fn virtual_viewport_clamps_scroll_from_bottom() {
    let viewport = VirtualViewport::new(Rect::new(0, 2, 10, 4), 20, u32::MAX);

    assert_eq!(viewport.scroll_from_bottom(), 16);
    assert_eq!(viewport.source_start(), 0);
    assert_eq!(viewport.source_end(), 4);
    assert_eq!(viewport.screen_y(0), Some(2));
    assert_eq!(viewport.screen_y(3), Some(5));
    assert_eq!(viewport.screen_y(4), None);
}

#[test]
fn bottom_viewport_starts_at_latest_rows() {
    let viewport = VirtualViewport::new(Rect::new(0, 0, 10, 4), 20, 0);

    assert_eq!(viewport.source_start(), 16);
    assert_eq!(viewport.source_end(), 20);
}

#[test]
fn scroll_view_state_clamps_at_edges() {
    let mut state = ScrollViewState::new();

    assert!(!state.scroll_by(-3, 10));
    assert_eq!(state.scroll_from_bottom(), 0);
    assert!(state.scroll_by(12, 10));
    assert_eq!(state.scroll_from_bottom(), 10);
    assert!(!state.scroll_by(1, 10));
    assert_eq!(state.scroll_from_bottom(), 10);
    assert!(state.scroll_by(-4, 10));
    assert_eq!(state.scroll_from_bottom(), 6);
}

#[test]
fn scroll_view_state_has_directional_helpers() {
    let mut state = ScrollViewState::new();

    assert!(state.scroll_up(10));
    assert_eq!(state.scroll_from_bottom(), 1);
    assert!(state.scroll_page_up(4, 10));
    assert_eq!(state.scroll_from_bottom(), 5);
    assert!(state.scroll_down(10));
    assert_eq!(state.scroll_from_bottom(), 4);
    assert!(state.scroll_to_top(10));
    assert_eq!(state.scroll_from_bottom(), 10);
    assert!(state.scroll_to_bottom(10));
    assert_eq!(state.scroll_from_bottom(), 0);
}

#[test]
fn scrolling_by_the_extremes_stays_in_range() {
    let mut state = ScrollViewState::from_bottom(u32::MAX);
    assert!(state.clamp(7));
    assert_eq!(state.scroll_from_bottom(), 7);
    assert!(!state.clamp(7));
    assert!(state.scroll_by(i32::MIN, 7));
    assert_eq!(state.scroll_from_bottom(), 0);
    assert!(state.scroll_by(i32::MAX, u32::MAX));
    assert_eq!(state.scroll_from_bottom(), i32::MAX as u32);
    assert!(state.scroll_page_down(u16::MAX, u32::MAX));
    assert_eq!(state.scroll_from_bottom(), i32::MAX as u32 - u32::from(u16::MAX));
}

#[test]
fn virtual_content_can_measure_or_borrow_prefix_heights() {
    let items = [4_u32, 5, 6, 3];
    let measured = VirtualContent::new(&items, |height: &u32| *height);
    let prefix_heights = [0, 4, 9, 15, 18];
    let borrowed = VirtualContent::from_prefix_heights(&items, &prefix_heights);

    assert_eq!(measured.prefix_heights(), prefix_heights);
    assert_eq!(borrowed.prefix_heights(), prefix_heights);
    assert_eq!(measured.total_height(), 18);
    assert_eq!(measured.size(8), Size::new(8, 18));
}

#[test]
fn measured_heights_saturate() {
    let items = [u32::MAX, 5];
    assert_eq!(
        item_prefix_heights(&items, |height: &u32| *height),
        vec![0, u32::MAX, u32::MAX]
    );
    assert_eq!(max_scroll_from_bottom(3, 10), 0);
    assert_eq!(max_scroll_from_bottom(10, 3), 7);
}

#[test]
fn visible_item_range_uses_prefix_heights() {
    let viewport = VirtualViewport::new(Rect::new(5, 10, 20, 6), 18, 4);
    let prefix_heights = [0, 4, 9, 15, 18];

    assert_eq!(viewport.visible_item_range(&prefix_heights), 1..3);
}

#[test]
fn visible_item_iteration_skips_offscreen_items() {
    let items = [4_u32, 5, 6, 3];
    let content = VirtualContent::new(&items, |height: &u32| *height);
    let viewport = VirtualViewport::new(Rect::new(5, 10, 20, 6), 18, 4);

    let visible_items = content.for_each_visible(viewport);

    assert_eq!(
        visible_items,
        vec![
            VisibleItem {
                index: 1,
                item_top: 4,
                item_bottom: 9,
                visible_top: 4,
                visible_bottom: 5,
                target: Rect::new(5, 10, 20, 1),
            },
            VisibleItem {
                index: 2,
                item_top: 9,
                item_bottom: 15,
                visible_top: 0,
                visible_bottom: 5,
                target: Rect::new(5, 11, 20, 5),
            },
        ]
    );
}

fn paint_column(visible: &[VisibleItem], symbol: fn(usize) -> &'static str) -> Vec<String> {
    let mut rows = vec![" ".to_string(); 6];
    for item in visible {
        for y in item.target.y..item.target.bottom() {
            rows[usize::from(y)] = symbol(item.index).to_string();
        }
    }
    rows
}

#[test]
fn virtual_scroll_view_renders_only_visible_items() {
    let items = [4_u32, 5, 6, 3];
    let content = VirtualContent::new(&items, |height: &u32| *height);
    let mut state = ScrollViewState::from_bottom(4);
    let area = Rect::new(0, 0, 8, 6);

    let visible = VirtualScrollView::new(content, ()).render(area, &mut state);
    let rows = paint_column(&visible, |index| match index {
        1 => "1",
        2 => "2",
        _ => "?",
    });

    assert_eq!(state.scroll_from_bottom(), 4);
    assert_eq!(rows[0], "1");
    for row in &rows[1..6] {
        assert_eq!(row, "2");
    }
}

#[test]
fn virtual_scroll_view_uses_supplied_prefix_heights() {
    let items = ["a", "b", "c", "d"];
    let prefix_heights = [0, 4, 9, 15, 18];
    let content = VirtualContent::from_prefix_heights(&items, &prefix_heights);
    let mut state = ScrollViewState::from_bottom(4);
    let area = Rect::new(0, 0, 8, 6);

    let visible = VirtualScrollView::new(content, ()).render(area, &mut state);
    let rows = paint_column(&visible, |index| ["a", "b", "c", "d"][index]);

    assert_eq!(rows[0], "b");
    for row in &rows[1..6] {
        assert_eq!(row, "c");
    }
}

#[test]
fn virtual_scroll_view_clamps_state_during_render() {
    let items = [2_u32, 2];
    let content = VirtualContent::new(&items, |height: &u32| *height);
    let mut state = ScrollViewState::from_bottom(u32::MAX);
    let area = Rect::new(0, 0, 8, 3);

    VirtualScrollView::new(content, ()).render(area, &mut state);

    assert_eq!(state.scroll_from_bottom(), 1);
}

#[test]
fn visible_items_fill_the_window() {
    let area = Rect::new(2, 3, 10, 6);
    let heights: Vec<u32> = vec![0, 4, 4, 6, 13];
    for scroll in [0, 3, 7, 20] {
        let viewport = VirtualViewport::new(area, 13, scroll);
        let visible = viewport.for_each_visible_index(&heights);
        let mut next = area.y;
        for item in &visible {
            assert_eq!((item.target.x, item.target.width), (2, 10));
            assert_eq!(item.target.y, next);
            assert!(item.target.height > 0);
            next += item.target.height;
        }
        assert_eq!(next, area.y + 6);
    }
    let short = VirtualViewport::new(area, 4, 0);
    let visible = short.for_each_visible_index(&[0, 1, 4]);
    assert_eq!(visible.len(), 2);
    assert_eq!(visible[1].target, Rect::new(2, 4, 10, 3));
}
