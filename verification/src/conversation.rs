//! The conversation on screen: how high its blocks are, what of them is drawn where, and which
//! text can be selected from them.

use crate::blocks;
use crate::blocks::{
    block_container_style, image_placeholder_text, render_block_segments, BlockSegment,
    CodeHighlighter, SegmentView,
};
use crate::chars;
use crate::geometry::{Rect, Size};
use crate::images;
use crate::scroll_view;
use crate::scroll_view::{ScrollViewState, VirtualContent, VirtualScrollView, VirtualViewport};
use crate::selection;
use crate::selection::{
    CellView, CopySeparator, HighlightSpan, RowView, Selection, SelectionCell, SelectionMap,
    SelectionRow, SelectionRowContent, SeparatorView,
};
use crate::state;
use crate::state::AppState;
use crate::style;
use crate::style::{Line, SpanView, Style};
use crate::text;
use crate::text::display_width;
use ratatui::widgets::{Paragraph, Widget, Wrap};
use vstd::prelude::*;

verus! {

pub const IMAGE_PREVIEW_HEIGHT: u16 = 14;

/// The widest text that is wrapped: a row may turn out up to four times as wide before it is cut off.
pub const MAX_TEXT_WIDTH: u16 = 16383;

/// The widest conversation: the widest text, and a column of padding on either side.
pub const MAX_VIEW_WIDTH: u16 = 16385;

/// The texts of a line's spans.
pub open spec fn span_texts(line: Seq<SpanView>) -> Seq<Seq<char>> {
    Seq::new(line.len(), |i: int| line[i].content)
}

/// How many rows `ratatui` wraps a line into, given the texts of its spans.
pub uninterp spec fn wrapped_count(contents: Seq<Seq<char>>, width: u16, trim: bool) -> nat;

/// The symbols of the first `width` screen cells, row by row, that `ratatui` draws a wrapped line
/// into, given the texts of its spans.
pub uninterp spec fn wrapped_symbols(
    contents: Seq<Seq<char>>,
    width: u16,
    height: u16,
    trim: bool,
) -> Seq<Seq<Seq<char>>>;

/// `ratatui::widgets::Paragraph::line_count` of a paragraph of one line that is wrapped at `width`
/// columns: the number of its rows. There are none where there is no column. Styles have no part
/// in it. Widths are added up as `u16`, to less than four times the width.
#[verifier::external_body]
fn line_count(line: &Line, width: u16, trim: bool) -> (count: usize)
    requires
        width <= MAX_TEXT_WIDTH,
    ensures
        count == wrapped_count(span_texts(line@), width, trim),
        width == 0 ==> count == 0,
{
    let spans: Vec<ratatui::text::Span> = line.spans.iter().map(
        |span| ratatui::text::Span::raw(span.content.as_str()),
    ).collect();
    Paragraph::new(ratatui::text::Line::from(spans)).wrap(Wrap { trim }).line_count(width)
}

/// `ratatui::widgets::Paragraph::render` of one line that is wrapped at `width` columns, into an
/// empty buffer of `columns` columns and `height` rows: the symbol of each cell of its first `width`
/// columns. Styles have no part in it. A wrapped row can be wider than `width`, but is less than four
/// times as wide, so that all of it is inside the buffer.
#[verifier::external_body]
fn line_symbols(line: &Line, width: u16, columns: u16, height: u16, trim: bool) -> (rows: Vec<
    Vec<String>,
>)
    requires
        4 * width <= columns,
    ensures
        rows@.len() == height,
        forall|y: int| 0 <= y < height ==> (#[trigger] rows@[y])@.len() == width,
        symbol_rows(rows@) == wrapped_symbols(span_texts(line@), width, height, trim),
{
    let area = ratatui::layout::Rect::new(0, 0, width, height);
    let wide = ratatui::layout::Rect::new(0, 0, columns, height);
    let mut buffer = ratatui::buffer::Buffer::empty(wide);
    let spans: Vec<ratatui::text::Span> = line.spans.iter().map(
        |span| ratatui::text::Span::raw(span.content.as_str()),
    ).collect();
    Paragraph::new(ratatui::text::Line::from(spans)).wrap(Wrap { trim }).render(area, &mut buffer);
    (0..height).map(
        |y| (0..width).map(|x| buffer[(x, y)].symbol().to_string()).collect(),
    ).collect()
}

pub open spec fn symbol_rows(rows: Seq<Vec<String>>) -> Seq<Seq<Seq<char>>> {
    Seq::new(rows.len(), |y: int| chars::texts(rows[y]@))
}

pub open spec fn clip_u32(value: nat) -> u32 {
    if value > u32::MAX {
        u32::MAX
    } else {
        value as u32
    }
}

/// The number of rows of a line.
pub open spec fn line_height_spec(width: u16, line: Seq<SpanView>, trim: bool) -> u32 {
    clip_u32(wrapped_count(span_texts(line), width, trim))
}

fn line_height(width: u16, line: &Line, trim: bool) -> (height: u32)
    requires
        width <= MAX_TEXT_WIDTH,
    ensures
        height == line_height_spec(width, line@, trim),
        width == 0 ==> height == 0,
{
    let count: usize = line_count(line, width, trim);
    if count > u32::MAX as usize {
        u32::MAX
    } else {
        count as u32
    }
}

/// The number of rows of a part of a block.
pub open spec fn segment_height(width: u16, segment: SegmentView) -> u32 {
    match segment {
        SegmentView::Line { line, trim } => line_height_spec(width, line, trim),
        SegmentView::Image(_) => IMAGE_PREVIEW_HEIGHT as u32,
    }
}

pub open spec fn segment_heights_spec(width: u16, segments: Seq<SegmentView>) -> Seq<u32> {
    Seq::new(segments.len(), |i: int| segment_height(width, segments[i]))
}

fn segment_heights(width: u16, segments: &Vec<BlockSegment>) -> (heights: Vec<u32>)
    requires
        width <= MAX_TEXT_WIDTH,
    ensures
        heights@ == segment_heights_spec(width, blocks::segment_views(segments@)),
{
    let ghost views = blocks::segment_views(segments@);
    let mut heights: Vec<u32> = Vec::new();
    let mut i: usize = 0;
    while i < segments.len()
        invariant
            i <= segments@.len(),
            width <= MAX_TEXT_WIDTH,
            views == blocks::segment_views(segments@),
            heights@.len() == i,
            forall|j: int| 0 <= j < i ==> #[trigger] heights@[j] == segment_height(width, views[j]),
        decreases segments@.len() - i,
    {
        assert(views[i as int] == segments@[i as int]@);
        let height: u32 = match &segments[i] {
            BlockSegment::Line(line) => line_height(width, &line.line, line.trim),
            BlockSegment::Image(_) => IMAGE_PREVIEW_HEIGHT as u32,
        };
        heights.push(height);
        i = i + 1;
    }
    assert(heights@ =~= segment_heights_spec(width, views));
    heights
}

/// The rows of a block: those of its parts and of its padding.
pub open spec fn block_height_spec(width: u16, segments: Seq<SegmentView>) -> u32 {
    let inner = if width.saturating_sub(2) == 0 {
        1
    } else {
        width.saturating_sub(2)
    };
    scroll_view::prefix_height(
        segment_heights_spec(inner, segments),
        segments.len() as int,
    ).saturating_add(2)
}

fn total_height_of(heights: &Vec<u32>) -> (total: u32)
    ensures
        total == scroll_view::prefix_height(heights@, heights@.len() as int),
{
    let mut total: u32 = 0;
    let mut i: usize = 0;
    while i < heights.len()
        invariant
            i <= heights@.len(),
            total == scroll_view::prefix_height(heights@, i as int),
        decreases heights@.len() - i,
    {
        total = total.saturating_add(heights[i]);
        i = i + 1;
    }
    total
}

fn block_height(width: u16, segments: &Vec<BlockSegment>) -> (height: u32)
    requires
        width <= MAX_VIEW_WIDTH,
    ensures
        height == block_height_spec(width, blocks::segment_views(segments@)),
{
    let inner_width: u16 = width.saturating_sub(2).max(1);
    let heights = segment_heights(inner_width, segments);
    total_height_of(&heights).saturating_add(2)
}

/// The part of the rows `top..bottom` that lies in `source_start..source_end`.
pub open spec fn overlap(top: u32, bottom: u32, source_start: u32, source_end: u32) -> Option<
    (u32, u32),
> {
    let visible_top = if top >= source_start {
        top
    } else {
        source_start
    };
    let visible_bottom = if bottom <= source_end {
        bottom
    } else {
        source_end
    };
    if visible_top < visible_bottom {
        Some((visible_top, visible_bottom))
    } else {
        None
    }
}

fn visible_range(top: u32, bottom: u32, source_start: u32, source_end: u32) -> (range: Option<
    (u32, u32),
>)
    ensures
        range == overlap(top, bottom, source_start, source_end),
{
    let visible_top: u32 = top.max(source_start);
    let visible_bottom: u32 = bottom.min(source_end);
    if visible_top < visible_bottom {
        Some((visible_top, visible_bottom))
    } else {
        None
    }
}

/// A row of a wrapped line, with what copying puts behind it.
pub struct RenderedView {
    pub text_width: u16,
    pub text: Seq<char>,
    pub separator: SeparatorView,
    pub cells: Seq<CellView>,
}

/// The last column, among the first `count`, that shows something.
pub open spec fn last_content(row: Seq<Seq<char>>, count: int) -> Option<int>
    decreases count,
{
    if count <= 0 {
        None
    } else if row[count - 1].len() > 0 && row[count - 1] != seq![' '] {
        Some(count - 1)
    } else {
        last_content(row, count - 1)
    }
}

/// The number of columns of a symbol.
pub open spec fn symbol_width_spec(symbol: Seq<char>) -> u16 {
    if text::width_of(symbol) > u16::MAX {
        u16::MAX
    } else {
        text::width_of(symbol) as u16
    }
}

/// The cells of a row, read up to some column.
pub struct CellScan {
    pub cells: Seq<CellView>,
    pub covered_until: u16,
    pub text_width: u16,
}

/// The cells of the first `count` columns of a row. A wide symbol covers the columns after it, and
/// what has no width is left out.
pub open spec fn scan_cells(row: Seq<Seq<char>>, text_width: u16, count: int) -> CellScan
    decreases count,
{
    if count <= 0 {
        CellScan { cells: Seq::empty(), covered_until: 0, text_width }
    } else {
        let before = scan_cells(row, text_width, count - 1);
        let column = (count - 1) as u16;
        let width = symbol_width_spec(row[count - 1]);
        if column < before.covered_until || width == 0 {
            before
        } else {
            let end = column.saturating_add(width);
            CellScan {
                cells: before.cells.push(
                    CellView { column, width, text: row[count - 1] },
                ),
                covered_until: end,
                text_width: if before.text_width >= end {
                    before.text_width
                } else {
                    end
                },
            }
        }
    }
}

/// The text of the first `count` cells.
pub open spec fn cells_plain(cells: Seq<CellView>, count: int) -> Seq<char>
    decreases count,
{
    if count <= 0 {
        Seq::empty()
    } else {
        cells_plain(cells, count - 1) + cells[count - 1].text
    }
}

/// A row of screen cells as it can be selected: up to the last cell that shows something.
pub open spec fn row_of_symbols(row: Seq<Seq<char>>) -> RenderedView {
    match last_content(row, row.len() as int) {
        Some(last) => {
            let scan = scan_cells(row, (last as u16).saturating_add(1), last + 1);
            RenderedView {
                text_width: scan.text_width,
                text: cells_plain(scan.cells, scan.cells.len() as int),
                separator: SeparatorView::HardLine,
                cells: scan.cells,
            }
        },
        None => RenderedView {
            text_width: 0,
            text: Seq::empty(),
            separator: SeparatorView::HardLine,
            cells: Seq::empty(),
        },
    }
}

#[derive(Debug)]
pub struct RenderedSelectionRow {
    pub text_width: u16,
    pub text: String,
    pub copy_separator: CopySeparator,
    pub cells: Vec<SelectionCell>,
}

impl View for RenderedSelectionRow {
    type V = RenderedView;

    open spec fn view(&self) -> RenderedView {
        RenderedView {
            text_width: self.text_width,
            text: self.text@,
            separator: self.copy_separator@,
            cells: selection::cell_views(self.cells@),
        }
    }
}

pub open spec fn rendered_views(rows: Seq<RenderedSelectionRow>) -> Seq<RenderedView> {
    Seq::new(rows.len(), |i: int| rows[i]@)
}

fn symbol_width(symbol: &str) -> (width: u16)
    ensures
        width == symbol_width_spec(symbol@),
{
    let width: usize = display_width(symbol);
    if width > u16::MAX as usize {
        u16::MAX
    } else {
        width as u16
    }
}

/// The row that screen cells with the given symbols make.
pub fn rendered_row_selection_cells(row: &Vec<String>) -> (rendered: RenderedSelectionRow)
    requires
        row@.len() <= u16::MAX,
    ensures
        rendered@ == row_of_symbols(chars::texts(row@)),
{
    let ghost symbols = chars::texts(row@);
    let mut last: usize = row.len();
    proof {
        reveal_strlit(" ");
        assert(" "@ =~= seq![' ']);
    }
    while last > 0 && (row[last - 1].as_str().is_empty() || chars::same_text(
        row[last - 1].as_str(),
        " ",
    ))
        invariant
            last <= row@.len(),
            symbols == chars::texts(row@),
            " "@ == seq![' '],
            last_content(symbols, symbols.len() as int) == last_content(symbols, last as int),
        decreases last,
    {
        assert(symbols[last - 1] == row@[last - 1]@);
        last = last - 1;
    }
    if last == 0 {
        let rendered = RenderedSelectionRow {
            text_width: 0,
            text: String::new(),
            copy_separator: CopySeparator::HardLine,
            cells: Vec::new(),
        };
        assert(rendered@.cells =~= Seq::<CellView>::empty());
        return rendered;
    }
    assert(symbols[last - 1] == row@[last - 1]@);
    let ghost first_width = ((last - 1) as u16).saturating_add(1);
    let mut text_width: u16 = ((last - 1) as u16).saturating_add(1);
    let mut cells: Vec<SelectionCell> = Vec::new();
    let mut text: String = String::new();
    let mut covered_until: u16 = 0;
    let mut i: usize = 0;
    assert(selection::cell_views(cells@) =~= Seq::<CellView>::empty());
    while i < last
        invariant
            i <= last <= row@.len() <= u16::MAX,
            symbols == chars::texts(row@),
            selection::cell_views(cells@) == scan_cells(symbols, first_width, i as int).cells,
            covered_until == scan_cells(symbols, first_width, i as int).covered_until,
            text_width == scan_cells(symbols, first_width, i as int).text_width,
            text@ == cells_plain(selection::cell_views(cells@), cells@.len() as int),
        decreases last - i,
    {
        assert(symbols[i as int] == row@[i as int]@);
        let column: u16 = i as u16;
        let symbol = row[i].as_str();
        let width: u16 = symbol_width(symbol);
        if column >= covered_until && width != 0 {
            let end: u16 = column.saturating_add(width);
            text_width = text_width.max(end);
            covered_until = end;
            let ghost before = selection::cell_views(cells@);
            let cell = SelectionCell::new(column, width, symbol.to_owned());
            let ghost view = cell.cell_view();
            cells.push(cell);
            text.append(symbol);
            assert(selection::cell_views(cells@) =~= before.push(view));
            proof {
                lemma_cells_plain_push(before, view);
            }
        }
        i = i + 1;
    }
    RenderedSelectionRow { text_width, text, copy_separator: CopySeparator::HardLine, cells }
}

proof fn lemma_cells_plain_prefix(cells: Seq<CellView>, cell: CellView, count: int)
    requires
        0 <= count <= cells.len(),
    ensures
        cells_plain(cells.push(cell), count) == cells_plain(cells, count),
    decreases count,
{
    if count > 0 {
        lemma_cells_plain_prefix(cells, cell, count - 1);
    }
}

proof fn lemma_cells_plain_push(cells: Seq<CellView>, cell: CellView)
    ensures
        cells_plain(cells.push(cell), (cells.len() + 1) as int) == cells_plain(
            cells,
            cells.len() as int,
        ) + cell.text,
{
    lemma_cells_plain_prefix(cells, cell, cells.len() as int);
}

/// Where `pattern` first occurs in `text` from character `from` on.
pub open spec fn find_from(text: Seq<char>, pattern: Seq<char>, from: int) -> Option<int>
    decreases text.len() - from,
{
    if from < 0 || from + pattern.len() > text.len() {
        None
    } else if chars::occurs_at(text, pattern, from) {
        Some(from)
    } else if from >= text.len() {
        None
    } else {
        find_from(text, pattern, from + 1)
    }
}

fn find_text(text: &Vec<char>, pattern: &Vec<char>, from: usize) -> (found: Option<usize>)
    requires
        from <= text@.len(),
    ensures
        match found {
            Some(at) => find_from(text@, pattern@, from as int) == Some(at as int) && from <= at
                && at + pattern@.len() <= text@.len(),
            None => find_from(text@, pattern@, from as int) is None,
        },
{
    let mut at: usize = from;
    loop
        invariant
            from <= at <= text@.len(),
            find_from(text@, pattern@, from as int) == find_from(text@, pattern@, at as int),
        decreases text@.len() - at,
    {
        if text.len() - at < pattern.len() {
            return None;
        }
        if chars::matches_at(text, pattern, at) {
            return Some(at);
        }
        if at >= text.len() {
            return None;
        }
        at = at + 1;
    }
}

/// Where the search for the next row starts after the first `count` rows of a line.
pub open spec fn search_start(text: Seq<char>, rows: Seq<Seq<char>>, count: int) -> int
    decreases count, 1int,
{
    if count <= 0 {
        0
    } else {
        match row_range(text, rows, count - 1) {
            Some((_, end)) => end,
            None => search_start(text, rows, count - 1),
        }
    }
}

/// The characters of a line's text that its row `index` shows.
pub open spec fn row_range(text: Seq<char>, rows: Seq<Seq<char>>, index: int) -> Option<(int, int)>
    decreases index + 1, 0int,
{
    if index < 0 {
        None
    } else {
        let from = search_start(text, rows, index);
        if rows[index].len() == 0 {
            Some((from, from))
        } else {
            match find_from(text, rows[index], from) {
                Some(at) => Some((at, at + rows[index].len())),
                None => None,
            }
        }
    }
}

/// What copying puts between row `index` of a line and the next: what the line's text has between
/// them, and a line break after the last row.
pub open spec fn separator_after(text: Seq<char>, rows: Seq<Seq<char>>, index: int) -> SeparatorView {
    if index + 1 == rows.len() {
        SeparatorView::HardLine
    } else {
        match (row_range(text, rows, index), row_range(text, rows, index + 1)) {
            (Some((_, end)), Some((start, _))) => if start <= end {
                SeparatorView::Empty
            } else {
                SeparatorView::SoftWrap(text.subrange(end, start))
            },
            _ => SeparatorView::Empty,
        }
    }
}

fn rendered_row_ranges(text: &Vec<char>, rows: &Vec<RenderedSelectionRow>) -> (ranges: Vec<
    Option<(usize, usize)>,
>)
    ensures
        ranges@.len() == rows@.len(),
        forall|i: int|
            0 <= i < rows@.len() ==> match #[trigger] ranges@[i] {
                Some((start, end)) => start <= end <= text@.len() && row_range(
                    text@,
                    row_texts(rows@),
                    i,
                ) == Some((start as int, end as int)),
                None => row_range(text@, row_texts(rows@), i) is None,
            },
{
    let ghost texts = row_texts(rows@);
    let mut ranges: Vec<Option<(usize, usize)>> = Vec::new();
    let total: usize = text.len();
    let mut cursor: usize = 0;
    let mut i: usize = 0;
    while i < rows.len()
        invariant
            i <= rows@.len(),
            texts == row_texts(rows@),
            cursor <= total == text@.len(),
            cursor == search_start(text@, texts, i as int),
            ranges@.len() == i,
            forall|j: int|
                0 <= j < i ==> match #[trigger] ranges@[j] {
                    Some((start, end)) => start <= end <= text@.len() && row_range(
                        text@,
                        texts,
                        j,
                    ) == Some((start as int, end as int)),
                    None => row_range(text@, texts, j) is None,
                },
        decreases rows@.len() - i,
    {
        assert(texts[i as int] == rows@[i as int].text@);
        let row_text = chars::chars_of(rows[i].text.as_str());
        let range: Option<(usize, usize)> = if row_text.len() == 0 {
            Some((cursor, cursor))
        } else {
            match find_text(text, &row_text, cursor) {
                Some(at) => {
                    cursor = at + row_text.len();
                    Some((at, cursor))
                },
                None => None,
            }
        };
        ranges.push(range);
        proof {
            reveal_with_fuel(search_start, 2);
            reveal_with_fuel(row_range, 2);
        }
        i = i + 1;
    }
    ranges
}

pub open spec fn row_texts(rows: Seq<RenderedSelectionRow>) -> Seq<Seq<char>> {
    Seq::new(rows.len(), |i: int| rows[i].text@)
}

/// Gives each row of a line the separator that the line's text has behind it.
fn line_copy_separators(text: &Vec<char>, rows: &Vec<RenderedSelectionRow>) -> (separators: Vec<
    CopySeparator,
>)
    ensures
        separators@.len() == rows@.len(),
        forall|i: int|
            0 <= i < rows@.len() ==> (#[trigger] separators@[i])@ == separator_after(
                text@,
                row_texts(rows@),
                i,
            ),
{
    let ghost texts = row_texts(rows@);
    let ranges = rendered_row_ranges(text, rows);
    let count: usize = rows.len();
    let mut separators: Vec<CopySeparator> = Vec::new();
    let mut i: usize = 0;
    while i < count
        invariant
            i <= count == rows@.len(),
            texts == row_texts(rows@),
            ranges@.len() == rows@.len(),
            forall|j: int|
                0 <= j < rows@.len() ==> match #[trigger] ranges@[j] {
                    Some((start, end)) => start <= end <= text@.len() && row_range(
                        text@,
                        texts,
                        j,
                    ) == Some((start as int, end as int)),
                    None => row_range(text@, texts, j) is None,
                },
            separators@.len() == i,
            forall|j: int|
                0 <= j < i ==> (#[trigger] separators@[j])@ == separator_after(text@, texts, j),
        decreases count - i,
    {
        let separator = if i + 1 == count {
            CopySeparator::HardLine
        } else {
            let this = ranges[i];
            let next = ranges[i + 1];
            match (this, next) {
                (Some((_, end)), Some((start, _))) => if start <= end {
                    CopySeparator::Empty
                } else {
                    CopySeparator::SoftWrap(chars::text_of(text.as_slice(), end, start))
                },
                _ => CopySeparator::Empty,
            }
        };
        separators.push(separator);
        i = i + 1;
    }
    separators
}

/// The rows of a wrapped line, given the symbols of its screen cells and the line's text.
pub open spec fn rows_of_symbols(symbols: Seq<Seq<Seq<char>>>, text: Seq<char>) -> Seq<
    RenderedView,
> {
    let texts = Seq::new(symbols.len(), |y: int| row_of_symbols(symbols[y]).text);
    Seq::new(
        symbols.len(),
        |y: int|
            RenderedView {
                separator: separator_after(text, texts, y),
                ..row_of_symbols(symbols[y])
            },
    )
}

/// The rows of a wrapped line whose screen cells have the given symbols.
pub fn selection_rows_of_symbols(symbols: &Vec<Vec<String>>, text: &str) -> (rows: Vec<
    RenderedSelectionRow,
>)
    requires
        forall|y: int| 0 <= y < symbols@.len() ==> (#[trigger] symbols@[y])@.len() <= u16::MAX,
    ensures
        rendered_views(rows@) == rows_of_symbols(symbol_rows(symbols@), text@),
{
    let ghost views = symbol_rows(symbols@);
    let mut rows: Vec<RenderedSelectionRow> = Vec::new();
    let mut y: usize = 0;
    while y < symbols.len()
        invariant
            y <= symbols@.len(),
            views == symbol_rows(symbols@),
            forall|k: int|
                0 <= k < symbols@.len() ==> (#[trigger] symbols@[k])@.len() <= u16::MAX,
            rows@.len() == y,
            forall|k: int| 0 <= k < y ==> (#[trigger] rows@[k])@ == row_of_symbols(views[k]),
        decreases symbols@.len() - y,
    {
        assert(symbols@[y as int]@.len() <= u16::MAX);
        assert(views[y as int] == chars::texts(symbols@[y as int]@));
        rows.push(rendered_row_selection_cells(&symbols[y]));
        y = y + 1;
    }
    let ghost texts = Seq::new(views.len(), |k: int| row_of_symbols(views[k]).text);
    assert(row_texts(rows@) =~= texts) by {
        assert forall|k: int| 0 <= k < rows@.len() implies rows@[k].text@ == texts[k] by {
            assert(rows@[k]@.text == rows@[k].text@);
        }
    }
    let characters = chars::chars_of(text);
    let separators = line_copy_separators(&characters, &rows);
    let ghost originals = rows@;
    let ghost seps = separators@;
    let mut finished: Vec<RenderedSelectionRow> = Vec::new();
    let mut separators = separators;
    let count: usize = rows.len();
    for row in iter: rows
        invariant
            iter.seq() == originals,
            finished@.len() == iter.index(),
            seps.len() == originals.len(),
            separators@ == seps.skip(iter.index() as int),
            forall|k: int|
                0 <= k < finished@.len() ==> (#[trigger] finished@[k])@ == (RenderedView {
                    separator: seps[k]@,
                    ..originals[k]@
                }),
    {
        let ghost k = iter.index() as int;
        assert(row == originals[k]);
        let separator = separators.remove(0);
        assert(separator == seps[k]);
        assert(separators@ =~= seps.skip(k + 1));
        finished.push(RenderedSelectionRow { copy_separator: separator, ..row });
    }
    assert(rendered_views(finished@) =~= rows_of_symbols(views, text@)) by {
        assert forall|k: int| 0 <= k < finished@.len() implies finished@[k]@ == rows_of_symbols(
            views,
            text@,
        )[k] by {
            assert(originals[k]@ == row_of_symbols(views[k]));
            assert(seps[k]@ == separator_after(text@, texts, k));
        }
    }
    finished
}

/// The rows of a line.
pub open spec fn line_rows(line: Seq<SpanView>, width: u16, trim: bool) -> Seq<RenderedView> {
    let height = scroll_view::spec_u16_saturated(line_height_spec(width, line, trim));
    rows_of_symbols(
        wrapped_symbols(span_texts(line), width, height, trim),
        style::plain_text(line),
    )
}

fn rendered_line_selection_rows(line: &Line, width: u16, height: u32, trim: bool) -> (rows: Vec<
    RenderedSelectionRow,
>)
    requires
        width <= MAX_TEXT_WIDTH,
        height == line_height_spec(width, line@, trim),
    ensures
        rendered_views(rows@) == line_rows(line@, width, trim),
        rows@.len() == scroll_view::spec_u16_saturated(height),
{
    let clipped: u16 = if height > u16::MAX as u32 {
        u16::MAX
    } else {
        height as u16
    };
    let symbols = line_symbols(line, width, width * 4, clipped, trim);
    let text = line.text();
    let rows = selection_rows_of_symbols(&symbols, text.as_str());
    assert(rendered_views(rows@).len() == rows@.len());
    rows
}

/// The part of the conversation that is looked at, and where it lies on screen.
#[derive(Clone, Copy, Debug, PartialEq, Eq, Structural)]
pub struct RowClip {
    pub area: Rect,
    pub viewport_start: u32,
    pub target_x: u16,
    pub width: u16,
    pub source_start: u32,
    pub source_end: u32,
}

impl RowClip {
    pub open spec fn over(
        area: Rect,
        viewport_start: u32,
        source_start: u32,
        source_end: u32,
    ) -> RowClip {
        RowClip {
            area,
            viewport_start,
            target_x: area.x.saturating_add(1),
            width: area.width.saturating_sub(2),
            source_start,
            source_end,
        }
    }

    pub open spec fn contains(self, y: u32) -> bool {
        self.source_start <= y < self.source_end
    }

    /// The screen row of a row of the conversation, where it is on screen.
    pub open spec fn screen_y(self, y: u32) -> Option<u16> {
        if self.viewport_start <= y < self.viewport_start.saturating_add(
            self.area.height as u32,
        ) {
            Some(self.area.y.saturating_add((y - self.viewport_start) as u16))
        } else {
            None
        }
    }

    fn map_screen_y(self, y: u32) -> (screen_y: Option<u16>)
        ensures
            screen_y == self.screen_y(y),
    {
        let visible_end: u32 = self.viewport_start.saturating_add(self.area.height as u32);
        if y >= self.viewport_start && y < visible_end {
            Some(self.area.y.saturating_add((y - self.viewport_start) as u16))
        } else {
            None
        }
    }
}

/// A row of a line as a selectable row of the conversation.
pub open spec fn text_row(row: RenderedView, y: u32, clip: RowClip) -> RowView {
    RowView {
        x: clip.target_x,
        y,
        screen_y: clip.screen_y(y),
        width: clip.width,
        text_width: row.text_width,
        text: row.text,
        separator: row.separator,
        copy_group: None,
        copy_text: None,
        cells: row.cells,
    }
}

/// The selectable rows with the first `count` rows of a line whose first row is row `top` of a block
/// that starts at row `block_top` of the conversation.
pub open spec fn with_line_rows(
    lines: Seq<RowView>,
    rows: Seq<RenderedView>,
    block_top: u32,
    top: u32,
    clip: RowClip,
    count: int,
) -> Seq<RowView>
    decreases count,
{
    if count <= 0 {
        lines
    } else {
        let before = with_line_rows(lines, rows, block_top, top, clip, count - 1);
        let y = block_top.saturating_add((top + count - 1) as u32);
        if clip.contains(y) {
            before.push(text_row(rows[count - 1], y, clip))
        } else {
            before
        }
    }
}

/// A row of an image as a selectable row: copying any of them copies the placeholder, once.
pub open spec fn image_row(placeholder: Seq<char>, y: u32, group: usize, clip: RowClip) -> RowView {
    RowView {
        x: clip.target_x,
        y,
        screen_y: clip.screen_y(y),
        width: clip.width,
        text_width: clip.width,
        text: placeholder,
        separator: SeparatorView::HardLine,
        copy_group: Some(group),
        copy_text: Some(placeholder),
        cells: Seq::empty(),
    }
}

/// The selectable rows with the first `count` rows of an image.
pub open spec fn with_image_rows(
    lines: Seq<RowView>,
    placeholder: Seq<char>,
    block_top: u32,
    top: u32,
    clip: RowClip,
    count: int,
) -> Seq<RowView>
    decreases count,
{
    if count <= 0 {
        lines
    } else {
        let before = with_image_rows(lines, placeholder, block_top, top, clip, count - 1);
        let y = block_top.saturating_add(top).saturating_add((count - 1) as u32);
        if clip.contains(y) {
            before.push(image_row(placeholder, y, lines.len() as usize, clip))
        } else {
            before
        }
    }
}

/// The row of a block at which its part `k` starts; the first row is padding.
pub open spec fn segment_top(segments: Seq<SegmentView>, width: u16, k: int) -> u32
    decreases k,
{
    if k <= 0 {
        1
    } else {
        segment_top(segments, width, k - 1).saturating_add(segment_height(width, segments[k - 1]))
    }
}

/// The selectable rows with those of the first `k` parts of a block.
pub open spec fn with_segment_rows(
    lines: Seq<RowView>,
    segments: Seq<SegmentView>,
    block_top: u32,
    clip: RowClip,
    k: int,
) -> Seq<RowView>
    decreases k,
{
    if k <= 0 {
        lines
    } else {
        let before = with_segment_rows(lines, segments, block_top, clip, k - 1);
        let top = segment_top(segments, clip.width, k - 1);
        match segments[k - 1] {
            SegmentView::Line { line, trim } => {
                let height = line_height_spec(clip.width, line, trim);
                let bottom = top.saturating_add(height);
                let rows = line_rows(line, clip.width, trim);
                if overlap(
                    block_top.saturating_add(top),
                    block_top.saturating_add(bottom),
                    clip.source_start,
                    clip.source_end,
                ) is None {
                    before
                } else {
                    with_line_rows(
                        before,
                        rows,
                        block_top,
                        top,
                        clip,
                        if rows.len() <= bottom - top {
                            rows.len() as int
                        } else {
                            bottom - top
                        },
                    )
                }
            },
            SegmentView::Image(image) => with_image_rows(
                before,
                images::image_placeholder(image),
                block_top,
                top,
                clip,
                IMAGE_PREVIEW_HEIGHT as int,
            ),
        }
    }
}

/// A block made ready to be shown in a certain width.
#[derive(Debug)]
pub struct PreparedBlock {
    pub segments: Vec<BlockSegment>,
    pub style: Style,
    pub height: u32,
}

/// A block made ready, as plain values.
pub struct PreparedView {
    pub segments: Seq<SegmentView>,
    pub style: Style,
    pub height: u32,
}

impl View for PreparedBlock {
    type V = PreparedView;

    open spec fn view(&self) -> PreparedView {
        PreparedView {
            segments: blocks::segment_views(self.segments@),
            style: self.style,
            height: self.height,
        }
    }
}

pub open spec fn prepared_views(blocks: Seq<PreparedBlock>) -> Seq<PreparedView> {
    Seq::new(blocks.len(), |i: int| blocks[i]@)
}

pub open spec fn block_heights(blocks: Seq<PreparedView>) -> Seq<u32> {
    Seq::new(blocks.len(), |i: int| blocks[i].height)
}

/// The selectable rows with those of one block.
pub open spec fn with_block_rows(
    lines: Seq<RowView>,
    block: PreparedView,
    block_top: u32,
    clip: RowClip,
) -> Seq<RowView> {
    if clip.area.empty() || clip.width == 0 || overlap(
        block_top,
        block_top.saturating_add(block.height),
        clip.source_start,
        clip.source_end,
    ) is None {
        lines
    } else {
        with_segment_rows(lines, block.segments, block_top, clip, block.segments.len() as int)
    }
}

/// The selectable rows of the first `count` blocks.
pub open spec fn conversation_rows(
    blocks: Seq<PreparedView>,
    clip: RowClip,
    count: int,
) -> Seq<RowView>
    decreases count,
{
    if count <= 0 {
        Seq::empty()
    } else {
        with_block_rows(
            conversation_rows(blocks, clip, count - 1),
            blocks[count - 1],
            scroll_view::prefix_height(block_heights(blocks), count - 1),
            clip,
        )
    }
}

fn collect_line_selection_rows(
    line: &Line,
    trim: bool,
    height: u32,
    block_top: u32,
    top: u32,
    clip: RowClip,
    map: &mut SelectionMap,
)
    requires
        clip.width <= MAX_TEXT_WIDTH,
        height == line_height_spec(clip.width, line@, trim),
    ensures
        final(map).spec_area() == old(map).spec_area(),
        final(map).spec_viewport_start() == old(map).spec_viewport_start(),
        final(map).spec_total_height() == old(map).spec_total_height(),
        final(map).spec_lines() == ({
            let bottom = top.saturating_add(height);
            let rows = line_rows(line@, clip.width, trim);
            if overlap(
                block_top.saturating_add(top),
                block_top.saturating_add(bottom),
                clip.source_start,
                clip.source_end,
            ) is None {
                old(map).spec_lines()
            } else {
                with_line_rows(
                    old(map).spec_lines(),
                    rows,
                    block_top,
                    top,
                    clip,
                    if rows.len() <= bottom - top {
                        rows.len() as int
                    } else {
                        bottom - top
                    },
                )
            }
        }),
{
    let bottom: u32 = top.saturating_add(height);
    if visible_range(
        block_top.saturating_add(top),
        block_top.saturating_add(bottom),
        clip.source_start,
        clip.source_end,
    ).is_none() {
        return;
    }
    let rendered = rendered_line_selection_rows(line, clip.width, height, trim);
    let ghost rows = rendered_views(rendered@);
    let count: u32 = if rendered.len() <= (bottom - top) as usize {
        rendered.len() as u32
    } else {
        bottom - top
    };
    let ghost start = map.spec_lines();
    let mut k: u32 = 0;
    while k < count
        invariant
            k <= count <= bottom - top,
            count <= rendered@.len(),
            rows == rendered_views(rendered@),
            map.spec_area() == old(map).spec_area(),
            map.spec_viewport_start() == old(map).spec_viewport_start(),
            map.spec_total_height() == old(map).spec_total_height(),
            map.spec_lines() == with_line_rows(start, rows, block_top, top, clip, k as int),
        decreases count - k,
    {
        let y: u32 = block_top.saturating_add(top + k);
        if y >= clip.source_start && y < clip.source_end {
            let row = &rendered[k as usize];
            assert(row@ == rows[k as int]);
            let line = SelectionRow::new(
                clip.target_x,
                y,
                clip.map_screen_y(y),
                clip.width,
                SelectionRowContent::new(
                    row.text_width,
                    row.text.clone(),
                    clone_separator(&row.copy_separator),
                    clone_cells(&row.cells),
                ),
            );
            assert(line@ == text_row(rows[k as int], y, clip));
            map.push_line(line);
        }
        k = k + 1;
    }
}

fn clone_separator(separator: &CopySeparator) -> (copy: CopySeparator)
    ensures
        copy@ == separator@,
{
    match separator {
        CopySeparator::Empty => CopySeparator::Empty,
        CopySeparator::SoftWrap(text) => CopySeparator::SoftWrap(text.clone()),
        CopySeparator::HardLine => CopySeparator::HardLine,
    }
}

fn clone_cells(cells: &Vec<SelectionCell>) -> (copy: Vec<SelectionCell>)
    ensures
        selection::cell_views(copy@) == selection::cell_views(cells@),
{
    let mut copy: Vec<SelectionCell> = Vec::new();
    let mut i: usize = 0;
    while i < cells.len()
        invariant
            i <= cells@.len(),
            copy@.len() == i,
            forall|j: int|
                0 <= j < i ==> (#[trigger] copy@[j]).cell_view() == cells@[j].cell_view(),
        decreases cells@.len() - i,
    {
        let cell = &cells[i];
        copy.push(SelectionCell::new(cell.column(), cell.width(), cell.text().to_owned()));
        i = i + 1;
    }
    assert(selection::cell_views(copy@) =~= selection::cell_views(cells@));
    copy
}

fn collect_image_placeholder_selection_rows(
    placeholder: &str,
    block_top: u32,
    top: u32,
    clip: RowClip,
    map: &mut SelectionMap,
)
    ensures
        final(map).spec_area() == old(map).spec_area(),
        final(map).spec_viewport_start() == old(map).spec_viewport_start(),
        final(map).spec_total_height() == old(map).spec_total_height(),
        final(map).spec_lines() == with_image_rows(
            old(map).spec_lines(),
            placeholder@,
            block_top,
            top,
            clip,
            IMAGE_PREVIEW_HEIGHT as int,
        ),
{
    let copy_group: usize = map.lines().len();
    let ghost start = map.spec_lines();
    let mut offset: u16 = 0;
    assert(copy_group == start.len());
    while offset < IMAGE_PREVIEW_HEIGHT
        invariant
            offset <= IMAGE_PREVIEW_HEIGHT,
            copy_group == start.len() as usize,
            map.spec_area() == old(map).spec_area(),
            map.spec_viewport_start() == old(map).spec_viewport_start(),
            map.spec_total_height() == old(map).spec_total_height(),
            map.spec_lines() == with_image_rows(
                start,
                placeholder@,
                block_top,
                top,
                clip,
                offset as int,
            ),
        decreases IMAGE_PREVIEW_HEIGHT - offset,
    {
        let y: u32 = block_top.saturating_add(top).saturating_add(offset as u32);
        if y >= clip.source_start && y < clip.source_end {
            let cells: Vec<SelectionCell> = Vec::new();
            assert(selection::cell_views(cells@) =~= Seq::<CellView>::empty());
            map.push_line(
                SelectionRow::new(
                    clip.target_x,
                    y,
                    clip.map_screen_y(y),
                    clip.width,
                    SelectionRowContent::new(
                        clip.width,
                        placeholder.to_owned(),
                        CopySeparator::HardLine,
                        cells,
                    ),
                ).with_copy_group(copy_group).with_copy_text(placeholder.to_owned()),
            );
        }
        offset = offset + 1;
    }
}

fn collect_block_selection_rows(
    block: &PreparedBlock,
    block_top: u32,
    clip: RowClip,
    map: &mut SelectionMap,
)
    requires
        clip.width <= MAX_TEXT_WIDTH,
    ensures
        final(map).spec_area() == old(map).spec_area(),
        final(map).spec_viewport_start() == old(map).spec_viewport_start(),
        final(map).spec_total_height() == old(map).spec_total_height(),
        final(map).spec_lines() == with_block_rows(
            old(map).spec_lines(),
            block@,
            block_top,
            clip,
        ),
{
    if clip.area.is_empty() || clip.width == 0 {
        return;
    }
    if visible_range(
        block_top,
        block_top.saturating_add(block.height),
        clip.source_start,
        clip.source_end,
    ).is_none() {
        return;
    }
    let ghost segments = block@.segments;
    let ghost start = map.spec_lines();
    let mut top: u32 = 1;
    let mut i: usize = 0;
    while i < block.segments.len()
        invariant
            i <= block.segments@.len(),
            clip.width <= MAX_TEXT_WIDTH,
            segments == blocks::segment_views(block.segments@),
            top == segment_top(segments, clip.width, i as int),
            map.spec_area() == old(map).spec_area(),
            map.spec_viewport_start() == old(map).spec_viewport_start(),
            map.spec_total_height() == old(map).spec_total_height(),
            map.spec_lines() == with_segment_rows(start, segments, block_top, clip, i as int),
        decreases block.segments@.len() - i,
    {
        assert(segments[i as int] == block.segments@[i as int]@);
        match &block.segments[i] {
            BlockSegment::Line(line) => {
                let height: u32 = line_height(clip.width, &line.line, line.trim);
                collect_line_selection_rows(
                    &line.line,
                    line.trim,
                    height,
                    block_top,
                    top,
                    clip,
                    map,
                );
                top = top.saturating_add(height);
            },
            BlockSegment::Image(image) => {
                let placeholder = image_placeholder_text(image);
                collect_image_placeholder_selection_rows(
                    placeholder.as_str(),
                    block_top,
                    top,
                    clip,
                    map,
                );
                top = top.saturating_add(IMAGE_PREVIEW_HEIGHT as u32);
            },
        }
        i = i + 1;
    }
}

proof fn lemma_rows_of_hidden_blocks(
    blocks: Seq<PreparedView>,
    clip: RowClip,
    from: int,
    to: int,
)
    requires
        0 <= from <= to <= blocks.len(),
        forall|i: int|
            from <= i < to ==> overlap(
                #[trigger] scroll_view::prefix_height(block_heights(blocks), i),
                scroll_view::prefix_height(block_heights(blocks), i + 1),
                clip.source_start,
                clip.source_end,
            ) is None,
    ensures
        conversation_rows(blocks, clip, to) == conversation_rows(blocks, clip, from),
    decreases to - from,
{
    if from < to {
        lemma_rows_of_hidden_blocks(blocks, clip, from, to - 1);
        let heights = block_heights(blocks);
        assert(scroll_view::prefix_height(heights, to - 1 + 1) == scroll_view::prefix_height(
            heights,
            to - 1,
        ).saturating_add(heights[to - 1]));
        assert(heights[to - 1] == blocks[to - 1].height);
    }
}

/// The rows of the blocks that have a row in `clip`, pushed into an empty map.
fn collect_rows(
    blocks: &Vec<PreparedBlock>,
    prefix_heights: &Vec<u32>,
    clip: RowClip,
    map: &mut SelectionMap,
)
    requires
        prefix_heights@ == scroll_view::spec_prefix_heights(
            block_heights(prepared_views(blocks@)),
        ),
        old(map).spec_lines() == Seq::<RowView>::empty(),
        !clip.area.empty(),
        clip.width <= MAX_TEXT_WIDTH,
    ensures
        final(map).spec_area() == old(map).spec_area(),
        final(map).spec_viewport_start() == old(map).spec_viewport_start(),
        final(map).spec_total_height() == old(map).spec_total_height(),
        final(map).spec_lines() == conversation_rows(
            prepared_views(blocks@),
            clip,
            blocks@.len() as int,
        ),
{
    let ghost views = prepared_views(blocks@);
    let ghost heights = block_heights(views);
    let ghost total = blocks@.len() as int;
    proof {
        scroll_view::law_prefix_heights_sorted(heights);
    }
    let (start, end) = block_range_for_source(prefix_heights, clip.source_start, clip.source_end);
    proof {
        assert forall|i: int| 0 <= i < start implies overlap(
            #[trigger] scroll_view::prefix_height(heights, i),
            scroll_view::prefix_height(heights, i + 1),
            clip.source_start,
            clip.source_end,
        ) is None by {
            assert(prefix_heights@[i] == scroll_view::prefix_height(heights, i));
            assert(prefix_heights@[i + 1] == scroll_view::prefix_height(heights, i + 1));
        }
        lemma_rows_of_hidden_blocks(views, clip, 0, start as int);
    }
    let mut i: usize = start;
    while i < end
        invariant
            start <= i <= end <= blocks@.len(),
            clip.width <= MAX_TEXT_WIDTH,
            views == prepared_views(blocks@),
            heights == block_heights(views),
            prefix_heights@ == scroll_view::spec_prefix_heights(heights),
            map.spec_area() == old(map).spec_area(),
            map.spec_viewport_start() == old(map).spec_viewport_start(),
            map.spec_total_height() == old(map).spec_total_height(),
            map.spec_lines() == conversation_rows(views, clip, i as int),
        decreases end - i,
    {
        assert(prefix_heights@[i as int] == scroll_view::prefix_height(heights, i as int));
        assert(views[i as int] == blocks@[i as int]@);
        collect_block_selection_rows(&blocks[i], prefix_heights[i], clip, map);
        i = i + 1;
    }
    proof {
        assert forall|i: int| end <= i < total implies overlap(
            #[trigger] scroll_view::prefix_height(heights, i),
            scroll_view::prefix_height(heights, i + 1),
            clip.source_start,
            clip.source_end,
        ) is None by {
            assert(prefix_heights@[i] == scroll_view::prefix_height(heights, i));
            assert(prefix_heights@[i + 1] == scroll_view::prefix_height(heights, i + 1));
        }
        lemma_rows_of_hidden_blocks(views, clip, end as int, total);
    }
}

/// The blocks that may have a row in `source_start..source_end`.
fn block_range_for_source(prefix_heights: &Vec<u32>, source_start: u32, source_end: u32) -> (range: (
    usize,
    usize,
))
    requires
        prefix_heights@.len() > 0,
        scroll_view::sorted(prefix_heights@),
    ensures
        range.0 <= range.1 < prefix_heights@.len(),
        forall|i: int|
            0 <= i < prefix_heights@.len() - 1 && !(range.0 <= i < range.1) ==> overlap(
                #[trigger] prefix_heights@[i],
                prefix_heights@[i + 1],
                source_start,
                source_end,
            ) is None,
{
    if source_start >= source_end || prefix_heights.len() < 2 {
        return (0, 0);
    }
    let item_count: usize = prefix_heights.len() - 1;
    let reached: usize = scroll_view::partition_below(
        prefix_heights.as_slice(),
        source_start as u64 + 1,
    );
    let start: usize = reached.saturating_sub(1).min(item_count);
    let started: usize = scroll_view::partition_below(prefix_heights.as_slice(), source_end as u64);
    let end: usize = started.min(item_count);
    (start, end.max(start))
}

/// Rows of text to draw: the lines `start..end` of a block are wrapped together into `slice_height`
/// rows of `width` columns, and `rows` of these, from row `from_row` on, go to the screen.
#[derive(Clone, Copy, Debug, PartialEq, Eq, Structural)]
pub struct TextDrawing {
    pub start: usize,
    pub end: usize,
    pub trim: bool,
    pub slice_height: u16,
    pub from_row: u16,
    pub rows: u16,
    pub x: u16,
    pub y: u16,
    pub width: u16,
}

/// An image to draw into `area`, moved up by `hidden_rows` rows that are scrolled out of view.
#[derive(Clone, Copy, Debug, PartialEq, Eq, Structural)]
pub struct ImageDrawing {
    pub segment: usize,
    pub area: Rect,
    pub size: Size,
    pub hidden_rows: u16,
}

#[derive(Clone, Copy, Debug, PartialEq, Eq, Structural)]
pub enum DrawItem {
    Text(TextDrawing),
    Image(ImageDrawing),
}

/// Where a block is drawn, and which of its rows.
#[derive(Clone, Copy, Debug, PartialEq, Eq, Structural)]
pub struct DrawClip {
    pub target: Rect,
    pub source_start: u32,
    pub height: u32,
}

impl DrawClip {
    pub open spec fn width(self) -> u16 {
        self.target.width.saturating_sub(2)
    }

    pub open spec fn x(self) -> u16 {
        self.target.x.saturating_add(1)
    }

    pub open spec fn source_end(self) -> u32 {
        self.source_start.saturating_add(self.target.height as u32)
    }

    /// The screen row of a row of the block.
    pub open spec fn screen_y(self, row: u32) -> u16 {
        self.target.y.saturating_add((row - self.source_start) as u16)
    }
}

/// The row at which line `j` of a group starts, where line `start` starts at row `top`.
pub open spec fn line_top(heights: Seq<u32>, start: int, top: u32, j: int) -> u32
    decreases j - start,
{
    if j <= start {
        top
    } else {
        line_top(heights, start, top, j - 1).saturating_add(heights[j - 1])
    }
}

/// The first line, from line `j` on, that ends below row `visible_top`.
pub open spec fn first_shown(
    heights: Seq<u32>,
    start: int,
    top: u32,
    end: int,
    visible_top: u32,
    j: int,
) -> int
    decreases end - j,
{
    if j >= end || line_top(heights, start, top, j + 1) > visible_top {
        j
    } else {
        first_shown(heights, start, top, end, visible_top, j + 1)
    }
}

/// The first line, from line `j` on, that starts at row `visible_bottom` or below.
pub open spec fn first_below(
    heights: Seq<u32>,
    start: int,
    top: u32,
    end: int,
    visible_bottom: u32,
    j: int,
) -> int
    decreases end - j,
{
    if j >= end || line_top(heights, start, top, j) >= visible_bottom {
        j
    } else {
        first_below(heights, start, top, end, visible_bottom, j + 1)
    }
}

/// What is drawn of a group of lines whose first line starts at row `top` of the block.
pub open spec fn group_drawing(
    heights: Seq<u32>,
    start: int,
    end: int,
    trim: bool,
    top: u32,
    clip: DrawClip,
) -> Option<DrawItem> {
    match overlap(
        top,
        line_top(heights, start, top, end),
        clip.source_start,
        clip.source_end(),
    ) {
        None => None,
        Some((visible_top, visible_bottom)) => {
            let first = first_shown(heights, start, top, end, visible_top, start);
            let last = first_below(heights, start, top, end, visible_bottom, first);
            let slice_top = line_top(heights, start, top, first);
            let slice_height = scroll_view::spec_u16_saturated(
                (line_top(heights, start, top, last) - slice_top) as u32,
            );
            let from_row = visible_top.saturating_sub(slice_top);
            if first >= end || clip.width() == 0 || from_row >= slice_height {
                None
            } else {
                Some(
                    DrawItem::Text(
                        TextDrawing {
                            start: first as usize,
                            end: last as usize,
                            trim,
                            slice_height,
                            from_row: from_row as u16,
                            rows: if visible_bottom - visible_top <= slice_height - from_row {
                                (visible_bottom - visible_top) as u16
                            } else {
                                (slice_height - from_row) as u16
                            },
                            x: clip.x(),
                            y: clip.screen_y(visible_top),
                            width: clip.width(),
                        },
                    ),
                )
            }
        },
    }
}

/// What is drawn of an image that starts at row `top` of the block.
pub open spec fn image_drawing(segment: int, top: u32, clip: DrawClip) -> Option<DrawItem> {
    let room = clip.height.saturating_sub(1).saturating_sub(top);
    let height = if room < IMAGE_PREVIEW_HEIGHT {
        room
    } else {
        IMAGE_PREVIEW_HEIGHT as u32
    };
    match overlap(top, top.saturating_add(height), clip.source_start, clip.source_end()) {
        None => None,
        Some((visible_top, visible_bottom)) => if clip.width() == 0 {
            None
        } else {
            Some(
                DrawItem::Image(
                    ImageDrawing {
                        segment: segment as usize,
                        area: Rect::spec_new(
                            clip.x(),
                            clip.screen_y(visible_top),
                            clip.width(),
                            (visible_bottom - visible_top) as u16,
                        ),
                        size: Size { width: clip.width(), height: IMAGE_PREVIEW_HEIGHT },
                        hidden_rows: (visible_top - top) as u16,
                    },
                ),
            )
        },
    }
}

/// The drawing of a block, part by part: what has been drawn, and the group of lines that is open.
pub struct DrawState {
    pub items: Seq<DrawItem>,
    /// The row at which the open group starts.
    pub top: u32,
    /// The first line of the open group.
    pub start: int,
}

pub open spec fn trims(segment: SegmentView) -> bool {
    segment matches SegmentView::Line { trim, .. } && trim
}

/// The drawing with the open group, which ends before part `end`, drawn.
pub open spec fn flush_group(
    drawn: DrawState,
    segments: Seq<SegmentView>,
    heights: Seq<u32>,
    end: int,
    clip: DrawClip,
) -> DrawState {
    if drawn.start >= end || clip.width() == 0 {
        DrawState { start: end, ..drawn }
    } else {
        DrawState {
            items: match group_drawing(
                heights,
                drawn.start,
                end,
                trims(segments[drawn.start]),
                drawn.top,
                clip,
            ) {
                Some(item) => drawn.items.push(item),
                None => drawn.items,
            },
            top: line_top(heights, drawn.start, drawn.top, end),
            start: end,
        }
    }
}

/// The drawing of the first `k` parts of a block. Lines that follow each other are wrapped together
/// where all of them are trimmed, or none.
pub open spec fn draw_segments(
    segments: Seq<SegmentView>,
    heights: Seq<u32>,
    clip: DrawClip,
    k: int,
) -> DrawState
    decreases k,
{
    if k <= 0 {
        DrawState { items: Seq::empty(), top: 1, start: 0 }
    } else {
        let before = draw_segments(segments, heights, clip, k - 1);
        match segments[k - 1] {
            SegmentView::Line { trim, .. } => if before.start < k - 1 && trims(
                segments[before.start],
            ) != trim {
                flush_group(before, segments, heights, k - 1, clip)
            } else {
                before
            },
            SegmentView::Image(_) => {
                let flushed = flush_group(before, segments, heights, k - 1, clip);
                DrawState {
                    items: match image_drawing(k - 1, flushed.top, clip) {
                        Some(item) => flushed.items.push(item),
                        None => flushed.items,
                    },
                    top: flushed.top.saturating_add(IMAGE_PREVIEW_HEIGHT as u32),
                    start: k,
                }
            },
        }
    }
}

/// What is drawn of a block of `height` rows, from row `source_y` on, into `target`.
pub open spec fn block_drawing(
    segments: Seq<SegmentView>,
    height: u32,
    source_y: u32,
    target: Rect,
) -> Seq<DrawItem> {
    let clip = DrawClip { target, source_start: source_y, height };
    let heights = segment_heights_spec(clip.width(), segments);
    if target.empty() {
        Seq::empty()
    } else {
        flush_group(
            draw_segments(segments, heights, clip, segments.len() as int),
            segments,
            heights,
            segments.len() as int,
            clip,
        ).items
    }
}

proof fn lemma_line_top_increases(heights: Seq<u32>, start: int, top: u32, i: int, j: int)
    requires
        start <= i <= j,
    ensures
        line_top(heights, start, top, i) <= line_top(heights, start, top, j),
    decreases j - i,
{
    if i < j {
        lemma_line_top_increases(heights, start, top, i, j - 1);
    }
}

fn group_top(heights: &Vec<u32>, start: usize, top: u32, end: usize) -> (row: u32)
    requires
        start <= end <= heights@.len(),
    ensures
        row == line_top(heights@, start as int, top, end as int),
{
    let mut row: u32 = top;
    let mut j: usize = start;
    while j < end
        invariant
            start <= j <= end <= heights@.len(),
            row == line_top(heights@, start as int, top, j as int),
        decreases end - j,
    {
        row = row.saturating_add(heights[j]);
        j = j + 1;
    }
    row
}

fn render_line_group_view(
    heights: &Vec<u32>,
    start: usize,
    end: usize,
    trim: bool,
    top: u32,
    clip: DrawClip,
) -> (item: Option<DrawItem>)
    requires
        start < end <= heights@.len(),
        clip.width() > 0,
    ensures
        item == group_drawing(heights@, start as int, end as int, trim, top, clip),
{
    let ghost hs = heights@;
    let ghost s = start as int;
    let source_end: u32 = clip.source_start.saturating_add(clip.target.height as u32);
    let bottom: u32 = group_top(heights, start, top, end);
    let (visible_top, visible_bottom) = match visible_range(
        top,
        bottom,
        clip.source_start,
        source_end,
    ) {
        Some(range) => range,
        None => {
            return None;
        },
    };
    let mut first: usize = start;
    let mut slice_top: u32 = top;
    while first < end && slice_top.saturating_add(heights[first]) <= visible_top
        invariant
            start <= first <= end <= heights@.len(),
            hs == heights@,
            s == start,
            slice_top == line_top(hs, s, top, first as int),
            first_shown(hs, s, top, end as int, visible_top, s) == first_shown(
                hs,
                s,
                top,
                end as int,
                visible_top,
                first as int,
            ),
        decreases end - first,
    {
        assert(line_top(hs, s, top, first + 1) == slice_top.saturating_add(hs[first as int]));
        slice_top = slice_top.saturating_add(heights[first]);
        first = first + 1;
    }
    assert(first < end ==> line_top(hs, s, top, first + 1) == slice_top.saturating_add(
        hs[first as int],
    ));
    if first >= end {
        return None;
    }
    let mut last: usize = first;
    let mut slice_bottom: u32 = slice_top;
    while last < end && slice_bottom < visible_bottom
        invariant
            start <= first <= last <= end <= heights@.len(),
            hs == heights@,
            s == start,
            slice_bottom == line_top(hs, s, top, last as int),
            first_below(hs, s, top, end as int, visible_bottom, first as int) == first_below(
                hs,
                s,
                top,
                end as int,
                visible_bottom,
                last as int,
            ),
        decreases end - last,
    {
        assert(line_top(hs, s, top, last + 1) == slice_bottom.saturating_add(hs[last as int]));
        slice_bottom = slice_bottom.saturating_add(heights[last]);
        last = last + 1;
    }
    proof {
        lemma_line_top_increases(hs, s, top, first as int, last as int);
    }
    let slice_rows: u32 = slice_bottom - slice_top;
    let slice_height: u16 = if slice_rows > u16::MAX as u32 {
        u16::MAX
    } else {
        slice_rows as u16
    };
    let from_row: u32 = visible_top.saturating_sub(slice_top);
    if from_row >= slice_height as u32 {
        return None;
    }
    let wanted: u32 = visible_bottom - visible_top;
    let left: u32 = slice_height as u32 - from_row;
    let rows: u16 = if wanted <= left {
        wanted as u16
    } else {
        left as u16
    };
    Some(
        DrawItem::Text(
            TextDrawing {
                start: first,
                end: last,
                trim,
                slice_height,
                from_row: from_row as u16,
                rows,
                x: clip.target.x.saturating_add(1),
                y: clip.target.y.saturating_add((visible_top - clip.source_start) as u16),
                width: clip.target.width.saturating_sub(2),
            },
        ),
    )
}

fn render_image_segment_view(segment: usize, top: u32, clip: DrawClip) -> (item: Option<DrawItem>)
    ensures
        item == image_drawing(segment as int, top, clip),
{
    let source_end: u32 = clip.source_start.saturating_add(clip.target.height as u32);
    let width: u16 = clip.target.width.saturating_sub(2);
    let room: u32 = clip.height.saturating_sub(1).saturating_sub(top);
    let height: u32 = if room < IMAGE_PREVIEW_HEIGHT as u32 {
        room
    } else {
        IMAGE_PREVIEW_HEIGHT as u32
    };
    match visible_range(top, top.saturating_add(height), clip.source_start, source_end) {
        None => None,
        Some((visible_top, visible_bottom)) => if width == 0 {
            None
        } else {
            Some(
                DrawItem::Image(
                    ImageDrawing {
                        segment,
                        area: Rect::new(
                            clip.target.x.saturating_add(1),
                            clip.target.y.saturating_add(
                                (visible_top - clip.source_start) as u16,
                            ),
                            width,
                            (visible_bottom - visible_top) as u16,
                        ),
                        size: Size::new(width, IMAGE_PREVIEW_HEIGHT),
                        hidden_rows: (visible_top - top) as u16,
                    },
                ),
            )
        },
    }
}

/// What is drawn of a block of `height` rows, from row `source_y` on, into `target`.
#[verifier::spinoff_prover]
#[verifier::rlimit(60)]
pub fn render_block_view(
    segments: &Vec<BlockSegment>,
    height: u32,
    source_y: u32,
    target: Rect,
) -> (items: Vec<DrawItem>)
    requires
        target.width <= MAX_VIEW_WIDTH,
    ensures
        items@ == block_drawing(blocks::segment_views(segments@), height, source_y, target),
{
    let ghost views = blocks::segment_views(segments@);
    let mut items: Vec<DrawItem> = Vec::new();
    if target.is_empty() {
        return items;
    }
    let clip = DrawClip { target, source_start: source_y, height };
    let width: u16 = target.width.saturating_sub(2);
    let heights = segment_heights(width, segments);
    let mut top: u32 = 1;
    let mut start: usize = 0;
    let mut group_trim = true;
    let mut i: usize = 0;
    while i < segments.len()
        invariant
            start <= i <= segments@.len(),
            views == blocks::segment_views(segments@),
            heights@ == segment_heights_spec(clip.width(), views),
            items@ == draw_segments(views, heights@, clip, i as int).items,
            top == draw_segments(views, heights@, clip, i as int).top,
            start == draw_segments(views, heights@, clip, i as int).start,
            start < i ==> group_trim == trims(views[start as int]),
        decreases segments@.len() - i,
    {
        assert(views[i as int] == segments@[i as int]@);
        match &segments[i] {
            BlockSegment::Line(line) => {
                if start < i && group_trim != line.trim {
                    top =
                    flush_lines(
                        &heights,
                        start,
                        i,
                        group_trim,
                        top,
                        clip,
                        &mut items,
                        Ghost(views),
                    );
                    start = i;
                }
                if start == i {
                    group_trim = line.trim;
                }
            },
            BlockSegment::Image(_) => {
                top =
                flush_lines(
                    &heights,
                    start,
                    i,
                    group_trim,
                    top,
                    clip,
                    &mut items,
                    Ghost(views),
                );
                if let Some(item) = render_image_segment_view(i, top, clip) {
                    items.push(item);
                }
                top = top.saturating_add(IMAGE_PREVIEW_HEIGHT as u32);
                start = i + 1;
            },
        }
        i = i + 1;
    }
    flush_lines(&heights, start, i, group_trim, top, clip, &mut items, Ghost(views));
    items
}

/// Draws a group of lines and gives the row after it.
fn flush_lines(
    heights: &Vec<u32>,
    start: usize,
    end: usize,
    trim: bool,
    top: u32,
    clip: DrawClip,
    items: &mut Vec<DrawItem>,
    Ghost(segments): Ghost<Seq<SegmentView>>,
) -> (row: u32)
    requires
        start <= end <= heights@.len(),
        start < end ==> trim == trims(segments[start as int]),
    ensures
        ({
            let flushed = flush_group(
                DrawState { items: old(items)@, top, start: start as int },
                segments,
                heights@,
                end as int,
                clip,
            );
            final(items)@ == flushed.items && row == flushed.top
        }),
{
    let width: u16 = clip.target.width.saturating_sub(2);
    if start >= end || width == 0 {
        return top;
    }
    if let Some(item) = render_line_group_view(heights, start, end, trim, top, clip) {
        items.push(item);
    }
    group_top(heights, start, top, end)
}

/// Whether something that is drawn stays within a target, and is taken from rows that there are.
pub open spec fn stays_within(item: DrawItem, target: Rect) -> bool {
    match item {
        DrawItem::Text(text) => {
            &&& text.start < text.end
            &&& 0 < text.rows
            &&& text.from_row + text.rows <= text.slice_height
            &&& target.x <= text.x && text.x + text.width <= target.x + target.width
            &&& target.y <= text.y && text.y + text.rows <= target.y + target.height
        },
        DrawItem::Image(image) => {
            let area = image.area;
            &&& !area.empty()
            &&& image.hidden_rows + area.height <= image.size.height
            &&& target.x <= area.x && area.x + area.width <= target.x + target.width
            &&& target.y <= area.y && area.y + area.height <= target.y + target.height
        },
    }
}

proof fn lemma_group_stays_within(
    heights: Seq<u32>,
    start: int,
    end: int,
    trim: bool,
    top: u32,
    clip: DrawClip,
)
    requires
        0 <= start < end <= heights.len() <= usize::MAX,
        clip.target.x + clip.target.width <= u16::MAX,
        clip.target.y + clip.target.height <= u16::MAX,
    ensures
        group_drawing(heights, start, end, trim, top, clip) matches Some(item) ==> stays_within(
            item,
            clip.target,
        ),
{
    if let Some((visible_top, visible_bottom)) = overlap(
        top,
        line_top(heights, start, top, end),
        clip.source_start,
        clip.source_end(),
    ) {
        let first = first_shown(heights, start, top, end, visible_top, start);
        lemma_first_shown_range(heights, start, top, end, visible_top, start);
        lemma_first_below_range(heights, start, top, end, visible_bottom, first);
    }
}

proof fn lemma_first_shown_range(
    heights: Seq<u32>,
    start: int,
    top: u32,
    end: int,
    visible_top: u32,
    j: int,
)
    requires
        j <= end,
    ensures
        j <= first_shown(heights, start, top, end, visible_top, j) <= end,
    decreases end - j,
{
    if !(j >= end || line_top(heights, start, top, j + 1) > visible_top) {
        lemma_first_shown_range(heights, start, top, end, visible_top, j + 1);
    }
}

proof fn lemma_first_below_range(
    heights: Seq<u32>,
    start: int,
    top: u32,
    end: int,
    visible_bottom: u32,
    j: int,
)
    requires
        j <= end,
    ensures
        j <= first_below(heights, start, top, end, visible_bottom, j) <= end,
        first_below(heights, start, top, end, visible_bottom, j) == j ==> j >= end || line_top(
            heights,
            start,
            top,
            j,
        ) >= visible_bottom,
    decreases end - j,
{
    if !(j >= end || line_top(heights, start, top, j) >= visible_bottom) {
        lemma_first_below_range(heights, start, top, end, visible_bottom, j + 1);
    }
}

/// Whether all that is drawn stays within a target.
#[verifier::opaque]
pub open spec fn all_stay_within(items: Seq<DrawItem>, target: Rect) -> bool {
    forall|i: int| 0 <= i < items.len() ==> stays_within(#[trigger] items[i], target)
}

proof fn lemma_one_more_stays_within(items: Seq<DrawItem>, item: DrawItem, target: Rect)
    requires
        all_stay_within(items, target),
        stays_within(item, target),
    ensures
        all_stay_within(items.push(item), target),
{
    reveal(all_stay_within);
}

proof fn lemma_image_stays_within(segment: int, top: u32, clip: DrawClip)
    requires
        clip.target.x + clip.target.width <= u16::MAX,
        clip.target.y + clip.target.height <= u16::MAX,
    ensures
        image_drawing(segment, top, clip) matches Some(item) ==> stays_within(item, clip.target),
{
}

proof fn lemma_flush_stays_within(
    before: DrawState,
    segments: Seq<SegmentView>,
    heights: Seq<u32>,
    end: int,
    clip: DrawClip,
)
    requires
        0 <= before.start <= end <= segments.len() == heights.len() <= usize::MAX,
        clip.target.x + clip.target.width <= u16::MAX,
        clip.target.y + clip.target.height <= u16::MAX,
        all_stay_within(before.items, clip.target),
    ensures
        all_stay_within(flush_group(before, segments, heights, end, clip).items, clip.target),
{
    if before.start < end {
        let trim = trims(segments[before.start]);
        lemma_group_stays_within(heights, before.start, end, trim, before.top, clip);
        if let Some(item) = group_drawing(heights, before.start, end, trim, before.top, clip) {
            lemma_one_more_stays_within(before.items, item, clip.target);
        }
    }
}

proof fn lemma_segments_stay_within(
    segments: Seq<SegmentView>,
    heights: Seq<u32>,
    clip: DrawClip,
    k: int,
)
    requires
        0 <= k <= segments.len() == heights.len() <= usize::MAX,
        clip.target.x + clip.target.width <= u16::MAX,
        clip.target.y + clip.target.height <= u16::MAX,
    ensures
        0 <= draw_segments(segments, heights, clip, k).start <= k,
        all_stay_within(draw_segments(segments, heights, clip, k).items, clip.target),
    decreases k,
{
    if k <= 0 {
        reveal(all_stay_within);
    } else {
        lemma_segments_stay_within(segments, heights, clip, k - 1);
        let before = draw_segments(segments, heights, clip, k - 1);
        lemma_flush_stays_within(before, segments, heights, k - 1, clip);
        if segments[k - 1] is Image {
            let flushed = flush_group(before, segments, heights, k - 1, clip);
            lemma_image_stays_within(k - 1, flushed.top, clip);
            if let Some(item) = image_drawing(k - 1, flushed.top, clip) {
                lemma_one_more_stays_within(flushed.items, item, clip.target);
            }
        }
    }
}

/// What is drawn of a block stays within the part of the screen that is the block's.
pub proof fn law_drawing_stays_within(
    segments: Seq<SegmentView>,
    height: u32,
    source_y: u32,
    target: Rect,
    i: int,
)
    requires
        segments.len() <= usize::MAX,
        target.x + target.width <= u16::MAX,
        target.y + target.height <= u16::MAX,
        0 <= i < block_drawing(segments, height, source_y, target).len(),
    ensures
        stays_within(block_drawing(segments, height, source_y, target)[i], target),
{
    let clip = DrawClip { target, source_start: source_y, height };
    let heights = segment_heights_spec(clip.width(), segments);
    let n = segments.len() as int;
    lemma_segments_stay_within(segments, heights, clip, n);
    lemma_flush_stays_within(
        draw_segments(segments, heights, clip, n),
        segments,
        heights,
        n,
        clip,
    );
    reveal(all_stay_within);
}

/// The drawing of one block.
#[derive(Debug)]
pub struct BlockDrawing {
    pub block: usize,
    pub target: Rect,
    pub items: Vec<DrawItem>,
}

/// The conversation made ready to be shown in a certain width.
#[derive(Debug)]
pub struct ConversationLayout {
    revision: u64,
    width: u16,
    blocks: Vec<PreparedBlock>,
    prefix_heights: Vec<u32>,
}

/// A block as it is shown in a certain width.
pub open spec fn prepared(block: state::BlockView, width: u16) -> PreparedView {
    let segments = blocks::block_segments(block);
    PreparedView {
        segments,
        style: blocks::container_style(block.kind),
        height: block_height_spec(width, segments),
    }
}

impl ConversationLayout {
    pub closed spec fn spec_revision(&self) -> u64 {
        self.revision
    }

    pub closed spec fn spec_width(&self) -> u16 {
        self.width
    }

    pub closed spec fn spec_blocks(&self) -> Seq<PreparedView> {
        prepared_views(self.blocks@)
    }

    pub open spec fn spec_heights(&self) -> Seq<u32> {
        block_heights(self.spec_blocks())
    }

    /// The rows of all blocks together.
    pub open spec fn spec_total_height(&self) -> u32 {
        scroll_view::prefix_height(self.spec_heights(), self.spec_heights().len() as int)
    }

    /// The row at which each block starts is kept beside the blocks.
    #[verifier::type_invariant]
    closed spec fn inv(&self) -> bool {
        self.prefix_heights@ == scroll_view::spec_prefix_heights(
            block_heights(prepared_views(self.blocks@)),
        )
    }

    pub fn prepare(state: &AppState, width: u16, highlighter: &CodeHighlighter) -> (layout: Self)
        requires
            state@.blocks.len() < usize::MAX,
            width <= MAX_VIEW_WIDTH,
        ensures
            layout.spec_revision() == state@.revision,
            layout.spec_width() == width,
            layout.spec_blocks() == Seq::new(
                state@.blocks.len(),
                |i: int| prepared(state@.blocks[i], width),
            ),
    {
        let ghost expected = Seq::new(
            state@.blocks.len(),
            |i: int| prepared(state@.blocks[i], width),
        );
        let source = state.blocks();
        let mut prepared_blocks: Vec<PreparedBlock> = Vec::new();
        let mut prefix_heights: Vec<u32> = Vec::new();
        prefix_heights.push(0);
        let mut total: u32 = 0;
        let mut i: usize = 0;
        assert(prefix_heights@ =~= scroll_view::spec_prefix_heights(
            block_heights(prepared_views(prepared_blocks@)),
        ));
        while i < source.len()
            invariant
                i <= source@.len(),
                width <= MAX_VIEW_WIDTH,
                state::block_views(source@) == state@.blocks,
                source@.len() < usize::MAX,
                expected == Seq::new(
                    state@.blocks.len(),
                    |i: int| prepared(state@.blocks[i], width),
                ),
                prepared_blocks@.len() == i,
                forall|j: int| 0 <= j < i ==> (#[trigger] prepared_blocks@[j])@ == expected[j],
                total == scroll_view::prefix_height(
                    block_heights(prepared_views(prepared_blocks@)),
                    i as int,
                ),
                prefix_heights@ == scroll_view::spec_prefix_heights(
                    block_heights(prepared_views(prepared_blocks@)),
                ),
            decreases source@.len() - i,
        {
            let ghost before = block_heights(prepared_views(prepared_blocks@));
            assert(state@.blocks[i as int] == source@[i as int]@);
            let segments = render_block_segments(&source[i], highlighter);
            let container = block_container_style(&source[i]);
            let height: u32 = block_height(width, &segments);
            prepared_blocks.push(PreparedBlock { segments, style: container, height });
            let ghost after = block_heights(prepared_views(prepared_blocks@));
            assert(after =~= before.push(height));
            proof {
                assert forall|k: int| 0 <= k <= i implies scroll_view::prefix_height(after, k)
                    == scroll_view::prefix_height(before, k) by {
                    scroll_view::lemma_prefix_height_push(before, height, k);
                }
            }
            total = total.saturating_add(height);
            prefix_heights.push(total);
            i = i + 1;
            assert(prefix_heights@ =~= scroll_view::spec_prefix_heights(after));
        }
        let layout = ConversationLayout {
            revision: state.revision(),
            width,
            blocks: prepared_blocks,
            prefix_heights,
        };
        assert(layout.spec_blocks() =~= expected);
        layout
    }

    /// Whether the layout still shows a conversation: that has not changed, and neither has the
    /// width.
    pub fn is_current(&self, state: &AppState, width: u16) -> (current: bool)
        ensures
            current == (self.spec_revision() == state@.revision && self.spec_width() == width),
    {
        self.revision == state.revision() && self.width == width
    }

    pub fn blocks(&self) -> (blocks: &[PreparedBlock])
        ensures
            prepared_views(blocks@) == self.spec_blocks(),
    {
        self.blocks.as_slice()
    }

    pub fn total_height(&self) -> (height: u32)
        ensures
            height == self.spec_total_height(),
    {
        proof {
            use_type_invariant(self);
        }
        self.prefix_heights[self.prefix_heights.len() - 1]
    }

    pub fn viewport(&self, area: Rect, scroll_from_bottom: u32) -> (viewport: VirtualViewport)
        ensures
            viewport.shows(area, self.spec_total_height(), scroll_from_bottom),
    {
        VirtualViewport::new(area, self.total_height(), scroll_from_bottom)
    }

    /// The first row of the conversation that a scrolled area shows.
    pub open spec fn first_row(&self, area: Rect, scroll_from_bottom: u32) -> u32 {
        let max_scroll = scroll_view::max_scroll(self.spec_total_height(), area.height);
        (max_scroll - scroll_view::min_u32(scroll_from_bottom, max_scroll)) as u32
    }

    /// Whether a map holds the rows that are on screen in a scrolled area.
    pub open spec fn maps_to(&self, map: &SelectionMap, area: Rect, scroll_from_bottom: u32) -> bool {
        &&& map.spec_area() == area
        &&& map.spec_viewport_start() == self.first_row(area, scroll_from_bottom)
        &&& map.spec_total_height() == self.spec_total_height()
        &&& map.spec_lines() == if area.empty() {
            Seq::<RowView>::empty()
        } else {
            let start = self.first_row(area, scroll_from_bottom);
            conversation_rows(
                self.spec_blocks(),
                RowClip::over(area, start, start, start.saturating_add(area.height as u32)),
                self.spec_blocks().len() as int,
            )
        }
    }

    /// The rows that are on screen, as selectable rows.
    pub fn selection_map(&self, area: Rect, scroll_from_bottom: u32) -> (map: SelectionMap)
        requires
            area.width <= MAX_VIEW_WIDTH,
        ensures
            self.maps_to(&map, area, scroll_from_bottom),
    {
        proof {
            use_type_invariant(self);
        }
        let viewport = self.viewport(area, scroll_from_bottom);
        let source_start: u32 = viewport.source_start();
        let mut map = SelectionMap::new(area, source_start, viewport.total_height());
        if area.is_empty() {
            return map;
        }
        let clip = RowClip {
            area,
            viewport_start: source_start,
            target_x: area.x.saturating_add(1),
            width: area.width.saturating_sub(2),
            source_start,
            source_end: source_start.saturating_add(area.height as u32),
        };
        collect_rows(&self.blocks, &self.prefix_heights, clip, &mut map);
        map
    }

    /// The rows that a selection touches, on screen or not.
    pub open spec fn rows_to_copy(&self, area: Rect, selection: Selection) -> Seq<RowView> {
        if area.empty() {
            Seq::empty()
        } else {
            conversation_rows(
                self.spec_blocks(),
                RowClip::over(
                    area,
                    u32::MAX,
                    selection.start().y,
                    selection.end().y.saturating_add(1),
                ),
                self.spec_blocks().len() as int,
            )
        }
    }

    /// The text that a selection copies, whether its rows are on screen or not.
    pub fn copy_selection(&self, area: Rect, selection: Selection) -> (text: String)
        requires
            area.width <= MAX_VIEW_WIDTH,
        ensures
            text@ == selection::selection_text(self.rows_to_copy(area, selection), selection),
    {
        proof {
            use_type_invariant(self);
        }
        let (start, end) = selection.normalized();
        let mut map = SelectionMap::new(area, u32::MAX, self.total_height());
        if !area.is_empty() {
            let clip = RowClip {
                area,
                viewport_start: u32::MAX,
                target_x: area.x.saturating_add(1),
                width: area.width.saturating_sub(2),
                source_start: start.y,
                source_end: end.y.saturating_add(1),
            };
            collect_rows(&self.blocks, &self.prefix_heights, clip, &mut map);
        }
        map.copy_selection(selection)
    }

    /// Whether `drawings` show the items that a viewport makes visible.
    pub open spec fn draws(
        &self,
        drawings: Seq<BlockDrawing>,
        visible: Seq<scroll_view::VisibleItem>,
    ) -> bool {
        &&& drawings.len() == visible.len()
        &&& forall|i: int|
            0 <= i < drawings.len() ==> {
                let drawing = #[trigger] drawings[i];
                let item = visible[i];
                let block = self.spec_blocks()[item.index as int];
                &&& drawing.block == item.index
                &&& drawing.target == item.target
                &&& drawing.items@ == block_drawing(
                    block.segments,
                    block.height,
                    item.visible_top,
                    item.target,
                )
            }
    }

    /// Whether `drawings` are what a scrolled area shows of the conversation, from the top.
    pub open spec fn is_drawn_as(
        &self,
        drawings: Seq<BlockDrawing>,
        area: Rect,
        scroll_from_bottom: u32,
    ) -> bool {
        exists|viewport: VirtualViewport|
            {
                &&& #[trigger] viewport.shows(area, self.spec_total_height(), scroll_from_bottom)
                &&& self.draws(
                    drawings,
                    viewport.visible_items(scroll_view::spec_prefix_heights(self.spec_heights())),
                )
            }
    }

    /// What to draw of the conversation into a scrolled area, from the top.
    pub fn render(&self, area: Rect, scroll_from_bottom: u32) -> (drawings: Vec<BlockDrawing>)
        requires
            area.width <= MAX_VIEW_WIDTH,
        ensures
            self.is_drawn_as(drawings@, area, scroll_from_bottom),
    {
        proof {
            use_type_invariant(self);
            scroll_view::law_prefix_heights_sorted(self.spec_heights());
        }
        let ghost prefix = scroll_view::spec_prefix_heights(self.spec_heights());
        let count: usize = self.prefix_heights.len();
        assert(count == prefix.len());
        let content = VirtualContent::from_prefix_heights(
            self.blocks.as_slice(),
            self.prefix_heights.as_slice(),
        );
        assert(content.spec_total_height() == self.spec_total_height());
        let mut scroll_state = ScrollViewState::from_bottom(scroll_from_bottom);
        let visible = VirtualScrollView::new(content, ()).render(area, &mut scroll_state);
        let ghost viewport = choose|viewport: VirtualViewport|
            {
                &&& #[trigger] viewport.shows(area, self.spec_total_height(), scroll_from_bottom)
                &&& visible@ == viewport.visible_items(prefix)
            };
        proof {
            assert(prefix.last() == self.spec_total_height());
            viewport.lemma_visible_in_range(prefix, prefix.len() - 1);
        }
        let mut drawings: Vec<BlockDrawing> = Vec::new();
        let mut i: usize = 0;
        while i < visible.len()
            invariant
                i <= visible@.len(),
                forall|j: int|
                    0 <= j < visible@.len() ==> (#[trigger] visible@[j]).index
                        < self.blocks@.len() && visible@[j].target.width <= MAX_VIEW_WIDTH,
                drawings@.len() == i,
                forall|j: int|
                    0 <= j < i ==> {
                        let drawing = #[trigger] drawings@[j];
                        let item = visible@[j];
                        let block = self.spec_blocks()[item.index as int];
                        &&& drawing.block == item.index
                        &&& drawing.target == item.target
                        &&& drawing.items@ == block_drawing(
                            block.segments,
                            block.height,
                            item.visible_top,
                            item.target,
                        )
                    },
            decreases visible@.len() - i,
        {
            let item = visible[i];
            assert(visible@[i as int].index < self.blocks@.len());
            let block = &self.blocks[item.index];
            assert(self.spec_blocks()[item.index as int] == block@);
            let items = render_block_view(
                &block.segments,
                block.height,
                item.visible_top,
                item.target,
            );
            drawings.push(BlockDrawing { block: item.index, target: item.target, items });
            i = i + 1;
        }
        drawings
    }
}

/// A layout together with how far it is scrolled and what is selected in it.
#[derive(Debug)]
pub struct ConversationView<'a> {
    pub layout: &'a ConversationLayout,
    pub scroll_from_bottom: u32,
    pub selection: Option<Selection>,
}

impl<'a> ConversationView<'a> {
    pub fn new(layout: &'a ConversationLayout) -> (view: Self)
        ensures
            view == (ConversationView { layout, scroll_from_bottom: 0, selection: None }),
    {
        ConversationView { layout, scroll_from_bottom: 0, selection: None }
    }

    pub fn scroll_from_bottom(self, scroll_from_bottom: u32) -> (view: Self)
        ensures
            view == (ConversationView { scroll_from_bottom, ..self }),
    {
        ConversationView { scroll_from_bottom, ..self }
    }

    pub fn selection(self, selection: Option<Selection>) -> (view: Self)
        ensures
            view == (ConversationView { selection, ..self }),
    {
        ConversationView { selection, ..self }
    }

    /// Whether `spans` are the screen cells of the area that are selected.
    pub open spec fn highlights(self, spans: Seq<HighlightSpan>, area: Rect) -> bool {
        match self.selection {
            Some(selection) => exists|map: SelectionMap|
                {
                    &&& self.layout.maps_to(&map, area, self.scroll_from_bottom)
                    &&& spans == #[trigger] selection::highlight_spans(
                        map.spec_visible(),
                        map.spec_visible().len() as int,
                        selection.start(),
                        selection.end(),
                    )
                },
            None => spans.len() == 0,
        }
    }

    /// The screen cells of the area that are selected.
    pub fn highlight(&self, area: Rect) -> (spans: Vec<HighlightSpan>)
        requires
            area.width <= MAX_VIEW_WIDTH,
        ensures
            self.highlights(spans@, area),
    {
        match self.selection {
            Some(selection) => {
                let map = self.layout.selection_map(area, self.scroll_from_bottom);
                map.selection_highlight(selection)
            },
            None => Vec::new(),
        }
    }
}

proof fn lemma_last_content(row: Seq<Seq<char>>, count: int)
    requires
        0 <= count <= row.len(),
    ensures
        match last_content(row, count) {
            Some(last) => {
                &&& 0 <= last < count
                &&& row[last].len() > 0 && row[last] != seq![' ']
                &&& forall|c: int|
                    last < c < count ==> (#[trigger] row[c]).len() == 0 || row[c] == seq![' ']
            },
            None => forall|c: int|
                0 <= c < count ==> (#[trigger] row[c]).len() == 0 || row[c] == seq![' '],
        },
    decreases count,
{
    if count > 0 && !(row[count - 1].len() > 0 && row[count - 1] != seq![' ']) {
        lemma_last_content(row, count - 1);
    }
}

/// Whether cells are those of the first columns of a row, each at its own column and with its own
/// symbol.
pub open spec fn cells_of_row(cells: Seq<CellView>, row: Seq<Seq<char>>, count: int) -> bool {
    &&& forall|i: int|
        0 <= i < cells.len() ==> {
            let cell = #[trigger] cells[i];
            &&& 0 <= cell.column < count
            &&& cell.text == row[cell.column as int]
            &&& cell.width == symbol_width_spec(cell.text)
            &&& cell.width > 0
        }
    &&& forall|i: int, j: int|
        0 <= i < j < cells.len() ==> (#[trigger] cells[i]).column < (#[trigger] cells[j]).column
}

/// Whether a column is shown by a cell: by its own, or by a wide one before it.
pub open spec fn column_is_shown(cells: Seq<CellView>, column: int) -> bool {
    exists|i: int|
        0 <= i < cells.len() && (#[trigger] cells[i]).column <= column && (cells[i].column == column
            || column < cells[i].column + cells[i].width)
}

proof fn lemma_scan_cells(row: Seq<Seq<char>>, text_width: u16, count: int, column: int)
    requires
        0 <= count <= row.len() <= u16::MAX,
    ensures
        cells_of_row(scan_cells(row, text_width, count).cells, row, count),
        0 <= column < count && symbol_width_spec(row[column]) > 0 ==> column_is_shown(
            scan_cells(row, text_width, count).cells,
            column,
        ),
        ({
            let scan = scan_cells(row, text_width, count);
            &&& scan.cells.len() == 0 ==> scan.covered_until == 0
            &&& scan.cells.len() > 0 ==> scan.covered_until
                == scan.cells.last().column.saturating_add(scan.cells.last().width)
        }),
    decreases count,
{
    if count > 0 {
        lemma_scan_cells(row, text_width, count - 1, column);
        let before = scan_cells(row, text_width, count - 1);
        let scan = scan_cells(row, text_width, count);
        if 0 <= column < count && symbol_width_spec(row[column]) > 0 {
            if column < count - 1 {
                let i = choose|i: int|
                    0 <= i < before.cells.len() && (#[trigger] before.cells[i]).column <= column && (
                    before.cells[i].column == column || column < before.cells[i].column
                        + before.cells[i].width);
                assert(scan.cells[i] == before.cells[i]);
            } else if scan.cells.len() > before.cells.len() {
                assert(scan.cells[scan.cells.len() - 1].column == column);
            } else {
                assert(before.cells.len() > 0);
                assert(before.cells[before.cells.len() - 1].column <= column);
            }
        }
    }
}

/// A row of the screen can be selected from its first column up to the last that shows something: each
/// symbol is a cell at its column, wide ones cover the columns behind them, and what comes behind is
/// left out.
pub proof fn law_rows_end_with_their_last_symbol(row: Seq<Seq<char>>, last: int, column: int)
    requires
        row.len() <= u16::MAX,
        0 <= last < row.len(),
        row[last].len() > 0,
        row[last] != seq![' '],
        forall|c: int|
            last < c < row.len() ==> (#[trigger] row[c]).len() == 0 || row[c] == seq![' '],
    ensures
        cells_of_row(row_of_symbols(row).cells, row, last + 1),
        0 <= column <= last && symbol_width_spec(row[column]) > 0 ==> column_is_shown(
            row_of_symbols(row).cells,
            column,
        ),
{
    lemma_last_content(row, row.len() as int);
    lemma_scan_cells(row, (last as u16).saturating_add(1), last + 1, column);
}

/// A row that shows nothing has no text and no cells.
pub proof fn law_blank_rows_have_no_text(row: Seq<Seq<char>>)
    requires
        forall|c: int| 0 <= c < row.len() ==> (#[trigger] row[c]).len() == 0 || row[c] == seq![' '],
    ensures
        row_of_symbols(row).text.len() == 0,
        row_of_symbols(row).cells.len() == 0,
        row_of_symbols(row).text_width == 0,
{
    lemma_last_content(row, row.len() as int);
}

proof fn lemma_scan_narrow(row: Seq<Seq<char>>, text_width: u16, count: int)
    requires
        0 <= count <= row.len() <= u16::MAX,
        count <= text_width,
        forall|c: int| 0 <= c < count ==> symbol_width_spec(#[trigger] row[c]) == 1,
    ensures
        ({
            let scan = scan_cells(row, text_width, count);
            &&& scan.cells.len() == count
            &&& scan.text_width == text_width
            &&& forall|c: int|
                0 <= c < count ==> (#[trigger] scan.cells[c]).column == c && scan.cells[c].text
                    == row[c] && scan.cells[c].width == 1
            &&& scan.covered_until == count
        }),
    decreases count,
{
    if count > 0 {
        lemma_scan_narrow(row, text_width, count - 1);
    }
}

/// Symbols one after the other.
pub open spec fn run_together(symbols: Seq<Seq<char>>) -> Seq<char>
    decreases symbols.len(),
{
    if symbols.len() == 0 {
        Seq::empty()
    } else {
        run_together(symbols.drop_last()) + symbols.last()
    }
}

proof fn lemma_plain_is_run_together(cells: Seq<CellView>, symbols: Seq<Seq<char>>, count: int)
    requires
        0 <= count <= cells.len(),
        count <= symbols.len(),
        forall|i: int| 0 <= i < count ==> (#[trigger] cells[i]).text == symbols[i],
    ensures
        cells_plain(cells, count) == run_together(symbols.take(count)),
    decreases count,
{
    if count > 0 {
        lemma_plain_is_run_together(cells, symbols, count - 1);
        assert(symbols.take(count).drop_last() =~= symbols.take(count - 1));
        assert(cells[count - 1].text == symbols[count - 1]);
    } else {
        assert(run_together(symbols.take(0)) =~= Seq::<char>::empty());
    }
}

/// The text of a row of narrow symbols is these symbols one after the other, up to the last that shows
/// something, and takes a column for each.
pub proof fn law_narrow_rows_read_as_their_symbols(row: Seq<Seq<char>>, last: int)
    requires
        row.len() < u16::MAX,
        0 <= last < row.len(),
        row[last].len() > 0,
        row[last] != seq![' '],
        forall|c: int|
            last < c < row.len() ==> (#[trigger] row[c]).len() == 0 || row[c] == seq![' '],
        forall|c: int| 0 <= c <= last ==> symbol_width_spec(#[trigger] row[c]) == 1,
    ensures
        row_of_symbols(row).text == run_together(row.take(last + 1)),
        row_of_symbols(row).text_width == last + 1,
{
    lemma_last_content(row, row.len() as int);
    let width = (last as u16).saturating_add(1);
    lemma_scan_narrow(row, width, last + 1);
    let cells = scan_cells(row, width, last + 1).cells;
    lemma_plain_is_run_together(cells, row, last + 1);
}

proof fn lemma_find_from(text: Seq<char>, pattern: Seq<char>, from: int, at: int)
    requires
        0 <= from <= at,
        at + pattern.len() <= text.len(),
        pattern.len() > 0,
        chars::occurs_at(text, pattern, at),
        forall|i: int| from <= i < at ==> !(#[trigger] chars::occurs_at(text, pattern, i)),
    ensures
        find_from(text, pattern, from) == Some(at),
    decreases at - from,
{
    if from < at {
        assert(!chars::occurs_at(text, pattern, from));
        lemma_find_from(text, pattern, from + 1, at);
    }
}

/// The text that rows make, each with what stands behind it.
pub open spec fn rows_with_gaps(rows: Seq<Seq<char>>, gaps: Seq<Seq<char>>, count: int) -> Seq<char>
    decreases count,
{
    if count <= 0 {
        Seq::empty()
    } else {
        rows_with_gaps(rows, gaps, count - 1) + rows[count - 1] + gaps[count - 1]
    }
}

proof fn lemma_rows_with_gaps_start(
    rows: Seq<Seq<char>>,
    gaps: Seq<Seq<char>>,
    count: int,
    total: int,
)
    requires
        0 <= count <= total,
    ensures
        rows_with_gaps(rows, gaps, count).len() <= rows_with_gaps(rows, gaps, total).len(),
        rows_with_gaps(rows, gaps, total).subrange(
            0,
            rows_with_gaps(rows, gaps, count).len() as int,
        ) == rows_with_gaps(rows, gaps, count),
    decreases total - count,
{
    let start = rows_with_gaps(rows, gaps, count);
    let all = rows_with_gaps(rows, gaps, total);
    if count < total {
        lemma_rows_with_gaps_start(rows, gaps, count, total - 1);
        let most = rows_with_gaps(rows, gaps, total - 1);
        assert(all.subrange(0, start.len() as int) =~= most.subrange(0, start.len() as int));
    } else {
        assert(all.subrange(0, start.len() as int) =~= start);
    }
}

proof fn lemma_row_is_found(rows: Seq<Seq<char>>, gaps: Seq<Seq<char>>, index: int)
    requires
        rows.len() == gaps.len(),
        0 <= index < rows.len(),
        forall|i: int| 0 <= i < rows.len() ==> (#[trigger] rows[i]).len() > 0 && rows[i][0] != ' ',
        forall|i: int, j: int|
            0 <= i < gaps.len() && 0 <= j < gaps[i].len() ==> #[trigger] gaps[i][j] == ' ',
    ensures
        ({
            let text = rows_with_gaps(rows, gaps, rows.len() as int);
            let start = rows_with_gaps(rows, gaps, index).len() as int;
            &&& row_range(text, rows, index) == Some((start, (start + rows[index].len()) as int))
            &&& start + rows[index].len() + gaps[index].len() <= text.len()
            &&& text.subrange(
                start + rows[index].len(),
                start + rows[index].len() + gaps[index].len(),
            ) == gaps[index]
        }),
    decreases index,
{
    let n = rows.len() as int;
    let text = rows_with_gaps(rows, gaps, n);
    let before = rows_with_gaps(rows, gaps, index);
    let start = before.len() as int;
    let row = rows[index];
    lemma_rows_with_gaps_start(rows, gaps, index + 1, n);
    let upto = rows_with_gaps(rows, gaps, index + 1);
    assert forall|k: int| 0 <= k < upto.len() implies text[k] == upto[k] by {
        assert(text.subrange(0, upto.len() as int)[k] == upto[k]);
    }
    assert(text.subrange(start, start + row.len()) =~= row);
    assert(chars::occurs_at(text, row, start));
    assert(text.subrange(
        start + row.len(),
        start + row.len() + gaps[index].len(),
    ) =~= gaps[index]);
    let from = search_start(text, rows, index);
    if index == 0 {
        assert(from == 0 && start == 0);
    } else {
        lemma_row_is_found(rows, gaps, index - 1);
        let gap = gaps[index - 1];
        assert(from == start - gap.len());
        assert forall|i: int| from <= i < start implies !(#[trigger] chars::occurs_at(
            text,
            row,
            i,
        )) by {
            assert(text[i] == before[i]);
            assert(before[i] == gap[i - from]);
            assert(gaps[index - 1][i - from] == ' ');
            if chars::occurs_at(text, row, i) {
                assert(text.subrange(i, i + row.len())[0] == row[0]);
            }
        }
    }
    lemma_find_from(text, row, from, start);
}

/// The rows that a line is wrapped into are copied as the line: between two of them stands what the
/// line has there, and a line break comes behind the last only.
pub proof fn law_wrapped_rows_are_copied_as_one_line(
    rows: Seq<Seq<char>>,
    gaps: Seq<Seq<char>>,
    index: int,
)
    requires
        rows.len() == gaps.len(),
        0 <= index < rows.len(),
        forall|i: int| 0 <= i < rows.len() ==> (#[trigger] rows[i]).len() > 0 && rows[i][0] != ' ',
        forall|i: int, j: int|
            0 <= i < gaps.len() && 0 <= j < gaps[i].len() ==> #[trigger] gaps[i][j] == ' ',
    ensures
        ({
            let separator = separator_after(
                rows_with_gaps(rows, gaps, rows.len() as int),
                rows,
                index,
            );
            &&& index + 1 == rows.len() ==> separator is HardLine
            &&& index + 1 < rows.len() && gaps[index].len() == 0 ==> separator is Empty
            &&& index + 1 < rows.len() && gaps[index].len() > 0 ==> separator
                == SeparatorView::SoftWrap(gaps[index])
        }),
{
    lemma_row_is_found(rows, gaps, index);
    if index + 1 < rows.len() {
        lemma_row_is_found(rows, gaps, index + 1);
        let text = rows_with_gaps(rows, gaps, rows.len() as int);
        let start = rows_with_gaps(rows, gaps, index).len() as int;
        let end = start + rows[index].len();
        let next = rows_with_gaps(rows, gaps, index + 1).len() as int;
        assert(next == end + gaps[index].len());
    }
}

/// A part of a block adds its rows to the rows of the block, which has one more above and below for
/// its padding; an image has fourteen rows.
pub proof fn law_block_is_as_high_as_its_parts(
    width: u16,
    segments: Seq<SegmentView>,
    segment: SegmentView,
)
    requires
        width > 2,
        block_height_spec(width, segments) + segment_height((width - 2) as u16, segment)
            <= u32::MAX,
    ensures
        block_height_spec(width, Seq::empty()) == 2,
        block_height_spec(width, segments.push(segment)) == block_height_spec(width, segments)
            + segment_height((width - 2) as u16, segment),
        segment is Image ==> segment_height(width, segment) == 14,
{
    let inner = (width - 2) as u16;
    let heights = segment_heights_spec(inner, segments);
    let more = segment_heights_spec(inner, segments.push(segment));
    lemma_prefix_height_same(heights, more, segments.len() as int);
    assert(more[segments.len() as int] == segment_height(inner, segment));
}

proof fn lemma_prefix_height_same(a: Seq<u32>, b: Seq<u32>, count: int)
    requires
        0 <= count <= a.len(),
        count <= b.len(),
        forall|i: int| 0 <= i < count ==> #[trigger] a[i] == b[i],
    ensures
        scroll_view::prefix_height(a, count) == scroll_view::prefix_height(b, count),
    decreases count,
{
    if count > 0 {
        lemma_prefix_height_same(a, b, count - 1);
        assert(a[count - 1] == b[count - 1]);
    }
}

/// What two ranges of rows have in common are the rows that are in both.
pub proof fn law_overlap_holds_the_common_rows(
    top: u32,
    bottom: u32,
    source_start: u32,
    source_end: u32,
    row: u32,
)
    ensures
        ({
            let shared = overlap(top, bottom, source_start, source_end);
            (shared is Some && shared->Some_0.0 <= row < shared->Some_0.1) <==> (top <= row < bottom
                && source_start <= row < source_end)
        }),
{
}

/// A row of the conversation lies on the screen just where the window shows it.
pub proof fn law_rows_lie_where_the_window_shows_them(
    area: Rect,
    viewport_start: u32,
    source_start: u32,
    source_end: u32,
    y: u32,
)
    requires
        area.y + area.height <= u16::MAX,
        viewport_start + area.height <= u32::MAX,
    ensures
        ({
            let clip = RowClip::over(area, viewport_start, source_start, source_end);
            &&& clip.screen_y(y) is Some <==> viewport_start <= y < viewport_start + area.height
            &&& clip.screen_y(y) matches Some(screen) ==> screen - area.y == y - viewport_start
            &&& clip.contains(y) <==> source_start <= y < source_end
            &&& area.width >= 2 && area.x < u16::MAX ==> clip.target_x == area.x + 1 && clip.width
                == area.width - 2
        }),
{
}

proof fn lemma_line_rows_kept(
    lines: Seq<RowView>,
    rows: Seq<RenderedView>,
    block_top: u32,
    top: u32,
    clip: RowClip,
    count: int,
    i: int,
)
    requires
        block_top + top + count <= u32::MAX,
    ensures
        lines.is_prefix_of(with_line_rows(lines, rows, block_top, top, clip, count)),
        0 <= i < count && clip.contains((block_top + top + i) as u32) ==> with_line_rows(
            lines,
            rows,
            block_top,
            top,
            clip,
            count,
        ).contains(text_row(rows[i], (block_top + top + i) as u32, clip)),
        forall|k: int|
            lines.len() <= k < with_line_rows(lines, rows, block_top, top, clip, count).len()
                ==> clip.contains(
                (#[trigger] with_line_rows(lines, rows, block_top, top, clip, count)[k]).y,
            ),
    decreases count,
{
    let all = with_line_rows(lines, rows, block_top, top, clip, count);
    if count > 0 {
        lemma_line_rows_kept(lines, rows, block_top, top, clip, count - 1, i);
        let before = with_line_rows(lines, rows, block_top, top, clip, count - 1);
        assert(lines =~= all.subrange(0, lines.len() as int)) by {
            assert(lines =~= before.subrange(0, lines.len() as int));
        }
        if 0 <= i < count && clip.contains((block_top + top + i) as u32) {
            let wanted = text_row(rows[i], (block_top + top + i) as u32, clip);
            if i < count - 1 {
                let k = choose|k: int| 0 <= k < before.len() && before[k] == wanted;
                assert(all[k] == wanted);
            } else {
                assert(all[all.len() - 1] == wanted);
            }
        }
    } else {
        assert(lines =~= all.subrange(0, lines.len() as int));
    }
}

/// The rows of a line can be selected as far as they are looked at: each such row is there with its
/// text, its cells and what copying puts behind it, at its place, and no row that is not looked at.
pub proof fn law_rows_of_lines_can_be_selected(
    lines: Seq<RowView>,
    rows: Seq<RenderedView>,
    block_top: u32,
    top: u32,
    clip: RowClip,
    i: int,
)
    requires
        block_top + top + rows.len() <= u32::MAX,
        0 <= i < rows.len(),
    ensures
        ({
            let all = with_line_rows(lines, rows, block_top, top, clip, rows.len() as int);
            let y = (block_top + top + i) as u32;
            &&& lines.is_prefix_of(all)
            &&& clip.source_start <= y < clip.source_end ==> exists|k: int|
                0 <= k < all.len() && {
                    let row = #[trigger] all[k];
                    &&& row.y == y
                    &&& row.text == rows[i].text
                    &&& row.cells == rows[i].cells
                    &&& row.text_width == rows[i].text_width
                    &&& row.separator == rows[i].separator
                    &&& row.x == clip.target_x
                    &&& row.copy_text is None
                }
            &&& forall|k: int|
                lines.len() <= k < all.len() ==> clip.source_start <= (#[trigger] all[k]).y
                    < clip.source_end
        }),
{
    lemma_line_rows_kept(lines, rows, block_top, top, clip, rows.len() as int, i);
    let all = with_line_rows(lines, rows, block_top, top, clip, rows.len() as int);
    let y = (block_top + top + i) as u32;
    if clip.contains(y) {
        let k = choose|k: int| 0 <= k < all.len() && all[k] == text_row(rows[i], y, clip);
        assert(all[k].y == y);
    }
}

proof fn lemma_image_rows_kept(
    lines: Seq<RowView>,
    placeholder: Seq<char>,
    block_top: u32,
    top: u32,
    clip: RowClip,
    count: int,
    i: int,
)
    requires
        block_top + top + count <= u32::MAX,
        lines.len() <= usize::MAX,
    ensures
        lines.is_prefix_of(with_image_rows(lines, placeholder, block_top, top, clip, count)),
        0 <= i < count && clip.contains((block_top + top + i) as u32) ==> with_image_rows(
            lines,
            placeholder,
            block_top,
            top,
            clip,
            count,
        ).contains(image_row(placeholder, (block_top + top + i) as u32, lines.len() as usize, clip)),
        forall|k: int|
            lines.len() <= k < with_image_rows(
                lines,
                placeholder,
                block_top,
                top,
                clip,
                count,
            ).len() ==> {
                let row = #[trigger] with_image_rows(
                    lines,
                    placeholder,
                    block_top,
                    top,
                    clip,
                    count,
                )[k];
                clip.contains(row.y) && row.copy_group == Some(lines.len() as usize)
            },
    decreases count,
{
    let all = with_image_rows(lines, placeholder, block_top, top, clip, count);
    if count > 0 {
        lemma_image_rows_kept(lines, placeholder, block_top, top, clip, count - 1, i);
        let before = with_image_rows(lines, placeholder, block_top, top, clip, count - 1);
        assert(lines =~= all.subrange(0, lines.len() as int)) by {
            assert(lines =~= before.subrange(0, lines.len() as int));
        }
        if 0 <= i < count && clip.contains((block_top + top + i) as u32) {
            let wanted = image_row(
                placeholder,
                (block_top + top + i) as u32,
                lines.len() as usize,
                clip,
            );
            if i < count - 1 {
                let k = choose|k: int| 0 <= k < before.len() && before[k] == wanted;
                assert(all[k] == wanted);
            } else {
                assert(all[all.len() - 1] == wanted);
            }
        }
    } else {
        assert(lines =~= all.subrange(0, lines.len() as int));
    }
}

/// Each row of an image that is looked at can be selected over its whole width. All of them belong
/// together and copy the text that stands for the image.
pub proof fn law_rows_of_images_can_be_selected(
    lines: Seq<RowView>,
    placeholder: Seq<char>,
    block_top: u32,
    top: u32,
    clip: RowClip,
    i: int,
)
    requires
        block_top + top + 14 <= u32::MAX,
        lines.len() <= usize::MAX,
        0 <= i < 14,
    ensures
        ({
            let all = with_image_rows(lines, placeholder, block_top, top, clip, 14);
            let y = (block_top + top + i) as u32;
            &&& lines.is_prefix_of(all)
            &&& clip.source_start <= y < clip.source_end ==> exists|k: int|
                0 <= k < all.len() && {
                    let row = #[trigger] all[k];
                    &&& row.y == y
                    &&& row.copy_text == Some(placeholder)
                    &&& row.text_width == clip.width
                    &&& row.copy_group == Some(lines.len() as usize)
                }
            &&& forall|k: int|
                lines.len() <= k < all.len() ==> clip.source_start <= (#[trigger] all[k]).y
                    < clip.source_end && all[k].copy_group == Some(lines.len() as usize)
        }),
{
    lemma_image_rows_kept(lines, placeholder, block_top, top, clip, 14, i);
    let all = with_image_rows(lines, placeholder, block_top, top, clip, 14);
    let y = (block_top + top + i) as u32;
    if clip.contains(y) {
        let k = choose|k: int|
            0 <= k < all.len() && all[k] == image_row(placeholder, y, lines.len() as usize, clip);
        assert(all[k].y == y);
    }
}

/// The row at which a part of a block starts: behind the padding and the parts before it.
pub open spec fn part_top(heights: Seq<u32>, k: int) -> u32 {
    line_top(heights, 0, 1, k)
}

proof fn lemma_line_top_continues(heights: Seq<u32>, start: int, j: int)
    requires
        0 <= start <= j,
    ensures
        line_top(heights, start, part_top(heights, start), j) == part_top(heights, j),
    decreases j - start,
{
    if start < j {
        lemma_line_top_continues(heights, start, j - 1);
    }
}

proof fn lemma_first_shown_is(
    heights: Seq<u32>,
    start: int,
    top: u32,
    end: int,
    visible_top: u32,
    j: int,
)
    requires
        start <= j <= end,
        line_top(heights, start, top, j) <= visible_top,
    ensures
        ({
            let first = first_shown(heights, start, top, end, visible_top, j);
            &&& j <= first <= end
            &&& line_top(heights, start, top, first) <= visible_top
            &&& first < end ==> visible_top < line_top(heights, start, top, first + 1)
        }),
    decreases end - j,
{
    if !(j >= end || line_top(heights, start, top, j + 1) > visible_top) {
        lemma_first_shown_is(heights, start, top, end, visible_top, j + 1);
    }
}

proof fn lemma_first_below_is(
    heights: Seq<u32>,
    start: int,
    top: u32,
    end: int,
    visible_bottom: u32,
    j: int,
)
    requires
        j <= end,
    ensures
        ({
            let last = first_below(heights, start, top, end, visible_bottom, j);
            &&& j <= last <= end
            &&& last < end ==> line_top(heights, start, top, last) >= visible_bottom
        }),
    decreases end - j,
{
    if !(j >= end || line_top(heights, start, top, j) >= visible_bottom) {
        lemma_first_below_is(heights, start, top, end, visible_bottom, j + 1);
    }
}

/// Whether a drawing shows a row of a part of a block on the screen row where it belongs.
pub open spec fn draws_row(
    item: DrawItem,
    heights: Seq<u32>,
    part: int,
    row: u32,
    clip: DrawClip,
) -> bool {
    match item {
        DrawItem::Text(text) => {
            let offset = row - part_top(heights, text.start as int);
            &&& text.start <= part < text.end
            &&& text.from_row <= offset < text.from_row + text.rows
            &&& text.y + (offset - text.from_row) == clip.target.y + (row - clip.source_start)
            &&& text.x == clip.target.x + 1
            &&& text.width == clip.target.width - 2
        },
        DrawItem::Image(image) => {
            let offset = row - part_top(heights, part);
            &&& image.segment == part
            &&& image.hidden_rows <= offset < image.hidden_rows + image.area.height
            &&& image.area.y + (offset - image.hidden_rows) == clip.target.y + (row
                - clip.source_start)
            &&& image.area.x == clip.target.x + 1
            &&& image.area.width == clip.target.width - 2
        },
    }
}

/// Whether a block can be drawn without any number running over, and has room for its parts.
pub open spec fn drawable(heights: Seq<u32>, clip: DrawClip) -> bool {
    &&& heights.len() <= usize::MAX
    &&& part_top(heights, heights.len() as int) < u16::MAX
    &&& part_top(heights, heights.len() as int) < clip.height
    &&& clip.target.width > 2
    &&& clip.target.x + clip.target.width <= u16::MAX
    &&& clip.target.y + clip.target.height <= u16::MAX
    &&& clip.source_start + clip.target.height <= u32::MAX
}

proof fn lemma_group_draws_row(
    heights: Seq<u32>,
    start: int,
    end: int,
    trim: bool,
    clip: DrawClip,
    part: int,
    row: u32,
)
    requires
        drawable(heights, clip),
        0 <= start <= part < end <= heights.len(),
        part_top(heights, part) <= row < part_top(heights, part + 1),
        clip.source_start <= row < clip.source_start + clip.target.height,
    ensures
        group_drawing(heights, start, end, trim, part_top(heights, start), clip) matches Some(item)
            && draws_row(item, heights, part, row, clip) && item is Text && item->Text_0.trim
            == trim,
{
    let top = part_top(heights, start);
    lemma_line_top_continues(heights, start, end);
    lemma_line_top_increases(heights, 0, 1, start, part);
    lemma_line_top_increases(heights, 0, 1, part + 1, end);
    lemma_line_top_increases(heights, 0, 1, end, heights.len() as int);
    let shared = overlap(
        top,
        line_top(heights, start, top, end),
        clip.source_start,
        clip.source_end(),
    );
    assert(shared is Some);
    let (visible_top, visible_bottom) = shared->Some_0;
    let first = first_shown(heights, start, top, end, visible_top, start);
    lemma_first_shown_is(heights, start, top, end, visible_top, start);
    let last = first_below(heights, start, top, end, visible_bottom, first);
    lemma_first_below_is(heights, start, top, end, visible_bottom, first);
    lemma_line_top_continues(heights, start, first);
    lemma_line_top_continues(heights, start, last);
    if first == end {
        assert(false);
    }
    lemma_line_top_continues(heights, start, first + 1);
    if part < first {
        lemma_line_top_increases(heights, 0, 1, part + 1, first);
    }
    if last <= part {
        lemma_line_top_increases(heights, 0, 1, last, part);
    }
    lemma_line_top_increases(heights, 0, 1, first, last);
    lemma_line_top_increases(heights, 0, 1, last, end);
}

proof fn lemma_image_draws_row(heights: Seq<u32>, clip: DrawClip, part: int, row: u32)
    requires
        drawable(heights, clip),
        0 <= part < heights.len(),
        heights[part] == 14,
        part_top(heights, part) <= row < part_top(heights, part + 1),
        clip.source_start <= row < clip.source_start + clip.target.height,
    ensures
        image_drawing(part, part_top(heights, part), clip) matches Some(item) && draws_row(
            item,
            heights,
            part,
            row,
            clip,
        ),
{
    lemma_line_top_increases(heights, 0, 1, part + 1, heights.len() as int);
}

/// Whether one of some drawings shows a row of a part of a block.
pub open spec fn row_is_drawn(
    items: Seq<DrawItem>,
    heights: Seq<u32>,
    part: int,
    row: u32,
    clip: DrawClip,
) -> bool {
    exists|i: int| 0 <= i < items.len() && draws_row(#[trigger] items[i], heights, part, row, clip)
}

proof fn lemma_row_stays_drawn(
    items: Seq<DrawItem>,
    item: DrawItem,
    heights: Seq<u32>,
    part: int,
    row: u32,
    clip: DrawClip,
)
    ensures
        row_is_drawn(items, heights, part, row, clip) || draws_row(item, heights, part, row, clip)
            ==> row_is_drawn(items.push(item), heights, part, row, clip),
{
    let more = items.push(item);
    if row_is_drawn(items, heights, part, row, clip) {
        let i = choose|i: int|
            0 <= i < items.len() && draws_row(#[trigger] items[i], heights, part, row, clip);
        assert(more[i] == items[i]);
    } else if draws_row(item, heights, part, row, clip) {
        assert(more[items.len() as int] == item);
    }
}

proof fn lemma_flush_draws_row(
    before: DrawState,
    segments: Seq<SegmentView>,
    heights: Seq<u32>,
    end: int,
    clip: DrawClip,
    part: int,
    row: u32,
)
    requires
        drawable(heights, clip),
        0 <= before.start <= end <= segments.len() == heights.len(),
        before.top == part_top(heights, before.start),
        0 <= part < heights.len(),
        part_top(heights, part) <= row < part_top(heights, part + 1),
        clip.source_start <= row < clip.source_start + clip.target.height,
        part < before.start ==> row_is_drawn(before.items, heights, part, row, clip),
    ensures
        ({
            let after = flush_group(before, segments, heights, end, clip);
            &&& after.start == end
            &&& after.top == part_top(heights, end)
            &&& part < end ==> row_is_drawn(after.items, heights, part, row, clip)
        }),
{
    if before.start < end {
        lemma_line_top_continues(heights, before.start, end);
        let trim = trims(segments[before.start]);
        let drawing = group_drawing(heights, before.start, end, trim, before.top, clip);
        if before.start <= part < end {
            lemma_group_draws_row(heights, before.start, end, trim, clip, part, row);
        }
        if let Some(item) = drawing {
            lemma_row_stays_drawn(before.items, item, heights, part, row, clip);
        }
    }
}

proof fn lemma_segments_draw_row(
    segments: Seq<SegmentView>,
    heights: Seq<u32>,
    clip: DrawClip,
    k: int,
    part: int,
    row: u32,
)
    requires
        drawable(heights, clip),
        0 <= k <= segments.len() == heights.len(),
        forall|i: int|
            0 <= i < segments.len() && #[trigger] segments[i] is Image ==> heights[i] == 14,
        0 <= part < heights.len(),
        part_top(heights, part) <= row < part_top(heights, part + 1),
        clip.source_start <= row < clip.source_start + clip.target.height,
    ensures
        ({
            let drawn = draw_segments(segments, heights, clip, k);
            &&& 0 <= drawn.start <= k
            &&& drawn.top == part_top(heights, drawn.start)
            &&& part < drawn.start ==> row_is_drawn(drawn.items, heights, part, row, clip)
        }),
    decreases k,
{
    if k > 0 {
        lemma_segments_draw_row(segments, heights, clip, k - 1, part, row);
        let before = draw_segments(segments, heights, clip, k - 1);
        lemma_flush_draws_row(before, segments, heights, k - 1, clip, part, row);
        if segments[k - 1] is Image {
            let flushed = flush_group(before, segments, heights, k - 1, clip);
            assert(part_top(heights, k) == flushed.top.saturating_add(heights[k - 1]));
            if part == k - 1 {
                lemma_image_draws_row(heights, clip, part, row);
            }
            if let Some(item) = image_drawing(k - 1, flushed.top, clip) {
                lemma_row_stays_drawn(flushed.items, item, heights, part, row, clip);
            }
        }
    }
}

/// Every row of a block that is in view is drawn, on the screen row where it belongs: a row of a line
/// with the lines that it is wrapped with, and a row of an image with that image.
pub proof fn law_rows_in_view_are_drawn(
    segments: Seq<SegmentView>,
    height: u32,
    source_y: u32,
    target: Rect,
    part: int,
    row: u32,
)
    requires
        drawable(
            segment_heights_spec((target.width - 2) as u16, segments),
            DrawClip { target, source_start: source_y, height },
        ),
        0 <= part < segments.len(),
        part_top(segment_heights_spec((target.width - 2) as u16, segments), part) <= row
            < part_top(segment_heights_spec((target.width - 2) as u16, segments), part + 1),
        source_y <= row < source_y + target.height,
    ensures
        row_is_drawn(
            block_drawing(segments, height, source_y, target),
            segment_heights_spec((target.width - 2) as u16, segments),
            part,
            row,
            DrawClip { target, source_start: source_y, height },
        ),
{
    let clip = DrawClip { target, source_start: source_y, height };
    let heights = segment_heights_spec(clip.width(), segments);
    let n = segments.len() as int;
    lemma_segments_draw_row(segments, heights, clip, n, part, row);
    lemma_flush_draws_row(
        draw_segments(segments, heights, clip, n),
        segments,
        heights,
        n,
        clip,
        part,
        row,
    );
}

/// The parts of a block start one below the other, behind a row of padding.
pub proof fn law_parts_start_one_below_the_other(segments: Seq<SegmentView>, width: u16, k: int)
    requires
        0 <= k,
        segment_top(segments, width, k) + segment_height(width, segments[k]) <= u32::MAX,
    ensures
        segment_top(segments, width, 0) == 1,
        segment_top(segments, width, k + 1) == segment_top(segments, width, k) + segment_height(
            width,
            segments[k],
        ),
{
}

proof fn lemma_prefix_chain(a: Seq<RowView>, b: Seq<RowView>, c: Seq<RowView>)
    requires
        a.is_prefix_of(b),
        b.is_prefix_of(c),
    ensures
        a.is_prefix_of(c),
{
    assert(a =~= b.subrange(0, a.len() as int));
    assert(b =~= c.subrange(0, b.len() as int));
    assert(a =~= c.subrange(0, a.len() as int)) by {
        assert forall|i: int| 0 <= i < a.len() implies a[i] == c[i] by {
            assert(a[i] == b.subrange(0, a.len() as int)[i]);
            assert(b[i] == c.subrange(0, b.len() as int)[i]);
        }
    }
}

proof fn lemma_prefix_self(a: Seq<RowView>)
    ensures
        a.is_prefix_of(a),
{
    assert(a =~= a.subrange(0, a.len() as int));
}

proof fn lemma_prefix_push(a: Seq<RowView>, row: RowView)
    ensures
        a.is_prefix_of(a.push(row)),
{
    assert(a =~= a.push(row).subrange(0, a.len() as int));
}

proof fn lemma_line_rows_prefix(
    lines: Seq<RowView>,
    rows: Seq<RenderedView>,
    block_top: u32,
    top: u32,
    clip: RowClip,
    count: int,
)
    ensures
        lines.is_prefix_of(with_line_rows(lines, rows, block_top, top, clip, count)),
    decreases count,
{
    if count > 0 {
        lemma_line_rows_prefix(lines, rows, block_top, top, clip, count - 1);
        let before = with_line_rows(lines, rows, block_top, top, clip, count - 1);
        let y = block_top.saturating_add((top + count - 1) as u32);
        lemma_prefix_push(before, text_row(rows[count - 1], y, clip));
        lemma_prefix_chain(lines, before, before.push(text_row(rows[count - 1], y, clip)));
    } else {
        lemma_prefix_self(lines);
    }
}

proof fn lemma_image_rows_prefix(
    lines: Seq<RowView>,
    placeholder: Seq<char>,
    block_top: u32,
    top: u32,
    clip: RowClip,
    count: int,
)
    ensures
        lines.is_prefix_of(with_image_rows(lines, placeholder, block_top, top, clip, count)),
    decreases count,
{
    if count > 0 {
        lemma_image_rows_prefix(lines, placeholder, block_top, top, clip, count - 1);
        let before = with_image_rows(lines, placeholder, block_top, top, clip, count - 1);
        let y = block_top.saturating_add(top).saturating_add((count - 1) as u32);
        let row = image_row(placeholder, y, lines.len() as usize, clip);
        lemma_prefix_push(before, row);
        lemma_prefix_chain(lines, before, before.push(row));
    } else {
        lemma_prefix_self(lines);
    }
}

proof fn lemma_one_segment_prefix(
    lines: Seq<RowView>,
    segments: Seq<SegmentView>,
    block_top: u32,
    clip: RowClip,
    k: int,
)
    requires
        0 < k,
    ensures
        with_segment_rows(lines, segments, block_top, clip, k - 1).is_prefix_of(
            with_segment_rows(lines, segments, block_top, clip, k),
        ),
{
    let before = with_segment_rows(lines, segments, block_top, clip, k - 1);
    let top = segment_top(segments, clip.width, k - 1);
    lemma_prefix_self(before);
    match segments[k - 1] {
        SegmentView::Line { line, trim } => {
            let height = line_height_spec(clip.width, line, trim);
            let bottom = top.saturating_add(height);
            let rows = line_rows(line, clip.width, trim);
            let count = if rows.len() <= bottom - top {
                rows.len() as int
            } else {
                bottom - top
            };
            lemma_line_rows_prefix(before, rows, block_top, top, clip, count);
        },
        SegmentView::Image(image) => {
            lemma_image_rows_prefix(
                before,
                images::image_placeholder(image),
                block_top,
                top,
                clip,
                IMAGE_PREVIEW_HEIGHT as int,
            );
        },
    }
}

proof fn lemma_segments_prefix(
    lines: Seq<RowView>,
    segments: Seq<SegmentView>,
    block_top: u32,
    clip: RowClip,
    j: int,
    k: int,
)
    requires
        0 <= j <= k,
    ensures
        with_segment_rows(lines, segments, block_top, clip, j).is_prefix_of(
            with_segment_rows(lines, segments, block_top, clip, k),
        ),
    decreases k - j,
{
    if j < k {
        lemma_segments_prefix(lines, segments, block_top, clip, j, k - 1);
        lemma_one_segment_prefix(lines, segments, block_top, clip, k);
        lemma_prefix_chain(
            with_segment_rows(lines, segments, block_top, clip, j),
            with_segment_rows(lines, segments, block_top, clip, k - 1),
            with_segment_rows(lines, segments, block_top, clip, k),
        );
    } else {
        lemma_prefix_self(with_segment_rows(lines, segments, block_top, clip, j));
    }
}

proof fn lemma_blocks_prefix(blocks: Seq<PreparedView>, clip: RowClip, j: int, k: int)
    requires
        0 <= j <= k,
    ensures
        conversation_rows(blocks, clip, j).is_prefix_of(conversation_rows(blocks, clip, k)),
    decreases k - j,
{
    if j < k {
        lemma_blocks_prefix(blocks, clip, j, k - 1);
        let before = conversation_rows(blocks, clip, k - 1);
        let block = blocks[k - 1];
        let top = scroll_view::prefix_height(block_heights(blocks), k - 1);
        lemma_prefix_self(before);
        lemma_segments_prefix(before, block.segments, top, clip, 0, block.segments.len() as int);
        lemma_prefix_chain(
            conversation_rows(blocks, clip, j),
            before,
            conversation_rows(blocks, clip, k),
        );
    } else {
        lemma_prefix_self(conversation_rows(blocks, clip, j));
    }
}

proof fn lemma_prefix_contains(a: Seq<RowView>, b: Seq<RowView>, row: RowView)
    requires
        a.is_prefix_of(b),
        a.contains(row),
    ensures
        b.contains(row),
{
    let i = choose|i: int| 0 <= i < a.len() && a[i] == row;
    assert(a =~= b.subrange(0, a.len() as int));
    assert(b[i] == a[i]);
}

/// Whether a row of a line of a block lies within that block, at row `y` of the conversation.
pub open spec fn is_row_of(
    blocks: Seq<PreparedView>,
    width: u16,
    block: int,
    part: int,
    i: int,
    y: u32,
) -> bool {
    let segments = blocks[block].segments;
    let top = scroll_view::prefix_height(block_heights(blocks), block);
    &&& 0 <= block < blocks.len()
    &&& 0 <= part < segments.len()
    &&& segments[part] matches SegmentView::Line { line, trim } && {
        let height = line_height_spec(width, line, trim);
        &&& 0 <= i < line_rows(line, width, trim).len()
        &&& i < height
        &&& segment_top(segments, width, part) + height <= blocks[block].height
        &&& top + blocks[block].height <= u32::MAX
        &&& y == top + segment_top(segments, width, part) + i
    }
}

/// Every row of a line of the conversation that is looked at can be selected: it is among the rows with
/// its text, its cells and what copying puts behind it.
pub proof fn law_rows_looked_at_can_be_selected(
    blocks: Seq<PreparedView>,
    clip: RowClip,
    block: int,
    part: int,
    i: int,
    y: u32,
)
    requires
        !clip.area.empty(),
        clip.width > 0,
        is_row_of(blocks, clip.width, block, part, i, y),
        clip.source_start <= y < clip.source_end,
    ensures
        ({
            let segment = blocks[block].segments[part];
            conversation_rows(blocks, clip, blocks.len() as int).contains(
                text_row(line_rows(segment->line, clip.width, segment->trim)[i], y, clip),
            )
        }),
{
    let before = conversation_rows(blocks, clip, block);
    let segments = blocks[block].segments;
    let top = scroll_view::prefix_height(block_heights(blocks), block);
    let segment = segments[part];
    let rows = line_rows(segment->line, clip.width, segment->trim);
    let row = text_row(rows[i], y, clip);
    let start = segment_top(segments, clip.width, part);
    let height = line_height_spec(clip.width, segment->line, segment->trim);
    let bottom = start.saturating_add(height);
    let above = with_segment_rows(before, segments, top, clip, part);
    let count = if rows.len() <= bottom - start {
        rows.len() as int
    } else {
        bottom - start
    };
    lemma_line_rows_kept(above, rows, top, start, clip, count, i);
    let upto = with_segment_rows(before, segments, top, clip, part + 1);
    assert(upto == with_line_rows(above, rows, top, start, clip, count));
    assert(upto.contains(row));
    let all = with_segment_rows(before, segments, top, clip, segments.len() as int);
    lemma_segments_prefix(before, segments, top, clip, part + 1, segments.len() as int);
    lemma_prefix_contains(upto, all, row);
    assert(conversation_rows(blocks, clip, block + 1) == all);
    lemma_blocks_prefix(blocks, clip, block + 1, blocks.len() as int);
    lemma_prefix_contains(all, conversation_rows(blocks, clip, blocks.len() as int), row);
}

/// The rows of the conversation that the window shows can be pointed at, each where it is shown.
pub proof fn law_rows_in_the_window_can_be_pointed_at(
    layout: &ConversationLayout,
    map: &SelectionMap,
    area: Rect,
    scroll: u32,
    block: int,
    part: int,
    i: int,
    y: u32,
)
    requires
        layout.maps_to(map, area, scroll),
        area.width > 2,
        area.height > 0,
        area.x + area.width <= u16::MAX,
        area.y + area.height <= u16::MAX,
        layout.first_row(area, scroll) + area.height <= u32::MAX,
        is_row_of(layout.spec_blocks(), (area.width - 2) as u16, block, part, i, y),
        layout.first_row(area, scroll) <= y < layout.first_row(area, scroll) + area.height,
    ensures
        exists|k: int|
            0 <= k < map.spec_lines().len() && {
                let row = #[trigger] map.spec_lines()[k];
                let segment = layout.spec_blocks()[block].segments[part];
                &&& row.y == y
                &&& row.screen_y == Some((area.y + (y - layout.first_row(area, scroll))) as u16)
                &&& row.x == area.x + 1
                &&& row.text == line_rows(
                    segment->line,
                    (area.width - 2) as u16,
                    segment->trim,
                )[i].text
            },
{
    let start = layout.first_row(area, scroll);
    let clip = RowClip::over(area, start, start, start.saturating_add(area.height as u32));
    law_rows_looked_at_can_be_selected(layout.spec_blocks(), clip, block, part, i, y);
    let segment = layout.spec_blocks()[block].segments[part];
    let wanted = text_row(line_rows(segment->line, clip.width, segment->trim)[i], y, clip);
    let k = choose|k: int| 0 <= k < map.spec_lines().len() && map.spec_lines()[k] == wanted;
    assert(map.spec_lines()[k].y == y);
}

/// Every row that a selection touches is copied from, on the screen or not.
pub proof fn law_rows_of_a_selection_are_copied_from(
    layout: &ConversationLayout,
    area: Rect,
    selection: Selection,
    block: int,
    part: int,
    i: int,
    y: u32,
)
    requires
        area.width > 2,
        area.height > 0,
        area.x + area.width <= u16::MAX,
        selection.end().y < u32::MAX,
        is_row_of(layout.spec_blocks(), (area.width - 2) as u16, block, part, i, y),
        selection.start().y <= y <= selection.end().y,
    ensures
        exists|k: int|
            0 <= k < layout.rows_to_copy(area, selection).len() && {
                let row = #[trigger] layout.rows_to_copy(area, selection)[k];
                let segment = layout.spec_blocks()[block].segments[part];
                &&& row.y == y
                &&& row.text == line_rows(
                    segment->line,
                    (area.width - 2) as u16,
                    segment->trim,
                )[i].text
            },
{
    let clip = RowClip::over(
        area,
        u32::MAX,
        selection.start().y,
        selection.end().y.saturating_add(1),
    );
    law_rows_looked_at_can_be_selected(layout.spec_blocks(), clip, block, part, i, y);
    let segment = layout.spec_blocks()[block].segments[part];
    let wanted = text_row(line_rows(segment->line, clip.width, segment->trim)[i], y, clip);
    let rows = layout.rows_to_copy(area, selection);
    let k = choose|k: int| 0 <= k < rows.len() && rows[k] == wanted;
    assert(layout.rows_to_copy(area, selection)[k].y == y);
}

/// A layout holds each block of the conversation as it is shown in its width, with the rows that it
/// takes there.
pub proof fn law_blocks_are_laid_out_as_they_are_shown(block: state::BlockView, width: u16)
    ensures
        prepared(block, width).segments == blocks::block_segments(block),
        prepared(block, width).style == blocks::container_style(block.kind),
        prepared(block, width).height == block_height_spec(width, blocks::block_segments(block)),
{
}

} // verus!
