//! Text selection on screen: which rows and cells there are, which of them a selection covers and
//! what text it copies.

use crate::geometry::Rect;
use vstd::laws_eq::*;
use vstd::prelude::*;

verus! {

/// A column of the screen and a row of the content.
#[derive(Clone, Copy, Debug, PartialEq, Eq, Structural)]
pub struct TextPosition {
    pub x: u16,
    pub y: u32,
}

impl TextPosition {
    pub fn new(x: u16, y: u32) -> (position: TextPosition)
        ensures
            position == (TextPosition { x, y }),
    {
        TextPosition { x, y }
    }

    /// Reading order: by row, then by column.
    pub open spec fn not_after(self, other: TextPosition) -> bool {
        self.y < other.y || (self.y == other.y && self.x <= other.x)
    }
}

/// A selection from where it was started to where it was dragged.
#[derive(Clone, Copy, Debug, PartialEq, Eq, Structural)]
pub struct Selection {
    pub anchor: TextPosition,
    pub focus: TextPosition,
}

impl Selection {
    pub fn new(anchor: TextPosition, focus: TextPosition) -> (selection: Selection)
        ensures
            selection == (Selection { anchor, focus }),
    {
        Selection { anchor, focus }
    }

    /// The end of the selection that comes first.
    pub open spec fn start(self) -> TextPosition {
        if self.anchor.not_after(self.focus) {
            self.anchor
        } else {
            self.focus
        }
    }

    /// The end of the selection that comes last.
    pub open spec fn end(self) -> TextPosition {
        if self.anchor.not_after(self.focus) {
            self.focus
        } else {
            self.anchor
        }
    }

    pub(crate) fn normalized(self) -> (ends: (TextPosition, TextPosition))
        ensures
            ends.0 == self.start(),
            ends.1 == self.end(),
    {
        if position_before_or_equal(self.anchor, self.focus) {
            (self.anchor, self.focus)
        } else {
            (self.focus, self.anchor)
        }
    }
}

/// The ends of a selection are in reading order, whichever way it was dragged.
pub proof fn law_selection_ends_ordered(a: TextPosition, b: TextPosition)
    ensures
        (Selection { anchor: a, focus: b }).start().not_after(
            (Selection { anchor: a, focus: b }).end(),
        ),
        (Selection { anchor: a, focus: b }).start() == (Selection { anchor: b, focus: a }).start(),
        (Selection { anchor: a, focus: b }).end() == (Selection { anchor: b, focus: a }).end(),
{
}

fn position_before_or_equal(left: TextPosition, right: TextPosition) -> (before: bool)
    ensures
        before == left.not_after(right),
{
    left.y < right.y || (left.y == right.y && left.x <= right.x)
}

/// What stands between a copied row and the one copied after it.
#[derive(Clone, Debug, PartialEq, Eq)]
pub enum CopySeparator {
    Empty,
    SoftWrap(String),
    HardLine,
}

/// A copy separator, with its text.
pub enum SeparatorView {
    Empty,
    SoftWrap(Seq<char>),
    HardLine,
}

impl SeparatorView {
    pub open spec fn text(self) -> Seq<char> {
        match self {
            SeparatorView::Empty => Seq::empty(),
            SeparatorView::SoftWrap(separator) => separator,
            SeparatorView::HardLine => seq!['\n'],
        }
    }
}

impl View for CopySeparator {
    type V = SeparatorView;

    open spec fn view(&self) -> SeparatorView {
        match self {
            CopySeparator::Empty => SeparatorView::Empty,
            CopySeparator::SoftWrap(separator) => SeparatorView::SoftWrap(separator@),
            CopySeparator::HardLine => SeparatorView::HardLine,
        }
    }
}

impl CopySeparator {

    pub fn as_str(&self) -> (text: &str)
        ensures
            text@ == self@.text(),
    {
        proof {
            reveal_strlit("");
            reveal_strlit("\n");
            assert(""@ =~= Seq::<char>::empty());
            assert("\n"@ =~= seq!['\n']);
        }
        match self {
            CopySeparator::Empty => "",
            CopySeparator::SoftWrap(separator) => separator.as_str(),
            CopySeparator::HardLine => "\n",
        }
    }
}

/// The columns and the text of a cell.
pub struct CellView {
    pub column: u16,
    pub width: u16,
    pub text: Seq<char>,
}

impl CellView {
    /// Whether a column of `start..end` belongs to the cell.
    pub open spec fn overlaps(self, start: u16, end: u16) -> bool {
        self.column < end && self.column.saturating_add(self.width) > start
    }
}

/// The columns and texts of a row's cells.
pub open spec fn cell_views(cells: Seq<SelectionCell>) -> Seq<CellView> {
    Seq::new(cells.len(), |i: int| cells[i].cell_view())
}

/// A run of columns of a row that is selected as a whole.
#[derive(Clone, Debug, PartialEq, Eq)]
pub struct SelectionCell {
    column: u16,
    width: u16,
    text: String,
}

impl SelectionCell {
    pub closed spec fn spec_column(&self) -> u16 {
        self.column
    }

    pub closed spec fn spec_width(&self) -> u16 {
        self.width
    }

    pub closed spec fn spec_text(&self) -> Seq<char> {
        self.text@
    }

    pub open spec fn cell_view(&self) -> CellView {
        CellView {
            column: self.spec_column(),
            width: self.spec_width(),
            text: self.spec_text(),
        }
    }

    /// Appends a character that takes no column of its own.
    pub(crate) fn push_combining(&mut self, c: char)
        ensures
            final(self).cell_view() == (CellView {
                text: old(self).spec_text().push(c),
                ..old(self).cell_view()
            }),
    {
        self.text.push(c);
    }

    pub fn new(column: u16, width: u16, text: String) -> (cell: SelectionCell)
        ensures
            cell.spec_column() == column,
            cell.spec_width() == width,
            cell.spec_text() == text@,
    {
        SelectionCell { column, width, text }
    }

    pub fn column(&self) -> (column: u16)
        ensures
            column == self.spec_column(),
    {
        self.column
    }

    pub fn width(&self) -> (width: u16)
        ensures
            width == self.spec_width(),
    {
        self.width
    }

    pub fn text(&self) -> (text: &str)
        ensures
            text@ == self.spec_text(),
    {
        self.text.as_str()
    }

    fn overlaps(&self, start: u16, end: u16) -> (overlaps: bool)
        ensures
            overlaps == self.cell_view().overlaps(start, end),
    {
        self.column < end && self.column.saturating_add(self.width) > start
    }
}

/// The text of the cells among the first `count` that have a column in `start..end`.
pub open spec fn cells_text(cells: Seq<CellView>, count: int, start: u16, end: u16) -> Seq<char>
    decreases count,
{
    if count <= 0 {
        Seq::empty()
    } else if cells[count - 1].overlaps(start, end) {
        cells_text(cells, count - 1, start, end) + cells[count - 1].text
    } else {
        cells_text(cells, count - 1, start, end)
    }
}

/// What a row shows and what copying it gives.
#[derive(Clone, Debug, PartialEq, Eq)]
pub struct SelectionRowContent {
    pub text_width: u16,
    pub text: String,
    pub copy_separator: CopySeparator,
    pub cells: Vec<SelectionCell>,
}

impl SelectionRowContent {
    pub fn new(
        text_width: u16,
        text: String,
        copy_separator: CopySeparator,
        cells: Vec<SelectionCell>,
    ) -> (content: SelectionRowContent)
        ensures
            content == (SelectionRowContent { text_width, text, copy_separator, cells }),
    {
        SelectionRowContent { text_width, text, copy_separator, cells }
    }
}

/// A selectable row; `screen_y` is absent where the row is scrolled out of view.
#[derive(Clone, Debug, PartialEq, Eq)]
pub struct SelectionRow {
    pub x: u16,
    pub y: u32,
    pub screen_y: Option<u16>,
    pub width: u16,
    pub text_width: u16,
    pub text: String,
    pub copy_separator: CopySeparator,
    pub copy_group: Option<usize>,
    pub copy_text: Option<String>,
    pub cells: Vec<SelectionCell>,
}

/// A selectable row as plain values.
pub struct RowView {
    pub x: u16,
    pub y: u32,
    pub screen_y: Option<u16>,
    pub width: u16,
    pub text_width: u16,
    pub text: Seq<char>,
    pub separator: SeparatorView,
    pub copy_group: Option<usize>,
    pub copy_text: Option<Seq<char>>,
    pub cells: Seq<CellView>,
}

impl RowView {
    /// The column after the row's text.
    pub open spec fn end_x(self) -> u16 {
        self.x.saturating_add(self.text_width)
    }

    /// The position of the row's text that is nearest to column `x`.
    pub open spec fn clamped_position(self, x: u16) -> TextPosition {
        TextPosition {
            x: if x < self.x {
                self.x
            } else if x > self.end_x() {
                self.end_x()
            } else {
                x
            },
            y: self.y,
        }
    }

    /// Column `x` counted from the start of the row, at most the width of its text.
    pub open spec fn local_column(self, x: u16) -> u16 {
        let column = x.saturating_sub(self.x);
        if column <= self.text_width {
            column
        } else {
            self.text_width
        }
    }

    /// The text that copying the columns `start..end` gives: all of the copy text where the row
    /// has one, else the cells that have a column there.
    pub open spec fn copied(self, start: u16, end: u16) -> Seq<char> {
        if start >= end {
            Seq::empty()
        } else {
            match self.copy_text {
                Some(text) => text,
                None => cells_text(self.cells, self.cells.len() as int, start, end),
            }
        }
    }

    /// The first column of the row that a selection starting at `start` covers.
    pub open spec fn selected_from(self, start: TextPosition) -> u16 {
        if self.y == start.y {
            self.local_column(start.x)
        } else {
            0
        }
    }

    /// One past the last column of the row that a selection ending at `end` covers.
    pub open spec fn selected_to(self, end: TextPosition) -> u16 {
        if self.y == end.y {
            self.local_column(end.x)
        } else {
            self.text_width
        }
    }
}

impl View for SelectionRow {
    type V = RowView;

    open spec fn view(&self) -> RowView {
        RowView {
            x: self.x,
            y: self.y,
            screen_y: self.screen_y,
            width: self.width,
            text_width: self.text_width,
            text: self.text@,
            separator: self.copy_separator@,
            copy_group: self.copy_group,
            copy_text: match self.copy_text {
                Some(text) => Some(text@),
                None => None,
            },
            cells: cell_views(self.cells@),
        }
    }
}

impl SelectionRow {
    pub fn new(
        x: u16,
        y: u32,
        screen_y: Option<u16>,
        width: u16,
        content: SelectionRowContent,
    ) -> (row: SelectionRow)
        ensures
            row@ == (RowView {
                x,
                y,
                screen_y,
                width,
                text_width: content.text_width,
                text: content.text@,
                separator: content.copy_separator@,
                copy_group: None,
                copy_text: None,
                cells: cell_views(content.cells@),
            }),
    {
        SelectionRow {
            x,
            y,
            screen_y,
            width,
            text_width: content.text_width,
            text: content.text,
            copy_separator: content.copy_separator,
            copy_group: None,
            copy_text: None,
            cells: content.cells,
        }
    }

    pub fn with_copy_group(self, copy_group: usize) -> (row: SelectionRow)
        ensures
            row@ == (RowView { copy_group: Some(copy_group), ..self@ }),
    {
        let mut row = self;
        row.copy_group = Some(copy_group);
        row
    }

    pub fn with_copy_text(self, copy_text: String) -> (row: SelectionRow)
        ensures
            row@ == (RowView { copy_text: Some(copy_text@), ..self@ }),
    {
        let mut row = self;
        row.copy_text = Some(copy_text);
        row
    }

    pub fn copy_group(&self) -> (group: Option<usize>)
        ensures
            group == self@.copy_group,
    {
        self.copy_group
    }

    pub fn cells(&self) -> (cells: &[SelectionCell])
        ensures
            cell_views(cells@) == self@.cells,
            cells@ == self.cells@,
    {
        self.cells.as_slice()
    }

    pub fn end_x(&self) -> (x: u16)
        ensures
            x == self@.end_x(),
    {
        self.x.saturating_add(self.text_width)
    }

    fn clamped_position(&self, x: u16) -> (position: TextPosition)
        ensures
            position == self@.clamped_position(x),
    {
        let end_x: u16 = self.end_x();
        let column: u16 = if x < self.x {
            self.x
        } else if x > end_x {
            end_x
        } else {
            x
        };
        TextPosition::new(column, self.y)
    }

    fn local_column(&self, x: u16) -> (column: u16)
        ensures
            column == self@.local_column(x),
    {
        x.saturating_sub(self.x).min(self.text_width)
    }

    fn copy_range(&self, start: u16, end: u16) -> (text: String)
        ensures
            text@ == self@.copied(start, end),
    {
        if start >= end {
            return String::new();
        }
        if let Some(text) = &self.copy_text {
            return text.clone();
        }
        let mut text: String = String::new();
        let mut i: usize = 0;
        while i < self.cells.len()
            invariant
                i <= self.cells@.len(),
                text@ == cells_text(self@.cells, i as int, start, end),
            decreases self.cells@.len() - i,
        {
            let cell = &self.cells[i];
            if cell.overlaps(start, end) {
                text.append(cell.text.as_str());
            }
            i = i + 1;
        }
        text
    }

    fn selected_columns(&self, start: TextPosition, end: TextPosition) -> (columns: (u16, u16))
        ensures
            columns.0 == self@.selected_from(start),
            columns.1 == self@.selected_to(end),
    {
        let start_column: u16 = if self.y == start.y {
            self.local_column(start.x)
        } else {
            0
        };
        let end_column: u16 = if self.y == end.y {
            self.local_column(end.x)
        } else {
            self.text_width
        };
        (start_column, end_column)
    }
}

/// Whether row `i` belongs to the copy group of the row before it, which already stands for it.
pub open spec fn repeats_group(rows: Seq<RowView>, i: int) -> bool {
    0 < i && rows[i].copy_group is Some && rows[i].copy_group
        == rows[i - 1].copy_group
}

/// The copy separator of the last row among the first `count` that is copied.
pub open spec fn last_separator(rows: Seq<RowView>, count: int) -> Seq<char>
    decreases count,
{
    if count <= 0 {
        Seq::empty()
    } else if repeats_group(rows, count - 1) {
        last_separator(rows, count - 1)
    } else {
        rows[count - 1].separator.text()
    }
}

/// The text that copying the first `count` rows between two positions gives. Rows of one copy
/// group are copied once; a row's separator stands between it and the next copied row.
pub open spec fn rows_text(
    rows: Seq<RowView>,
    count: int,
    start: TextPosition,
    end: TextPosition,
) -> Seq<char>
    decreases count,
{
    if count <= 0 {
        Seq::empty()
    } else if repeats_group(rows, count - 1) {
        rows_text(rows, count - 1, start, end)
    } else {
        rows_text(rows, count - 1, start, end) + last_separator(rows, count - 1)
            + rows[count - 1].copied(
            rows[count - 1].selected_from(start),
            rows[count - 1].selected_to(end),
        )
    }
}

/// The rows among the first `count` whose row number lies in `first..=last`.
pub open spec fn rows_between(
    rows: Seq<RowView>,
    count: int,
    first: u32,
    last: u32,
) -> Seq<RowView>
    decreases count,
{
    if count <= 0 {
        Seq::empty()
    } else if first <= rows[count - 1].y <= last {
        rows_between(rows, count - 1, first, last).push(rows[count - 1])
    } else {
        rows_between(rows, count - 1, first, last)
    }
}

/// The text that a selection copies from the given rows.
pub open spec fn selection_text(lines: Seq<RowView>, selection: Selection) -> Seq<char> {
    let rows = rows_between(
        lines,
        lines.len() as int,
        selection.start().y,
        selection.end().y,
    );
    rows_text(rows, rows.len() as int, selection.start(), selection.end())
}

/// The rows among the first `count` that are on screen.
pub open spec fn visible_rows(rows: Seq<RowView>, count: int) -> Seq<RowView>
    decreases count,
{
    if count <= 0 {
        Seq::empty()
    } else if rows[count - 1].screen_y is Some {
        visible_rows(rows, count - 1).push(rows[count - 1])
    } else {
        visible_rows(rows, count - 1)
    }
}

/// A run of screen cells that a selection covers.
#[derive(Clone, Copy, Debug, PartialEq, Eq, Structural)]
pub struct HighlightSpan {
    pub start_x: u16,
    pub end_x: u16,
    pub y: u16,
}

/// The screen cells that a selection covers among the first `count` of the given rows.
pub open spec fn highlight_spans(
    rows: Seq<RowView>,
    count: int,
    start: TextPosition,
    end: TextPosition,
) -> Seq<HighlightSpan>
    decreases count,
{
    if count <= 0 {
        Seq::empty()
    } else {
        let row = rows[count - 1];
        let before = highlight_spans(rows, count - 1, start, end);
        if start.y <= row.y <= end.y && row.selected_from(start) < row.selected_to(end) {
            before.push(
                HighlightSpan {
                    start_x: row.x.saturating_add(row.selected_from(start)),
                    end_x: row.x.saturating_add(row.selected_to(end)),
                    y: row.screen_y->0,
                },
            )
        } else {
            before
        }
    }
}

pub open spec fn distance(a: u16, b: u16) -> int {
    if a >= b {
        a - b
    } else {
        b - a
    }
}

/// The selectable rows of an area of the screen.
#[derive(Clone, Debug, PartialEq, Eq)]
pub struct SelectionMap {
    area: Rect,
    viewport_start: u32,
    total_height: u32,
    lines: Vec<SelectionRow>,
}

/// Rows as plain values.
pub open spec fn row_views(rows: Seq<SelectionRow>) -> Seq<RowView> {
    Seq::new(rows.len(), |i: int| rows[i]@)
}

impl Default for SelectionMap {
    fn default() -> (map: SelectionMap)
        ensures
            map.spec_area() == (Rect { x: 0, y: 0, width: 0, height: 0 }),
            map.spec_viewport_start() == 0,
            map.spec_total_height() == 0,
            map.spec_lines() == Seq::<RowView>::empty(),
    {
        SelectionMap::new(Rect::default(), 0, 0)
    }
}

impl SelectionMap {
    pub closed spec fn spec_area(&self) -> Rect {
        self.area
    }

    pub closed spec fn spec_viewport_start(&self) -> u32 {
        self.viewport_start
    }

    pub closed spec fn spec_total_height(&self) -> u32 {
        self.total_height
    }

    pub closed spec fn spec_lines(&self) -> Seq<RowView> {
        row_views(self.lines@)
    }

    /// The rows on screen, in the order in which they were pushed.
    pub open spec fn spec_visible(&self) -> Seq<RowView> {
        visible_rows(self.spec_lines(), self.spec_lines().len() as int)
    }

    pub fn new(area: Rect, viewport_start: u32, total_height: u32) -> (map: SelectionMap)
        ensures
            map.spec_area() == area,
            map.spec_viewport_start() == viewport_start,
            map.spec_total_height() == total_height,
            map.spec_lines() == Seq::<RowView>::empty(),
    {
        let map = SelectionMap { area, viewport_start, total_height, lines: Vec::new() };
        assert(map.spec_lines() =~= Seq::<RowView>::empty());
        map
    }

    pub fn area(&self) -> (area: Rect)
        ensures
            area == self.spec_area(),
    {
        self.area
    }

    pub fn lines(&self) -> (lines: &[SelectionRow])
        ensures
            row_views(lines@) == self.spec_lines(),
    {
        self.lines.as_slice()
    }

    pub fn push_line(&mut self, line: SelectionRow)
        ensures
            final(self).spec_lines() == old(self).spec_lines().push(line@),
            final(self).spec_area() == old(self).spec_area(),
            final(self).spec_viewport_start() == old(self).spec_viewport_start(),
            final(self).spec_total_height() == old(self).spec_total_height(),
    {
        self.lines.push(line);
        assert(self.spec_lines() =~= old(self).spec_lines().push(line@));
    }

    pub fn viewport_start(&self) -> (row: u32)
        ensures
            row == self.spec_viewport_start(),
    {
        self.viewport_start
    }

    pub fn max_viewport_start(&self) -> (row: u32)
        ensures
            row == self.spec_total_height().saturating_sub(self.spec_area().height as u32),
    {
        self.total_height.saturating_sub(self.area.height as u32)
    }

    pub fn is_empty(&self) -> (empty: bool)
        ensures
            empty == (self.spec_lines().len() == 0),
    {
        self.lines.len() == 0
    }

    pub open spec fn spec_contains_point(&self, x: u16, y: u16) -> bool {
        let area = self.spec_area();
        &&& area.x <= x < area.x.saturating_add(area.width)
        &&& area.y <= y < area.y.saturating_add(area.height)
    }

    pub fn contains_point(&self, x: u16, y: u16) -> (contains: bool)
        ensures
            contains == self.spec_contains_point(x, y),
    {
        x >= self.area.x && x < self.area.x.saturating_add(self.area.width) && y >= self.area.y && y
            < self.area.y.saturating_add(self.area.height)
    }

    /// Whether the `i`-th row on screen is the first at screen row `y`.
    pub open spec fn at_screen_y(&self, i: int, y: u16) -> bool {
        &&& 0 <= i < self.spec_visible().len()
        &&& self.spec_visible()[i].screen_y == Some(y)
        &&& forall|j: int| 0 <= j < i ==> (#[trigger] self.spec_visible()[j]).screen_y != Some(y)
    }

    /// Whether the `i`-th row on screen is the first of those that are nearest to screen row `y`.
    pub open spec fn nearest_to(&self, i: int, y: u16) -> bool {
        &&& 0 <= i < self.spec_visible().len()
        &&& forall|j: int|
            0 <= j < self.spec_visible().len() ==> distance(
                self.spec_visible()[i].screen_y->0,
                y,
            ) <= distance((#[trigger] self.spec_visible()[j]).screen_y->0, y)
        &&& forall|j: int|
            0 <= j < i ==> distance(self.spec_visible()[i].screen_y->0, y) < distance(
                (#[trigger] self.spec_visible()[j]).screen_y->0,
                y,
            )
    }

    /// The position under a screen cell: in the row shown there, within its text. There is none
    /// where no row is shown.
    pub fn position_at(&self, x: u16, y: u16) -> (position: Option<TextPosition>)
        ensures
            match position {
                Some(position) => exists|i: int|
                    #[trigger] self.at_screen_y(i, y) && position
                        == self.spec_visible()[i].clamped_position(x),
                None => forall|i: int|
                    0 <= i < self.spec_visible().len() ==> (
                    #[trigger] self.spec_visible()[i]).screen_y != Some(y),
            },
    {
        match self.line_at_screen_y(y) {
            Some(index) => Some(self.lines[index].clamped_position(x)),
            None => None,
        }
    }

    /// The position nearest to a screen cell: in the row shown there, else in the nearest row.
    pub fn nearest_position(&self, x: u16, y: u16) -> (position: Option<TextPosition>)
        ensures
            position is Some <==> self.spec_visible().len() > 0,
            position matches Some(position) ==> exists|i: int|
                #[trigger] self.nearest_to(i, y) && position
                    == self.spec_visible()[i].clamped_position(x),
    {
        let indices = self.visible_lines();
        if indices.len() == 0 {
            return None;
        }
        let ghost visible = self.spec_visible();
        let mut best: usize = 0;
        let mut i: usize = 1;
        while i < indices.len()
            invariant
                1 <= i <= indices@.len(),
                best < i,
                visible == self.spec_visible(),
                indices_of_visible(self.spec_lines(), self.lines@.len() as int, indices@),
                forall|j: int|
                    0 <= j < i ==> distance(visible[best as int].screen_y->0, y) <= distance(
                        (#[trigger] visible[j]).screen_y->0,
                        y,
                    ),
                forall|j: int|
                    0 <= j < best ==> distance(visible[best as int].screen_y->0, y) < distance(
                        (#[trigger] visible[j]).screen_y->0,
                        y,
                    ),
            decreases indices@.len() - i,
        {
            assert(self.spec_lines()[indices@[i as int] as int] == visible[i as int]);
            assert(self.spec_lines()[indices@[best as int] as int]
                == visible[best as int]);
            let candidate: u16 = self.screen_distance(indices[i], y);
            let nearest: u16 = self.screen_distance(indices[best], y);
            if candidate < nearest {
                best = i;
            }
            i = i + 1;
        }
        assert(self.nearest_to(best as int, y));
        assert(self.spec_lines()[indices@[best as int] as int] == visible[best as int]);
        Some(self.lines[indices[best]].clamped_position(x))
    }

    fn screen_distance(&self, index: usize, y: u16) -> (d: u16)
        requires
            index < self.lines@.len(),
            self.lines@[index as int].screen_y is Some,
        ensures
            d == distance(self.lines@[index as int].screen_y->0, y),
    {
        let row: u16 = self.lines[index].screen_y.unwrap();
        if row >= y {
            row - y
        } else {
            y - row
        }
    }

    /// The selection between the positions nearest to two screen cells.
    pub fn selection_for_points(
        &self,
        anchor_x: u16,
        anchor_y: u16,
        focus_x: u16,
        focus_y: u16,
    ) -> (selection: Option<Selection>)
        ensures
            selection is Some <==> self.spec_visible().len() > 0,
            selection matches Some(selection) ==> exists|i: int, j: int|
                {
                    &&& #[trigger] self.nearest_to(i, anchor_y)
                    &&& #[trigger] self.nearest_to(j, focus_y)
                    &&& selection.anchor == self.spec_visible()[i].clamped_position(anchor_x)
                    &&& selection.focus == self.spec_visible()[j].clamped_position(focus_x)
                },
    {
        match (
            self.nearest_position(anchor_x, anchor_y),
            self.nearest_position(focus_x, focus_y),
        ) {
            (Some(anchor), Some(focus)) => Some(Selection::new(anchor, focus)),
            _ => None,
        }
    }

    /// Where copying all rows starts.
    pub open spec fn first_position(&self) -> TextPosition {
        TextPosition { x: self.spec_lines()[0].x, y: self.spec_lines()[0].y }
    }

    /// Where copying all rows ends.
    pub open spec fn last_position(&self) -> TextPosition {
        TextPosition { x: self.spec_lines().last().end_x(), y: self.spec_lines().last().y }
    }

    pub fn copy_visible_text(&self) -> (text: String)
        ensures
            text@ == rows_text(
                self.spec_visible(),
                self.spec_visible().len() as int,
                self.first_position(),
                self.last_position(),
            ),
    {
        let indices = self.visible_lines();
        if self.lines.len() == 0 {
            return String::new();
        }
        let first = &self.lines[0];
        let last = &self.lines[self.lines.len() - 1];
                assert(self.picked(indices@) =~= self.spec_visible());
        self.copy_line_indices_with_bounds(
            &indices,
            TextPosition::new(first.x, first.y),
            TextPosition::new(last.end_x(), last.y),
        )
    }

    /// The text that a selection copies, from all rows, on screen or not.
    pub open spec fn selected_text(&self, selection: Selection) -> Seq<char> {
        selection_text(self.spec_lines(), selection)
    }

    pub fn copy_selection(&self, selection: Selection) -> (text: String)
        ensures
            text@ == self.selected_text(selection),
    {
        let (start, end) = selection.normalized();
        let mut indices: Vec<usize> = Vec::new();
        let mut i: usize = 0;
        assert(self.picked(indices@) =~= rows_between(self.spec_lines(), 0, start.y, end.y));
        while i < self.lines.len()
            invariant
                i <= self.lines@.len(),
                forall|k: int| 0 <= k < indices@.len() ==> #[trigger] indices@[k] < i,
                self.picked(indices@) == rows_between(self.spec_lines(), i as int, start.y, end.y),
            decreases self.lines@.len() - i,
        {
            let ghost before = indices@;
            if self.lines[i].y >= start.y && self.lines[i].y <= end.y {
                indices.push(i);
                assert(self.picked(indices@) =~= self.picked(before).push(self.spec_lines()[i as int]));
            }
            i = i + 1;
        }
        self.copy_line_indices_with_bounds(&indices, start, end)
    }

    /// The screen cells that a selection covers, row by row.
    pub fn selection_highlight(&self, selection: Selection) -> (spans: Vec<HighlightSpan>)
        ensures
            spans@ == highlight_spans(
                self.spec_visible(),
                self.spec_visible().len() as int,
                selection.start(),
                selection.end(),
            ),
    {
        let indices = self.visible_lines();
        let (start, end) = selection.normalized();
        let mut spans: Vec<HighlightSpan> = Vec::new();
        let mut i: usize = 0;
        while i < indices.len()
            invariant
                i <= indices@.len(),
                indices_of_visible(self.spec_lines(), self.lines@.len() as int, indices@),
                spans@ == highlight_spans(self.spec_visible(), i as int, start, end),
            decreases indices@.len() - i,
        {
            let index: usize = indices[i];
            assert(self.spec_lines()[index as int] == self.spec_visible()[i as int]);
            let line = &self.lines[index];
            let (start_column, end_column) = line.selected_columns(start, end);
            if line.y >= start.y && line.y <= end.y && start_column < end_column {
                spans.push(
                    HighlightSpan {
                        start_x: line.x.saturating_add(start_column),
                        end_x: line.x.saturating_add(end_column),
                        y: line.screen_y.unwrap(),
                    },
                );
            }
            i = i + 1;
        }
        spans
    }

    /// The indices of the rows on screen.
    fn visible_lines(&self) -> (indices: Vec<usize>)
        ensures
            indices_of_visible(self.spec_lines(), self.lines@.len() as int, indices@),
    {
        let mut indices: Vec<usize> = Vec::new();
        let mut i: usize = 0;
        while i < self.lines.len()
            invariant
                i <= self.lines@.len(),
                indices_of_visible(self.spec_lines(), i as int, indices@),
            decreases self.lines@.len() - i,
        {
            if self.lines[i].screen_y.is_some() {
                indices.push(i);
            }
            i = i + 1;
        }
        indices
    }

    /// The index of the first row on screen at screen row `y`.
    fn line_at_screen_y(&self, y: u16) -> (found: Option<usize>)
        ensures
            match found {
                Some(index) => index < self.lines@.len() && exists|i: int|
                    #[trigger] self.at_screen_y(i, y) && self.spec_lines()[index as int]
                        == self.spec_visible()[i],
                None => forall|i: int|
                    0 <= i < self.spec_visible().len() ==> (
                    #[trigger] self.spec_visible()[i]).screen_y != Some(y),
            },
    {
        let indices = self.visible_lines();
        let mut i: usize = 0;
        while i < indices.len()
            invariant
                i <= indices@.len(),
                indices_of_visible(self.spec_lines(), self.lines@.len() as int, indices@),
                forall|j: int|
                    0 <= j < i ==> (#[trigger] self.spec_visible()[j]).screen_y != Some(y),
            decreases indices@.len() - i,
        {
            let index: usize = indices[i];
            assert(self.spec_lines()[index as int] == self.spec_visible()[i as int]);
            if self.lines[index].screen_y.unwrap() == y {
                assert(self.at_screen_y(i as int, y));
                return Some(index);
            }
            i = i + 1;
        }
        None
    }

    spec fn picked(&self, indices: Seq<usize>) -> Seq<RowView> {
        Seq::new(indices.len(), |i: int| self.spec_lines()[indices[i] as int])
    }

    fn copy_line_indices_with_bounds(
        &self,
        indices: &Vec<usize>,
        start: TextPosition,
        end: TextPosition,
    ) -> (text: String)
        requires
            forall|k: int|
                0 <= k < indices@.len() ==> #[trigger] indices@[k] < self.lines@.len(),
        ensures
            text@ == rows_text(self.picked(indices@), indices@.len() as int, start, end),
    {
        let ghost rows = self.picked(indices@);
        let mut output: String = String::new();
        let mut last_copy_group: Option<usize> = None;
        let mut separator: &str = "";
        proof {
            reveal_strlit("");
            assert(""@ =~= Seq::<char>::empty());
        }
        let mut i: usize = 0;
        while i < indices.len()
            invariant
                i <= indices@.len(),
                rows == self.picked(indices@),
                forall|k: int|
                    0 <= k < indices@.len() ==> #[trigger] indices@[k] < self.lines@.len(),
                i > 0 ==> last_copy_group == rows[i - 1].copy_group,
                i == 0 ==> last_copy_group is None,
                separator@ == last_separator(rows, i as int),
                output@ == rows_text(rows, i as int, start, end),
            decreases indices@.len() - i,
        {
            let line = &self.lines[indices[i]];
            assert(line@ == rows[i as int]);
            let repeats = match (line.copy_group, last_copy_group) {
                (Some(group), Some(last)) => group == last,
                _ => false,
            };
            if !repeats {
                let (start_column, end_column) = line.selected_columns(start, end);
                output.append(separator);
                let copied = line.copy_range(start_column, end_column);
                output.append(copied.as_str());
                separator = line.copy_separator.as_str();
            }
            last_copy_group = line.copy_group;
            i = i + 1;
        }
        output
    }
}

/// Whether `indices` lists the rows on screen among the first `count`, in order.
spec fn indices_of_visible(rows: Seq<RowView>, count: int, indices: Seq<usize>) -> bool {
    &&& indices.len() == visible_rows(rows, count).len()
    &&& forall|k: int|
        0 <= k < indices.len() ==> {
            &&& #[trigger] indices[k] < count
            &&& rows[indices[k] as int] == visible_rows(rows, count)[k]
            &&& rows[indices[k] as int].screen_y is Some
        }
}

/// Whether rows come in the order of their row numbers, with no number twice.
pub open spec fn rows_ascend(rows: Seq<RowView>) -> bool {
    forall|i: int, j: int|
        0 <= i < j < rows.len() ==> (#[trigger] rows[i]).y < (#[trigger] rows[j]).y
}

proof fn lemma_rows_at(rows: Seq<RowView>, count: int, y: u32)
    requires
        0 <= count <= rows.len(),
        rows_ascend(rows),
    ensures
        rows_between(rows, count, y, y).len() <= 1,
        rows_between(rows, count, y, y).len() == 1 ==> {
            &&& rows_between(rows, count, y, y)[0].y == y
            &&& exists|i: int| 0 <= i < count && (#[trigger] rows[i]).y == y
        },
    decreases count,
{
    if count > 0 {
        lemma_rows_at(rows, count - 1, y);
        if rows[count - 1].y == y && rows_between(rows, count - 1, y, y).len() == 1 {
            let i = choose|i: int| 0 <= i < count - 1 && (#[trigger] rows[i]).y == y;
            assert(rows[i].y < rows[count - 1].y);
        }
    }
}

/// A selection that ends where it starts copies nothing.
pub proof fn law_empty_selection_copies_nothing(lines: Seq<RowView>, at: TextPosition)
    requires
        rows_ascend(lines),
    ensures
        selection_text(lines, Selection { anchor: at, focus: at }) == Seq::<char>::empty(),
{
    let rows = rows_between(lines, lines.len() as int, at.y, at.y);
    lemma_rows_at(lines, lines.len() as int, at.y);
    if rows.len() == 1 {
        reveal_with_fuel(rows_text, 2);
        reveal_with_fuel(last_separator, 2);
        assert(rows_text(rows, 1, at, at) =~= Seq::<char>::empty());
    }
}

/// Something on screen that can hold a selection.
pub trait Selectable {
    fn selection_map(&self) -> SelectionMap;
}

#[derive(Clone, Debug, PartialEq, Eq)]
struct SelectionSurface<K> {
    key: K,
    map: SelectionMap,
}

#[derive(Clone, Debug, PartialEq, Eq)]
struct ActiveSelection<K> {
    key: K,
    selection: Selection,
}

/// The surfaces of the screen that can be selected from, and the selection on one of them.
#[derive(Clone, Debug, PartialEq, Eq)]
pub struct SelectionManager<K> {
    surfaces: Vec<SelectionSurface<K>>,
    active: Option<ActiveSelection<K>>,
    dragging: bool,
}

/// The surfaces and the selection, as plain values.
pub struct ManagerView<K> {
    pub surfaces: Seq<(K, SelectionMap)>,
    pub active: Option<(K, Selection)>,
    pub dragging: bool,
}

impl<K> ManagerView<K> {
    /// Nothing is selected any more.
    pub open spec fn cleared(self) -> ManagerView<K> {
        ManagerView { surfaces: self.surfaces, active: None, dragging: false }
    }
}

impl<K> View for SelectionManager<K> {
    type V = ManagerView<K>;

    open spec fn view(&self) -> ManagerView<K> {
        ManagerView {
            surfaces: self.spec_surfaces(),
            active: self.spec_active(),
            dragging: self.spec_dragging(),
        }
    }
}

impl<K> Default for SelectionManager<K> {
    fn default() -> (manager: Self)
        ensures
            manager.spec_surfaces() == Seq::<(K, SelectionMap)>::empty(),
            manager.spec_active() is None,
            !manager.spec_dragging(),
    {
        let manager = SelectionManager { surfaces: Vec::new(), active: None, dragging: false };
        assert(manager.spec_surfaces() =~= Seq::<(K, SelectionMap)>::empty());
        manager
    }
}

/// The place of the first surface with the given key.
pub open spec fn surface_at<K>(surfaces: Seq<(K, SelectionMap)>, key: K, i: int) -> bool {
    &&& 0 <= i < surfaces.len()
    &&& surfaces[i].0 == key
    &&& forall|j: int| 0 <= j < i ==> (#[trigger] surfaces[j]).0 != key
}

impl<K> SelectionManager<K> {
    /// The registered surfaces, in the order in which they were first registered.
    pub closed spec fn spec_surfaces(&self) -> Seq<(K, SelectionMap)> {
        Seq::new(
            self.surfaces@.len(),
            |i: int| (self.surfaces@[i].key, self.surfaces@[i].map),
        )
    }

    pub closed spec fn spec_active(&self) -> Option<(K, Selection)> {
        match self.active {
            Some(active) => Some((active.key, active.selection)),
            None => None,
        }
    }

    pub closed spec fn spec_dragging(&self) -> bool {
        self.dragging
    }

    /// The rows registered under a key.
    pub open spec fn spec_map_for(&self, key: K) -> Option<SelectionMap> {
        map_of(self.spec_surfaces(), key)
    }
}

/// The rows that a key has among surfaces.
pub open spec fn map_of<K>(surfaces: Seq<(K, SelectionMap)>, key: K) -> Option<SelectionMap> {
    if exists|i: int| surface_at(surfaces, key, i) {
        Some(surfaces[choose|i: int| surface_at(surfaces, key, i)].1)
    } else {
        None
    }
}

/// Surfaces with the rows of one of them replaced, or with one more where the key has none.
pub open spec fn with_surface<K>(
    surfaces: Seq<(K, SelectionMap)>,
    key: K,
    map: SelectionMap,
) -> Seq<(K, SelectionMap)> {
    if exists|i: int| surface_at(surfaces, key, i) {
        surfaces.update(choose|i: int| surface_at(surfaces, key, i), (key, map))
    } else {
        surfaces.push((key, map))
    }
}

impl<K> SelectionManager<K> {
    /// Whether a selection can start at a screen cell of a surface: the cell lies in its area and
    /// a row is shown there.
    pub open spec fn starts_in(map: SelectionMap, x: u16, y: u16) -> bool {
        map.spec_contains_point(x, y) && exists|i: int| map.at_screen_y(i, y)
    }

    /// Whether surface `s` is the first on which a selection can start at a screen cell, and its
    /// `i`-th row on screen is the one shown there.
    pub open spec fn starts_on(
        surfaces: Seq<(K, SelectionMap)>,
        s: int,
        i: int,
        x: u16,
        y: u16,
    ) -> bool {
        &&& 0 <= s < surfaces.len()
        &&& surfaces[s].1.spec_contains_point(x, y)
        &&& surfaces[s].1.at_screen_y(i, y)
        &&& forall|t: int| 0 <= t < s ==> !Self::starts_in((#[trigger] surfaces[t]).1, x, y)
    }

    pub open spec fn start_position(
        surfaces: Seq<(K, SelectionMap)>,
        s: int,
        i: int,
        x: u16,
    ) -> TextPosition {
        surfaces[s].1.spec_visible()[i].clamped_position(x)
    }

    pub open spec fn spec_selection_for(&self, key: K) -> Option<Selection> {
        match self.spec_active() {
            Some((active, selection)) => if active == key {
                Some(selection)
            } else {
                None
            },
            None => None,
        }
    }

    /// The rows of the surface that holds the selection.
    pub open spec fn spec_active_map(&self) -> SelectionMap {
        self.spec_map_for((self.spec_active()->0).0)->0
    }
}

proof fn lemma_surface_unique<K>(surfaces: Seq<(K, SelectionMap)>, key: K, i: int)
    requires
        surface_at(surfaces, key, i),
    ensures
        (choose|j: int| surface_at(surfaces, key, j)) == i,
{
    let j = choose|j: int| surface_at(surfaces, key, j);
    if j < i {
        assert(surfaces[j].0 != key);
    } else if i < j {
        assert(surfaces[i].0 != key);
    }
}

impl<K: Copy + Eq> SelectionManager<K> {
    fn surface_index(&self, key: &K) -> (found: Option<usize>)
        requires
            obeys_concrete_eq::<K>(),
        ensures
            match found {
                Some(i) => surface_at(self.spec_surfaces(), *key, i as int),
                None => forall|i: int|
                    0 <= i < self.spec_surfaces().len() ==> (
                    #[trigger] self.spec_surfaces()[i]).0 != *key,
            },
    {
        let mut i: usize = 0;
        proof {
            reveal(obeys_concrete_eq);
        }
        while i < self.surfaces.len()
            invariant
                i <= self.surfaces@.len(),
                obeys_concrete_eq::<K>(),
                forall|j: int| 0 <= j < i ==> (#[trigger] self.spec_surfaces()[j]).0 != *key,
            decreases self.surfaces@.len() - i,
        {
            proof {
                reveal(obeys_concrete_eq);
            }
            assert(self.spec_surfaces()[i as int].0 == self.surfaces@[i as int].key);
            if self.surfaces[i].key == *key {
                return Some(i);
            }
            i = i + 1;
        }
        None
    }

    /// Registers the rows of a surface, in place of those registered under the key before.
    pub fn register(&mut self, key: K, map: SelectionMap)
        requires
            obeys_concrete_eq::<K>(),
        ensures
            final(self).spec_map_for(key) == Some(map),
            forall|other: K|
                other != key ==> #[trigger] final(self).spec_map_for(other) == old(
                    self,
                ).spec_map_for(other),
            final(self).spec_surfaces() == with_surface(old(self).spec_surfaces(), key, map),
            final(self).spec_active() == old(self).spec_active(),
            final(self).spec_dragging() == old(self).spec_dragging(),
    {
        let ghost before = self.spec_surfaces();
        match self.surface_index(&key) {
            Some(i) => {
                self.surfaces.set(i, SelectionSurface { key, map });
                proof {
                    let after = self.spec_surfaces();
                    lemma_surface_unique(before, key, i as int);
                    assert(after =~= before.update(i as int, (key, map)));
                    assert(surface_at(after, key, i as int));
                    lemma_surface_unique(after, key, i as int);
                    assert forall|other: K| other != key implies #[trigger] self.spec_map_for(other)
                        == old(self).spec_map_for(other) by {
                        lemma_other_surface(before, after, key, other, i as int);
                    }
                }
            },
            None => {
                self.surfaces.push(SelectionSurface { key, map });
                proof {
                    let after = self.spec_surfaces();
                    let i = before.len() as int;
                    assert(after =~= before.push((key, map)));
                    assert(surface_at(after, key, i));
                    lemma_surface_unique(after, key, i);
                    assert forall|other: K| other != key implies #[trigger] self.spec_map_for(other)
                        == old(self).spec_map_for(other) by {
                        lemma_other_surface(before, after, key, other, i);
                    }
                }
            },
        }
    }

    pub fn map_for(&self, key: &K) -> (map: Option<&SelectionMap>)
        requires
            obeys_concrete_eq::<K>(),
        ensures
            map == match self.spec_map_for(*key) {
                Some(map) => Some(&map),
                None => None,
            },
    {
        match self.surface_index(key) {
            Some(i) => {
                proof {
                    lemma_surface_unique(self.spec_surfaces(), *key, i as int);
                }
                Some(&self.surfaces[i].map)
            },
            None => None,
        }
    }

    pub fn active_key(&self) -> (key: Option<&K>)
        ensures
            key == match self.spec_active() {
                Some((key, _)) => Some(&key),
                None => None,
            },
    {
        match &self.active {
            Some(active) => Some(&active.key),
            None => None,
        }
    }

    pub fn active_area(&self) -> (area: Option<Rect>)
        requires
            obeys_concrete_eq::<K>(),
        ensures
            area == match self.spec_active() {
                Some((key, _)) => match self.spec_map_for(key) {
                    Some(map) => Some(map.spec_area()),
                    None => None,
                },
                None => None,
            },
    {
        match &self.active {
            Some(active) => match self.map_for(&active.key) {
                Some(map) => Some(map.area()),
                None => None,
            },
            None => None,
        }
    }

    pub fn is_dragging(&self) -> (dragging: bool)
        ensures
            dragging == self.spec_dragging(),
    {
        self.dragging
    }

    pub fn selection_for(&self, key: &K) -> (selection: Option<Selection>)
        requires
            obeys_concrete_eq::<K>(),
        ensures
            selection == self.spec_selection_for(*key),
    {
        proof {
            reveal(obeys_concrete_eq);
        }
        match &self.active {
            Some(active) => if active.key == *key {
                Some(active.selection)
            } else {
                None
            },
            None => None,
        }
    }

    pub fn contains_point(&self, key: &K, x: u16, y: u16) -> (contains: bool)
        requires
            obeys_concrete_eq::<K>(),
        ensures
            contains == match self.spec_map_for(*key) {
                Some(map) => map.spec_contains_point(x, y),
                None => false,
            },
    {
        match self.map_for(key) {
            Some(map) => map.contains_point(x, y),
            None => false,
        }
    }

    /// Starts a selection on the first surface that has a row under the screen cell.
    pub fn start_at(&mut self, x: u16, y: u16) -> (key: Option<K>)
        ensures
            final(self).spec_surfaces() == old(self).spec_surfaces(),
            match key {
                Some(key) => exists|s: int, i: int|
                    {
                        &&& #[trigger] Self::starts_on(old(self).spec_surfaces(), s, i, x, y)
                        &&& key == old(self).spec_surfaces()[s].0
                        &&& final(self).spec_active() == Some(
                            (
                                key,
                                Selection {
                                    anchor: Self::start_position(
                                        old(self).spec_surfaces(),
                                        s,
                                        i,
                                        x,
                                    ),
                                    focus: Self::start_position(
                                        old(self).spec_surfaces(),
                                        s,
                                        i,
                                        x,
                                    ),
                                },
                            ),
                        )
                        &&& final(self).spec_dragging()
                    },
                None => {
                    &&& forall|t: int|
                        0 <= t < old(self).spec_surfaces().len() ==> !Self::starts_in(
                            (#[trigger] old(self).spec_surfaces()[t]).1,
                            x,
                            y,
                        )
                    &&& *final(self) == *old(self)
                },
            },
    {
        let mut s: usize = 0;
        let ghost surfaces = self.spec_surfaces();
        while s < self.surfaces.len()
            invariant
                s <= self.surfaces@.len(),
                *self == *old(self),
                surfaces == self.spec_surfaces(),
                forall|t: int| 0 <= t < s ==> !Self::starts_in((#[trigger] surfaces[t]).1, x, y),
            decreases self.surfaces@.len() - s,
        {
            assert(surfaces[s as int].1 == self.surfaces@[s as int].map);
            if self.surfaces[s].map.contains_point(x, y) {
                if let Some(point) = self.surfaces[s].map.position_at(x, y) {
                    let ghost map = surfaces[s as int].1;
                    let ghost i = choose|i: int|
                        #[trigger] map.at_screen_y(i, y) && point
                            == map.spec_visible()[i].clamped_position(x);
                    let key: K = self.surfaces[s].key;
                    self.active =
                    Some(ActiveSelection { key, selection: Selection::new(point, point) });
                    self.dragging = true;
                    assert(self.spec_surfaces() =~= surfaces);
                    assert(Self::starts_on(surfaces, s as int, i, x, y));
                    return Some(key);
                }
                assert forall|i: int| !surfaces[s as int].1.at_screen_y(i, y) by {
                    let map = surfaces[s as int].1;
                    if map.at_screen_y(i, y) {
                        assert(map.spec_visible()[i].screen_y != Some(y));
                    }
                }
            }
            s = s + 1;
        }
        None
    }

    /// Drags the selection to the position nearest to a screen cell of its surface. Reports
    /// whether there was a selection and a row to drag it to.
    pub fn update_focus_nearest(&mut self, x: u16, y: u16) -> (moved: bool)
        requires
            obeys_concrete_eq::<K>(),
        ensures
            final(self).spec_surfaces() == old(self).spec_surfaces(),
            final(self).spec_dragging() == old(self).spec_dragging(),
            moved == match old(self).spec_active() {
                Some((key, _)) => match old(self).spec_map_for(key) {
                    Some(map) => map.spec_visible().len() > 0,
                    None => false,
                },
                None => false,
            },
            !moved ==> *final(self) == *old(self),
            moved ==> exists|i: int|
                {
                    &&& #[trigger] old(self).spec_active_map().nearest_to(i, y)
                    &&& final(self).spec_active() == Some(
                        (
                            (old(self).spec_active()->0).0,
                            Selection {
                                anchor: (old(self).spec_active()->0).1.anchor,
                                focus: old(
                                    self,
                                ).spec_active_map().spec_visible()[i].clamped_position(x),
                            },
                        ),
                    )
                },
    {
        let (key, selection) = match &self.active {
            Some(active) => (active.key, active.selection),
            None => {
                return false;
            },
        };
        let nearest = match self.map_for(&key) {
            Some(map) => map.nearest_position(x, y),
            None => None,
        };
        match nearest {
            Some(focus) => {
                proof {
                    let map = self.spec_active_map();
                    let i = choose|i: int|
                        #[trigger] map.nearest_to(i, y) && focus
                            == map.spec_visible()[i].clamped_position(x);
                    assert(old(self).spec_active_map().nearest_to(i, y));
                }
                self.active =
                Some(ActiveSelection { key, selection: Selection::new(selection.anchor, focus) });
                assert(self.spec_surfaces() =~= old(self).spec_surfaces());
                true
            },
            None => false,
        }
    }

    /// Ends the drag and gives the surface and the text of the selection, which is then gone.
    pub fn finish_copy(&mut self) -> (copied: Option<(K, String)>)
        requires
            obeys_concrete_eq::<K>(),
        ensures
            final(self).spec_surfaces() == old(self).spec_surfaces(),
            !final(self).spec_dragging(),
            final(self).spec_active() is None,
            copied is Some <==> old(self).spec_active() is Some,
            copied matches Some((key, text)) ==> {
                let (active, selection) = old(self).spec_active()->0;
                &&& key == active
                &&& text@ == match old(self).spec_map_for(active) {
                    Some(map) => map.selected_text(selection),
                    None => Seq::empty(),
                }
            },
    {
        self.dragging = false;
        assert(self.spec_surfaces() =~= old(self).spec_surfaces());
        let (key, selection) = match &self.active {
            Some(active) => (active.key, active.selection),
            None => {
                return None;
            },
        };
        let text = match self.map_for(&key) {
            Some(map) => map.copy_selection(selection),
            None => String::new(),
        };
        self.active = None;
        assert(self.spec_surfaces() =~= old(self).spec_surfaces());
        Some((key, text))
    }

    pub fn clear(&mut self)
        ensures
            final(self).spec_surfaces() == old(self).spec_surfaces(),
            final(self).spec_active() is None,
            !final(self).spec_dragging(),
    {
        self.active = None;
        self.dragging = false;
        assert(self.spec_surfaces() =~= old(self).spec_surfaces());
    }
}

/// Changing or adding the surface of one key leaves those of the others as they are.
proof fn lemma_other_surface<K>(
    before: Seq<(K, SelectionMap)>,
    after: Seq<(K, SelectionMap)>,
    key: K,
    other: K,
    i: int,
)
    requires
        other != key,
        0 <= i < after.len(),
        after[i].0 == key,
        i < before.len() ==> after.len() == before.len() && before[i].0 == key,
        i >= before.len() ==> after.len() == before.len() + 1 && i == before.len(),
        forall|j: int| 0 <= j < before.len() && j != i ==> after[j] == before[j],
    ensures
        (exists|j: int| surface_at(before, other, j)) == (exists|j: int|
            surface_at(after, other, j)),
        (exists|j: int| surface_at(before, other, j)) ==> before[choose|j: int|
            surface_at(before, other, j)].1 == after[choose|j: int| surface_at(after, other, j)].1,
{
    assert forall|j: int| surface_at(before, other, j) == surface_at(after, other, j) by {
        if surface_at(before, other, j) {
            assert forall|k: int| 0 <= k < j implies (#[trigger] after[k]).0 != other by {
                if k != i {
                    assert(before[k].0 != other);
                }
            }
        }
        if surface_at(after, other, j) {
            assert forall|k: int| 0 <= k < j implies (#[trigger] before[k]).0 != other by {
                if k != i {
                    assert(after[k].0 != other);
                }
            }
        }
    }
    if exists|j: int| surface_at(before, other, j) {
        let j = choose|j: int| surface_at(before, other, j);
        assert(surface_at(after, other, j));
        lemma_surface_unique(after, other, j);
    }
    if exists|j: int| surface_at(after, other, j) {
        let j = choose|j: int| surface_at(after, other, j);
        assert(surface_at(before, other, j));
    }
}

/// A selection runs from the one of its ends that is read first to the other: the one in the higher
/// row, or further to the left in the same row.
pub proof fn law_selection_runs_in_reading_order(selection: Selection)
    ensures
        ({
            let start = selection.start();
            let end = selection.end();
            &&& (start == selection.anchor && end == selection.focus) || (start == selection.focus
                && end == selection.anchor)
            &&& start.y <= end.y
            &&& start.y == end.y ==> start.x <= end.x
        }),
{
}

/// The position in a row that is nearest to a column: no other column of its text is nearer.
pub proof fn law_positions_are_nearest(row: RowView, x: u16, other: u16)
    requires
        row.x + row.text_width <= u16::MAX,
        row.x <= other <= row.x + row.text_width,
    ensures
        ({
            let position = row.clamped_position(x);
            &&& position.y == row.y
            &&& row.x <= position.x <= row.x + row.text_width
            &&& distance(position.x, x) <= distance(other, x)
        }),
{
}

/// The texts of cells one after the other.
pub open spec fn texts_of(cells: Seq<CellView>) -> Seq<char>
    decreases cells.len(),
{
    if cells.len() == 0 {
        Seq::empty()
    } else {
        texts_of(cells.drop_last()) + cells.last().text
    }
}

/// Whether a column of a row lies in a selection: not before its start, and before its end.
pub open spec fn is_selected(
    row: RowView,
    column: int,
    start: TextPosition,
    end: TextPosition,
) -> bool {
    &&& 0 <= column < row.text_width
    &&& start.y < row.y || (start.y == row.y && start.x <= row.x + column)
    &&& row.y < end.y || (row.y == end.y && row.x + column < end.x)
}

/// Whether one of the columns of a cell lies in a selection.
pub open spec fn cell_is_selected(
    row: RowView,
    cell: CellView,
    start: TextPosition,
    end: TextPosition,
) -> bool {
    exists|column: int|
        cell.column <= column < cell.column + cell.width && #[trigger] is_selected(
            row,
            column,
            start,
            end,
        )
}

proof fn lemma_cell_selected(row: RowView, cell: CellView, start: TextPosition, end: TextPosition)
    requires
        start.y <= row.y <= end.y,
        row.x + row.text_width <= u16::MAX,
        cell.width > 0,
        cell.column + cell.width <= u16::MAX,
        row.selected_from(start) < row.selected_to(end),
    ensures
        cell.overlaps(row.selected_from(start), row.selected_to(end)) <==> cell_is_selected(
            row,
            cell,
            start,
            end,
        ),
{
    let from = row.selected_from(start);
    let to = row.selected_to(end);
    if cell.overlaps(from, to) {
        let column = if cell.column >= from {
            cell.column as int
        } else {
            from as int
        };
        assert(is_selected(row, column, start, end));
    }
}

proof fn lemma_cells_text_selected(
    row: RowView,
    cells: Seq<CellView>,
    start: TextPosition,
    end: TextPosition,
    count: int,
)
    requires
        start.y <= row.y <= end.y,
        row.x + row.text_width <= u16::MAX,
        0 <= count <= cells.len(),
        forall|i: int|
            0 <= i < cells.len() ==> (#[trigger] cells[i]).width > 0 && cells[i].column
                + cells[i].width <= u16::MAX,
        row.selected_from(start) < row.selected_to(end),
    ensures
        cells_text(cells, count, row.selected_from(start), row.selected_to(end)) == texts_of(
            cells.take(count).filter(|cell: CellView| cell_is_selected(row, cell, start, end)),
        ),
    decreases count,
{
    reveal(Seq::filter);
    let wanted = |cell: CellView| cell_is_selected(row, cell, start, end);
    if count > 0 {
        lemma_cells_text_selected(row, cells, start, end, count - 1);
        lemma_cell_selected(row, cells[count - 1], start, end);
        assert(cells.take(count).drop_last() =~= cells.take(count - 1));
        assert(cells.take(count).last() == cells[count - 1]);
        let before = cells.take(count - 1).filter(wanted);
        if wanted(cells[count - 1]) {
            assert(cells.take(count).filter(wanted) =~= before.push(cells[count - 1]));
            assert(before.push(cells[count - 1]).drop_last() =~= before);
        } else {
            assert(cells.take(count).filter(wanted) =~= before);
        }
    } else {
        assert(cells.take(0).filter(wanted) =~= Seq::<CellView>::empty());
    }
}

/// What is copied of a row are the texts of those of its cells that have a column in the selection, in
/// their order, and of no others.
pub proof fn law_selected_cells_are_copied(
    row: RowView,
    start: TextPosition,
    end: TextPosition,
    column: int,
)
    requires
        start.y <= row.y <= end.y,
        row.x + row.text_width <= u16::MAX,
        row.copy_text is None,
        forall|i: int|
            0 <= i < row.cells.len() ==> (#[trigger] row.cells[i]).width > 0 && row.cells[i].column
                + row.cells[i].width <= u16::MAX,
        is_selected(row, column, start, end),
    ensures
        row.copied(row.selected_from(start), row.selected_to(end)) == texts_of(
            row.cells.filter(|cell: CellView| cell_is_selected(row, cell, start, end)),
        ),
{
    let n = row.cells.len() as int;
    lemma_cells_text_selected(row, row.cells, start, end, n);
    assert(row.cells.take(n) =~= row.cells);
}

/// A row of which no column lies in the selection copies nothing, and one with a text of its own
/// copies that text whole where one does.
pub proof fn law_rows_copy_their_own_text(
    row: RowView,
    start: TextPosition,
    end: TextPosition,
    column: int,
)
    requires
        start.y <= row.y <= end.y,
        row.x + row.text_width <= u16::MAX,
    ensures
        (forall|c: int| !(#[trigger] is_selected(row, c, start, end))) ==> row.copied(
            row.selected_from(start),
            row.selected_to(end),
        ).len() == 0,
        is_selected(row, column, start, end) && row.copy_text is Some ==> row.copied(
            row.selected_from(start),
            row.selected_to(end),
        ) == row.copy_text->Some_0,
{
    let from = row.selected_from(start);
    let to = row.selected_to(end);
    if from < to {
        assert(is_selected(row, from as int, start, end));
    }
}

proof fn lemma_rows_text_prefix(
    rows: Seq<RowView>,
    row: RowView,
    count: int,
    start: TextPosition,
    end: TextPosition,
)
    requires
        0 <= count <= rows.len(),
    ensures
        rows_text(rows.push(row), count, start, end) == rows_text(rows, count, start, end),
        last_separator(rows.push(row), count) == last_separator(rows, count),
    decreases count,
{
    if count > 0 {
        lemma_rows_text_prefix(rows, row, count - 1, start, end);
        assert(rows.push(row)[count - 1] == rows[count - 1]);
        if count > 1 {
            assert(rows.push(row)[count - 2] == rows[count - 2]);
        }
    }
}

/// Rows are copied one after the other with what stands between them: a line break behind the last row
/// of a line, and within a line what was left out where it was wrapped. Rows that belong together,
/// as those of an image do, are copied once.
pub proof fn law_rows_are_copied_in_order(
    rows: Seq<RowView>,
    row: RowView,
    start: TextPosition,
    end: TextPosition,
)
    ensures
        ({
            let n = rows.len() as int;
            let before = rows_text(rows, n, start, end);
            let after = rows_text(rows.push(row), n + 1, start, end);
            let own = row.copied(row.selected_from(start), row.selected_to(end));
            let together = n > 0 && row.copy_group is Some && row.copy_group
                == rows.last().copy_group;
            &&& together ==> after == before
            &&& n == 0 ==> after == own
            &&& n > 0 && !together && (rows.last().copy_group is None) ==> match rows.last().separator {
                SeparatorView::HardLine => after == before + seq!['\n'] + own,
                SeparatorView::SoftWrap(gap) => after == before + gap + own,
                SeparatorView::Empty => after == before + own,
            }
        }),
{
    let n = rows.len() as int;
    let all = rows.push(row);
    lemma_rows_text_prefix(rows, row, n, start, end);
    let before = rows_text(rows, n, start, end);
    let own = row.copied(row.selected_from(start), row.selected_to(end));
    assert(all[n] == row);
    if n > 0 {
        assert(all[n - 1] == rows.last());
        assert(before + Seq::<char>::empty() + own =~= before + own);
    } else {
        assert(before + Seq::<char>::empty() + own =~= own);
    }
}

proof fn lemma_rows_between_filter(rows: Seq<RowView>, count: int, first: u32, last: u32)
    requires
        0 <= count <= rows.len(),
    ensures
        rows_between(rows, count, first, last) == rows.take(count).filter(
            |row: RowView| first <= row.y <= last,
        ),
    decreases count,
{
    reveal(Seq::filter);
    if count > 0 {
        lemma_rows_between_filter(rows, count - 1, first, last);
        assert(rows.take(count).drop_last() =~= rows.take(count - 1));
        assert(rows.take(count).last() == rows[count - 1]);
    }
}

/// A selection copies the rows from the row of its start to the row of its end, in their order, and no
/// others, whichever of its ends it was started at.
pub proof fn law_selection_copies_its_rows(
    lines: Seq<RowView>,
    start: TextPosition,
    end: TextPosition,
)
    requires
        start.y < end.y || (start.y == end.y && start.x <= end.x),
    ensures
        ({
            let rows = lines.filter(|row: RowView| start.y <= row.y <= end.y);
            let text = rows_text(rows, rows.len() as int, start, end);
            &&& selection_text(lines, Selection { anchor: start, focus: end }) == text
            &&& selection_text(lines, Selection { anchor: end, focus: start }) == text
        }),
{
    let n = lines.len() as int;
    assert(lines.take(n) =~= lines);
    lemma_rows_between_filter(lines, n, start.y, end.y);
}

proof fn lemma_visible_rows_filter(rows: Seq<RowView>, count: int)
    requires
        0 <= count <= rows.len(),
    ensures
        visible_rows(rows, count) == rows.take(count).filter(|row: RowView| row.screen_y is Some),
    decreases count,
{
    reveal(Seq::filter);
    if count > 0 {
        lemma_visible_rows_filter(rows, count - 1);
        assert(rows.take(count).drop_last() =~= rows.take(count - 1));
        assert(rows.take(count).last() == rows[count - 1]);
    }
}

/// The rows that can be pointed at are those that have a place on the screen, in their order.
pub proof fn law_rows_on_screen_are_visible(rows: Seq<RowView>)
    ensures
        visible_rows(rows, rows.len() as int) == rows.filter(|row: RowView| row.screen_y is Some),
{
    let n = rows.len() as int;
    assert(rows.take(n) =~= rows);
    lemma_visible_rows_filter(rows, n);
}

proof fn lemma_highlight_prefix(
    rows: Seq<RowView>,
    row: RowView,
    count: int,
    start: TextPosition,
    end: TextPosition,
)
    requires
        0 <= count <= rows.len(),
    ensures
        highlight_spans(rows.push(row), count, start, end) == highlight_spans(
            rows,
            count,
            start,
            end,
        ),
    decreases count,
{
    if count > 0 {
        lemma_highlight_prefix(rows, row, count - 1, start, end);
        assert(rows.push(row)[count - 1] == rows[count - 1]);
    }
}

/// Just those columns of a row are highlighted that lie in the selection, on the screen row of that
/// row: one run of them, behind the runs of the rows above it.
pub proof fn law_selected_columns_are_highlighted(
    rows: Seq<RowView>,
    row: RowView,
    start: TextPosition,
    end: TextPosition,
    column: int,
)
    requires
        row.x + row.text_width <= u16::MAX,
        row.screen_y is Some,
        0 <= column < row.text_width,
    ensures
        ({
            let before = highlight_spans(rows, rows.len() as int, start, end);
            let after = highlight_spans(rows.push(row), rows.len() as int + 1, start, end);
            &&& before.is_prefix_of(after)
            &&& after.len() <= before.len() + 1
            &&& is_selected(row, column, start, end) <==> after.len() > before.len()
                && after.last().y == row.screen_y->Some_0 && after.last().start_x <= row.x + column
                < after.last().end_x
        }),
{
    let n = rows.len() as int;
    lemma_highlight_prefix(rows, row, n, start, end);
    let before = highlight_spans(rows, n, start, end);
    let after = highlight_spans(rows.push(row), n + 1, start, end);
    assert(rows.push(row)[n] == row);
    assert(before =~= after.subrange(0, before.len() as int));
}

/// A screen cell leads to the row that is shown there, and where none is to one that is nearest: no row
/// on the screen is nearer.
pub proof fn law_cells_lead_to_the_row_shown_there(map: &SelectionMap, i: int, y: u16, j: int)
    requires
        map.nearest_to(i, y),
        0 <= j < map.spec_visible().len(),
        forall|k: int|
            0 <= k < map.spec_visible().len() ==> (#[trigger] map.spec_visible()[k]).screen_y is Some,
    ensures
        0 <= i < map.spec_visible().len(),
        map.spec_visible()[j].screen_y == Some(y) ==> map.spec_visible()[i].screen_y == Some(y),
        ({
            let chosen = map.spec_visible()[i].screen_y->Some_0 as int;
            let other = map.spec_visible()[j].screen_y->Some_0 as int;
            &&& chosen <= y ==> !(chosen < other <= y) && !(y <= other < y + (y - chosen))
            &&& chosen >= y ==> !(y <= other < chosen) && !(y - (chosen - y) < other <= y)
        }),
{
}

/// A selection starts at a cell of the area of a surface at which a row is shown, and nowhere else.
pub proof fn law_selections_start_on_rows<K>(map: SelectionMap, x: u16, y: u16, i: int)
    requires
        map.spec_area().x + map.spec_area().width <= u16::MAX,
        map.spec_area().y + map.spec_area().height <= u16::MAX,
    ensures
        SelectionManager::<K>::starts_in(map, x, y) ==> {
            &&& map.spec_area().x <= x < map.spec_area().x + map.spec_area().width
            &&& map.spec_area().y <= y < map.spec_area().y + map.spec_area().height
            &&& exists|k: int|
                0 <= k < map.spec_visible().len() && (#[trigger] map.spec_visible()[k]).screen_y
                    == Some(y)
        },
        map.at_screen_y(i, y) && map.spec_area().x <= x < map.spec_area().x + map.spec_area().width
            && map.spec_area().y <= y < map.spec_area().y + map.spec_area().height
            ==> SelectionManager::<K>::starts_in(map, x, y),
{
    if SelectionManager::<K>::starts_in(map, x, y) {
        let k = choose|k: int| map.at_screen_y(k, y);
        assert(map.spec_visible()[k].screen_y == Some(y));
    }
}

/// To copy all rows is to copy all of their columns.
pub proof fn law_copying_all_copies_every_column(map: &SelectionMap, k: int, column: int)
    requires
        rows_ascend(map.spec_lines()),
        0 <= k < map.spec_lines().len(),
        0 <= column < map.spec_lines()[k].text_width,
        map.spec_lines().last().x + map.spec_lines().last().text_width <= u16::MAX,
    ensures
        is_selected(map.spec_lines()[k], column, map.first_position(), map.last_position()),
{
    let lines = map.spec_lines();
    if k > 0 {
        assert(lines[0].y < lines[k].y);
    }
    if k < lines.len() - 1 {
        assert(lines[k].y < lines[lines.len() - 1].y);
    }
}

} // verus!
