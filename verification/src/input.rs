//! A multi-line text editor: its text and cursor, how the text wraps into rows, the box that
//! shows a window of those rows, and selection within it.

use crate::chars;
use crate::geometry::{Padding, Position, Rect};
use crate::scroll_view;
use crate::scroll_view::{max_scroll_from_bottom, ScrollViewState, VirtualViewport};
use crate::selection;
use crate::selection::{
    CellView, CopySeparator, HighlightSpan, RowView, Selection, SelectionCell, SelectionMap,
    SelectionRow, SelectionRowContent, TextPosition,
};
use crate::text;
use crate::text::display_width;
use vstd::prelude::*;

verus! {

pub const MAX_INPUT_ROWS: usize = 14;

/// One row of wrapped text.
pub struct VisualRow {
    /// The characters of the row, without the line break that ends it.
    pub text: Seq<char>,
    /// The column after its last character.
    pub col: int,
    /// Whether a line break ends it.
    pub hard: bool,
    /// Its characters in the columns they take.
    pub cells: Seq<CellView>,
}

/// The column after the last character of `row`, where the column before it is `col`: an ASCII
/// character takes one column; after any other character the row is measured anew.
pub open spec fn col_after(row: Seq<char>, col: int) -> int {
    if (row.last() as u32) < 0x80 {
        if col < usize::MAX {
            col + 1
        } else {
            usize::MAX as int
        }
    } else {
        text::width_of(row) as int
    }
}

pub open spec fn clip_u16(value: int) -> u16 {
    if value > u16::MAX {
        u16::MAX
    } else {
        value as u16
    }
}

/// The cells of a row after one more character, which moves the column from `col` to `next`. A
/// character without a width joins the cell before it.
pub open spec fn with_cell(cells: Seq<CellView>, c: char, col: int, next: int) -> Seq<CellView> {
    if next > col {
        cells.push(
            CellView { column: clip_u16(col), width: clip_u16(next - col), text: seq![c] },
        )
    } else if cells.len() > 0 {
        cells.update(
            cells.len() - 1,
            CellView { text: cells.last().text.push(c), ..cells.last() },
        )
    } else {
        cells
    }
}

pub open spec fn empty_row() -> VisualRow {
    VisualRow { text: Seq::empty(), col: 0, hard: false, cells: Seq::empty() }
}

/// The row with one more character.
pub open spec fn extended(row: VisualRow, c: char) -> VisualRow {
    let col = col_after(row.text.push(c), row.col);
    VisualRow {
        text: row.text.push(c),
        col,
        hard: row.hard,
        cells: with_cell(row.cells, c, row.col, col),
    }
}

/// Whether character `c` does not fit on `row` any more.
pub open spec fn overflows(row: VisualRow, c: char, width: int) -> bool {
    row.col > 0 && col_after(row.text.push(c), row.col) > width
}

/// The rows of the first `k` characters of a text, wrapped at `width` columns. A line break ends a
/// row; so does a character that does not fit, which then starts the next row.
pub open spec fn layout(text: Seq<char>, width: int, k: int) -> Seq<VisualRow>
    decreases k,
{
    if k <= 0 {
        seq![empty_row()]
    } else {
        let rows = layout(text, width, k - 1);
        let c = text[k - 1];
        if c == '\n' {
            rows.update(rows.len() - 1, VisualRow { hard: true, ..rows.last() }).push(empty_row())
        } else if overflows(rows.last(), c, width) {
            rows.push(extended(empty_row(), c))
        } else {
            rows.update(rows.len() - 1, extended(rows.last(), c))
        }
    }
}

/// A width of no columns counts as one column.
pub open spec fn wrap_width(width: usize) -> int {
    if width == 0 {
        1
    } else {
        width as int
    }
}

/// The rows of a text, wrapped at `width` columns.
pub open spec fn rows(text: Seq<char>, width: usize) -> Seq<VisualRow> {
    layout(text, wrap_width(width), text.len() as int)
}

/// There is always a row, and at most one more row than characters.
pub proof fn lemma_layout_len(text: Seq<char>, width: int, k: int)
    ensures
        1 <= layout(text, width, k).len(),
        k >= 0 ==> layout(text, width, k).len() <= k + 1,
    decreases k,
{
    if k > 0 {
        lemma_layout_len(text, width, k - 1);
    }
}

/// More text never changes rows that have ended.
pub proof fn lemma_layout_stable(text: Seq<char>, width: int, k: int, n: int)
    requires
        0 <= k <= n,
    ensures
        layout(text, width, k).len() <= layout(text, width, n).len(),
        forall|i: int|
            0 <= i < layout(text, width, k).len() - 1 ==> (#[trigger] layout(text, width, n)[i])
                == layout(text, width, k)[i],
    decreases n - k,
{
    lemma_layout_len(text, width, n);
    if k < n {
        lemma_layout_len(text, width, n - 1);
        lemma_layout_stable(text, width, k, n - 1);
    }
}

/// The first `count` rows put back together, with a line break after each row that one ended.
pub open spec fn rejoined(rows: Seq<VisualRow>, count: int) -> Seq<char>
    decreases count,
{
    if count <= 0 {
        Seq::empty()
    } else {
        let before = rejoined(rows, count - 1) + rows[count - 1].text;
        if rows[count - 1].hard {
            before.push('\n')
        } else {
            before
        }
    }
}

proof fn lemma_rejoined_prefix(a: Seq<VisualRow>, b: Seq<VisualRow>, count: int)
    requires
        count <= a.len(),
        count <= b.len(),
        forall|i: int| 0 <= i < count ==> #[trigger] a[i] == b[i],
    ensures
        rejoined(a, count) == rejoined(b, count),
    decreases count,
{
    if count > 0 {
        lemma_rejoined_prefix(a, b, count - 1);
    }
}

/// Wrapping loses nothing: the rows put back together are the text.
pub proof fn law_rows_rejoin_to_text(text: Seq<char>, width: usize)
    ensures
        rejoined(rows(text, width), rows(text, width).len() as int) == text,
{
    lemma_layout_rejoins(text, wrap_width(width), text.len() as int);
    assert(text.take(text.len() as int) =~= text);
}

proof fn lemma_layout_rejoins(text: Seq<char>, width: int, k: int)
    requires
        0 <= k <= text.len(),
    ensures
        rejoined(layout(text, width, k), layout(text, width, k).len() as int) == text.take(k),
        !layout(text, width, k).last().hard,
    decreases k,
{
    let now = layout(text, width, k);
    let n = now.len() as int;
    if k == 0 {
        reveal_with_fuel(rejoined, 2);
        assert(rejoined(now, n) =~= text.take(0));
    } else {
        lemma_layout_rejoins(text, width, k - 1);
        lemma_layout_len(text, width, k - 1);
        let before = layout(text, width, k - 1);
        let m = before.len() as int;
        let c = text[k - 1];
        assert(text.take(k) =~= text.take(k - 1).push(c));
        lemma_rejoined_prefix(now, before, m - 1);
        if c == '\n' {
            assert(rejoined(now, m) =~= text.take(k));
            assert(rejoined(now, n) =~= text.take(k));
        } else if overflows(before.last(), c, width) {
            lemma_rejoined_prefix(now, before, m);
            assert(rejoined(now, n) =~= text.take(k));
        } else {
            assert(rejoined(now, n) =~= text.take(k));
        }
    }
}

/// The column after the first `n` characters of a row.
pub open spec fn row_col(row: Seq<char>, n: int) -> int
    decreases n,
{
    if n <= 0 {
        0
    } else {
        col_after(row.take(n), row_col(row, n - 1))
    }
}

proof fn lemma_row_col_push(row: Seq<char>, c: char, n: int)
    requires
        0 <= n <= row.len(),
    ensures
        row_col(row.push(c), n) == row_col(row, n),
    decreases n,
{
    if n > 0 {
        lemma_row_col_push(row, c, n - 1);
        assert(row.push(c).take(n) =~= row.take(n));
    }
}

/// Rows hold no line breaks and end within the width; a row that does not has no column before its
/// last character, so it could not have been broken earlier.
pub proof fn law_rows_fit(text: Seq<char>, width: usize, i: int)
    requires
        0 <= i < rows(text, width).len(),
    ensures
        ({
            let row = rows(text, width)[i];
            &&& !row.text.contains('\n')
            &&& row.col == row_col(row.text, row.text.len() as int)
            &&& row.col <= wrap_width(width) || row_col(row.text, row.text.len() - 1) <= 0
        }),
{
    lemma_layout_fits(text, wrap_width(width), text.len() as int);
}

proof fn lemma_layout_fits(text: Seq<char>, width: int, k: int)
    requires
        0 <= k <= text.len(),
        width >= 1,
    ensures
        forall|i: int|
            0 <= i < layout(text, width, k).len() ==> {
                let row = #[trigger] layout(text, width, k)[i];
                &&& !row.text.contains('\n')
                &&& row.col == row_col(row.text, row.text.len() as int)
                &&& row.col <= width || row_col(row.text, row.text.len() - 1) <= 0
            },
    decreases k,
{
    if k > 0 {
        lemma_layout_fits(text, width, k - 1);
        lemma_layout_len(text, width, k - 1);
        let before = layout(text, width, k - 1);
        let c = text[k - 1];
        let last = before.last();
        assert(before[before.len() - 1] == last);
        let now = layout(text, width, k);
        if c == '\n' {
            assert(now[before.len() - 1].text == last.text);
        } else if overflows(last, c, width) {
            let row = extended(empty_row(), c);
            assert(row.text =~= seq![c]);
            assert(row.text.take(1) =~= row.text);
            reveal_with_fuel(row_col, 2);
        } else {
            let row = extended(last, c);
            let n = last.text.len() as int;
            assert(!row.text.contains('\n')) by {
                if row.text.contains('\n') {
                    let j = choose|j: int| 0 <= j < row.text.len() && row.text[j] == '\n';
                    assert(last.text[j] == '\n');
                    assert(last.text.contains('\n'));
                }
            }
            lemma_row_col_push(last.text, c, n);
            assert(row.text.take(n + 1) =~= row.text);
        }
    }
}

/// Whether a carriage return of inserted text is dropped: it ends a line.
pub open spec fn is_line_end_return(text: Seq<char>, i: int) -> bool {
    text[i] == '\r' && (i + 1 == text.len() || text[i + 1] == '\n')
}

/// The first `k` characters of inserted text, without the carriage returns that end lines.
pub open spec fn normalized(text: Seq<char>, k: int) -> Seq<char>
    decreases k,
{
    if k <= 0 {
        Seq::empty()
    } else if is_line_end_return(text, k - 1) {
        normalized(text, k - 1)
    } else {
        normalized(text, k - 1).push(text[k - 1])
    }
}

fn normalize_input_insert(text: &str) -> (inserted: String)
    ensures
        inserted@ == normalized(text@, text@.len() as int),
{
    let characters = chars::chars_of(text);
    let mut inserted: String = String::new();
    let mut i: usize = 0;
    while i < characters.len()
        invariant
            i <= characters@.len(),
            characters@ == text@,
            inserted@ == normalized(text@, i as int),
        decreases characters@.len() - i,
    {
        let c: char = characters[i];
        let dropped = c == '\r' && (i == characters.len() - 1 || characters[i + 1] == '\n');
        if !dropped {
            inserted.push(c);
        }
        i = i + 1;
    }
    inserted
}

/// Whether a text is empty but for white space.
pub open spec fn is_blank(text: Seq<char>) -> bool {
    forall|i: int| 0 <= i < text.len() ==> chars::is_white_space(#[trigger] text[i])
}

pub(crate) fn blank(text: &str) -> (blank: bool)
    ensures
        blank == is_blank(text@),
{
    let characters = chars::chars_of(text);
    let mut i: usize = 0;
    while i < characters.len()
        invariant
            i <= characters@.len(),
            characters@ == text@,
            forall|j: int| 0 <= j < i ==> chars::is_white_space(#[trigger] text@[j]),
        decreases characters@.len() - i,
    {
        if !characters[i].is_whitespace() {
            assert(!chars::is_white_space(text@[i as int]));
            return false;
        }
        i = i + 1;
    }
    true
}

/// The column after `c` on a row that is `row` with it.
fn next_display_col(row: &str, c: char, col: usize) -> (next: usize)
    requires
        row@.len() > 0,
        row@.last() == c,
    ensures
        next == col_after(row@, col as int),
{
    if (c as u32) < 0x80 {
        col.saturating_add(1)
    } else {
        display_width(row)
    }
}

/// A place between characters: its byte offset, and its row and column on screen.
#[derive(Debug, Clone, Copy, PartialEq, Eq, Structural)]
pub struct VisualPosition {
    pub byte: usize,
    pub row: usize,
    pub col: usize,
}

/// The place after the first `k` characters, at the end of its row.
pub open spec fn place(text: Seq<char>, width: int, k: int) -> VisualPosition {
    VisualPosition {
        byte: chars::byte_len(text.take(k)) as usize,
        row: (layout(text, width, k).len() - 1) as usize,
        col: layout(text, width, k).last().col as usize,
    }
}

/// Whether character `k` starts a row because it did not fit on the row before.
pub open spec fn wraps_before(text: Seq<char>, width: int, k: int) -> bool {
    0 <= k < text.len() && text[k] != '\n' && overflows(
        layout(text, width, k).last(),
        text[k],
        width,
    )
}

/// The place before character `k` at the start of the row that wrapping gives it.
pub open spec fn wrapped_place(text: Seq<char>, width: int, k: int) -> VisualPosition {
    VisualPosition {
        byte: chars::byte_len(text.take(k)) as usize,
        row: layout(text, width, k).len() as usize,
        col: 0,
    }
}

/// All places of the first `k` characters, in reading order. Where a row wraps, the end of the row
/// and the start of the next one are two places of one byte offset.
pub open spec fn places(text: Seq<char>, width: int, k: int) -> Seq<VisualPosition>
    decreases k,
{
    if k <= 0 {
        seq![place(text, width, 0)]
    } else if wraps_before(text, width, k - 1) {
        places(text, width, k - 1).push(wrapped_place(text, width, k - 1)).push(
            place(text, width, k),
        )
    } else {
        places(text, width, k - 1).push(place(text, width, k))
    }
}

proof fn lemma_places_len(text: Seq<char>, width: int, k: int)
    requires
        0 <= k,
    ensures
        layout(text, width, k).len() <= places(text, width, k).len(),
        1 <= places(text, width, k).len(),
        places(text, width, k).last() == place(text, width, k),
    decreases k,
{
    if k > 0 {
        lemma_places_len(text, width, k - 1);
        lemma_layout_len(text, width, k - 1);
    }
}

proof fn lemma_places_before(text: Seq<char>, width: int, k: int)
    requires
        0 <= k <= text.len(),
        chars::byte_len(text) <= usize::MAX,
    ensures
        forall|i: int|
            0 <= i < places(text, width, k).len() - 1 ==> (#[trigger] places(
                text,
                width,
                k,
            )[i]).byte < chars::byte_len(text.take(k)),
        forall|i: int|
            0 <= i < places(text, width, k).len() ==> chars::is_offset(
                text,
                (#[trigger] places(text, width, k)[i]).byte as int,
            ),
    decreases k,
{
    lemma_offset_bound(text, k);
    chars::lemma_index_of(text, k);
    if k > 0 {
        lemma_offset_bound(text, k - 1);
        chars::lemma_index_of(text, k - 1);
        lemma_places_before(text, width, k - 1);
        lemma_places_len(text, width, k - 1);
        chars::lemma_byte_len_take_increasing(text, k - 1, k);
        let before = places(text, width, k - 1);
        assert forall|i: int| 0 <= i < before.len() implies (#[trigger] before[i]).byte
            <= chars::byte_len(text.take(k - 1)) by {
            if i == before.len() - 1 {
                assert(before[i] == place(text, width, k - 1));
            }
        }
        let now = places(text, width, k);
        assert forall|i: int| 0 <= i < now.len() - 1 implies (#[trigger] now[i]).byte
            < chars::byte_len(text.take(k)) by {
            if i < before.len() {
                assert(now[i] == before[i]);
            }
        }
        assert forall|i: int| 0 <= i < now.len() implies chars::is_offset(
            text,
            (#[trigger] now[i]).byte as int,
        ) by {
            if i < before.len() {
                assert(now[i] == before[i]);
            }
        }
    }
}

proof fn lemma_offset_bound(text: Seq<char>, k: int)
    requires
        0 <= k <= text.len(),
    ensures
        chars::byte_len(text.take(k)) <= chars::byte_len(text),
        text.len() <= chars::byte_len(text),
{
    chars::lemma_byte_len_take_increasing(text, k, text.len() as int);
    chars::lemma_byte_len_take_increasing(text, 0, text.len() as int);
    assert(text.take(text.len() as int) =~= text);
}

/// Later places lie beyond the offset of `k`, but for the one where the row wraps before `k`.
proof fn lemma_places_after(text: Seq<char>, width: int, k: int, n: int)
    requires
        0 <= k <= n <= text.len(),
        chars::byte_len(text) <= usize::MAX,
    ensures
        places(text, width, k).len() <= places(text, width, n).len(),
        forall|i: int|
            0 <= i < places(text, width, k).len() ==> (#[trigger] places(text, width, n)[i])
                == places(text, width, k)[i],
        k < n && wraps_before(text, width, k) ==> {
            &&& places(text, width, k).len() < places(text, width, n).len()
            &&& places(text, width, n)[places(text, width, k).len() as int] == wrapped_place(
                text,
                width,
                k,
            )
        },
        forall|i: int|
            places(text, width, k).len() <= i < places(text, width, n).len() && !(wraps_before(
                text,
                width,
                k,
            ) && i == places(text, width, k).len()) ==> (#[trigger] places(text, width, n)[i]).byte
                > chars::byte_len(text.take(k)),
    decreases n - k,
{
    if k < n {
        lemma_places_after(text, width, k, n - 1);
        lemma_offset_bound(text, n);
        lemma_offset_bound(text, n - 1);
        chars::lemma_byte_len_take_increasing(text, k, n - 1);
        chars::lemma_byte_len_take_increasing(text, n - 1, n);
        lemma_places_len(text, width, n - 1);
        let before = places(text, width, n - 1);
        let now = places(text, width, n);
        assert forall|i: int| 0 <= i < before.len() implies (#[trigger] now[i]) == before[i] by {}
    }
}

#[derive(Debug, Clone, Copy, PartialEq, Eq, Structural)]
struct CursorVisualHint {
    width: usize,
    row: usize,
}

impl CursorVisualHint {
    fn new(width: usize, row: usize) -> (hint: CursorVisualHint)
        ensures
            hint.width == wrap_width(width),
            hint.row == row,
    {
        CursorVisualHint { width: width.max(1), row }
    }
}

/// Where the cursor after the first `k` characters is shown: at the end of its row, unless the
/// cursor was moved to the row that starts there by wrapping.
pub open spec fn cursor_place(
    text: Seq<char>,
    width: int,
    k: int,
    hint: Option<(int, int)>,
) -> VisualPosition {
    if wraps_before(text, width, k) && hint == Some(
        (width, layout(text, width, k).len() as int),
    ) {
        wrapped_place(text, width, k)
    } else {
        place(text, width, k)
    }
}

/// The places in a row among the first `count` places.
pub open spec fn places_in_row(places: Seq<VisualPosition>, count: int, row: int) -> Seq<
    VisualPosition,
>
    decreases count,
{
    if count <= 0 {
        Seq::empty()
    } else if places[count - 1].row == row {
        places_in_row(places, count - 1, row).push(places[count - 1])
    } else {
        places_in_row(places, count - 1, row)
    }
}

/// The last place among the first `count` whose column is at most `col`.
pub open spec fn last_up_to_col(places: Seq<VisualPosition>, count: int, col: int) -> Option<
    VisualPosition,
>
    decreases count,
{
    if count <= 0 {
        None
    } else if places[count - 1].col <= col {
        Some(places[count - 1])
    } else {
        last_up_to_col(places, count - 1, col)
    }
}

/// Where a cursor that enters `row` at column `col` lands: at the last place of the row that is
/// not beyond that column, else at its first place. The end of a wrapped row belongs to the next
/// row.
pub open spec fn landing(places: Seq<VisualPosition>, row: int, col: int) -> VisualPosition {
    let in_row = places_in_row(places, places.len() as int, row);
    let in_next = places_in_row(places, places.len() as int, row + 1);
    let candidates = if in_row.len() > 1 && in_next.len() > 0 && in_row.last().byte
        == in_next[0].byte {
        in_row.drop_last()
    } else {
        in_row
    };
    match last_up_to_col(candidates, candidates.len() as int, col) {
        Some(place) => place,
        None => if candidates.len() > 0 {
            candidates[0]
        } else {
            VisualPosition { byte: 0, row: 0, col: 0 }
        },
    }
}

fn collect_row(positions: &Vec<VisualPosition>, row: usize) -> (in_row: Vec<VisualPosition>)
    ensures
        in_row@ == places_in_row(positions@, positions@.len() as int, row as int),
{
    let mut in_row: Vec<VisualPosition> = Vec::new();
    let mut i: usize = 0;
    while i < positions.len()
        invariant
            i <= positions@.len(),
            in_row@ == places_in_row(positions@, i as int, row as int),
        decreases positions@.len() - i,
    {
        if positions[i].row == row {
            in_row.push(positions[i]);
        }
        i = i + 1;
    }
    in_row
}

fn visual_position_for_row_col(positions: &Vec<VisualPosition>, row: usize, col: usize) -> (place:
    VisualPosition)
    requires
        row < usize::MAX,
    ensures
        place == landing(positions@, row as int, col as int),
{
    let mut in_row = collect_row(positions, row);
    let in_next = collect_row(positions, row + 1);
    if in_row.len() > 1 && in_next.len() > 0 && in_row[in_row.len() - 1].byte == in_next[0].byte {
        let ghost all = in_row@;
        in_row.pop();
        assert(in_row@ =~= all.drop_last());
    }
    let mut i: usize = in_row.len();
    while i > 0
        invariant
            i <= in_row@.len(),
            landing(positions@, row as int, col as int) == match last_up_to_col(
                in_row@,
                in_row@.len() as int,
                col as int,
            ) {
                Some(place) => place,
                None => if in_row@.len() > 0 {
                    in_row@[0]
                } else {
                    VisualPosition { byte: 0, row: 0, col: 0 }
                },
            },
            last_up_to_col(in_row@, in_row@.len() as int, col as int) == last_up_to_col(
                in_row@,
                i as int,
                col as int,
            ),
        decreases i,
    {
        if in_row[i - 1].col <= col {
            return in_row[i - 1];
        }
        i = i - 1;
    }
    if in_row.len() > 0 {
        in_row[0]
    } else {
        VisualPosition { byte: 0, row: 0, col: 0 }
    }
}

proof fn lemma_landing_offset(text: Seq<char>, places: Seq<VisualPosition>, row: int, col: int)
    requires
        forall|i: int|
            0 <= i < places.len() ==> chars::is_offset(text, (#[trigger] places[i]).byte as int),
    ensures
        chars::is_offset(text, landing(places, row, col).byte as int),
{
    chars::lemma_index_of(text, 0);
    assert(text.take(0) =~= Seq::<char>::empty());
    let in_row = places_in_row(places, places.len() as int, row);
    lemma_places_in_row_offsets(text, places, places.len() as int, row);
    lemma_last_up_to_col_offset(text, in_row, in_row.len() as int, col);
    if in_row.len() > 0 {
        lemma_last_up_to_col_offset(text, in_row.drop_last(), in_row.len() - 1, col);
    }
}

proof fn lemma_places_in_row_offsets(
    text: Seq<char>,
    places: Seq<VisualPosition>,
    count: int,
    row: int,
)
    requires
        count <= places.len(),
        forall|i: int|
            0 <= i < places.len() ==> chars::is_offset(text, (#[trigger] places[i]).byte as int),
    ensures
        forall|i: int|
            0 <= i < places_in_row(places, count, row).len() ==> chars::is_offset(
                text,
                (#[trigger] places_in_row(places, count, row)[i]).byte as int,
            ),
    decreases count,
{
    if count > 0 {
        lemma_places_in_row_offsets(text, places, count - 1, row);
        let before = places_in_row(places, count - 1, row);
        let now = places_in_row(places, count, row);
        assert forall|i: int| 0 <= i < now.len() implies chars::is_offset(
            text,
            (#[trigger] now[i]).byte as int,
        ) by {
            if i < before.len() {
                assert(now[i] == before[i]);
            } else {
                assert(now[i] == places[count - 1]);
            }
        }
    }
}

proof fn lemma_last_up_to_col_offset(
    text: Seq<char>,
    places: Seq<VisualPosition>,
    count: int,
    col: int,
)
    requires
        count <= places.len(),
        forall|i: int|
            0 <= i < places.len() ==> chars::is_offset(text, (#[trigger] places[i]).byte as int),
    ensures
        last_up_to_col(places, count, col) matches Some(place) ==> chars::is_offset(
            text,
            place.byte as int,
        ),
    decreases count,
{
    if count > 0 {
        lemma_last_up_to_col_offset(text, places, count - 1, col);
    }
}

/// A text being edited, with a cursor between two of its characters.
#[derive(Debug)]
pub struct InputEditor {
    text: String,
    cursor_byte: usize,
    scroll_from_bottom: u32,
    cursor_visual_hint: Option<CursorVisualHint>,
}

impl Clone for InputEditor {
    fn clone(&self) -> (editor: InputEditor)
        ensures
            editor == *self,
    {
        proof {
            use_type_invariant(self);
        }
        InputEditor {
            text: self.text.clone(),
            cursor_byte: self.cursor_byte,
            scroll_from_bottom: self.scroll_from_bottom,
            cursor_visual_hint: self.cursor_visual_hint,
        }
    }
}

impl Default for InputEditor {
    fn default() -> (editor: InputEditor)
        ensures
            editor.spec_text() == Seq::<char>::empty(),
            editor.spec_cursor() == 0,
            editor.spec_scroll() == 0,
            editor.spec_hint() is None,
    {
        let text: String = String::new();
        proof {
            assert(text@.take(0) =~= Seq::<char>::empty());
            chars::lemma_index_of(text@, 0);
        }
        InputEditor { text, cursor_byte: 0, scroll_from_bottom: 0, cursor_visual_hint: None }
    }
}

/// An editor as plain values: its text, the number of characters before the cursor, how far its
/// window is scrolled, and the wrap width and the row that the cursor was last moved to.
pub struct EditorView {
    pub text: Seq<char>,
    pub cursor: int,
    pub scroll: u32,
    pub hint: Option<(int, int)>,
}

/// An editor without text.
pub open spec fn empty_editor() -> EditorView {
    EditorView { text: Seq::empty(), cursor: 0, scroll: 0, hint: None }
}

impl EditorView {
    /// The editor after a character was typed.
    pub open spec fn typed(self, ch: char) -> EditorView {
        EditorView {
            text: self.text.insert(
                self.cursor,
                if ch == '\r' {
                    '\n'
                } else {
                    ch
                },
            ),
            cursor: self.cursor + 1,
            scroll: 0,
            hint: None,
        }
    }

    /// The editor after the first `count` characters of a text were typed.
    pub open spec fn typed_text(self, text: Seq<char>, count: int) -> EditorView
        decreases count,
    {
        if count <= 0 {
            self
        } else {
            self.typed_text(text, count - 1).typed(text[count - 1])
        }
    }

    /// The editor after the character before the cursor was removed.
    pub open spec fn backspaced(self) -> EditorView {
        if self.cursor == 0 {
            self
        } else {
            EditorView {
                text: self.text.remove(self.cursor - 1),
                cursor: self.cursor - 1,
                scroll: 0,
                hint: None,
            }
        }
    }

    pub open spec fn moved_left(self) -> EditorView {
        EditorView {
            cursor: if self.cursor > 0 {
                self.cursor - 1
            } else {
                0
            },
            hint: None,
            ..self
        }
    }

    pub open spec fn moved_right(self) -> EditorView {
        EditorView {
            cursor: if self.cursor < self.text.len() {
                self.cursor + 1
            } else {
                self.cursor
            },
            hint: None,
            ..self
        }
    }

    /// The editor after a move by `delta` rows: the cursor lands in the row that it leads to, near
    /// its old column. A move that leads nowhere changes nothing.
    pub open spec fn moved_rows(self, width: usize, delta: int) -> EditorView {
        let wrap = wrap_width(width);
        let from = cursor_place(self.text, wrap, self.cursor, self.hint);
        let last = rows(self.text, width).len() - 1;
        let wanted = from.row + delta;
        let row = if wanted < 0 {
            0
        } else if wanted > last {
            last
        } else {
            wanted
        };
        if row == from.row {
            self
        } else {
            let target = landing(
                places(self.text, wrap, self.text.len() as int),
                row,
                from.col as int,
            );
            EditorView {
                cursor: chars::index_of(self.text, target.byte as int),
                hint: Some((wrap, target.row as int)),
                ..self
            }
        }
    }
}

impl View for InputEditor {
    type V = EditorView;

    open spec fn view(&self) -> EditorView {
        EditorView {
            text: self.spec_text(),
            cursor: self.spec_cursor(),
            scroll: self.spec_scroll(),
            hint: self.spec_hint(),
        }
    }
}

impl InputEditor {
    pub closed spec fn spec_text(&self) -> Seq<char> {
        self.text@
    }

    /// The number of characters before the cursor.
    pub closed spec fn spec_cursor(&self) -> int {
        chars::index_of(self.text@, self.cursor_byte as int)
    }

    pub closed spec fn spec_cursor_byte(&self) -> usize {
        self.cursor_byte
    }

    /// How many rows the shown window lies above the last row.
    pub closed spec fn spec_scroll(&self) -> u32 {
        self.scroll_from_bottom
    }

    /// The wrap width and the row that the cursor was last moved to.
    pub closed spec fn spec_hint(&self) -> Option<(int, int)> {
        match self.cursor_visual_hint {
            Some(hint) => Some((hint.width as int, hint.row as int)),
            None => None,
        }
    }

    /// The cursor is between two characters, or at an end of the text.
    #[verifier::type_invariant]
    closed spec fn inv(&self) -> bool {
        chars::is_offset(self.text@, self.cursor_byte as int)
    }

    pub fn text(&self) -> (text: &str)
        ensures
            text@ == self.spec_text(),
    {
        self.text.as_str()
    }

    /// The cursor as a byte offset into the text.
    pub fn cursor(&self) -> (byte: usize)
        ensures
            byte == self.spec_cursor_byte(),
            byte == chars::byte_len(self.spec_text().take(self.spec_cursor())),
            0 <= self.spec_cursor() <= self.spec_text().len(),
    {
        proof {
            use_type_invariant(self);
        }
        self.cursor_byte
    }

    pub open spec fn spec_cursor_place(&self, width: usize) -> VisualPosition {
        cursor_place(
            self.spec_text(),
            wrap_width(width),
            self.spec_cursor(),
            self.spec_hint(),
        )
    }

    pub fn cursor_visual_position(&self, width: usize) -> (position: (usize, usize))
        ensures
            position.0 == self.spec_cursor_place(width).row,
            position.1 == self.spec_cursor_place(width).col,
    {
        let positions = self.visual_positions(width);
        let position = self.position_for_cursor(&positions, width);
        (position.row, position.col)
    }

    /// The text with `inserted` at the cursor, which then stands behind it.
    fn insert_at_cursor(&mut self, inserted: &str)
        ensures
            final(self).spec_text() == old(self).spec_text().take(old(self).spec_cursor())
                + inserted@ + old(self).spec_text().skip(old(self).spec_cursor()),
            final(self).spec_cursor() == old(self).spec_cursor() + inserted@.len(),
            final(self).spec_scroll() == 0,
            final(self).spec_hint() is None,
    {
        proof {
            use_type_invariant(&*self);
        }
        let ghost k = self.spec_cursor();
        let ghost before_text = self.text@;
        let (before, after) = chars::split_text(self.text.as_str(), self.cursor_byte);
        let mut text: String = String::new();
        text.append(before);
        text.append(inserted);
        let cursor_byte: usize = chars::str_len(text.as_str());
        let ghost head = text@;
        text.append(after);
        proof {
            assert(head =~= before_text.take(k) + inserted@);
            assert(text@.take(head.len() as int) =~= head);
            chars::lemma_index_of(text@, head.len() as int);
        }
        *self =
        InputEditor { text, cursor_byte, scroll_from_bottom: 0, cursor_visual_hint: None };
    }

    pub fn insert_char(&mut self, ch: char)
        ensures
            final(self)@ == old(self)@.typed(ch),
    {
        proof {
            use_type_invariant(&*self);
        }
        let inserted: char = if ch == '\r' {
            '\n'
        } else {
            ch
        };
        let ghost text = self.text@;
        let ghost k = self.spec_cursor();
        let mut piece: String = String::new();
        piece.push(inserted);
        self.insert_at_cursor(piece.as_str());
        assert(self.text@ =~= text.insert(k, inserted));
    }

    pub fn insert_str(&mut self, text: &str)
        ensures
            normalized(text@, text@.len() as int).len() == 0 ==> *final(self) == *old(self),
            normalized(text@, text@.len() as int).len() > 0 ==> {
                &&& final(self).spec_text() == old(self).spec_text().take(old(self).spec_cursor())
                    + normalized(text@, text@.len() as int) + old(self).spec_text().skip(
                    old(self).spec_cursor(),
                )
                &&& final(self).spec_cursor() == old(self).spec_cursor() + normalized(
                    text@,
                    text@.len() as int,
                ).len()
                &&& final(self).spec_scroll() == 0
                &&& final(self).spec_hint() is None
            },
    {
        let inserted = normalize_input_insert(text);
        if inserted.as_str().is_empty() {
            return;
        }
        self.insert_at_cursor(inserted.as_str());
    }

    pub fn insert_newline(&mut self)
        ensures
            final(self)@ == old(self)@.typed('\n'),
    {
        self.insert_char('\n');
    }

    /// The length of the character before the cursor, if there is one.
    fn previous_char_len(&self) -> (len: Option<usize>)
        ensures
            len is None <==> self.spec_cursor() == 0,
            len matches Some(len) ==> {
                &&& 0 < self.spec_cursor() <= self.spec_text().len()
                &&& len == chars::char_len(self.spec_text()[self.spec_cursor() - 1])
                &&& len <= self.spec_cursor_byte()
                &&& self.spec_cursor_byte() - len == chars::byte_len(
                    self.spec_text().take(self.spec_cursor() - 1),
                )
            },
    {
        proof {
            use_type_invariant(self);
        }
        let (before, _) = chars::split_text(self.text.as_str(), self.cursor_byte);
        let characters = chars::chars_of(before);
        if characters.len() == 0 {
            return None;
        }
        proof {
            chars::lemma_byte_len_take(self.text@, self.spec_cursor() - 1);
        }
        Some(characters[characters.len() - 1].len_utf8())
    }

    pub fn backspace(&mut self)
        ensures
            final(self)@ == old(self)@.backspaced(),
    {
        proof {
            use_type_invariant(&*self);
        }
        let ghost k = self.spec_cursor();
        let ghost whole = self.text@;
        let len: usize = match self.previous_char_len() {
            Some(len) => len,
            None => {
                return;
            },
        };
        let cursor_byte: usize = self.cursor_byte - len;
        proof {
            chars::lemma_index_of(whole, k - 1);
        }
        let (before, _) = chars::split_text(self.text.as_str(), cursor_byte);
        let (_, after) = chars::split_text(self.text.as_str(), self.cursor_byte);
        let mut text: String = String::new();
        text.append(before);
        text.append(after);
        proof {
            assert(text@ =~= whole.remove(k - 1));
            assert(text@.take(k - 1) =~= whole.take(k - 1));
            chars::lemma_index_of(text@, k - 1);
        }
        *self =
        InputEditor { text, cursor_byte, scroll_from_bottom: 0, cursor_visual_hint: None };
    }

    pub fn move_left(&mut self)
        ensures
            final(self)@ == old(self)@.moved_left(),
    {
        proof {
            use_type_invariant(&*self);
        }
        if let Some(len) = self.previous_char_len() {
            proof {
                chars::lemma_index_of(self.text@, self.spec_cursor() - 1);
            }
            self.cursor_byte = self.cursor_byte - len;
        }
        self.cursor_visual_hint = None;
    }

    pub fn move_right(&mut self)
        ensures
            final(self)@ == old(self)@.moved_right(),
    {
        proof {
            use_type_invariant(&*self);
        }
        let ghost k = self.spec_cursor();
        let total: usize = chars::str_len(self.text.as_str());
        let (_, after) = chars::split_text(self.text.as_str(), self.cursor_byte);
        let characters = chars::chars_of(after);
        if characters.len() > 0 {
            proof {
                chars::lemma_byte_len_take(self.text@, k);
                lemma_offset_bound(self.text@, k + 1);
                chars::lemma_index_of(self.text@, k + 1);
            }
            self.cursor_byte = self.cursor_byte + characters[0].len_utf8();
        }
        self.cursor_visual_hint = None;
    }

    pub fn move_up(&mut self, width: usize)
        ensures
            final(self)@ == old(self)@.moved_rows(width, -1),
    {
        self.move_vertical(width, true);
    }

    pub fn move_down(&mut self, width: usize)
        ensures
            final(self)@ == old(self)@.moved_rows(width, 1),
    {
        self.move_vertical(width, false);
    }

    fn move_vertical(&mut self, width: usize, up: bool)
        ensures
            final(self)@ == old(self)@.moved_rows(
                width,
                if up {
                    -1
                } else {
                    1
                },
            ),
    {
        proof {
            use_type_invariant(&*self);
        }
        let positions = self.visual_positions(width);
        let row_count: usize = self.visual_row_count(width);
        let current = self.position_for_cursor(&positions, width);
        let target_row: usize = if up {
            current.row.saturating_sub(1)
        } else {
            current.row.saturating_add(1).min(row_count.saturating_sub(1))
        };
        proof {
            lemma_cursor_row_bound(
                self.text@,
                wrap_width(width),
                self.spec_cursor(),
                self.spec_hint(),
            );
        }
        if target_row == current.row {
            return;
        }
        let target = visual_position_for_row_col(&positions, target_row, current.col);
        proof {
            let total = chars::byte_len(self.text@);
            lemma_places_before(self.text@, wrap_width(width), self.text@.len() as int);
            lemma_landing_offset(self.text@, positions@, target_row as int, current.col as int);
        }
        self.cursor_byte = target.byte;
        self.cursor_visual_hint = Some(CursorVisualHint::new(width, target.row));
    }

    /// The text, which leaves the editor empty, unless it is blank.
    pub fn take_submission(&mut self) -> (submission: Option<String>)
        ensures
            match submission {
                Some(text) => {
                    &&& !is_blank(old(self)@.text)
                    &&& text@ == old(self)@.text
                    &&& final(self)@ == empty_editor()
                },
                None => is_blank(old(self)@.text) && *final(self) == *old(self),
            },
    {
        if blank(self.text.as_str()) {
            return None;
        }
        let submission = self.text.clone();
        *self = InputEditor::default();
        Some(submission)
    }

    /// The number of rows to show: at least one, at most `MAX_INPUT_ROWS`.
    pub open spec fn spec_visual_rows(&self, width: usize) -> int {
        let count = rows(self.spec_text(), width).len() as int;
        if count > MAX_INPUT_ROWS {
            MAX_INPUT_ROWS as int
        } else {
            count
        }
    }

    pub fn visual_rows(&self, width: usize) -> (count: usize)
        ensures
            count == self.spec_visual_rows(width),
            1 <= count <= MAX_INPUT_ROWS,
    {
        proof {
            lemma_layout_len(self.text@, wrap_width(width), self.text@.len() as int);
        }
        let count: usize = self.visual_row_count(width);
        if count > MAX_INPUT_ROWS {
            MAX_INPUT_ROWS
        } else {
            count
        }
    }

    pub fn visual_row_count(&self, width: usize) -> (count: usize)
        ensures
            count == rows(self.spec_text(), width).len(),
    {
        let positions = self.visual_positions(width);
        proof {
            lemma_places_len(self.text@, wrap_width(width), self.text@.len() as int);
            lemma_layout_len(self.text@, wrap_width(width), self.text@.len() as int);
        }
        positions[positions.len() - 1].row + 1
    }

    /// Scrolls the shown window of `height` rows, without moving the cursor.
    pub fn scroll_viewport_by(&mut self, delta: i32, width: usize, height: u16) -> (changed: bool)
        ensures
            final(self).spec_text() == old(self).spec_text(),
            final(self).spec_cursor() == old(self).spec_cursor(),
            final(self).spec_hint() == old(self).spec_hint(),
            final(self).spec_scroll() == scroll_view::scrolled(
                old(self).spec_scroll(),
                delta as int,
                scroll_view::max_scroll(
                    rows(old(self).spec_text(), width).len() as u32,
                    height,
                ),
            ),
            changed == (final(self).spec_scroll() != old(self).spec_scroll()),
    {
        proof {
            use_type_invariant(&*self);
        }
        let max_scroll: u32 = max_scroll_from_bottom(self.visual_row_count(width) as u32, height);
        let mut state = ScrollViewState::from_bottom(self.scroll_from_bottom);
        let changed = state.scroll_by(delta, max_scroll);
        self.scroll_from_bottom = state.scroll_from_bottom();
        changed
    }

    fn set_scroll_from_bottom(&mut self, scroll_from_bottom: u32)
        ensures
            final(self).spec_text() == old(self).spec_text(),
            final(self).spec_cursor() == old(self).spec_cursor(),
            final(self).spec_hint() == old(self).spec_hint(),
            final(self).spec_scroll() == scroll_from_bottom,
    {
        proof {
            use_type_invariant(&*self);
        }
        self.scroll_from_bottom = scroll_from_bottom;
    }

    /// The text of each row.
    pub fn visual_lines(&self, width: usize) -> (lines: Vec<String>)
        ensures
            lines@.len() == rows(self.spec_text(), width).len(),
            forall|i: int|
                0 <= i < lines@.len() ==> (#[trigger] lines@[i])@ == rows(
                    self.spec_text(),
                    width,
                )[i].text,
    {
        let row_count: usize = self.visual_row_count(width);
        let collected = self.selection_rows_in_range(width, 0, row_count);
        let mut lines: Vec<String> = Vec::new();
        let ghost all = rows(self.spec_text(), width);
        let ghost items = collected@;
        proof {
            lemma_layout_len(self.text@, wrap_width(width), self.text@.len() as int);
        }
        for item in iter: collected
            invariant
                iter.seq() == items,
                rows_in_range(items, all, 0, all.len() as int),
                lines@.len() == iter.index(),
                forall|i: int| 0 <= i < lines@.len() ==> (#[trigger] lines@[i])@ == all[i].text,
        {
            let ghost j = iter.index() as int;
            assert(item == items[j]);
            let (_, row) = item;
            lines.push(row.text);
        }
        lines
    }

    fn visual_positions(&self, width: usize) -> (positions: Vec<VisualPosition>)
        ensures
            positions@ == places(
                self.spec_text(),
                wrap_width(width),
                self.spec_text().len() as int,
            ),
            chars::byte_len(self.spec_text()) <= usize::MAX,
    {
        let width: usize = width.max(1);
        let ghost text = self.text@;
        let ghost w = width as int;
        let total: usize = chars::str_len(self.text.as_str());
        let characters = chars::chars_of(self.text.as_str());
        let mut positions: Vec<VisualPosition> = Vec::new();
        positions.push(VisualPosition { byte: 0, row: 0, col: 0 });
        let mut row: usize = 0;
        let mut row_text: String = String::new();
        let mut col: usize = 0;
        let mut byte: usize = 0;
        let mut i: usize = 0;
        assert(text.take(0) =~= Seq::<char>::empty());
        assert(positions@ =~= places(text, w, 0));
        while i < characters.len()
            invariant
                i <= characters@.len(),
                characters@ == text,
                w == width,
                total == chars::byte_len(text),
                byte == chars::byte_len(text.take(i as int)),
                row == layout(text, w, i as int).len() - 1,
                row_text@ == layout(text, w, i as int).last().text,
                col == layout(text, w, i as int).last().col,
                positions@ == places(text, w, i as int),
            decreases characters@.len() - i,
        {
            let c: char = characters[i];
            proof {
                chars::lemma_byte_len_take(text, i as int);
                lemma_offset_bound(text, i + 1);
                lemma_layout_len(text, w, i as int);
                lemma_layout_len(text, w, i + 1);
            }
            let end: usize = byte + c.len_utf8();
            if c == '\n' {
                row = row + 1;
                row_text = String::new();
                col = 0;
            } else {
                row_text.push(c);
                let next_col: usize = next_display_col(row_text.as_str(), c, col);
                if col > 0 && next_col > width {
                    row = row + 1;
                    row_text = String::new();
                    row_text.push(c);
                    col = 0;
                    positions.push(VisualPosition { byte, row, col });
                }
                col = next_display_col(row_text.as_str(), c, col);
            }
            positions.push(VisualPosition { byte: end, row, col });
            byte = end;
            i = i + 1;
            assert(positions@ =~= places(text, w, i as int));
        }
        positions
    }

    fn position_for_cursor(&self, positions: &Vec<VisualPosition>, width: usize) -> (position:
        VisualPosition)
        requires
            positions@ == places(
                self.spec_text(),
                wrap_width(width),
                self.spec_text().len() as int,
            ),
            chars::byte_len(self.spec_text()) <= usize::MAX,
        ensures
            position == self.spec_cursor_place(width),
    {
        proof {
            use_type_invariant(self);
        }
        let ghost text = self.text@;
        let ghost w = wrap_width(width);
        let ghost k = self.spec_cursor();
        let ghost at = places(text, w, k).len() - 1;
        proof {
            lemma_places_before(text, w, k);
            lemma_places_after(text, w, k, text.len() as int);
            lemma_places_len(text, w, k);
            lemma_layout_len(text, w, k);
            lemma_offset_bound(text, k);
            assert(positions@[at] == places(text, w, k)[at]);
            assert forall|j: int| 0 <= j < at implies (#[trigger] positions@[j]).byte
                != self.cursor_byte by {
                assert(positions@[j] == places(text, w, k)[j]);
            }
        }
        let count: usize = positions.len();
        let mut i: usize = 0;
        while positions[i].byte != self.cursor_byte
            invariant
                i <= at < count,
                count == positions@.len(),
                positions@[at].byte == self.cursor_byte,
                forall|j: int|
                    0 <= j < at ==> (#[trigger] positions@[j]).byte != self.cursor_byte,
            decreases at - i,
        {
            i = i + 1;
        }
        assert(i == at);
        let position = positions[i];
        if let Some(hint) = self.cursor_visual_hint {
            if hint.width == width.max(1) && i < positions.len() - 1 {
                let next = positions[i + 1];
                if next.byte == self.cursor_byte && next.row == hint.row {
                    return next;
                }
            }
        }
        position
    }
}

/// A row of the editor as it can be selected.
#[derive(Debug)]
pub struct InputSelectionRow {
    pub text_width: u16,
    pub text: String,
    pub copy_separator: CopySeparator,
    pub cells: Vec<SelectionCell>,
}

/// What copying puts between a row and the next.
pub open spec fn row_separator(row: VisualRow) -> CopySeparator {
    if row.hard {
        CopySeparator::HardLine
    } else {
        CopySeparator::Empty
    }
}

impl InputSelectionRow {
    /// Whether this is the selectable form of a wrapped row.
    pub open spec fn shows(&self, row: VisualRow) -> bool {
        &&& self.text_width == clip_u16(text::width_of(row.text) as int)
        &&& self.text@ == row.text
        &&& self.copy_separator == row_separator(row)
        &&& selection::cell_views(self.cells@) == row.cells
    }

    fn new(text: String, copy_separator: CopySeparator, cells: Vec<SelectionCell>) -> (row:
        InputSelectionRow)
        ensures
            row.text_width == clip_u16(text::width_of(text@) as int),
            row.text == text,
            row.copy_separator == copy_separator,
            row.cells == cells,
    {
        let width: usize = display_width(text.as_str());
        InputSelectionRow { text_width: clip_to_u16(width), text, copy_separator, cells }
    }
}

fn clip_to_u16(value: usize) -> (clipped: u16)
    ensures
        clipped == clip_u16(value as int),
{
    if value > u16::MAX as usize {
        u16::MAX
    } else {
        value as u16
    }
}

fn push_selection_cell(cells: &mut Vec<SelectionCell>, ch: char, col: usize, next_col: usize)
    ensures
        selection::cell_views(final(cells)@) == with_cell(
            selection::cell_views(old(cells)@),
            ch,
            col as int,
            next_col as int,
        ),
{
    let ghost before = selection::cell_views(cells@);
    if next_col <= col {
        if cells.len() > 0 {
            let ghost all = cells@;
            let mut previous = cells.pop().unwrap();
            previous.push_combining(ch);
            cells.push(previous);
            assert(selection::cell_views(cells@) =~= with_cell(
                before,
                ch,
                col as int,
                next_col as int,
            ));
        }
        return;
    }
    let mut text: String = String::new();
    text.push(ch);
    cells.push(SelectionCell::new(clip_to_u16(col), clip_to_u16(next_col - col), text));
    assert(seq![ch] =~= Seq::empty().push(ch));
    assert(selection::cell_views(cells@) =~= with_cell(before, ch, col as int, next_col as int));
}

/// The rows `start..end` of a layout, or as many of them as there are, with their numbers.
pub open spec fn rows_in_range(
    collected: Seq<(usize, InputSelectionRow)>,
    rows: Seq<VisualRow>,
    start: int,
    end: int,
) -> bool {
    &&& collected.len() == if end <= start || rows.len() <= start {
        0
    } else if end < rows.len() {
        end - start
    } else {
        rows.len() - start
    }
    &&& forall|j: int|
        0 <= j < collected.len() ==> (#[trigger] collected[j]).0 == start + j && collected[j].1.shows(
            rows[start + j],
        )
}

impl InputEditor {
    fn selection_rows_in_range(&self, width: usize, start: usize, end: usize) -> (collected: Vec<
        (usize, InputSelectionRow),
    >)
        ensures
            rows_in_range(
                collected@,
                rows(self.spec_text(), width),
                start as int,
                end as int,
            ),
    {
        let wrap: usize = width.max(1);
        let ghost text = self.text@;
        let ghost w = wrap as int;
        let ghost n = text.len() as int;
        let characters = chars::chars_of(self.text.as_str());
        let mut collected: Vec<(usize, InputSelectionRow)> = Vec::new();
        let mut row_index: usize = 0;
        let mut row_text: String = String::new();
        let mut col: usize = 0;
        let mut cells: Vec<SelectionCell> = Vec::new();
        let mut collecting = start == 0 && 0 < end;
        let mut i: usize = 0;
        assert(selection::cell_views(cells@) =~= Seq::<CellView>::empty());
        while i < characters.len()
            invariant
                i <= characters@.len(),
                characters@ == text,
                w == wrap,
                w == wrap_width(width),
                text == self.spec_text(),
                n == text.len(),
                row_index == layout(text, w, i as int).len() - 1,
                row_index == 0 || row_index < end,
                row_text@ == layout(text, w, i as int).last().text,
                !layout(text, w, i as int).last().hard,
                col == layout(text, w, i as int).last().col,
                collecting == (start <= row_index < end),
                collecting ==> selection::cell_views(cells@) == layout(
                    text,
                    w,
                    i as int,
                ).last().cells,
                rows_in_range(
                    collected@,
                    layout(text, w, i as int).drop_last(),
                    start as int,
                    end as int,
                ),
            decreases characters@.len() - i,
        {
            let c: char = characters[i];
            let ghost before = layout(text, w, i as int);
            let ghost now = layout(text, w, i + 1);
            proof {
                lemma_layout_len(text, w, i as int);
                lemma_layout_len(text, w, i + 1);
            }
            let mut next_text: String = row_text.clone();
            next_text.push(c);
            let next_col: usize = if c == '\n' {
                0
            } else {
                next_display_col(next_text.as_str(), c, col)
            };
            if c == '\n' || (col > 0 && next_col > wrap) {
                let ghost finished = now.drop_last();
                assert(finished.len() == before.len());
                assert(forall|j: int|
                    0 <= j < before.len() - 1 ==> #[trigger] finished[j] == before[j]);
                if collecting {
                    let separator = if c == '\n' {
                        CopySeparator::HardLine
                    } else {
                        CopySeparator::Empty
                    };
                    let row = InputSelectionRow::new(row_text, separator, cells);
                    assert(row.shows(finished[row_index as int]));
                    collected.push((row_index, row));
                }
                assert(rows_in_range(collected@, finished, start as int, end as int));
                row_index = row_index + 1;
                if row_index >= end {
                    proof {
                        lemma_layout_stable(text, w, i + 1, n);
                        let all = layout(text, w, n);
                        assert forall|j: int| 0 <= j < finished.len() implies #[trigger] all[j]
                            == finished[j] by {}
                    }
                    return collected;
                }
                row_text = String::new();
                col = 0;
                cells = Vec::new();
                collecting = start <= row_index && row_index < end;
                assert(selection::cell_views(cells@) =~= Seq::<CellView>::empty());
                if c != '\n' {
                    row_text.push(c);
                    let first_col: usize = next_display_col(row_text.as_str(), c, 0);
                    if collecting {
                        push_selection_cell(&mut cells, c, 0, first_col);
                    }
                    col = first_col;
                }
            } else {
                assert(now.drop_last() =~= before.drop_last());
                if collecting {
                    push_selection_cell(&mut cells, c, col, next_col);
                }
                row_text = next_text;
                col = next_col;
            }
            i = i + 1;
        }
        let ghost all = layout(text, w, n);
        if collecting {
            let row = InputSelectionRow::new(row_text, CopySeparator::Empty, cells);
            assert(row.shows(all[row_index as int]));
            collected.push((row_index, row));
        }
        assert(forall|j: int|
            0 <= j < all.len() - 1 ==> #[trigger] all.drop_last()[j] == all[j]);
        collected
    }
}

proof fn lemma_cursor_row_bound(text: Seq<char>, width: int, k: int, hint: Option<(int, int)>)
    requires
        0 <= k <= text.len(),
        chars::byte_len(text) <= usize::MAX,
    ensures
        cursor_place(text, width, k, hint).row < layout(text, width, text.len() as int).len(),
{
    lemma_offset_bound(text, k);
    lemma_layout_len(text, width, k);
    lemma_layout_stable(text, width, k, text.len() as int);
    if wraps_before(text, width, k) {
        lemma_layout_stable(text, width, k + 1, text.len() as int);
    }
}

/// The number of rows of a layout that lie in `start..end`.
pub open spec fn range_len(count: int, start: int, end: int) -> nat {
    if end <= start || count <= start {
        0
    } else if end < count {
        (end - start) as nat
    } else {
        (count - start) as nat
    }
}

pub open spec fn min_u16(a: u16, b: u16) -> u16 {
    if a <= b {
        a
    } else {
        b
    }
}

/// Row `y` of the editor as a selectable row that starts at column `x` and has `width` columns.
pub open spec fn row_view_at(
    row: VisualRow,
    x: u16,
    y: int,
    screen_y: Option<u16>,
    width: u16,
) -> RowView {
    RowView {
        x,
        y: y as u32,
        screen_y,
        width,
        text_width: min_u16(clip_u16(text::width_of(row.text) as int), width),
        text: row.text,
        separator: row_separator(row)@,
        copy_group: None,
        copy_text: None,
        cells: row.cells,
    }
}

/// The width of a row for copying: at least one column, at most `u16::MAX`.
pub open spec fn copy_width(width: usize) -> u16 {
    if width == 0 {
        1
    } else {
        clip_u16(width as int)
    }
}

/// The rows of the editor that a selection touches, none of them on screen.
pub open spec fn rows_to_copy(
    rows: Seq<VisualRow>,
    width: usize,
    origin_x: u16,
    selection: Selection,
) -> Seq<RowView> {
    let first = selection.start().y as int;
    Seq::new(
        range_len(rows.len() as int, first, selection.end().y.saturating_add(1) as int),
        |j: int| row_view_at(rows[first + j], origin_x, first + j, None, copy_width(width)),
    )
}

fn selection_row(
    row: InputSelectionRow,
    x: u16,
    y: usize,
    screen_y: Option<u16>,
    width: u16,
    Ghost(model): Ghost<VisualRow>,
) -> (line: SelectionRow)
    requires
        row.shows(model),
        y <= u32::MAX,
    ensures
        line@ == row_view_at(model, x, y as int, screen_y, width),
{
    SelectionRow::new(
        x,
        y as u32,
        screen_y,
        width,
        SelectionRowContent::new(
            row.text_width.min(width),
            row.text,
            row.copy_separator,
            row.cells,
        ),
    )
}

impl InputEditor {
    /// The text that a selection copies, whether its rows are shown or not.
    pub fn copy_selection(&self, width: usize, origin_x: u16, selection: Selection) -> (text:
        String)
        ensures
            text@ == selection::selection_text(
                rows_to_copy(rows(self.spec_text(), width), width, origin_x, selection),
                selection,
            ),
    {
        let (start, end) = selection.normalized();
        let row_start: usize = start.y as usize;
        let row_end: usize = end.y.saturating_add(1) as usize;
        let map_width: u16 = if width == 0 {
            1
        } else {
            clip_to_u16(width)
        };
        let collected = self.selection_rows_in_range(width, row_start, row_end);
        let mut map = SelectionMap::new(Rect::new(origin_x, 0, map_width, 0), u32::MAX, 0);
        let ghost all = rows(self.spec_text(), width);
        let ghost lines = rows_to_copy(all, width, origin_x, selection);
        let ghost items = collected@;
        assert(map.spec_lines() =~= lines.take(0));
        for item in iter: collected
            invariant
                iter.seq() == items,
                rows_in_range(items, all, row_start as int, row_end as int),
                row_start == selection.start().y,
                row_end == selection.end().y.saturating_add(1),
                map_width == copy_width(width),
                lines == rows_to_copy(all, width, origin_x, selection),
                map.spec_lines() == lines.take(iter.index() as int),
        {
            let ghost j = iter.index() as int;
            assert(item == items[j]);
            let (index, row) = item;
            map.push_line(
                selection_row(row, origin_x, index, None, map_width, Ghost(all[row_start + j])),
            );
            assert(map.spec_lines() =~= lines.take(j + 1));
        }
        assert(lines.take(lines.len() as int) =~= lines);
        map.copy_selection(selection)
    }
}

/// The padding of an input box: one cell on each side.
pub open spec fn box_padding() -> Padding {
    Padding { left: 1, right: 1, top: 1, bottom: 1 }
}

pub fn input_box_padding() -> (padding: Padding)
    ensures
        padding == box_padding(),
{
    Padding { left: 1, right: 1, top: 1, bottom: 1 }
}

/// A padded box around an editor.
#[derive(Debug, Clone, Copy)]
pub struct InputBox {
    padding: Padding,
    selection: Option<Selection>,
    preserve_viewport: bool,
}

/// A piece of text to draw at a screen cell, in at most `max_width` columns.
#[derive(Debug)]
pub struct DrawnCell {
    pub x: u16,
    pub y: u16,
    pub text: String,
    pub max_width: u16,
}

/// A drawn piece of text as plain values.
pub struct DrawnView {
    pub x: u16,
    pub y: u16,
    pub text: Seq<char>,
    pub max_width: u16,
}

impl View for DrawnCell {
    type V = DrawnView;

    open spec fn view(&self) -> DrawnView {
        DrawnView { x: self.x, y: self.y, text: self.text@, max_width: self.max_width }
    }
}

pub open spec fn drawn_views(cells: Seq<DrawnCell>) -> Seq<DrawnView> {
    Seq::new(cells.len(), |i: int| cells[i]@)
}

/// What drawing the first `count` cells of a row at screen row `y` puts on the screen: each cell
/// that starts within the row's width.
pub open spec fn row_drawing(row: RowView, y: u16, count: int) -> Seq<DrawnView>
    decreases count,
{
    if count <= 0 {
        Seq::empty()
    } else {
        let cell = row.cells[count - 1];
        let before = row_drawing(row, y, count - 1);
        if cell.column < row.width {
            before.push(
                DrawnView {
                    x: row.x.saturating_add(cell.column),
                    y,
                    text: cell.text,
                    max_width: (row.width - cell.column) as u16,
                },
            )
        } else {
            before
        }
    }
}

/// What drawing the first `count` rows puts on the screen.
pub open spec fn rows_drawing(rows: Seq<RowView>, count: int) -> Seq<DrawnView>
    decreases count,
{
    if count <= 0 {
        Seq::empty()
    } else {
        let row = rows[count - 1];
        match row.screen_y {
            Some(y) => rows_drawing(rows, count - 1) + row_drawing(
                row,
                y,
                row.cells.len() as int,
            ),
            None => rows_drawing(rows, count - 1),
        }
    }
}

/// What an input box puts on the screen.
#[derive(Debug)]
pub struct InputDrawing {
    pub cells: Vec<DrawnCell>,
    pub highlight: Vec<HighlightSpan>,
}

impl Default for InputBox {
    fn default() -> (input_box: InputBox)
        ensures
            input_box.spec_padding() == box_padding(),
            input_box.spec_selection() is None,
            !input_box.spec_preserve_viewport(),
    {
        InputBox { padding: input_box_padding(), selection: None, preserve_viewport: false }
    }
}

impl InputBox {
    pub closed spec fn spec_padding(self) -> Padding {
        self.padding
    }

    pub closed spec fn spec_selection(self) -> Option<Selection> {
        self.selection
    }

    pub closed spec fn spec_preserve_viewport(self) -> bool {
        self.preserve_viewport
    }

    pub fn new() -> (input_box: InputBox)
        ensures
            input_box.spec_padding() == box_padding(),
            input_box.spec_selection() is None,
            !input_box.spec_preserve_viewport(),
    {
        InputBox::default()
    }

    pub fn padding(self, padding: Padding) -> (input_box: InputBox)
        ensures
            input_box.spec_padding() == padding,
            input_box.spec_selection() == self.spec_selection(),
            input_box.spec_preserve_viewport() == self.spec_preserve_viewport(),
    {
        InputBox { padding, ..self }
    }

    pub fn selection(self, selection: Option<Selection>) -> (input_box: InputBox)
        ensures
            input_box.spec_padding() == self.spec_padding(),
            input_box.spec_selection() == selection,
            input_box.spec_preserve_viewport() == self.spec_preserve_viewport(),
    {
        InputBox { selection, ..self }
    }

    pub fn preserve_viewport(self, preserve: bool) -> (input_box: InputBox)
        ensures
            input_box.spec_padding() == self.spec_padding(),
            input_box.spec_selection() == self.spec_selection(),
            input_box.spec_preserve_viewport() == preserve,
    {
        InputBox { preserve_viewport: preserve, ..self }
    }

    pub fn layout(&self, input: &InputEditor, area_width: u16) -> (layout: InputBoxLayout)
        ensures
            layout.measures(
                self.spec_padding(),
                input,
                area_width,
                self.spec_preserve_viewport(),
            ),
    {
        InputBoxLayout::new(self.padding, input, area_width, self.preserve_viewport)
    }

    pub fn content_width(&self, area_width: u16) -> (width: usize)
        ensures
            width == content_width(self.spec_padding(), area_width),
    {
        InputBoxLayout::measure_content_width(self.padding, area_width)
    }

    /// Draws the box into `area`: scrolls the editor to the window that is shown and gives the
    /// text and the highlighted cells of that window.
    pub fn render(&self, area: Rect, input: &mut InputEditor) -> (drawing: InputDrawing)
        ensures
            area.empty() ==> *final(input) == *old(input) && drawing.cells@.len() == 0
                && drawing.highlight@.len() == 0,
            !area.empty() ==> exists|layout: InputBoxLayout, lines: Seq<RowView>|
                {
                    &&& #[trigger] layout.measures(
                        self.spec_padding(),
                        old(input),
                        area.width,
                        self.spec_preserve_viewport(),
                    )
                    &&& #[trigger] layout.maps(old(input), area, lines)
                    &&& final(input).spec_text() == old(input).spec_text()
                    &&& final(input).spec_cursor() == old(input).spec_cursor()
                    &&& final(input).spec_hint() == old(input).spec_hint()
                    &&& final(input).spec_scroll() == layout.spec_scroll()
                    &&& drawn_views(drawing.cells@) == rows_drawing(lines, lines.len() as int)
                    &&& drawing.highlight@ == match self.spec_selection() {
                        Some(selection) => selection::highlight_spans(
                            selection::visible_rows(lines, lines.len() as int),
                            selection::visible_rows(lines, lines.len() as int).len() as int,
                            selection.start(),
                            selection.end(),
                        ),
                        None => Seq::empty(),
                    }
                },
    {
        let mut cells: Vec<DrawnCell> = Vec::new();
        let mut highlight: Vec<HighlightSpan> = Vec::new();
        if area.is_empty() {
            return InputDrawing { cells, highlight };
        }
        let layout = self.layout(input, area.width);
        let map = layout.selection_map(input, area);
        input.set_scroll_from_bottom(layout.scroll_from_bottom);
        let lines = map.lines();
        let ghost views = map.spec_lines();
        assert(layout.maps(old(input), area, views));
        let mut i: usize = 0;
        assert(drawn_views(cells@) =~= rows_drawing(views, 0));
        while i < lines.len()
            invariant
                i <= lines@.len(),
                views == selection::row_views(lines@),
                drawn_views(cells@) == rows_drawing(views, i as int),
            decreases lines@.len() - i,
        {
            let line = &lines[i];
            assert(line@ == views[i as int]);
            if let Some(y) = line.screen_y {
                let ghost start = drawn_views(cells@);
                let row_cells = line.cells();
                let mut j: usize = 0;
                assert(start + row_drawing(line@, y, 0) =~= start);
                while j < row_cells.len()
                    invariant
                        j <= row_cells@.len(),
                        selection::cell_views(row_cells@) == line@.cells,
                        drawn_views(cells@) == start + row_drawing(line@, y, j as int),
                    decreases row_cells@.len() - j,
                {
                    let cell = &row_cells[j];
                    assert(cell.cell_view() == line@.cells[j as int]);
                    let ghost before = drawn_views(cells@);
                    if cell.column() < line.width {
                        let drawn = DrawnCell {
                            x: line.x.saturating_add(cell.column()),
                            y,
                            text: cell.text().to_owned(),
                            max_width: line.width - cell.column(),
                        };
                        let ghost view = drawn@;
                        cells.push(drawn);
                        assert(drawn_views(cells@) =~= before.push(view));
                        assert(drawn_views(cells@) =~= start + row_drawing(line@, y, j + 1));
                    }
                    j = j + 1;
                }
            }
            i = i + 1;
        }
        if let Some(selection) = self.selection {
            highlight = map.selection_highlight(selection);
        }
        InputDrawing { cells, highlight }
    }
}

/// The measurements of an input box around an editor, for an area of a certain width.
#[derive(Debug, Clone, Copy)]
pub struct InputBoxLayout {
    padding: Padding,
    area_width: u16,
    content_width: usize,
    content_height: u16,
    render_height: u16,
    scroll_from_bottom: u32,
    viewport: VirtualViewport,
    cursor_row: Option<u16>,
    cursor_col: usize,
}

/// The columns that padding leaves of an area.
pub open spec fn content_width(padding: Padding, area_width: u16) -> usize {
    area_width.saturating_sub(padding.horizontal()) as usize
}

/// The rows that an editor takes with its padding.
pub open spec fn render_height(padding: Padding, input: &InputEditor, width: usize) -> u16 {
    clip_u16(input.spec_visual_rows(width) + padding.vertical())
}

/// The first row to show so that the cursor's row is shown, moving as little as possible from
/// `previous_top`.
pub open spec fn viewport_top(previous_top: int, cursor_row: int, height: u16) -> int {
    let height = if height == 0 {
        1
    } else {
        height as int
    };
    if cursor_row < previous_top {
        cursor_row
    } else if previous_top + height <= cursor_row {
        cursor_row + 1 - height
    } else {
        previous_top
    }
}

/// The scroll offset, in rows from the bottom, at which the cursor's row is shown.
pub open spec fn scroll_for_cursor(
    previous_scroll: u32,
    total_rows: u32,
    cursor_row: int,
    height: u16,
) -> u32 {
    let max_scroll = scroll_view::max_scroll(total_rows, height);
    let previous_top = max_scroll - scroll_view::min_u32(previous_scroll, max_scroll);
    let top = viewport_top(previous_top, cursor_row, height);
    if top >= max_scroll {
        0
    } else {
        (max_scroll - top) as u32
    }
}

/// The cursor's row lies in the window that `scroll_for_cursor` chooses, whatever was shown before.
pub proof fn law_cursor_row_is_shown(
    previous_scroll: u32,
    total_rows: u32,
    cursor_row: int,
    height: u16,
)
    requires
        0 <= cursor_row < total_rows,
        0 < height,
    ensures
        ({
            let max_scroll = scroll_view::max_scroll(total_rows, height);
            let scroll = scroll_for_cursor(previous_scroll, total_rows, cursor_row, height);
            &&& scroll <= max_scroll
            &&& max_scroll - scroll <= cursor_row < max_scroll - scroll + height
        }),
{
}

fn next_viewport_top(previous_top: usize, cursor_row: usize, height: u16) -> (top: usize)
    requires
        previous_top <= u32::MAX,
    ensures
        top == viewport_top(previous_top as int, cursor_row as int, height),
{
    let height: usize = if height == 0 {
        1
    } else {
        height as usize
    };
    if cursor_row < previous_top {
        cursor_row
    } else if cursor_row - previous_top >= height {
        cursor_row - (height - 1)
    } else {
        previous_top
    }
}

fn scroll_from_bottom_for_cursor(
    previous_scroll_from_bottom: u32,
    total_rows: u32,
    cursor_row: usize,
    height: u16,
) -> (scroll: u32)
    ensures
        scroll == scroll_for_cursor(
            previous_scroll_from_bottom,
            total_rows,
            cursor_row as int,
            height,
        ),
{
    let max_scroll: u32 = max_scroll_from_bottom(total_rows, height);
    let previous: u32 = previous_scroll_from_bottom.min(max_scroll);
    let previous_top: usize = max_scroll.saturating_sub(previous) as usize;
    let next_top: usize = next_viewport_top(previous_top, cursor_row, height).min(
        max_scroll as usize,
    );
    max_scroll.saturating_sub(next_top as u32)
}

impl InputBoxLayout {
    pub closed spec fn spec_padding(self) -> Padding {
        self.padding
    }

    pub closed spec fn spec_area_width(self) -> u16 {
        self.area_width
    }

    pub closed spec fn spec_content_width(self) -> usize {
        self.content_width
    }

    pub closed spec fn spec_content_height(self) -> u16 {
        self.content_height
    }

    pub closed spec fn spec_render_height(self) -> u16 {
        self.render_height
    }

    pub closed spec fn spec_scroll(self) -> u32 {
        self.scroll_from_bottom
    }

    pub closed spec fn spec_viewport(self) -> VirtualViewport {
        self.viewport
    }

    /// The cursor's row counted from the first row shown, where it is shown.
    pub closed spec fn spec_cursor_row(self) -> Option<u16> {
        self.cursor_row
    }

    pub closed spec fn spec_cursor_col(self) -> usize {
        self.cursor_col
    }

    /// Whether these are the measurements of an editor in an area of the given width. Unless the
    /// window is preserved, it is moved to show the cursor.
    pub open spec fn measures(
        self,
        padding: Padding,
        input: &InputEditor,
        area_width: u16,
        preserve_viewport: bool,
    ) -> bool {
        let width = content_width(padding, area_width);
        let total_rows = rows(input.spec_text(), width).len() as u32;
        let cursor = input.spec_cursor_place(width);
        let row = cursor.row as u32;
        let start = self.spec_viewport().spec_start();
        &&& self.spec_padding() == padding
        &&& self.spec_area_width() == area_width
        &&& self.spec_content_width() == width
        &&& self.spec_render_height() == render_height(padding, input, width)
        &&& self.spec_content_height() == self.spec_render_height().saturating_sub(
            padding.vertical(),
        )
        &&& self.spec_scroll() == if preserve_viewport {
            scroll_view::min_u32(
                input.spec_scroll(),
                scroll_view::max_scroll(total_rows, self.spec_content_height()),
            )
        } else {
            scroll_for_cursor(
                input.spec_scroll(),
                total_rows,
                cursor.row as int,
                self.spec_content_height(),
            )
        }
        &&& self.spec_viewport().shows(
            Rect::spec_new(0, 0, clip_u16(width as int), self.spec_content_height()),
            total_rows,
            self.spec_scroll(),
        )
        &&& self.spec_cursor_row() == if start <= row < self.spec_viewport().spec_end() {
            Some((row - start) as u16)
        } else {
            None
        }
        &&& self.spec_cursor_col() == cursor.col
    }

    fn new(
        padding: Padding,
        input: &InputEditor,
        area_width: u16,
        preserve_viewport: bool,
    ) -> (layout: InputBoxLayout)
        ensures
            layout.measures(padding, input, area_width, preserve_viewport),
    {
        let content_width: usize = Self::measure_content_width(padding, area_width);
        let render_height: u16 = Self::measure_render_height(padding, input, content_width);
        let content_height: u16 = render_height.saturating_sub(
            padding.top.saturating_add(padding.bottom),
        );
        let (cursor_row, cursor_col) = input.cursor_visual_position(content_width);
        let total_rows: u32 = input.visual_row_count(content_width) as u32;
        let scroll_from_bottom: u32 = if preserve_viewport {
            input.scroll_from_bottom.min(max_scroll_from_bottom(total_rows, content_height))
        } else {
            scroll_from_bottom_for_cursor(
                input.scroll_from_bottom,
                total_rows,
                cursor_row,
                content_height,
            )
        };
        let viewport = VirtualViewport::new(
            Rect::new(0, 0, clip_to_u16(content_width), content_height),
            total_rows,
            scroll_from_bottom,
        );
        let row: u32 = cursor_row as u32;
        let shown_row: Option<u16> = if row >= viewport.source_start() && row
            < viewport.source_end() {
            Some((row - viewport.source_start()) as u16)
        } else {
            None
        };
        InputBoxLayout {
            padding,
            area_width,
            content_width,
            content_height,
            render_height,
            scroll_from_bottom,
            viewport,
            cursor_row: shown_row,
            cursor_col,
        }
    }

    pub fn area_width(self) -> (width: u16)
        ensures
            width == self.spec_area_width(),
    {
        self.area_width
    }

    pub fn content_width(self) -> (width: usize)
        ensures
            width == self.spec_content_width(),
    {
        self.content_width
    }

    pub fn render_height(self) -> (height: u16)
        ensures
            height == self.spec_render_height(),
    {
        self.render_height
    }

    pub fn content_height(self) -> (height: u16)
        ensures
            height == self.spec_content_height(),
    {
        self.content_height
    }

    /// The screen cell of the cursor: within the area, and only where the cursor's row is shown.
    pub open spec fn spec_cursor_position(self, area: Rect) -> Option<Position> {
        if area.empty() {
            None
        } else {
            match self.spec_cursor_row() {
                Some(row) => Some(
                    Position {
                        x: min_u16(
                            area.x.saturating_add(self.spec_padding().left).saturating_add(
                                self.spec_cursor_col() as u16,
                            ),
                            area.x.saturating_add(area.width.saturating_sub(1)),
                        ),
                        y: min_u16(
                            area.y.saturating_add(self.spec_padding().top).saturating_add(row),
                            area.y.saturating_add(area.height.saturating_sub(1)),
                        ),
                    },
                ),
                None => None,
            }
        }
    }

    pub fn cursor_position(self, area: Rect) -> (position: Option<Position>)
        requires
            area.width == self.spec_area_width(),
        ensures
            position == self.spec_cursor_position(area),
    {
        if area.is_empty() {
            return None;
        }
        let max_x: u16 = area.x.saturating_add(area.width.saturating_sub(1));
        let max_y: u16 = area.y.saturating_add(area.height.saturating_sub(1));
        let cursor_x: u16 = area.x.saturating_add(self.padding.left).saturating_add(
            self.cursor_col as u16,
        ).min(max_x);
        match self.cursor_row {
            Some(row) => {
                let cursor_y: u16 = area.y.saturating_add(self.padding.top).saturating_add(row).min(
                    max_y,
                );
                Some(Position::new(cursor_x, cursor_y))
            },
            None => None,
        }
    }

    /// The part of the area inside the padding.
    pub open spec fn spec_content_area(self, area: Rect) -> Rect {
        if area.empty() {
            Rect { x: 0, y: 0, width: 0, height: 0 }
        } else {
            Rect::spec_new(
                area.x.saturating_add(self.spec_padding().left),
                area.y.saturating_add(self.spec_padding().top),
                area.width.saturating_sub(self.spec_padding().horizontal()),
                area.height.saturating_sub(self.spec_padding().vertical()),
            )
        }
    }

    /// Whether `lines` are the rows of the editor that the window over `area` shows.
    pub open spec fn maps(self, input: &InputEditor, area: Rect, lines: Seq<RowView>) -> bool {
        let content = self.spec_content_area(area);
        let all = rows(input.spec_text(), self.spec_content_width());
        let start = self.spec_viewport().spec_start();
        if content.empty() {
            lines == Seq::<RowView>::empty()
        } else {
            lines == Seq::new(
                range_len(all.len() as int, start as int, self.spec_viewport().spec_end() as int),
                |j: int|
                    row_view_at(
                        all[start + j],
                        content.x,
                        start + j,
                        match self.spec_viewport().spec_screen_y((start + j) as u32) {
                            Some(y) => Some(content.y.saturating_add(y)),
                            None => None,
                        },
                        content.width,
                    ),
            )
        }
    }

    /// The rows of the editor that are shown, as selectable rows.
    pub fn selection_map(self, input: &InputEditor, area: Rect) -> (map: SelectionMap)
        requires
            area.width == self.spec_area_width(),
        ensures
            map.spec_area() == self.spec_content_area(area),
            map.spec_viewport_start() == self.spec_viewport().spec_start(),
            map.spec_total_height() == rows(
                input.spec_text(),
                self.spec_content_width(),
            ).len() as u32,
            self.maps(input, area, map.spec_lines()),
    {
        let content_area = self.content_area(area);
        let total_rows: usize = input.visual_row_count(self.content_width);
        let mut map = SelectionMap::new(
            content_area,
            self.viewport.source_start(),
            total_rows as u32,
        );
        if content_area.is_empty() {
            return map;
        }
        let visible_start: usize = self.viewport.source_start() as usize;
        let visible_end: usize = self.viewport.source_end() as usize;
        let collected = input.selection_rows_in_range(
            self.content_width,
            visible_start,
            visible_end,
        );
        let ghost all = rows(input.spec_text(), self.content_width);
        let ghost lines = Seq::new(
            range_len(all.len() as int, visible_start as int, visible_end as int),
            |j: int|
                row_view_at(
                    all[visible_start + j],
                    content_area.x,
                    visible_start + j,
                    match self.viewport.spec_screen_y((visible_start + j) as u32) {
                        Some(y) => Some(content_area.y.saturating_add(y)),
                        None => None,
                    },
                    content_area.width,
                ),
        );
        let ghost items = collected@;
        let ghost empty_map = map;
        assert(map.spec_lines() =~= lines.take(0));
        for item in iter: collected
            invariant
                iter.seq() == items,
                rows_in_range(items, all, visible_start as int, visible_end as int),
                visible_start == self.viewport.spec_start(),
                visible_end == self.viewport.spec_end(),
                lines.len() == items.len(),
                forall|j: int|
                    0 <= j < lines.len() ==> #[trigger] lines[j] == row_view_at(
                        all[visible_start + j],
                        content_area.x,
                        visible_start + j,
                        match self.viewport.spec_screen_y((visible_start + j) as u32) {
                            Some(y) => Some(content_area.y.saturating_add(y)),
                            None => None,
                        },
                        content_area.width,
                    ),
                map.spec_lines() == lines.take(iter.index() as int),
                map.spec_area() == empty_map.spec_area(),
                map.spec_viewport_start() == empty_map.spec_viewport_start(),
                map.spec_total_height() == empty_map.spec_total_height(),
        {
            let ghost j = iter.index() as int;
            assert(item == items[j]);
            let (index, row) = item;
            let screen_y: Option<u16> = match self.viewport.screen_y(index as u32) {
                Some(y) => Some(content_area.y.saturating_add(y)),
                None => None,
            };
            map.push_line(
                selection_row(
                    row,
                    content_area.x,
                    index,
                    screen_y,
                    content_area.width,
                    Ghost(all[visible_start + j]),
                ),
            );
            assert(map.spec_lines() =~= lines.take(j + 1));
        }
        assert(lines.take(lines.len() as int) =~= lines);
        map
    }

    fn content_area(self, area: Rect) -> (content: Rect)
        ensures
            content == self.spec_content_area(area),
    {
        if area.is_empty() {
            return Rect::default();
        }
        let width: u16 = area.width.saturating_sub(
            self.padding.left.saturating_add(self.padding.right),
        );
        let height: u16 = area.height.saturating_sub(
            self.padding.top.saturating_add(self.padding.bottom),
        );
        Rect::new(
            area.x.saturating_add(self.padding.left),
            area.y.saturating_add(self.padding.top),
            width,
            height,
        )
    }

    fn measure_content_width(padding: Padding, area_width: u16) -> (width: usize)
        ensures
            width == content_width(padding, area_width),
    {
        area_width.saturating_sub(padding.left.saturating_add(padding.right)) as usize
    }

    fn measure_render_height(padding: Padding, input: &InputEditor, content_width: usize) -> (height:
        u16)
        ensures
            height == render_height(padding, input, content_width),
    {
        let height: usize = input.visual_rows(content_width).saturating_add(
            padding.top.saturating_add(padding.bottom) as usize,
        );
        clip_to_u16(height)
    }
}

/// The text of all cells of a row.
pub open spec fn all_cells_text(cells: Seq<CellView>, count: int) -> Seq<char>
    decreases count,
{
    if count <= 0 {
        Seq::empty()
    } else {
        all_cells_text(cells, count - 1) + cells[count - 1].text
    }
}

/// Whether every character of a row can be selected where rows have `width` columns: the first one
/// takes a column, and no cell starts behind the end of the row.
pub open spec fn row_is_whole(row: VisualRow, width: u16) -> bool {
    let shown = min_u16(clip_u16(text::width_of(row.text) as int), width);
    &&& row.text.len() > 0 ==> col_after(row.text.take(1), 0) > 0
    &&& forall|i: int| 0 <= i < row.cells.len() ==> (#[trigger] row.cells[i]).column < shown
}

/// Whether the cells of a row hold its characters, unless its first one takes no column.
spec fn cells_hold_row(row: VisualRow) -> bool {
    &&& forall|i: int| 0 <= i < row.cells.len() ==> (#[trigger] row.cells[i]).width > 0
    &&& row.text.len() == 0 ==> row.col == 0 && row.cells.len() == 0
    &&& row.text.len() > 0 && col_after(row.text.take(1), 0) > 0 ==> {
        &&& row.cells.len() > 0
        &&& all_cells_text(row.cells, row.cells.len() as int) == row.text
    }
}

proof fn lemma_cells_prefix(a: Seq<CellView>, b: Seq<CellView>, count: int)
    requires
        0 <= count <= a.len(),
        count <= b.len(),
        forall|i: int| 0 <= i < count ==> #[trigger] a[i] == b[i],
    ensures
        all_cells_text(a, count) == all_cells_text(b, count),
    decreases count,
{
    if count > 0 {
        lemma_cells_prefix(a, b, count - 1);
    }
}

proof fn lemma_extended_holds(row: VisualRow, c: char)
    requires
        cells_hold_row(row),
    ensures
        cells_hold_row(extended(row, c)),
{
    let next = extended(row, c);
    let n = row.cells.len() as int;
    assert(next.text.take(1) =~= if row.text.len() == 0 {
        seq![c]
    } else {
        row.text.take(1)
    });
    assert(row.text.len() == 0 ==> next.text =~= seq![c]);
    if col_after(next.text.take(1), 0) > 0 {
        if next.col > row.col {
            lemma_cells_prefix(next.cells, row.cells, n);
            assert(next.cells[n].text =~= seq![c]);
            if row.text.len() == 0 {
                assert(all_cells_text(row.cells, n) =~= row.text);
            }
            assert(all_cells_text(next.cells, n + 1) =~= next.text);
        } else {
            assert(row.text.len() > 0);
            lemma_cells_prefix(next.cells, row.cells, n - 1);
            assert(all_cells_text(next.cells, n) =~= next.text);
        }
    }
}

proof fn lemma_layout_cells(text: Seq<char>, width: int, k: int)
    requires
        0 <= k <= text.len(),
    ensures
        forall|i: int|
            0 <= i < layout(text, width, k).len() ==> cells_hold_row(
                #[trigger] layout(text, width, k)[i],
            ),
    decreases k,
{
    if k > 0 {
        lemma_layout_cells(text, width, k - 1);
        lemma_layout_len(text, width, k - 1);
        let before = layout(text, width, k - 1);
        let c = text[k - 1];
        assert(cells_hold_row(before[before.len() - 1]));
        if c != '\n' {
            if overflows(before.last(), c, width) {
                lemma_extended_holds(empty_row(), c);
            } else {
                lemma_extended_holds(before.last(), c);
            }
        }
    }
}

proof fn lemma_all_cells_overlap(cells: Seq<CellView>, count: int, end: u16)
    requires
        0 <= count <= cells.len(),
        forall|i: int|
            0 <= i < cells.len() ==> (#[trigger] cells[i]).column < end && cells[i].width > 0,
    ensures
        selection::cells_text(cells, count, 0, end) == all_cells_text(cells, count),
    decreases count,
{
    if count > 0 {
        lemma_all_cells_overlap(cells, count - 1, end);
        assert(cells[count - 1].column < end);
    }
}

proof fn lemma_whole_row_copied(row: VisualRow, view: RowView)
    requires
        cells_hold_row(row),
        row_is_whole(row, view.width),
        view == row_view_at(row, view.x, view.y as int, view.screen_y, view.width),
    ensures
        view.copied(0, view.text_width) == row.text,
{
    if row.text.len() > 0 {
        assert(row.cells[0].column < view.text_width);
        lemma_all_cells_overlap(row.cells, row.cells.len() as int, view.text_width);
    } else {
        assert(row.cells.len() == 0);
        assert(view.copied(0, view.text_width) =~= row.text);
    }
}

proof fn lemma_all_between(views: Seq<RowView>, count: int, last: u32)
    requires
        0 <= count <= views.len(),
        forall|i: int| 0 <= i < views.len() ==> (#[trigger] views[i]).y <= last,
    ensures
        selection::rows_between(views, count, 0, last) == views.take(count),
    decreases count,
{
    if count > 0 {
        lemma_all_between(views, count - 1, last);
        assert(views[count - 1].y <= last);
        assert(views.take(count) =~= views.take(count - 1).push(views[count - 1]));
    } else {
        assert(views.take(0) =~= Seq::<RowView>::empty());
    }
}

/// A selection from the start of the first row to the end of the last one copies the whole text,
/// with its line breaks and without a trace of where it was wrapped, as long as every character
/// can be selected.
pub proof fn law_whole_selection_copies_text(
    content: Seq<char>,
    width: usize,
    origin_x: u16,
    end_x: u16,
)
    requires
        rows(content, width).len() <= u32::MAX,
        forall|i: int|
            0 <= i < rows(content, width).len() ==> row_is_whole(
                #[trigger] rows(content, width)[i],
                copy_width(width),
            ),
        end_x >= origin_x + copy_width(width),
    ensures
        ({
            let all = rows(content, width);
            let whole = Selection {
                anchor: TextPosition { x: origin_x, y: 0 },
                focus: TextPosition { x: end_x, y: (all.len() - 1) as u32 },
            };
            selection::selection_text(rows_to_copy(all, width, origin_x, whole), whole) == content
        }),
{
    let all = rows(content, width);
    let n = all.len() as int;
    lemma_layout_len(content, wrap_width(width), content.len() as int);
    lemma_layout_cells(content, wrap_width(width), content.len() as int);
    lemma_layout_rejoins(content, wrap_width(width), content.len() as int);
    let whole = Selection {
        anchor: TextPosition { x: origin_x, y: 0 },
        focus: TextPosition { x: end_x, y: (n - 1) as u32 },
    };
    assert(whole.start() == whole.anchor);
    let views = rows_to_copy(all, width, origin_x, whole);
    assert(views.len() == n);
    lemma_all_between(views, n, (n - 1) as u32);
    assert(views.take(n) =~= views);
    lemma_copied_rows(all, views, width, origin_x, whole, n);
    law_rows_rejoin_to_text(content, width);
    assert(selection::rows_text(views, n, whole.start(), whole.end()) =~= content);
}

proof fn lemma_copied_rows(
    all: Seq<VisualRow>,
    views: Seq<RowView>,
    width: usize,
    origin_x: u16,
    whole: Selection,
    count: int,
)
    requires
        0 <= count <= all.len() <= u32::MAX,
        all.len() > 0,
        whole.start() == (TextPosition { x: origin_x, y: 0 }),
        whole.end().y == all.len() - 1,
        whole.end().x >= origin_x + copy_width(width),
        views == rows_to_copy(all, width, origin_x, whole),
        views.len() == all.len(),
        !all.last().hard,
        forall|i: int| 0 <= i < all.len() ==> cells_hold_row(#[trigger] all[i]),
        forall|i: int|
            0 <= i < all.len() ==> row_is_whole(#[trigger] all[i], copy_width(width)),
    ensures
        selection::rows_text(views, count, whole.start(), whole.end())
            + selection::last_separator(views, count) == rejoined(all, count),
        count == all.len() ==> selection::last_separator(views, count).len() == 0,
    decreases count,
{
    if count > 0 {
        lemma_copied_rows(all, views, width, origin_x, whole, count - 1);
        let row = all[count - 1];
        let view = views[count - 1];
        assert(view == row_view_at(row, origin_x, count - 1, None, copy_width(width)));
        assert(view.selected_from(whole.start()) == 0);
        assert(view.selected_to(whole.end()) == view.text_width);
        lemma_whole_row_copied(row, view);
        let before = selection::rows_text(views, count - 1, whole.start(), whole.end())
            + selection::last_separator(views, count - 1);
        assert(selection::rows_text(views, count, whole.start(), whole.end()) =~= before
            + row.text);
        assert(before + row.text + selection::last_separator(views, count) =~= rejoined(
            all,
            count,
        ));
    } else {
        assert(selection::rows_text(views, 0, whole.start(), whole.end())
            + selection::last_separator(views, 0) =~= rejoined(all, 0));
    }
}

/// The places of a row, in reading order.
pub open spec fn row_places(places: Seq<VisualPosition>, row: int) -> Seq<VisualPosition> {
    places.filter(|place: VisualPosition| place.row == row)
}

/// How many places belong to a row: all of them, but for the end of a row that wraps, which is the
/// start of the next one.
pub open spec fn own_places(places: Seq<VisualPosition>, row: int) -> int {
    let here = row_places(places, row);
    let next = row_places(places, row + 1);
    if here.len() > 1 && next.len() > 0 && here[here.len() - 1].byte == next[0].byte {
        here.len() - 1
    } else {
        here.len() as int
    }
}

proof fn lemma_places_in_row_filter(places: Seq<VisualPosition>, count: int, row: int)
    requires
        0 <= count <= places.len(),
    ensures
        places_in_row(places, count, row) == row_places(places.take(count), row),
    decreases count,
{
    reveal(Seq::filter);
    if count > 0 {
        lemma_places_in_row_filter(places, count - 1, row);
        assert(places.take(count).drop_last() =~= places.take(count - 1));
        assert(places.take(count).last() == places[count - 1]);
    } else {
        assert(places.take(0) =~= Seq::<VisualPosition>::empty());
    }
}

proof fn lemma_last_up_to(places: Seq<VisualPosition>, count: int, col: int)
    requires
        0 <= count <= places.len(),
    ensures
        match last_up_to_col(places, count, col) {
            Some(place) => exists|i: int|
                {
                    &&& 0 <= i < count
                    &&& place == #[trigger] places[i]
                    &&& places[i].col <= col
                    &&& forall|k: int| i < k < count ==> (#[trigger] places[k]).col > col
                },
            None => forall|k: int| 0 <= k < count ==> (#[trigger] places[k]).col > col,
        },
    decreases count,
{
    if count > 0 {
        lemma_last_up_to(places, count - 1, col);
        if places[count - 1].col <= col {
            assert(places[count - 1].col <= col);
        } else if last_up_to_col(places, count - 1, col) is Some {
            let place = last_up_to_col(places, count - 1, col)->0;
            let i = choose|i: int|
                {
                    &&& 0 <= i < count - 1
                    &&& place == #[trigger] places[i]
                    &&& places[i].col <= col
                    &&& forall|k: int| i < k < count - 1 ==> (#[trigger] places[k]).col > col
                };
            assert(places[i].col <= col);
        }
    }
}

/// Whether a place is the one of a row that is nearest to a column from the left: it is not beyond
/// the column and every later place of the row is; where all places of the row are beyond the column
/// it is the first one.
pub open spec fn is_nearest(
    places: Seq<VisualPosition>,
    row: int,
    col: int,
    place: VisualPosition,
) -> bool {
    let here = row_places(places, row);
    let count = own_places(places, row);
    ||| exists|i: int|
        {
            &&& 0 <= i < count
            &&& #[trigger] here[i] == place
            &&& place.col <= col
            &&& forall|k: int| i < k < count ==> (#[trigger] here[k]).col > col
        }
    ||| place == here[0] && forall|k: int| 0 <= k < count ==> (#[trigger] here[k]).col > col
}

/// A cursor that enters a row lands at the place of the row that is nearest to its old column from
/// the left. Where the row ends before that column it lands at the end of the row, and where the
/// columns of the row grow no place of the row lies between it and the old column.
pub proof fn law_cursor_lands_nearest(places: Seq<VisualPosition>, row: int, col: int)
    requires
        row_places(places, row).len() > 0,
    ensures
        ({
            let here = row_places(places, row);
            let count = own_places(places, row);
            let place = landing(places, row, col);
            &&& is_nearest(places, row, col, place)
            &&& (forall|k: int| 0 <= k < count ==> (#[trigger] here[k]).col <= col) ==> place
                == here[count - 1]
            &&& (forall|i: int, k: int|
                0 <= i <= k < count ==> (#[trigger] here[i]).col <= (#[trigger] here[k]).col)
                ==> !exists|k: int|
                0 <= k < count && place.col < (#[trigger] here[k]).col <= col
        }),
{
    let here = row_places(places, row);
    let count = own_places(places, row);
    let place = landing(places, row, col);
    lemma_places_in_row_filter(places, places.len() as int, row);
    lemma_places_in_row_filter(places, places.len() as int, row + 1);
    assert(places.take(places.len() as int) =~= places);
    let candidates = here.take(count);
    assert(candidates =~= if count < here.len() {
        here.drop_last()
    } else {
        here
    });
    lemma_last_up_to(candidates, count, col);
    assert(forall|k: int| 0 <= k < count ==> #[trigger] candidates[k] == here[k]);
    if last_up_to_col(candidates, count, col) is Some {
        let i = choose|i: int|
            {
                &&& 0 <= i < count
                &&& place == #[trigger] candidates[i]
                &&& candidates[i].col <= col
                &&& forall|k: int| i < k < count ==> (#[trigger] candidates[k]).col > col
            };
        assert(here[i] == place);
        assert forall|k: int| i < k < count implies (#[trigger] here[k]).col > col by {
            assert(candidates[k].col > col);
        }
        if forall|k: int| 0 <= k < count ==> (#[trigger] here[k]).col <= col {
            assert(here[count - 1].col <= col);
            if i < count - 1 {
                assert(candidates[count - 1].col > col);
            }
        }
    } else {
        assert forall|k: int| 0 <= k < count implies (#[trigger] here[k]).col > col by {
            assert(candidates[k].col > col);
        }
        assert(here[0].col > col);
    }
}

proof fn lemma_filter_keeps(places: Seq<VisualPosition>, row: int, i: int)
    requires
        0 <= i < places.len(),
        places[i].row == row,
    ensures
        row_places(places, row).len() > 0,
    decreases places.len(),
{
    reveal(Seq::filter);
    if i < places.len() - 1 {
        assert(places.drop_last()[i] == places[i]);
        lemma_filter_keeps(places.drop_last(), row, i);
    }
}

proof fn lemma_rows_have_places(text: Seq<char>, width: int, k: int, row: int) -> (i: int)
    requires
        0 <= k <= text.len(),
        0 <= row < layout(text, width, k).len(),
        layout(text, width, k).len() <= usize::MAX,
    ensures
        0 <= i < places(text, width, k).len(),
        places(text, width, k)[i].row == row,
    decreases k,
{
    lemma_layout_len(text, width, k);
    lemma_places_len(text, width, k);
    let now = places(text, width, k);
    if row == layout(text, width, k).len() - 1 {
        now.len() - 1
    } else {
        lemma_layout_len(text, width, k - 1);
        lemma_places_len(text, width, k - 1);
        lemma_layout_stable(text, width, k - 1, k);
        let i = lemma_rows_have_places(text, width, k - 1, row);
        assert(now[i] == places(text, width, k - 1)[i]);
        i
    }
}

/// A move by a row up or down leads to the place of that row that is nearest to the cursor's old
/// column, and the cursor is shown in that row. At the first row a move up changes nothing, and at
/// the last row a move down does.
pub proof fn law_vertical_move_lands_nearest(editor: EditorView, width: usize, delta: int)
    requires
        delta == -1 || delta == 1,
        rows(editor.text, width).len() <= usize::MAX,
    ensures
        ({
            let wrap = wrap_width(width);
            let from = cursor_place(editor.text, wrap, editor.cursor, editor.hint);
            let all = places(editor.text, wrap, editor.text.len() as int);
            let row = from.row + delta;
            let after = editor.moved_rows(width, delta);
            &&& after.text == editor.text
            &&& after.scroll == editor.scroll
            &&& 0 <= row < rows(editor.text, width).len() ==> exists|place: VisualPosition|
                {
                    &&& #[trigger] is_nearest(all, row, from.col as int, place)
                    &&& after.cursor == chars::index_of(editor.text, place.byte as int)
                    &&& after.hint == Some((wrap, place.row as int))
                }
            &&& delta == -1 && from.row == 0 ==> after == editor
            &&& delta == 1 && from.row == rows(editor.text, width).len() - 1 ==> after == editor
        }),
{
    let wrap = wrap_width(width);
    let from = cursor_place(editor.text, wrap, editor.cursor, editor.hint);
    let n = editor.text.len() as int;
    let all = places(editor.text, wrap, n);
    let row = from.row + delta;
    lemma_layout_len(editor.text, wrap, n);
    if 0 <= row < rows(editor.text, width).len() {
        let i = lemma_rows_have_places(editor.text, wrap, n, row);
        lemma_filter_keeps(all, row, i);
        law_cursor_lands_nearest(all, row, from.col as int);
        assert(is_nearest(all, row, from.col as int, landing(all, row, from.col as int)));
    }
}

/// A text is wrapped at the width that there is, and at one column where there is none.
pub proof fn law_wrapping_needs_a_column(width: usize)
    ensures
        width > 0 ==> wrap_width(width) == width,
        width == 0 ==> wrap_width(width) == 1,
{
}

/// A typed character stands where the cursor was, and the cursor stands behind it; a carriage return
/// is typed as a line break. Everything else of the text stays where it was.
pub proof fn law_typing_inserts_at_the_cursor(editor: EditorView, ch: char)
    requires
        0 <= editor.cursor <= editor.text.len(),
    ensures
        editor.typed(ch).text == editor.text.take(editor.cursor) + seq![
            if ch == '\r' {
                '\n'
            } else {
                ch
            },
        ] + editor.text.skip(editor.cursor),
        editor.typed(ch).cursor == editor.cursor + 1,
        editor.typed(ch).scroll == 0,
        editor.typed(ch).hint is None,
{
    assert(editor.typed(ch).text =~= editor.text.take(editor.cursor) + seq![
        if ch == '\r' {
            '\n'
        } else {
            ch
        },
    ] + editor.text.skip(editor.cursor));
}

/// The character before the cursor is removed, and nothing else; at the start of the text nothing
/// is.
pub proof fn law_backspace_removes_one_character(editor: EditorView)
    requires
        0 <= editor.cursor <= editor.text.len(),
    ensures
        editor.cursor == 0 ==> editor.backspaced() == editor,
        editor.cursor > 0 ==> {
            &&& editor.backspaced().text == editor.text.take(editor.cursor - 1) + editor.text.skip(
                editor.cursor,
            )
            &&& editor.backspaced().cursor == editor.cursor - 1
            &&& editor.backspaced().scroll == 0
            &&& editor.backspaced().hint is None
        },
{
    if editor.cursor > 0 {
        assert(editor.backspaced().text =~= editor.text.take(editor.cursor - 1) + editor.text.skip(
            editor.cursor,
        ));
    }
}

/// A move to the left or to the right goes by one character, stops at the ends of the text and leaves
/// the text alone; one undoes the other but at the ends.
pub proof fn law_moves_go_by_one_character(editor: EditorView)
    requires
        0 <= editor.cursor <= editor.text.len(),
    ensures
        editor.moved_left().text == editor.text,
        editor.moved_right().text == editor.text,
        editor.moved_left().scroll == editor.scroll,
        editor.moved_right().scroll == editor.scroll,
        editor.moved_left().hint is None,
        editor.moved_right().hint is None,
        editor.cursor > 0 ==> editor.moved_left().cursor == editor.cursor - 1,
        editor.cursor == 0 ==> editor.moved_left().cursor == 0,
        editor.cursor < editor.text.len() ==> editor.moved_right().cursor == editor.cursor + 1,
        editor.cursor == editor.text.len() ==> editor.moved_right().cursor == editor.cursor,
        editor.cursor > 0 ==> editor.moved_left().moved_right().cursor == editor.cursor,
        editor.cursor < editor.text.len() ==> editor.moved_right().moved_left().cursor
            == editor.cursor,
{
}

proof fn lemma_normalized_plain(text: Seq<char>, k: int)
    requires
        0 <= k <= text.len(),
        forall|i: int| 0 <= i < k ==> #[trigger] text[i] != '\r',
    ensures
        normalized(text, k) == text.take(k),
    decreases k,
{
    if k > 0 {
        lemma_normalized_plain(text, k - 1);
        assert(text.take(k) =~= text.take(k - 1).push(text[k - 1]));
    } else {
        assert(text.take(0) =~= Seq::<char>::empty());
    }
}

proof fn lemma_normalized_behind(front: Seq<char>, rest: Seq<char>, k: int)
    requires
        0 <= k <= rest.len(),
    ensures
        normalized(front + rest, front.len() + k) == normalized(
            front + rest,
            front.len() as int,
        ) + normalized(rest, k),
    decreases k,
{
    let text = front + rest;
    if k > 0 {
        lemma_normalized_behind(front, rest, k - 1);
        assert(text[front.len() + k - 1] == rest[k - 1]);
        if k < rest.len() {
            assert(text[front.len() + k] == rest[k]);
        }
        assert(normalized(text, front.len() + k) =~= normalized(text, front.len() as int)
            + normalized(rest, k));
    } else {
        assert(normalized(text, front.len() as int) =~= normalized(text, front.len() as int)
            + normalized(rest, 0));
    }
}

/// Pasted text is inserted as it is, but for the carriage returns that end its lines: a line keeps
/// its characters, a carriage return before a line break or at the end of the text is dropped, and
/// one before anything else is kept.
pub proof fn law_pasted_lines_keep_their_characters(line: Seq<char>, rest: Seq<char>)
    requires
        forall|i: int| 0 <= i < line.len() ==> #[trigger] line[i] != '\r',
    ensures
        normalized(line, line.len() as int) == line,
        normalized(line.push('\r'), line.len() as int + 1) == line,
        ({
            let whole = line + seq!['\r', '\n'] + rest;
            normalized(whole, whole.len() as int) == line.push('\n') + normalized(
                rest,
                rest.len() as int,
            )
        }),
        ({
            let whole = line + seq!['\n'] + rest;
            normalized(whole, whole.len() as int) == line.push('\n') + normalized(
                rest,
                rest.len() as int,
            )
        }),
        rest.len() > 0 && rest[0] != '\n' ==> {
            let whole = line + seq!['\r'] + rest;
            normalized(whole, whole.len() as int) == line.push('\r') + normalized(
                rest,
                rest.len() as int,
            )
        },
{
    let n = line.len() as int;
    lemma_normalized_plain(line, n);
    assert(line.take(n) =~= line);
    let returned = line.push('\r');
    lemma_normalized_plain(returned, n);
    assert(returned.take(n) =~= line);
    assert(returned[n] == '\r');
    let broken = line + seq!['\r', '\n'] + rest;
    lemma_normalized_plain(broken, n);
    assert(broken.take(n) =~= line);
    assert(broken[n] == '\r' && broken[n + 1] == '\n');
    lemma_normalized_behind(line + seq!['\r', '\n'], rest, rest.len() as int);
    assert(normalized(broken, n + 1) == line);
    assert(normalized(broken, n + 2) == line.push('\n'));
    let plain = line + seq!['\n'] + rest;
    lemma_normalized_plain(plain, n);
    assert(plain.take(n) =~= line);
    assert(plain[n] == '\n');
    lemma_normalized_behind(line + seq!['\n'], rest, rest.len() as int);
    assert(normalized(plain, n + 1) == line.push('\n'));
    if rest.len() > 0 && rest[0] != '\n' {
        let kept = line + seq!['\r'] + rest;
        lemma_normalized_plain(kept, n);
        assert(kept.take(n) =~= line);
        assert(kept[n] == '\r' && kept[n + 1] == rest[0]);
        lemma_normalized_behind(line + seq!['\r'], rest, rest.len() as int);
        assert(normalized(kept, n + 1) == line.push('\r'));
    }
}

proof fn lemma_layout_filled(text: Seq<char>, width: int, k: int)
    requires
        0 <= k <= text.len(),
        width >= 1,
    ensures
        !layout(text, width, k).last().hard,
        forall|i: int|
            0 <= i < layout(text, width, k).len() - 1 && !(#[trigger] layout(
                text,
                width,
                k,
            )[i]).hard ==> {
                let row = layout(text, width, k)[i];
                let next = layout(text, width, k)[i + 1];
                &&& next.text.len() > 0
                &&& row.col > 0
                &&& col_after(row.text.push(next.text[0]), row.col) > width
            },
    decreases k,
{
    lemma_layout_len(text, width, k);
    if k > 0 {
        lemma_layout_filled(text, width, k - 1);
        lemma_layout_len(text, width, k - 1);
        let before = layout(text, width, k - 1);
        let now = layout(text, width, k);
        let c = text[k - 1];
        let m = before.len() as int;
        assert forall|i: int| 0 <= i < now.len() - 1 && !(#[trigger] now[i]).hard implies {
            let row = now[i];
            let next = now[i + 1];
            &&& next.text.len() > 0
            &&& row.col > 0
            &&& col_after(row.text.push(next.text[0]), row.col) > width
        } by {
            if i < m - 1 {
                assert(now[i] == before[i]);
                assert(now[i + 1].text.len() >= before[i + 1].text.len());
                if before[i + 1].text.len() > 0 {
                    assert(now[i + 1].text[0] == before[i + 1].text[0]);
                }
            } else {
                assert(i == m - 1);
                assert(now[i] == before[m - 1]);
            }
        }
    }
}

/// Rows are as full as can be: a row that no line break ended had no room for the first character of
/// the next row.
pub proof fn law_rows_are_filled(text: Seq<char>, width: usize, i: int)
    requires
        0 <= i < rows(text, width).len() - 1,
        !rows(text, width)[i].hard,
    ensures
        rows(text, width)[i + 1].text.len() > 0,
        rows(text, width)[i].col > 0,
        col_after(
            rows(text, width)[i].text.push(rows(text, width)[i + 1].text[0]),
            rows(text, width)[i].col,
        ) > if width == 0 {
            1
        } else {
            width as int
        },
{
    lemma_layout_filled(text, wrap_width(width), text.len() as int);
}

/// The cells of a row hold its characters, each in a cell with at least one column, where its first
/// character takes a column.
pub proof fn law_cells_hold_the_row(text: Seq<char>, width: usize, i: int)
    requires
        0 <= i < rows(text, width).len(),
    ensures
        ({
            let row = rows(text, width)[i];
            &&& forall|k: int| 0 <= k < row.cells.len() ==> (#[trigger] row.cells[k]).width > 0
            &&& row.text.len() > 0 && col_after(row.text.take(1), 0) > 0 ==> all_cells_text(
                row.cells,
                row.cells.len() as int,
            ) == row.text
            &&& row.text.len() == 0 ==> row.cells.len() == 0
        }),
{
    lemma_layout_cells(text, wrap_width(width), text.len() as int);
    assert(cells_hold_row(rows(text, width)[i]));
}

/// The cursor after some characters is told by the bytes before it, and it stands in the last row
/// that these characters fill, behind them. Only a cursor that was moved to the start of a row that
/// wraps is shown there.
pub proof fn law_cursor_stands_behind_its_characters(
    text: Seq<char>,
    width: usize,
    k: int,
    hint: Option<(int, int)>,
)
    requires
        0 <= k <= text.len(),
        chars::byte_len(text) <= usize::MAX,
        text.len() < usize::MAX,
        layout(text, wrap_width(width), k).last().col <= usize::MAX,
    ensures
        ({
            let shown = cursor_place(text, wrap_width(width), k, hint);
            let rows = layout(text, wrap_width(width), k);
            &&& shown.byte == chars::byte_len(text.take(k))
            &&& hint is None ==> shown.row == rows.len() - 1 && shown.col == rows.last().col
            &&& shown.row == rows.len() - 1 || (shown.row == rows.len() && shown.col == 0 && hint
                == Some((wrap_width(width), rows.len() as int)))
        }),
        k == text.len() ==> cursor_place(text, wrap_width(width), k, hint).row == rows(
            text,
            width,
        ).len() - 1,
{
    lemma_offset_bound(text, k);
    lemma_layout_len(text, wrap_width(width), k);
    lemma_columns_not_negative(text, wrap_width(width), k);
}

proof fn lemma_columns_not_negative(text: Seq<char>, width: int, k: int)
    ensures
        layout(text, width, k).last().col >= 0,
    decreases k,
{
    lemma_layout_len(text, width, k);
    if k > 0 {
        lemma_layout_len(text, width, k - 1);
        lemma_columns_not_negative(text, width, k - 1);
    }
}

/// A window over the rows stays where it is as long as the cursor's row is in it.
pub proof fn law_visible_cursor_does_not_scroll(
    previous_scroll: u32,
    total_rows: u32,
    cursor_row: int,
    height: u16,
)
    requires
        0 <= cursor_row < total_rows,
        0 < height,
        ({
            let max = scroll_view::max_scroll(total_rows, height);
            &&& previous_scroll <= max
            &&& max - previous_scroll <= cursor_row < max - previous_scroll + height
        }),
    ensures
        scroll_for_cursor(previous_scroll, total_rows, cursor_row, height) == previous_scroll,
{
}

/// A box shows between one and fourteen rows of the text, has a cell of padding on each side and
/// leaves the other columns to the text.
pub proof fn law_box_fits_the_text(input: &InputEditor, area_width: u16)
    ensures
        ({
            let width = content_width(box_padding(), area_width);
            let count = rows(input.spec_text(), width).len();
            &&& area_width >= 2 ==> width == area_width - 2
            &&& area_width < 2 ==> width == 0
            &&& count <= 14 ==> input.spec_visual_rows(width) == count
            &&& count > 14 ==> input.spec_visual_rows(width) == 14
            &&& render_height(box_padding(), input, width) == input.spec_visual_rows(width) + 2
        }),
{
    let width = content_width(box_padding(), area_width);
    lemma_layout_len(input.spec_text(), wrap_width(width), input.spec_text().len() as int);
}

/// The cursor is drawn within the area, behind the padding and at its own row and column where the
/// area has room for it.
pub proof fn law_cursor_is_drawn_in_its_place(layout: InputBoxLayout, area: Rect)
    requires
        area.x + area.width <= u16::MAX,
        area.y + area.height <= u16::MAX,
        !area.empty(),
        layout.spec_cursor_col() <= u16::MAX,
    ensures
        layout.spec_cursor_position(area) is Some <==> layout.spec_cursor_row() is Some,
        layout.spec_cursor_position(area) matches Some(position) ==> {
            let x = area.x + layout.spec_padding().left + layout.spec_cursor_col();
            let y = area.y + layout.spec_padding().top + layout.spec_cursor_row()->0;
            &&& area.x <= position.x < area.x + area.width
            &&& area.y <= position.y < area.y + area.height
            &&& x < area.x + area.width ==> position.x == x
            &&& x >= area.x + area.width ==> position.x == area.x + area.width - 1
            &&& y < area.y + area.height ==> position.y == y
            &&& y >= area.y + area.height ==> position.y == area.y + area.height - 1
        },
{
}

/// A row that a line break ended is copied with a line break behind it, and one that was wrapped
/// without anything.
pub proof fn law_copying_keeps_line_breaks(row: VisualRow)
    ensures
        row.hard ==> row_separator(row) == CopySeparator::HardLine,
        !row.hard ==> row_separator(row) == CopySeparator::Empty,
{
}

/// Each cell of a row that starts within its width is drawn at its own column, and no other cell is.
pub proof fn law_cells_are_drawn_at_their_columns(row: RowView, y: u16, count: int, i: int)
    requires
        0 <= count <= row.cells.len(),
    ensures
        0 <= i < count && row.cells[i].column < row.width ==> row_drawing(row, y, count).contains(
            DrawnView {
                x: row.x.saturating_add(row.cells[i].column),
                y,
                text: row.cells[i].text,
                max_width: (row.width - row.cells[i].column) as u16,
            },
        ),
        forall|drawn: DrawnView| #[trigger]
            row_drawing(row, y, count).contains(drawn) ==> exists|k: int|
                {
                    &&& 0 <= k < count
                    &&& (#[trigger] row.cells[k]).column < row.width
                    &&& drawn.text == row.cells[k].text
                    &&& drawn.x == row.x.saturating_add(row.cells[k].column)
                    &&& drawn.y == y
                },
    decreases count,
{
    if count > 0 {
        law_cells_are_drawn_at_their_columns(row, y, count - 1, i);
        let before = row_drawing(row, y, count - 1);
        let now = row_drawing(row, y, count);
        let cell = row.cells[count - 1];
        let last = DrawnView {
            x: row.x.saturating_add(cell.column),
            y,
            text: cell.text,
            max_width: (row.width - cell.column) as u16,
        };
        if cell.column < row.width {
            assert(now == before.push(last));
            assert(now[before.len() as int] == last);
            assert forall|drawn: DrawnView| before.contains(drawn) implies now.contains(drawn) by {
                let j = choose|j: int| 0 <= j < before.len() && before[j] == drawn;
                assert(now[j] == drawn);
            }
            assert forall|drawn: DrawnView| #[trigger] now.contains(drawn) implies exists|k: int|
                {
                    &&& 0 <= k < count
                    &&& (#[trigger] row.cells[k]).column < row.width
                    &&& drawn.text == row.cells[k].text
                    &&& drawn.x == row.x.saturating_add(row.cells[k].column)
                    &&& drawn.y == y
                } by {
                let j = choose|j: int| 0 <= j < now.len() && now[j] == drawn;
                if j < before.len() {
                    assert(before[j] == drawn);
                    assert(before.contains(drawn));
                } else {
                    assert(row.cells[count - 1] == cell);
                }
            }
        }
    }
}

/// What a row draws comes behind what the rows above it draw; a row that is not on the screen draws
/// nothing.
pub proof fn law_rows_are_drawn_in_order(rows: Seq<RowView>, row: RowView)
    ensures
        ({
            let n = rows.len() as int;
            let before = rows_drawing(rows, n);
            let after = rows_drawing(rows.push(row), n + 1);
            &&& row.screen_y matches Some(y) ==> after == before + row_drawing(
                row,
                y,
                row.cells.len() as int,
            )
            &&& row.screen_y is None ==> after == before
        }),
        rows_drawing(Seq::empty(), 0).len() == 0,
{
    let n = rows.len() as int;
    lemma_rows_drawing_prefix(rows, row, n);
    assert(rows.push(row)[n] == row);
}

proof fn lemma_rows_drawing_prefix(rows: Seq<RowView>, row: RowView, count: int)
    requires
        0 <= count <= rows.len(),
    ensures
        rows_drawing(rows.push(row), count) == rows_drawing(rows, count),
    decreases count,
{
    if count > 0 {
        lemma_rows_drawing_prefix(rows, row, count - 1);
        assert(rows.push(row)[count - 1] == rows[count - 1]);
    }
}

/// The rows of a range are those rows of the text, each with its number and as it is, as far as there
/// are any.
pub proof fn law_ranges_hold_their_rows(
    collected: Seq<(usize, InputSelectionRow)>,
    rows: Seq<VisualRow>,
    start: int,
    end: int,
    j: int,
)
    requires
        rows_in_range(collected, rows, start, end),
        0 <= start,
    ensures
        start <= j < end && j < rows.len() ==> {
            &&& 0 <= j - start < collected.len()
            &&& collected[j - start].0 == j
            &&& collected[j - start].1.text@ == rows[j].text
            &&& selection::cell_views(collected[j - start].1.cells@) == rows[j].cells
        },
        collected.len() > 0 ==> start + collected.len() <= rows.len() && start + collected.len()
            <= end,
{
    if start <= j < end && j < rows.len() {
        assert(collected[j - start].0 == j);
    }
}

/// The box is as wide as its area without the padding and as high as its rows with it. Its window shows
/// the row of the cursor, counted from its first row.
pub proof fn law_box_shows_the_cursor(
    layout: InputBoxLayout,
    padding: Padding,
    input: &InputEditor,
    area_width: u16,
)
    requires
        layout.measures(padding, input, area_width, false),
        padding.left + padding.right <= area_width,
        padding.top + padding.bottom + 14 <= u16::MAX,
        rows(input.spec_text(), (area_width - padding.left - padding.right) as usize).len()
            < u32::MAX - u16::MAX,
    ensures
        ({
            let width = (area_width - padding.left - padding.right) as usize;
            let place = input.spec_cursor_place(width);
            let shown = input.spec_visual_rows(width);
            &&& layout.spec_content_width() == width
            &&& layout.spec_content_height() == shown
            &&& layout.spec_render_height() == shown + padding.top + padding.bottom
            &&& layout.spec_cursor_col() == place.col
            &&& place.row < rows(input.spec_text(), width).len() ==> {
                &&& layout.spec_cursor_row() is Some
                &&& layout.spec_cursor_row()->Some_0 < shown
                &&& layout.spec_viewport().spec_start() + layout.spec_cursor_row()->Some_0
                    == place.row
            }
        }),
{
    let width = (area_width - padding.left - padding.right) as usize;
    assert(padding.horizontal() == padding.left + padding.right);
    assert(padding.vertical() == padding.top + padding.bottom);
    lemma_layout_len(input.spec_text(), wrap_width(width), input.spec_text().len() as int);
    let place = input.spec_cursor_place(width);
    let total = rows(input.spec_text(), width).len() as u32;
    if place.row < total {
        law_cursor_row_is_shown(
            input.spec_scroll(),
            total,
            place.row as int,
            layout.spec_content_height(),
        );
    }
}

/// The rows that the window of a box shows are the rows of the text from its first row on, one below
/// the other from the top of the content.
pub proof fn law_window_of_the_box_shows_its_rows(
    layout: InputBoxLayout,
    input: &InputEditor,
    area: Rect,
    lines: Seq<RowView>,
    j: int,
)
    requires
        layout.maps(input, area, lines),
        !layout.spec_content_area(area).empty(),
        layout.spec_viewport().spec_area().y == 0,
        layout.spec_viewport().spec_end() - layout.spec_viewport().spec_start() <= u16::MAX,
        layout.spec_content_area(area).y + (layout.spec_viewport().spec_end()
            - layout.spec_viewport().spec_start()) <= u16::MAX,
        rows(input.spec_text(), layout.spec_content_width()).len() <= u32::MAX,
        0 <= j,
        layout.spec_viewport().spec_start() + j < layout.spec_viewport().spec_end(),
        layout.spec_viewport().spec_start() + j < rows(
            input.spec_text(),
            layout.spec_content_width(),
        ).len(),
    ensures
        ({
            let start = layout.spec_viewport().spec_start();
            let row = rows(input.spec_text(), layout.spec_content_width())[start + j];
            let content = layout.spec_content_area(area);
            &&& j < lines.len()
            &&& lines[j].text == row.text
            &&& lines[j].cells == row.cells
            &&& lines[j].y == start + j
            &&& lines[j].x == content.x
            &&& lines[j].width == content.width
            &&& lines[j].screen_y == Some((content.y + j) as u16)
            &&& row.hard ==> lines[j].separator is HardLine
            &&& !row.hard ==> lines[j].separator is Empty
        }),
{
}

/// The content of a box is its area without the padding.
pub proof fn law_content_lies_within_the_padding(layout: InputBoxLayout, area: Rect)
    requires
        !area.empty(),
        area.x + area.width <= u16::MAX,
        area.y + area.height <= u16::MAX,
        layout.spec_padding().left + layout.spec_padding().right <= area.width,
        layout.spec_padding().top + layout.spec_padding().bottom <= area.height,
    ensures
        ({
            let content = layout.spec_content_area(area);
            let padding = layout.spec_padding();
            &&& content.x == area.x + padding.left
            &&& content.y == area.y + padding.top
            &&& content.x + content.width == area.x + area.width - padding.right
            &&& content.y + content.height == area.y + area.height - padding.bottom
        }),
{
}

/// A row to be selected from has the width of its text, as far as widths can be counted.
pub proof fn law_rows_are_as_wide_as_their_text(shown: InputSelectionRow, row: VisualRow)
    requires
        shown.shows(row),
        text::width_of(row.text) <= u16::MAX,
    ensures
        shown.text_width == text::width_of(row.text),
        shown.text@ == row.text,
        row.hard ==> shown.copy_separator == CopySeparator::HardLine,
        !row.hard ==> shown.copy_separator == CopySeparator::Empty,
{
}

} // verus!
