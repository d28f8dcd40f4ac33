//! Scrolling over content of which only a window is on screen.
//!
//! Scroll offsets count rows from the bottom, so content that grows keeps its latest rows in view.

use crate::geometry::{Rect, Size};
use std::ops::Range;
use vstd::prelude::*;

verus! {

/// How far the content can be scrolled away from its bottom.
pub open spec fn max_scroll(total_height: u32, viewport_height: u16) -> u32 {
    total_height.saturating_sub(viewport_height as u32)
}

pub open spec fn min_u32(a: u32, b: u32) -> u32 {
    if a <= b {
        a
    } else {
        b
    }
}

/// A scroll offset moved by `delta` rows, upwards if positive, and kept within `0..=max`.
pub open spec fn scrolled(offset: u32, delta: int, max: u32) -> int {
    if offset + delta < 0 {
        0
    } else if offset + delta > max {
        max as int
    } else {
        offset + delta
    }
}

/// The scroll offset of a view, in rows from the bottom.
#[derive(Clone, Copy, Debug, PartialEq, Eq, Structural)]
pub struct ScrollViewState {
    scroll_from_bottom: u32,
}

pub type ScrollState = ScrollViewState;

impl View for ScrollViewState {
    type V = u32;

    closed spec fn view(&self) -> u32 {
        self.scroll_from_bottom
    }
}

impl Default for ScrollViewState {
    fn default() -> (state: ScrollViewState)
        ensures
            state@ == 0,
    {
        ScrollViewState { scroll_from_bottom: 0 }
    }
}

impl ScrollViewState {
    pub fn new() -> (state: ScrollViewState)
        ensures
            state@ == 0,
    {
        ScrollViewState { scroll_from_bottom: 0 }
    }

    pub fn from_bottom(scroll_from_bottom: u32) -> (state: ScrollViewState)
        ensures
            state@ == scroll_from_bottom,
    {
        ScrollViewState { scroll_from_bottom }
    }

    pub fn scroll_from_bottom(self) -> (offset: u32)
        ensures
            offset == self@,
    {
        self.scroll_from_bottom
    }

    pub fn clamp(&mut self, max_scroll_from_bottom: u32) -> (changed: bool)
        ensures
            final(self)@ == min_u32(old(self)@, max_scroll_from_bottom),
            changed == (final(self)@ != old(self)@),
    {
        self.set_scroll_from_bottom(self.scroll_from_bottom, max_scroll_from_bottom)
    }

    pub fn set_scroll_from_bottom(
        &mut self,
        scroll_from_bottom: u32,
        max_scroll_from_bottom: u32,
    ) -> (changed: bool)
        ensures
            final(self)@ == min_u32(scroll_from_bottom, max_scroll_from_bottom),
            changed == (final(self)@ != old(self)@),
    {
        let scroll_from_bottom: u32 = scroll_from_bottom.min(max_scroll_from_bottom);
        let changed = self.scroll_from_bottom != scroll_from_bottom;
        self.scroll_from_bottom = scroll_from_bottom;
        changed
    }

    pub fn scroll_by(&mut self, delta: i32, max_scroll_from_bottom: u32) -> (changed: bool)
        ensures
            final(self)@ == scrolled(old(self)@, delta as int, max_scroll_from_bottom),
            changed == (final(self)@ != old(self)@),
    {
        let scroll_from_bottom: u32 = if delta > 0 {
            self.scroll_from_bottom.saturating_add(magnitude(delta))
        } else if delta < 0 {
            self.scroll_from_bottom.saturating_sub(magnitude(delta))
        } else {
            self.scroll_from_bottom
        };

        self.set_scroll_from_bottom(scroll_from_bottom, max_scroll_from_bottom)
    }

    pub fn scroll_up(&mut self, max_scroll_from_bottom: u32) -> (changed: bool)
        ensures
            final(self)@ == scrolled(old(self)@, 1, max_scroll_from_bottom),
            changed == (final(self)@ != old(self)@),
    {
        self.scroll_by(1, max_scroll_from_bottom)
    }

    pub fn scroll_down(&mut self, max_scroll_from_bottom: u32) -> (changed: bool)
        ensures
            final(self)@ == scrolled(old(self)@, -1, max_scroll_from_bottom),
            changed == (final(self)@ != old(self)@),
    {
        self.scroll_by(-1, max_scroll_from_bottom)
    }

    pub fn scroll_page_up(&mut self, viewport_height: u16, max_scroll_from_bottom: u32) -> (changed:
        bool)
        ensures
            final(self)@ == scrolled(old(self)@, viewport_height as int, max_scroll_from_bottom),
            changed == (final(self)@ != old(self)@),
    {
        self.scroll_by(viewport_height as i32, max_scroll_from_bottom)
    }

    pub fn scroll_page_down(
        &mut self,
        viewport_height: u16,
        max_scroll_from_bottom: u32,
    ) -> (changed: bool)
        ensures
            final(self)@ == scrolled(
                old(self)@,
                0 - viewport_height,
                max_scroll_from_bottom,
            ),
            changed == (final(self)@ != old(self)@),
    {
        self.scroll_by(0 - viewport_height as i32, max_scroll_from_bottom)
    }

    pub fn scroll_to_top(&mut self, max_scroll_from_bottom: u32) -> (changed: bool)
        ensures
            final(self)@ == max_scroll_from_bottom,
            changed == (final(self)@ != old(self)@),
    {
        self.set_scroll_from_bottom(max_scroll_from_bottom, max_scroll_from_bottom)
    }

    pub fn scroll_to_bottom(&mut self, max_scroll_from_bottom: u32) -> (changed: bool)
        ensures
            final(self)@ == 0,
            changed == (final(self)@ != old(self)@),
    {
        self.set_scroll_from_bottom(0, max_scroll_from_bottom)
    }
}

/// Scrolling up and down again by the same number of rows returns to the same place, unless the
/// top was reached on the way.
pub proof fn law_scroll_up_then_down(offset: u32, rows: int, max: u32)
    requires
        0 <= rows,
        offset + rows <= max,
    ensures
        scrolled(scrolled(offset, rows, max) as u32, 0 - rows, max) == offset,
{
}

/// Whatever the delta, the offset stays within the content, and a move against an edge that was
/// reached changes nothing.
pub proof fn law_scroll_stays_in_range(offset: u32, delta: int, max: u32)
    ensures
        0 <= scrolled(offset, delta, max) <= max,
        offset == max && delta >= 0 ==> scrolled(offset, delta, max) == offset,
        offset == 0 && delta <= 0 ==> scrolled(offset, delta, max) == offset,
{
}

fn magnitude(delta: i32) -> (m: u32)
    ensures
        m == if delta < 0 {
            -delta
        } else {
            delta as int
        },
{
    if delta < 0 {
        (0 - delta as i64) as u32
    } else {
        delta as u32
    }
}

/// The heights of the first `k` items together, at most `u32::MAX`.
pub open spec fn prefix_height(heights: Seq<u32>, k: int) -> u32
    decreases k,
{
    if k <= 0 {
        0
    } else {
        prefix_height(heights, k - 1).saturating_add(heights[k - 1])
    }
}

pub open spec fn spec_prefix_heights(heights: Seq<u32>) -> Seq<u32> {
    Seq::new(heights.len() + 1, |k: int| prefix_height(heights, k))
}

pub open spec fn sorted(heights: Seq<u32>) -> bool {
    forall|i: int, j: int| 0 <= i <= j < heights.len() ==> heights[i] <= heights[j]
}

/// Prefix heights never decrease.
pub proof fn law_prefix_heights_sorted(heights: Seq<u32>)
    ensures
        sorted(spec_prefix_heights(heights)),
        spec_prefix_heights(heights)[0] == 0,
{
    assert forall|i: int, j: int| 0 <= i <= j <= heights.len() implies prefix_height(heights, i)
        <= prefix_height(heights, j) by {
        lemma_prefix_height_increasing(heights, i, j);
    }
}

proof fn lemma_prefix_height_increasing(heights: Seq<u32>, i: int, j: int)
    requires
        0 <= i <= j,
    ensures
        prefix_height(heights, i) <= prefix_height(heights, j),
    decreases j,
{
    if i < j {
        lemma_prefix_height_increasing(heights, i, j - 1);
    }
}

pub fn item_prefix_heights<T, F: Fn(&T) -> u32>(items: &[T], height_of: F) -> (prefix: Vec<u32>)
    requires
        forall|i: int| 0 <= i < items@.len() ==> call_requires(height_of, (&#[trigger] items@[i],)),
        items@.len() < usize::MAX,
    ensures
        exists|heights: Seq<u32>|
            {
                &&& heights.len() == items@.len()
                &&& prefix@ == #[trigger] spec_prefix_heights(heights)
                &&& forall|i: int|
                    0 <= i < items@.len() ==> call_ensures(
                        height_of,
                        (&#[trigger] items@[i],),
                        heights[i],
                    )
            },
{
    let mut prefix_heights: Vec<u32> = Vec::with_capacity(items.len() + 1);
    prefix_heights.push(0);
    let mut total: u32 = 0;
    let mut i: usize = 0;
    let ghost mut heights: Seq<u32> = Seq::empty();
    assert(prefix_heights@ =~= spec_prefix_heights(heights));
    while i < items.len()
        invariant
            i <= items@.len(),
            heights.len() == i,
            total == prefix_height(heights, i as int),
            prefix_heights@ == spec_prefix_heights(heights),
            forall|k: int|
                0 <= k < items@.len() ==> call_requires(height_of, (&#[trigger] items@[k],)),
            forall|k: int|
                0 <= k < i ==> call_ensures(height_of, (&#[trigger] items@[k],), heights[k]),
        decreases items@.len() - i,
    {
        let height: u32 = height_of(&items[i]);
        let ghost before = heights;
        proof {
            heights = heights.push(height);
            assert forall|k: int| 0 <= k <= i implies prefix_height(heights, k) == prefix_height(
                before,
                k,
            ) by {
                lemma_prefix_height_push(before, height, k);
            }
        }
        total = total.saturating_add(height);
        prefix_heights.push(total);
        i = i + 1;
        assert(prefix_heights@ =~= spec_prefix_heights(heights));
    }
    prefix_heights
}

pub proof fn lemma_prefix_height_push(heights: Seq<u32>, height: u32, k: int)
    requires
        0 <= k <= heights.len(),
    ensures
        prefix_height(heights.push(height), k) == prefix_height(heights, k),
    decreases k,
{
    if k > 0 {
        lemma_prefix_height_push(heights, height, k - 1);
    }
}

pub fn max_scroll_from_bottom(total_height: u32, viewport_height: u16) -> (rows: u32)
    ensures
        rows == max_scroll(total_height, viewport_height),
{
    total_height.saturating_sub(viewport_height as u32)
}

pub open spec fn spec_u16_saturated(value: u32) -> u16 {
    if value <= u16::MAX {
        value as u16
    } else {
        u16::MAX
    }
}

fn u16_saturated(value: u32) -> (clipped: u16)
    ensures
        clipped == spec_u16_saturated(value),
{
    if value <= u16::MAX as u32 {
        value as u16
    } else {
        u16::MAX
    }
}

/// Items with the running total of their heights.
#[derive(Clone, Debug)]
pub struct VirtualContent<'a, T> {
    items: &'a [T],
    prefix_heights: Vec<u32>,
}

impl<'a, T> VirtualContent<'a, T> {
    pub closed spec fn spec_items(&self) -> Seq<T> {
        self.items@
    }

    pub closed spec fn spec_prefix(&self) -> Seq<u32> {
        self.prefix_heights@
    }

    pub open spec fn spec_total_height(&self) -> u32 {
        if self.spec_prefix().len() == 0 {
            0
        } else {
            self.spec_prefix().last()
        }
    }

    pub fn new<F: Fn(&T) -> u32>(items: &'a [T], height_of: F) -> (content: Self)
        requires
            forall|i: int|
                0 <= i < items@.len() ==> call_requires(height_of, (&#[trigger] items@[i],)),
            items@.len() < usize::MAX,
        ensures
            content.spec_items() == items@,
            exists|heights: Seq<u32>|
                {
                    &&& heights.len() == items@.len()
                    &&& content.spec_prefix() == #[trigger] spec_prefix_heights(heights)
                    &&& forall|i: int|
                        0 <= i < items@.len() ==> call_ensures(
                            height_of,
                            (&#[trigger] items@[i],),
                            heights[i],
                        )
                },
    {
        VirtualContent { items, prefix_heights: item_prefix_heights(items, height_of) }
    }

    pub fn from_prefix_heights(items: &'a [T], prefix_heights: &'a [u32]) -> (content: Self)
        requires
            prefix_heights@.len() == items@.len() + 1,
        ensures
            content.spec_items() == items@,
            content.spec_prefix() == prefix_heights@,
    {
        let mut copied: Vec<u32> = Vec::with_capacity(prefix_heights.len());
        let mut i: usize = 0;
        while i < prefix_heights.len()
            invariant
                i <= prefix_heights@.len(),
                copied@ == prefix_heights@.take(i as int),
            decreases prefix_heights@.len() - i,
        {
            copied.push(prefix_heights[i]);
            i = i + 1;
            assert(copied@ =~= prefix_heights@.take(i as int));
        }
        assert(copied@ =~= prefix_heights@);
        VirtualContent { items, prefix_heights: copied }
    }

    pub fn items(&self) -> (items: &'a [T])
        ensures
            items@ == self.spec_items(),
    {
        self.items
    }

    pub fn prefix_heights(&self) -> (prefix: &[u32])
        ensures
            prefix@ == self.spec_prefix(),
    {
        self.prefix_heights.as_slice()
    }

    pub fn total_height(&self) -> (height: u32)
        ensures
            height == self.spec_total_height(),
    {
        if self.prefix_heights.len() == 0 {
            0
        } else {
            self.prefix_heights[self.prefix_heights.len() - 1]
        }
    }

    pub fn size(&self, width: u16) -> (size: Size)
        ensures
            size == (Size { width, height: spec_u16_saturated(self.spec_total_height()) }),
    {
        Size::new(width, u16_saturated(self.total_height()))
    }

    pub fn viewport(&self, area: Rect, state: ScrollViewState) -> (viewport: VirtualViewport)
        ensures
            viewport.shows(area, self.spec_total_height(), state@),
            viewport.spec_content_size() == (Size {
                width: area.width,
                height: spec_u16_saturated(self.spec_total_height()),
            }),
    {
        VirtualViewport::new(area, self.total_height(), state.scroll_from_bottom())
    }

    pub fn visible_range(&self, viewport: VirtualViewport) -> (range: Range<usize>)
        requires
            sorted(self.spec_prefix()),
        ensures
            range.start == viewport.first_visible(self.spec_prefix()),
            range.end == viewport.end_visible(self.spec_prefix()),
    {
        viewport.visible_item_range(self.prefix_heights.as_slice())
    }

    /// The items that have a row in the viewport, from the top.
    pub fn for_each_visible(&self, viewport: VirtualViewport) -> (visible: Vec<VisibleItem>)
        requires
            sorted(self.spec_prefix()),
        ensures
            visible@ == viewport.visible_items(self.spec_prefix()),
    {
        viewport.for_each_visible_index(self.prefix_heights.as_slice())
    }
}

/// The number of heights that are at most `bound`.
pub open spec fn count_at_most(heights: Seq<u32>, bound: int) -> nat
    decreases heights.len(),
{
    if heights.len() == 0 {
        0
    } else if heights.last() <= bound {
        count_at_most(heights.drop_last(), bound) + 1
    } else {
        count_at_most(heights.drop_last(), bound)
    }
}

proof fn lemma_count_is_partition(heights: Seq<u32>, bound: int, p: int)
    requires
        0 <= p <= heights.len(),
        forall|i: int| 0 <= i < p ==> heights[i] <= bound,
        forall|i: int| p <= i < heights.len() ==> heights[i] > bound,
    ensures
        count_at_most(heights, bound) == p,
    decreases heights.len(),
{
    if heights.len() > 0 {
        if p == heights.len() {
            lemma_count_is_partition(heights.drop_last(), bound, p - 1);
        } else {
            lemma_count_is_partition(heights.drop_last(), bound, p);
        }
    }
}

/// The number of leading heights that are below `bound`.
pub(crate) fn partition_below(heights: &[u32], bound: u64) -> (count: usize)
    requires
        sorted(heights@),
    ensures
        count == count_at_most(heights@, bound - 1),
        count <= heights@.len(),
        forall|i: int| 0 <= i < count ==> heights@[i] < bound,
        forall|i: int| count <= i < heights@.len() ==> heights@[i] >= bound,
{
    let mut low: usize = 0;
    let mut high: usize = heights.len();
    while low < high
        invariant
            low <= high <= heights@.len(),
            sorted(heights@),
            forall|i: int| 0 <= i < low ==> heights@[i] < bound,
            forall|i: int| high <= i < heights@.len() ==> heights@[i] >= bound,
        decreases high - low,
    {
        let middle: usize = low + (high - low) / 2;
        if (heights[middle] as u64) < bound {
            low = middle + 1;
        } else {
            high = middle;
        }
    }
    proof {
        lemma_count_is_partition(heights@, bound - 1, low as int);
    }
    low
}

/// A window of the screen over rows `source_start..source_end` of the content.
#[derive(Clone, Copy, Debug, PartialEq, Eq, Structural)]
pub struct VirtualViewport {
    area: Rect,
    content_size: Size,
    total_height: u32,
    scroll_from_bottom: u32,
    source_start: u32,
    source_end: u32,
}

impl VirtualViewport {
    pub closed spec fn spec_area(self) -> Rect {
        self.area
    }

    pub closed spec fn spec_content_size(self) -> Size {
        self.content_size
    }

    pub closed spec fn spec_total_height(self) -> u32 {
        self.total_height
    }

    pub closed spec fn spec_scroll(self) -> u32 {
        self.scroll_from_bottom
    }

    pub closed spec fn spec_start(self) -> u32 {
        self.source_start
    }

    pub closed spec fn spec_end(self) -> u32 {
        self.source_end
    }

    /// The viewport of `area` over `total_height` rows, scrolled by `scroll` rows or as far as
    /// the content allows.
    pub open spec fn shows(self, area: Rect, total_height: u32, scroll: u32) -> bool {
        &&& self.spec_area() == area
        &&& self.spec_total_height() == total_height
        &&& self.spec_scroll() == min_u32(scroll, max_scroll(total_height, area.height))
        &&& self.spec_start() == max_scroll(total_height, area.height) - self.spec_scroll()
        &&& self.spec_end() == self.spec_start().saturating_add(area.height as u32)
    }

    #[verifier::type_invariant]
    closed spec fn inv(self) -> bool {
        self.shows(self.area, self.total_height, self.scroll_from_bottom)
    }

    pub fn new(area: Rect, total_height: u32, scroll_from_bottom: u32) -> (viewport: Self)
        ensures
            viewport.shows(area, total_height, scroll_from_bottom),
            viewport.spec_content_size() == (Size {
                width: area.width,
                height: spec_u16_saturated(total_height),
            }),
    {
        Self::with_content_size(
            area,
            Size::new(area.width, u16_saturated(total_height)),
            total_height,
            scroll_from_bottom,
        )
    }

    pub fn with_content_size(
        area: Rect,
        content_size: Size,
        total_height: u32,
        scroll_from_bottom: u32,
    ) -> (viewport: Self)
        ensures
            viewport.shows(area, total_height, scroll_from_bottom),
            viewport.spec_content_size() == content_size,
    {
        let max_scroll_from_bottom: u32 = max_scroll_from_bottom(total_height, area.height);
        let scroll_from_bottom: u32 = scroll_from_bottom.min(max_scroll_from_bottom);
        let source_start: u32 = max_scroll_from_bottom.saturating_sub(scroll_from_bottom);
        let source_end: u32 = source_start.saturating_add(area.height as u32);
        VirtualViewport {
            area,
            content_size,
            total_height,
            scroll_from_bottom,
            source_start,
            source_end,
        }
    }

    pub fn area(self) -> (area: Rect)
        ensures
            area == self.spec_area(),
    {
        self.area
    }

    pub fn content_size(self) -> (size: Size)
        ensures
            size == self.spec_content_size(),
    {
        self.content_size
    }

    pub fn total_height(self) -> (height: u32)
        ensures
            height == self.spec_total_height(),
    {
        self.total_height
    }

    pub fn scroll_from_bottom(self) -> (rows: u32)
        ensures
            rows == self.spec_scroll(),
    {
        self.scroll_from_bottom
    }

    pub fn source_start(self) -> (row: u32)
        ensures
            row == self.spec_start(),
    {
        self.source_start
    }

    pub fn source_end(self) -> (row: u32)
        ensures
            row == self.spec_end(),
    {
        self.source_end
    }

    pub fn max_scroll_from_bottom(self) -> (rows: u32)
        ensures
            rows == max_scroll(self.spec_total_height(), self.spec_area().height),
    {
        max_scroll_from_bottom(self.total_height, self.area.height)
    }

    /// The screen row that shows a row of the content.
    pub open spec fn spec_screen_y(self, source_y: u32) -> Option<u16> {
        if self.spec_start() <= source_y < self.spec_end() {
            Some(self.spec_area().y.saturating_add((source_y - self.spec_start()) as u16))
        } else {
            None
        }
    }

    pub fn screen_y(self, source_y: u32) -> (y: Option<u16>)
        ensures
            y == self.spec_screen_y(source_y),
    {
        if source_y >= self.source_start && source_y < self.source_end {
            proof {
                use_type_invariant(self);
            }
            Some(self.area.y.saturating_add((source_y - self.source_start) as u16))
        } else {
            None
        }
    }

    /// The part of the rows `top..bottom` that lies in the viewport.
    pub open spec fn spec_visible_range(self, top: u32, bottom: u32) -> Option<(u32, u32)> {
        let visible_top = if top >= self.spec_start() {
            top
        } else {
            self.spec_start()
        };
        let visible_bottom = min_u32(bottom, self.spec_end());
        if visible_top < visible_bottom {
            Some((visible_top, visible_bottom))
        } else {
            None
        }
    }

    pub fn visible_range(self, top: u32, bottom: u32) -> (range: Option<(u32, u32)>)
        ensures
            range == self.spec_visible_range(top, bottom),
    {
        let visible_top: u32 = top.max(self.source_start);
        let visible_bottom: u32 = bottom.min(self.source_end);
        if visible_top < visible_bottom {
            Some((visible_top, visible_bottom))
        } else {
            None
        }
    }

    /// The first item that reaches below the top of the viewport, or the number of items.
    pub open spec fn first_visible(self, prefix: Seq<u32>) -> int {
        if self.spec_area().empty() || prefix.len() < 2 {
            0
        } else {
            let before = count_at_most(prefix, self.spec_start() as int) - 1;
            if before < 0 {
                0
            } else if before > prefix.len() - 1 {
                prefix.len() - 1
            } else {
                before
            }
        }
    }

    /// One past the last item that starts above the bottom of the viewport.
    pub open spec fn end_visible(self, prefix: Seq<u32>) -> int {
        if self.spec_area().empty() || prefix.len() < 2 {
            0
        } else {
            let above = count_at_most(prefix, self.spec_end() - 1) as int;
            let end = if above > prefix.len() - 1 {
                prefix.len() - 1
            } else {
                above
            };
            if end < self.first_visible(prefix) {
                self.first_visible(prefix)
            } else {
                end
            }
        }
    }

    pub fn visible_item_range(self, prefix_heights: &[u32]) -> (range: Range<usize>)
        requires
            sorted(prefix_heights@),
        ensures
            range.start == self.first_visible(prefix_heights@),
            range.end == self.end_visible(prefix_heights@),
            range.start <= range.end,
            prefix_heights@.len() > 0 ==> range.end < prefix_heights@.len(),
            // Items outside of the range have no row in the viewport.
            forall|i: int|
                0 <= i < prefix_heights@.len() - 1 && !self.spec_area().empty() && !(range.start <= i
                    < range.end) ==> self.spec_visible_item(prefix_heights@, i) is None,
    {
        if self.area.is_empty() || prefix_heights.len() < 2 {
            return Range { start: 0, end: 0 };
        }
        let item_count: usize = prefix_heights.len() - 1;
        let reached: usize = partition_below(prefix_heights, self.source_start as u64 + 1);
        let start: usize = reached.saturating_sub(1).min(item_count);
        let started: usize = partition_below(prefix_heights, self.source_end as u64);
        let end: usize = started.min(item_count);
        Range { start, end: end.max(start) }
    }

    /// The items that have a row in the viewport, from the top.
    pub fn for_each_visible_index(self, prefix_heights: &[u32]) -> (visible: Vec<VisibleItem>)
        requires
            sorted(prefix_heights@),
        ensures
            visible@ == self.visible_items(prefix_heights@),
    {
        let range = self.visible_item_range(prefix_heights);
        let mut visible: Vec<VisibleItem> = Vec::new();
        if self.area.is_empty() || prefix_heights.len() < 2 {
            return visible;
        }
        let mut index: usize = range.start;
        proof {
            self.lemma_none_visible(prefix_heights@, 0, range.start as int);
        }
        while index < range.end
            invariant
                range.start <= index <= range.end,
                range.end < prefix_heights@.len(),
                visible@ == self.visible_upto(prefix_heights@, index as int),
            decreases range.end - index,
        {
            if let Some(item) = self.visible_item(prefix_heights, index) {
                visible.push(item);
            }
            index = index + 1;
        }
        proof {
            self.lemma_none_visible(
                prefix_heights@,
                range.end as int,
                prefix_heights@.len() - 1,
            );
        }
        visible
    }

    proof fn lemma_none_visible(self, prefix: Seq<u32>, from: int, to: int)
        requires
            0 <= from <= to < prefix.len(),
            forall|i: int| from <= i < to ==> self.spec_visible_item(prefix, i) is None,
        ensures
            self.visible_upto(prefix, to) == self.visible_upto(prefix, from),
        decreases to - from,
    {
        if from < to {
            self.lemma_none_visible(prefix, from, to - 1);
        }
    }

    /// Visible items are items, and no wider than the viewport.
    pub proof fn lemma_visible_in_range(self, prefix: Seq<u32>, count: int)
        requires
            count < prefix.len() <= usize::MAX,
        ensures
            forall|i: int|
                0 <= i < self.visible_upto(prefix, count).len() ==> {
                    let item = #[trigger] self.visible_upto(prefix, count)[i];
                    &&& item.index < prefix.len() - 1
                    &&& item.target.width <= self.spec_area().width
                },
        decreases count,
    {
        if count > 0 {
            self.lemma_visible_in_range(prefix, count - 1);
            let before = self.visible_upto(prefix, count - 1);
            let now = self.visible_upto(prefix, count);
            assert forall|i: int| 0 <= i < now.len() implies {
                let item = #[trigger] now[i];
                &&& item.index < prefix.len() - 1
                &&& item.target.width <= self.spec_area().width
            } by {
                if i < before.len() {
                    assert(now[i] == before[i]);
                }
            }
        }
    }

    /// The visible items among the first `count` items.
    pub open spec fn visible_upto(self, prefix: Seq<u32>, count: int) -> Seq<VisibleItem>
        decreases count,
    {
        if count <= 0 {
            Seq::empty()
        } else {
            match self.spec_visible_item(prefix, count - 1) {
                Some(item) => self.visible_upto(prefix, count - 1).push(item),
                None => self.visible_upto(prefix, count - 1),
            }
        }
    }

    /// All visible items.
    pub open spec fn visible_items(self, prefix: Seq<u32>) -> Seq<VisibleItem> {
        if self.spec_area().empty() {
            Seq::empty()
        } else {
            self.visible_upto(prefix, prefix.len() - 1)
        }
    }

    /// The visible part of the item whose rows run from `prefix[index]` to `prefix[index + 1]`.
    pub open spec fn spec_visible_item(self, prefix: Seq<u32>, index: int) -> Option<VisibleItem> {
        if 0 <= index < prefix.len() - 1 {
            match self.spec_visible_range(prefix[index], prefix[index + 1]) {
                Some((top, bottom)) => Some(
                    VisibleItem {
                        index: index as usize,
                        item_top: prefix[index],
                        item_bottom: prefix[index + 1],
                        visible_top: (top - prefix[index]) as u32,
                        visible_bottom: (bottom - prefix[index]) as u32,
                        target: Rect::spec_new(
                            self.spec_area().x,
                            self.spec_area().y.saturating_add((top - self.spec_start()) as u16),
                            self.spec_area().width,
                            (bottom - top) as u16,
                        ),
                    },
                ),
                None => None,
            }
        } else {
            None
        }
    }

    fn visible_item(self, prefix_heights: &[u32], index: usize) -> (item: Option<VisibleItem>)
        ensures
            item == self.spec_visible_item(prefix_heights@, index as int),
    {
        if index >= prefix_heights.len() || index + 1 >= prefix_heights.len() {
            return None;
        }
        let item_top: u32 = prefix_heights[index];
        let item_bottom: u32 = prefix_heights[index + 1];
        match self.visible_range(item_top, item_bottom) {
            None => None,
            Some((top, bottom)) => {
                proof {
                    use_type_invariant(self);
                }
                let target_y: u16 = self.area.y.saturating_add((top - self.source_start) as u16);
                Some(
                    VisibleItem {
                        index,
                        item_top,
                        item_bottom,
                        visible_top: top - item_top,
                        visible_bottom: bottom - item_top,
                        target: Rect::new(
                            self.area.x,
                            target_y,
                            self.area.width,
                            (bottom - top) as u16,
                        ),
                    },
                )
            },
        }
    }
}

/// The part of an item that a viewport shows, and where it goes on the screen.
#[derive(Clone, Copy, Debug, PartialEq, Eq, Structural)]
pub struct VisibleItem {
    pub index: usize,
    pub item_top: u32,
    pub item_bottom: u32,
    pub visible_top: u32,
    pub visible_bottom: u32,
    pub target: Rect,
}

/// The screen rows that the first `count` items take together.
pub open spec fn rows_taken(items: Seq<VisibleItem>, count: int) -> int
    decreases count,
{
    if count <= 0 {
        0
    } else {
        rows_taken(items, count - 1) + items[count - 1].target.height
    }
}

/// How many of the rows above row `y` of the content are in a viewport.
spec fn rows_shown_above(viewport: VirtualViewport, y: u32) -> int {
    if y <= viewport.spec_start() {
        0
    } else if y <= viewport.spec_end() {
        y - viewport.spec_start()
    } else {
        viewport.spec_end() - viewport.spec_start()
    }
}

/// Whether items follow each other down an area, from its top, each over its whole width.
pub open spec fn stacked(items: Seq<VisibleItem>, area: Rect) -> bool {
    forall|i: int|
        0 <= i < items.len() ==> {
            let target = (#[trigger] items[i]).target;
            &&& target.x == area.x
            &&& target.width == area.width
            &&& target.height > 0
            &&& target.y == area.y + rows_taken(items, i)
        }
}

proof fn lemma_rows_taken_push(items: Seq<VisibleItem>, item: VisibleItem, count: int)
    requires
        0 <= count <= items.len(),
    ensures
        rows_taken(items.push(item), count) == rows_taken(items, count),
    decreases count,
{
    if count > 0 {
        lemma_rows_taken_push(items, item, count - 1);
    }
}

proof fn lemma_items_stack(viewport: VirtualViewport, prefix: Seq<u32>, area: Rect, count: int)
    requires
        0 <= count < prefix.len(),
        viewport.spec_area() == area,
        viewport.spec_start() <= viewport.spec_end(),
        viewport.spec_end() - viewport.spec_start() <= area.height,
        area.y + area.height <= u16::MAX,
        area.x + area.width <= u16::MAX,
        sorted(prefix),
        prefix[0] == 0,
    ensures
        ({
            let items = viewport.visible_upto(prefix, count);
            &&& stacked(items, area)
            &&& rows_taken(items, items.len() as int) == rows_shown_above(viewport, prefix[count])
        }),
    decreases count,
{
    if count > 0 {
        lemma_items_stack(viewport, prefix, area, count - 1);
        let before = viewport.visible_upto(prefix, count - 1);
        let items = viewport.visible_upto(prefix, count);
        assert(prefix[count - 1] <= prefix[count]);
        match viewport.spec_visible_item(prefix, count - 1) {
            Some(item) => {
                assert forall|i: int| 0 <= i <= before.len() implies rows_taken(items, i)
                    == rows_taken(before, i) by {
                    lemma_rows_taken_push(before, item, i);
                }
                assert forall|i: int| 0 <= i < items.len() implies {
                    let target = (#[trigger] items[i]).target;
                    &&& target.x == area.x
                    &&& target.width == area.width
                    &&& target.height > 0
                    &&& target.y == area.y + rows_taken(items, i)
                } by {
                    if i < before.len() {
                        assert(items[i] == before[i]);
                    }
                }
            },
            None => {},
        }
    }
}

/// The items that are visible fill the window: they follow each other from its top without gaps
/// and without overlapping, down to its bottom or to the end of the content.
pub proof fn law_window_is_filled(
    viewport: VirtualViewport,
    prefix: Seq<u32>,
    area: Rect,
    scroll: u32,
)
    requires
        prefix.len() > 0,
        prefix[0] == 0,
        sorted(prefix),
        viewport.shows(area, prefix.last(), scroll),
        !area.empty(),
        area.x + area.width <= u16::MAX,
        area.y + area.height <= u16::MAX,
    ensures
        ({
            let items = viewport.visible_items(prefix);
            &&& stacked(items, area)
            &&& rows_taken(items, items.len() as int) == min_u32(
                prefix.last(),
                area.height as u32,
            )
        }),
{
    lemma_items_stack(viewport, prefix, area, prefix.len() - 1);
}

/// Content together with what draws one of its items.
pub struct VirtualScrollView<'a, T, R> {
    content: VirtualContent<'a, T>,
    render_item: R,
}

impl<'a, T, R> VirtualScrollView<'a, T, R> {
    pub closed spec fn spec_content(&self) -> VirtualContent<'a, T> {
        self.content
    }

    pub closed spec fn spec_render_item(&self) -> R {
        self.render_item
    }

    pub fn new(content: VirtualContent<'a, T>, render_item: R) -> (view: Self)
        ensures
            view.spec_content() == content,
            view.spec_render_item() == render_item,
    {
        VirtualScrollView { content, render_item }
    }

    pub fn content(&self) -> (content: &VirtualContent<'a, T>)
        ensures
            *content == self.spec_content(),
    {
        &self.content
    }

    pub fn render_item(&self) -> (render_item: &R)
        ensures
            *render_item == self.spec_render_item(),
    {
        &self.render_item
    }

    /// Clamps the scroll state to the content and gives the items to draw, from the top.
    pub fn render(&self, area: Rect, state: &mut ScrollViewState) -> (visible: Vec<VisibleItem>)
        requires
            sorted(self.spec_content().spec_prefix()),
        ensures
            final(state)@ == min_u32(
                old(state)@,
                max_scroll(self.spec_content().spec_total_height(), area.height),
            ),
            exists|viewport: VirtualViewport|
                {
                    &&& #[trigger] viewport.shows(
                        area,
                        self.spec_content().spec_total_height(),
                        old(state)@,
                    )
                    &&& visible@ == viewport.visible_items(self.spec_content().spec_prefix())
                },
    {
        let max_scroll_from_bottom: u32 = max_scroll_from_bottom(
            self.content.total_height(),
            area.height,
        );
        state.clamp(max_scroll_from_bottom);
        let viewport = self.content.viewport(area, *state);
        assert(viewport.shows(area, self.content.spec_total_height(), old(state)@));
        self.content.for_each_visible(viewport)
    }
}

/// A move within the content goes as far as it is meant to, and one beyond it stops at the edge.
pub proof fn law_scrolling_moves_by_its_rows(offset: u32, delta: int, max: u32)
    ensures
        0 <= offset + delta <= max ==> scrolled(offset, delta, max) == offset + delta,
        offset + delta > max ==> scrolled(offset, delta, max) == max,
        offset + delta < 0 ==> scrolled(offset, delta, max) == 0,
{
}

/// The rows that can be scrolled away are those that have no room in the window.
pub proof fn law_only_what_has_no_room_is_scrolled(total_height: u32, viewport_height: u16)
    ensures
        total_height <= viewport_height ==> max_scroll(total_height, viewport_height) == 0,
        total_height >= viewport_height ==> max_scroll(total_height, viewport_height)
            + viewport_height == total_height,
{
}

/// Each item starts where the one before it ends, as far as heights can be counted.
pub proof fn law_items_follow_each_other(heights: Seq<u32>, i: int)
    requires
        0 <= i < heights.len(),
    ensures
        spec_prefix_heights(heights).len() == heights.len() + 1,
        spec_prefix_heights(heights)[0] == 0,
        spec_prefix_heights(heights)[i] + heights[i] <= u32::MAX ==> spec_prefix_heights(
            heights,
        )[i + 1] == spec_prefix_heights(heights)[i] + heights[i],
        spec_prefix_heights(heights)[i] + heights[i] > u32::MAX ==> spec_prefix_heights(
            heights,
        )[i + 1] == u32::MAX,
{
}

/// A window over content that is taller than it shows as many rows as it has; not scrolled it ends
/// with the last row, and each row scrolled moves it up by one, until the first row is reached.
pub proof fn law_window_follows_the_bottom(
    viewport: VirtualViewport,
    area: Rect,
    total_height: u32,
    scroll: u32,
)
    requires
        viewport.shows(area, total_height, scroll),
    ensures
        area.height <= total_height ==> {
            &&& viewport.spec_end() == viewport.spec_start() + area.height
            &&& scroll <= total_height - area.height ==> viewport.spec_end() == total_height
                - scroll
            &&& scroll > total_height - area.height ==> viewport.spec_start() == 0
        },
        area.height > total_height ==> viewport.spec_start() == 0 && viewport.spec_end()
            == area.height,
        viewport.spec_area() == area,
        viewport.spec_total_height() == total_height,
{
}

/// A row of the content is shown just where it lies in the window, and rows outside of the window
/// are not shown.
pub proof fn law_rows_are_shown_in_the_window(
    viewport: VirtualViewport,
    area: Rect,
    total_height: u32,
    scroll: u32,
    row: u32,
)
    requires
        viewport.shows(area, total_height, scroll),
        area.y + area.height <= u16::MAX,
    ensures
        viewport.spec_screen_y(row) is Some <==> viewport.spec_start() <= row
            < viewport.spec_end(),
        viewport.spec_screen_y(row) matches Some(y) ==> y - area.y == row - viewport.spec_start()
            && y < area.y + area.height,
{
}

/// What is visible of some rows are those of them that lie in the window.
pub proof fn law_visible_rows_lie_in_the_window(
    viewport: VirtualViewport,
    top: u32,
    bottom: u32,
    row: u32,
)
    ensures
        ({
            let shown = viewport.spec_visible_range(top, bottom);
            (shown is Some && shown->Some_0.0 <= row < shown->Some_0.1) <==> (top <= row < bottom
                && viewport.spec_start() <= row < viewport.spec_end())
        }),
{
}

proof fn lemma_visible_upto_holds(viewport: VirtualViewport, prefix: Seq<u32>, count: int, i: int)
    requires
        0 <= i < count <= prefix.len() - 1,
        viewport.spec_visible_item(prefix, i) is Some,
    ensures
        viewport.visible_upto(prefix, count).contains(
            viewport.spec_visible_item(prefix, i)->Some_0,
        ),
    decreases count,
{
    let item = viewport.spec_visible_item(prefix, i)->Some_0;
    let before = viewport.visible_upto(prefix, count - 1);
    let shown = viewport.visible_upto(prefix, count);
    if i == count - 1 {
        assert(shown[shown.len() - 1] == item);
    } else {
        lemma_visible_upto_holds(viewport, prefix, count - 1, i);
        let k = choose|k: int| 0 <= k < before.len() && before[k] == item;
        assert(shown[k] == item);
    }
}

/// An item with a row in the window is drawn: the part of it that lies in the window, on the screen
/// rows that show it.
pub proof fn law_items_in_the_window_are_drawn(
    viewport: VirtualViewport,
    area: Rect,
    scroll: u32,
    prefix: Seq<u32>,
    i: int,
    row: u32,
)
    requires
        0 <= i < prefix.len() - 1,
        prefix.len() <= usize::MAX,
        prefix[0] == 0,
        sorted(prefix),
        viewport.shows(area, prefix.last(), scroll),
        !area.empty(),
        area.x + area.width <= u16::MAX,
        area.y + area.height <= u16::MAX,
        prefix[i] <= row < prefix[i + 1],
        viewport.spec_start() <= row < viewport.spec_end(),
    ensures
        exists|k: int|
            0 <= k < viewport.visible_items(prefix).len() && {
                let item = #[trigger] viewport.visible_items(prefix)[k];
                &&& item.index == i
                &&& item.item_top == prefix[i]
                &&& item.item_bottom == prefix[i + 1]
                &&& item.visible_top <= row - prefix[i] < item.visible_bottom
                &&& item.target.y + (row - prefix[i] - item.visible_top) == area.y + (row
                    - viewport.spec_start())
                &&& item.target.height == item.visible_bottom - item.visible_top
            },
{
    let item = viewport.spec_visible_item(prefix, i);
    assert(item is Some);
    lemma_visible_upto_holds(viewport, prefix, prefix.len() - 1, i);
    let items = viewport.visible_items(prefix);
    let k = choose|k: int| 0 <= k < items.len() && items[k] == item->Some_0;
    assert(viewport.visible_items(prefix)[k].index == i);
}

proof fn lemma_count_splits(heights: Seq<u32>, bound: int)
    requires
        sorted(heights),
    ensures
        ({
            let count = count_at_most(heights, bound);
            &&& count <= heights.len()
            &&& forall|i: int| 0 <= i < count ==> #[trigger] heights[i] <= bound
            &&& forall|i: int| count <= i < heights.len() ==> #[trigger] heights[i] > bound
        }),
    decreases heights.len(),
{
    if heights.len() > 0 {
        let rest = heights.drop_last();
        lemma_count_splits(rest, bound);
        let count = count_at_most(rest, bound);
        assert forall|i: int| 0 <= i < rest.len() implies heights[i] == rest[i] by {}
        if heights.last() <= bound {
            if count < rest.len() {
                assert(rest[count as int] > bound);
                assert(heights[count as int] <= heights[heights.len() - 1]);
            }
        }
    }
}

/// The items that are looked at for a window are just those that may have a row in it: each of them ends
/// below its top and starts above its bottom, and all that have a row in it are among them.
pub proof fn law_range_holds_the_items_of_the_window(
    viewport: VirtualViewport,
    prefix: Seq<u32>,
    i: int,
)
    requires
        sorted(prefix),
        prefix.len() > 1,
        prefix[0] == 0,
        !viewport.spec_area().empty(),
        0 <= i < prefix.len() - 1,
    ensures
        viewport.first_visible(prefix) <= i < viewport.end_visible(prefix) ==> prefix[i]
            < viewport.spec_end() && viewport.spec_start() < prefix[i + 1],
        prefix[i] < prefix[i + 1] && prefix[i] < viewport.spec_end() && viewport.spec_start()
            < prefix[i + 1] ==> viewport.first_visible(prefix) <= i < viewport.end_visible(prefix),
{
    lemma_count_splits(prefix, viewport.spec_start() as int);
    lemma_count_splits(prefix, viewport.spec_end() - 1);
}

} // verus!
