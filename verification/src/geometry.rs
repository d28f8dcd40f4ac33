//! Screen geometry: positions, sizes, rectangles and paddings in terminal cells.

use vstd::prelude::*;

verus! {

/// A cell of the screen.
#[derive(Clone, Copy, Debug, PartialEq, Eq, Structural)]
pub struct Position {
    pub x: u16,
    pub y: u16,
}

impl Position {
    pub fn new(x: u16, y: u16) -> (position: Position)
        ensures
            position == (Position { x, y }),
    {
        Position { x, y }
    }
}

/// A width and a height in cells.
#[derive(Clone, Copy, Debug, PartialEq, Eq, Structural)]
pub struct Size {
    pub width: u16,
    pub height: u16,
}

impl Size {
    pub fn new(width: u16, height: u16) -> (size: Size)
        ensures
            size == (Size { width, height }),
    {
        Size { width, height }
    }
}

/// The room kept free on each side of a box.
#[derive(Clone, Copy, Debug, PartialEq, Eq, Structural)]
pub struct Padding {
    pub left: u16,
    pub right: u16,
    pub top: u16,
    pub bottom: u16,
}

impl Padding {
    pub open spec fn horizontal(self) -> u16 {
        self.left.saturating_add(self.right)
    }

    pub open spec fn vertical(self) -> u16 {
        self.top.saturating_add(self.bottom)
    }
}

/// A rectangle of cells; its right and bottom edges lie outside of it.
#[derive(Clone, Copy, Debug, PartialEq, Eq, Structural)]
pub struct Rect {
    pub x: u16,
    pub y: u16,
    pub width: u16,
    pub height: u16,
}

impl Rect {
    /// The rectangle cut off where its edges would pass the last coordinate.
    pub open spec fn spec_new(x: u16, y: u16, width: u16, height: u16) -> Rect {
        Rect {
            x,
            y,
            width: (x.saturating_add(width) - x) as u16,
            height: (y.saturating_add(height) - y) as u16,
        }
    }

    pub fn new(x: u16, y: u16, width: u16, height: u16) -> (rect: Rect)
        ensures
            rect == Rect::spec_new(x, y, width, height),
    {
        Rect { x, y, width: x.saturating_add(width) - x, height: y.saturating_add(height) - y }
    }

    pub open spec fn empty(self) -> bool {
        self.width == 0 || self.height == 0
    }

    pub fn is_empty(self) -> (empty: bool)
        ensures
            empty == self.empty(),
    {
        self.width == 0 || self.height == 0
    }

    pub open spec fn holds(self, x: u16, y: u16) -> bool {
        self.x <= x < self.x.saturating_add(self.width) && self.y <= y < self.y.saturating_add(
            self.height,
        )
    }

    /// Whether a cell lies in the rectangle.
    pub fn contains(self, x: u16, y: u16) -> (contains: bool)
        ensures
            contains == self.holds(x, y),
    {
        self.x <= x && x < self.right() && self.y <= y && y < self.bottom()
    }

    pub fn right(self) -> (right: u16)
        ensures
            right == self.x.saturating_add(self.width),
    {
        self.x.saturating_add(self.width)
    }

    pub fn bottom(self) -> (bottom: u16)
        ensures
            bottom == self.y.saturating_add(self.height),
    {
        self.y.saturating_add(self.height)
    }
}

impl Default for Rect {
    fn default() -> (rect: Rect)
        ensures
            rect == (Rect { x: 0, y: 0, width: 0, height: 0 }),
    {
        Rect { x: 0, y: 0, width: 0, height: 0 }
    }
}

/// A rectangle that lies on the screen holds the cells from its corner on over its width and its
/// height, and no others; one that reaches beyond the last coordinate is cut off there.
pub proof fn law_rectangles_hold_their_cells(rect: Rect, x: u16, y: u16)
    requires
        rect.x + rect.width <= u16::MAX,
        rect.y + rect.height <= u16::MAX,
    ensures
        rect.holds(x, y) <==> rect.x <= x && x < rect.x + rect.width && rect.y <= y && y < rect.y
            + rect.height,
        rect.empty() <==> rect.width == 0 || rect.height == 0,
        rect.empty() ==> !rect.holds(x, y),
        Rect::spec_new(rect.x, rect.y, rect.width, rect.height) == rect,
{
}

/// Whatever size is asked for, a new rectangle ends at the last coordinate at the latest and loses
/// nothing that lies before it.
pub proof fn law_new_rectangles_end_on_the_screen(x: u16, y: u16, width: u16, height: u16)
    ensures
        ({
            let rect = Rect::spec_new(x, y, width, height);
            &&& rect.x == x && rect.y == y
            &&& x + width <= u16::MAX ==> rect.width == width
            &&& x + width > u16::MAX ==> rect.x + rect.width == u16::MAX
            &&& y + height <= u16::MAX ==> rect.height == height
            &&& y + height > u16::MAX ==> rect.y + rect.height == u16::MAX
        }),
{
}

/// The padding of two sides is what both take together.
pub proof fn law_padding_adds_up(padding: Padding)
    ensures
        padding.left + padding.right <= u16::MAX ==> padding.horizontal() == padding.left
            + padding.right,
        padding.top + padding.bottom <= u16::MAX ==> padding.vertical() == padding.top
            + padding.bottom,
{
}

} // verus!
