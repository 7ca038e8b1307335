//! Rectangles of the screen and the ways they are divided.

use ratatui::layout::{Constraint, Direction, Layout, Rect as Region};
use vstd::prelude::*;

verus! {

/// A rectangle of character cells.
#[derive(Debug, Clone, Copy, PartialEq, Eq, Structural)]
pub struct Rect {
    pub x: u16,
    pub y: u16,
    pub width: u16,
    pub height: u16,
}

impl Rect {
    /// Whether the cell at `(x, y)` lies in the rectangle.
    pub open spec fn covers(self, x: int, y: int) -> bool {
        &&& self.x <= x < self.x + self.width
        &&& self.y <= y < self.y + self.height
    }

    /// Whether the rectangle has no cell.
    pub open spec fn is_empty(self) -> bool {
        self.width == 0 || self.height == 0
    }

    /// Whether every cell of `self` is one of `outer`.
    pub open spec fn inside(self, outer: Rect) -> bool {
        self.is_empty() || {
            &&& outer.x <= self.x
            &&& outer.y <= self.y
            &&& self.x + self.width <= outer.x + outer.width
            &&& self.y + self.height <= outer.y + outer.height
        }
    }

    /// Whether `self` can be drawn on `screen`: it lies inside and its far edges are coordinates.
    pub open spec fn lies_on(self, screen: Rect) -> bool {
        &&& self.inside(screen)
        &&& self.x + self.width <= u16::MAX
        &&& self.y + self.height <= u16::MAX
    }
}

/// `n`, kept within the range of a coordinate.
pub open spec fn clamped(n: int) -> u16 {
    if n < 0 {
        0
    } else if n > u16::MAX {
        u16::MAX
    } else {
        n as u16
    }
}

/// What is left of `area` inside a frame of one cell.
pub open spec fn framed(area: Rect) -> Rect {
    Rect {
        x: clamped(area.x + 1),
        y: clamped(area.y + 1),
        width: clamped(area.width - 2),
        height: clamped(area.height - 2),
    }
}

/// What is left of `area` inside a frame of one cell.
pub fn inner_area(area: Rect) -> (r: Rect)
    ensures
        r == framed(area),
        r.inside(area),
{
    Rect {
        x: area.x.saturating_add(1),
        y: area.y.saturating_add(1),
        width: area.width.saturating_sub(2),
        height: area.height.saturating_sub(2),
    }
}

/// The smaller of two lengths.
pub open spec fn shorter(a: u16, b: u16) -> u16 {
    if a <= b {
        a
    } else {
        b
    }
}

/// The left half of what `area` has beside a gap.
pub open spec fn left_part(area: Rect, gap: u16) -> Rect {
    Rect {
        x: area.x,
        y: area.y,
        width: ((area.width - shorter(gap, area.width)) / 2) as u16,
        height: area.height,
    }
}

/// What is left of `area` to the right of the left half and the gap.
pub open spec fn right_part(area: Rect, gap: u16) -> Rect {
    let before = left_part(area, gap).width + shorter(gap, area.width);
    Rect {
        x: (area.x + before) as u16,
        y: area.y,
        width: (area.width - before) as u16,
        height: area.height,
    }
}

/// The upper half of what `area` has beside a gap.
pub open spec fn upper_part(area: Rect, gap: u16) -> Rect {
    Rect {
        x: area.x,
        y: area.y,
        width: area.width,
        height: ((area.height - shorter(gap, area.height)) / 2) as u16,
    }
}

/// What is left of `area` below the upper half and the gap.
pub open spec fn lower_part(area: Rect, gap: u16) -> Rect {
    let before = upper_part(area, gap).height + shorter(gap, area.height);
    Rect {
        x: area.x,
        y: (area.y + before) as u16,
        width: area.width,
        height: (area.height - before) as u16,
    }
}

/// Whether the right part of a divided area begins at a coordinate.
pub open spec fn splits_across(area: Rect, gap: u16) -> bool {
    area.x + left_part(area, gap).width + shorter(gap, area.width) <= u16::MAX
}

/// Whether the lower part of a divided area begins at a coordinate.
pub open spec fn splits_down(area: Rect, gap: u16) -> bool {
    area.y + upper_part(area, gap).height + shorter(gap, area.height) <= u16::MAX
}

/// Divides an area into a left and a right part with a gap between them.
pub fn split_horizontal_with_gap(area: Rect, gap: u16) -> (r: [Rect; 2])
    requires
        splits_across(area, gap),
    ensures
        r@ == seq![left_part(area, gap), right_part(area, gap)],
{
    let gap: u16 = if gap <= area.width {
        gap
    } else {
        area.width
    };
    let left_width: u16 = area.width.saturating_sub(gap) / 2;
    let right_x: u16 = area.x + left_width + gap;
    let right_width: u16 = area.width.saturating_sub(left_width + gap);
    [
        Rect { x: area.x, y: area.y, width: left_width, height: area.height },
        Rect { x: right_x, y: area.y, width: right_width, height: area.height },
    ]
}

/// Divides an area into an upper and a lower part with a gap between them.
pub fn split_vertical_with_gap(area: Rect, gap: u16) -> (r: [Rect; 2])
    requires
        splits_down(area, gap),
    ensures
        r@ == seq![upper_part(area, gap), lower_part(area, gap)],
{
    let gap: u16 = if gap <= area.height {
        gap
    } else {
        area.height
    };
    let top_height: u16 = area.height.saturating_sub(gap) / 2;
    let bottom_y: u16 = area.y + top_height + gap;
    let bottom_height: u16 = area.height.saturating_sub(top_height + gap);
    [
        Rect { x: area.x, y: area.y, width: area.width, height: top_height },
        Rect { x: area.x, y: bottom_y, width: area.width, height: bottom_height },
    ]
}

/// A horizontal division loses nothing but the gap: the parts lie inside the area, side by side
/// with the gap between them, differ in width by one at most, and together fill the area.
pub proof fn law_horizontal_split_fills(area: Rect, gap: u16)
    requires
        splits_across(area, gap),
    ensures
        left_part(area, gap).inside(area),
        right_part(area, gap).inside(area),
        left_part(area, gap).width + shorter(gap, area.width) + right_part(area, gap).width
            == area.width,
        left_part(area, gap).x + left_part(area, gap).width + shorter(gap, area.width)
            == right_part(area, gap).x,
        0 <= right_part(area, gap).width - left_part(area, gap).width <= 1,
        left_part(area, gap).x == area.x,
        left_part(area, gap).y == area.y && left_part(area, gap).height == area.height,
        right_part(area, gap).y == area.y && right_part(area, gap).height == area.height,
{
}

/// A vertical division loses nothing but the gap: the parts lie inside the area, one below the
/// other with the gap between them, differ in height by one at most, and together fill the area.
pub proof fn law_vertical_split_fills(area: Rect, gap: u16)
    requires
        splits_down(area, gap),
    ensures
        upper_part(area, gap).inside(area),
        lower_part(area, gap).inside(area),
        upper_part(area, gap).height + shorter(gap, area.height) + lower_part(area, gap).height
            == area.height,
        upper_part(area, gap).y + upper_part(area, gap).height + shorter(gap, area.height)
            == lower_part(area, gap).y,
        0 <= lower_part(area, gap).height - upper_part(area, gap).height <= 1,
        upper_part(area, gap).y == area.y,
        upper_part(area, gap).x == area.x && upper_part(area, gap).width == area.width,
        lower_part(area, gap).x == area.x && lower_part(area, gap).width == area.width,
{
}

/// The axis along which an area is divided.
#[derive(Debug, Clone, Copy, PartialEq, Eq, Structural)]
pub enum Axis {
    Horizontal,
    Vertical,
}

/// The length that a part of a divided area asks for.
#[derive(Debug, Clone, Copy, PartialEq, Eq, Structural)]
pub enum Share {
    Length(u16),
    Percentage(u16),
    Min(u16),
}

/// What is left of `area` inside a margin; nothing at the origin where the margin is too wide.
pub open spec fn inset(area: Rect, margin: u16) -> Rect {
    if area.width < clamped(2 * margin) || area.height < clamped(2 * margin) {
        Rect { x: 0, y: 0, width: 0, height: 0 }
    } else {
        Rect {
            x: clamped(area.x + margin),
            y: clamped(area.y + margin),
            width: clamped(area.width - 2 * margin),
            height: clamped(area.height - 2 * margin),
        }
    }
}

/// Whether `part` spans `area` across the axis and lies within it along the axis.
pub open spec fn is_band(part: Rect, area: Rect, axis: Axis) -> bool {
    match axis {
        Axis::Horizontal => {
            &&& part.y == area.y
            &&& part.height == area.height
            &&& area.x <= part.x
            &&& part.x + part.width <= area.x + area.width
        },
        Axis::Vertical => {
            &&& part.x == area.x
            &&& part.width == area.width
            &&& area.y <= part.y
            &&& part.y + part.height <= area.y + area.height
        },
    }
}

/// Whether `parts` are bands of `area` inside the margin, one for each share.
pub open spec fn are_bands(
    parts: Seq<Rect>,
    area: Rect,
    axis: Axis,
    margin: u16,
    shares: Seq<Share>,
) -> bool {
    &&& parts.len() == shares.len()
    &&& forall|i: int|
        0 <= i < parts.len() ==> is_band(#[trigger] parts[i], inset(area, margin), axis)
}

/// Whether `Layout::split` of the `ratatui` crate can come out with `parts` for these arguments.
/// Its solver walks hash maps, so that no single outcome is fixed.
pub uninterp spec fn can_divide(
    area: Rect,
    axis: Axis,
    margin: u16,
    shares: Seq<Share>,
    parts: Seq<Rect>,
) -> bool;

/// Whether `parts` are what `area` is divided into along the axis, inside the margin, by lengths
/// that the shares ask for.
pub open spec fn divided(
    area: Rect,
    axis: Axis,
    margin: u16,
    shares: Seq<Share>,
    parts: Seq<Rect>,
) -> bool {
    &&& can_divide(area, axis, margin, shares, parts)
    &&& are_bands(parts, area, axis, margin, shares)
}

/// Calls `Layout::split` of the `ratatui` crate. It returns one rectangle for each constraint;
/// each spans the area inside the margin across the axis and, by constraints that the solver must
/// keep, lies within it along the axis. How the length is shared out among the rectangles is left
/// unsaid but for the name of the outcomes that can come.
#[verifier::external_body]
pub(crate) fn solve_layout(area: Rect, axis: Axis, margin: u16, shares: &Vec<Share>) -> (r: Vec<
    Rect,
>)
    ensures
        can_divide(area, axis, margin, shares@, r@),
        are_bands(r@, area, axis, margin, shares@),
{
    let rules = shares.iter().map(|share| match share {
        Share::Length(n) => Constraint::Length(*n),
        Share::Percentage(n) => Constraint::Percentage(*n),
        Share::Min(n) => Constraint::Min(*n),
    });
    let direction = match axis {
        Axis::Horizontal => Direction::Horizontal,
        Axis::Vertical => Direction::Vertical,
    };
    let whole = Region { x: area.x, y: area.y, width: area.width, height: area.height };
    let parts = Layout::new(direction, rules).margin(margin).split(whole);
    parts.iter().map(|p| Rect { x: p.x, y: p.y, width: p.width, height: p.height }).collect()
}

/// The parts of a divided area lie inside it, and on any screen that it lies on.
pub proof fn lemma_bands_inside(
    parts: Seq<Rect>,
    area: Rect,
    axis: Axis,
    margin: u16,
    shares: Seq<Share>,
)
    requires
        are_bands(parts, area, axis, margin, shares),
    ensures
        forall|i: int| 0 <= i < parts.len() ==> (#[trigger] parts[i]).inside(area),
        forall|i: int, screen: Rect|
            0 <= i < parts.len() && area.lies_on(screen) ==> #[trigger] parts[i].lies_on(screen),
{
    assert forall|i: int| 0 <= i < parts.len() implies (#[trigger] parts[i]).inside(area) by {
        assert(is_band(parts[i], inset(area, margin), axis));
    }
    assert forall|i: int, screen: Rect| 0 <= i < parts.len() && area.lies_on(screen) implies
        #[trigger] parts[i].lies_on(screen) by {
        assert(is_band(parts[i], inset(area, margin), axis));
    }
}

/// A frame takes one cell on each side: what is left are the cells that have a cell of the area on
/// every side and at every corner.
pub proof fn law_frame_takes_the_border(area: Rect, x: int, y: int)
    requires
        area.x + area.width <= u16::MAX,
        area.y + area.height <= u16::MAX,
    ensures
        framed(area).covers(x, y) <==> area.covers(x - 1, y - 1) && area.covers(x + 1, y + 1),
{
}

} // verus!
