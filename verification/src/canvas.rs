//! The grid of character cells that a frame is drawn on.

use crate::area;
use crate::area::Rect;
use ratatui::buffer::Buffer;
use ratatui::layout::Rect as Region;
use ratatui::style::{Color as Hue, Modifier, Style};
use ratatui::widgets::{Block, Widget};
use vstd::prelude::*;

verus! {

/// A color of the palette that the screen is drawn in.
#[derive(Debug, Clone, Copy, PartialEq, Eq, Structural)]
pub enum Color {
    White,
    Red,
    Green,
    Yellow,
    Blue,
    Magenta,
    Cyan,
    Gray,
    DarkGray,
}

/// The color for an index of the command line; green for indices beyond the palette.
pub open spec fn palette(index: u8) -> Color {
    if index == 0 {
        Color::White
    } else if index == 1 {
        Color::Red
    } else if index == 3 {
        Color::Yellow
    } else if index == 4 {
        Color::Blue
    } else if index == 5 {
        Color::Magenta
    } else if index == 6 {
        Color::Cyan
    } else if index == 7 {
        Color::Gray
    } else if index == 8 {
        Color::DarkGray
    } else {
        Color::Green
    }
}

/// The color for an index of the command line.
pub fn color_from_index(index: u8) -> (r: Color)
    ensures
        r == palette(index),
{
    match index {
        0 => Color::White,
        1 => Color::Red,
        2 => Color::Green,
        3 => Color::Yellow,
        4 => Color::Blue,
        5 => Color::Magenta,
        6 => Color::Cyan,
        7 => Color::Gray,
        8 => Color::DarkGray,
        _ => Color::Green,
    }
}

/// How cells are styled: what is `None` or `false` stays as it was.
#[derive(Debug, Clone, Copy, PartialEq, Eq, Structural)]
pub struct Paint {
    pub fg: Option<Color>,
    pub bg: Option<Color>,
    pub bold: bool,
}

/// A color of a cell.
pub enum Ink {
    /// The default of the terminal.
    Reset,
    Color(Color),
    /// Any other color, by some code of its own.
    Other(int),
}

/// What a cell shows.
#[verifier::ext_equal]
pub struct Cell {
    pub symbol: Seq<char>,
    pub fg: Ink,
    pub bg: Ink,
    pub bold: bool,
    /// The modifiers other than bold, by their bits.
    pub effects: int,
}

impl Cell {
    /// The cell after `symbol` was put there in `paint`.
    pub open spec fn painted(self, symbol: Seq<char>, paint: Paint) -> Cell {
        Cell {
            symbol,
            fg: match paint.fg {
                Some(color) => Ink::Color(color),
                None => self.fg,
            },
            bg: match paint.bg {
                Some(color) => Ink::Color(color),
                None => self.bg,
            },
            bold: self.bold || paint.bold,
            effects: self.effects,
        }
    }
}

/// The cells of a grid by column and row.
pub type Grid = Map<(int, int), Cell>;

/// The buffer of the `ratatui` crate that a frame is drawn on.
#[verifier::external_type_specification]
#[verifier::external_body]
pub struct ExBuffer(ratatui::buffer::Buffer);

/// The cells of a buffer.
pub uninterp spec fn cells(buf: ratatui::buffer::Buffer) -> Map<(int, int), Cell>;

/// The area that a buffer was made for.
pub uninterp spec fn bounds(buf: ratatui::buffer::Buffer) -> Rect;

/// Whether the buffer has a cell for each place of its area and for no other, and its area lies
/// in the range of coordinates, as is so of the buffers that a terminal draws on.
pub open spec fn is_whole(buf: ratatui::buffer::Buffer) -> bool {
    &&& bounds(buf).x + bounds(buf).width <= u16::MAX
    &&& bounds(buf).y + bounds(buf).height <= u16::MAX
    &&& forall|x: int, y: int| #[trigger]
        cells(buf).dom().contains((x, y)) <==> bounds(buf).covers(x, y)
}

/// Whether a text is made of printable ASCII, each character of which takes one cell.
pub open spec fn is_plain(text: Seq<char>) -> bool {
    forall|i: int| 0 <= i < text.len() ==> ' ' <= #[trigger] text[i] <= '~'
}

/// `before` with a plain text written from `(x, y)` to the right over at most `width` cells.
pub open spec fn plain_text_drawn(
    before: Grid,
    x: u16,
    y: u16,
    text: Seq<char>,
    width: u16,
    paint: Paint,
) -> Grid {
    before.map_entries(
        |at: (int, int), cell: Cell|
            if at.1 == y && 0 <= at.0 - x < text.len() && at.0 - x < width {
                cell.painted(seq![text[at.0 - x]], paint)
            } else {
                cell
            },
    )
}

/// What `Buffer::set_stringn` leaves behind of a text that is not plain, written from `(x, y)` to
/// the right over at most `width` cells, on a buffer with these cells and this area.
pub uninterp spec fn text_drawn(
    before: Map<(int, int), Cell>,
    bounds: Rect,
    x: u16,
    y: u16,
    text: Seq<char>,
    width: u16,
    paint: Paint,
) -> Map<(int, int), Cell>;

/// `before` with a text written from `(x, y)` to the right over at most `width` cells.
pub open spec fn text_written(
    before: Grid,
    bounds: Rect,
    x: u16,
    y: u16,
    text: Seq<char>,
    width: u16,
    paint: Paint,
) -> Grid {
    if is_plain(text) {
        plain_text_drawn(before, x, y, text, width, paint)
    } else {
        text_drawn(before, bounds, x, y, text, width, paint)
    }
}

/// The line of a frame around the cells from `(left, top)` to `(right, bottom)` at `(x, y)`.
pub open spec fn frame_symbol(
    left: int,
    top: int,
    right: int,
    bottom: int,
    x: int,
    y: int,
) -> Seq<char> {
    if x == left && y == top {
        "┌"@
    } else if x == left && y == bottom {
        "└"@
    } else if x == right && y == top {
        "┐"@
    } else if x == right && y == bottom {
        "┘"@
    } else if y == top || y == bottom {
        "─"@
    } else {
        "│"@
    }
}

/// What of `area` lies inside `bounds`.
pub open spec fn overlap(area: Rect, bounds: Rect) -> Rect {
    let left = if area.x > bounds.x {
        area.x
    } else {
        bounds.x
    };
    let top = if area.y > bounds.y {
        area.y
    } else {
        bounds.y
    };
    let right = if area.x + area.width < bounds.x + bounds.width {
        area.x + area.width
    } else {
        bounds.x + bounds.width
    };
    let bottom = if area.y + area.height < bounds.y + bounds.height {
        area.y + area.height
    } else {
        bounds.y + bounds.height
    };
    Rect { x: left, y: top, width: area::clamped(right - left), height: area::clamped(bottom - top) }
}

/// `before` with a frame around what of `area` lies inside `bounds`, and a plain title on the
/// upper line between the corners.
pub open spec fn plain_block_drawn(
    before: Grid,
    bounds: Rect,
    area: Rect,
    title: Seq<char>,
    border: Paint,
    heading: Paint,
) -> Grid {
    let inside = overlap(area, bounds);
    let right = inside.x + inside.width - 1;
    let bottom = inside.y + inside.height - 1;
    before.map_entries(
        |at: (int, int), cell: Cell|
            {
                let framed = if at.0 == inside.x || at.0 == right || at.1 == inside.y || at.1
                    == bottom {
                    cell.painted(
                        frame_symbol(
                            inside.x as int,
                            inside.y as int,
                            right,
                            bottom,
                            at.0,
                            at.1,
                        ),
                        border,
                    )
                } else {
                    cell
                };
                if !inside.covers(at.0, at.1) {
                    cell
                } else if at.1 == inside.y && inside.x < at.0 < right && at.0 - inside.x - 1
                    < title.len() {
                    framed.painted(seq![title[at.0 - inside.x - 1]], heading)
                } else {
                    framed
                }
            },
    )
}

/// What a bordered `Block` with a title that is not plain, rendered on `area`, leaves behind on a
/// buffer with these cells and this area.
pub uninterp spec fn block_drawn(
    before: Map<(int, int), Cell>,
    bounds: Rect,
    area: Rect,
    title: Seq<char>,
    border: Paint,
    heading: Paint,
) -> Map<(int, int), Cell>;

/// `before` with a frame around `area` and a title on its upper line.
pub open spec fn block_rendered(
    before: Grid,
    bounds: Rect,
    area: Rect,
    title: Seq<char>,
    border: Paint,
    heading: Paint,
) -> Grid {
    if is_plain(title) {
        plain_block_drawn(before, bounds, area, title, border, heading)
    } else {
        block_drawn(before, bounds, area, title, border, heading)
    }
}

/// Whether two grids have the same places and differ inside `area` only.
pub open spec fn same_outside(before: Grid, after: Grid, area: Rect) -> bool {
    &&& before.dom() == after.dom()
    &&& forall|x: int, y: int|
        before.dom().contains((x, y)) && !area.covers(x, y) ==> #[trigger] after[(x, y)]
            == before[(x, y)]
}

/// A further change inside a part of an area leaves the rest of the grid as it was.
pub proof fn lemma_changed_inside(
    before: Grid,
    between: Grid,
    after: Grid,
    part: Rect,
    area: Rect,
)
    requires
        same_outside(before, between, area),
        same_outside(between, after, part),
        part.inside(area),
    ensures
        same_outside(before, after, area),
{
    assert forall|x: int, y: int|
        before.dom().contains((x, y)) && !area.covers(x, y) implies #[trigger] after[(x, y)]
        == before[(x, y)] by {
        assert(between[(x, y)] == before[(x, y)]);
        assert(!part.covers(x, y));
    }
}

/// Reads the public field `area` of a `Buffer`.
#[verifier::external_body]
pub(crate) fn buffer_area(buf: &Buffer) -> (r: Rect)
    ensures
        r == bounds(*buf),
{
    Rect { x: buf.area.x, y: buf.area.y, width: buf.area.width, height: buf.area.height }
}

/// Whether the cells of a buffer are `count` cells laid out row by row over its area, where the
/// area lies in the range of coordinates: places of the area have the cells that there are, other
/// places have none.
pub open spec fn is_laid_out(buf: ratatui::buffer::Buffer, count: usize) -> bool {
    let area = bounds(buf);
    area.x + area.width <= u16::MAX && area.y + area.height <= u16::MAX ==> forall|
        x: int,
        y: int,
    | #[trigger]
        cells(buf).dom().contains((x, y)) <==> area.covers(x, y) && (y - area.y) * area.width + (x
            - area.x) < count
}

/// Takes the length of the public field `content` of a `Buffer`, which holds the cells row by row
/// and is where indexing finds them.
#[verifier::external_body]
fn cell_count(buf: &Buffer) -> (r: usize)
    ensures
        is_laid_out(*buf, r),
{
    buf.content.len()
}

/// Tells whether a buffer can be drawn on: whether it has a cell for each place of its area and
/// its area lies in the range of coordinates.
pub fn is_drawable(buf: &Buffer) -> (r: bool)
    ensures
        r == is_whole(*buf),
{
    let area: Rect = buffer_area(buf);
    let count: usize = cell_count(buf);
    if area.width > u16::MAX - area.x || area.height > u16::MAX - area.y {
        return false;
    }
    assert(area.width * area.height <= 0xffff * 0xffff) by (nonlinear_arith)
        requires
            area.width <= 0xffff,
            area.height <= 0xffff,
    ;
    let size: u64 = area.width as u64 * area.height as u64;
    proof {
        let w = area.width as int;
        let h = area.height as int;
        if count >= size {
            assert forall|x: int, y: int| area.covers(x, y) implies (y - area.y) * w + (x - area.x)
                < count by {
                assert((y - area.y) * w + (x - area.x) < h * w) by (nonlinear_arith)
                    requires
                        0 <= x - area.x < w,
                        0 <= y - area.y < h,
                ;
                assert(h * w == w * h) by (nonlinear_arith);
            }
        } else {
            let x = area.x + w - 1;
            let y = area.y + h - 1;
            assert(w > 0 && h > 0) by (nonlinear_arith)
                requires
                    0 <= count < w * h,
                    w >= 0,
                    h >= 0,
            ;
            assert(area.covers(x, y));
            assert((h - 1) * w + (w - 1) >= count) by (nonlinear_arith)
                requires
                    count < w * h,
            ;
            assert(!cells(*buf).dom().contains((x, y)));
        }
    }
    count as u64 >= size
}

/// Indexes a `Buffer` and calls `Cell::set_symbol` and `Cell::set_style` on the cell: the symbol
/// is replaced, so are the colors that the style has, and its modifiers are added. Indexing
/// panics outside the buffer.
#[verifier::external_body]
pub(crate) fn set_cell(buf: &mut Buffer, x: u16, y: u16, symbol: &str, paint: Paint)
    requires
        cells(*old(buf)).dom().contains((x as int, y as int)),
    ensures
        bounds(*final(buf)) == bounds(*old(buf)),
        cells(*final(buf)) == cells(*old(buf)).insert(
            (x as int, y as int),
            cells(*old(buf))[(x as int, y as int)].painted(symbol@, paint),
        ),
{
    let hues = [Hue::White, Hue::Red, Hue::Green, Hue::Yellow, Hue::Blue, Hue::Magenta, Hue::Cyan, Hue::Gray, Hue::DarkGray];
    let style = Style {
        fg: paint.fg.map(|color| hues[color as usize]),
        bg: paint.bg.map(|color| hues[color as usize]),
        add_modifier: if paint.bold { Modifier::BOLD } else { Modifier::empty() },
        ..Style::default()
    };
    buf[(x, y)].set_symbol(symbol).set_style(style);
}

/// Whether a text can be written from `(x, y)` on: the place is one of the buffer, or lies to the
/// right of it, where nothing is written, or there is nothing to write.
pub open spec fn text_fits(x: u16, y: u16, text: Seq<char>, bounds: Rect) -> bool {
    bounds.covers(x as int, y as int) || x >= bounds.x + bounds.width || text.len() == 0
}

/// Calls `Buffer::set_stringn`, which writes to the right along one row and stops at `width`
/// cells or at the right edge of the buffer. Each character of a plain text takes a cell of its
/// own; how other texts are parted and spread over cells is left to a name. Writing panics where
/// the row is outside the buffer or begins to the left of it.
#[verifier::external_body]
pub(crate) fn set_text(buf: &mut Buffer, x: u16, y: u16, text: &str, width: u16, paint: Paint)
    requires
        is_whole(*old(buf)),
        text_fits(x, y, text@, bounds(*old(buf))),
    ensures
        bounds(*final(buf)) == bounds(*old(buf)),
        is_plain(text@) ==> cells(*final(buf)) == plain_text_drawn(
            cells(*old(buf)),
            x,
            y,
            text@,
            width,
            paint,
        ),
        !is_plain(text@) ==> cells(*final(buf)) == text_drawn(
            cells(*old(buf)),
            bounds(*old(buf)),
            x,
            y,
            text@,
            width,
            paint,
        ),
        same_outside(
            cells(*old(buf)),
            cells(*final(buf)),
            (Rect { x, y, width, height: 1 }),
        ),
{
    let hues = [Hue::White, Hue::Red, Hue::Green, Hue::Yellow, Hue::Blue, Hue::Magenta, Hue::Cyan, Hue::Gray, Hue::DarkGray];
    let style = Style {
        fg: paint.fg.map(|color| hues[color as usize]),
        bg: paint.bg.map(|color| hues[color as usize]),
        add_modifier: if paint.bold { Modifier::BOLD } else { Modifier::empty() },
        ..Style::default()
    };
    buf.set_stringn(x, y, text, usize::from(width), style);
}

/// Renders a `Block::bordered` with a title by `Widget::render`. It draws inside `area` only, as
/// far as the buffer reaches: the lines of the frame, then the title between the upper corners.
/// Each character of a plain title takes a cell of its own; how other titles are parted and
/// spread over cells is left to a name.
#[verifier::external_body]
pub(crate) fn draw_block(
    buf: &mut Buffer,
    area: Rect,
    title: &str,
    border: Paint,
    heading: Paint,
)
    requires
        is_whole(*old(buf)),
    ensures
        bounds(*final(buf)) == bounds(*old(buf)),
        is_plain(title@) ==> cells(*final(buf)) == plain_block_drawn(
            cells(*old(buf)),
            bounds(*old(buf)),
            area,
            title@,
            border,
            heading,
        ),
        !is_plain(title@) ==> cells(*final(buf)) == block_drawn(
            cells(*old(buf)),
            bounds(*old(buf)),
            area,
            title@,
            border,
            heading,
        ),
        same_outside(cells(*old(buf)), cells(*final(buf)), area),
{
    let hues = [Hue::White, Hue::Red, Hue::Green, Hue::Yellow, Hue::Blue, Hue::Magenta, Hue::Cyan, Hue::Gray, Hue::DarkGray];
    let style = |paint: Paint| Style {
        fg: paint.fg.map(|color| hues[color as usize]),
        bg: paint.bg.map(|color| hues[color as usize]),
        add_modifier: if paint.bold { Modifier::BOLD } else { Modifier::empty() },
        ..Style::default()
    };
    let block = Block::bordered().title(title).border_style(style(border)).title_style(style(heading));
    block.render(Region { x: area.x, y: area.y, width: area.width, height: area.height }, buf);
}

/// The palette has nine colors, all different, and green for the index two and for all indices
/// beyond.
pub proof fn law_palette_is_distinct(a: u8, b: u8)
    ensures
        a <= 8 && b <= 8 && a != b ==> palette(a) != palette(b),
        a > 8 ==> palette(a) == palette(2),
        palette(2) == Color::Green,
{
}

} // verus!
