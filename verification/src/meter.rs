//! Meters and history plots.

use crate::area;
use crate::area::Rect;
use crate::canvas;
use crate::canvas::{Cell, Color, Grid, Ink, Paint};
use crate::rounding;
use crate::snapshot;
use ratatui::buffer::Buffer;
use std::collections::VecDeque;
use vstd::arithmetic::power2::*;
use vstd::prelude::*;

verus! {

/// Bold text in a color.
pub open spec fn spec_label(color: Color) -> Paint {
    Paint { fg: Some(color), bg: None, bold: true }
}

/// A background in a color.
pub open spec fn spec_filled(color: Color) -> Paint {
    Paint { fg: None, bg: Some(color), bold: false }
}

/// Plain text in a color.
pub open spec fn spec_outlined(color: Color) -> Paint {
    Paint { fg: Some(color), bg: None, bold: false }
}

/// Nothing changed.
pub open spec fn spec_unpainted() -> Paint {
    Paint { fg: None, bg: None, bold: false }
}

/// Bold text in a color.
#[verifier::when_used_as_spec(spec_label)]
pub fn label_paint(color: Color) -> (r: Paint)
    ensures
        r == spec_label(color),
{
    Paint { fg: Some(color), bg: None, bold: true }
}

/// A background in a color.
#[verifier::when_used_as_spec(spec_filled)]
pub fn filled_paint(color: Color) -> (r: Paint)
    ensures
        r == spec_filled(color),
{
    Paint { fg: None, bg: Some(color), bold: false }
}

/// Plain text in a color.
#[verifier::when_used_as_spec(spec_outlined)]
pub fn outlined_paint(color: Color) -> (r: Paint)
    ensures
        r == spec_outlined(color),
{
    Paint { fg: Some(color), bg: None, bold: false }
}

/// Nothing changed.
#[verifier::when_used_as_spec(spec_unpainted)]
pub fn unpainted() -> (r: Paint)
    ensures
        r == spec_unpainted(),
{
    Paint { fg: None, bg: None, bold: false }
}

/// The rows of `area` below the label.
pub open spec fn plot_below(area: Rect) -> Rect {
    Rect {
        x: area.x,
        y: area::clamped(area.y + 1),
        width: area.width,
        height: area::clamped(area.height - 1),
    }
}

/// Whether a meter or a history plot with this label can be drawn on `area`: it is empty, or the
/// label can be written and the rows below the label lie inside the bounds.
pub open spec fn fits(area: Rect, bounds: Rect, label: Seq<char>) -> bool {
    area.is_empty() || {
        &&& canvas::text_fits(area.x, area.y, label, bounds)
        &&& plot_below(area).inside(bounds)
    }
}

/// Whether any meter or history plot can be drawn on `area`, whatever its label.
pub open spec fn has_room(area: Rect, bounds: Rect) -> bool {
    area.is_empty() || {
        &&& bounds.covers(area.x as int, area.y as int) || area.x >= bounds.x + bounds.width
        &&& plot_below(area).inside(bounds)
    }
}

/// What lies inside the bounds can be drawn on.
pub proof fn lemma_fits_inside(area: Rect, bounds: Rect, label: Seq<char>)
    requires
        area.inside(bounds),
        bounds.x + bounds.width <= u16::MAX,
        bounds.y + bounds.height <= u16::MAX,
    ensures
        fits(area, bounds, label),
        has_room(area, bounds),
{
}

/// How many of `width` columns are filled at `percent`, at most all of them.
pub open spec fn filled_columns(width: u16, percent: u16) -> nat {
    let part = if percent <= 100 {
        percent as nat
    } else {
        100
    };
    rounding::scaled(part, 100, width as nat, rounding::SINGLE as nat)
}

/// What a meter shows in a column: every other filled column is solid, all the rest are strokes.
pub open spec fn meter_symbol(column: int, filled: nat) -> Seq<char> {
    if column < filled && column % 2 == 0 {
        " "@
    } else {
        "▏"@
    }
}

/// How a meter paints a column.
pub open spec fn meter_paint(column: int, filled: nat, color: Color) -> Paint {
    if column < filled && column % 2 == 0 {
        filled_paint(color)
    } else {
        outlined_paint(color)
    }
}

/// `before` with the columns of a meter drawn on `plot` as far as `done` says.
pub open spec fn with_meter(
    before: Grid,
    plot: Rect,
    filled: nat,
    color: Color,
    done: spec_fn(int, int) -> bool,
) -> Grid {
    before.map_entries(
        |at: (int, int), cell: Cell|
            if plot.covers(at.0, at.1) && done(at.0 - plot.x, at.1 - plot.y) {
                cell.painted(
                    meter_symbol(at.0 - plot.x, filled),
                    meter_paint(at.0 - plot.x, filled, color),
                )
            } else {
                cell
            },
    )
}

/// What a meter leaves behind: its label on the first row of `area` and its columns below.
pub open spec fn meter_drawn(
    before: Grid,
    bounds: Rect,
    area: Rect,
    percent: u16,
    label: Seq<char>,
    color: Color,
) -> Grid {
    if area.is_empty() {
        before
    } else {
        let labelled = canvas::text_written(
            before,
            bounds,
            area.x,
            area.y,
            label,
            area.width,
            label_paint(color),
        );
        with_meter(
            labelled,
            plot_below(area),
            filled_columns(area.width, percent),
            color,
            |x: int, y: int| true,
        )
    }
}

/// Draws a meter.
pub fn draw_segmented_meter(
    buf: &mut Buffer,
    area: Rect,
    percent: u16,
    label: &str,
    color: Color,
)
    requires
        canvas::is_whole(*old(buf)),
        fits(area, canvas::bounds(*old(buf)), label@),
    ensures
        canvas::bounds(*final(buf)) == canvas::bounds(*old(buf)),
        canvas::cells(*final(buf)) == meter_drawn(
            canvas::cells(*old(buf)),
            canvas::bounds(*old(buf)),
            area,
            percent,
            label@,
            color,
        ),
        shows_meter(
            canvas::cells(*old(buf)),
            canvas::cells(*final(buf)),
            area,
            percent,
            color,
        ),
        canvas::is_plain(label@) ==> shows_label(
            canvas::cells(*old(buf)),
            canvas::cells(*final(buf)),
            area,
            label@,
            color,
        ),
        canvas::same_outside(canvas::cells(*old(buf)), canvas::cells(*final(buf)), area),
        canvas::is_whole(*final(buf)),
{
    proof {
        law_fill_is_nearest(area.width, percent);
        assert(area.is_empty() ==> shows_columns(
            canvas::cells(*buf),
            canvas::cells(*buf),
            area,
            filled_columns(area.width, percent) as int,
            color,
        ));
    }
    if area.width == 0 || area.height == 0 {
        return;
    }
    canvas::set_text(buf, area.x, area.y, label, area.width, label_paint(color));
    let ghost labelled = canvas::cells(*buf);
    let plot: Rect = Rect {
        x: area.x,
        y: area.y.saturating_add(1),
        width: area.width,
        height: area.height.saturating_sub(1),
    };
    let part: u128 = if percent <= 100 {
        percent as u128
    } else {
        100
    };
    let filled: u16 = rounding::scale_by_ratio(part, 100, plot.width, rounding::SINGLE);
    let mut x: u16 = 0;
    assert(canvas::cells(*buf) =~= with_meter(
        labelled,
        plot,
        filled as nat,
        color,
        |i: int, j: int| i < x,
    ));
    while x < plot.width
        invariant
            x <= plot.width,
            plot == plot_below(area),
            !area.is_empty(),
            plot.inside(canvas::bounds(*buf)),
            canvas::is_whole(*buf),
            canvas::bounds(*buf) == canvas::bounds(*old(buf)),
            labelled.dom() == canvas::cells(*old(buf)).dom(),
            canvas::cells(*buf) == with_meter(
                labelled,
                plot,
                filled as nat,
                color,
                |i: int, j: int| i < x,
            ),
        decreases plot.width - x,
    {
        let mut y: u16 = 0;
        assert(canvas::cells(*buf) =~= with_meter(
            labelled,
            plot,
            filled as nat,
            color,
            |i: int, j: int| i < x || (i == x && j < y),
        ));
        while y < plot.height
            invariant
                x < plot.width,
                y <= plot.height,
                plot == plot_below(area),
                !area.is_empty(),
                plot.inside(canvas::bounds(*buf)),
                canvas::is_whole(*buf),
                canvas::bounds(*buf) == canvas::bounds(*old(buf)),
                labelled.dom() == canvas::cells(*old(buf)).dom(),
                canvas::cells(*buf) == with_meter(
                    labelled,
                    plot,
                    filled as nat,
                    color,
                    |i: int, j: int| i < x || (i == x && j < y),
                ),
            decreases plot.height - y,
        {
            assert(canvas::bounds(*buf).covers(plot.x + x, plot.y + y));
            if x < filled && x % 2 == 0 {
                canvas::set_cell(buf, plot.x + x, plot.y + y, " ", filled_paint(color));
            } else {
                canvas::set_cell(buf, plot.x + x, plot.y + y, "▏", outlined_paint(color));
            }
            y = y + 1;
            assert(canvas::cells(*buf) =~= with_meter(
                labelled,
                plot,
                filled as nat,
                color,
                |i: int, j: int| i < x || (i == x && j < y),
            ));
        }
        x = x + 1;
        assert(canvas::cells(*buf) =~= with_meter(
            labelled,
            plot,
            filled as nat,
            color,
            |i: int, j: int| i < x,
        ));
    }
    assert(canvas::cells(*buf) =~= with_meter(
        labelled,
        plot,
        filled as nat,
        color,
        |i: int, j: int| true,
    ));
    assert(shows_columns(
        canvas::cells(*old(buf)),
        canvas::cells(*buf),
        area,
        filled as int,
        color,
    ));
}

/// The largest of the values, or 1 where all are smaller.
pub open spec fn plot_top(values: Seq<u64>) -> u64 {
    if snapshot::largest(values) > 1 {
        snapshot::largest(values)
    } else {
        1
    }
}

/// Which of `len` values the column `x` of `width` columns shows.
pub open spec fn plotted_index(x: int, width: u16, len: nat) -> int {
    let count = if len > 1 {
        len as int
    } else {
        1
    };
    let index = x * count / width as int;
    if index < count {
        index
    } else {
        count - 1
    }
}

/// The height of column `x`, as the share that its value has of the largest one.
pub open spec fn plotted_height(values: Seq<u64>, x: int, plot: Rect) -> nat {
    let index = plotted_index(x, plot.width, values.len());
    let value = if 0 <= index < values.len() {
        values[index]
    } else {
        0
    };
    rounding::scaled(
        rounding::to_precision(value as nat, rounding::SINGLE as nat),
        rounding::to_precision(plot_top(values) as nat, rounding::SINGLE as nat),
        plot.height as nat,
        rounding::SINGLE as nat,
    )
}

/// How a plot paints a cell: the lowest cells of each column are filled up to its height.
pub open spec fn plot_paint(values: Seq<u64>, x: int, y: int, plot: Rect, color: Color) -> Paint {
    if y >= plot.height - plotted_height(values, x, plot) {
        filled_paint(color)
    } else {
        unpainted()
    }
}

/// `before` with the columns of a history drawn on `plot` as far as `done` says.
pub open spec fn with_plot(
    before: Grid,
    plot: Rect,
    values: Seq<u64>,
    color: Color,
    done: spec_fn(int, int) -> bool,
) -> Grid {
    before.map_entries(
        |at: (int, int), cell: Cell|
            if plot.covers(at.0, at.1) && done(at.0 - plot.x, at.1 - plot.y) {
                cell.painted(
                    " "@,
                    plot_paint(values, at.0 - plot.x, at.1 - plot.y, plot, color),
                )
            } else {
                cell
            },
    )
}

/// What a history plot leaves behind: its label on the first row of `area` and its columns below.
pub open spec fn history_drawn(
    before: Grid,
    bounds: Rect,
    area: Rect,
    label: Seq<char>,
    values: Seq<u64>,
    color: Color,
) -> Grid {
    if area.is_empty() {
        before
    } else {
        let labelled = canvas::text_written(
            before,
            bounds,
            area.x,
            area.y,
            label,
            area.width,
            label_paint(color),
        );
        with_plot(labelled, plot_below(area), values, color, |x: int, y: int| true)
    }
}

/// The largest of the values, or 1 where all are smaller.
fn top_of(data: &VecDeque<u64>) -> (r: u64)
    ensures
        r == plot_top(data@),
{
    let mut top: u64 = 0;
    let mut i: usize = 0;
    while i < data.len()
        invariant
            i <= data@.len(),
            top == snapshot::largest(data@.take(i as int)),
        decreases data@.len() - i,
    {
        assert(data@.take(i + 1).drop_last() =~= data@.take(i as int));
        if data[i] > top {
            top = data[i];
        }
        i = i + 1;
    }
    assert(data@.take(i as int) =~= data@);
    if top > 1 {
        top
    } else {
        1
    }
}

/// The height of column `x` of `plot`, where `top` is the largest value.
fn column_height(data: &VecDeque<u64>, top: u64, x: u16, plot: Rect) -> (r: u16)
    requires
        x < plot.width,
        top == plot_top(data@),
    ensures
        r == plotted_height(data@, x as int, plot),
        r <= plot.height,
{
    let count: usize = if data.len() > 1 {
        data.len()
    } else {
        1
    };
    assert(x * count <= 0xffff * 0xffff_ffff_ffff_ffff) by (nonlinear_arith)
        requires
            x <= 0xffff,
            count <= 0xffff_ffff_ffff_ffff,
    ;
    let index: u128 = (x as u128) * (count as u128) / (plot.width as u128);
    assert(index < count) by (nonlinear_arith)
        requires
            index == x * count / plot.width as int,
            x < plot.width,
            count >= 1,
    ;
    let value: u64 = if (index as usize) < data.len() {
        data[index as usize]
    } else {
        0
    };
    let part: u128 = rounding::round_to_precision(value as u128, rounding::SINGLE);
    let whole: u128 = rounding::round_to_precision(top as u128, rounding::SINGLE);
    proof {
        snapshot::lemma_largest(data@);
        rounding::lemma_to_precision_of_word(top);
        rounding::lemma_to_precision_monotonic(
            value as nat,
            top as nat,
            rounding::SINGLE as nat,
        );
    }
    rounding::scale_by_ratio(part, whole, plot.height, rounding::SINGLE)
}

/// Draws a history plot.
pub fn draw_history_plot(
    buf: &mut Buffer,
    area: Rect,
    label: &str,
    data: &VecDeque<u64>,
    color: Color,
)
    requires
        canvas::is_whole(*old(buf)),
        fits(area, canvas::bounds(*old(buf)), label@),
    ensures
        canvas::bounds(*final(buf)) == canvas::bounds(*old(buf)),
        canvas::cells(*final(buf)) == history_drawn(
            canvas::cells(*old(buf)),
            canvas::bounds(*old(buf)),
            area,
            label@,
            data@,
            color,
        ),
        shows_history(
            canvas::cells(*old(buf)),
            canvas::cells(*final(buf)),
            area,
            data@,
            color,
        ),
        canvas::is_plain(label@) ==> shows_label(
            canvas::cells(*old(buf)),
            canvas::cells(*final(buf)),
            area,
            label@,
            color,
        ),
        canvas::same_outside(canvas::cells(*old(buf)), canvas::cells(*final(buf)), area),
        canvas::is_whole(*final(buf)),
{
    proof {
        if area.is_empty() {
            lemma_history_shown(canvas::cells(*buf), canvas::cells(*buf), area, data@, color);
        }
    }
    if area.width == 0 || area.height == 0 {
        return;
    }
    let top: u64 = top_of(data);
    canvas::set_text(buf, area.x, area.y, label, area.width, label_paint(color));
    let ghost labelled = canvas::cells(*buf);
    let plot: Rect = Rect {
        x: area.x,
        y: area.y.saturating_add(1),
        width: area.width,
        height: area.height.saturating_sub(1),
    };
    let mut x: u16 = 0;
    assert(canvas::cells(*buf) =~= with_plot(
        labelled,
        plot,
        data@,
        color,
        |i: int, j: int| i < x,
    ));
    while x < plot.width
        invariant
            x <= plot.width,
            plot == plot_below(area),
            top == plot_top(data@),
            !area.is_empty(),
            plot.inside(canvas::bounds(*buf)),
            canvas::is_whole(*buf),
            canvas::bounds(*buf) == canvas::bounds(*old(buf)),
            labelled.dom() == canvas::cells(*old(buf)).dom(),
            canvas::cells(*buf) == with_plot(
                labelled,
                plot,
                data@,
                color,
                |i: int, j: int| i < x,
            ),
        decreases plot.width - x,
    {
        let height: u16 = column_height(data, top, x, plot);
        let mut y: u16 = 0;
        assert(canvas::cells(*buf) =~= with_plot(
            labelled,
            plot,
            data@,
            color,
            |i: int, j: int| i < x || (i == x && j < y),
        ));
        while y < plot.height
            invariant
                x < plot.width,
                y <= plot.height,
                plot == plot_below(area),
                height == plotted_height(data@, x as int, plot),
                height <= plot.height,
                !area.is_empty(),
                plot.inside(canvas::bounds(*buf)),
                canvas::is_whole(*buf),
                canvas::bounds(*buf) == canvas::bounds(*old(buf)),
                labelled.dom() == canvas::cells(*old(buf)).dom(),
                canvas::cells(*buf) == with_plot(
                    labelled,
                    plot,
                    data@,
                    color,
                    |i: int, j: int| i < x || (i == x && j < y),
                ),
            decreases plot.height - y,
        {
            assert(canvas::bounds(*buf).covers(plot.x + x, plot.y + y));
            let paint: Paint = if y >= plot.height - height {
                filled_paint(color)
            } else {
                unpainted()
            };
            canvas::set_cell(buf, plot.x + x, plot.y + y, " ", paint);
            y = y + 1;
            assert(canvas::cells(*buf) =~= with_plot(
                labelled,
                plot,
                data@,
                color,
                |i: int, j: int| i < x || (i == x && j < y),
            ));
        }
        x = x + 1;
        assert(canvas::cells(*buf) =~= with_plot(
            labelled,
            plot,
            data@,
            color,
            |i: int, j: int| i < x,
        ));
    }
    assert(canvas::cells(*buf) =~= with_plot(
        labelled,
        plot,
        data@,
        color,
        |i: int, j: int| true,
    ));
    proof {
        lemma_history_shown(canvas::cells(*old(buf)), canvas::cells(*buf), area, data@, color);
    }
}

/// A meter is empty at nothing and full from a hundred percent on, never fills more columns than
/// it has, and never fills fewer columns at a higher percentage.
pub proof fn law_meter_fill(width: u16, low: u16, high: u16)
    requires
        low <= high,
    ensures
        filled_columns(width, 0) == 0,
        high >= 100 ==> filled_columns(width, high) == width,
        filled_columns(width, high) <= width,
        filled_columns(width, low) <= filled_columns(width, high),
{
    let bits = rounding::SINGLE as nat;
    let part = |percent: u16| {
        if percent <= 100 {
            percent as nat
        } else {
            100
        }
    };
    lemma2_to64();
    rounding::law_scaled_whole(100, width as nat, bits);
    rounding::lemma_scaled_at_most(part(high), 100, width as nat, bits);
    rounding::law_scaled_monotonic(part(low), part(high), 100, width as nat, bits);
}

/// Whether `filled` of `width` columns are the share that goes with `percent`: all of them from a
/// hundred percent on, else the whole number of columns that is nearest to the share.
pub open spec fn is_share(filled: int, width: int, percent: int) -> bool {
    &&& 0 <= filled <= width
    &&& percent >= 100 ==> filled == width
    &&& percent < 100 ==> -50 <= 100 * filled - width * percent <= 50
}

/// Whether `(x, y)` lies in `area` below its first row.
pub open spec fn below_label(area: Rect, x: int, y: int) -> bool {
    area.covers(x, y) && y > area.y
}

/// Whether a cell is a solid one in the color.
pub open spec fn is_solid(cell: Cell, color: Color) -> bool {
    cell.symbol == " "@ && cell.bg == Ink::Color(color)
}

/// Whether a cell shows a stroke in the color on the background that it had.
pub open spec fn is_stroke(before: Cell, after: Cell, color: Color) -> bool {
    after.symbol == "▏"@ && after.fg == Ink::Color(color) && after.bg == before.bg
}

/// Whether every other one of the first `filled` columns of `area` below the label is solid, and
/// every other cell there shows a stroke.
pub open spec fn shows_columns(
    before: Grid,
    after: Grid,
    area: Rect,
    filled: int,
    color: Color,
) -> bool {
    forall|x: int, y: int|
        #![trigger after[(x, y)]]
        below_label(area, x, y) && before.dom().contains((x, y)) ==> {
            if x - area.x < filled && (x - area.x) % 2 == 0 {
                is_solid(after[(x, y)], color)
            } else {
                is_stroke(before[(x, y)], after[(x, y)], color)
            }
        }
}

/// Whether the rows of `area` below its first show a meter at `percent`.
pub open spec fn shows_meter(
    before: Grid,
    after: Grid,
    area: Rect,
    percent: u16,
    color: Color,
) -> bool {
    exists|filled: int| #[trigger]
        is_share(filled, area.width as int, percent as int) && shows_columns(
            before,
            after,
            area,
            filled,
            color,
        )
}

/// Whether the first row of `area` shows a text, as much of it as there is room for, character by
/// character, bold and in the color.
pub open spec fn shows_label(
    before: Grid,
    after: Grid,
    area: Rect,
    label: Seq<char>,
    color: Color,
) -> bool {
    forall|i: int|
        #![trigger label[i]]
        0 <= i < label.len() && i < area.width && area.height > 0 && before.dom().contains(
            (area.x + i, area.y as int),
        ) ==> {
            let cell = after[(area.x + i, area.y as int)];
            cell.symbol == seq![label[i]] && cell.fg == Ink::Color(color) && cell.bold
        }
}

/// Whether `top` is the largest of the values, or 1 where all are smaller.
pub open spec fn is_top(top: int, values: Seq<u64>) -> bool {
    &&& top >= 1
    &&& forall|i: int| 0 <= i < values.len() ==> #[trigger] values[i] <= top
    &&& top > 1 ==> exists|i: int| 0 <= i < values.len() && #[trigger] values[i] == top
}

/// Whether `height` of `room` rows are the share that `value` has of `top`: none for nothing, all
/// for `top`, and between them not farther from the share than a rounding takes it.
pub open spec fn is_bar(height: int, value: int, top: int, room: int) -> bool {
    &&& 0 <= height <= room
    &&& value == 0 ==> height == 0
    &&& value == top ==> height == room
    &&& -17 * top <= 32 * (top * height - room * value) <= 17 * top
}

/// Whether the lowest `height` rows of column `x` of `area` are solid, and the others below the
/// label are blank on the background that they had.
pub open spec fn shows_rows(
    before: Grid,
    after: Grid,
    area: Rect,
    x: int,
    height: int,
    color: Color,
) -> bool {
    forall|y: int|
        #![trigger after[(x, y)]]
        below_label(area, x, y) && before.dom().contains((x, y)) ==> {
            if y >= area.y + area.height - height {
                is_solid(after[(x, y)], color)
            } else {
                after[(x, y)].symbol == " "@ && after[(x, y)].bg == before[(x, y)].bg
            }
        }
}

/// The value that column `k` of `width` shows: the one that lies as far into the history as the
/// column lies into the plot, and nothing where there are no values.
pub open spec fn shown_value(values: Seq<u64>, k: int, width: u16) -> int {
    if values.len() > 0 {
        values[k * values.len() as int / width as int] as int
    } else {
        0
    }
}

/// Whether column `k` of `area` shows a bar for its value in a plot up to `top`.
pub open spec fn shows_bar(
    before: Grid,
    after: Grid,
    area: Rect,
    k: int,
    values: Seq<u64>,
    top: int,
    color: Color,
) -> bool {
    exists|height: int| #[trigger]
        is_bar(height, shown_value(values, k, area.width), top, area.height - 1) && shows_rows(
            before,
            after,
            area,
            area.x + k,
            height,
            color,
        )
}

/// Whether the rows of `area` below its first show the values from the oldest on the left to the
/// newest on the right.
pub open spec fn shows_history(
    before: Grid,
    after: Grid,
    area: Rect,
    values: Seq<u64>,
    color: Color,
) -> bool {
    area.height > 0 ==> exists|top: int| #[trigger]
        is_top(top, values) && forall|k: int|
            0 <= k < area.width ==> #[trigger] shows_bar(
                before,
                after,
                area,
                k,
                values,
                top,
                color,
            )
}

/// A meter fills the whole number of columns that is nearest to the share that goes with its
/// percentage.
pub proof fn law_fill_is_nearest(width: u16, percent: u16)
    ensures
        is_share(filled_columns(width, percent) as int, width as int, percent as int),
{
    let bits = rounding::SINGLE as nat;
    let part: nat = if percent <= 100 {
        percent as nat
    } else {
        100
    };
    let filled = filled_columns(width, percent);
    let product = part * width as nat;
    lemma2_to64();
    law_meter_fill(width, percent, percent);
    rounding::law_scaled_is_close(part, 100, width as nat, bits);
    assert(product <= 100 * 65535) by (nonlinear_arith)
        requires
            product == part * width as nat,
            part <= 100,
            width <= 65535,
    ;
    assert(product == width as int * part as int) by (nonlinear_arith)
        requires
            product == part * width as nat,
    ;
    assert(100 * filled - product <= 50);
    assert(product - 100 * filled <= 50);
}

/// A column of a history is as high as the share that its value has of the largest one.
pub proof fn law_bar_is_share(values: Seq<u64>, k: int, plot: Rect)
    requires
        0 <= k < plot.width,
    ensures
        is_top(plot_top(values) as int, values),
        is_bar(
            plotted_height(values, k, plot) as int,
            shown_value(values, k, plot.width),
            plot_top(values) as int,
            plot.height as int,
        ),
{
    let bits = rounding::SINGLE as nat;
    let top = plot_top(values);
    let room = plot.height as nat;
    let height = plotted_height(values, k, plot);
    let value: u64 = if values.len() > 0 {
        values[k * values.len() as int / plot.width as int]
    } else {
        0
    };
    lemma2_to64();
    snapshot::lemma_largest(values);
    rounding::lemma_to_precision_of_word(top);
    rounding::lemma_to_precision_of_word(0);
    if values.len() > 0 {
        lemma_plotted_index(k, plot.width, values.len());
        let i = choose|i: int| 0 <= i < values.len() && values[i] == snapshot::largest(values);
        assert(values[i] <= top);
    } else {
        assert(plotted_index(k, plot.width, 0) >= 0) by {
            assert(0 <= k * 1 / plot.width as int) by (nonlinear_arith)
                requires
                    0 <= k,
                    0 < plot.width,
            ;
        }
    }
    assert(value <= top);
    let part = rounding::to_precision(value as nat, bits);
    let whole = rounding::to_precision(top as nat, bits);
    rounding::lemma_to_precision_monotonic(value as nat, top as nat, bits);
    rounding::law_scaled_whole(whole, room, bits);
    rounding::lemma_scaled_at_most(part, whole, room, bits);
    rounding::lemma_share_is_close(value as nat, top as nat, room, bits);
    let shown = top as nat * height;
    let due = room * value as nat;
    let big = pow2(bits);
    assert(big == 0x100_0000);
    assert((big + 1 + 14 * room) * top <= 17_694_707 * top) by (nonlinear_arith)
        requires
            big == 0x100_0000,
            room <= 65535,
    ;
    assert(big * (2 * shown) == 0x200_0000 * shown) by (nonlinear_arith)
        requires
            big == 0x100_0000,
    ;
    assert(big * (2 * due) == 0x200_0000 * due) by (nonlinear_arith)
        requires
            big == 0x100_0000,
    ;
    assert(32 * (shown - due) <= 17 * top);
    assert(32 * (due - shown) <= 17 * top);
}

/// A meter shows its label, and below it the columns that go with its percentage. It changes
/// nothing outside its area.
pub proof fn law_meter_shows(
    before: Grid,
    bounds: Rect,
    area: Rect,
    percent: u16,
    label: Seq<char>,
    color: Color,
)
    requires
        canvas::is_plain(label),
        area.is_empty() || area.height == 1 || area.y < u16::MAX,
    ensures
        shows_meter(
            before,
            meter_drawn(before, bounds, area, percent, label, color),
            area,
            percent,
            color,
        ),
        shows_label(
            before,
            meter_drawn(before, bounds, area, percent, label, color),
            area,
            label,
            color,
        ),
        canvas::same_outside(
            before,
            meter_drawn(before, bounds, area, percent, label, color),
            area,
        ),
{
    let after = meter_drawn(before, bounds, area, percent, label, color);
    let filled = filled_columns(area.width, percent) as int;
    law_fill_is_nearest(area.width, percent);
    assert(shows_columns(before, after, area, filled, color));
    assert(after.dom() =~= before.dom());
}

/// A history plot shows its label, and below it the values. It changes nothing outside its area.
pub proof fn law_history_shows(
    before: Grid,
    bounds: Rect,
    area: Rect,
    label: Seq<char>,
    values: Seq<u64>,
    color: Color,
)
    requires
        canvas::is_plain(label),
        area.is_empty() || area.height == 1 || area.y < u16::MAX,
    ensures
        shows_history(
            before,
            history_drawn(before, bounds, area, label, values, color),
            area,
            values,
            color,
        ),
        shows_label(
            before,
            history_drawn(before, bounds, area, label, values, color),
            area,
            label,
            color,
        ),
        canvas::same_outside(
            before,
            history_drawn(before, bounds, area, label, values, color),
            area,
        ),
{
    let after = history_drawn(before, bounds, area, label, values, color);
    lemma_history_shown(before, after, area, values, color);
    assert(after.dom() =~= before.dom());
}

/// The columns that a history plot paints show the values.
proof fn lemma_history_shown(
    before: Grid,
    after: Grid,
    area: Rect,
    values: Seq<u64>,
    color: Color,
)
    requires
        !area.is_empty() ==> forall|x: int, y: int|
            #![trigger after[(x, y)]]
            below_label(area, x, y) && before.dom().contains((x, y)) ==> after[(x, y)].symbol
                == " "@ && after[(x, y)].bg == before[(x, y)].painted(
                " "@,
                plot_paint(values, x - area.x, y - area.y - 1, plot_below(area), color),
            ).bg,
        area.is_empty() || area.height == 1 || area.y < u16::MAX,
    ensures
        shows_history(before, after, area, values, color),
{
    let plot = plot_below(area);
    let top = plot_top(values) as int;
    snapshot::lemma_largest(values);
    if values.len() > 0 {
        let i = choose|i: int| 0 <= i < values.len() && values[i] == snapshot::largest(values);
        assert(values[i] <= top);
    }
    assert(is_top(top, values));
    if area.height > 0 {
        assert forall|k: int| 0 <= k < area.width implies #[trigger] shows_bar(
            before,
            after,
            area,
            k,
            values,
            top,
            color,
        ) by {
            law_bar_is_share(values, k, plot);
            let height = plotted_height(values, k, plot) as int;
            assert(is_bar(height, shown_value(values, k, area.width), top, area.height - 1));
            assert(shows_rows(before, after, area, area.x + k, height, color));
        }
    }
}

/// The column behind the last filled one always shows the edge: a stroke, not a solid cell.
pub proof fn law_meter_edge(width: u16, percent: u16, color: Color)
    ensures
        meter_symbol(filled_columns(width, percent) as int, filled_columns(width, percent))
            == "▏"@,
        meter_paint(filled_columns(width, percent) as int, filled_columns(width, percent), color)
            == outlined_paint(color),
{
}

/// A meter and a history plot show their label on the first row of their area: each character of
/// a plain label that there is room for stands in its cell, bold and in the color.
pub proof fn law_label_is_shown(
    before: Grid,
    bounds: Rect,
    area: Rect,
    percent: u16,
    values: Seq<u64>,
    label: Seq<char>,
    color: Color,
    i: int,
)
    requires
        canvas::is_plain(label),
        area.lies_on(bounds),
        !area.is_empty(),
        0 <= i < label.len(),
        i < area.width,
        before.dom().contains((area.x + i, area.y as int)),
    ensures
        meter_drawn(before, bounds, area, percent, label, color)[(area.x + i, area.y as int)]
            == before[(area.x + i, area.y as int)].painted(seq![label[i]], label_paint(color)),
        history_drawn(before, bounds, area, label, values, color)[(area.x + i, area.y as int)]
            == before[(area.x + i, area.y as int)].painted(seq![label[i]], label_paint(color)),
{
}

/// A column of a history is empty for the value 0, as high as the plot for the largest value,
/// and never lower than the column of a smaller value.
pub proof fn law_plot_heights(values: Seq<u64>, low: int, high: int, plot: Rect)
    requires
        values.len() > 0,
        0 <= low < plot.width,
        0 <= high < plot.width,
        values[plotted_index(low, plot.width, values.len())] <= values[plotted_index(
            high,
            plot.width,
            values.len(),
        )],
    ensures
        values[plotted_index(low, plot.width, values.len())] == 0 ==> plotted_height(
            values,
            low,
            plot,
        ) == 0,
        values[plotted_index(high, plot.width, values.len())] == plot_top(values)
            ==> plotted_height(values, high, plot) == plot.height,
        plotted_height(values, high, plot) <= plot.height,
        plotted_height(values, low, plot) <= plotted_height(values, high, plot),
{
    let bits = rounding::SINGLE as nat;
    lemma_plotted_index(low, plot.width, values.len());
    lemma_plotted_index(high, plot.width, values.len());
    let small = values[plotted_index(low, plot.width, values.len())];
    let large = values[plotted_index(high, plot.width, values.len())];
    let top = plot_top(values);
    lemma2_to64();
    snapshot::lemma_largest(values);
    rounding::lemma_to_precision_of_word(top);
    rounding::lemma_to_precision_of_word(0);
    rounding::lemma_to_precision_monotonic(small as nat, large as nat, bits);
    rounding::lemma_to_precision_monotonic(large as nat, top as nat, bits);
    let part = rounding::to_precision(large as nat, bits);
    let whole = rounding::to_precision(top as nat, bits);
    rounding::law_scaled_whole(whole, plot.height as nat, bits);
    rounding::lemma_scaled_at_most(part, whole, plot.height as nat, bits);
    rounding::law_scaled_monotonic(
        rounding::to_precision(small as nat, bits),
        part,
        whole,
        plot.height as nat,
        bits,
    );
}

/// `values`, each doubled.
pub open spec fn doubled(values: Seq<u64>) -> Seq<u64> {
    values.map_values(|v: u64| (2 * v) as u64)
}

/// The largest of doubled values is twice the largest.
proof fn lemma_largest_doubled(values: Seq<u64>)
    requires
        forall|i: int| 0 <= i < values.len() ==> #[trigger] values[i] <= u64::MAX / 2,
    ensures
        snapshot::largest(doubled(values)) == 2 * snapshot::largest(values),
    decreases values.len(),
{
    if values.len() > 0 {
        let before = values.drop_last();
        assert forall|i: int| 0 <= i < before.len() implies #[trigger] before[i] <= u64::MAX
            / 2 by {
            assert(before[i] == values[i]);
        }
        lemma_largest_doubled(before);
        assert(doubled(values).drop_last() =~= doubled(before));
        assert(values[values.len() - 1] <= u64::MAX / 2);
    }
}

/// The columns of a history are relative to its largest value: doubled values have columns of the
/// same heights.
pub proof fn law_plot_is_relative(values: Seq<u64>, x: int, plot: Rect)
    requires
        forall|i: int| 0 <= i < values.len() ==> #[trigger] values[i] <= u64::MAX / 2,
    ensures
        plotted_height(doubled(values), x, plot) == plotted_height(values, x, plot),
{
    let bits = rounding::SINGLE as nat;
    let index = plotted_index(x, plot.width, values.len());
    let value: u64 = if 0 <= index < values.len() {
        values[index]
    } else {
        0
    };
    let top = plot_top(values);
    lemma_largest_doubled(values);
    snapshot::lemma_largest(values);
    if snapshot::largest(values) == 0 {
        rounding::lemma_to_precision_of_word(0);
    } else {
        assert(plot_top(doubled(values)) == 2 * top);
        rounding::lemma_to_precision_of_word(top);
        rounding::lemma_to_precision_doubled(value as nat, bits);
        rounding::lemma_to_precision_doubled(top as nat, bits);
        rounding::law_scaled_is_relative(
            rounding::to_precision(value as nat, bits),
            rounding::to_precision(top as nat, bits),
            plot.height as nat,
            bits,
        );
    }
}

/// A history plot is relative to its largest value: doubled values leave the same plot.
pub proof fn law_history_is_relative(
    before: Grid,
    bounds: Rect,
    area: Rect,
    label: Seq<char>,
    values: Seq<u64>,
    color: Color,
)
    requires
        forall|i: int| 0 <= i < values.len() ==> #[trigger] values[i] <= u64::MAX / 2,
    ensures
        history_drawn(before, bounds, area, label, doubled(values), color) == history_drawn(
            before,
            bounds,
            area,
            label,
            values,
            color,
        ),
{
    let plot = plot_below(area);
    assert forall|x: int|
        #[trigger] plotted_height(doubled(values), x, plot) == plotted_height(values, x, plot) by {
        law_plot_is_relative(values, x, plot);
    }
    assert(history_drawn(before, bounds, area, label, doubled(values), color) =~= history_drawn(
        before,
        bounds,
        area,
        label,
        values,
        color,
    ));
}

/// Every column shows one of the values.
proof fn lemma_plotted_index(x: int, width: u16, len: nat)
    requires
        0 <= x < width,
        len > 0,
    ensures
        0 <= plotted_index(x, width, len) < len,
        plotted_index(x, width, len) == x * len as int / width as int,
{
    assert(0 <= x * len as int / width as int) by (nonlinear_arith)
        requires
            0 <= x,
            0 < width,
    ;
    assert(len > x * len as int / width as int) by (nonlinear_arith)
        requires
            0 <= x < width,
            0 < len,
    ;
}

/// The columns of a history run from older to newer values: the first shows the oldest, no column
/// shows an older value than the one to its left, and a plot with a column for each value ends
/// with the newest.
pub proof fn law_plot_runs_forward(width: u16, len: nat, left: int, right: int)
    requires
        len > 0,
        0 <= left <= right < width,
    ensures
        plotted_index(0, width, len) == 0,
        0 <= plotted_index(left, width, len) <= plotted_index(right, width, len) < len,
        len <= width ==> plotted_index(width - 1, width, len) == len - 1,
{
    lemma_plotted_index(left, width, len);
    lemma_plotted_index(right, width, len);
    lemma_plotted_index(0, width, len);
    lemma_plotted_index(width - 1, width, len);
    assert(0 * len as int / width as int == 0) by (nonlinear_arith)
        requires
            0 < width,
    ;
    assert(left * len as int / width as int <= right * len as int / width as int)
        by (nonlinear_arith)
        requires
            left <= right,
            0 < width,
    {
        assert(left * len as int <= right * len as int);
        vstd::arithmetic::div_mod::lemma_div_is_ordered(
            left * len as int,
            right * len as int,
            width as int,
        );
    }
    if len <= width {
        assert((width - 1) * len as int / width as int == len - 1) by {
            assert((width - 1) * len as int == (len - 1) * width + (width - len))
                by (nonlinear_arith);
            vstd::arithmetic::div_mod::lemma_fundamental_div_mod_converse(
                (width - 1) * len as int,
                width as int,
                len - 1,
                width - len,
            );
        }
    }
}

} // verus!
