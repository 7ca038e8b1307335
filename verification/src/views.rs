//! What the panels show, place by place.
//!
//! What is said here of a place holds of what is left behind there, whatever way it was drawn.
//! Where parts of a screen may overlap, it is said of the cells that a part has for itself.

use crate::area;
use crate::area::Rect;
use crate::canvas;
use crate::canvas::{Cell, Color, Grid, Ink, Paint};
use crate::memory;
use crate::memory::MemorySnapshot;
use crate::meter;
use crate::screen;
use crate::screen::{CoresLayout, ProcessorLayout, Readouts};
use crate::snapshot::{CoreMetric, Snapshot};
use crate::words;
use vstd::prelude::*;

verus! {

/// Whether one of the areas covers `(x, y)`.
pub open spec fn covered(areas: Seq<Rect>, x: int, y: int) -> bool {
    exists|i: int| 0 <= i < areas.len() && (#[trigger] areas[i]).covers(x, y)
}

/// The cells of a grid that none of the areas covers.
pub open spec fn clear_of(grid: Grid, areas: Seq<Rect>) -> Grid {
    grid.restrict(Set::new(|at: (int, int)| !covered(areas, at.0, at.1)))
}

/// Whether the far edges of the bounds are coordinates, as those of a screen are.
pub open spec fn is_screen(bounds: Rect) -> bool {
    bounds.x + bounds.width <= u16::MAX && bounds.y + bounds.height <= u16::MAX
}

/// Whether the upper line of `area` shows a title between its corners, as much of it as there is
/// room for, and bold in the color where there is one.
pub open spec fn shows_title(
    before: Grid,
    after: Grid,
    area: Rect,
    title: Seq<char>,
    color: Option<Color>,
) -> bool {
    forall|i: int|
        #![trigger title[i]]
        0 <= i < title.len() && i + 2 < area.width && area.height > 0 && before.dom().contains(
            (area.x + 1 + i, area.y as int),
        ) ==> {
            let cell = after[(area.x + 1 + i, area.y as int)];
            &&& cell.symbol == seq![title[i]]
            &&& color matches Some(hue) ==> cell.fg == Ink::Color(hue) && cell.bold
        }
}

/// Whether what is shown on `area` carries over from one pair of grids to another: the first has
/// the same cells there, or some of them, with the same backgrounds to begin with.
pub open spec fn carries(
    base: Grid,
    before: Grid,
    between: Grid,
    after: Grid,
    area: Rect,
) -> bool {
    forall|x: int, y: int|
        #![trigger after[(x, y)]]
        #![trigger base.dom().contains((x, y))]
        base.dom().contains((x, y)) && area.covers(x, y) ==> {
            &&& before.dom().contains((x, y))
            &&& before[(x, y)].bg == base[(x, y)].bg
            &&& after[(x, y)] == between[(x, y)]
        }
}

/// What a meter shows carries over.
pub proof fn lemma_meter_carries(
    base: Grid,
    before: Grid,
    between: Grid,
    after: Grid,
    area: Rect,
    percent: u16,
    color: Color,
)
    requires
        meter::shows_meter(before, between, area, percent, color),
        carries(base, before, between, after, area),
    ensures
        meter::shows_meter(base, after, area, percent, color),
{
    let filled = choose|filled: int| #[trigger]
        meter::is_share(filled, area.width as int, percent as int) && meter::shows_columns(
            before,
            between,
            area,
            filled,
            color,
        );
    assert forall|x: int, y: int|
        #![trigger after[(x, y)]]
        meter::below_label(area, x, y) && base.dom().contains((x, y)) implies {
        if x - area.x < filled && (x - area.x) % 2 == 0 {
            meter::is_solid(after[(x, y)], color)
        } else {
            meter::is_stroke(base[(x, y)], after[(x, y)], color)
        }
    } by {
        assert(after[(x, y)] == between[(x, y)]);
    }
    assert(meter::shows_columns(base, after, area, filled, color));
}

/// What a history shows carries over.
pub proof fn lemma_history_carries(
    base: Grid,
    before: Grid,
    between: Grid,
    after: Grid,
    area: Rect,
    values: Seq<u64>,
    color: Color,
)
    requires
        meter::shows_history(before, between, area, values, color),
        carries(base, before, between, after, area),
    ensures
        meter::shows_history(base, after, area, values, color),
{
    if area.height > 0 {
        let top = choose|top: int| #[trigger]
            meter::is_top(top, values) && forall|k: int|
                0 <= k < area.width ==> #[trigger] meter::shows_bar(
                    before,
                    between,
                    area,
                    k,
                    values,
                    top,
                    color,
                );
        assert forall|k: int| 0 <= k < area.width implies #[trigger] meter::shows_bar(
            base,
            after,
            area,
            k,
            values,
            top,
            color,
        ) by {
            assert(meter::shows_bar(before, between, area, k, values, top, color));
            let x = area.x + k;
            let height = choose|height: int| #[trigger]
                meter::is_bar(
                    height,
                    meter::shown_value(values, k, area.width),
                    top,
                    area.height - 1,
                ) && meter::shows_rows(before, between, area, x, height, color);
            assert forall|y: int|
                #![trigger after[(x, y)]]
                meter::below_label(area, x, y) && base.dom().contains((x, y)) implies {
                if y >= area.y + area.height - height {
                    meter::is_solid(after[(x, y)], color)
                } else {
                    after[(x, y)].symbol == " "@ && after[(x, y)].bg == base[(x, y)].bg
                }
            } by {
                assert(after[(x, y)] == between[(x, y)]);
            }
            assert(meter::shows_rows(base, after, area, x, height, color));
        }
    }
}

/// What a label shows carries over.
pub proof fn lemma_label_carries(
    base: Grid,
    before: Grid,
    between: Grid,
    after: Grid,
    area: Rect,
    label: Seq<char>,
    color: Color,
)
    requires
        meter::shows_label(before, between, area, label, color),
        carries(base, before, between, after, area),
    ensures
        meter::shows_label(base, after, area, label, color),
{
    assert forall|i: int|
        #![trigger label[i]]
        0 <= i < label.len() && i < area.width && area.height > 0 && base.dom().contains(
            (area.x + i, area.y as int),
        ) implies {
        let cell = after[(area.x + i, area.y as int)];
        cell.symbol == seq![label[i]] && cell.fg == Ink::Color(color) && cell.bold
    } by {
        let at = (area.x + i, area.y as int);
        assert(area.covers(at.0, at.1));
        assert(base.dom().contains((at.0, at.1)));
        assert(after[at] == between[at]);
        assert(before.dom().contains(at));
        assert(between[at].symbol == seq![label[i]]);
    }
}

/// What a title shows carries over.
pub proof fn lemma_title_carries(
    base: Grid,
    before: Grid,
    between: Grid,
    after: Grid,
    area: Rect,
    title: Seq<char>,
    color: Option<Color>,
)
    requires
        shows_title(before, between, area, title, color),
        carries(base, before, between, after, Rect { height: 1, ..area }),
    ensures
        shows_title(base, after, area, title, color),
{
    let line = Rect { height: 1, ..area };
    assert forall|i: int|
        #![trigger title[i]]
        0 <= i < title.len() && i + 2 < area.width && area.height > 0 && base.dom().contains(
            (area.x + 1 + i, area.y as int),
        ) implies {
        let cell = after[(area.x + 1 + i, area.y as int)];
        &&& cell.symbol == seq![title[i]]
        &&& color matches Some(hue) ==> cell.fg == Ink::Color(hue) && cell.bold
    } by {
        let at = (area.x + 1 + i, area.y as int);
        assert(line.covers(at.0, at.1));
        assert(base.dom().contains((at.0, at.1)));
        assert(after[at] == between[at]);
        assert(before.dom().contains(at));
        assert(between[at].symbol == seq![title[i]]);
    }
}

/// A frame shows its title and leaves backgrounds and all outside its area as they were.
pub proof fn law_frame_shows(
    before: Grid,
    bounds: Rect,
    area: Rect,
    title: Seq<char>,
    border: Paint,
    heading: Paint,
)
    requires
        canvas::is_plain(title),
        area.inside(bounds),
        border.bg is None,
        heading.bg is None,
    ensures
        ({
            let after = canvas::block_rendered(before, bounds, area, title, border, heading);
            &&& canvas::same_outside(before, after, area)
            &&& forall|x: int, y: int|
                before.dom().contains((x, y)) ==> (#[trigger] after[(x, y)]).bg == before[(x, y)].bg
            &&& shows_title(
                before,
                after,
                area,
                title,
                if heading.bold {
                    heading.fg
                } else {
                    None
                },
            )
        }),
{
    let after = canvas::block_rendered(before, bounds, area, title, border, heading);
    assert(after.dom() =~= before.dom());
    if !area.is_empty() {
        assert(canvas::overlap(area, bounds) == area);
    }
}

/// Whether `area` shows a meter in a frame.
pub open spec fn shows_framed(
    before: Grid,
    after: Grid,
    area: Rect,
    title: Seq<char>,
    percent: u16,
    label: Seq<char>,
    color: Color,
) -> bool {
    &&& shows_title(before, after, area, title, None)
    &&& meter::shows_meter(before, after, area::framed(area), percent, color)
    &&& meter::shows_label(before, after, area::framed(area), label, color)
}

/// What a meter in a frame shows carries over.
pub proof fn lemma_framed_carries(
    base: Grid,
    before: Grid,
    between: Grid,
    after: Grid,
    area: Rect,
    title: Seq<char>,
    percent: u16,
    label: Seq<char>,
    color: Color,
)
    requires
        shows_framed(before, between, area, title, percent, label, color),
        carries(base, before, between, after, area),
    ensures
        shows_framed(base, after, area, title, percent, label, color),
{
    let content = area::framed(area);
    assert(carries(base, before, between, after, content)) by {
        assert forall|x: int, y: int|
            #![trigger after[(x, y)]]
            base.dom().contains((x, y)) && content.covers(x, y) implies {
            &&& before.dom().contains((x, y))
            &&& before[(x, y)].bg == base[(x, y)].bg
            &&& after[(x, y)] == between[(x, y)]
        } by {
            assert(area.covers(x, y));
        }
    }
    lemma_meter_carries(base, before, between, after, content, percent, color);
    lemma_label_carries(base, before, between, after, content, label, color);
    if area.height > 0 {
        lemma_title_carries(base, before, between, after, area, title, None);
    }
}

/// A meter in a frame shows its title, its label and its percentage, and changes nothing outside
/// its area.
pub proof fn law_framed_meter_shows(
    before: Grid,
    bounds: Rect,
    area: Rect,
    title: Seq<char>,
    percent: u16,
    label: Seq<char>,
    color: Color,
)
    requires
        canvas::is_plain(title),
        canvas::is_plain(label),
        area.inside(bounds),
        is_screen(bounds),
    ensures
        ({
            let after = screen::framed_meter_drawn(
                before,
                bounds,
                area,
                title,
                percent,
                label,
                color,
            );
            &&& shows_framed(before, after, area, title, percent, label, color)
            &&& canvas::same_outside(before, after, area)
        }),
{
    let content = area::framed(area);
    let framed = screen::frame_drawn(before, bounds, area, title);
    let after = screen::framed_meter_drawn(before, bounds, area, title, percent, label, color);
    law_frame_shows(before, bounds, area, title, meter::unpainted(), meter::unpainted());
    meter::law_meter_shows(framed, bounds, content, percent, label, color);
    canvas::lemma_changed_inside(before, framed, after, content, area);
    lemma_meter_carries(before, framed, after, after, content, percent, color);
    lemma_label_carries(before, framed, after, after, content, label, color);
    if area.height > 0 {
        lemma_title_carries(before, before, framed, after, area, title, None);
    }
}

/// Whether `area` shows the loads of the processors, one in each quarter below a label that names
/// it: the efficiency cores and the performance cores on top, the graphics and the neural engine
/// below.
pub open spec fn shows_loads(
    before: Grid,
    after: Grid,
    area: Rect,
    title: Seq<char>,
    snapshot: Snapshot,
    readouts: Readouts,
    color: Color,
) -> bool {
    let top = area::upper_part(area::framed(area), 1);
    let bottom = area::lower_part(area::framed(area), 1);
    &&& shows_title(before, after, area, title, Some(color))
    &&& meter::shows_meter(
        before,
        after,
        area::left_part(top, 1),
        snapshot.e_cluster_active,
        color,
    )
    &&& meter::shows_label(
        before,
        after,
        area::left_part(top, 1),
        "E-CPU Usage: "@ + screen::load_text(
            snapshot.e_cluster_active,
            snapshot.e_cluster_freq_mhz,
        ),
        color,
    )
    &&& meter::shows_meter(
        before,
        after,
        area::right_part(top, 1),
        snapshot.p_cluster_active,
        color,
    )
    &&& meter::shows_label(
        before,
        after,
        area::right_part(top, 1),
        "P-CPU Usage: "@ + screen::load_text(
            snapshot.p_cluster_active,
            snapshot.p_cluster_freq_mhz,
        ),
        color,
    )
    &&& meter::shows_meter(
        before,
        after,
        area::left_part(bottom, 1),
        snapshot.gpu.active_percent,
        color,
    )
    &&& meter::shows_label(
        before,
        after,
        area::left_part(bottom, 1),
        "GPU Usage: "@ + screen::load_text(snapshot.gpu.active_percent, snapshot.gpu.freq_mhz),
        color,
    )
    &&& meter::shows_meter(
        before,
        after,
        area::right_part(bottom, 1),
        readouts.ane_percent,
        color,
    )
    &&& meter::shows_label(
        before,
        after,
        area::right_part(bottom, 1),
        "ANE Usage: "@ + screen::ane_text(readouts),
        color,
    )
}

/// What is shown on an area carries over to a part of it.
pub proof fn lemma_carries_inside(
    base: Grid,
    before: Grid,
    between: Grid,
    after: Grid,
    part: Rect,
    area: Rect,
)
    requires
        carries(base, before, between, after, area),
        part.inside(area),
    ensures
        carries(base, before, between, after, part),
{
    assert forall|x: int, y: int|
        #![trigger after[(x, y)]]
        base.dom().contains((x, y)) && part.covers(x, y) implies {
        &&& before.dom().contains((x, y))
        &&& before[(x, y)].bg == base[(x, y)].bg
        &&& after[(x, y)] == between[(x, y)]
    } by {
        assert(area.covers(x, y));
    }
    assert forall|x: int, y: int|
        #![trigger base.dom().contains((x, y))]
        base.dom().contains((x, y)) && part.covers(x, y) implies {
        &&& before.dom().contains((x, y))
        &&& before[(x, y)].bg == base[(x, y)].bg
        &&& after[(x, y)] == between[(x, y)]
    } by {
        assert(area.covers(x, y));
    }
}

/// The quarters of the panel of the processors lie inside it, below its upper line, and have no
/// cell in common.
pub proof fn lemma_quarters(area: Rect)
    requires
        area.x + area.width <= u16::MAX,
        area.y + area.height <= u16::MAX,
    ensures
        ({
            let content = area::framed(area);
            let top = area::upper_part(content, 1);
            let bottom = area::lower_part(content, 1);
            let a = area::left_part(top, 1);
            let b = area::right_part(top, 1);
            let c = area::left_part(bottom, 1);
            let d = area::right_part(bottom, 1);
            &&& a.inside(content) && b.inside(content) && c.inside(content) && d.inside(content)
            &&& content.inside(area)
            &&& forall|x: int, y: int| #[trigger] content.covers(x, y) ==> y > area.y
            &&& forall|x: int, y: int| #[trigger]
                a.covers(x, y) ==> !b.covers(x, y) && !c.covers(x, y) && !d.covers(x, y)
            &&& forall|x: int, y: int| #[trigger]
                b.covers(x, y) ==> !c.covers(x, y) && !d.covers(x, y)
            &&& forall|x: int, y: int| #[trigger] c.covers(x, y) ==> !d.covers(x, y)
            &&& a.is_empty() || a.y < u16::MAX
            &&& b.is_empty() || b.y < u16::MAX
            &&& c.is_empty() || c.y < u16::MAX
            &&& d.is_empty() || d.y < u16::MAX
        }),
{
    let content = area::framed(area);
    area::law_vertical_split_fills(content, 1);
    area::law_horizontal_split_fills(area::upper_part(content, 1), 1);
    area::law_horizontal_split_fills(area::lower_part(content, 1), 1);
}

/// The panel of the processors without its cores shows in each quarter the load that its label
/// names, and changes nothing outside its area.
#[verifier::spinoff_prover]
#[verifier::rlimit(40)]
pub proof fn law_loads_are_shown(
    before: Grid,
    bounds: Rect,
    area: Rect,
    title: Seq<char>,
    snapshot: Snapshot,
    readouts: Readouts,
    color: Color,
)
    requires
        area.lies_on(bounds),
        canvas::is_plain(title),
        words::are_plain(readouts),
    ensures
        ({
            let after = screen::compact_processor_drawn(
                before,
                bounds,
                area,
                title,
                snapshot,
                readouts,
                color,
            );
            &&& shows_loads(before, after, area, title, snapshot, readouts, color)
            &&& canvas::same_outside(before, after, area)
        }),
{
    let content = area::framed(area);
    let top = area::upper_part(content, 1);
    let bottom = area::lower_part(content, 1);
    let a = area::left_part(top, 1);
    let b = area::right_part(top, 1);
    let c = area::left_part(bottom, 1);
    let d = area::right_part(bottom, 1);
    let e_words = "E-CPU Usage: "@ + screen::load_text(
        snapshot.e_cluster_active,
        snapshot.e_cluster_freq_mhz,
    );
    let p_words = "P-CPU Usage: "@ + screen::load_text(
        snapshot.p_cluster_active,
        snapshot.p_cluster_freq_mhz,
    );
    let gpu_words = "GPU Usage: "@ + screen::load_text(
        snapshot.gpu.active_percent,
        snapshot.gpu.freq_mhz,
    );
    let ane_words = "ANE Usage: "@ + screen::ane_text(readouts);
    reveal_strlit("E-CPU Usage: ");
    reveal_strlit("P-CPU Usage: ");
    reveal_strlit("GPU Usage: ");
    reveal_strlit("ANE Usage: ");
    words::lemma_load_plain("E-CPU Usage: "@, snapshot.e_cluster_active, snapshot.e_cluster_freq_mhz);
    words::lemma_load_plain("P-CPU Usage: "@, snapshot.p_cluster_active, snapshot.p_cluster_freq_mhz);
    words::lemma_load_plain("GPU Usage: "@, snapshot.gpu.active_percent, snapshot.gpu.freq_mhz);
    words::lemma_ane_plain("ANE Usage: "@, readouts);
    lemma_quarters(area);
    let framed = screen::panel_drawn(before, bounds, area, title, color);
    let first = meter::meter_drawn(framed, bounds, a, snapshot.e_cluster_active, e_words, color);
    let second = meter::meter_drawn(first, bounds, b, snapshot.p_cluster_active, p_words, color);
    let third = meter::meter_drawn(
        second,
        bounds,
        c,
        snapshot.gpu.active_percent,
        gpu_words,
        color,
    );
    let after = meter::meter_drawn(third, bounds, d, readouts.ane_percent, ane_words, color);
    law_frame_shows(
        before,
        bounds,
        area,
        title,
        meter::outlined_paint(color),
        meter::label_paint(color),
    );
    meter::law_meter_shows(framed, bounds, a, snapshot.e_cluster_active, e_words, color);
    meter::law_meter_shows(first, bounds, b, snapshot.p_cluster_active, p_words, color);
    meter::law_meter_shows(second, bounds, c, snapshot.gpu.active_percent, gpu_words, color);
    meter::law_meter_shows(third, bounds, d, readouts.ane_percent, ane_words, color);
    canvas::lemma_changed_inside(before, framed, first, a, area);
    canvas::lemma_changed_inside(before, first, second, b, area);
    canvas::lemma_changed_inside(before, second, third, c, area);
    canvas::lemma_changed_inside(before, third, after, d, area);
    lemma_four_steps(before, framed, first, second, third, after, a, b, c, d);
    lemma_meter_carries(before, framed, first, after, a, snapshot.e_cluster_active, color);
    lemma_label_carries(before, framed, first, after, a, e_words, color);
    lemma_meter_carries(before, first, second, after, b, snapshot.p_cluster_active, color);
    lemma_label_carries(before, first, second, after, b, p_words, color);
    lemma_meter_carries(before, second, third, after, c, snapshot.gpu.active_percent, color);
    lemma_label_carries(before, second, third, after, c, gpu_words, color);
    lemma_meter_carries(before, third, after, after, d, readouts.ane_percent, color);
    lemma_label_carries(before, third, after, after, d, ane_words, color);
    if area.height > 0 {
        let line = Rect { height: 1, ..area };
        assert(carries(before, before, framed, after, line)) by {
            lemma_line_kept(before, framed, first, second, third, after, a, b, c, d, line);
        }
        lemma_title_carries(before, before, framed, after, area, title, Some(color));
    }
}

/// Four changes on areas that have no cell in common: what was done on one of them stays, and was
/// done on what was there before.
proof fn lemma_four_steps(
    before: Grid,
    framed: Grid,
    first: Grid,
    second: Grid,
    third: Grid,
    after: Grid,
    a: Rect,
    b: Rect,
    c: Rect,
    d: Rect,
)
    requires
        before.dom() == framed.dom(),
        forall|x: int, y: int|
            before.dom().contains((x, y)) ==> (#[trigger] framed[(x, y)]).bg == before[(x, y)].bg,
        canvas::same_outside(framed, first, a),
        canvas::same_outside(first, second, b),
        canvas::same_outside(second, third, c),
        canvas::same_outside(third, after, d),
        forall|x: int, y: int| #[trigger]
            a.covers(x, y) ==> !b.covers(x, y) && !c.covers(x, y) && !d.covers(x, y),
        forall|x: int, y: int| #[trigger] b.covers(x, y) ==> !c.covers(x, y) && !d.covers(x, y),
        forall|x: int, y: int| #[trigger] c.covers(x, y) ==> !d.covers(x, y),
    ensures
        carries(before, framed, first, after, a),
        carries(before, first, second, after, b),
        carries(before, second, third, after, c),
        carries(before, third, after, after, d),
{
}

/// Four changes beside a line leave it as it was.
proof fn lemma_line_kept(
    before: Grid,
    framed: Grid,
    first: Grid,
    second: Grid,
    third: Grid,
    after: Grid,
    a: Rect,
    b: Rect,
    c: Rect,
    d: Rect,
    line: Rect,
)
    requires
        before.dom() == framed.dom(),
        canvas::same_outside(framed, first, a),
        canvas::same_outside(first, second, b),
        canvas::same_outside(second, third, c),
        canvas::same_outside(third, after, d),
        forall|x: int, y: int| #[trigger]
            line.covers(x, y) ==> !a.covers(x, y) && !b.covers(x, y) && !c.covers(x, y)
                && !d.covers(x, y),
    ensures
        carries(before, before, framed, after, line),
{
}

/// Whether `area` shows the share of memory in use below the memory figures in words.
pub open spec fn shows_memory(
    before: Grid,
    after: Grid,
    area: Rect,
    memory: MemorySnapshot,
    readouts: Readouts,
    color: Color,
) -> bool {
    &&& shows_title(before, after, area, "Memory"@, Some(color))
    &&& meter::shows_meter(before, after, area::framed(area), memory.used_percent, color)
    &&& meter::shows_label(
        before,
        after,
        area::framed(area),
        screen::memory_text(memory, readouts),
        color,
    )
}

/// The panel of the memory shows the share of memory in use: none of its columns where nothing is
/// in use, all of them where all of it is, and else the share of the columns that goes with it. It
/// changes nothing outside its area.
pub proof fn law_memory_is_shown(
    before: Grid,
    bounds: Rect,
    area: Rect,
    memory: MemorySnapshot,
    readouts: Readouts,
    color: Color,
)
    requires
        area.lies_on(bounds),
        words::are_plain(readouts),
    ensures
        ({
            let after = screen::memory_panel_drawn(before, bounds, area, memory, readouts, color);
            &&& shows_memory(before, after, area, memory, readouts, color)
            &&& canvas::same_outside(before, after, area)
        }),
{
    let content = area::framed(area);
    let words = screen::memory_text(memory, readouts);
    let percent = area::shorter(memory.used_percent, 100);
    let framed = screen::panel_drawn(before, bounds, area, "Memory"@, color);
    let after = screen::memory_panel_drawn(before, bounds, area, memory, readouts, color);
    reveal_strlit("Memory");
    words::lemma_memory_plain(memory, readouts);
    law_frame_shows(
        before,
        bounds,
        area,
        "Memory"@,
        meter::outlined_paint(color),
        meter::label_paint(color),
    );
    meter::law_meter_shows(framed, bounds, content, percent, words, color);
    canvas::lemma_changed_inside(before, framed, after, content, area);
    lemma_meter_carries(before, framed, after, after, content, percent, color);
    lemma_label_carries(before, framed, after, after, content, words, color);
    let filled = choose|filled: int| #[trigger]
        meter::is_share(filled, content.width as int, percent as int) && meter::shows_columns(
            before,
            after,
            content,
            filled,
            color,
        );
    if percent == 100 {
        assert(filled == content.width);
    }
    assert(meter::is_share(filled, content.width as int, memory.used_percent as int));
    if area.height > 0 {
        lemma_title_carries(before, before, framed, after, area, "Memory"@, Some(color));
    }
}

/// The meter of the memory goes by what is in use of what there is: it is empty where nothing is in
/// use and full where everything is, and a column that is solid stays solid when more is in use.
pub proof fn law_memory_meter_follows_use(
    before: Grid,
    bounds: Rect,
    area: Rect,
    low: MemorySnapshot,
    high: MemorySnapshot,
    readouts: Readouts,
    color: Color,
    x: int,
    y: int,
)
    requires
        area.lies_on(bounds),
        words::are_plain(readouts),
        low.used_percent == memory::percent_in_use(low.used, low.total),
        high.used_percent == memory::percent_in_use(high.used, high.total),
        low.total == high.total,
        low.used <= high.used,
        meter::below_label(area::framed(area), x, y),
        before.dom().contains((x, y)),
    ensures
        ({
            let less = screen::memory_panel_drawn(before, bounds, area, low, readouts, color);
            let more = screen::memory_panel_drawn(before, bounds, area, high, readouts, color);
            &&& low.used == 0 ==> less[(x, y)].symbol == "▏"@
            &&& high.total > 0 && high.used >= high.total && (x - area.x - 1) % 2 == 0
                ==> meter::is_solid(more[(x, y)], color)
            &&& less[(x, y)].symbol == " "@ ==> meter::is_solid(more[(x, y)], color)
        }),
{
    let content = area::framed(area);
    reveal_strlit(" ");
    reveal_strlit("▏");
    assert("▏"@[0] != " "@[0]);
    memory::law_memory_share(low.total, low.used, high.used);
    meter::law_meter_fill(content.width, low.used_percent, high.used_percent);
    words::lemma_memory_plain(low, readouts);
    words::lemma_memory_plain(high, readouts);
    reveal_strlit("Memory");
}

/// Whether `area` shows the histories of power: that of the processor on the left, that of the
/// graphics on the right, each below a label that names it.
pub open spec fn shows_power(
    before: Grid,
    after: Grid,
    area: Rect,
    thermal_pressure: Seq<char>,
    readouts: Readouts,
    cpu_history: Seq<u64>,
    gpu_history: Seq<u64>,
    color: Color,
) -> bool {
    let left = area::left_part(area::framed(area), 1);
    let right = area::right_part(area::framed(area), 1);
    &&& shows_title(
        before,
        after,
        area,
        screen::power_title(readouts, thermal_pressure),
        Some(color),
    )
    &&& meter::shows_history(before, after, left, cpu_history, color)
    &&& meter::shows_label(
        before,
        after,
        left,
        "CPU: "@ + screen::power_text(readouts.cpu),
        color,
    )
    &&& meter::shows_history(before, after, right, gpu_history, color)
    &&& meter::shows_label(
        before,
        after,
        right,
        "GPU: "@ + screen::power_text(readouts.gpu),
        color,
    )
}

/// The halves of the panel of the power lie inside it, below its upper line, and have no cell in
/// common.
pub proof fn lemma_halves(area: Rect)
    requires
        area.x + area.width <= u16::MAX,
        area.y + area.height <= u16::MAX,
    ensures
        ({
            let content = area::framed(area);
            let left = area::left_part(content, 1);
            let right = area::right_part(content, 1);
            &&& left.inside(content) && right.inside(content)
            &&& content.inside(area)
            &&& forall|x: int, y: int| #[trigger] content.covers(x, y) ==> y > area.y
            &&& forall|x: int, y: int| #[trigger] left.covers(x, y) ==> !right.covers(x, y)
            &&& left.is_empty() || left.y < u16::MAX
            &&& right.is_empty() || right.y < u16::MAX
        }),
{
    area::law_horizontal_split_fills(area::framed(area), 1);
}

/// The panel of the power shows on the left the history of the processor below a label for it, and
/// on the right that of the graphics. It changes nothing outside its area.
pub proof fn law_power_is_shown(
    before: Grid,
    bounds: Rect,
    area: Rect,
    thermal_pressure: Seq<char>,
    readouts: Readouts,
    cpu_history: Seq<u64>,
    gpu_history: Seq<u64>,
    color: Color,
)
    requires
        area.lies_on(bounds),
        words::are_plain(readouts),
    ensures
        ({
            let after = screen::power_panel_drawn(
                before,
                bounds,
                area,
                thermal_pressure,
                readouts,
                cpu_history,
                gpu_history,
                color,
            );
            &&& shows_power(
                before,
                after,
                area,
                thermal_pressure,
                readouts,
                cpu_history,
                gpu_history,
                color,
            )
            &&& canvas::same_outside(before, after, area)
        }),
{
    let content = area::framed(area);
    let left = area::left_part(content, 1);
    let right = area::right_part(content, 1);
    let title = screen::power_title(readouts, thermal_pressure);
    let cpu_words = "CPU: "@ + screen::power_text(readouts.cpu);
    let gpu_words = "GPU: "@ + screen::power_text(readouts.gpu);
    reveal_strlit("CPU: ");
    reveal_strlit("GPU: ");
    words::lemma_power_plain("CPU: "@, readouts.cpu);
    words::lemma_power_plain("GPU: "@, readouts.gpu);
    words::lemma_title_plain(readouts, thermal_pressure);
    lemma_halves(area);
    let framed = screen::panel_drawn(before, bounds, area, title, color);
    let first = meter::history_drawn(framed, bounds, left, cpu_words, cpu_history, color);
    let after = meter::history_drawn(first, bounds, right, gpu_words, gpu_history, color);
    law_frame_shows(
        before,
        bounds,
        area,
        title,
        meter::outlined_paint(color),
        meter::label_paint(color),
    );
    meter::law_history_shows(framed, bounds, left, cpu_words, cpu_history, color);
    meter::law_history_shows(first, bounds, right, gpu_words, gpu_history, color);
    canvas::lemma_changed_inside(before, framed, first, left, area);
    canvas::lemma_changed_inside(before, first, after, right, area);
    let none = Rect { x: 0, y: 0, width: 0, height: 0 };
    lemma_four_steps(before, framed, first, after, after, after, left, right, none, none);
    lemma_history_carries(before, framed, first, after, left, cpu_history, color);
    lemma_label_carries(before, framed, first, after, left, cpu_words, color);
    lemma_history_carries(before, first, after, after, right, gpu_history, color);
    lemma_label_carries(before, first, after, after, right, gpu_words, color);
    if area.height > 0 {
        let line = Rect { height: 1, ..area };
        assert(carries(before, before, framed, after, line)) by {
            lemma_line_kept(
                before,
                framed,
                first,
                after,
                after,
                after,
                left,
                right,
                none,
                none,
                line,
            );
        }
        lemma_title_carries(before, before, framed, after, area, title, Some(color));
    }
}

/// Each history of power has a half of the panel to itself: what the left half shows does not
/// depend on the graphics, and what the right half shows does not depend on the processor.
pub proof fn law_histories_are_apart(
    before: Grid,
    bounds: Rect,
    area: Rect,
    thermal_pressure: Seq<char>,
    readouts: Readouts,
    cpu_history: Seq<u64>,
    gpu_history: Seq<u64>,
    other: Seq<u64>,
    color: Color,
    x: int,
    y: int,
)
    requires
        area.lies_on(bounds),
        words::are_plain(readouts),
        before.dom().contains((x, y)),
    ensures
        ({
            let shown = screen::power_panel_drawn(
                before,
                bounds,
                area,
                thermal_pressure,
                readouts,
                cpu_history,
                gpu_history,
                color,
            );
            let other_gpu = screen::power_panel_drawn(
                before,
                bounds,
                area,
                thermal_pressure,
                readouts,
                cpu_history,
                other,
                color,
            );
            let other_cpu = screen::power_panel_drawn(
                before,
                bounds,
                area,
                thermal_pressure,
                readouts,
                other,
                gpu_history,
                color,
            );
            &&& area::left_part(area::framed(area), 1).covers(x, y) ==> other_gpu[(x, y)]
                == shown[(x, y)]
            &&& area::right_part(area::framed(area), 1).covers(x, y) ==> other_cpu[(x, y)]
                == shown[(x, y)]
        }),
{
    reveal_strlit("CPU: ");
    reveal_strlit("GPU: ");
    words::lemma_power_plain("CPU: "@, readouts.cpu);
    words::lemma_power_plain("GPU: "@, readouts.gpu);
    words::lemma_title_plain(readouts, thermal_pressure);
    lemma_halves(area);
}

/// Whether row `i` shows core `i`: its number, counted from one, its load and its frequency, on
/// the cells that no other row covers.
pub open spec fn shows_core(
    before: Grid,
    after: Grid,
    rows: Seq<Rect>,
    cores: Seq<CoreMetric>,
    color: Color,
    e_cluster: bool,
    i: int,
) -> bool {
    shows_framed(
        clear_of(before, rows.remove(i)),
        after,
        rows[i],
        ""@,
        cores[i].active_percent,
        screen::core_text(cores[i], e_cluster, cores.len()),
        color,
    )
}

/// Whether each row shows the core that goes with it.
pub open spec fn shows_cores(
    before: Grid,
    after: Grid,
    rows: Seq<Rect>,
    cores: Seq<CoreMetric>,
    color: Color,
    e_cluster: bool,
) -> bool {
    forall|i: int|
        0 <= i < cores.len() ==> #[trigger] shows_core(
            before,
            after,
            rows,
            cores,
            color,
            e_cluster,
            i,
        )
}

/// Whether two grids have the same places and differ only where one of the areas is.
pub open spec fn same_beside(before: Grid, after: Grid, areas: Seq<Rect>) -> bool {
    &&& before.dom() == after.dom()
    &&& forall|x: int, y: int|
        before.dom().contains((x, y)) && !covered(areas, x, y) ==> #[trigger] after[(x, y)]
            == before[(x, y)]
}

/// The first `n` meters of a core grid show the first `n` cores.
proof fn lemma_cores_shown(
    before: Grid,
    bounds: Rect,
    rows: Seq<Rect>,
    cores: Seq<CoreMetric>,
    color: Color,
    e_cluster: bool,
    n: nat,
)
    requires
        rows.len() == cores.len(),
        n <= cores.len(),
        forall|i: int| 0 <= i < rows.len() ==> (#[trigger] rows[i]).inside(bounds),
        is_screen(bounds),
    ensures
        ({
            let after = screen::core_grid_drawn(before, bounds, rows, cores, color, e_cluster, n);
            &&& same_beside(before, after, rows.take(n as int))
            &&& forall|i: int|
                #![trigger rows[i]]
                0 <= i < n ==> shows_framed(
                    clear_of(before, rows.take(n as int).remove(i)),
                    after,
                    rows[i],
                    ""@,
                    cores[i].active_percent,
                    screen::core_text(cores[i], e_cluster, cores.len()),
                    color,
                )
        }),
    decreases n,
{
    let after = screen::core_grid_drawn(before, bounds, rows, cores, color, e_cluster, n);
    if n > 0 {
        let last = n - 1;
        let between = screen::core_grid_drawn(
            before,
            bounds,
            rows,
            cores,
            color,
            e_cluster,
            last as nat,
        );
        let words = screen::core_text(cores[last], e_cluster, cores.len());
        reveal_strlit("");
        lemma_cores_shown(before, bounds, rows, cores, color, e_cluster, last as nat);
        screen::law_load_labels_are_plain(cores[last], e_cluster, cores.len());
        law_framed_meter_shows(
            between,
            bounds,
            rows[last],
            ""@,
            cores[last].active_percent,
            words,
            color,
        );
        let head = rows.take(last);
        let all = rows.take(n as int);
        assert forall|x: int, y: int| covered(head, x, y) implies covered(all, x, y) by {
            let i = choose|i: int| 0 <= i < head.len() && (#[trigger] head[i]).covers(x, y);
            assert(all[i] == head[i]);
        }
        assert(all[last] == rows[last]);
        assert forall|i: int|
            #![trigger rows[i]]
            0 <= i < n implies shows_framed(
            clear_of(before, all.remove(i)),
            after,
            rows[i],
            ""@,
            cores[i].active_percent,
            screen::core_text(cores[i], e_cluster, cores.len()),
            color,
        ) by {
            let base = clear_of(before, all.remove(i));
            if i == last {
                assert(all.remove(last) =~= head);
                lemma_framed_carries(
                    base,
                    between,
                    after,
                    after,
                    rows[i],
                    ""@,
                    cores[i].active_percent,
                    words,
                    color,
                );
            } else {
                let older = clear_of(before, head.remove(i));
                assert(all.remove(i)[last - 1] == rows[last]);
                assert forall|x: int, y: int| covered(head.remove(i), x, y) implies covered(
                    all.remove(i),
                    x,
                    y,
                ) by {
                    let k = choose|k: int|
                        0 <= k < head.remove(i).len() && (#[trigger] head.remove(i)[k]).covers(x, y);
                    assert(all.remove(i)[k] == head.remove(i)[k]);
                }
                assert(shows_framed(
                    older,
                    between,
                    rows[i],
                    ""@,
                    cores[i].active_percent,
                    screen::core_text(cores[i], e_cluster, cores.len()),
                    color,
                ));
                assert forall|x: int, y: int|
                    base.dom().contains((x, y)) implies !rows[last].covers(x, y) by {
                    if rows[last].covers(x, y) {
                        assert(all.remove(i)[last - 1].covers(x, y));
                    }
                }
                assert(carries(base, older, between, after, rows[i]));
                lemma_framed_carries(
                    base,
                    older,
                    between,
                    after,
                    rows[i],
                    ""@,
                    cores[i].active_percent,
                    screen::core_text(cores[i], e_cluster, cores.len()),
                    color,
                );
            }
        }
    }
}

/// A core grid shows each core on its row, and changes nothing beside its rows.
pub proof fn law_cores_are_shown(
    before: Grid,
    bounds: Rect,
    rows: Seq<Rect>,
    cores: Seq<CoreMetric>,
    color: Color,
    e_cluster: bool,
)
    requires
        rows.len() == cores.len(),
        forall|i: int| 0 <= i < rows.len() ==> (#[trigger] rows[i]).inside(bounds),
        is_screen(bounds),
    ensures
        ({
            let after = screen::core_grid_drawn(
                before,
                bounds,
                rows,
                cores,
                color,
                e_cluster,
                cores.len(),
            );
            &&& shows_cores(before, after, rows, cores, color, e_cluster)
            &&& same_beside(before, after, rows)
        }),
{
    lemma_cores_shown(before, bounds, rows, cores, color, e_cluster, cores.len());
    assert(rows.take(rows.len() as int) =~= rows);
    let after = screen::core_grid_drawn(
        before,
        bounds,
        rows,
        cores,
        color,
        e_cluster,
        cores.len(),
    );
    assert forall|i: int| 0 <= i < cores.len() implies #[trigger] shows_core(
        before,
        after,
        rows,
        cores,
        color,
        e_cluster,
        i,
    ) by {
        assert(rows[i].inside(bounds));
    }
}

/// What is shown of the cores carries over where it does on each row.
pub proof fn lemma_cores_carry(
    base: Grid,
    before: Grid,
    between: Grid,
    after: Grid,
    rows: Seq<Rect>,
    cores: Seq<CoreMetric>,
    color: Color,
    e_cluster: bool,
)
    requires
        rows.len() == cores.len(),
        shows_cores(before, between, rows, cores, color, e_cluster),
        forall|x: int, y: int|
            #![trigger after[(x, y)]]
            #![trigger base.dom().contains((x, y))]
            base.dom().contains((x, y)) && covered(rows, x, y) ==> {
                &&& before.dom().contains((x, y))
                &&& before[(x, y)].bg == base[(x, y)].bg
                &&& after[(x, y)] == between[(x, y)]
            },
    ensures
        shows_cores(base, after, rows, cores, color, e_cluster),
{
    assert forall|i: int| 0 <= i < cores.len() implies #[trigger] shows_core(
        base,
        after,
        rows,
        cores,
        color,
        e_cluster,
        i,
    ) by {
        let own = clear_of(base, rows.remove(i));
        let older = clear_of(before, rows.remove(i));
        assert(shows_core(before, between, rows, cores, color, e_cluster, i));
        assert(carries(own, older, between, after, rows[i])) by {
            assert forall|x: int, y: int|
                own.dom().contains((x, y)) && rows[i].covers(x, y) implies {
                &&& older.dom().contains((x, y))
                &&& older[(x, y)].bg == own[(x, y)].bg
                &&& #[trigger] after[(x, y)] == between[(x, y)]
            } by {
                assert(covered(rows, x, y));
                assert(base.dom().contains((x, y)));
            }
        }
        lemma_framed_carries(
            own,
            older,
            between,
            after,
            rows[i],
            ""@,
            cores[i].active_percent,
            screen::core_text(cores[i], e_cluster, cores.len()),
            color,
        );
    }
}

/// Whether the panel of the cores shows each core on its row, the efficiency cores and the
/// performance cores on rows of their own.
pub open spec fn shows_cores_panel(
    before: Grid,
    after: Grid,
    area: Rect,
    layout: CoresLayout,
    snapshot: Snapshot,
    color: Color,
) -> bool {
    &&& shows_title(before, after, area, "Cores"@, None)
    &&& shows_cores(
        clear_of(before, layout.p_rows@),
        after,
        layout.e_rows@,
        snapshot.e_cores@,
        color,
        true,
    )
    &&& shows_cores(
        clear_of(before, layout.e_rows@),
        after,
        layout.p_rows@,
        snapshot.p_cores@,
        color,
        false,
    )
}

/// A cell outside an area is covered by no part of it.
pub proof fn lemma_not_covered(parts: Seq<Rect>, area: Rect, x: int, y: int)
    requires
        forall|i: int| 0 <= i < parts.len() ==> (#[trigger] parts[i]).inside(area),
        !area.covers(x, y),
    ensures
        !covered(parts, x, y),
{
}

/// The panel of the cores shows the cores, and changes nothing outside its area.
pub proof fn law_cores_panel_shows(
    before: Grid,
    bounds: Rect,
    area: Rect,
    layout: CoresLayout,
    snapshot: Snapshot,
    color: Color,
)
    requires
        area.lies_on(bounds),
        is_screen(bounds),
        layout.fits(area::framed(area), snapshot.e_cores@.len(), snapshot.p_cores@.len()),
    ensures
        ({
            let after = screen::cores_panel_drawn(before, bounds, area, layout, snapshot, color);
            &&& shows_cores_panel(before, after, area, layout, snapshot, color)
            &&& canvas::same_outside(before, after, area)
        }),
{
    let content = area::framed(area);
    let e_rows = layout.e_rows@;
    let p_rows = layout.p_rows@;
    let framed = screen::frame_drawn(before, bounds, area, "Cores"@);
    let left = screen::core_grid_drawn(
        framed,
        bounds,
        e_rows,
        snapshot.e_cores@,
        color,
        true,
        snapshot.e_cores@.len(),
    );
    let after = screen::cores_panel_drawn(before, bounds, area, layout, snapshot, color);
    reveal_strlit("Cores");
    assert(content.inside(bounds));
    assert forall|i: int| 0 <= i < e_rows.len() implies (#[trigger] e_rows[i]).inside(bounds) by {
        assert(e_rows[i].inside(content));
    }
    assert forall|i: int| 0 <= i < p_rows.len() implies (#[trigger] p_rows[i]).inside(bounds) by {
        assert(p_rows[i].inside(content));
    }
    law_frame_shows(before, bounds, area, "Cores"@, meter::unpainted(), meter::unpainted());
    law_cores_are_shown(framed, bounds, e_rows, snapshot.e_cores@, color, true);
    law_cores_are_shown(left, bounds, p_rows, snapshot.p_cores@, color, false);
    assert forall|x: int, y: int| !content.covers(x, y) implies !#[trigger] covered(e_rows, x, y)
        && !covered(p_rows, x, y) by {
        lemma_not_covered(e_rows, content, x, y);
        lemma_not_covered(p_rows, content, x, y);
    }
    assert forall|x: int, y: int| before.dom().contains((x, y)) && !content.covers(x, y) implies
        #[trigger] after[(x, y)] == framed[(x, y)] by {
        assert(!covered(e_rows, x, y));
        assert(left[(x, y)] == framed[(x, y)]);
    }
    assert(canvas::same_outside(before, after, area)) by {
        assert forall|x: int, y: int|
            before.dom().contains((x, y)) && !area.covers(x, y) implies #[trigger] after[(x, y)]
            == before[(x, y)] by {
            assert(!content.covers(x, y));
            assert(framed[(x, y)] == before[(x, y)]);
        }
    }
    lemma_cores_carry(
        clear_of(before, p_rows),
        framed,
        left,
        after,
        e_rows,
        snapshot.e_cores@,
        color,
        true,
    );
    lemma_cores_carry(
        clear_of(before, e_rows),
        left,
        after,
        after,
        p_rows,
        snapshot.p_cores@,
        color,
        false,
    );
    if area.height > 0 {
        lemma_title_carries(before, before, framed, after, area, "Cores"@, None);
    }
}

/// Whether the panel of the processors shows the loads and the cores on its parts, each part on
/// the cells that no other one covers.
pub open spec fn shows_processor(
    before: Grid,
    after: Grid,
    area: Rect,
    title: Seq<char>,
    layout: ProcessorLayout,
    snapshot: Snapshot,
    readouts: Readouts,
    color: Color,
) -> bool {
    let e_part = layout.rows@[0];
    let p_part = layout.rows@[2];
    let gpu_part = layout.bottom@[0];
    let ane_part = layout.bottom@[1];
    let apart = clear_of(clear_of(before, layout.e_rows@), layout.p_rows@);
    &&& shows_title(before, after, area, title, Some(color))
    &&& shows_framed(
        clear_of(apart, seq![p_part, gpu_part, ane_part]),
        after,
        e_part,
        "E-CPU Usage"@,
        snapshot.e_cluster_active,
        screen::load_text(snapshot.e_cluster_active, snapshot.e_cluster_freq_mhz),
        color,
    )
    &&& shows_framed(
        clear_of(apart, seq![e_part, gpu_part, ane_part]),
        after,
        p_part,
        "P-CPU Usage"@,
        snapshot.p_cluster_active,
        screen::load_text(snapshot.p_cluster_active, snapshot.p_cluster_freq_mhz),
        color,
    )
    &&& shows_framed(
        clear_of(apart, seq![e_part, p_part, ane_part]),
        after,
        gpu_part,
        "GPU Usage"@,
        snapshot.gpu.active_percent,
        screen::load_text(snapshot.gpu.active_percent, snapshot.gpu.freq_mhz),
        color,
    )
    &&& shows_framed(
        clear_of(apart, seq![e_part, p_part, gpu_part]),
        after,
        ane_part,
        "ANE"@,
        readouts.ane_percent,
        screen::ane_text(readouts),
        color,
    )
    &&& shows_cores(
        clear_of(clear_of(before, layout.p_rows@), seq![e_part, p_part, gpu_part, ane_part]),
        after,
        layout.e_rows@,
        snapshot.e_cores@,
        color,
        true,
    )
    &&& shows_cores(
        clear_of(clear_of(before, layout.e_rows@), seq![e_part, p_part, gpu_part, ane_part]),
        after,
        layout.p_rows@,
        snapshot.p_cores@,
        color,
        false,
    )
}

/// Which of three or four areas cover a cell.
pub proof fn lemma_covered_by_few(a: Rect, b: Rect, c: Rect, d: Rect, x: int, y: int)
    ensures
        covered(seq![a, b, c], x, y) == (a.covers(x, y) || b.covers(x, y) || c.covers(x, y)),
        covered(seq![a, b, c, d], x, y) == (a.covers(x, y) || b.covers(x, y) || c.covers(x, y)
            || d.covers(x, y)),
{
    let three = seq![a, b, c];
    let four = seq![a, b, c, d];
    assert(three[0] == a && three[1] == b && three[2] == c);
    assert(four[0] == a && four[1] == b && four[2] == c && four[3] == d);
}

/// The panel of the processors with its cores shows each load and each core on its part, and
/// changes nothing outside its area.
#[verifier::spinoff_prover]
#[verifier::rlimit(40)]
pub proof fn law_processor_is_shown(
    before: Grid,
    bounds: Rect,
    area: Rect,
    title: Seq<char>,
    layout: ProcessorLayout,
    snapshot: Snapshot,
    readouts: Readouts,
    color: Color,
)
    requires
        area.lies_on(bounds),
        is_screen(bounds),
        canvas::is_plain(title),
        words::are_plain(readouts),
        layout.fits(area::framed(area), snapshot.e_cores@.len(), snapshot.p_cores@.len()),
    ensures
        ({
            let after = screen::detailed_processor_drawn(
                before,
                bounds,
                area,
                title,
                layout,
                snapshot,
                readouts,
                color,
            );
            &&& shows_processor(before, after, area, title, layout, snapshot, readouts, color)
            &&& canvas::same_outside(before, after, area)
        }),
{
    let content = area::framed(area);
    let e_rows = layout.e_rows@;
    let p_rows = layout.p_rows@;
    let e_part = layout.rows@[0];
    let p_part = layout.rows@[2];
    let gpu_part = layout.bottom@[0];
    let ane_part = layout.bottom@[1];
    let e_words = screen::load_text(snapshot.e_cluster_active, snapshot.e_cluster_freq_mhz);
    let p_words = screen::load_text(snapshot.p_cluster_active, snapshot.p_cluster_freq_mhz);
    let gpu_words = screen::load_text(snapshot.gpu.active_percent, snapshot.gpu.freq_mhz);
    let ane_words = screen::ane_text(readouts);
    reveal_strlit("E-CPU Usage");
    reveal_strlit("P-CPU Usage");
    reveal_strlit("GPU Usage");
    reveal_strlit("ANE");
    words::lemma_load_plain("ANE"@, snapshot.e_cluster_active, snapshot.e_cluster_freq_mhz);
    words::lemma_load_plain("ANE"@, snapshot.p_cluster_active, snapshot.p_cluster_freq_mhz);
    words::lemma_load_plain("ANE"@, snapshot.gpu.active_percent, snapshot.gpu.freq_mhz);
    words::lemma_ane_plain("ANE"@, readouts);
    let framed = screen::panel_drawn(before, bounds, area, title, color);
    let first = screen::framed_meter_drawn(
        framed,
        bounds,
        e_part,
        "E-CPU Usage"@,
        snapshot.e_cluster_active,
        e_words,
        color,
    );
    let second = screen::core_grid_drawn(
        first,
        bounds,
        e_rows,
        snapshot.e_cores@,
        color,
        true,
        snapshot.e_cores@.len(),
    );
    let third = screen::framed_meter_drawn(
        second,
        bounds,
        p_part,
        "P-CPU Usage"@,
        snapshot.p_cluster_active,
        p_words,
        color,
    );
    let fourth = screen::core_grid_drawn(
        third,
        bounds,
        p_rows,
        snapshot.p_cores@,
        color,
        false,
        snapshot.p_cores@.len(),
    );
    let fifth = screen::framed_meter_drawn(
        fourth,
        bounds,
        gpu_part,
        "GPU Usage"@,
        snapshot.gpu.active_percent,
        gpu_words,
        color,
    );
    let after = screen::framed_meter_drawn(
        fifth,
        bounds,
        ane_part,
        "ANE"@,
        readouts.ane_percent,
        ane_words,
        color,
    );
    assert(content.inside(bounds));
    assert(e_part.inside(content) && p_part.inside(content) && gpu_part.inside(content)
        && ane_part.inside(content));
    assert forall|i: int| 0 <= i < e_rows.len() implies (#[trigger] e_rows[i]).inside(bounds) by {
        assert(e_rows[i].inside(content));
    }
    assert forall|i: int| 0 <= i < p_rows.len() implies (#[trigger] p_rows[i]).inside(bounds) by {
        assert(p_rows[i].inside(content));
    }
    law_frame_shows(
        before,
        bounds,
        area,
        title,
        meter::outlined_paint(color),
        meter::label_paint(color),
    );
    law_framed_meter_shows(
        framed,
        bounds,
        e_part,
        "E-CPU Usage"@,
        snapshot.e_cluster_active,
        e_words,
        color,
    );
    law_cores_are_shown(first, bounds, e_rows, snapshot.e_cores@, color, true);
    law_framed_meter_shows(
        second,
        bounds,
        p_part,
        "P-CPU Usage"@,
        snapshot.p_cluster_active,
        p_words,
        color,
    );
    law_cores_are_shown(third, bounds, p_rows, snapshot.p_cores@, color, false);
    law_framed_meter_shows(
        fourth,
        bounds,
        gpu_part,
        "GPU Usage"@,
        snapshot.gpu.active_percent,
        gpu_words,
        color,
    );
    law_framed_meter_shows(
        fifth,
        bounds,
        ane_part,
        "ANE"@,
        readouts.ane_percent,
        ane_words,
        color,
    );
    lemma_six_steps(
        before,
        framed,
        first,
        second,
        third,
        fourth,
        fifth,
        after,
        e_part,
        e_rows,
        p_part,
        p_rows,
        gpu_part,
        ane_part,
    );
    let apart = clear_of(clear_of(before, e_rows), p_rows);
    lemma_framed_carries(
        clear_of(apart, seq![p_part, gpu_part, ane_part]),
        framed,
        first,
        after,
        e_part,
        "E-CPU Usage"@,
        snapshot.e_cluster_active,
        e_words,
        color,
    );
    lemma_framed_carries(
        clear_of(apart, seq![e_part, gpu_part, ane_part]),
        second,
        third,
        after,
        p_part,
        "P-CPU Usage"@,
        snapshot.p_cluster_active,
        p_words,
        color,
    );
    lemma_framed_carries(
        clear_of(apart, seq![e_part, p_part, ane_part]),
        fourth,
        fifth,
        after,
        gpu_part,
        "GPU Usage"@,
        snapshot.gpu.active_percent,
        gpu_words,
        color,
    );
    lemma_framed_carries(
        clear_of(apart, seq![e_part, p_part, gpu_part]),
        fifth,
        after,
        after,
        ane_part,
        "ANE"@,
        readouts.ane_percent,
        ane_words,
        color,
    );
    lemma_cores_carry(
        clear_of(clear_of(before, p_rows), seq![e_part, p_part, gpu_part, ane_part]),
        first,
        second,
        after,
        e_rows,
        snapshot.e_cores@,
        color,
        true,
    );
    lemma_cores_carry(
        clear_of(clear_of(before, e_rows), seq![e_part, p_part, gpu_part, ane_part]),
        third,
        fourth,
        after,
        p_rows,
        snapshot.p_cores@,
        color,
        false,
    );
    assert forall|x: int, y: int| before.dom().contains((x, y)) && !content.covers(x, y) implies
        #[trigger] after[(x, y)] == framed[(x, y)] by {
        lemma_not_covered(e_rows, content, x, y);
        lemma_not_covered(p_rows, content, x, y);
        assert(first[(x, y)] == framed[(x, y)]);
        assert(second[(x, y)] == first[(x, y)]);
        assert(third[(x, y)] == second[(x, y)]);
        assert(fourth[(x, y)] == third[(x, y)]);
        assert(fifth[(x, y)] == fourth[(x, y)]);
    }
    assert(canvas::same_outside(before, after, area)) by {
        assert forall|x: int, y: int|
            before.dom().contains((x, y)) && !area.covers(x, y) implies #[trigger] after[(x, y)]
            == before[(x, y)] by {
            assert(!content.covers(x, y));
            assert(framed[(x, y)] == before[(x, y)]);
        }
    }
    if area.height > 0 {
        lemma_title_carries(before, before, framed, after, area, title, Some(color));
    }
}

/// Six changes, each on a part: what was done on a part stays, and was done on what was there
/// before, on the cells that no other part covers.
proof fn lemma_six_steps(
    before: Grid,
    framed: Grid,
    first: Grid,
    second: Grid,
    third: Grid,
    fourth: Grid,
    fifth: Grid,
    after: Grid,
    e_part: Rect,
    e_rows: Seq<Rect>,
    p_part: Rect,
    p_rows: Seq<Rect>,
    gpu_part: Rect,
    ane_part: Rect,
)
    requires
        before.dom() == framed.dom(),
        forall|x: int, y: int|
            before.dom().contains((x, y)) ==> (#[trigger] framed[(x, y)]).bg == before[(x, y)].bg,
        canvas::same_outside(framed, first, e_part),
        same_beside(first, second, e_rows),
        canvas::same_outside(second, third, p_part),
        same_beside(third, fourth, p_rows),
        canvas::same_outside(fourth, fifth, gpu_part),
        canvas::same_outside(fifth, after, ane_part),
    ensures
        ({
            let apart = clear_of(clear_of(before, e_rows), p_rows);
            &&& carries(
                clear_of(apart, seq![p_part, gpu_part, ane_part]),
                framed,
                first,
                after,
                e_part,
            )
            &&& carries(
                clear_of(apart, seq![e_part, gpu_part, ane_part]),
                second,
                third,
                after,
                p_part,
            )
            &&& carries(
                clear_of(apart, seq![e_part, p_part, ane_part]),
                fourth,
                fifth,
                after,
                gpu_part,
            )
            &&& carries(
                clear_of(apart, seq![e_part, p_part, gpu_part]),
                fifth,
                after,
                after,
                ane_part,
            )
        }),
        forall|x: int, y: int|
            #![trigger after[(x, y)]]
            before.dom().contains((x, y)) && !e_part.covers(x, y) && !p_part.covers(x, y)
                && !gpu_part.covers(x, y) && !ane_part.covers(x, y) ==> {
                &&& first[(x, y)].bg == before[(x, y)].bg
                &&& !covered(e_rows, x, y) ==> third[(x, y)].bg == before[(x, y)].bg && after[(
                    x,
                    y,
                )] == fourth[(x, y)]
                &&& !covered(p_rows, x, y) ==> after[(x, y)] == second[(x, y)]
            },
{
    let beside_e = seq![p_part, gpu_part, ane_part];
    assert forall|x: int, y: int| #[trigger] covered(beside_e, x, y) == (p_part.covers(x, y)
        || gpu_part.covers(x, y) || ane_part.covers(x, y)) by {
        lemma_covered_by_few(p_part, gpu_part, ane_part, ane_part, x, y);
    }
    let beside_p = seq![e_part, gpu_part, ane_part];
    assert forall|x: int, y: int| #[trigger] covered(beside_p, x, y) == (e_part.covers(x, y)
        || gpu_part.covers(x, y) || ane_part.covers(x, y)) by {
        lemma_covered_by_few(e_part, gpu_part, ane_part, ane_part, x, y);
    }
    let beside_gpu = seq![e_part, p_part, ane_part];
    assert forall|x: int, y: int| #[trigger] covered(beside_gpu, x, y) == (e_part.covers(x, y)
        || p_part.covers(x, y) || ane_part.covers(x, y)) by {
        lemma_covered_by_few(e_part, p_part, ane_part, ane_part, x, y);
    }
    let beside_ane = seq![e_part, p_part, gpu_part];
    assert forall|x: int, y: int| #[trigger] covered(beside_ane, x, y) == (e_part.covers(x, y)
        || p_part.covers(x, y) || gpu_part.covers(x, y)) by {
        lemma_covered_by_few(e_part, p_part, gpu_part, gpu_part, x, y);
    }
}

/// A panel has a border in its color on every side of its area, and leaves all inside as it was.
pub proof fn law_panel_has_a_border(
    before: Grid,
    bounds: Rect,
    area: Rect,
    title: Seq<char>,
    color: Color,
    x: int,
    y: int,
)
    requires
        canvas::is_plain(title),
        area.lies_on(bounds),
        area.covers(x, y),
        before.dom().contains((x, y)),
    ensures
        ({
            let after = screen::panel_drawn(before, bounds, area, title, color);
            if area::framed(area).covers(x, y) {
                after[(x, y)] == before[(x, y)]
            } else {
                &&& after[(x, y)].fg == Ink::Color(color)
                &&& after[(x, y)].bg == before[(x, y)].bg
                &&& x == area.x && y == area.y ==> after[(x, y)].symbol == "┌"@
                &&& y > area.y && y < area.y + area.height - 1 ==> after[(x, y)].symbol == "│"@
            }
        }),
{
    assert(canvas::overlap(area, bounds) == area);
}

} // verus!
