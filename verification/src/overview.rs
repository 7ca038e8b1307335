//! What the whole screen shows, panel by panel.

use crate::area;
use crate::area::{Axis, Rect, Share};
use crate::canvas;
use crate::canvas::{Color, Grid};
use crate::memory::MemorySnapshot;
use crate::screen;
use crate::screen::{CoresLayout, ProcessorLayout, Readouts, ScreenLayout};
use crate::snapshot::{CoreMetric, Snapshot};
use crate::state::App;
use crate::views;
use crate::words;
use vstd::prelude::*;

verus! {

/// What carries over does so beside any areas.
proof fn lemma_carries_clear(
    base: Grid,
    before: Grid,
    between: Grid,
    after: Grid,
    area: Rect,
    others: Seq<Rect>,
)
    requires
        views::carries(base, before, between, after, area),
    ensures
        views::carries(views::clear_of(base, others), views::clear_of(before, others), between, after, area),
{
    let own = views::clear_of(base, others);
    let older = views::clear_of(before, others);
    assert forall|x: int, y: int|
        #![trigger after[(x, y)]]
        own.dom().contains((x, y)) && area.covers(x, y) implies {
        &&& older.dom().contains((x, y))
        &&& older[(x, y)].bg == own[(x, y)].bg
        &&& after[(x, y)] == between[(x, y)]
    } by {
        assert(base.dom().contains((x, y)));
    }
    assert forall|x: int, y: int|
        #![trigger own.dom().contains((x, y))]
        own.dom().contains((x, y)) && area.covers(x, y) implies {
        &&& older.dom().contains((x, y))
        &&& older[(x, y)].bg == own[(x, y)].bg
        &&& after[(x, y)] == between[(x, y)]
    } by {
        assert(base.dom().contains((x, y)));
    }
}

proof fn lemma_loads_carry(
    base: Grid,
    before: Grid,
    between: Grid,
    after: Grid,
    area: Rect,
    title: Seq<char>,
    snapshot: Snapshot,
    readouts: Readouts,
    color: Color,
)
    requires
        area.x + area.width <= u16::MAX,
        area.y + area.height <= u16::MAX,
        views::shows_loads(before, between, area, title, snapshot, readouts, color),
        views::carries(base, before, between, after, area),
    ensures
        views::shows_loads(base, after, area, title, snapshot, readouts, color),
{
    let content = area::framed(area);
    let top = area::upper_part(content, 1);
    let bottom = area::lower_part(content, 1);
    let a = area::left_part(top, 1);
    let b = area::right_part(top, 1);
    let c = area::left_part(bottom, 1);
    let d = area::right_part(bottom, 1);
    views::lemma_quarters(area);
    views::lemma_carries_inside(base, before, between, after, content, area);
    views::lemma_carries_inside(base, before, between, after, a, content);
    views::lemma_carries_inside(base, before, between, after, b, content);
    views::lemma_carries_inside(base, before, between, after, c, content);
    views::lemma_carries_inside(base, before, between, after, d, content);
    views::lemma_meter_carries(base, before, between, after, a, snapshot.e_cluster_active, color);
    views::lemma_meter_carries(base, before, between, after, b, snapshot.p_cluster_active, color);
    views::lemma_meter_carries(base, before, between, after, c, snapshot.gpu.active_percent, color);
    views::lemma_meter_carries(base, before, between, after, d, readouts.ane_percent, color);
    views::lemma_label_carries(
        base,
        before,
        between,
        after,
        a,
        "E-CPU Usage: "@ + screen::load_text(
            snapshot.e_cluster_active,
            snapshot.e_cluster_freq_mhz,
        ),
        color,
    );
    views::lemma_label_carries(
        base,
        before,
        between,
        after,
        b,
        "P-CPU Usage: "@ + screen::load_text(
            snapshot.p_cluster_active,
            snapshot.p_cluster_freq_mhz,
        ),
        color,
    );
    views::lemma_label_carries(
        base,
        before,
        between,
        after,
        c,
        "GPU Usage: "@ + screen::load_text(snapshot.gpu.active_percent, snapshot.gpu.freq_mhz),
        color,
    );
    views::lemma_label_carries(
        base,
        before,
        between,
        after,
        d,
        "ANE Usage: "@ + screen::ane_text(readouts),
        color,
    );
    lemma_panel_title_carries(base, before, between, after, area, title, Some(color));
}

proof fn lemma_panel_title_carries(
    base: Grid,
    before: Grid,
    between: Grid,
    after: Grid,
    area: Rect,
    title: Seq<char>,
    color: Option<Color>,
)
    requires
        views::shows_title(before, between, area, title, color),
        views::carries(base, before, between, after, area),
    ensures
        views::shows_title(base, after, area, title, color),
{
    if area.height > 0 {
        let line = Rect { height: 1, ..area };
        views::lemma_carries_inside(base, before, between, after, line, area);
        views::lemma_title_carries(base, before, between, after, area, title, color);
    }
}

proof fn lemma_memory_carries(
    base: Grid,
    before: Grid,
    between: Grid,
    after: Grid,
    area: Rect,
    memory: MemorySnapshot,
    readouts: Readouts,
    color: Color,
)
    requires
        views::shows_memory(before, between, area, memory, readouts, color),
        views::carries(base, before, between, after, area),
    ensures
        views::shows_memory(base, after, area, memory, readouts, color),
{
    let content = area::framed(area);
    let words = screen::memory_text(memory, readouts);
    views::lemma_carries_inside(base, before, between, after, content, area);
    views::lemma_meter_carries(base, before, between, after, content, memory.used_percent, color);
    views::lemma_label_carries(base, before, between, after, content, words, color);
    lemma_panel_title_carries(base, before, between, after, area, "Memory"@, Some(color));
}

proof fn lemma_power_carries(
    base: Grid,
    before: Grid,
    between: Grid,
    after: Grid,
    area: Rect,
    thermal_pressure: Seq<char>,
    readouts: Readouts,
    cpu_history: Seq<u64>,
    gpu_history: Seq<u64>,
    color: Color,
)
    requires
        area.x + area.width <= u16::MAX,
        area.y + area.height <= u16::MAX,
        views::shows_power(
            before,
            between,
            area,
            thermal_pressure,
            readouts,
            cpu_history,
            gpu_history,
            color,
        ),
        views::carries(base, before, between, after, area),
    ensures
        views::shows_power(
            base,
            after,
            area,
            thermal_pressure,
            readouts,
            cpu_history,
            gpu_history,
            color,
        ),
{
    let content = area::framed(area);
    let left = area::left_part(content, 1);
    let right = area::right_part(content, 1);
    views::lemma_halves(area);
    views::lemma_carries_inside(base, before, between, after, content, area);
    views::lemma_carries_inside(base, before, between, after, left, content);
    views::lemma_carries_inside(base, before, between, after, right, content);
    views::lemma_history_carries(base, before, between, after, left, cpu_history, color);
    views::lemma_history_carries(base, before, between, after, right, gpu_history, color);
    views::lemma_label_carries(
        base,
        before,
        between,
        after,
        left,
        "CPU: "@ + screen::power_text(readouts.cpu),
        color,
    );
    views::lemma_label_carries(
        base,
        before,
        between,
        after,
        right,
        "GPU: "@ + screen::power_text(readouts.gpu),
        color,
    );
    lemma_panel_title_carries(
        base,
        before,
        between,
        after,
        area,
        screen::power_title(readouts, thermal_pressure),
        Some(color),
    );
}

/// What is shown of the cores carries over where their rows lie in an area where all does.
proof fn lemma_core_rows_carry(
    base: Grid,
    before: Grid,
    between: Grid,
    after: Grid,
    area: Rect,
    rows: Seq<Rect>,
    cores: Seq<CoreMetric>,
    color: Color,
    e_cluster: bool,
)
    requires
        rows.len() == cores.len(),
        forall|i: int| 0 <= i < rows.len() ==> (#[trigger] rows[i]).inside(area),
        views::shows_cores(before, between, rows, cores, color, e_cluster),
        views::carries(base, before, between, after, area),
    ensures
        views::shows_cores(base, after, rows, cores, color, e_cluster),
{
    assert forall|x: int, y: int| #[trigger] views::covered(rows, x, y) implies area.covers(x, y) by {
        if !area.covers(x, y) {
            views::lemma_not_covered(rows, area, x, y);
        }
    }
    views::lemma_cores_carry(base, before, between, after, rows, cores, color, e_cluster);
}

proof fn lemma_cores_panel_carries(
    base: Grid,
    before: Grid,
    between: Grid,
    after: Grid,
    area: Rect,
    layout: CoresLayout,
    snapshot: Snapshot,
    color: Color,
)
    requires
        layout.fits(area, snapshot.e_cores@.len(), snapshot.p_cores@.len()),
        views::shows_cores_panel(before, between, area, layout, snapshot, color),
        views::carries(base, before, between, after, area),
    ensures
        views::shows_cores_panel(base, after, area, layout, snapshot, color),
{
    let e_rows = layout.e_rows@;
    let p_rows = layout.p_rows@;
    lemma_carries_clear(base, before, between, after, area, p_rows);
    lemma_carries_clear(base, before, between, after, area, e_rows);
    lemma_core_rows_carry(
        views::clear_of(base, p_rows),
        views::clear_of(before, p_rows),
        between,
        after,
        area,
        e_rows,
        snapshot.e_cores@,
        color,
        true,
    );
    lemma_core_rows_carry(
        views::clear_of(base, e_rows),
        views::clear_of(before, e_rows),
        between,
        after,
        area,
        p_rows,
        snapshot.p_cores@,
        color,
        false,
    );
    lemma_panel_title_carries(base, before, between, after, area, "Cores"@, None);
}

/// What a part of an area shows beside other parts carries over where all of the area does.
proof fn lemma_part_carries(
    base: Grid,
    before: Grid,
    between: Grid,
    after: Grid,
    area: Rect,
    part: Rect,
    others: Seq<Rect>,
    title: Seq<char>,
    percent: u16,
    label: Seq<char>,
    color: Color,
)
    requires
        part.inside(area),
        views::shows_framed(views::clear_of(before, others), between, part, title, percent, label, color),
        views::carries(base, before, between, after, area),
    ensures
        views::shows_framed(views::clear_of(base, others), after, part, title, percent, label, color),
{
    lemma_carries_clear(base, before, between, after, area, others);
    views::lemma_carries_inside(
        views::clear_of(base, others),
        views::clear_of(before, others),
        between,
        after,
        part,
        area,
    );
    views::lemma_framed_carries(
        views::clear_of(base, others),
        views::clear_of(before, others),
        between,
        after,
        part,
        title,
        percent,
        label,
        color,
    );
}

#[verifier::spinoff_prover]
#[verifier::rlimit(40)]
proof fn lemma_processor_carries(
    base: Grid,
    before: Grid,
    between: Grid,
    after: Grid,
    area: Rect,
    title: Seq<char>,
    layout: ProcessorLayout,
    snapshot: Snapshot,
    readouts: Readouts,
    color: Color,
)
    requires
        layout.fits(area, snapshot.e_cores@.len(), snapshot.p_cores@.len()),
        views::shows_processor(before, between, area, title, layout, snapshot, readouts, color),
        views::carries(base, before, between, after, area),
    ensures
        views::shows_processor(base, after, area, title, layout, snapshot, readouts, color),
{
    let e_rows = layout.e_rows@;
    let p_rows = layout.p_rows@;
    let e_part = layout.rows@[0];
    let p_part = layout.rows@[2];
    let gpu_part = layout.bottom@[0];
    let ane_part = layout.bottom@[1];
    let parts = seq![e_part, p_part, gpu_part, ane_part];
    let apart = views::clear_of(views::clear_of(base, e_rows), p_rows);
    let older = views::clear_of(views::clear_of(before, e_rows), p_rows);
    assert(e_part.inside(area) && p_part.inside(area) && gpu_part.inside(area) && ane_part.inside(
        area,
    ));
    lemma_carries_clear(base, before, between, after, area, e_rows);
    lemma_carries_clear(base, before, between, after, area, p_rows);
    lemma_carries_clear(
        views::clear_of(base, e_rows),
        views::clear_of(before, e_rows),
        between,
        after,
        area,
        p_rows,
    );
    lemma_part_carries(
        apart,
        older,
        between,
        after,
        area,
        e_part,
        seq![p_part, gpu_part, ane_part],
        "E-CPU Usage"@,
        snapshot.e_cluster_active,
        screen::load_text(snapshot.e_cluster_active, snapshot.e_cluster_freq_mhz),
        color,
    );
    lemma_part_carries(
        apart,
        older,
        between,
        after,
        area,
        p_part,
        seq![e_part, gpu_part, ane_part],
        "P-CPU Usage"@,
        snapshot.p_cluster_active,
        screen::load_text(snapshot.p_cluster_active, snapshot.p_cluster_freq_mhz),
        color,
    );
    lemma_part_carries(
        apart,
        older,
        between,
        after,
        area,
        gpu_part,
        seq![e_part, p_part, ane_part],
        "GPU Usage"@,
        snapshot.gpu.active_percent,
        screen::load_text(snapshot.gpu.active_percent, snapshot.gpu.freq_mhz),
        color,
    );
    lemma_part_carries(
        apart,
        older,
        between,
        after,
        area,
        ane_part,
        seq![e_part, p_part, gpu_part],
        "ANE"@,
        readouts.ane_percent,
        screen::ane_text(readouts),
        color,
    );
    lemma_carries_clear(
        views::clear_of(base, p_rows),
        views::clear_of(before, p_rows),
        between,
        after,
        area,
        parts,
    );
    lemma_carries_clear(
        views::clear_of(base, e_rows),
        views::clear_of(before, e_rows),
        between,
        after,
        area,
        parts,
    );
    lemma_core_rows_carry(
        views::clear_of(views::clear_of(base, p_rows), parts),
        views::clear_of(views::clear_of(before, p_rows), parts),
        between,
        after,
        area,
        e_rows,
        snapshot.e_cores@,
        color,
        true,
    );
    lemma_core_rows_carry(
        views::clear_of(views::clear_of(base, e_rows), parts),
        views::clear_of(views::clear_of(before, e_rows), parts),
        between,
        after,
        area,
        p_rows,
        snapshot.p_cores@,
        color,
        false,
    );
    lemma_panel_title_carries(base, before, between, after, area, title, Some(color));
}

/// Whether the screen shows what the state holds where cores are not shown one by one: the loads
/// on the first row, the memory on the second, and the power on the third, each on the cells that
/// no other row covers.
pub open spec fn shows_compact(
    before: Grid,
    after: Grid,
    rows: Seq<Rect>,
    app: App,
    snapshot: Snapshot,
    readouts: Readouts,
) -> bool {
    let color = canvas::palette(app.args.color);
    &&& views::shows_loads(
        views::clear_of(before, seq![rows[1], rows[2]]),
        after,
        rows[0],
        screen::soc_text(app.soc),
        snapshot,
        readouts,
        color,
    )
    &&& views::shows_memory(
        views::clear_of(before, seq![rows[0], rows[2]]),
        after,
        rows[1],
        app.memory,
        readouts,
        color,
    )
    &&& views::shows_power(
        views::clear_of(before, seq![rows[0], rows[1]]),
        after,
        rows[2],
        snapshot.thermal_pressure@,
        readouts,
        app.cpu_history@,
        app.gpu_history@,
        color,
    )
}

/// Whether the screen shows what the state holds where cores are shown one by one: the processors
/// above the power on the left, the memory above the cores on the right, each on the cells that no
/// other panel covers.
pub open spec fn shows_detailed(
    before: Grid,
    after: Grid,
    layout: ScreenLayout,
    app: App,
    snapshot: Snapshot,
    readouts: Readouts,
) -> bool {
    let color = canvas::palette(app.args.color);
    let left = layout.left;
    let right = layout.right;
    &&& views::shows_processor(
        views::clear_of(before, seq![left[1], right[0], right[1]]),
        after,
        left[0],
        screen::soc_text(app.soc),
        layout.processor,
        snapshot,
        readouts,
        color,
    )
    &&& views::shows_power(
        views::clear_of(before, seq![left[0], right[0], right[1]]),
        after,
        left[1],
        snapshot.thermal_pressure@,
        readouts,
        app.cpu_history@,
        app.gpu_history@,
        color,
    )
    &&& views::shows_memory(
        views::clear_of(before, seq![left[0], left[1], right[1]]),
        after,
        right[0],
        app.memory,
        readouts,
        color,
    )
    &&& views::shows_cores_panel(
        views::clear_of(before, seq![left[0], left[1], right[0]]),
        after,
        right[1],
        layout.cores,
        snapshot,
        color,
    )
}

/// Four changes on areas of any kind: what was done on one of them stays, and was done on what was
/// there before, on the cells that no other one covers.
proof fn lemma_apart_steps(
    before: Grid,
    first: Grid,
    second: Grid,
    third: Grid,
    after: Grid,
    a: Rect,
    b: Rect,
    c: Rect,
    d: Rect,
)
    requires
        canvas::same_outside(before, first, a),
        canvas::same_outside(first, second, b),
        canvas::same_outside(second, third, c),
        canvas::same_outside(third, after, d),
    ensures
        views::carries(views::clear_of(before, seq![b, c, d]), before, first, after, a),
        views::carries(views::clear_of(before, seq![a, c, d]), first, second, after, b),
        views::carries(views::clear_of(before, seq![a, b, d]), second, third, after, c),
        views::carries(views::clear_of(before, seq![a, b, c]), third, after, after, d),
{
    let beside_a = seq![b, c, d];
    let beside_b = seq![a, c, d];
    let beside_c = seq![a, b, d];
    let beside_d = seq![a, b, c];
    assert forall|x: int, y: int| #[trigger] views::covered(beside_a, x, y) == (b.covers(x, y)
        || c.covers(x, y) || d.covers(x, y)) by {
        views::lemma_covered_by_few(b, c, d, d, x, y);
    }
    assert forall|x: int, y: int| #[trigger] views::covered(beside_b, x, y) == (a.covers(x, y)
        || c.covers(x, y) || d.covers(x, y)) by {
        views::lemma_covered_by_few(a, c, d, d, x, y);
    }
    assert forall|x: int, y: int| #[trigger] views::covered(beside_c, x, y) == (a.covers(x, y)
        || b.covers(x, y) || d.covers(x, y)) by {
        views::lemma_covered_by_few(a, b, d, d, x, y);
    }
    assert forall|x: int, y: int| #[trigger] views::covered(beside_d, x, y) == (a.covers(x, y)
        || b.covers(x, y) || c.covers(x, y)) by {
        views::lemma_covered_by_few(a, b, c, c, x, y);
    }
}

/// An area without a cell covers none.
proof fn lemma_clear_of_none(grid: Grid, a: Rect, b: Rect, none: Rect)
    requires
        none.is_empty(),
    ensures
        views::clear_of(grid, seq![a, b, none]) == views::clear_of(grid, seq![a, b]),
{
    let two = seq![a, b];
    let three = seq![a, b, none];
    assert(two[0] == a && two[1] == b);
    assert forall|x: int, y: int| views::covered(two, x, y) == #[trigger] views::covered(three, x, y) by {
        views::lemma_covered_by_few(a, b, none, none, x, y);
    }
    assert(views::clear_of(grid, three) =~= views::clear_of(grid, two));
}

/// The screen without the cores shows the loads, the memory and the power.
#[verifier::spinoff_prover]
#[verifier::rlimit(40)]
pub proof fn law_compact_screen_shows(
    before: Grid,
    bounds: Rect,
    rows: Seq<Rect>,
    app: App,
    snapshot: Snapshot,
    readouts: Readouts,
)
    requires
        area::divided(bounds, Axis::Vertical, 0, screen::row_shares(), rows),
        views::is_screen(bounds),
        canvas::is_plain(app.soc.name@),
        words::are_plain(readouts),
    ensures
        shows_compact(
            before,
            screen::compact_screen_drawn(before, bounds, rows, app, snapshot, readouts),
            rows,
            app,
            snapshot,
            readouts,
        ),
{
    let color = canvas::palette(app.args.color);
    let title = screen::soc_text(app.soc);
    let none = Rect { x: 0, y: 0, width: 0, height: 0 };
    area::lemma_bands_inside(rows, bounds, Axis::Vertical, 0, screen::row_shares());
    assert(bounds.lies_on(bounds));
    assert(rows[0].lies_on(bounds) && rows[1].lies_on(bounds) && rows[2].lies_on(bounds));
    words::lemma_soc_plain(app.soc);
    let first = screen::compact_processor_drawn(
        before,
        bounds,
        rows[0],
        title,
        snapshot,
        readouts,
        color,
    );
    let second = screen::memory_panel_drawn(first, bounds, rows[1], app.memory, readouts, color);
    let after = screen::compact_screen_drawn(before, bounds, rows, app, snapshot, readouts);
    views::law_loads_are_shown(before, bounds, rows[0], title, snapshot, readouts, color);
    views::law_memory_is_shown(first, bounds, rows[1], app.memory, readouts, color);
    views::law_power_is_shown(
        second,
        bounds,
        rows[2],
        snapshot.thermal_pressure@,
        readouts,
        app.cpu_history@,
        app.gpu_history@,
        color,
    );
    lemma_apart_steps(before, first, second, after, after, rows[0], rows[1], rows[2], none);
    lemma_clear_of_none(before, rows[1], rows[2], none);
    lemma_clear_of_none(before, rows[0], rows[2], none);
    lemma_clear_of_none(before, rows[0], rows[1], none);
    lemma_loads_carry(
        views::clear_of(before, seq![rows[1], rows[2]]),
        before,
        first,
        after,
        rows[0],
        title,
        snapshot,
        readouts,
        color,
    );
    lemma_memory_carries(
        views::clear_of(before, seq![rows[0], rows[2]]),
        first,
        second,
        after,
        rows[1],
        app.memory,
        readouts,
        color,
    );
    lemma_power_carries(
        views::clear_of(before, seq![rows[0], rows[1]]),
        second,
        after,
        after,
        rows[2],
        snapshot.thermal_pressure@,
        readouts,
        app.cpu_history@,
        app.gpu_history@,
        color,
    );
}

/// The parts of the panel of the processors lie inside it.
proof fn lemma_processor_fits(layout: ProcessorLayout, area: Rect, e_count: nat, p_count: nat)
    requires
        layout.divides(area, e_count, p_count),
    ensures
        layout.fits(area::framed(area), e_count, p_count),
        layout.fits(area, e_count, p_count),
{
    area::lemma_bands_inside(
        layout.rows@,
        area,
        Axis::Vertical,
        1,
        screen::processor_shares(),
    );
    area::lemma_bands_inside(
        layout.bottom@,
        layout.rows@[4],
        Axis::Horizontal,
        0,
        screen::halves(),
    );
    screen::lemma_core_rows_inside(layout.e_rows@, layout.rows@[1], e_count);
    screen::lemma_core_rows_inside(layout.p_rows@, layout.rows@[3], p_count);
    assert(layout.rows@[1].inside(area));
    assert(layout.rows@[3].inside(area));
    assert(layout.rows@[4].inside(area));
}

/// The rows of the panel of the cores lie inside it.
proof fn lemma_cores_fit(layout: CoresLayout, area: Rect, e_count: nat, p_count: nat)
    requires
        layout.divides(area, e_count, p_count),
    ensures
        layout.fits(area::framed(area), e_count, p_count),
        layout.fits(area, e_count, p_count),
{
    area::lemma_bands_inside(layout.columns@, area, Axis::Horizontal, 1, screen::halves());
    screen::lemma_core_rows_inside(layout.e_rows@, layout.columns@[0], e_count);
    screen::lemma_core_rows_inside(layout.p_rows@, layout.columns@[1], p_count);
    assert(layout.columns@[0].inside(area));
    assert(layout.columns@[1].inside(area));
}

/// The screen with the cores shows the processors, the power, the memory and the cores.
#[verifier::spinoff_prover]
#[verifier::rlimit(40)]
pub proof fn law_detailed_screen_shows(
    before: Grid,
    bounds: Rect,
    layout: ScreenLayout,
    app: App,
    snapshot: Snapshot,
    readouts: Readouts,
)
    requires
        layout.divides(bounds, snapshot.e_cores@.len(), snapshot.p_cores@.len()),
        views::is_screen(bounds),
        canvas::is_plain(app.soc.name@),
        words::are_plain(readouts),
    ensures
        shows_detailed(
            before,
            screen::detailed_screen_drawn(before, bounds, layout, app, snapshot, readouts),
            layout,
            app,
            snapshot,
            readouts,
        ),
{
    let color = canvas::palette(app.args.color);
    let title = screen::soc_text(app.soc);
    let left = layout.left;
    let right = layout.right;
    let e_count = snapshot.e_cores@.len();
    let p_count = snapshot.p_cores@.len();
    lemma_screen_parts(layout, bounds, e_count, p_count);
    lemma_processor_fits(layout.processor, left[0], e_count, p_count);
    lemma_cores_fit(layout.cores, right[1], e_count, p_count);
    words::lemma_soc_plain(app.soc);
    let first = screen::detailed_processor_drawn(
        before,
        bounds,
        left[0],
        title,
        layout.processor,
        snapshot,
        readouts,
        color,
    );
    let second = screen::power_panel_drawn(
        first,
        bounds,
        left[1],
        snapshot.thermal_pressure@,
        readouts,
        app.cpu_history@,
        app.gpu_history@,
        color,
    );
    let third = screen::memory_panel_drawn(second, bounds, right[0], app.memory, readouts, color);
    let after = screen::detailed_screen_drawn(before, bounds, layout, app, snapshot, readouts);
    views::law_processor_is_shown(
        before,
        bounds,
        left[0],
        title,
        layout.processor,
        snapshot,
        readouts,
        color,
    );
    views::law_power_is_shown(
        first,
        bounds,
        left[1],
        snapshot.thermal_pressure@,
        readouts,
        app.cpu_history@,
        app.gpu_history@,
        color,
    );
    views::law_memory_is_shown(second, bounds, right[0], app.memory, readouts, color);
    views::law_cores_panel_shows(third, bounds, right[1], layout.cores, snapshot, color);
    lemma_apart_steps(
        before,
        first,
        second,
        third,
        after,
        left[0],
        left[1],
        right[0],
        right[1],
    );
    lemma_processor_carries(
        views::clear_of(before, seq![left[1], right[0], right[1]]),
        before,
        first,
        after,
        left[0],
        title,
        layout.processor,
        snapshot,
        readouts,
        color,
    );
    lemma_power_carries(
        views::clear_of(before, seq![left[0], right[0], right[1]]),
        first,
        second,
        after,
        left[1],
        snapshot.thermal_pressure@,
        readouts,
        app.cpu_history@,
        app.gpu_history@,
        color,
    );
    lemma_memory_carries(
        views::clear_of(before, seq![left[0], left[1], right[1]]),
        second,
        third,
        after,
        right[0],
        app.memory,
        readouts,
        color,
    );
    lemma_cores_panel_carries(
        views::clear_of(before, seq![left[0], left[1], right[0]]),
        third,
        after,
        after,
        right[1],
        layout.cores,
        snapshot,
        color,
    );
}

/// The parts of the screen lie on it.
proof fn lemma_screen_parts(layout: ScreenLayout, bounds: Rect, e_count: nat, p_count: nat)
    requires
        layout.divides(bounds, e_count, p_count),
        views::is_screen(bounds),
    ensures
        layout.left[0].lies_on(bounds),
        layout.left[1].lies_on(bounds),
        layout.right[0].lies_on(bounds),
        layout.right[1].lies_on(bounds),
{
    let shares = seq![Share::Percentage(58), Share::Percentage(42)];
    let left_shares = seq![Share::Length(22), Share::Min(8)];
    let right_shares = seq![Share::Length(5), Share::Min(8)];
    assert(bounds.lies_on(bounds));
    area::lemma_bands_inside(layout.sides, bounds, Axis::Horizontal, 0, shares);
    assert(layout.sides[0].lies_on(bounds));
    assert(layout.sides[1].lies_on(bounds));
    area::lemma_bands_inside(layout.left, layout.sides[0], Axis::Vertical, 0, left_shares);
    area::lemma_bands_inside(layout.right, layout.sides[1], Axis::Vertical, 0, right_shares);
}

/// Whether the screen shows what the state holds, and nothing before the first sample.
pub open spec fn shows_state(
    before: Grid,
    after: Grid,
    bounds: Rect,
    app: App,
    readouts: Readouts,
) -> bool {
    match app.last_snapshot {
        None => after == before,
        Some(snapshot) => if app.args.show_cores {
            exists|layout: ScreenLayout|
                #![trigger layout.divides(bounds, snapshot.e_cores@.len(), snapshot.p_cores@.len())]
                layout.divides(bounds, snapshot.e_cores@.len(), snapshot.p_cores@.len())
                    && shows_detailed(before, after, layout, app, snapshot, readouts)
        } else {
            exists|rows: Seq<Rect>|
                #![trigger area::divided(bounds, Axis::Vertical, 0, screen::row_shares(), rows)]
                area::divided(bounds, Axis::Vertical, 0, screen::row_shares(), rows)
                    && shows_compact(before, after, rows, app, snapshot, readouts)
        },
    }
}

/// What the screen shows is what the state holds, in either mode, and nothing is shown before the
/// first sample.
pub proof fn law_screen_shows_state(
    before: Grid,
    after: Grid,
    bounds: Rect,
    app: App,
    readouts: Readouts,
)
    requires
        screen::screen_shown(before, after, bounds, app, readouts),
        views::is_screen(bounds),
        canvas::is_plain(app.soc.name@),
        words::are_plain(readouts),
    ensures
        shows_state(before, after, bounds, app, readouts),
{
    if let Some(snapshot) = app.last_snapshot {
        let e_count = snapshot.e_cores@.len();
        let p_count = snapshot.p_cores@.len();
        if app.args.show_cores {
            let layout = choose|layout: ScreenLayout|
                #![trigger layout.divides(bounds, e_count, p_count)]
                layout.divides(bounds, e_count, p_count) && after
                    == screen::detailed_screen_drawn(
                    before,
                    bounds,
                    layout,
                    app,
                    snapshot,
                    readouts,
                );
            law_detailed_screen_shows(before, bounds, layout, app, snapshot, readouts);
        } else {
            let rows = choose|rows: Seq<Rect>|
                #![trigger area::divided(bounds, Axis::Vertical, 0, screen::row_shares(), rows)]
                area::divided(bounds, Axis::Vertical, 0, screen::row_shares(), rows) && after
                    == screen::compact_screen_drawn(
                    before,
                    bounds,
                    rows,
                    app,
                    snapshot,
                    readouts,
                );
            law_compact_screen_shows(before, bounds, rows, app, snapshot, readouts);
        }
    }
}

/// On the whole screen, in either mode, each plot of power stays the same whatever the history of
/// the other part is, on the cells that no other panel covers.
#[verifier::spinoff_prover]
#[verifier::rlimit(40)]
pub proof fn law_screen_plots_are_apart(
    before: Grid,
    bounds: Rect,
    rows: Seq<Rect>,
    layout: ScreenLayout,
    app: App,
    other: App,
    snapshot: Snapshot,
    readouts: Readouts,
    x: int,
    y: int,
)
    requires
        area::divided(bounds, Axis::Vertical, 0, screen::row_shares(), rows),
        layout.divides(bounds, snapshot.e_cores@.len(), snapshot.p_cores@.len()),
        views::is_screen(bounds),
        canvas::is_plain(app.soc.name@),
        words::are_plain(readouts),
        other.args == app.args,
        other.soc == app.soc,
        other.memory == app.memory,
        before.dom().contains((x, y)),
    ensures
        ({
            let shown = screen::compact_screen_drawn(before, bounds, rows, app, snapshot, readouts);
            let with_other = screen::compact_screen_drawn(
                before,
                bounds,
                rows,
                other,
                snapshot,
                readouts,
            );
            &&& other.cpu_history@ == app.cpu_history@ && area::left_part(
                area::framed(rows[2]),
                1,
            ).covers(x, y) ==> with_other[(x, y)] == shown[(x, y)]
            &&& other.gpu_history@ == app.gpu_history@ && area::right_part(
                area::framed(rows[2]),
                1,
            ).covers(x, y) ==> with_other[(x, y)] == shown[(x, y)]
        }),
        ({
            let shown = screen::detailed_screen_drawn(
                before,
                bounds,
                layout,
                app,
                snapshot,
                readouts,
            );
            let with_other = screen::detailed_screen_drawn(
                before,
                bounds,
                layout,
                other,
                snapshot,
                readouts,
            );
            let content = area::framed(layout.left[1]);
            !layout.right[0].covers(x, y) && !layout.right[1].covers(x, y) ==> {
                &&& other.cpu_history@ == app.cpu_history@ && area::left_part(content, 1).covers(
                    x,
                    y,
                ) ==> with_other[(x, y)] == shown[(x, y)]
                &&& other.gpu_history@ == app.gpu_history@ && area::right_part(content, 1).covers(
                    x,
                    y,
                ) ==> with_other[(x, y)] == shown[(x, y)]
            }
        }),
{
    let color = canvas::palette(app.args.color);
    let title = screen::soc_text(app.soc);
    let pressure = snapshot.thermal_pressure@;
    let e_count = snapshot.e_cores@.len();
    let p_count = snapshot.p_cores@.len();
    words::lemma_soc_plain(app.soc);
    area::lemma_bands_inside(rows, bounds, Axis::Vertical, 0, screen::row_shares());
    assert(bounds.lies_on(bounds));
    assert(rows[0].lies_on(bounds) && rows[1].lies_on(bounds) && rows[2].lies_on(bounds));
    let first = screen::compact_processor_drawn(
        before,
        bounds,
        rows[0],
        title,
        snapshot,
        readouts,
        color,
    );
    let second = screen::memory_panel_drawn(first, bounds, rows[1], app.memory, readouts, color);
    views::law_loads_are_shown(before, bounds, rows[0], title, snapshot, readouts, color);
    views::law_memory_is_shown(first, bounds, rows[1], app.memory, readouts, color);
    views::law_histories_are_apart(
        second,
        bounds,
        rows[2],
        pressure,
        readouts,
        app.cpu_history@,
        app.gpu_history@,
        other.gpu_history@,
        color,
        x,
        y,
    );
    views::law_histories_are_apart(
        second,
        bounds,
        rows[2],
        pressure,
        readouts,
        app.cpu_history@,
        app.gpu_history@,
        other.cpu_history@,
        color,
        x,
        y,
    );
    lemma_screen_parts(layout, bounds, e_count, p_count);
    lemma_processor_fits(layout.processor, layout.left[0], e_count, p_count);
    lemma_cores_fit(layout.cores, layout.right[1], e_count, p_count);
    let start = screen::detailed_processor_drawn(
        before,
        bounds,
        layout.left[0],
        title,
        layout.processor,
        snapshot,
        readouts,
        color,
    );
    views::law_processor_is_shown(
        before,
        bounds,
        layout.left[0],
        title,
        layout.processor,
        snapshot,
        readouts,
        color,
    );
    views::law_histories_are_apart(
        start,
        bounds,
        layout.left[1],
        pressure,
        readouts,
        app.cpu_history@,
        app.gpu_history@,
        other.gpu_history@,
        color,
        x,
        y,
    );
    views::law_histories_are_apart(
        start,
        bounds,
        layout.left[1],
        pressure,
        readouts,
        app.cpu_history@,
        app.gpu_history@,
        other.cpu_history@,
        color,
        x,
        y,
    );
    if !layout.right[0].covers(x, y) && !layout.right[1].covers(x, y) {
        lemma_right_side_apart(start, bounds, layout, app, snapshot, readouts, color, x, y);
        lemma_right_side_apart(start, bounds, layout, other, snapshot, readouts, color, x, y);
    }
}

/// What is drawn of the memory and the cores leaves the plots of power as they were.
proof fn lemma_right_side_apart(
    start: Grid,
    bounds: Rect,
    layout: ScreenLayout,
    app: App,
    snapshot: Snapshot,
    readouts: Readouts,
    color: Color,
    x: int,
    y: int,
)
    requires
        layout.left[1].lies_on(bounds),
        layout.right[0].lies_on(bounds),
        layout.right[1].lies_on(bounds),
        views::is_screen(bounds),
        words::are_plain(readouts),
        layout.cores.fits(
            area::framed(layout.right[1]),
            snapshot.e_cores@.len(),
            snapshot.p_cores@.len(),
        ),
        start.dom().contains((x, y)),
        !layout.right[0].covers(x, y),
        !layout.right[1].covers(x, y),
    ensures
        ({
            let power = screen::power_panel_drawn(
                start,
                bounds,
                layout.left[1],
                snapshot.thermal_pressure@,
                readouts,
                app.cpu_history@,
                app.gpu_history@,
                color,
            );
            let memory = screen::memory_panel_drawn(
                power,
                bounds,
                layout.right[0],
                app.memory,
                readouts,
                color,
            );
            screen::cores_panel_drawn(
                memory,
                bounds,
                layout.right[1],
                layout.cores,
                snapshot,
                color,
            )[(x, y)] == power[(x, y)]
        }),
{
    let power = screen::power_panel_drawn(
        start,
        bounds,
        layout.left[1],
        snapshot.thermal_pressure@,
        readouts,
        app.cpu_history@,
        app.gpu_history@,
        color,
    );
    let memory = screen::memory_panel_drawn(
        power,
        bounds,
        layout.right[0],
        app.memory,
        readouts,
        color,
    );
    views::law_power_is_shown(
        start,
        bounds,
        layout.left[1],
        snapshot.thermal_pressure@,
        readouts,
        app.cpu_history@,
        app.gpu_history@,
        color,
    );
    views::law_memory_is_shown(power, bounds, layout.right[0], app.memory, readouts, color);
    views::law_cores_panel_shows(memory, bounds, layout.right[1], layout.cores, snapshot, color);
}

/// How the screen is divided. Without the cores the processors get 34, the memory 22 and the power
/// 44 percent of its height, from the top. With them the left side gets 58 and the right side 42
/// percent of its width; on the left the processors stand on 22 rows above the power, on the right
/// the memory on 5 rows above the cores, and each core has three rows.
pub proof fn law_screen_is_shared_out(
    layout: ScreenLayout,
    bounds: Rect,
    e_count: nat,
    p_count: nat,
    i: int,
)
    requires
        layout.divides(bounds, e_count, p_count),
    ensures
        screen::row_shares() == seq![
            Share::Percentage(34),
            Share::Percentage(22),
            Share::Percentage(44),
        ],
        area::can_divide(
            bounds,
            Axis::Horizontal,
            0,
            seq![Share::Percentage(58), Share::Percentage(42)],
            layout.sides,
        ),
        area::can_divide(
            layout.sides[0],
            Axis::Vertical,
            0,
            seq![Share::Length(22), Share::Min(8)],
            layout.left,
        ),
        area::can_divide(
            layout.sides[1],
            Axis::Vertical,
            0,
            seq![Share::Length(5), Share::Min(8)],
            layout.right,
        ),
        area::can_divide(
            layout.left[0],
            Axis::Vertical,
            1,
            seq![
                Share::Length(3),
                Share::Length(5),
                Share::Length(3),
                Share::Length(8),
                Share::Length(3),
                Share::Length(3),
            ],
            layout.processor.rows@,
        ),
        area::can_divide(
            layout.processor.rows@[4],
            Axis::Horizontal,
            0,
            seq![Share::Percentage(50), Share::Percentage(50)],
            layout.processor.bottom@,
        ),
        area::can_divide(
            layout.right[1],
            Axis::Horizontal,
            1,
            seq![Share::Percentage(50), Share::Percentage(50)],
            layout.cores.columns@,
        ),
        layout.processor.e_rows@.len() == e_count,
        layout.processor.p_rows@.len() == p_count,
        layout.cores.e_rows@.len() == e_count,
        layout.cores.p_rows@.len() == p_count,
        0 <= i < e_count ==> layout.processor.e_rows@[i].inside(layout.processor.rows@[1])
            && layout.cores.e_rows@[i].inside(layout.cores.columns@[0]),
        0 <= i < p_count ==> layout.processor.p_rows@[i].inside(layout.processor.rows@[3])
            && layout.cores.p_rows@[i].inside(layout.cores.columns@[1]),
        0 <= i < e_count ==> screen::core_shares(e_count)[i] == Share::Length(3),
{
    screen::lemma_core_rows_inside(
        layout.processor.e_rows@,
        layout.processor.rows@[1],
        e_count,
    );
    screen::lemma_core_rows_inside(
        layout.processor.p_rows@,
        layout.processor.rows@[3],
        p_count,
    );
    screen::lemma_core_rows_inside(layout.cores.e_rows@, layout.cores.columns@[0], e_count);
    screen::lemma_core_rows_inside(layout.cores.p_rows@, layout.cores.columns@[1], p_count);
}

} // verus!
