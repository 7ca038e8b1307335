//! The panels of the screen.
//!
//! Where a panel is divided by the layout solver, what is drawn is stated for the parts that the
//! solver came out with.

use crate::area;
use crate::area::{Axis, Rect, Share};
use crate::canvas;
use crate::canvas::{Color, Grid};
use crate::meter;
use crate::overview;
use crate::snapshot::{CoreMetric, Snapshot};
use crate::text;
use crate::memory;
use crate::memory::MemorySnapshot;
use crate::soc::SocInfo;
use crate::state::App;
use crate::views;
use crate::words;
use ratatui::buffer::Buffer;
use std::collections::VecDeque;
use vstd::prelude::*;

verus! {

/// What a panel leaves behind: a frame and a bold title in the panel's color.
pub open spec fn panel_drawn(
    before: Grid,
    bounds: Rect,
    area: Rect,
    title: Seq<char>,
    color: Color,
) -> Grid {
    canvas::block_rendered(
        before,
        bounds,
        area,
        title,
        meter::outlined_paint(color),
        meter::label_paint(color),
    )
}

/// What a frame in the colors of the terminal leaves behind.
pub open spec fn frame_drawn(
    before: Grid,
    bounds: Rect,
    area: Rect,
    title: Seq<char>,
) -> Grid {
    canvas::block_rendered(before, bounds, area, title, meter::unpainted(), meter::unpainted())
}

/// Draws the frame of a panel in the panel's color.
pub fn panel_block(buf: &mut Buffer, area: Rect, title: &str, color: Color)
    requires
        canvas::is_whole(*old(buf)),
    ensures
        canvas::bounds(*final(buf)) == canvas::bounds(*old(buf)),
        canvas::cells(*final(buf)) == panel_drawn(
            canvas::cells(*old(buf)),
            canvas::bounds(*old(buf)),
            area,
            title@,
            color,
        ),
        canvas::same_outside(canvas::cells(*old(buf)), canvas::cells(*final(buf)), area),
        canvas::is_whole(*final(buf)),
{
    canvas::draw_block(
        buf,
        area,
        title,
        meter::outlined_paint(color),
        meter::label_paint(color),
    );
}

/// What a meter inside a frame leaves behind.
pub open spec fn framed_meter_drawn(
    before: Grid,
    bounds: Rect,
    area: Rect,
    title: Seq<char>,
    percent: u16,
    label: Seq<char>,
    color: Color,
) -> Grid {
    meter::meter_drawn(
        frame_drawn(before, bounds, area, title),
        bounds,
        area::framed(area),
        percent,
        label,
        color,
    )
}

/// Draws a meter inside a frame.
pub fn draw_framed_meter(
    buf: &mut Buffer,
    area: Rect,
    title: &str,
    percent: u16,
    label: &str,
    color: Color,
)
    requires
        canvas::is_whole(*old(buf)),
        meter::fits(area::framed(area), canvas::bounds(*old(buf)), label@),
    ensures
        canvas::bounds(*final(buf)) == canvas::bounds(*old(buf)),
        canvas::cells(*final(buf)) == framed_meter_drawn(
            canvas::cells(*old(buf)),
            canvas::bounds(*old(buf)),
            area,
            title@,
            percent,
            label@,
            color,
        ),
        canvas::same_outside(canvas::cells(*old(buf)), canvas::cells(*final(buf)), area),
        canvas::is_whole(*final(buf)),
{
    canvas::draw_block(buf, area, title, meter::unpainted(), meter::unpainted());
    meter::draw_segmented_meter(buf, area::inner_area(area), percent, label, color);
}

/// A load and a frequency in words.
pub open spec fn load_text(percent: u16, freq_mhz: u64) -> Seq<char> {
    text::numeral(percent as nat) + "% @ "@ + text::numeral(freq_mhz as nat) + " MHz"@
}

/// Writes a load and a frequency in words behind `before`.
pub fn load_label(before: &str, percent: u16, freq_mhz: u64) -> (r: String)
    ensures
        r@ == before@ + load_text(percent, freq_mhz),
{
    let mut label: String = before.to_owned();
    label.append(text::decimal(percent as u64).as_str());
    label.append("% @ ");
    label.append(text::decimal(freq_mhz).as_str());
    label.append(" MHz");
    assert(label@ =~= before@ + load_text(percent, freq_mhz));
    label
}

/// The label of a core: its number, counted from one, with its load and frequency. The word for a
/// core is cut short among many performance cores.
pub open spec fn core_text(core: CoreMetric, e_cluster: bool, count: nat) -> Seq<char> {
    (if e_cluster || count < 6 {
        "Core-"@
    } else {
        "C-"@
    }) + text::numeral((core.cpu + 1) as nat) + " "@ + load_text(core.active_percent, core.freq_mhz)
}

/// Writes the label of a core.
pub fn core_label(core: &CoreMetric, e_cluster: bool, count: usize) -> (r: String)
    requires
        core.cpu < usize::MAX,
    ensures
        r@ == core_text(*core, e_cluster, count as nat),
{
    let mut name: String = (if e_cluster || count < 6 {
        "Core-"
    } else {
        "C-"
    }).to_owned();
    name.append(text::decimal((core.cpu + 1) as u64).as_str());
    name.append(" ");
    load_label(name.as_str(), core.active_percent, core.freq_mhz)
}

/// Plain texts one behind the other make a plain text.
pub proof fn lemma_plain_joined(a: Seq<char>, b: Seq<char>)
    requires
        canvas::is_plain(a),
        canvas::is_plain(b),
    ensures
        canvas::is_plain(a + b),
{
    assert forall|i: int| 0 <= i < (a + b).len() implies ' ' <= #[trigger] (a + b)[i] <= '~' by {
        if i < a.len() {
            assert((a + b)[i] == a[i]);
        } else {
            assert((a + b)[i] == b[i - a.len()]);
        }
    }
}

/// Loads and cores are always described in plain text, so that their labels are shown character
/// by character.
pub proof fn law_load_labels_are_plain(core: CoreMetric, e_cluster: bool, count: nat)
    ensures
        canvas::is_plain(load_text(core.active_percent, core.freq_mhz)),
        canvas::is_plain(core_text(core, e_cluster, count)),
{
    reveal_strlit("% @ ");
    reveal_strlit(" MHz");
    reveal_strlit("Core-");
    reveal_strlit("C-");
    reveal_strlit(" ");
    let percent = text::numeral(core.active_percent as nat);
    let freq = text::numeral(core.freq_mhz as nat);
    let number = text::numeral((core.cpu + 1) as nat);
    text::lemma_numeral_digits(core.active_percent as nat);
    text::lemma_numeral_digits(core.freq_mhz as nat);
    text::lemma_numeral_digits((core.cpu + 1) as nat);
    lemma_digits_plain(percent);
    lemma_digits_plain(freq);
    lemma_digits_plain(number);
    lemma_plain_joined(percent, "% @ "@);
    lemma_plain_joined(percent + "% @ "@, freq);
    lemma_plain_joined(percent + "% @ "@ + freq, " MHz"@);
    let load = load_text(core.active_percent, core.freq_mhz);
    let word = if e_cluster || count < 6 {
        "Core-"@
    } else {
        "C-"@
    };
    lemma_plain_joined(word, number);
    lemma_plain_joined(word + number, " "@);
    lemma_plain_joined(word + number + " "@, load);
}

/// Digits are plain text.
pub proof fn lemma_digits_plain(digits: Seq<char>)
    requires
        forall|i: int| 0 <= i < digits.len() ==> text::is_digit(#[trigger] digits[i]),
    ensures
        canvas::is_plain(digits),
{
    assert forall|i: int| 0 <= i < digits.len() implies ' ' <= #[trigger] digits[i] <= '~' by {
        assert(text::is_digit(digits[i]));
    }
}

/// What the first `n` meters of a core grid leave behind on their rows.
pub open spec fn core_grid_drawn(
    before: Grid,
    bounds: Rect,
    rows: Seq<Rect>,
    cores: Seq<CoreMetric>,
    color: Color,
    e_cluster: bool,
    n: nat,
) -> Grid
    decreases n,
{
    if n == 0 {
        before
    } else {
        framed_meter_drawn(
            core_grid_drawn(before, bounds, rows, cores, color, e_cluster, (n - 1) as nat),
            bounds,
            rows[n - 1],
            ""@,
            cores[n - 1].active_percent,
            core_text(cores[n - 1], e_cluster, cores.len()),
            color,
        )
    }
}

/// Whether the numbers of the cores can be counted from one.
pub open spec fn countable(cores: Seq<CoreMetric>) -> bool {
    forall|i: int| 0 <= i < cores.len() ==> (#[trigger] cores[i]).cpu < usize::MAX
}

/// Draws a core grid on the given rows, one for each core.
pub fn draw_core_grid(
    buf: &mut Buffer,
    rows: &Vec<Rect>,
    cores: &Vec<CoreMetric>,
    color: Color,
    e_cluster: bool,
)
    requires
        canvas::is_whole(*old(buf)),
        rows@.len() == cores@.len(),
        countable(cores@),
        forall|i: int|
            0 <= i < rows@.len() ==> meter::fits(
                area::framed(#[trigger] rows@[i]),
                canvas::bounds(*old(buf)),
                core_text(cores@[i], e_cluster, cores@.len()),
            ),
    ensures
        canvas::bounds(*final(buf)) == canvas::bounds(*old(buf)),
        canvas::cells(*final(buf)) == core_grid_drawn(
            canvas::cells(*old(buf)),
            canvas::bounds(*old(buf)),
            rows@,
            cores@,
            color,
            e_cluster,
            cores@.len(),
        ),
        forall|area: Rect|
            (forall|i: int| 0 <= i < rows@.len() ==> (#[trigger] rows@[i]).inside(area))
                ==> #[trigger] canvas::same_outside(
                canvas::cells(*old(buf)),
                canvas::cells(*final(buf)),
                area,
            ),
        canvas::is_whole(*final(buf)),
{
    let mut i: usize = 0;
    while i < cores.len()
        invariant
            i <= cores@.len(),
            rows@.len() == cores@.len(),
            countable(cores@),
            canvas::is_whole(*buf),
            canvas::bounds(*buf) == canvas::bounds(*old(buf)),
            forall|k: int|
                0 <= k < rows@.len() ==> meter::fits(
                    area::framed(#[trigger] rows@[k]),
                    canvas::bounds(*buf),
                    core_text(cores@[k], e_cluster, cores@.len()),
                ),
            canvas::cells(*buf) == core_grid_drawn(
                canvas::cells(*old(buf)),
                canvas::bounds(*old(buf)),
                rows@,
                cores@,
                color,
                e_cluster,
                i as nat,
            ),
            forall|area: Rect|
                (forall|k: int| 0 <= k < rows@.len() ==> (#[trigger] rows@[k]).inside(area))
                    ==> #[trigger] canvas::same_outside(
                    canvas::cells(*old(buf)),
                    canvas::cells(*buf),
                    area,
                ),
        decreases cores.len() - i,
    {
        let ghost drawn = canvas::cells(*buf);
        let label: String = core_label(&cores[i], e_cluster, cores.len());
        draw_framed_meter(
            buf,
            rows[i],
            "",
            cores[i].active_percent,
            label.as_str(),
            color,
        );
        assert forall|area: Rect|
            (forall|k: int| 0 <= k < rows@.len() ==> (#[trigger] rows@[k]).inside(area)) implies
            #[trigger] canvas::same_outside(
            canvas::cells(*old(buf)),
            canvas::cells(*buf),
            area,
        ) by {
            assert(canvas::same_outside(canvas::cells(*old(buf)), drawn, area));
            assert(rows@[i as int].inside(area));
            canvas::lemma_changed_inside(
                canvas::cells(*old(buf)),
                drawn,
                canvas::cells(*buf),
                rows@[i as int],
                area,
            );
        }
        i = i + 1;
    }
}

/// The rows that a core grid asks for: three cells for each core.
pub open spec fn core_shares(count: nat) -> Seq<Share> {
    Seq::new(count, |i: int| Share::Length(3))
}

/// Whether `rows` are what `area` is divided into for a grid of `count` cores.
pub open spec fn are_core_rows(rows: Seq<Rect>, area: Rect, count: nat) -> bool {
    if count == 0 {
        rows.len() == 0
    } else {
        area::divided(area, Axis::Vertical, 0, core_shares(count), rows)
    }
}

/// The rows of a core grid lie inside its area, one for each core, and what they frame lies inside
/// what the area frames.
pub proof fn lemma_core_rows_inside(rows: Seq<Rect>, area: Rect, count: nat)
    requires
        are_core_rows(rows, area, count),
    ensures
        rows.len() == count,
        forall|i: int| 0 <= i < rows.len() ==> (#[trigger] rows[i]).inside(area),
        forall|i: int|
            0 <= i < rows.len() ==> area::framed(#[trigger] rows[i]).inside(area::framed(area)),
{
    if count > 0 {
        area::lemma_bands_inside(rows, area, Axis::Vertical, 0, core_shares(count));
        assert forall|i: int| 0 <= i < rows.len() implies area::framed(#[trigger] rows[i]).inside(
            area::framed(area),
        ) by {
            assert(area::is_band(rows[i], area::inset(area, 0), Axis::Vertical));
        }
    }
}

/// Rows that frame nothing outside the bounds can be drawn on.
proof fn lemma_rows_fit(
    rows: Seq<Rect>,
    bounds: Rect,
    cores: Seq<CoreMetric>,
    e_cluster: bool,
)
    requires
        bounds.x + bounds.width <= u16::MAX,
        bounds.y + bounds.height <= u16::MAX,
        forall|i: int| 0 <= i < rows.len() ==> area::framed(#[trigger] rows[i]).inside(bounds),
    ensures
        forall|i: int|
            0 <= i < rows.len() ==> meter::fits(
                area::framed(#[trigger] rows[i]),
                bounds,
                core_text(cores[i], e_cluster, cores.len()),
            ),
{
    assert forall|i: int| 0 <= i < rows.len() implies meter::fits(
        area::framed(#[trigger] rows[i]),
        bounds,
        core_text(cores[i], e_cluster, cores.len()),
    ) by {
        meter::lemma_fits_inside(
            area::framed(rows[i]),
            bounds,
            core_text(cores[i], e_cluster, cores.len()),
        );
    }
}

/// Divides an area into the rows of a core grid.
pub fn layout_core_grid(area: Rect, count: usize) -> (r: Vec<Rect>)
    ensures
        are_core_rows(r@, area, count as nat),
{
    let mut shares: Vec<Share> = Vec::new();
    let mut i: usize = 0;
    while i < count
        invariant
            i <= count,
            shares@ == core_shares(i as nat),
        decreases count - i,
    {
        shares.push(Share::Length(3));
        i = i + 1;
        assert(shares@ =~= core_shares(i as nat));
    }
    if count == 0 {
        return Vec::new();
    }
    area::solve_layout(area, Axis::Vertical, 0, &shares)
}

/// Draws a core grid, its area divided into rows for the cores.
pub fn render_core_grid(
    buf: &mut Buffer,
    area: Rect,
    cores: &Vec<CoreMetric>,
    color: Color,
    e_cluster: bool,
)
    requires
        canvas::is_whole(*old(buf)),
        cores@.len() == 0 || area::framed(area).inside(canvas::bounds(*old(buf))),
        countable(cores@),
    ensures
        canvas::bounds(*final(buf)) == canvas::bounds(*old(buf)),
        exists|rows: Seq<Rect>|
            #![trigger are_core_rows(rows, area, cores@.len())]
            are_core_rows(rows, area, cores@.len()) && canvas::cells(*final(buf))
                == core_grid_drawn(
                canvas::cells(*old(buf)),
                canvas::bounds(*old(buf)),
                rows,
                cores@,
                color,
                e_cluster,
                cores@.len(),
            ),
        canvas::same_outside(canvas::cells(*old(buf)), canvas::cells(*final(buf)), area),
        canvas::is_whole(*final(buf)),
{
    let rows: Vec<Rect> = layout_core_grid(area, cores.len());
    proof {
        lemma_core_rows_inside(rows@, area, cores@.len());
        lemma_rows_fit(rows@, canvas::bounds(*buf), cores@, e_cluster);
    }
    draw_core_grid(buf, &rows, cores, color, e_cluster);
}

/// The parts of the panel of the cores.
#[derive(Debug)]
pub struct CoresLayout {
    /// The left column for the efficiency cores and the right one for the performance cores.
    pub columns: Vec<Rect>,
    pub e_rows: Vec<Rect>,
    pub p_rows: Vec<Rect>,
}

/// Two equal shares.
pub open spec fn halves() -> Seq<Share> {
    seq![Share::Percentage(50), Share::Percentage(50)]
}

impl CoresLayout {
    /// Whether these are the parts that the panel on `area` is divided into.
    pub open spec fn divides(self, area: Rect, e_count: nat, p_count: nat) -> bool {
        &&& area::divided(area, Axis::Horizontal, 1, halves(), self.columns@)
        &&& are_core_rows(self.e_rows@, self.columns@[0], e_count)
        &&& are_core_rows(self.p_rows@, self.columns@[1], p_count)
    }

    /// Whether there is a row inside `area` for each core.
    pub open spec fn fits(self, area: Rect, e_count: nat, p_count: nat) -> bool {
        &&& self.e_rows@.len() == e_count
        &&& self.p_rows@.len() == p_count
        &&& forall|i: int|
            0 <= i < self.e_rows@.len() ==> (#[trigger] self.e_rows@[i]).inside(area)
        &&& forall|i: int|
            0 <= i < self.p_rows@.len() ==> (#[trigger] self.p_rows@[i]).inside(area)
    }
}

/// Divides an area into the parts of the panel of the cores.
pub fn layout_cores_panel(area: Rect, e_count: usize, p_count: usize) -> (r: CoresLayout)
    ensures
        r.divides(area, e_count as nat, p_count as nat),
        r.fits(area::framed(area), e_count as nat, p_count as nat),
{
    let shares: Vec<Share> = vec![Share::Percentage(50), Share::Percentage(50)];
    assert(shares@ =~= halves());
    let columns: Vec<Rect> = area::solve_layout(area, Axis::Horizontal, 1, &shares);
    let e_rows: Vec<Rect> = layout_core_grid(columns[0], e_count);
    let p_rows: Vec<Rect> = layout_core_grid(columns[1], p_count);
    proof {
        area::lemma_bands_inside(columns@, area, Axis::Horizontal, 1, halves());
        lemma_core_rows_inside(e_rows@, columns@[0], e_count as nat);
        lemma_core_rows_inside(p_rows@, columns@[1], p_count as nat);
        assert(columns@[0].inside(area));
        assert(columns@[1].inside(area));
    }
    CoresLayout { columns, e_rows, p_rows }
}

/// What the panel of the cores leaves behind on its parts.
pub open spec fn cores_panel_drawn(
    before: Grid,
    bounds: Rect,
    area: Rect,
    layout: CoresLayout,
    snapshot: Snapshot,
    color: Color,
) -> Grid {
    let framed = frame_drawn(before, bounds, area, "Cores"@);
    let left = core_grid_drawn(
        framed,
        bounds,
        layout.e_rows@,
        snapshot.e_cores@,
        color,
        true,
        snapshot.e_cores@.len(),
    );
    core_grid_drawn(
        left,
        bounds,
        layout.p_rows@,
        snapshot.p_cores@,
        color,
        false,
        snapshot.p_cores@.len(),
    )
}

/// Draws the panel of the cores on the given parts.
pub fn draw_cores_panel(
    buf: &mut Buffer,
    area: Rect,
    layout: &CoresLayout,
    snapshot: &Snapshot,
    color: Color,
)
    requires
        canvas::is_whole(*old(buf)),
        snapshot.e_cores@.len() + snapshot.p_cores@.len() == 0 || area::framed(area).inside(
            canvas::bounds(*old(buf)),
        ),
        layout.fits(area::framed(area), snapshot.e_cores@.len(), snapshot.p_cores@.len()),
        countable(snapshot.e_cores@),
        countable(snapshot.p_cores@),
    ensures
        canvas::bounds(*final(buf)) == canvas::bounds(*old(buf)),
        canvas::cells(*final(buf)) == cores_panel_drawn(
            canvas::cells(*old(buf)),
            canvas::bounds(*old(buf)),
            area,
            *layout,
            *snapshot,
            color,
        ),
        canvas::same_outside(canvas::cells(*old(buf)), canvas::cells(*final(buf)), area),
        area.lies_on(canvas::bounds(*old(buf))) ==> views::shows_cores_panel(
            canvas::cells(*old(buf)),
            canvas::cells(*final(buf)),
            area,
            *layout,
            *snapshot,
            color,
        ),
        canvas::is_whole(*final(buf)),
{
    canvas::draw_block(buf, area, "Cores", meter::unpainted(), meter::unpainted());
    let ghost framed = canvas::cells(*buf);
    draw_core_grid(buf, &layout.e_rows, &snapshot.e_cores, color, true);
    let ghost left = canvas::cells(*buf);
    draw_core_grid(buf, &layout.p_rows, &snapshot.p_cores, color, false);
    proof {
        canvas::lemma_changed_inside(canvas::cells(*old(buf)), framed, left, area, area);
        canvas::lemma_changed_inside(
            canvas::cells(*old(buf)),
            left,
            canvas::cells(*buf),
            area,
            area,
        );
    }
    proof {
        if area.lies_on(canvas::bounds(*old(buf))) {
            views::law_cores_panel_shows(
                canvas::cells(*old(buf)),
                canvas::bounds(*old(buf)),
                area,
                *layout,
                *snapshot,
                color,
            );
        }
    }
}

/// Draws the panel of the cores, its area divided into a column for each kind of core.
pub fn render_cores_panel(buf: &mut Buffer, area: Rect, snapshot: &Snapshot, color: Color)
    requires
        canvas::is_whole(*old(buf)),
        snapshot.e_cores@.len() + snapshot.p_cores@.len() == 0 || area::framed(area).inside(
            canvas::bounds(*old(buf)),
        ),
        countable(snapshot.e_cores@),
        countable(snapshot.p_cores@),
    ensures
        canvas::bounds(*final(buf)) == canvas::bounds(*old(buf)),
        exists|layout: CoresLayout|
            #![trigger layout.divides(area, snapshot.e_cores@.len(), snapshot.p_cores@.len())]
            layout.divides(area, snapshot.e_cores@.len(), snapshot.p_cores@.len())
                && canvas::cells(*final(buf)) == cores_panel_drawn(
                canvas::cells(*old(buf)),
                canvas::bounds(*old(buf)),
                area,
                layout,
                *snapshot,
                color,
            ),
        canvas::same_outside(canvas::cells(*old(buf)), canvas::cells(*final(buf)), area),
        canvas::is_whole(*final(buf)),
{
    let layout: CoresLayout = layout_cores_panel(
        area,
        snapshot.e_cores.len(),
        snapshot.p_cores.len(),
    );
    draw_cores_panel(buf, area, &layout, snapshot, color);
}

/// Power in watts with its average and its peak, each written out with its decimals.
#[derive(Debug, Clone)]
pub struct PowerText {
    pub now: String,
    pub average: String,
    pub peak: String,
}

/// The figures of a frame that are shown with decimals, written out, and the load of the neural
/// engine that its power stands for.
#[derive(Debug, Clone)]
pub struct Readouts {
    pub ane_percent: u16,
    pub ane_watts: String,
    pub used_gb: String,
    pub total_gb: String,
    pub swap_used_gb: String,
    pub swap_total_gb: String,
    pub package: PowerText,
    pub cpu: PowerText,
    pub gpu: PowerText,
}

/// The load and the power of the neural engine in words.
pub open spec fn ane_text(readouts: Readouts) -> Seq<char> {
    text::numeral(readouts.ane_percent as nat) + "% @ "@ + readouts.ane_watts@ + " W"@
}

/// Writes the load and the power of the neural engine in words behind `before`.
pub fn ane_label(before: &str, readouts: &Readouts) -> (r: String)
    ensures
        r@ == before@ + ane_text(*readouts),
{
    let mut label: String = before.to_owned();
    label.append(text::decimal(readouts.ane_percent as u64).as_str());
    label.append("% @ ");
    label.append(readouts.ane_watts.as_str());
    label.append(" W");
    assert(label@ =~= before@ + ane_text(*readouts));
    label
}

/// Whether the panel of the processors with a meter in each quarter can be drawn on `area`: its
/// quarters begin at coordinates, and a meter can be drawn on each.
pub open spec fn quarters_fit(area: Rect, bounds: Rect) -> bool {
    let content = area::framed(area);
    let top = area::upper_part(content, 1);
    let bottom = area::lower_part(content, 1);
    &&& area::splits_down(content, 1)
    &&& area::splits_across(top, 1)
    &&& area::splits_across(bottom, 1)
    &&& meter::has_room(area::left_part(top, 1), bounds)
    &&& meter::has_room(area::right_part(top, 1), bounds)
    &&& meter::has_room(area::left_part(bottom, 1), bounds)
    &&& meter::has_room(area::right_part(bottom, 1), bounds)
}

/// What the panel of the processors leaves behind where cores are not shown one by one: a meter
/// in each quarter.
pub open spec fn compact_processor_drawn(
    before: Grid,
    bounds: Rect,
    area: Rect,
    title: Seq<char>,
    snapshot: Snapshot,
    readouts: Readouts,
    color: Color,
) -> Grid {
    let content = area::framed(area);
    let top = area::upper_part(content, 1);
    let bottom = area::lower_part(content, 1);
    let framed = panel_drawn(before, bounds, area, title, color);
    let first = meter::meter_drawn(
        framed,
        bounds,
        area::left_part(top, 1),
        snapshot.e_cluster_active,
        "E-CPU Usage: "@ + load_text(snapshot.e_cluster_active, snapshot.e_cluster_freq_mhz),
        color,
    );
    let second = meter::meter_drawn(
        first,
        bounds,
        area::right_part(top, 1),
        snapshot.p_cluster_active,
        "P-CPU Usage: "@ + load_text(snapshot.p_cluster_active, snapshot.p_cluster_freq_mhz),
        color,
    );
    let third = meter::meter_drawn(
        second,
        bounds,
        area::left_part(bottom, 1),
        snapshot.gpu.active_percent,
        "GPU Usage: "@ + load_text(snapshot.gpu.active_percent, snapshot.gpu.freq_mhz),
        color,
    );
    meter::meter_drawn(
        third,
        bounds,
        area::right_part(bottom, 1),
        readouts.ane_percent,
        "ANE Usage: "@ + ane_text(readouts),
        color,
    )
}

/// Draws the panel of the processors with a meter in each quarter.
pub fn draw_compact_processor(
    buf: &mut Buffer,
    area: Rect,
    title: &str,
    snapshot: &Snapshot,
    readouts: &Readouts,
    color: Color,
)
    requires
        canvas::is_whole(*old(buf)),
        quarters_fit(area, canvas::bounds(*old(buf))),
    ensures
        canvas::bounds(*final(buf)) == canvas::bounds(*old(buf)),
        canvas::cells(*final(buf)) == compact_processor_drawn(
            canvas::cells(*old(buf)),
            canvas::bounds(*old(buf)),
            area,
            title@,
            *snapshot,
            *readouts,
            color,
        ),
        canvas::same_outside(canvas::cells(*old(buf)), canvas::cells(*final(buf)), area),
        area.lies_on(canvas::bounds(*old(buf))) && canvas::is_plain(title@) && words::are_plain(
            *readouts,
        ) ==> views::shows_loads(
            canvas::cells(*old(buf)),
            canvas::cells(*final(buf)),
            area,
            title@,
            *snapshot,
            *readouts,
            color,
        ),
        canvas::is_whole(*final(buf)),
{
    let ghost start = canvas::cells(*buf);
    panel_block(buf, area, title, color);
    let ghost framed = canvas::cells(*buf);
    let content: Rect = area::inner_area(area);
    let rows: [Rect; 2] = area::split_vertical_with_gap(content, 1);
    proof {
        area::law_vertical_split_fills(content, 1);
        area::law_horizontal_split_fills(rows@[0], 1);
        area::law_horizontal_split_fills(rows@[1], 1);
    }
    let top: [Rect; 2] = area::split_horizontal_with_gap(rows[0], 1);
    let label: String = load_label(
        "E-CPU Usage: ",
        snapshot.e_cluster_active,
        snapshot.e_cluster_freq_mhz,
    );
    meter::draw_segmented_meter(
        buf,
        top[0],
        snapshot.e_cluster_active,
        label.as_str(),
        color,
    );
    let ghost first = canvas::cells(*buf);
    let label: String = load_label(
        "P-CPU Usage: ",
        snapshot.p_cluster_active,
        snapshot.p_cluster_freq_mhz,
    );
    meter::draw_segmented_meter(
        buf,
        top[1],
        snapshot.p_cluster_active,
        label.as_str(),
        color,
    );
    let ghost second = canvas::cells(*buf);
    let bottom: [Rect; 2] = area::split_horizontal_with_gap(rows[1], 1);
    let label: String = load_label(
        "GPU Usage: ",
        snapshot.gpu.active_percent,
        snapshot.gpu.freq_mhz,
    );
    meter::draw_segmented_meter(
        buf,
        bottom[0],
        snapshot.gpu.active_percent,
        label.as_str(),
        color,
    );
    let ghost third = canvas::cells(*buf);
    let label: String = ane_label("ANE Usage: ", readouts);
    meter::draw_segmented_meter(
        buf,
        bottom[1],
        readouts.ane_percent,
        label.as_str(),
        color,
    );
    proof {
        canvas::lemma_changed_inside(start, framed, first, top@[0], area);
        canvas::lemma_changed_inside(start, first, second, top@[1], area);
        canvas::lemma_changed_inside(start, second, third, bottom@[0], area);
        canvas::lemma_changed_inside(start, third, canvas::cells(*buf), bottom@[1], area);
    }
    proof {
        if area.lies_on(canvas::bounds(*old(buf))) && canvas::is_plain(title@) && words::are_plain(
            *readouts,
        ) {
            views::law_loads_are_shown(
                canvas::cells(*old(buf)),
                canvas::bounds(*old(buf)),
                area,
                title@,
                *snapshot,
                *readouts,
                color,
            );
        }
    }
}

/// The parts of the panel of the processors where cores are shown one by one.
#[derive(Debug)]
pub struct ProcessorLayout {
    /// From the top: the efficiency cluster, its cores, the performance cluster, its cores, the
    /// bottom row, and a row that stays empty.
    pub rows: Vec<Rect>,
    pub e_rows: Vec<Rect>,
    pub p_rows: Vec<Rect>,
    /// The graphics and the neural engine on the bottom row.
    pub bottom: Vec<Rect>,
}

/// The rows that the panel of the processors asks for.
pub open spec fn processor_shares() -> Seq<Share> {
    seq![
        Share::Length(3),
        Share::Length(5),
        Share::Length(3),
        Share::Length(8),
        Share::Length(3),
        Share::Length(3),
    ]
}

impl ProcessorLayout {
    /// Whether these are the parts that the panel on `area` is divided into.
    pub open spec fn divides(self, area: Rect, e_count: nat, p_count: nat) -> bool {
        &&& area::divided(area, Axis::Vertical, 1, processor_shares(), self.rows@)
        &&& are_core_rows(self.e_rows@, self.rows@[1], e_count)
        &&& are_core_rows(self.p_rows@, self.rows@[3], p_count)
        &&& area::divided(self.rows@[4], Axis::Horizontal, 0, halves(), self.bottom@)
    }

    /// Whether every part lies inside `area` and there is a row for each core.
    pub open spec fn fits(self, area: Rect, e_count: nat, p_count: nat) -> bool {
        &&& self.rows@.len() == 6
        &&& self.e_rows@.len() == e_count
        &&& self.p_rows@.len() == p_count
        &&& self.bottom@.len() == 2
        &&& forall|i: int| 0 <= i < self.rows@.len() ==> (#[trigger] self.rows@[i]).inside(area)
        &&& forall|i: int|
            0 <= i < self.e_rows@.len() ==> (#[trigger] self.e_rows@[i]).inside(area)
        &&& forall|i: int|
            0 <= i < self.p_rows@.len() ==> (#[trigger] self.p_rows@[i]).inside(area)
        &&& forall|i: int|
            0 <= i < self.bottom@.len() ==> (#[trigger] self.bottom@[i]).inside(area)
    }
}

/// Divides an area into the parts of the panel of the processors.
pub fn layout_processor_panel(area: Rect, e_count: usize, p_count: usize) -> (r: ProcessorLayout)
    ensures
        r.divides(area, e_count as nat, p_count as nat),
        r.fits(area::framed(area), e_count as nat, p_count as nat),
{
    let shares: Vec<Share> = vec![
        Share::Length(3),
        Share::Length(5),
        Share::Length(3),
        Share::Length(8),
        Share::Length(3),
        Share::Length(3),
    ];
    assert(shares@ =~= processor_shares());
    let rows: Vec<Rect> = area::solve_layout(area, Axis::Vertical, 1, &shares);
    let e_rows: Vec<Rect> = layout_core_grid(rows[1], e_count);
    let p_rows: Vec<Rect> = layout_core_grid(rows[3], p_count);
    let sides: Vec<Share> = vec![Share::Percentage(50), Share::Percentage(50)];
    assert(sides@ =~= halves());
    let bottom: Vec<Rect> = area::solve_layout(rows[4], Axis::Horizontal, 0, &sides);
    proof {
        area::lemma_bands_inside(rows@, area, Axis::Vertical, 1, processor_shares());
        area::lemma_bands_inside(bottom@, rows@[4], Axis::Horizontal, 0, halves());
        lemma_core_rows_inside(e_rows@, rows@[1], e_count as nat);
        lemma_core_rows_inside(p_rows@, rows@[3], p_count as nat);
        assert(rows@[1].inside(area));
        assert(rows@[3].inside(area));
        assert(rows@[4].inside(area));
    }
    ProcessorLayout { rows, e_rows, p_rows, bottom }
}

/// What the panel of the processors leaves behind on its parts where cores are shown one by one.
pub open spec fn detailed_processor_drawn(
    before: Grid,
    bounds: Rect,
    area: Rect,
    title: Seq<char>,
    layout: ProcessorLayout,
    snapshot: Snapshot,
    readouts: Readouts,
    color: Color,
) -> Grid {
    let framed = panel_drawn(before, bounds, area, title, color);
    let first = framed_meter_drawn(
        framed,
        bounds,
        layout.rows@[0],
        "E-CPU Usage"@,
        snapshot.e_cluster_active,
        load_text(snapshot.e_cluster_active, snapshot.e_cluster_freq_mhz),
        color,
    );
    let second = core_grid_drawn(
        first,
        bounds,
        layout.e_rows@,
        snapshot.e_cores@,
        color,
        true,
        snapshot.e_cores@.len(),
    );
    let third = framed_meter_drawn(
        second,
        bounds,
        layout.rows@[2],
        "P-CPU Usage"@,
        snapshot.p_cluster_active,
        load_text(snapshot.p_cluster_active, snapshot.p_cluster_freq_mhz),
        color,
    );
    let fourth = core_grid_drawn(
        third,
        bounds,
        layout.p_rows@,
        snapshot.p_cores@,
        color,
        false,
        snapshot.p_cores@.len(),
    );
    let fifth = framed_meter_drawn(
        fourth,
        bounds,
        layout.bottom@[0],
        "GPU Usage"@,
        snapshot.gpu.active_percent,
        load_text(snapshot.gpu.active_percent, snapshot.gpu.freq_mhz),
        color,
    );
    framed_meter_drawn(
        fifth,
        bounds,
        layout.bottom@[1],
        "ANE"@,
        readouts.ane_percent,
        ane_text(readouts),
        color,
    )
}

/// Draws the panel of the processors on the given parts.
pub fn draw_detailed_processor(
    buf: &mut Buffer,
    area: Rect,
    title: &str,
    layout: &ProcessorLayout,
    snapshot: &Snapshot,
    readouts: &Readouts,
    color: Color,
)
    requires
        canvas::is_whole(*old(buf)),
        area::framed(area).inside(canvas::bounds(*old(buf))),
        layout.fits(area::framed(area), snapshot.e_cores@.len(), snapshot.p_cores@.len()),
        countable(snapshot.e_cores@),
        countable(snapshot.p_cores@),
    ensures
        canvas::bounds(*final(buf)) == canvas::bounds(*old(buf)),
        canvas::cells(*final(buf)) == detailed_processor_drawn(
            canvas::cells(*old(buf)),
            canvas::bounds(*old(buf)),
            area,
            title@,
            *layout,
            *snapshot,
            *readouts,
            color,
        ),
        canvas::same_outside(canvas::cells(*old(buf)), canvas::cells(*final(buf)), area),
        area.lies_on(canvas::bounds(*old(buf))) && canvas::is_plain(title@) && words::are_plain(
            *readouts,
        ) ==> views::shows_processor(
            canvas::cells(*old(buf)),
            canvas::cells(*final(buf)),
            area,
            title@,
            *layout,
            *snapshot,
            *readouts,
            color,
        ),
        canvas::is_whole(*final(buf)),
{
    let ghost start = canvas::cells(*buf);
    panel_block(buf, area, title, color);
    let ghost framed = canvas::cells(*buf);
    let label: String = load_label(
        "",
        snapshot.e_cluster_active,
        snapshot.e_cluster_freq_mhz,
    );
    proof {
        reveal_strlit("");
        assert(label@ =~= load_text(snapshot.e_cluster_active, snapshot.e_cluster_freq_mhz));
    }
    draw_framed_meter(
        buf,
        layout.rows[0],
        "E-CPU Usage",
        snapshot.e_cluster_active,
        label.as_str(),
        color,
    );
    let ghost first = canvas::cells(*buf);
    draw_core_grid(buf, &layout.e_rows, &snapshot.e_cores, color, true);
    let ghost second = canvas::cells(*buf);
    let label: String = load_label(
        "",
        snapshot.p_cluster_active,
        snapshot.p_cluster_freq_mhz,
    );
    assert(label@ =~= load_text(snapshot.p_cluster_active, snapshot.p_cluster_freq_mhz));
    draw_framed_meter(
        buf,
        layout.rows[2],
        "P-CPU Usage",
        snapshot.p_cluster_active,
        label.as_str(),
        color,
    );
    let ghost third = canvas::cells(*buf);
    draw_core_grid(buf, &layout.p_rows, &snapshot.p_cores, color, false);
    let ghost fourth = canvas::cells(*buf);
    let label: String = load_label("", snapshot.gpu.active_percent, snapshot.gpu.freq_mhz);
    assert(label@ =~= load_text(snapshot.gpu.active_percent, snapshot.gpu.freq_mhz));
    draw_framed_meter(
        buf,
        layout.bottom[0],
        "GPU Usage",
        snapshot.gpu.active_percent,
        label.as_str(),
        color,
    );
    let ghost fifth = canvas::cells(*buf);
    let label: String = ane_label("", readouts);
    assert(label@ =~= ane_text(*readouts));
    draw_framed_meter(
        buf,
        layout.bottom[1],
        "ANE",
        readouts.ane_percent,
        label.as_str(),
        color,
    );
    proof {
        canvas::lemma_changed_inside(start, framed, first, layout.rows@[0], area);
        canvas::lemma_changed_inside(start, first, second, area, area);
        canvas::lemma_changed_inside(start, second, third, layout.rows@[2], area);
        canvas::lemma_changed_inside(start, third, fourth, area, area);
        canvas::lemma_changed_inside(start, fourth, fifth, layout.bottom@[0], area);
        canvas::lemma_changed_inside(
            start,
            fifth,
            canvas::cells(*buf),
            layout.bottom@[1],
            area,
        );
    }
    proof {
        if area.lies_on(canvas::bounds(*old(buf))) && canvas::is_plain(title@) && words::are_plain(
            *readouts,
        ) {
            views::law_processor_is_shown(
                canvas::cells(*old(buf)),
                canvas::bounds(*old(buf)),
                area,
                title@,
                *layout,
                *snapshot,
                *readouts,
                color,
            );
        }
    }
}

/// Whether `after` is what the panel of the processors can leave behind.
pub open spec fn processor_shown(
    before: Grid,
    after: Grid,
    bounds: Rect,
    area: Rect,
    title: Seq<char>,
    snapshot: Snapshot,
    readouts: Readouts,
    color: Color,
    show_cores: bool,
) -> bool {
    if show_cores {
        exists|layout: ProcessorLayout|
            #![trigger layout.divides(area, snapshot.e_cores@.len(), snapshot.p_cores@.len())]
            layout.divides(area, snapshot.e_cores@.len(), snapshot.p_cores@.len()) && after
                == detailed_processor_drawn(
                before,
                bounds,
                area,
                title,
                layout,
                snapshot,
                readouts,
                color,
            )
    } else {
        after == compact_processor_drawn(before, bounds, area, title, snapshot, readouts, color)
    }
}

/// Draws the panel of the processors.
pub fn render_processor_panel(
    buf: &mut Buffer,
    area: Rect,
    title: &str,
    snapshot: &Snapshot,
    readouts: &Readouts,
    color: Color,
    show_cores: bool,
)
    requires
        canvas::is_whole(*old(buf)),
        show_cores ==> area::framed(area).inside(canvas::bounds(*old(buf))) && countable(
            snapshot.e_cores@,
        ) && countable(snapshot.p_cores@),
        !show_cores ==> quarters_fit(area, canvas::bounds(*old(buf))),
    ensures
        canvas::bounds(*final(buf)) == canvas::bounds(*old(buf)),
        processor_shown(
            canvas::cells(*old(buf)),
            canvas::cells(*final(buf)),
            canvas::bounds(*old(buf)),
            area,
            title@,
            *snapshot,
            *readouts,
            color,
            show_cores,
        ),
        canvas::same_outside(canvas::cells(*old(buf)), canvas::cells(*final(buf)), area),
        canvas::is_whole(*final(buf)),
{
    if show_cores {
        let layout: ProcessorLayout = layout_processor_panel(
            area,
            snapshot.e_cores.len(),
            snapshot.p_cores.len(),
        );
        draw_detailed_processor(buf, area, title, &layout, snapshot, readouts, color);
    } else {
        draw_compact_processor(buf, area, title, snapshot, readouts, color);
    }
}

/// The memory figures in words.
pub open spec fn memory_text(memory: MemorySnapshot, readouts: Readouts) -> Seq<char> {
    let usage = "RAM Usage: "@ + readouts.used_gb@ + "/"@ + readouts.total_gb@;
    if memory::swap_is_off(memory.swap_total) {
        usage + "GB - swap inactive"@
    } else {
        usage + "GB - swap:"@ + readouts.swap_used_gb@ + "/"@ + readouts.swap_total_gb@ + "GB"@
    }
}

/// Writes the memory figures in words.
pub fn memory_label(memory: &MemorySnapshot, readouts: &Readouts) -> (r: String)
    ensures
        r@ == memory_text(*memory, *readouts),
{
    let mut label: String = "RAM Usage: ".to_owned();
    label.append(readouts.used_gb.as_str());
    label.append("/");
    label.append(readouts.total_gb.as_str());
    if memory.swap_inactive() {
        label.append("GB - swap inactive");
    } else {
        label.append("GB - swap:");
        label.append(readouts.swap_used_gb.as_str());
        label.append("/");
        label.append(readouts.swap_total_gb.as_str());
        label.append("GB");
    }
    label
}

/// What the panel of the memory leaves behind.
pub open spec fn memory_panel_drawn(
    before: Grid,
    bounds: Rect,
    area: Rect,
    memory: MemorySnapshot,
    readouts: Readouts,
    color: Color,
) -> Grid {
    meter::meter_drawn(
        panel_drawn(before, bounds, area, "Memory"@, color),
        bounds,
        area::framed(area),
        area::shorter(memory.used_percent, 100),
        memory_text(memory, readouts),
        color,
    )
}

/// Draws the panel of the memory.
pub fn render_memory_panel(
    buf: &mut Buffer,
    area: Rect,
    memory: &MemorySnapshot,
    readouts: &Readouts,
    color: Color,
)
    requires
        canvas::is_whole(*old(buf)),
        meter::fits(
            area::framed(area),
            canvas::bounds(*old(buf)),
            memory_text(*memory, *readouts),
        ),
    ensures
        canvas::bounds(*final(buf)) == canvas::bounds(*old(buf)),
        canvas::cells(*final(buf)) == memory_panel_drawn(
            canvas::cells(*old(buf)),
            canvas::bounds(*old(buf)),
            area,
            *memory,
            *readouts,
            color,
        ),
        canvas::same_outside(canvas::cells(*old(buf)), canvas::cells(*final(buf)), area),
        area.lies_on(canvas::bounds(*old(buf))) && words::are_plain(*readouts)
            ==> views::shows_memory(
            canvas::cells(*old(buf)),
            canvas::cells(*final(buf)),
            area,
            *memory,
            *readouts,
            color,
        ),
        canvas::is_whole(*final(buf)),
{
    let label: String = memory_label(memory, readouts);
    panel_block(buf, area, "Memory", color);
    let ghost framed = canvas::cells(*buf);
    let content: Rect = area::inner_area(area);
    let percent: u16 = if memory.used_percent <= 100 {
        memory.used_percent
    } else {
        100
    };
    meter::draw_segmented_meter(buf, content, percent, label.as_str(), color);
    proof {
        canvas::lemma_changed_inside(
            canvas::cells(*old(buf)),
            framed,
            canvas::cells(*buf),
            content,
            area,
        );
    }
    proof {
        if area.lies_on(canvas::bounds(*old(buf))) && words::are_plain(*readouts) {
            views::law_memory_is_shown(
                canvas::cells(*old(buf)),
                canvas::bounds(*old(buf)),
                area,
                *memory,
                *readouts,
                color,
            );
        }
    }
}

/// Power with its average and its peak in words.
pub open spec fn power_text(power: PowerText) -> Seq<char> {
    power.now@ + "W (avg: "@ + power.average@ + "W peak: "@ + power.peak@ + "W)"@
}

/// Writes power with its average and its peak in words behind `before`.
pub fn power_label(before: &str, power: &PowerText) -> (r: String)
    ensures
        r@ == before@ + power_text(*power),
{
    let mut label: String = before.to_owned();
    label.append(power.now.as_str());
    label.append("W (avg: ");
    label.append(power.average.as_str());
    label.append("W peak: ");
    label.append(power.peak.as_str());
    label.append("W)");
    assert(label@ =~= before@ + power_text(*power));
    label
}

/// The title of the panel of the power. The machine counts as throttled unless its thermal
/// pressure is nominal.
pub open spec fn power_title(readouts: Readouts, thermal_pressure: Seq<char>) -> Seq<char> {
    "CPU+GPU+ANE Power: "@ + power_text(readouts.package) + " throttle: "@ + (if thermal_pressure
        == "Nominal"@ {
        "no"@
    } else {
        "yes"@
    })
}

/// What the panel of the power leaves behind: the histories of processor and graphics power side
/// by side.
pub open spec fn power_panel_drawn(
    before: Grid,
    bounds: Rect,
    area: Rect,
    thermal_pressure: Seq<char>,
    readouts: Readouts,
    cpu_history: Seq<u64>,
    gpu_history: Seq<u64>,
    color: Color,
) -> Grid {
    let content = area::framed(area);
    let framed = panel_drawn(before, bounds, area, power_title(readouts, thermal_pressure), color);
    let left = meter::history_drawn(
        framed,
        bounds,
        area::left_part(content, 1),
        "CPU: "@ + power_text(readouts.cpu),
        cpu_history,
        color,
    );
    meter::history_drawn(
        left,
        bounds,
        area::right_part(content, 1),
        "GPU: "@ + power_text(readouts.gpu),
        gpu_history,
        color,
    )
}

/// Whether the panel of the power can be drawn on `area`: its right half begins at a coordinate,
/// and a history can be drawn on each half.
pub open spec fn halves_fit(area: Rect, bounds: Rect) -> bool {
    let content = area::framed(area);
    &&& area::splits_across(content, 1)
    &&& meter::has_room(area::left_part(content, 1), bounds)
    &&& meter::has_room(area::right_part(content, 1), bounds)
}

/// Draws the panel of the power.
pub fn render_power_panel(
    buf: &mut Buffer,
    area: Rect,
    thermal_pressure: &str,
    readouts: &Readouts,
    cpu_history: &VecDeque<u64>,
    gpu_history: &VecDeque<u64>,
    color: Color,
)
    requires
        canvas::is_whole(*old(buf)),
        halves_fit(area, canvas::bounds(*old(buf))),
    ensures
        canvas::bounds(*final(buf)) == canvas::bounds(*old(buf)),
        canvas::cells(*final(buf)) == power_panel_drawn(
            canvas::cells(*old(buf)),
            canvas::bounds(*old(buf)),
            area,
            thermal_pressure@,
            *readouts,
            cpu_history@,
            gpu_history@,
            color,
        ),
        canvas::same_outside(canvas::cells(*old(buf)), canvas::cells(*final(buf)), area),
        area.lies_on(canvas::bounds(*old(buf))) && words::are_plain(*readouts)
            ==> views::shows_power(
            canvas::cells(*old(buf)),
            canvas::cells(*final(buf)),
            area,
            thermal_pressure@,
            *readouts,
            cpu_history@,
            gpu_history@,
            color,
        ),
        canvas::is_whole(*final(buf)),
{
    let ghost start = canvas::cells(*buf);
    let mut title: String = power_label("CPU+GPU+ANE Power: ", &readouts.package);
    title.append(" throttle: ");
    title.append(
        if text::same_text(thermal_pressure, "Nominal") {
            "no"
        } else {
            "yes"
        },
    );
    panel_block(buf, area, title.as_str(), color);
    let ghost framed = canvas::cells(*buf);
    let content: Rect = area::inner_area(area);
    proof {
        area::law_horizontal_split_fills(content, 1);
    }
    let sides: [Rect; 2] = area::split_horizontal_with_gap(content, 1);
    let label: String = power_label("CPU: ", &readouts.cpu);
    meter::draw_history_plot(buf, sides[0], label.as_str(), cpu_history, color);
    let ghost left = canvas::cells(*buf);
    let label: String = power_label("GPU: ", &readouts.gpu);
    meter::draw_history_plot(buf, sides[1], label.as_str(), gpu_history, color);
    proof {
        canvas::lemma_changed_inside(start, framed, left, sides@[0], area);
        canvas::lemma_changed_inside(start, left, canvas::cells(*buf), sides@[1], area);
    }
    proof {
        if area.lies_on(canvas::bounds(*old(buf))) && words::are_plain(*readouts) {
            views::law_power_is_shown(
                canvas::cells(*old(buf)),
                canvas::bounds(*old(buf)),
                area,
                thermal_pressure@,
                *readouts,
                cpu_history@,
                gpu_history@,
                color,
            );
        }
    }
}

/// The chip and its core counts in words.
pub open spec fn soc_text(soc: SocInfo) -> Seq<char> {
    soc.name@ + " (cores: "@ + text::numeral(soc.e_core_count as nat) + "E+"@ + text::numeral(
        soc.p_core_count as nat,
    ) + "P+"@ + text::numeral(soc.gpu_core_count as nat) + "GPU)"@
}

/// Writes the chip and its core counts in words.
pub fn soc_label(soc: &SocInfo) -> (r: String)
    ensures
        r@ == soc_text(*soc),
{
    let mut label: String = soc.name.as_str().to_owned();
    label.append(" (cores: ");
    label.append(text::decimal(soc.e_core_count as u64).as_str());
    label.append("E+");
    label.append(text::decimal(soc.p_core_count as u64).as_str());
    label.append("P+");
    label.append(text::decimal(soc.gpu_core_count as u64).as_str());
    label.append("GPU)");
    label
}

/// The shares of the processors, the memory and the power, from the top of the screen.
pub open spec fn row_shares() -> Seq<Share> {
    seq![Share::Percentage(34), Share::Percentage(22), Share::Percentage(44)]
}

/// What the screen shows on its rows where cores are not shown one by one.
pub open spec fn compact_screen_drawn(
    before: Grid,
    bounds: Rect,
    rows: Seq<Rect>,
    app: App,
    snapshot: Snapshot,
    readouts: Readouts,
) -> Grid {
    let color = canvas::palette(app.args.color);
    let first = compact_processor_drawn(
        before,
        bounds,
        rows[0],
        soc_text(app.soc),
        snapshot,
        readouts,
        color,
    );
    let second = memory_panel_drawn(first, bounds, rows[1], app.memory, readouts, color);
    power_panel_drawn(
        second,
        bounds,
        rows[2],
        snapshot.thermal_pressure@,
        readouts,
        app.cpu_history@,
        app.gpu_history@,
        color,
    )
}

/// The parts of the screen where cores are shown one by one.
pub struct ScreenLayout {
    /// The left and the right side.
    pub sides: Seq<Rect>,
    /// The processors and the power on the left side.
    pub left: Seq<Rect>,
    /// The memory and the cores on the right side.
    pub right: Seq<Rect>,
    pub processor: ProcessorLayout,
    pub cores: CoresLayout,
}

impl ScreenLayout {
    /// Whether these are the parts that the screen on `area` is divided into.
    pub open spec fn divides(self, area: Rect, e_count: nat, p_count: nat) -> bool {
        &&& area::divided(
            area,
            Axis::Horizontal,
            0,
            seq![Share::Percentage(58), Share::Percentage(42)],
            self.sides,
        )
        &&& area::divided(
            self.sides[0],
            Axis::Vertical,
            0,
            seq![Share::Length(22), Share::Min(8)],
            self.left,
        )
        &&& area::divided(
            self.sides[1],
            Axis::Vertical,
            0,
            seq![Share::Length(5), Share::Min(8)],
            self.right,
        )
        &&& self.processor.divides(self.left[0], e_count, p_count)
        &&& self.cores.divides(self.right[1], e_count, p_count)
    }
}

/// What the screen shows on its parts where cores are shown one by one.
pub open spec fn detailed_screen_drawn(
    before: Grid,
    bounds: Rect,
    layout: ScreenLayout,
    app: App,
    snapshot: Snapshot,
    readouts: Readouts,
) -> Grid {
    let color = canvas::palette(app.args.color);
    let first = detailed_processor_drawn(
        before,
        bounds,
        layout.left[0],
        soc_text(app.soc),
        layout.processor,
        snapshot,
        readouts,
        color,
    );
    let second = power_panel_drawn(
        first,
        bounds,
        layout.left[1],
        snapshot.thermal_pressure@,
        readouts,
        app.cpu_history@,
        app.gpu_history@,
        color,
    );
    let third = memory_panel_drawn(
        second,
        bounds,
        layout.right[0],
        app.memory,
        readouts,
        color,
    );
    cores_panel_drawn(third, bounds, layout.right[1], layout.cores, snapshot, color)
}

/// Whether `after` is what the screen can show of `app`.
pub open spec fn screen_shown(
    before: Grid,
    after: Grid,
    bounds: Rect,
    app: App,
    readouts: Readouts,
) -> bool {
    match app.last_snapshot {
        None => after == before,
        Some(snapshot) => if app.args.show_cores {
            exists|layout: ScreenLayout|
                #![trigger layout.divides(bounds, snapshot.e_cores@.len(), snapshot.p_cores@.len())]
                layout.divides(bounds, snapshot.e_cores@.len(), snapshot.p_cores@.len()) && after
                    == detailed_screen_drawn(before, bounds, layout, app, snapshot, readouts)
        } else {
            exists|rows: Seq<Rect>|
                #![trigger area::divided(bounds, Axis::Vertical, 0, row_shares(), rows)]
                area::divided(bounds, Axis::Vertical, 0, row_shares(), rows) && after
                    == compact_screen_drawn(before, bounds, rows, app, snapshot, readouts)
        },
    }
}

/// Every panel can be drawn on what lies on the bounds.
proof fn lemma_panels_fit(area: Rect, bounds: Rect, label: Seq<char>)
    requires
        area.lies_on(bounds),
        bounds.x + bounds.width <= u16::MAX,
        bounds.y + bounds.height <= u16::MAX,
    ensures
        area::framed(area).inside(bounds),
        meter::fits(area::framed(area), bounds, label),
        halves_fit(area, bounds),
        quarters_fit(area, bounds),
{
    let content = area::framed(area);
    let top = area::upper_part(content, 1);
    let bottom = area::lower_part(content, 1);
    meter::lemma_fits_inside(content, bounds, label);
    area::law_horizontal_split_fills(content, 1);
    meter::lemma_fits_inside(area::left_part(content, 1), bounds, label);
    meter::lemma_fits_inside(area::right_part(content, 1), bounds, label);
    area::law_vertical_split_fills(content, 1);
    area::law_horizontal_split_fills(top, 1);
    area::law_horizontal_split_fills(bottom, 1);
    meter::lemma_fits_inside(area::left_part(top, 1), bounds, label);
    meter::lemma_fits_inside(area::right_part(top, 1), bounds, label);
    meter::lemma_fits_inside(area::left_part(bottom, 1), bounds, label);
    meter::lemma_fits_inside(area::right_part(bottom, 1), bounds, label);
}

/// Draws the screen of a sample with its cores shown one by one.
fn draw_detailed_screen(
    buf: &mut Buffer,
    app: &App,
    snapshot: &Snapshot,
    readouts: &Readouts,
)
    requires
        canvas::is_whole(*old(buf)),
        countable(snapshot.e_cores@),
        countable(snapshot.p_cores@),
    ensures
        canvas::bounds(*final(buf)) == canvas::bounds(*old(buf)),
        exists|layout: ScreenLayout|
            #![trigger layout.divides(canvas::bounds(*old(buf)), snapshot.e_cores@.len(), snapshot.p_cores@.len())]
            layout.divides(
                canvas::bounds(*old(buf)),
                snapshot.e_cores@.len(),
                snapshot.p_cores@.len(),
            ) && canvas::cells(*final(buf)) == detailed_screen_drawn(
                canvas::cells(*old(buf)),
                canvas::bounds(*old(buf)),
                layout,
                *app,
                *snapshot,
                *readouts,
            ),
        canvas::is_whole(*final(buf)),
{
    let ghost start = canvas::cells(*buf);
    let color: Color = canvas::color_from_index(app.args.color);
    let title: String = soc_label(&app.soc);
    let screen: Rect = canvas::buffer_area(buf);
    let shares: Vec<Share> = vec![Share::Percentage(58), Share::Percentage(42)];
    assert(shares@ =~= seq![Share::Percentage(58), Share::Percentage(42)]);
    let sides: Vec<Rect> = area::solve_layout(screen, Axis::Horizontal, 0, &shares);
    let left_shares: Vec<Share> = vec![Share::Length(22), Share::Min(8)];
    assert(left_shares@ =~= seq![Share::Length(22), Share::Min(8)]);
    let left: Vec<Rect> = area::solve_layout(sides[0], Axis::Vertical, 0, &left_shares);
    let right_shares: Vec<Share> = vec![Share::Length(5), Share::Min(8)];
    assert(right_shares@ =~= seq![Share::Length(5), Share::Min(8)]);
    let right: Vec<Rect> = area::solve_layout(sides[1], Axis::Vertical, 0, &right_shares);
    proof {
        area::lemma_bands_inside(sides@, screen, Axis::Horizontal, 0, shares@);
        assert(sides@[0].lies_on(screen));
        assert(sides@[1].lies_on(screen));
        area::lemma_bands_inside(left@, sides@[0], Axis::Vertical, 0, left_shares@);
        area::lemma_bands_inside(right@, sides@[1], Axis::Vertical, 0, right_shares@);
        let words = memory_text(app.memory, *readouts);
        assert(left@[0].lies_on(screen));
        assert(left@[1].lies_on(screen));
        assert(right@[0].lies_on(screen));
        assert(right@[1].lies_on(screen));
        lemma_panels_fit(left@[0], screen, words);
        lemma_panels_fit(left@[1], screen, words);
        lemma_panels_fit(right@[0], screen, words);
        lemma_panels_fit(right@[1], screen, words);
    }
    render_processor_panel(buf, left[0], title.as_str(), snapshot, readouts, color, true);
    let ghost first = canvas::cells(*buf);
    render_power_panel(
        buf,
        left[1],
        snapshot.thermal_pressure.as_str(),
        readouts,
        &app.cpu_history,
        &app.gpu_history,
        color,
    );
    render_memory_panel(buf, right[0], &app.memory, readouts, color);
    let ghost third = canvas::cells(*buf);
    render_cores_panel(buf, right[1], snapshot, color);
    proof {
        let e_count = snapshot.e_cores@.len();
        let p_count = snapshot.p_cores@.len();
        let processor = choose|layout: ProcessorLayout|
            #![trigger layout.divides(left@[0], e_count, p_count)]
            layout.divides(left@[0], e_count, p_count) && first == detailed_processor_drawn(
                start,
                screen,
                left@[0],
                soc_text(app.soc),
                layout,
                *snapshot,
                *readouts,
                color,
            );
        let cores = choose|layout: CoresLayout|
            #![trigger layout.divides(right@[1], e_count, p_count)]
            layout.divides(right@[1], e_count, p_count) && canvas::cells(*buf)
                == cores_panel_drawn(third, screen, right@[1], layout, *snapshot, color);
        let layout = ScreenLayout { sides: sides@, left: left@, right: right@, processor, cores };
        assert(layout.divides(screen, e_count, p_count));
    }
}

/// Draws the screen of a sample without its cores.
fn draw_compact_screen(
    buf: &mut Buffer,
    app: &App,
    snapshot: &Snapshot,
    readouts: &Readouts,
)
    requires
        canvas::is_whole(*old(buf)),
    ensures
        canvas::bounds(*final(buf)) == canvas::bounds(*old(buf)),
        exists|rows: Seq<Rect>|
            #![trigger area::divided(canvas::bounds(*old(buf)), Axis::Vertical, 0, row_shares(), rows)]
            area::divided(canvas::bounds(*old(buf)), Axis::Vertical, 0, row_shares(), rows)
                && canvas::cells(*final(buf)) == compact_screen_drawn(
                canvas::cells(*old(buf)),
                canvas::bounds(*old(buf)),
                rows,
                *app,
                *snapshot,
                *readouts,
            ),
        canvas::is_whole(*final(buf)),
{
    let color: Color = canvas::color_from_index(app.args.color);
    let title: String = soc_label(&app.soc);
    let screen: Rect = canvas::buffer_area(buf);
    let shares: Vec<Share> = vec![
        Share::Percentage(34),
        Share::Percentage(22),
        Share::Percentage(44),
    ];
    assert(shares@ =~= row_shares());
    let rows: Vec<Rect> = area::solve_layout(screen, Axis::Vertical, 0, &shares);
    proof {
        let words = memory_text(app.memory, *readouts);
        area::lemma_bands_inside(rows@, screen, Axis::Vertical, 0, row_shares());
        assert(rows@[0].lies_on(screen));
        assert(rows@[1].lies_on(screen));
        assert(rows@[2].lies_on(screen));
        lemma_panels_fit(rows@[0], screen, words);
        lemma_panels_fit(rows@[1], screen, words);
        lemma_panels_fit(rows@[2], screen, words);
    }
    render_processor_panel(buf, rows[0], title.as_str(), snapshot, readouts, color, false);
    render_memory_panel(buf, rows[1], &app.memory, readouts, color);
    render_power_panel(
        buf,
        rows[2],
        snapshot.thermal_pressure.as_str(),
        readouts,
        &app.cpu_history,
        &app.gpu_history,
        color,
    );
    assert(area::divided(screen, Axis::Vertical, 0, row_shares(), rows@));
}

/// Draws the screen; nothing before the first sample.
pub fn draw_ui(buf: &mut Buffer, app: &App, readouts: &Readouts)
    requires
        can_draw(*old(buf), *app),
    ensures
        canvas::bounds(*final(buf)) == canvas::bounds(*old(buf)),
        screen_shown(
            canvas::cells(*old(buf)),
            canvas::cells(*final(buf)),
            canvas::bounds(*old(buf)),
            *app,
            *readouts,
        ),
        canvas::is_plain(app.soc.name@) && words::are_plain(*readouts) ==> overview::shows_state(
            canvas::cells(*old(buf)),
            canvas::cells(*final(buf)),
            canvas::bounds(*old(buf)),
            *app,
            *readouts,
        ),
        canvas::is_whole(*final(buf)),
{
    if let Some(snapshot) = &app.last_snapshot {
        if app.args.show_cores {
            draw_detailed_screen(buf, app, snapshot, readouts);
        } else {
            draw_compact_screen(buf, app, snapshot, readouts);
        }
    }
    proof {
        if canvas::is_plain(app.soc.name@) && words::are_plain(*readouts) {
            overview::law_screen_shows_state(
                canvas::cells(*old(buf)),
                canvas::cells(*buf),
                canvas::bounds(*old(buf)),
                *app,
                *readouts,
            );
        }
    }
}

/// Tells whether the numbers of the cores can be counted from one.
pub fn are_countable(cores: &Vec<CoreMetric>) -> (r: bool)
    ensures
        r == countable(cores@),
{
    let mut i: usize = 0;
    while i < cores.len()
        invariant
            i <= cores@.len(),
            forall|k: int| 0 <= k < i ==> (#[trigger] cores@[k]).cpu < usize::MAX,
        decreases cores.len() - i,
    {
        if cores[i].cpu == usize::MAX {
            return false;
        }
        i = i + 1;
    }
    true
}

/// Whether the screen can be drawn: the buffer is whole, and the cores that are shown one by one
/// can be counted from one.
pub open spec fn can_draw(buf: Buffer, app: App) -> bool {
    canvas::is_whole(buf) && (app.args.show_cores ==> (app.last_snapshot matches Some(snapshot)
        ==> countable(snapshot.e_cores@) && countable(snapshot.p_cores@)))
}

/// Draws the screen where it can be drawn and tells whether it could.
pub fn try_draw_ui(buf: &mut Buffer, app: &App, readouts: &Readouts) -> (r: bool)
    ensures
        r == can_draw(*old(buf), *app),
        r ==> canvas::bounds(*final(buf)) == canvas::bounds(*old(buf)) && screen_shown(
            canvas::cells(*old(buf)),
            canvas::cells(*final(buf)),
            canvas::bounds(*old(buf)),
            *app,
            *readouts,
        ),
        !r ==> *final(buf) == *old(buf),
{
    if !canvas::is_drawable(buf) {
        return false;
    }
    if app.args.show_cores {
        if let Some(snapshot) = &app.last_snapshot {
            if !are_countable(&snapshot.e_cores) || !are_countable(&snapshot.p_cores) {
                return false;
            }
        }
    }
    draw_ui(buf, app, readouts);
    true
}

} // verus!
