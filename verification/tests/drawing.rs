use asitop::area::{inner_area, split_horizontal_with_gap, split_vertical_with_gap, Rect};
use asitop::canvas::{color_from_index, is_drawable, Color};
use asitop::memory::{read_memory_snapshot, MemorySnapshot};
use asitop::meter::{draw_history_plot, draw_segmented_meter};
use asitop::screen::{
    ane_label, are_countable, core_label, draw_cores_panel, draw_detailed_processor, draw_ui,
    layout_cores_panel, layout_processor_panel, load_label, memory_label, panel_block,
    power_label, render_core_grid, render_cores_panel, render_memory_panel, render_power_panel,
    render_processor_panel, soc_label, try_draw_ui, CoresLayout, PowerText, ProcessorLayout, Readouts,
};
use asitop::snapshot::{ClusterFigures, CoreFigures, CoreMetric, GpuFigures, PowerMetric, Snapshot};
use asitop::soc::read_soc_info;
use asitop::state::{App, Args, Sample};
use asitop::watts::Watts;
use ratatui::buffer::Buffer;
use ratatui::style::{Color as Hue, Modifier};
use std::collections::VecDeque;

fn canvas(width: u16, height: u16) -> Buffer {
    Buffer::empty(ratatui::layout::Rect { x: 0, y: 0, width, height })
}

fn rect(x: u16, y: u16, width: u16, height: u16) -> Rect {
    Rect { x, y, width, height }
}

fn row(buf: &Buffer, y: u16) -> String {
    (buf.area.x..buf.area.x + buf.area.width).map(|x| buf[(x, y)].symbol().to_string()).collect()
}

fn screen(buf: &Buffer) -> String {
    (0..buf.area.height).map(|y| row(buf, y) + "\n").collect()
}

fn cores(range: std::ops::Range<usize>) -> Vec<CoreMetric> {
    range.map(|cpu| CoreMetric { cpu, active_percent: 50, freq_mhz: 1234 }).collect()
}

fn figures(range: std::ops::Range<usize>) -> Vec<CoreFigures> {
    range.map(|cpu| CoreFigures { cpu, active: Some(50), freq_mhz: 1234 }).collect()
}

fn snapshot(e: std::ops::Range<usize>, p: std::ops::Range<usize>, pressure: &str) -> Snapshot {
    Snapshot::assemble(
        "t".to_string(),
        pressure.to_string(),
        &vec![
            ClusterFigures {
                name: "E-Cluster".to_string(),
                active: Some(25),
                freq_mhz: 972,
                cores: figures(e),
            },
            ClusterFigures {
                name: "P-Cluster".to_string(),
                active: Some(75),
                freq_mhz: 3204,
                cores: figures(p),
            },
        ],
        GpuFigures { active: Some(33), freq_mhz: 396 },
        PowerMetric {
            ane_watts: Watts { bits: 0 },
            cpu_watts: Watts { bits: 0 },
            gpu_watts: Watts { bits: 0 },
            package_watts: Watts { bits: 0 },
        },
    )
}

fn power(name: &str) -> PowerText {
    PowerText {
        now: format!("{}1", name),
        average: format!("{}2", name),
        peak: format!("{}3", name),
    }
}

fn readouts() -> Readouts {
    Readouts {
        ane_percent: 50,
        ane_watts: "4.0".to_string(),
        used_gb: "7.5".to_string(),
        total_gb: "16.0".to_string(),
        swap_used_gb: "0.5".to_string(),
        swap_total_gb: "2.0".to_string(),
        package: power("p"),
        cpu: power("c"),
        gpu: power("g"),
    }
}

fn app(show_cores: bool, snapshot: Option<Snapshot>) -> App {
    let args = Args { interval: 1, color: 3, avg: 30, show_cores, max_count: 0 };
    let soc = read_soc_info(
        "Apple M1 Pro",
        Some("2"),
        Some("8"),
        Some("Total Number of Cores: 16"),
    );
    let mut app = App::new(args, soc);
    if let Some(snapshot) = snapshot {
        app.apply_snapshot(Sample {
            snapshot,
            memory: read_memory_snapshot(16 << 30, 8 << 30, 2 << 30, 1 << 29),
            cpu_share: 10,
            gpu_share: 20,
        });
    }
    app
}

#[test]
fn the_palette_has_nine_colors() {
    let hues = [
        Hue::White,
        Hue::Red,
        Hue::Green,
        Hue::Yellow,
        Hue::Blue,
        Hue::Magenta,
        Hue::Cyan,
        Hue::Gray,
        Hue::DarkGray,
        Hue::Green,
    ];
    for (index, hue) in hues.iter().enumerate() {
        let color = color_from_index(index as u8);
        let mut buf = canvas(4, 3);
        draw_segmented_meter(&mut buf, rect(0, 0, 4, 2), 100, "ab", color);
        assert_eq!(buf[(0, 0)].fg, *hue);
        assert_eq!(buf[(0, 1)].bg, *hue);
        assert_eq!(buf[(1, 1)].fg, *hue);
        let mut framed = canvas(4, 3);
        panel_block(&mut framed, rect(0, 0, 4, 3), "x", color);
        assert_eq!(framed[(0, 0)].fg, *hue);
        assert_eq!(framed[(1, 0)].fg, *hue);
    }
    assert_eq!(color_from_index(255), Color::Green);
}

#[test]
fn areas_inside_a_frame() {
    assert_eq!(inner_area(rect(2, 3, 10, 6)), rect(3, 4, 8, 4));
    assert_eq!(inner_area(rect(0, 0, 1, 2)), rect(1, 1, 0, 0));
    assert_eq!(inner_area(rect(65535, 65535, 0, 9)), rect(65535, 65535, 0, 7));
}

#[test]
fn areas_divided_with_a_gap() {
    assert_eq!(
        split_horizontal_with_gap(rect(5, 6, 10, 3), 1),
        [rect(5, 6, 4, 3), rect(10, 6, 5, 3)]
    );
    assert_eq!(
        split_vertical_with_gap(rect(5, 6, 3, 9), 1),
        [rect(5, 6, 3, 4), rect(5, 11, 3, 4)]
    );
    assert_eq!(
        split_horizontal_with_gap(rect(0, 0, 2, 1), 9),
        [rect(0, 0, 0, 1), rect(2, 0, 0, 1)]
    );
    assert_eq!(
        split_vertical_with_gap(rect(0, 0, 2, 0), 1),
        [rect(0, 0, 2, 0), rect(0, 0, 2, 0)]
    );
}

#[test]
fn a_meter_fills_every_other_column() {
    let mut buf = canvas(10, 4);
    draw_segmented_meter(&mut buf, rect(1, 0, 8, 3), 50, "CPU usage is long", Color::Red);
    assert_eq!(row(&buf, 0), " CPU usag ");
    for x in 1..9_u16 {
        let cell = &buf[(x, 0)];
        assert_eq!(cell.fg, Hue::Red);
        assert!(cell.modifier.contains(Modifier::BOLD));
    }
    for y in 1..3_u16 {
        assert_eq!(row(&buf, y), "  ▏ ▏▏▏▏▏ ");
        assert_eq!(buf[(1, y)].bg, Hue::Red);
        assert_eq!(buf[(3, y)].bg, Hue::Red);
        assert_eq!(buf[(2, y)].bg, Hue::Reset);
        assert_eq!(buf[(2, y)].fg, Hue::Red);
        assert_eq!(buf[(5, y)].fg, Hue::Red);
        assert_eq!(buf[(5, y)].bg, Hue::Reset);
        assert!(!buf[(5, y)].modifier.contains(Modifier::BOLD));
    }
    assert_eq!(row(&buf, 3), "          ");
}

#[test]
fn a_meter_at_its_limits() {
    let mut empty = canvas(5, 2);
    draw_segmented_meter(&mut empty, rect(0, 0, 5, 2), 0, "", Color::Blue);
    assert_eq!(row(&empty, 1), "▏▏▏▏▏");
    let mut full = canvas(5, 2);
    draw_segmented_meter(&mut full, rect(0, 0, 5, 2), 100, "", Color::Blue);
    assert_eq!(row(&full, 1), " ▏ ▏ ");
    let mut over = canvas(5, 2);
    draw_segmented_meter(&mut over, rect(0, 0, 5, 2), 60000, "", Color::Blue);
    assert_eq!(over, full);
    let mut none = canvas(5, 2);
    draw_segmented_meter(&mut none, rect(9, 9, 0, 2), 50, "label", Color::Blue);
    draw_segmented_meter(&mut none, rect(0, 0, 3, 0), 50, "label", Color::Blue);
    assert_eq!(none, canvas(5, 2));
    let mut label_only = canvas(5, 2);
    draw_segmented_meter(&mut label_only, rect(0, 0, 5, 1), 50, "label", Color::Blue);
    assert_eq!(row(&label_only, 0), "label");
    assert_eq!(row(&label_only, 1), "     ");
}

#[test]
fn wide_characters_of_a_label_stay_inside() {
    let mut buf = canvas(6, 1);
    draw_segmented_meter(&mut buf, rect(0, 0, 3, 1), 50, "日本", Color::Blue);
    assert_eq!(buf[(0, 0)].symbol(), "日");
    assert_eq!(buf[(2, 0)].symbol(), " ");
    assert_eq!(buf[(3, 0)].symbol(), " ");
}

#[test]
fn a_history_plot_rises_with_its_values() {
    let mut buf = canvas(4, 6);
    let data: VecDeque<u64> = VecDeque::from(vec![0, 25, 50, 100]);
    draw_history_plot(&mut buf, rect(0, 1, 4, 5), "GPU", &data, Color::Cyan);
    assert_eq!(row(&buf, 1), "GPU ");
    let filled: Vec<u16> = (0..4)
        .map(|x| (2..6).filter(|y| buf[(x, *y)].bg == Hue::Cyan).count() as u16)
        .collect();
    assert_eq!(filled, vec![0, 1, 2, 4]);
    assert_eq!(buf[(1, 5)].bg, Hue::Cyan);
    assert_eq!(buf[(1, 4)].bg, Hue::Reset);
}

#[test]
fn history_heights_agree_with_single_precision() {
    let values: Vec<u64> = vec![3, 7, 16_777_217, u64::MAX, u64::MAX / 3, 12_345_678_901, 0];
    for height in [1_u16, 2, 7, 30] {
        for top in [1_usize, 2, 3, 4, 7] {
            let shown: Vec<u64> = values[..top].to_vec();
            let max = (*shown.iter().max().unwrap()).max(1);
            let mut buf = canvas(top as u16, height + 1);
            let data: VecDeque<u64> = VecDeque::from(shown.clone());
            draw_history_plot(&mut buf, rect(0, 0, top as u16, height + 1), "", &data, Color::Red);
            for (x, value) in shown.iter().enumerate() {
                let expected = ((*value as f32 / max as f32) * height as f32).round() as usize;
                let filled = (1..height + 1).filter(|y| buf[(x as u16, *y)].bg == Hue::Red).count();
                assert_eq!(filled, expected);
            }
        }
    }
}

#[test]
fn a_history_is_spread_over_the_columns() {
    let mut buf = canvas(6, 2);
    let data: VecDeque<u64> = VecDeque::from(vec![0, 1, 0]);
    draw_history_plot(&mut buf, rect(0, 0, 6, 2), "", &data, Color::Red);
    let filled: Vec<bool> = (0..6).map(|x| buf[(x, 1)].bg == Hue::Red).collect();
    assert_eq!(filled, vec![false, false, true, true, false, false]);
    let mut narrow = canvas(2, 2);
    let long: VecDeque<u64> = VecDeque::from(vec![0, 0, 1, 0]);
    draw_history_plot(&mut narrow, rect(0, 0, 2, 2), "", &long, Color::Red);
    assert_eq!(narrow[(0, 1)].bg, Hue::Reset);
    assert_eq!(narrow[(1, 1)].bg, Hue::Red);
}

#[test]
fn a_history_of_nothing_is_flat() {
    let mut buf = canvas(3, 3);
    draw_history_plot(&mut buf, rect(0, 0, 3, 3), "x", &VecDeque::new(), Color::Red);
    assert_eq!(screen(&buf), "x  \n   \n   \n");
    assert!((0..3).all(|x| (1..3).all(|y| buf[(x, y)].bg == Hue::Reset)));
    let mut none = canvas(3, 3);
    draw_history_plot(&mut none, rect(0, 0, 0, 3), "x", &VecDeque::from(vec![1]), Color::Red);
    assert_eq!(none, canvas(3, 3));
}

#[test]
fn labels_are_put_in_words() {
    assert_eq!(load_label("CPU: ", 7, 3204), "CPU: 7% @ 3204 MHz");
    assert_eq!(ane_label("", &readouts()), "50% @ 4.0 W");
    assert_eq!(power_label("CPU: ", &power("c")), "CPU: c1W (avg: c2W peak: c3W)");
    let soc = read_soc_info("Apple M2\n", Some("4"), Some("4"), None);
    assert_eq!(soc_label(&soc), "Apple M2 (cores: 4E+4P+0GPU)");
    let core = CoreMetric { cpu: 4, active_percent: 12, freq_mhz: 600 };
    assert_eq!(core_label(&core, true, 8), "Core-5 12% @ 600 MHz");
    assert_eq!(core_label(&core, false, 5), "Core-5 12% @ 600 MHz");
    assert_eq!(core_label(&core, false, 6), "C-5 12% @ 600 MHz");
}

#[test]
fn memory_in_words() {
    let swapping = read_memory_snapshot(16 << 30, 8 << 30, 2 << 30, 1 << 29);
    assert_eq!(
        memory_label(&swapping, &readouts()),
        "RAM Usage: 7.5/16.0GB - swap:0.5/2.0GB"
    );
    let still = read_memory_snapshot(16 << 30, 8 << 30, 0, 0);
    assert_eq!(memory_label(&still, &readouts()), "RAM Usage: 7.5/16.0GB - swap inactive");
}

#[test]
fn a_panel_has_a_frame_and_a_bold_title() {
    let mut buf = canvas(8, 3);
    panel_block(&mut buf, rect(0, 0, 8, 3), "CPU", Color::Red);
    assert_eq!(screen(&buf), "┌CPU───┐\n│      │\n└──────┘\n");
    assert_eq!(buf[(0, 0)].fg, Hue::Red);
    assert!(!buf[(0, 0)].modifier.contains(Modifier::BOLD));
    assert_eq!(buf[(1, 0)].fg, Hue::Red);
    assert!(buf[(1, 0)].modifier.contains(Modifier::BOLD));
    let mut beyond = canvas(4, 3);
    panel_block(&mut beyond, rect(60000, 60000, 9, 9), "CPU", Color::Red);
    assert_eq!(beyond, canvas(4, 3));
}

#[test]
fn the_memory_panel_shows_a_meter() {
    let mut buf = canvas(42, 5);
    let memory = MemorySnapshot {
        used_percent: 250,
        ..read_memory_snapshot(16 << 30, 8 << 30, 0, 0)
    };
    render_memory_panel(&mut buf, rect(0, 0, 42, 5), &memory, &readouts(), Color::Blue);
    assert!(row(&buf, 0).starts_with("┌Memory──"));
    assert!(row(&buf, 1).starts_with("│RAM Usage: 7.5/16.0GB - swap inactive"));
    assert_eq!(buf[(1, 2)].bg, Hue::Blue);
    assert_eq!(buf[(39, 3)].bg, Hue::Blue);
    assert_eq!(buf[(40, 3)].bg, Hue::Reset);
}

#[test]
fn the_power_panel_shows_both_histories() {
    let mut buf = canvas(73, 6);
    let cpu: VecDeque<u64> = VecDeque::from(vec![5, 10]);
    let gpu: VecDeque<u64> = VecDeque::from(vec![0]);
    render_power_panel(
        &mut buf,
        rect(0, 0, 73, 6),
        "Nominal",
        &readouts(),
        &cpu,
        &gpu,
        Color::Red,
    );
    assert!(row(&buf, 0)
        .starts_with("┌CPU+GPU+ANE Power: p1W (avg: p2W peak: p3W) throttle: no─"));
    assert_eq!(&row(&buf, 1)[3..32], "CPU: c1W (avg: c2W peak: c3W)");
    assert!(row(&buf, 1).contains(" GPU: g1W (avg: g2W peak: g3W)"));
    assert_eq!(buf[(36, 1)].symbol(), " ");
    assert_eq!(buf[(37, 1)].symbol(), "G");
    assert_eq!(buf[(35, 2)].bg, Hue::Red);
    assert_eq!(buf[(1, 2)].bg, Hue::Reset);
    assert_eq!(buf[(1, 4)].bg, Hue::Red);
    assert_eq!(buf[(40, 4)].bg, Hue::Reset);
    let mut hot = canvas(73, 6);
    render_power_panel(
        &mut hot,
        rect(0, 0, 73, 6),
        "Heavy",
        &readouts(),
        &cpu,
        &gpu,
        Color::Red,
    );
    assert!(row(&hot, 0).contains("throttle: yes"));
}

#[test]
fn the_compact_processor_panel_has_four_meters() {
    let mut buf = canvas(83, 8);
    let sample = snapshot(0..1, 1..2, "Nominal");
    render_processor_panel(
        &mut buf,
        rect(0, 0, 83, 8),
        "Chip",
        &sample,
        &readouts(),
        Color::Green,
        false,
    );
    assert!(row(&buf, 0).starts_with("┌Chip──"));
    assert!(row(&buf, 1).starts_with("│E-CPU Usage: 25% @ 972 MHz "));
    assert!(row(&buf, 1).contains(" P-CPU Usage: 75% @ 3204 MHz "));
    assert!(row(&buf, 4).starts_with("│GPU Usage: 33% @ 396 MHz "));
    assert!(row(&buf, 4).contains(" ANE Usage: 50% @ 4.0 W "));
    assert_eq!(buf[(42, 1)].symbol(), "P");
    assert_eq!(buf[(1, 2)].bg, Hue::Green);
    assert_eq!(buf[(9, 2)].bg, Hue::Green);
    assert_eq!(buf[(11, 2)].bg, Hue::Reset);
}

#[test]
fn a_core_grid_gives_each_core_a_meter() {
    let mut buf = canvas(30, 9);
    render_core_grid(&mut buf, rect(0, 0, 30, 9), &cores(0..3), Color::Green, true);
    assert!(row(&buf, 0).starts_with("┌──"));
    assert!(row(&buf, 1).starts_with("│Core-1 50% @ 1234 MHz"));
    assert!(row(&buf, 4).starts_with("│Core-2 50% @ 1234 MHz"));
    assert!(row(&buf, 7).starts_with("│Core-3 50% @ 1234 MHz"));
    let mut none = canvas(30, 9);
    render_core_grid(&mut none, rect(0, 0, 30, 9), &Vec::new(), Color::Green, true);
    assert_eq!(none, canvas(30, 9));
    let mut many = canvas(30, 24);
    render_core_grid(&mut many, rect(0, 0, 30, 24), &cores(0..8), Color::Green, false);
    assert!(row(&many, 22).starts_with("│C-8 50% @ 1234 MHz"));
}

#[test]
fn the_cores_panel_has_a_column_for_each_kind() {
    let sample = snapshot(0..2, 2..4, "Nominal");
    let mut buf = canvas(62, 8);
    render_cores_panel(&mut buf, rect(0, 0, 62, 8), &sample, Color::Green);
    assert!(row(&buf, 0).starts_with("┌Cores──"));
    assert!(row(&buf, 2).contains("│Core-1 50% @ 1234 MHz"));
    assert!(row(&buf, 2).contains("│Core-3 50% @ 1234 MHz"));
    assert!(row(&buf, 5).contains("│Core-2 50% @ 1234 MHz"));
    let layout = layout_cores_panel(rect(0, 0, 62, 8), 2, 2);
    let mut again = canvas(62, 8);
    draw_cores_panel(&mut again, rect(0, 0, 62, 8), &layout, &sample, Color::Green);
    assert_eq!(again, buf);
}

#[test]
fn cores_are_drawn_on_given_rows() {
    let sample = snapshot(0..1, 1..2, "Nominal");
    let layout = CoresLayout {
        columns: Vec::new(),
        e_rows: vec![rect(1, 1, 26, 3)],
        p_rows: vec![rect(1, 4, 26, 3)],
    };
    let mut buf = canvas(28, 8);
    draw_cores_panel(&mut buf, rect(0, 0, 28, 8), &layout, &sample, Color::Green);
    assert_eq!(row(&buf, 2), "││Core-1 50% @ 1234 MHz   ││");
    assert_eq!(row(&buf, 5), "││Core-2 50% @ 1234 MHz   ││");
}

#[test]
fn layouts_lie_inside_their_area() {
    let inside = |part: &Rect, area: &Rect| {
        part.width == 0
            || part.height == 0
            || (part.x >= area.x
                && part.y >= area.y
                && part.x + part.width <= area.x + area.width
                && part.y + part.height <= area.y + area.height)
    };
    for (width, height) in [(80, 30), (5, 4), (1, 1), (0, 0), (200, 3)] {
        let area = rect(3, 2, width, height);
        let layout = layout_processor_panel(area, 4, 6);
        assert_eq!(layout.rows.len(), 6);
        assert_eq!(layout.e_rows.len(), 4);
        assert_eq!(layout.p_rows.len(), 6);
        assert_eq!(layout.bottom.len(), 2);
        assert!(layout.rows.iter().all(|part| inside(part, &area)));
        assert!(layout.e_rows.iter().all(|part| inside(part, &layout.rows[1])));
        assert!(layout.p_rows.iter().all(|part| inside(part, &layout.rows[3])));
        assert!(layout.bottom.iter().all(|part| inside(part, &layout.rows[4])));
    }
    let roomy = layout_processor_panel(rect(0, 0, 80, 40), 1, 0);
    assert_eq!(roomy.rows[0], rect(1, 1, 78, 3));
    assert_eq!(roomy.rows[1], rect(1, 4, 78, 5));
    assert_eq!(roomy.rows[2], rect(1, 9, 78, 3));
    assert_eq!(roomy.p_rows.len(), 0);
}

#[test]
fn the_detailed_processor_panel_on_given_parts() {
    let sample = snapshot(0..1, 1..2, "Nominal");
    let layout = ProcessorLayout {
        rows: vec![
            rect(0, 1, 40, 3),
            rect(0, 4, 40, 3),
            rect(0, 7, 40, 3),
            rect(0, 10, 40, 3),
            rect(0, 13, 40, 3),
            rect(0, 16, 40, 3),
        ],
        e_rows: vec![rect(0, 4, 40, 3)],
        p_rows: vec![rect(0, 10, 40, 3)],
        bottom: vec![rect(0, 13, 20, 3), rect(20, 13, 20, 3)],
    };
    let mut buf = canvas(40, 20);
    draw_detailed_processor(
        &mut buf,
        rect(0, 0, 40, 20),
        "Chip",
        &layout,
        &sample,
        &readouts(),
        Color::Green,
    );
    assert!(row(&buf, 0).starts_with("┌Chip──"));
    assert!(row(&buf, 1).starts_with("┌E-CPU Usage──"));
    assert!(row(&buf, 2).starts_with("│25% @ 972 MHz "));
    assert!(row(&buf, 5).starts_with("│Core-1 50% @ 1234 MHz"));
    assert!(row(&buf, 7).starts_with("┌P-CPU Usage──"));
    assert!(row(&buf, 8).starts_with("│75% @ 3204 MHz "));
    assert!(row(&buf, 11).starts_with("│Core-2 50% @ 1234 MHz"));
    assert_eq!(row(&buf, 13), "┌GPU Usage─────────┐┌ANE───────────────┐");
    assert_eq!(row(&buf, 14), "│33% @ 396 MHz     ││50% @ 4.0 W       │");
}

#[test]
fn nothing_is_drawn_before_the_first_sample() {
    let mut buf = canvas(80, 30);
    draw_ui(&mut buf, &app(false, None), &readouts());
    draw_ui(&mut buf, &app(true, None), &readouts());
    assert_eq!(buf, canvas(80, 30));
}

#[test]
fn the_compact_screen_has_three_panels() {
    let mut buf = canvas(100, 50);
    draw_ui(&mut buf, &app(false, Some(snapshot(0..2, 2..10, "Nominal"))), &readouts());
    assert!(row(&buf, 0).starts_with("┌Apple M1 Pro (cores: 2E+8P+16GPU)──"));
    assert!(row(&buf, 17).starts_with("┌Memory──"));
    assert!(row(&buf, 18).contains("RAM Usage: 7.5/16.0GB - swap:0.5/2.0GB"));
    assert!(row(&buf, 28).starts_with("┌CPU+GPU+ANE Power: p1W"));
    assert_eq!(buf[(0, 0)].fg, Hue::Yellow);
    assert!(row(&buf, 49).starts_with("└──"));
}

#[test]
fn the_detailed_screen_has_four_panels() {
    let mut buf = canvas(120, 50);
    draw_ui(&mut buf, &app(true, Some(snapshot(0..2, 2..10, "Nominal"))), &readouts());
    let shown = screen(&buf);
    assert!(row(&buf, 0).contains("Apple M1 Pro (cores: 2E+8P+16GPU)"));
    assert!(row(&buf, 0).contains("┌Memory──"));
    for word in ["E-CPU Usage", "P-CPU Usage", "Cores", "Core-1 50%", "C-10 50%", "throttle: no"] {
        assert!(shown.contains(word));
    }
}

#[test]
fn small_screens_are_drawn_on_too() {
    for (width, height) in [(0, 0), (1, 1), (2, 9), (30, 3), (9, 40)] {
        for show_cores in [false, true] {
            let mut buf = canvas(width, height);
            draw_ui(&mut buf, &app(show_cores, Some(snapshot(0..4, 4..12, "x"))), &readouts());
            assert_eq!(buf.area.width, width);
        }
    }
}

#[test]
fn drawing_leaves_the_rest_of_the_screen_alone() {
    let mut buf = canvas(40, 12);
    for x in 0..40_u16 {
        for y in 0..12_u16 {
            buf[(x, y)].set_symbol("#");
        }
    }
    let area = rect(5, 2, 30, 6);
    let sample = snapshot(0..3, 3..6, "Nominal");
    render_processor_panel(&mut buf, area, "a", &sample, &readouts(), Color::Red, true);
    render_cores_panel(&mut buf, area, &sample, Color::Red);
    render_processor_panel(&mut buf, area, "a", &sample, &readouts(), Color::Red, false);
    for x in 0..40_u16 {
        for y in 0..12_u16 {
            if !((5..35).contains(&x) && (2..8).contains(&y)) {
                assert_eq!(buf[(x, y)].symbol(), "#");
            }
        }
    }
}

#[test]
fn buffers_that_can_be_drawn_on() {
    assert!(is_drawable(&canvas(8, 3)));
    assert!(is_drawable(&canvas(0, 0)));
    let mut cut = canvas(8, 3);
    cut.content.truncate(23);
    assert!(!is_drawable(&cut));
    let mut long = canvas(8, 3);
    long.content.push(ratatui::buffer::Cell::EMPTY);
    assert!(is_drawable(&long));
    let mut far = canvas(8, 3);
    far.area.x = 65530;
    assert!(!is_drawable(&far));
}

#[test]
fn the_screen_is_drawn_where_it_can_be() {
    let good = app(true, Some(snapshot(0..2, 2..4, "Nominal")));
    let mut drawn = canvas(90, 40);
    assert!(try_draw_ui(&mut drawn, &good, &readouts()));
    let mut same = canvas(90, 40);
    draw_ui(&mut same, &good, &readouts());
    assert_eq!(drawn, same);
    let mut sample = snapshot(0..1, 1..2, "Nominal");
    sample.p_cores[0].cpu = usize::MAX;
    assert!(!are_countable(&sample.p_cores));
    assert!(are_countable(&sample.e_cores));
    let mut untouched = canvas(90, 40);
    assert!(!try_draw_ui(&mut untouched, &app(true, Some(sample.clone())), &readouts()));
    assert_eq!(untouched, canvas(90, 40));
    assert!(try_draw_ui(&mut untouched, &app(false, Some(sample)), &readouts()));
    let mut cut = canvas(90, 40);
    cut.content.truncate(5);
    assert!(!try_draw_ui(&mut cut, &good, &readouts()));
}

#[test]
fn frames_of_small_areas() {
    let framed = |width: u16, height: u16| {
        let mut buf = canvas(4, 4);
        panel_block(&mut buf, rect(0, 0, width, height), "ab", Color::Red);
        screen(&buf)
    };
    assert_eq!(framed(1, 1), "┌   \n    \n    \n    \n");
    assert_eq!(framed(3, 1), "┌a┐ \n    \n    \n    \n");
    assert_eq!(framed(1, 3), "┌   \n│   \n└   \n    \n");
    assert_eq!(framed(2, 2), "┌┐  \n└┘  \n    \n    \n");
    assert_eq!(framed(4, 3), "┌ab┐\n│  │\n└──┘\n    \n");
    assert_eq!(framed(9, 9), "┌ab┐\n│  │\n│  │\n└──┘\n");
}

#[test]
fn titles_beyond_plain_text_are_drawn_too() {
    let mut buf = canvas(10, 3);
    panel_block(&mut buf, rect(0, 0, 10, 3), "é日x", Color::Red);
    assert_eq!(buf[(1, 0)].symbol(), "é");
    assert_eq!(buf[(2, 0)].symbol(), "日");
    assert_eq!(buf[(4, 0)].symbol(), "x");
    assert_eq!(buf[(5, 0)].symbol(), "─");
}

#[test]
fn doubled_values_leave_the_same_plot() {
    let values: Vec<u64> = vec![0, 1, 7, 33, 100, 16_777_217, u64::MAX / 2];
    for count in 1..=values.len() {
        let once: VecDeque<u64> = values[..count].iter().copied().collect();
        let twice: VecDeque<u64> = values[..count].iter().map(|v| 2 * v).collect();
        let mut a = canvas(9, 12);
        let mut b = canvas(9, 12);
        draw_history_plot(&mut a, rect(0, 0, 9, 12), "x", &once, Color::Red);
        draw_history_plot(&mut b, rect(0, 0, 9, 12), "x", &twice, Color::Red);
        assert_eq!(a, b);
    }
}

#[test]
fn labels_are_cut_off_at_the_right_edge() {
    let mut buf = canvas(4, 2);
    draw_segmented_meter(&mut buf, rect(1, 0, 50, 1), 50, "label", Color::Red);
    assert_eq!(screen(&buf), " lab\n    \n");
    draw_segmented_meter(&mut buf, rect(9, 7, 3, 1), 50, "label", Color::Red);
    assert_eq!(screen(&buf), " lab\n    \n");
    draw_history_plot(&mut buf, rect(2, 1, 9, 1), "xyz", &VecDeque::from(vec![1]), Color::Red);
    assert_eq!(screen(&buf), " lab\n  xy\n");
}

#[test]
fn frames_of_panels_may_stick_out() {
    let memory = read_memory_snapshot(16 << 30, 8 << 30, 0, 0);
    let mut buf = canvas(41, 4);
    render_memory_panel(&mut buf, rect(0, 0, 42, 5), &memory, &readouts(), Color::Blue);
    assert!(row(&buf, 1).starts_with("│RAM Usage: 7.5/16.0GB - swap inactive"));
    let mut power = canvas(72, 5);
    let values: VecDeque<u64> = VecDeque::from(vec![1]);
    render_power_panel(
        &mut power,
        rect(0, 0, 73, 6),
        "Nominal",
        &readouts(),
        &values,
        &values,
        Color::Red,
    );
    assert_eq!(power[(71, 4)].bg, Hue::Red);
    for show_cores in [false, true] {
        let mut chip = canvas(82, 25);
        render_processor_panel(
            &mut chip,
            rect(0, 0, 83, 26),
            "Chip",
            &snapshot(0..1, 1..2, "Nominal"),
            &readouts(),
            Color::Green,
            show_cores,
        );
        assert!(row(&chip, 0).starts_with("┌Chip──"));
    }
}
