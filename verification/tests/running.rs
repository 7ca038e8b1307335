use asitop::memory::read_memory_snapshot;
use asitop::session::{
    powermetrics_args, quits, wait_for_first_snapshot, Key, KeyStroke, Session, Turn, WaitStep,
};
use asitop::snapshot::{
    percentage, ClusterFigures, CoreFigures, CoreMetric, GpuFigures, PowerMetric, Snapshot,
};
use asitop::soc::read_soc_info;
use asitop::state::{push_history, push_sample, App, Args, Sample};
use asitop::watts::Watts;
use std::collections::VecDeque;

fn watts(value: f64) -> Watts {
    Watts { bits: value.to_bits() }
}

fn args(interval: u64, avg: u64, max_count: u64) -> Args {
    Args { interval, color: 2, avg, show_cores: false, max_count }
}

fn metric(cpu: usize) -> CoreMetric {
    CoreMetric { cpu, active_percent: 10 + cpu as u16, freq_mhz: 1000 + cpu as u64 }
}

fn figures(cpu: usize) -> CoreFigures {
    CoreFigures { cpu, active: Some(10 + cpu as i64), freq_mhz: 1000 + cpu as u64 }
}

fn cluster(name: &str, active: i64, freq_mhz: u64, cpus: &[usize]) -> ClusterFigures {
    ClusterFigures {
        name: name.to_string(),
        active: Some(active),
        freq_mhz,
        cores: cpus.iter().map(|cpu| figures(*cpu)).collect(),
    }
}

fn assembled(timestamp: &str, clusters: &Vec<ClusterFigures>, power: f64) -> Snapshot {
    Snapshot::assemble(
        timestamp.to_string(),
        "Nominal".to_string(),
        clusters,
        GpuFigures { active: Some(5), freq_mhz: 400 },
        PowerMetric {
            ane_watts: watts(0.5),
            cpu_watts: watts(power),
            gpu_watts: watts(power * 2.0),
            package_watts: watts(power * 3.0),
        },
    )
}

fn sample(timestamp: &str, power: f64, percent: u64) -> Sample {
    Sample {
        snapshot: assembled(timestamp, &Vec::new(), power),
        memory: read_memory_snapshot(100, percent, 0, 0),
        cpu_share: percent as i64,
        gpu_share: percent as i64 + 1,
    }
}

fn stroke(key: Key, control: bool, pressed: bool) -> KeyStroke {
    KeyStroke { key, control, pressed }
}

#[test]
fn clusters_are_put_together_by_their_names() {
    let clusters = vec![
        cluster("E0-Cluster", 10, 600, &[0, 1]),
        cluster("P0-Cluster", 40, 3000, &[2]),
        cluster("E1-Cluster", 21, 972, &[3]),
        cluster("P1-Cluster", 61, 2000, &[]),
        cluster("Other", 99, 9999, &[4]),
    ];
    let snapshot = assembled("t", &clusters, 1.0);
    assert_eq!(snapshot.e_cluster_active, 15);
    assert_eq!(snapshot.e_cluster_freq_mhz, 972);
    assert_eq!(snapshot.p_cluster_active, 50);
    assert_eq!(snapshot.p_cluster_freq_mhz, 3000);
    assert_eq!(snapshot.e_cores, vec![metric(0), metric(1), metric(3)]);
    assert_eq!(snapshot.p_cores, vec![metric(2), metric(4)]);
    assert_eq!(snapshot.timestamp, "t");
    assert_eq!(snapshot.thermal_pressure, "Nominal");
    assert_eq!(snapshot.gpu.freq_mhz, 400);
}

#[test]
fn a_sole_e_cluster_speaks_for_itself() {
    let clusters = vec![
        cluster("E-Cluster", 10, 600, &[]),
        cluster("E1-Cluster", 90, 972, &[]),
    ];
    let snapshot = assembled("t", &clusters, 1.0);
    assert_eq!(snapshot.e_cluster_active, 10);
    assert_eq!(snapshot.e_cluster_freq_mhz, 600);
    assert_eq!(snapshot.p_cluster_active, 0);
    assert_eq!(snapshot.p_cluster_freq_mhz, 0);
}

#[test]
fn a_history_keeps_the_newest_values_in_order() {
    let mut history: VecDeque<u64> = VecDeque::new();
    for n in 0..300_u64 {
        push_history(&mut history, n);
    }
    assert_eq!(history.len(), 120);
    assert_eq!(history.iter().copied().collect::<Vec<u64>>(), (180..300).collect::<Vec<u64>>());
}

#[test]
fn samples_keep_to_their_limit() {
    let mut samples: VecDeque<Watts> = VecDeque::new();
    for n in 0..5_u64 {
        push_sample(&mut samples, Watts { bits: n }, 3);
    }
    let kept: Vec<u64> = samples.iter().map(|w| w.bits).collect();
    assert_eq!(kept, vec![2, 3, 4]);
    let mut unlimited: VecDeque<Watts> = VecDeque::new();
    push_sample(&mut unlimited, Watts { bits: 1 }, 0);
    push_sample(&mut unlimited, Watts { bits: 2 }, 0);
    assert_eq!(unlimited.len(), 2);
}

#[test]
fn averages_take_in_as_many_samples_as_fit() {
    assert_eq!(args(1, 30, 0).max_samples(), 30);
    assert_eq!(args(4, 30, 0).max_samples(), 7);
    assert_eq!(args(0, 30, 0).max_samples(), 30);
    assert_eq!(args(60, 30, 0).max_samples(), 1);
    assert_eq!(args(1, 0, 0).max_samples(), 1);
    assert_eq!(args(0, 0, 0).seconds(), 1);
    assert_eq!(args(7, 0, 0).seconds(), 7);
}

#[test]
fn a_new_state_is_empty() {
    let app = App::new(args(1, 30, 0), read_soc_info("Apple M2", None, None, None));
    assert!(app.last_snapshot.is_none());
    assert_eq!(app.memory, read_memory_snapshot(0, 0, 0, 0));
    assert_eq!(app.cpu_history.len() + app.gpu_history.len(), 0);
    assert_eq!(app.package_peak, watts(0.0));
    assert_eq!(app.soc.gpu_max_power, 15);
}

#[test]
fn samples_move_the_state() {
    let mut app = App::new(args(1, 2, 0), read_soc_info("Apple M2", None, None, None));
    app.apply_snapshot(sample("1", 4.0, 40));
    app.apply_snapshot(sample("2", 9.0, 90));
    app.apply_snapshot(sample("3", 1.0, 10));
    assert_eq!(app.last_snapshot.as_ref().unwrap().timestamp, "3");
    assert_eq!(app.memory.used, 10);
    assert_eq!(app.cpu_history, VecDeque::from(vec![40, 90, 10]));
    assert_eq!(app.gpu_history, VecDeque::from(vec![41, 91, 11]));
    assert_eq!(app.cpu_samples, VecDeque::from(vec![watts(9.0), watts(1.0)]));
    assert_eq!(app.gpu_samples, VecDeque::from(vec![watts(18.0), watts(2.0)]));
    assert_eq!(app.package_samples, VecDeque::from(vec![watts(27.0), watts(3.0)]));
    assert_eq!(app.cpu_peak, watts(9.0));
    assert_eq!(app.gpu_peak, watts(18.0));
    assert_eq!(app.package_peak, watts(27.0));
}

#[test]
fn keys_that_quit() {
    assert!(quits(stroke(Key::Char('q'), false, true)));
    assert!(quits(stroke(Key::Char('q'), true, true)));
    assert!(quits(stroke(Key::Esc, false, true)));
    assert!(quits(stroke(Key::Char('c'), true, true)));
    assert!(!quits(stroke(Key::Char('c'), false, true)));
    assert!(!quits(stroke(Key::Char('Q'), false, true)));
    assert!(!quits(stroke(Key::Other, true, true)));
    assert!(!quits(stroke(Key::Char('q'), false, false)));
    assert!(!quits(stroke(Key::Esc, false, false)));
}

#[test]
fn the_first_sample_is_awaited_for_half_a_minute() {
    assert_eq!(wait_for_first_snapshot(true, 0), WaitStep::Take);
    assert_eq!(wait_for_first_snapshot(true, 99), WaitStep::Take);
    assert_eq!(wait_for_first_snapshot(false, 0), WaitStep::Pause);
    assert_eq!(wait_for_first_snapshot(false, 29), WaitStep::Pause);
    assert_eq!(wait_for_first_snapshot(false, 30), WaitStep::GiveUp);
}

#[test]
fn the_sampler_is_started_with_its_interval() {
    let expected = vec![
        "nice", "-n", "10", "powermetrics", "--samplers", "cpu_power,gpu_power,thermal", "-o",
        "/tmp/x", "-f", "plist", "-i", "5000",
    ];
    assert_eq!(powermetrics_args("/tmp/x", 5), expected);
    assert_eq!(powermetrics_args("p", 0)[11], "1000");
    assert_eq!(powermetrics_args("p", 1)[11], "1000");
    assert_eq!(powermetrics_args("p", 18446744073709551)[11], "18446744073709551000");
}

#[test]
fn a_turn_waits_for_the_interval() {
    let soc = read_soc_info("Apple M2", None, None, None);
    let session = Session::start(args(3, 30, 0), soc, sample("1", 1.0, 1));
    assert_eq!(session.next_turn(0), Turn::Idle);
    assert_eq!(session.next_turn(2), Turn::Idle);
    assert_eq!(session.next_turn(3), Turn::Poll);
    assert_eq!(session.next_turn(1000), Turn::Poll);
}

#[test]
fn only_later_samples_are_taken_in() {
    let soc = read_soc_info("Apple M2", None, None, None);
    let mut session = Session::start(args(1, 30, 0), soc, sample("2024-01-02", 1.0, 1));
    session.polled(None);
    session.polled(Some(sample("2024-01-02", 2.0, 2)));
    session.polled(Some(sample("2024-01-01", 3.0, 3)));
    assert_eq!(session.refresh_count, 0);
    assert_eq!(session.app.cpu_history, VecDeque::from(vec![1]));
    assert!(session.is_news(&sample("2024-01-03", 4.0, 4).snapshot));
    assert!(!session.is_news(&sample("2024-01-02", 4.0, 4).snapshot));
    session.polled(Some(sample("2024-01-03", 4.0, 4)));
    assert_eq!(session.refresh_count, 1);
    assert_eq!(session.app.cpu_history, VecDeque::from(vec![1, 4]));
    assert_eq!(session.app.last_snapshot.as_ref().unwrap().timestamp, "2024-01-03");
}

#[test]
fn the_sampler_is_started_anew_after_its_refreshes() {
    let soc = read_soc_info("Apple M2", None, None, None);
    let mut session = Session::start(args(1, 30, 2), soc, sample("5", 1.0, 1));
    assert_eq!(session.next_turn(1), Turn::Poll);
    session.polled(Some(sample("6", 1.0, 2)));
    assert_eq!(session.next_turn(1), Turn::Poll);
    session.polled(Some(sample("7", 1.0, 3)));
    assert_eq!(session.next_turn(0), Turn::Idle);
    assert_eq!(session.next_turn(1), Turn::Restart);
    session.restarted(sample("1", 1.0, 4));
    assert_eq!(session.refresh_count, 0);
    assert_eq!(session.next_turn(1), Turn::Poll);
    assert_eq!(session.app.cpu_history, VecDeque::from(vec![1, 2, 3, 4]));
    assert_eq!(session.app.last_snapshot.as_ref().unwrap().timestamp, "1");
}

#[test]
fn figures_are_held_between_nothing_and_all() {
    assert_eq!(percentage(i64::MIN), 0);
    assert_eq!(percentage(-1), 0);
    assert_eq!(percentage(0), 0);
    assert_eq!(percentage(37), 37);
    assert_eq!(percentage(100), 100);
    assert_eq!(percentage(101), 100);
    assert_eq!(percentage(i64::MAX), 100);
}

#[test]
fn loads_are_percentages() {
    let clusters = vec![
        cluster("E0-Cluster", 170, 600, &[0]),
        cluster("E1-Cluster", 100, 600, &[1, 95]),
        cluster("P0-Cluster", -5, 3000, &[2]),
    ];
    let snapshot = assembled("t", &clusters, 1.0);
    assert_eq!(snapshot.e_cluster_active, 100);
    assert_eq!(snapshot.p_cluster_active, 0);
    assert_eq!(snapshot.e_cores[0].active_percent, 10);
    assert_eq!(snapshot.e_cores[2].active_percent, 100);
    assert_eq!(snapshot.p_cores[0].active_percent, 12);
}

#[test]
fn a_part_without_a_figure_counts_as_busy() {
    let clusters = vec![ClusterFigures {
        name: "P-Cluster".to_string(),
        active: None,
        freq_mhz: 1,
        cores: vec![CoreFigures { cpu: 3, active: None, freq_mhz: 2 }],
    }];
    let snapshot = Snapshot::assemble(
        "t".to_string(),
        "Nominal".to_string(),
        &clusters,
        GpuFigures { active: None, freq_mhz: 3 },
        PowerMetric {
            ane_watts: watts(0.0),
            cpu_watts: watts(0.0),
            gpu_watts: watts(0.0),
            package_watts: watts(0.0),
        },
    );
    assert_eq!(snapshot.p_cluster_active, 100);
    assert_eq!(snapshot.p_cores, vec![CoreMetric { cpu: 3, active_percent: 100, freq_mhz: 2 }]);
    assert_eq!(snapshot.gpu.active_percent, 100);
    assert_eq!(snapshot.gpu.freq_mhz, 3);
}

#[test]
fn histories_hold_percentages() {
    let mut app = App::new(args(1, 2, 0), read_soc_info("Apple M2", None, None, None));
    for n in 0..130_u64 {
        app.apply_snapshot(sample("t", 1.0, 2 * n));
    }
    app.apply_snapshot(Sample { cpu_share: -3, gpu_share: i64::MAX, ..sample("t", 1.0, 0) });
    assert_eq!(app.cpu_history.len(), 120);
    assert_eq!(app.gpu_history.len(), 120);
    assert_eq!(app.cpu_history[0], 22);
    assert_eq!(app.cpu_history[118], 100);
    assert_eq!(app.cpu_history[119], 0);
    assert_eq!(app.gpu_history[119], 100);
    assert!(app.cpu_history.iter().all(|percent| *percent <= 100));
    assert!(app.gpu_history.iter().all(|percent| *percent <= 100));
}
