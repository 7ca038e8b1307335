use asitop::memory;
use asitop::memory::read_memory_snapshot;
use asitop::rounding::{round_half_even, round_to_precision, scale_by_ratio, DOUBLE, SINGLE};
use asitop::snapshot::{average_percent, max_u64};
use asitop::watts::Watts;

#[test]
fn halves_round_to_the_even_neighbour() {
    assert_eq!(round_half_even(5, 2), 2);
    assert_eq!(round_half_even(7, 2), 4);
    assert_eq!(round_half_even(8, 3), 3);
    assert_eq!(round_half_even(7, 3), 2);
    assert_eq!(round_half_even(0, 9), 0);
}

#[test]
fn integers_round_to_a_precision_like_floats() {
    let samples: Vec<u64> = vec![
        0,
        1,
        2,
        16_777_215,
        16_777_216,
        16_777_217,
        16_777_219,
        33_554_434,
        33_554_438,
        9_007_199_254_740_992,
        9_007_199_254_740_993,
        9_007_199_254_740_995,
        u64::MAX - 1024,
        u64::MAX - 1,
        u64::MAX,
    ];
    for n in samples {
        assert_eq!(round_to_precision(n as u128, SINGLE), n as f32 as u128);
        assert_eq!(round_to_precision(n as u128, DOUBLE), n as f64 as u128);
    }
}

#[test]
fn scaling_agrees_with_single_precision() {
    for width in 0..=600_u16 {
        for percent in 0..=100_u16 {
            let expected = ((width as f32) * (percent as f32 / 100.0)).round() as u16;
            assert_eq!(scale_by_ratio(percent as u128, 100, width, SINGLE), expected);
        }
    }
    for step in 0..300_u16 {
        let width = u16::MAX - step * 211;
        for percent in 0..=100_u16 {
            let expected = ((width as f32) * (percent as f32 / 100.0)).round() as u16;
            assert_eq!(scale_by_ratio(percent as u128, 100, width, SINGLE), expected);
        }
    }
}

#[test]
fn scaling_keeps_the_single_precision_ties() {
    assert_eq!(scale_by_ratio(13, 100, 450, SINGLE), 58);
    assert_eq!(scale_by_ratio(50, 100, 3, SINGLE), 2);
    assert_eq!(scale_by_ratio(50, 100, 1, SINGLE), 1);
}

#[test]
fn scaling_agrees_with_double_precision() {
    for total in 1..=150_u64 {
        for used in 0..=total {
            let expected = ((used as f64 / total as f64) * 100.0).round() as u16;
            assert_eq!(scale_by_ratio(used as u128, total as u128, 100, DOUBLE), expected);
        }
    }
}

#[test]
fn a_larger_part_never_scales_to_less() {
    let mut before = 0;
    for part in 0..=1000_u128 {
        let here = scale_by_ratio(part, 1000, 777, SINGLE);
        assert!(before <= here);
        before = here;
    }
    assert_eq!(before, 777);
    assert_eq!(scale_by_ratio(0, 1000, 777, SINGLE), 0);
}

#[test]
fn memory_in_use_agrees_with_double_precision() {
    let gib = 1_u64 << 30;
    let totals = vec![1, 3, 1000, gib, 8 * gib, 16 * gib + 12345, u64::MAX];
    for total in totals {
        for step in 0..=40_u64 {
            let used = total / 40 * step + step % 7;
            let used_gb = used as f64 / 1024.0 / 1024.0 / 1024.0;
            let total_gb = total as f64 / 1024.0 / 1024.0 / 1024.0;
            let expected = ((used_gb / total_gb) * 100.0).round().clamp(0.0, 100.0) as u16;
            let memory = read_memory_snapshot(total, used, 5, 4);
            assert_eq!(memory.used_percent, expected);
            assert_eq!(memory.total, total);
            assert_eq!(memory.used, used);
            assert_eq!(memory.swap_total, 5);
            assert_eq!(memory.swap_used, 4);
        }
    }
}

#[test]
fn memory_in_use_without_memory_or_beyond_it() {
    assert_eq!(read_memory_snapshot(0, 10, 0, 0).used_percent, 0);
    assert_eq!(read_memory_snapshot(10, 20, 0, 0).used_percent, 100);
    assert_eq!(read_memory_snapshot(1000, 255, 0, 0).used_percent, 26);
    assert_eq!(memory::unmeasured().used_percent, 0);
}

#[test]
fn little_swap_counts_as_none() {
    for swap in [0_u64, 1, 107_374_181, 107_374_182, 107_374_183, 1 << 30, u64::MAX] {
        let expected = (swap as f64 / 1024.0 / 1024.0 / 1024.0) < 0.1;
        assert_eq!(read_memory_snapshot(1, 1, swap, 0).swap_inactive(), expected);
    }
}

#[test]
fn percentages_average_rounding_down() {
    assert_eq!(average_percent(&[]), 0);
    assert_eq!(average_percent(&[7]), 7);
    assert_eq!(average_percent(&[1, 2]), 1);
    assert_eq!(average_percent(&[65535, 65535, 65535]), 65535);
    assert_eq!(average_percent(&[10, 20, 33]), 21);
}

#[test]
fn the_largest_value_of_none_is_zero() {
    assert_eq!(max_u64(&[]), 0);
    assert_eq!(max_u64(&[3, 9, 4]), 9);
    assert_eq!(max_u64(&[u64::MAX, 0]), u64::MAX);
}

#[test]
fn the_larger_measurement_agrees_with_reals() {
    let values = [
        0.0_f64,
        1.5,
        -1.5,
        2.25,
        1e-310,
        -1e-310,
        f64::INFINITY,
        f64::NEG_INFINITY,
        f64::MAX,
        f64::MIN,
    ];
    for a in values {
        for b in values {
            let r = Watts { bits: a.to_bits() }.max(Watts { bits: b.to_bits() });
            assert_eq!(f64::from_bits(r.bits), a.max(b));
        }
    }
}

#[test]
fn a_measurement_beats_what_is_not_a_number() {
    let nan = Watts { bits: f64::NAN.to_bits() };
    let one = Watts { bits: 1.0_f64.to_bits() };
    assert_eq!(nan.max(one), one);
    assert_eq!(one.max(nan), one);
    assert_eq!(Watts::zero().bits, 0.0_f64.to_bits());
}

#[test]
fn the_memory_share_never_falls() {
    let mut before = 0;
    for used in 0..=3000_u64 {
        let here = read_memory_snapshot(2500, used, 0, 0).used_percent;
        assert!(before <= here && here <= 100);
        before = here;
    }
    assert_eq!(before, 100);
    assert_eq!(read_memory_snapshot(2500, 0, 0, 0).used_percent, 0);
}
