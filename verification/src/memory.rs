//! Memory and swap figures.

use crate::rounding;
use vstd::arithmetic::power2::*;
use vstd::prelude::*;

verus! {

/// Memory and swap, in bytes, with the share of memory in use.
#[derive(Debug, Clone, Copy, PartialEq, Eq, Structural)]
pub struct MemorySnapshot {
    pub total: u64,
    pub used: u64,
    pub swap_total: u64,
    pub swap_used: u64,
    pub used_percent: u16,
}

/// The share of memory in use, in whole percent of a double-precision quotient and never more
/// than all of it.
pub open spec fn percent_in_use(used: u64, total: u64) -> nat {
    let part = rounding::to_precision(used as nat, rounding::DOUBLE as nat);
    let whole = rounding::to_precision(total as nat, rounding::DOUBLE as nat);
    if total == 0 {
        0
    } else if part >= whole {
        100
    } else {
        rounding::scaled(part, whole, 100, rounding::DOUBLE as nat)
    }
}

/// The figures before anything was measured.
pub fn unmeasured() -> (r: MemorySnapshot)
    ensures
        r == (MemorySnapshot { total: 0, used: 0, swap_total: 0, swap_used: 0, used_percent: 0 }),
{
    MemorySnapshot { total: 0, used: 0, swap_total: 0, swap_used: 0, used_percent: 0 }
}

/// Takes the measured figures, in bytes, and works out the share in use.
pub fn read_memory_snapshot(total: u64, used: u64, swap_total: u64, swap_used: u64) -> (r:
    MemorySnapshot)
    ensures
        r.total == total,
        r.used == used,
        r.swap_total == swap_total,
        r.swap_used == swap_used,
        r.used_percent == percent_in_use(used, total),
        r.used_percent <= 100,
{
    let part: u128 = rounding::round_to_precision(used as u128, rounding::DOUBLE);
    let whole: u128 = rounding::round_to_precision(total as u128, rounding::DOUBLE);
    let used_percent: u16 = if total == 0 {
        0
    } else if part >= whole {
        100
    } else {
        proof {
            rounding::lemma_to_precision_of_word(total);
        }
        rounding::scale_by_ratio(part, whole, 100, rounding::DOUBLE)
    };
    MemorySnapshot { total, used, swap_total, swap_used, used_percent }
}

/// Whether there is so little swap that it counts as switched off: under a tenth of a GiB.
pub open spec fn swap_is_off(swap_total: u64) -> bool {
    10 * swap_total < 0x4000_0000
}

impl MemorySnapshot {
    /// Whether there is so little swap that it counts as switched off.
    pub fn swap_inactive(&self) -> (r: bool)
        ensures
            r == swap_is_off(self.swap_total),
    {
        self.swap_total <= 107_374_182
    }
}

/// The share of memory in use never falls when more is used: it is nothing where nothing is used
/// and goes up to all of it.
pub proof fn law_memory_share(total: u64, low: u64, high: u64)
    requires
        low <= high,
    ensures
        percent_in_use(low, total) <= percent_in_use(high, total) <= 100,
        percent_in_use(0, total) == 0,
        total > 0 && high >= total ==> percent_in_use(high, total) == 100,
{
    let bits = rounding::DOUBLE as nat;
    let whole = rounding::to_precision(total as nat, bits);
    let part = rounding::to_precision(high as nat, bits);
    lemma2_to64();
    lemma2_to64_rest();
    rounding::lemma_to_precision_of_word(total);
    rounding::lemma_to_precision_of_word(0);
    rounding::lemma_to_precision_monotonic(low as nat, high as nat, bits);
    if high >= total {
        rounding::lemma_to_precision_monotonic(total as nat, high as nat, bits);
    }
    if total > 0 {
        rounding::law_scaled_monotonic(
            rounding::to_precision(low as nat, bits),
            part,
            whole,
            100,
            bits,
        );
        if part < whole {
            rounding::lemma_scaled_at_most(part, whole, 100, bits);
        }
        if rounding::to_precision(low as nat, bits) < whole {
            rounding::lemma_scaled_at_most(
                rounding::to_precision(low as nat, bits),
                whole,
                100,
                bits,
            );
        }
    }
}

/// The share of memory in use is the whole percentage nearest to it, as near as double precision
/// tells: it misses a hundred times what is in use, shared out over what there is, by little more
/// than a half.
pub proof fn law_memory_share_is_nearest(used: u64, total: u64)
    requires
        0 < total,
        used <= total,
    ensures
        2_000_000 * (total * percent_in_use(used, total) - 100 * used) <= 1_000_001 * total,
        2_000_000 * (100 * used - total * percent_in_use(used, total)) <= 1_000_001 * total,
{
    let bits = rounding::DOUBLE as nat;
    let part = rounding::to_precision(used as nat, bits);
    let whole = rounding::to_precision(total as nat, bits);
    let big = pow2(bits);
    lemma_two_to_53();
    rounding::lemma_to_precision_of_word(total);
    rounding::lemma_to_precision_monotonic(used as nat, total as nat, bits);
    if part >= whole {
        rounding::lemma_to_precision_close(used as nat, bits);
        rounding::lemma_to_precision_close(total as nat, bits);
        assert(part == whole);
        assert(big * (total - used) <= 2 * total) by (nonlinear_arith)
            requires
                big * total <= big * whole + total,
                big * part <= big * used + used,
                part == whole,
                used <= total,
        ;
        assert(4_000_000_000 * (total - used) <= 2 * total) by (nonlinear_arith)
            requires
                big * (total - used) <= 2 * total,
                big >= 4_000_000_000,
                used <= total,
        ;
        assert(total * 100 - 100 * used == 100 * (total - used));
    } else {
        let percent = percent_in_use(used, total);
        rounding::lemma_share_is_close(used as nat, total as nat, 100, bits);
        let shown = total as nat * percent;
        let due = 100 * used as nat;
        assert((big + 1 + 14 * 100) * total == big * total + 1401 * total) by (nonlinear_arith);
        assert(big * (2 * shown) == 2 * (big * shown)) by (nonlinear_arith);
        assert(big * (2 * due) == 2 * (big * due)) by (nonlinear_arith);
        assert(2_000_000 * (shown - due) <= 1_000_001 * total) by (nonlinear_arith)
            requires
                2 * (big * shown) <= 2 * (big * due) + big * total + 1401 * total,
                big >= 4_000_000_000,
        {
            lemma_close(big as int, shown as int, due as int, total as int);
        }
        assert(2_000_000 * (due - shown) <= 1_000_001 * total) by (nonlinear_arith)
            requires
                2 * (big * due) <= 2 * (big * shown) + big * total + 1401 * total,
                big >= 4_000_000_000,
        {
            lemma_close(big as int, due as int, shown as int, total as int);
        }
    }
}

/// What misses by little in the large misses by little in the small.
proof fn lemma_close(big: int, a: int, b: int, total: int)
    requires
        2 * (big * a) <= 2 * (big * b) + big * total + 1401 * total,
        big >= 4_000_000_000,
        total >= 0,
    ensures
        2_000_000 * (a - b) <= 1_000_001 * total,
{
    let gap = 2 * (a - b) - total;
    assert(big * gap <= 1401 * total) by (nonlinear_arith)
        requires
            2 * (big * a) <= 2 * (big * b) + big * total + 1401 * total,
            gap == 2 * (a - b) - total,
    ;
    if gap > 0 {
        assert(4_000_000_000 * gap <= big * gap) by (nonlinear_arith)
            requires
                big >= 4_000_000_000,
                gap > 0,
        ;
    }
}

proof fn lemma_two_to_53()
    ensures
        pow2(rounding::DOUBLE as nat) >= 4_000_000_000,
        100 < pow2(rounding::DOUBLE as nat),
{
    lemma2_to64();
    lemma_pow2_strictly_increases(32, 53);
}

} // verus!
