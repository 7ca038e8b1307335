//! What is known of the chip.

use crate::text;
use vstd::prelude::*;

verus! {

/// The name of the chip, its core counts, and the power in watts that its parts are budgeted for.
#[derive(Debug, Clone)]
pub struct SocInfo {
    pub name: String,
    pub e_core_count: usize,
    pub p_core_count: usize,
    pub gpu_core_count: usize,
    pub cpu_max_power: u64,
    pub gpu_max_power: u64,
}

/// The watts that the processor and the graphics of a chip are budgeted for.
pub open spec fn power_budget(name: Seq<char>) -> (u64, u64) {
    if name == "Apple M1 Max"@ {
        (30, 60)
    } else if name == "Apple M1 Pro"@ {
        (30, 30)
    } else if name == "Apple M1 Ultra"@ {
        (60, 120)
    } else if name == "Apple M2"@ {
        (25, 15)
    } else {
        (20, 20)
    }
}

/// The watts that the processor and the graphics of a chip are budgeted for.
pub fn power_budget_for_soc(name: &str) -> (r: (u64, u64))
    ensures
        r == power_budget(name@),
{
    if text::same_text(name, "Apple M1 Max") {
        (30, 60)
    } else if text::same_text(name, "Apple M1 Pro") {
        (30, 30)
    } else if text::same_text(name, "Apple M1 Ultra") {
        (60, 120)
    } else if text::same_text(name, "Apple M2") {
        (25, 15)
    } else {
        (20, 20)
    }
}

/// The count that a text spells between white space; zero where it spells none.
pub open spec fn count_in(output: Seq<char>) -> usize {
    match text::unsigned_value(text::trimmed(output), usize::MAX as nat) {
        Some(n) => n as usize,
        None => 0,
    }
}

/// The count that a text spells between white space; zero where it spells none.
pub fn parse_count(output: &str) -> (r: usize)
    ensures
        r == count_in(output@),
{
    match text::parse_unsigned(text::trim(output), usize::MAX as u64) {
        Some(n) => n as usize,
        None => 0,
    }
}

/// The graphics core count in a listing of displays: what the first line that speaks of it spells
/// behind its last colon and space.
pub open spec fn gpu_count_in(listing: Seq<char>) -> usize {
    match text::first_line_with(text::lines(listing), "Total Number of Cores"@) {
        Some(line) => count_in(text::after_last(line, ": "@)),
        None => 0,
    }
}

/// The graphics core count in a listing of displays.
pub fn parse_gpu_count(listing: &str) -> (r: usize)
    ensures
        r == gpu_count_in(listing@),
{
    match text::find_line_with(listing, "Total Number of Cores") {
        Some(line) => parse_count(text::part_after_last(line, ": ")),
        None => 0,
    }
}

/// Puts together what the commands printed: the name of the chip, the counts of efficiency and
/// performance cores, and the listing of displays. What could not be had counts as zero.
pub fn read_soc_info(
    brand: &str,
    e_cores: Option<&str>,
    p_cores: Option<&str>,
    displays: Option<&str>,
) -> (r: SocInfo)
    ensures
        r.name@ == text::trimmed(brand@),
        r.e_core_count == (match e_cores {
            Some(output) => count_in(output@),
            None => 0,
        }),
        r.p_core_count == (match p_cores {
            Some(output) => count_in(output@),
            None => 0,
        }),
        r.gpu_core_count == (match displays {
            Some(listing) => gpu_count_in(listing@),
            None => 0,
        }),
        (r.cpu_max_power, r.gpu_max_power) == power_budget(text::trimmed(brand@)),
{
    let name: &str = text::trim(brand);
    let e_core_count: usize = match e_cores {
        Some(output) => parse_count(output),
        None => 0,
    };
    let p_core_count: usize = match p_cores {
        Some(output) => parse_count(output),
        None => 0,
    };
    let gpu_core_count: usize = match displays {
        Some(listing) => parse_gpu_count(listing),
        None => 0,
    };
    let (cpu_max_power, gpu_max_power): (u64, u64) = power_budget_for_soc(name);
    SocInfo {
        name: name.to_owned(),
        e_core_count,
        p_core_count,
        gpu_core_count,
        cpu_max_power,
        gpu_max_power,
    }
}

/// A count that a command prints reads back, whatever white space is around it.
pub proof fn law_count_reads_back(n: nat, before: Seq<char>, after: Seq<char>)
    requires
        n <= usize::MAX,
        forall|i: int| 0 <= i < before.len() ==> text::is_space(#[trigger] before[i]),
        forall|i: int| 0 <= i < after.len() ==> text::is_space(#[trigger] after[i]),
    ensures
        count_in(before + text::numeral(n) + after) == n,
{
    let digits = text::numeral(n);
    text::lemma_numeral_digits(n);
    assert(text::is_digit(digits[0]));
    assert(text::is_digit(digits[digits.len() - 1]));
    text::law_trimming_takes_the_spaces(before, digits, after);
    text::law_numeral_reads_back(n, usize::MAX as nat);
}

/// The chips that are known by name have budgets of their own; any other has the same one.
pub proof fn law_budgets(name: Seq<char>)
    requires
        name != "Apple M1 Max"@,
        name != "Apple M1 Pro"@,
        name != "Apple M1 Ultra"@,
        name != "Apple M2"@,
    ensures
        power_budget(name) == (20u64, 20u64),
        power_budget("Apple M1 Max"@) == (30u64, 60u64),
        power_budget("Apple M1 Pro"@) == (30u64, 30u64),
        power_budget("Apple M1 Ultra"@) == (60u64, 120u64),
        power_budget("Apple M2"@) == (25u64, 15u64),
{
    reveal_strlit("Apple M1 Max");
    reveal_strlit("Apple M1 Pro");
    reveal_strlit("Apple M1 Ultra");
    reveal_strlit("Apple M2");
    assert("Apple M1 Max"@[9] != "Apple M1 Pro"@[9]);
    assert("Apple M1 Max"@.len() != "Apple M1 Ultra"@.len());
    assert("Apple M1 Pro"@.len() != "Apple M1 Ultra"@.len());
    assert("Apple M2"@.len() != "Apple M1 Ultra"@.len());
    assert("Apple M2"@.len() != "Apple M1 Pro"@.len());
    assert("Apple M2"@.len() != "Apple M1 Max"@.len());
}

} // verus!
