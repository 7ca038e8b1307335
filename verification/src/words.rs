//! What the labels and titles of the screen say.

use crate::canvas;
use crate::memory::MemorySnapshot;
use crate::screen;
use crate::screen::{PowerText, Readouts};
use crate::snapshot::CoreMetric;
use crate::soc::SocInfo;
use crate::text;
use vstd::prelude::*;

verus! {

/// Whether the texts of a power readout are plain.
pub open spec fn is_plain_power(power: PowerText) -> bool {
    canvas::is_plain(power.now@) && canvas::is_plain(power.average@) && canvas::is_plain(power.peak@)
}

/// Whether the texts of the readouts are plain, as figures with decimals are.
pub open spec fn are_plain(readouts: Readouts) -> bool {
    &&& canvas::is_plain(readouts.ane_watts@)
    &&& canvas::is_plain(readouts.used_gb@)
    &&& canvas::is_plain(readouts.total_gb@)
    &&& canvas::is_plain(readouts.swap_used_gb@)
    &&& canvas::is_plain(readouts.swap_total_gb@)
    &&& is_plain_power(readouts.package)
    &&& is_plain_power(readouts.cpu)
    &&& is_plain_power(readouts.gpu)
}

proof fn lemma_numeral_plain(n: nat)
    ensures
        canvas::is_plain(text::numeral(n)),
{
    text::lemma_numeral_digits(n);
    screen::lemma_digits_plain(text::numeral(n));
}

/// A load behind a plain text is plain.
pub proof fn lemma_load_plain(before: Seq<char>, percent: u16, freq_mhz: u64)
    requires
        canvas::is_plain(before),
    ensures
        canvas::is_plain(screen::load_text(percent, freq_mhz)),
        canvas::is_plain(before + screen::load_text(percent, freq_mhz)),
{
    let core = CoreMetric { cpu: 0, active_percent: percent, freq_mhz };
    screen::law_load_labels_are_plain(core, true, 0);
    screen::lemma_plain_joined(before, screen::load_text(percent, freq_mhz));
}

/// The words for the neural engine are plain.
pub proof fn lemma_ane_plain(before: Seq<char>, readouts: Readouts)
    requires
        canvas::is_plain(before),
        are_plain(readouts),
    ensures
        canvas::is_plain(screen::ane_text(readouts)),
        canvas::is_plain(before + screen::ane_text(readouts)),
{
    reveal_strlit("% @ ");
    reveal_strlit(" W");
    let load = text::numeral(readouts.ane_percent as nat);
    lemma_numeral_plain(readouts.ane_percent as nat);
    screen::lemma_plain_joined(load, "% @ "@);
    screen::lemma_plain_joined(load + "% @ "@, readouts.ane_watts@);
    screen::lemma_plain_joined(load + "% @ "@ + readouts.ane_watts@, " W"@);
    screen::lemma_plain_joined(before, screen::ane_text(readouts));
}

/// The words for power are plain.
pub proof fn lemma_power_plain(before: Seq<char>, power: PowerText)
    requires
        canvas::is_plain(before),
        is_plain_power(power),
    ensures
        canvas::is_plain(before + screen::power_text(power)),
{
    reveal_strlit("W (avg: ");
    reveal_strlit("W peak: ");
    reveal_strlit("W)");
    let a = power.now@ + "W (avg: "@;
    let b = a + power.average@;
    let c = b + "W peak: "@;
    let d = c + power.peak@;
    screen::lemma_plain_joined(power.now@, "W (avg: "@);
    screen::lemma_plain_joined(a, power.average@);
    screen::lemma_plain_joined(b, "W peak: "@);
    screen::lemma_plain_joined(c, power.peak@);
    screen::lemma_plain_joined(d, "W)"@);
    screen::lemma_plain_joined(before, screen::power_text(power));
}

/// The title of the panel of the power is plain.
pub proof fn lemma_title_plain(readouts: Readouts, thermal_pressure: Seq<char>)
    requires
        are_plain(readouts),
    ensures
        canvas::is_plain(screen::power_title(readouts, thermal_pressure)),
{
    reveal_strlit("CPU+GPU+ANE Power: ");
    reveal_strlit(" throttle: ");
    reveal_strlit("no");
    reveal_strlit("yes");
    let a = "CPU+GPU+ANE Power: "@ + screen::power_text(readouts.package);
    let word = if thermal_pressure == "Nominal"@ {
        "no"@
    } else {
        "yes"@
    };
    lemma_power_plain("CPU+GPU+ANE Power: "@, readouts.package);
    screen::lemma_plain_joined(a, " throttle: "@);
    screen::lemma_plain_joined(a + " throttle: "@, word);
}

/// The words for the memory are plain.
pub proof fn lemma_memory_plain(memory: MemorySnapshot, readouts: Readouts)
    requires
        are_plain(readouts),
    ensures
        canvas::is_plain(screen::memory_text(memory, readouts)),
{
    reveal_strlit("RAM Usage: ");
    reveal_strlit("/");
    reveal_strlit("GB - swap inactive");
    reveal_strlit("GB - swap:");
    reveal_strlit("GB");
    let a = "RAM Usage: "@ + readouts.used_gb@;
    let usage = a + "/"@ + readouts.total_gb@;
    screen::lemma_plain_joined("RAM Usage: "@, readouts.used_gb@);
    screen::lemma_plain_joined(a, "/"@);
    screen::lemma_plain_joined(a + "/"@, readouts.total_gb@);
    screen::lemma_plain_joined(usage, "GB - swap inactive"@);
    let b = usage + "GB - swap:"@;
    let c = b + readouts.swap_used_gb@;
    let d = c + "/"@;
    let e = d + readouts.swap_total_gb@;
    screen::lemma_plain_joined(usage, "GB - swap:"@);
    screen::lemma_plain_joined(b, readouts.swap_used_gb@);
    screen::lemma_plain_joined(c, "/"@);
    screen::lemma_plain_joined(d, readouts.swap_total_gb@);
    screen::lemma_plain_joined(e, "GB"@);
}

/// The words for a chip with a plain name are plain.
pub proof fn lemma_soc_plain(soc: SocInfo)
    requires
        canvas::is_plain(soc.name@),
    ensures
        canvas::is_plain(screen::soc_text(soc)),
{
    reveal_strlit(" (cores: ");
    reveal_strlit("E+");
    reveal_strlit("P+");
    reveal_strlit("GPU)");
    let a = soc.name@ + " (cores: "@;
    let b = a + text::numeral(soc.e_core_count as nat);
    let c = b + "E+"@;
    let d = c + text::numeral(soc.p_core_count as nat);
    let e = d + "P+"@;
    let f = e + text::numeral(soc.gpu_core_count as nat);
    lemma_numeral_plain(soc.e_core_count as nat);
    lemma_numeral_plain(soc.p_core_count as nat);
    lemma_numeral_plain(soc.gpu_core_count as nat);
    screen::lemma_plain_joined(soc.name@, " (cores: "@);
    screen::lemma_plain_joined(a, text::numeral(soc.e_core_count as nat));
    screen::lemma_plain_joined(b, "E+"@);
    screen::lemma_plain_joined(c, text::numeral(soc.p_core_count as nat));
    screen::lemma_plain_joined(d, "P+"@);
    screen::lemma_plain_joined(e, text::numeral(soc.gpu_core_count as nat));
    screen::lemma_plain_joined(f, "GPU)"@);
}

/// Whether digits spell a number.
pub open spec fn spells(digits: Seq<char>, n: nat) -> bool {
    text::unsigned_value(digits, n) == Some(n)
}

/// A load and a frequency in words are the numbers themselves, which can be read back.
pub proof fn law_load_reads_back(percent: u16, freq_mhz: u64)
    ensures
        exists|load: Seq<char>, freq: Seq<char>|
            #![trigger spells(load, percent as nat), spells(freq, freq_mhz as nat)]
            spells(load, percent as nat) && spells(freq, freq_mhz as nat) && screen::load_text(
                percent,
                freq_mhz,
            ) == load + "% @ "@ + freq + " MHz"@,
{
    text::law_numeral_reads_back(percent as nat, percent as nat);
    text::law_numeral_reads_back(freq_mhz as nat, freq_mhz as nat);
    assert(spells(text::numeral(percent as nat), percent as nat));
    assert(spells(text::numeral(freq_mhz as nat), freq_mhz as nat));
}

/// A core is named by its number, counted from one, so that cores of different numbers have
/// different names; its load and frequency follow. Only performance cores among six or more have
/// their word cut short.
pub proof fn law_core_is_named(core: CoreMetric, e_cluster: bool, count: nat)
    ensures
        exists|number: Seq<char>|
            #![trigger spells(number, (core.cpu + 1) as nat)]
            spells(number, (core.cpu + 1) as nat) && screen::core_text(core, e_cluster, count) == (
            if !e_cluster && count >= 6 {
                "C-"@
            } else {
                "Core-"@
            }) + number + " "@ + screen::load_text(core.active_percent, core.freq_mhz),
{
    text::law_numeral_reads_back((core.cpu + 1) as nat, (core.cpu + 1) as nat);
    assert(spells(text::numeral((core.cpu + 1) as nat), (core.cpu + 1) as nat));
}

/// The words for the neural engine name its load, which can be read back, and its power.
pub proof fn law_ane_reads_back(readouts: Readouts)
    ensures
        exists|load: Seq<char>|
            #![trigger spells(load, readouts.ane_percent as nat)]
            spells(load, readouts.ane_percent as nat) && screen::ane_text(readouts) == load
                + "% @ "@ + readouts.ane_watts@ + " W"@,
{
    text::law_numeral_reads_back(readouts.ane_percent as nat, readouts.ane_percent as nat);
    assert(spells(text::numeral(readouts.ane_percent as nat), readouts.ane_percent as nat));
}

/// The words for the memory name what is in use of what there is, and the same of the swap where
/// there is a tenth of a GiB of it or more.
pub proof fn law_memory_words(memory: MemorySnapshot, readouts: Readouts)
    ensures
        10 * memory.swap_total < 0x4000_0000 ==> screen::memory_text(memory, readouts)
            == "RAM Usage: "@ + readouts.used_gb@ + "/"@ + readouts.total_gb@
            + "GB - swap inactive"@,
        10 * memory.swap_total >= 0x4000_0000 ==> screen::memory_text(memory, readouts)
            == "RAM Usage: "@ + readouts.used_gb@ + "/"@ + readouts.total_gb@ + "GB - swap:"@
            + readouts.swap_used_gb@ + "/"@ + readouts.swap_total_gb@ + "GB"@,
{
}

/// The words for power name what is drawn now, then its average, then its peak. The title of the
/// panel names the power of the package, and calls the machine throttled unless its thermal
/// pressure is nominal.
pub proof fn law_power_words(power: PowerText, readouts: Readouts, thermal_pressure: Seq<char>)
    ensures
        screen::power_text(power) == power.now@ + "W (avg: "@ + power.average@ + "W peak: "@
            + power.peak@ + "W)"@,
        thermal_pressure == "Nominal"@ ==> screen::power_title(readouts, thermal_pressure)
            == "CPU+GPU+ANE Power: "@ + screen::power_text(readouts.package) + " throttle: "@
            + "no"@,
        thermal_pressure != "Nominal"@ ==> screen::power_title(readouts, thermal_pressure)
            == "CPU+GPU+ANE Power: "@ + screen::power_text(readouts.package) + " throttle: "@
            + "yes"@,
{
}

/// The words for the chip name it and the numbers of its cores, which can be read back: first the
/// efficiency cores, then the performance cores, then those of the graphics.
pub proof fn law_chip_reads_back(soc: SocInfo)
    ensures
        exists|e: Seq<char>, p: Seq<char>, gpu: Seq<char>|
            #![trigger spells(e, soc.e_core_count as nat), spells(p, soc.p_core_count as nat), spells(gpu, soc.gpu_core_count as nat)]
            spells(e, soc.e_core_count as nat) && spells(p, soc.p_core_count as nat) && spells(
                gpu,
                soc.gpu_core_count as nat,
            ) && screen::soc_text(soc) == soc.name@ + " (cores: "@ + e + "E+"@ + p + "P+"@ + gpu
                + "GPU)"@,
{
    text::law_numeral_reads_back(soc.e_core_count as nat, soc.e_core_count as nat);
    text::law_numeral_reads_back(soc.p_core_count as nat, soc.p_core_count as nat);
    text::law_numeral_reads_back(soc.gpu_core_count as nat, soc.gpu_core_count as nat);
    assert(spells(text::numeral(soc.e_core_count as nat), soc.e_core_count as nat));
    assert(spells(text::numeral(soc.p_core_count as nat), soc.p_core_count as nat));
    assert(spells(text::numeral(soc.gpu_core_count as nat), soc.gpu_core_count as nat));
}

} // verus!
