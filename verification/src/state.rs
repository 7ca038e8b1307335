//! What the monitor remembers between samples.

use crate::memory;
use crate::memory::MemorySnapshot;
use crate::snapshot;
use crate::snapshot::Snapshot;
use crate::soc::SocInfo;
use crate::watts::Watts;
use std::collections::VecDeque;
use vstd::prelude::*;

verus! {

/// How many values a history holds.
pub const HISTORY_LEN: usize = 120;

/// The choices of the command line.
#[derive(Debug, Clone, Copy, PartialEq, Eq, Structural)]
pub struct Args {
    /// Seconds between samples.
    pub interval: u64,
    /// Index of the display color.
    pub color: u8,
    /// Seconds over which power is averaged.
    pub avg: u64,
    /// Whether each core is shown.
    pub show_cores: bool,
    /// After how many refreshes the sampler is started anew; zero for never.
    pub max_count: u64,
}

impl Args {
    /// The seconds between samples, at least one.
    pub open spec fn period(self) -> u64 {
        if self.interval > 1 {
            self.interval
        } else {
            1
        }
    }

    /// How many samples an average takes in, at least one.
    pub open spec fn sample_limit(self) -> usize {
        let count = (self.avg / self.period()) as usize;
        if count > 1 {
            count
        } else {
            1
        }
    }

    /// The seconds between samples, at least one.
    pub fn seconds(&self) -> (r: u64)
        ensures
            r == self.period(),
    {
        if self.interval > 1 {
            self.interval
        } else {
            1
        }
    }

    /// How many samples an average takes in, at least one.
    pub fn max_samples(&self) -> (r: usize)
        ensures
            r == self.sample_limit(),
            r >= 1,
    {
        let count: usize = (self.avg / self.seconds()) as usize;
        if count > 1 {
            count
        } else {
            1
        }
    }
}

/// `history` with `value` at its end, after the oldest entry made room where there were `limit`.
pub open spec fn appended<T>(history: Seq<T>, value: T, limit: nat) -> Seq<T> {
    if history.len() == limit && limit > 0 {
        history.skip(1).push(value)
    } else {
        history.push(value)
    }
}

/// Adds a value to a history, which keeps the newest 120 of them.
pub fn push_history(history: &mut VecDeque<u64>, value: u64)
    ensures
        final(history)@ == appended(old(history)@, value, HISTORY_LEN as nat),
        old(history)@.len() <= HISTORY_LEN ==> final(history)@.len() <= HISTORY_LEN,
{
    if history.len() == HISTORY_LEN {
        history.pop_front();
        assert(history@ =~= old(history)@.skip(1));
    }
    history.push_back(value);
}

/// Adds a sample, of which the newest `max_len` are kept.
pub fn push_sample(history: &mut VecDeque<Watts>, value: Watts, max_len: usize)
    ensures
        final(history)@ == appended(old(history)@, value, max_len as nat),
        0 < max_len && old(history)@.len() <= max_len ==> final(history)@.len() <= max_len,
{
    if history.len() == max_len {
        history.pop_front();
        assert(max_len > 0 ==> history@ =~= old(history)@.skip(1));
    }
    history.push_back(value);
}

/// What a history holds after `values` were added to it one by one.
pub open spec fn recorded<T>(values: Seq<T>, limit: nat) -> Seq<T>
    decreases values.len(),
{
    if values.len() == 0 {
        Seq::empty()
    } else {
        appended(recorded(values.drop_last(), limit), values.last(), limit)
    }
}

/// A history holds the newest values in the order in which they came, as many as it has room for.
pub proof fn law_history_keeps_newest<T>(values: Seq<T>, limit: nat)
    requires
        limit > 0,
    ensures
        recorded(values, limit) == values.skip(
            if values.len() > limit {
                values.len() - limit
            } else {
                0
            },
        ),
        recorded(values, limit).len() <= limit,
    decreases values.len(),
{
    if values.len() > 0 {
        law_history_keeps_newest(values.drop_last(), limit);
        let start = if values.len() > limit {
            values.len() - limit
        } else {
            0
        };
        assert(recorded(values, limit) =~= values.skip(start));
    } else {
        assert(values.skip(0) =~= Seq::empty());
    }
}

/// The highest of `samples`, or zero where none is above it.
pub open spec fn peak_of(samples: Seq<Watts>) -> Watts
    decreases samples.len(),
{
    if samples.len() == 0 {
        Watts::spec_zero()
    } else {
        peak_of(samples.drop_last()).larger(samples.last())
    }
}

/// A peak is a number, is no lower than zero nor than any sample that is a number, and is zero or
/// one of the samples. It never falls when a sample is added.
pub proof fn law_peak_is_highest(samples: Seq<Watts>, next: Watts)
    ensures
        !peak_of(samples).is_nan(),
        peak_of(samples).rank() >= 0,
        forall|i: int|
            0 <= i < samples.len() && !samples[i].is_nan() ==> (#[trigger] samples[i]).rank()
                <= peak_of(samples).rank(),
        peak_of(samples) == Watts::spec_zero() || samples.contains(peak_of(samples)),
        peak_of(samples).rank() <= peak_of(samples.push(next)).rank(),
    decreases samples.len(),
{
    assert(samples.push(next).drop_last() =~= samples);
    if samples.len() > 0 {
        let before = samples.drop_last();
        law_peak_is_highest(before, samples.last());
        assert forall|i: int| 0 <= i < samples.len() && !samples[i].is_nan() implies (
        #[trigger] samples[i]).rank() <= peak_of(samples).rank() by {
            if i < before.len() {
                assert(before[i] == samples[i]);
            }
        }
        if peak_of(samples) == samples.last() {
            assert(samples[samples.len() - 1] == samples.last());
        } else if peak_of(samples) != Watts::spec_zero() {
            let i = choose|i: int| 0 <= i < before.len() && before[i] == peak_of(before);
            assert(samples[i] == peak_of(samples));
        }
    }
}

/// A snapshot with what was measured along with it.
#[derive(Debug, Clone)]
pub struct Sample {
    pub snapshot: Snapshot,
    pub memory: MemorySnapshot,
    /// Processor power in percents of its budget, rounded to whole ones.
    pub cpu_share: i64,
    /// Graphics power in percents of its budget, rounded to whole ones.
    pub gpu_share: i64,
}

/// Everything that the screen is drawn from.
#[derive(Debug)]
pub struct App {
    pub args: Args,
    pub soc: SocInfo,
    pub last_snapshot: Option<Snapshot>,
    pub memory: MemorySnapshot,
    pub cpu_history: VecDeque<u64>,
    pub gpu_history: VecDeque<u64>,
    pub package_samples: VecDeque<Watts>,
    pub cpu_samples: VecDeque<Watts>,
    pub gpu_samples: VecDeque<Watts>,
    pub package_peak: Watts,
    pub cpu_peak: Watts,
    pub gpu_peak: Watts,
}

impl App {
    /// Whether nothing holds more entries than it keeps.
    pub open spec fn well_formed(self) -> bool {
        &&& self.cpu_history@.len() <= HISTORY_LEN
        &&& self.gpu_history@.len() <= HISTORY_LEN
        &&& self.package_samples@.len() <= self.args.sample_limit()
        &&& self.cpu_samples@.len() <= self.args.sample_limit()
        &&& self.gpu_samples@.len() <= self.args.sample_limit()
    }

    /// The state before the first sample.
    pub fn new(args: Args, soc: SocInfo) -> (r: App)
        ensures
            r.args == args,
            r.soc == soc,
            r.last_snapshot is None,
            r.memory == (MemorySnapshot {
                total: 0,
                used: 0,
                swap_total: 0,
                swap_used: 0,
                used_percent: 0,
            }),
            r.cpu_history@ == Seq::<u64>::empty(),
            r.gpu_history@ == Seq::<u64>::empty(),
            r.package_samples@ == Seq::<Watts>::empty(),
            r.cpu_samples@ == Seq::<Watts>::empty(),
            r.gpu_samples@ == Seq::<Watts>::empty(),
            r.package_peak == Watts::spec_zero(),
            r.cpu_peak == Watts::spec_zero(),
            r.gpu_peak == Watts::spec_zero(),
            r.has_taken_in(Seq::empty()),
            r.well_formed(),
    {
        App {
            args,
            soc,
            last_snapshot: None,
            memory: memory::unmeasured(),
            cpu_history: VecDeque::with_capacity(HISTORY_LEN),
            gpu_history: VecDeque::with_capacity(HISTORY_LEN),
            package_samples: VecDeque::with_capacity(HISTORY_LEN),
            cpu_samples: VecDeque::with_capacity(HISTORY_LEN),
            gpu_samples: VecDeque::with_capacity(HISTORY_LEN),
            package_peak: Watts::zero(),
            cpu_peak: Watts::zero(),
            gpu_peak: Watts::zero(),
        }
    }

    /// Takes in a sample.
    pub fn apply_snapshot(&mut self, sample: Sample)
        ensures
            is_applied(*old(self), *final(self), sample),
            old(self).well_formed() ==> final(self).well_formed(),
    {
        let snapshot: Snapshot = sample.snapshot;
        self.memory = sample.memory;
        let max_len: usize = self.args.max_samples();
        push_history(&mut self.cpu_history, snapshot::percentage(sample.cpu_share) as u64);
        push_history(&mut self.gpu_history, snapshot::percentage(sample.gpu_share) as u64);
        push_sample(&mut self.package_samples, snapshot.power.package_watts, max_len);
        push_sample(&mut self.cpu_samples, snapshot.power.cpu_watts, max_len);
        push_sample(&mut self.gpu_samples, snapshot.power.gpu_watts, max_len);
        self.package_peak = self.package_peak.max(snapshot.power.package_watts);
        self.cpu_peak = self.cpu_peak.max(snapshot.power.cpu_watts);
        self.gpu_peak = self.gpu_peak.max(snapshot.power.gpu_watts);
        self.last_snapshot = Some(snapshot);
    }
}

/// The percentage that a history records of a share.
pub open spec fn percent(share: i64) -> u64 {
    snapshot::bounded(share as int) as u64
}

/// Whether `after` is `before` with a sample taken in: the snapshot is the last one, the
/// histories, the measurements to average and the peaks have it added, and all else is kept.
pub open spec fn is_applied(before: App, after: App, sample: Sample) -> bool {
    let limit = before.args.sample_limit() as nat;
    let power = sample.snapshot.power;
    &&& after.args == before.args
    &&& after.soc == before.soc
    &&& after.last_snapshot == Some(sample.snapshot)
    &&& after.memory == sample.memory
    &&& after.cpu_history@ == appended(
        before.cpu_history@,
        percent(sample.cpu_share),
        HISTORY_LEN as nat,
    )
    &&& after.gpu_history@ == appended(
        before.gpu_history@,
        percent(sample.gpu_share),
        HISTORY_LEN as nat,
    )
    &&& after.package_samples@ == appended(before.package_samples@, power.package_watts, limit)
    &&& after.cpu_samples@ == appended(before.cpu_samples@, power.cpu_watts, limit)
    &&& after.gpu_samples@ == appended(before.gpu_samples@, power.gpu_watts, limit)
    &&& after.package_peak == before.package_peak.larger(power.package_watts)
    &&& after.cpu_peak == before.cpu_peak.larger(power.cpu_watts)
    &&& after.gpu_peak == before.gpu_peak.larger(power.gpu_watts)
}

/// The package power of each sample.
pub open spec fn package_powers(samples: Seq<Sample>) -> Seq<Watts> {
    samples.map_values(|s: Sample| s.snapshot.power.package_watts)
}

/// The processor power of each sample.
pub open spec fn cpu_powers(samples: Seq<Sample>) -> Seq<Watts> {
    samples.map_values(|s: Sample| s.snapshot.power.cpu_watts)
}

/// The graphics power of each sample.
pub open spec fn gpu_powers(samples: Seq<Sample>) -> Seq<Watts> {
    samples.map_values(|s: Sample| s.snapshot.power.gpu_watts)
}

/// The processor power of each sample in percent.
pub open spec fn cpu_percents(samples: Seq<Sample>) -> Seq<u64> {
    samples.map_values(|s: Sample| percent(s.cpu_share))
}

/// The graphics power of each sample in percent.
pub open spec fn gpu_percents(samples: Seq<Sample>) -> Seq<u64> {
    samples.map_values(|s: Sample| percent(s.gpu_share))
}

impl App {
    /// Whether the histories, the measurements to average and the peaks are those of `samples`.
    pub open spec fn has_taken_in(self, samples: Seq<Sample>) -> bool {
        let limit = self.args.sample_limit() as nat;
        &&& self.cpu_history@ == recorded(cpu_percents(samples), HISTORY_LEN as nat)
        &&& self.gpu_history@ == recorded(gpu_percents(samples), HISTORY_LEN as nat)
        &&& self.package_samples@ == recorded(package_powers(samples), limit)
        &&& self.cpu_samples@ == recorded(cpu_powers(samples), limit)
        &&& self.gpu_samples@ == recorded(gpu_powers(samples), limit)
        &&& self.package_peak == peak_of(package_powers(samples))
        &&& self.cpu_peak == peak_of(cpu_powers(samples))
        &&& self.gpu_peak == peak_of(gpu_powers(samples))
    }
}

/// A state is at any time that of all the samples taken in so far: it starts as that of none, and
/// taking in one more makes it that of one more.
pub proof fn law_state_of_all_samples(before: App, after: App, samples: Seq<Sample>, next: Sample)
    requires
        before.has_taken_in(samples),
        is_applied(before, after, next),
    ensures
        after.has_taken_in(samples.push(next)),
{
    let all = samples.push(next);
    assert(cpu_percents(all).drop_last() =~= cpu_percents(samples));
    assert(gpu_percents(all).drop_last() =~= gpu_percents(samples));
    assert(package_powers(all).drop_last() =~= package_powers(samples));
    assert(cpu_powers(all).drop_last() =~= cpu_powers(samples));
    assert(gpu_powers(all).drop_last() =~= gpu_powers(samples));
}

/// A history holds as many entries as there were samples, up to its room, and none above a hundred,
/// whatever shares of power the samples had.
pub proof fn law_histories_hold_percentages(app: App, samples: Seq<Sample>)
    requires
        app.has_taken_in(samples),
    ensures
        app.cpu_history@.len() == (if samples.len() < HISTORY_LEN {
            samples.len()
        } else {
            HISTORY_LEN as nat
        }),
        app.gpu_history@.len() == app.cpu_history@.len(),
        forall|k: int|
            0 <= k < app.cpu_history@.len() ==> #[trigger] app.cpu_history@[k] <= 100,
        forall|k: int|
            0 <= k < app.gpu_history@.len() ==> #[trigger] app.gpu_history@[k] <= 100,
{
    law_history_keeps_newest(cpu_percents(samples), HISTORY_LEN as nat);
    law_history_keeps_newest(gpu_percents(samples), HISTORY_LEN as nat);
    let start = if samples.len() > HISTORY_LEN {
        samples.len() - HISTORY_LEN
    } else {
        0
    };
    assert forall|k: int| 0 <= k < app.cpu_history@.len() implies #[trigger] app.cpu_history@[k]
        <= 100 by {
        assert(app.cpu_history@[k] == percent(samples[start + k].cpu_share));
    }
    assert forall|k: int| 0 <= k < app.gpu_history@.len() implies #[trigger] app.gpu_history@[k]
        <= 100 by {
        assert(app.gpu_history@[k] == percent(samples[start + k].gpu_share));
    }
}

/// Every history, every list of measurements and every peak is that of its own part: the histories
/// hold the shares of power of the newest samples, from the oldest to the newest, the measurements
/// to average the power of as many of them as the average takes in.
pub proof fn law_state_follows_samples(app: App, samples: Seq<Sample>)
    requires
        app.has_taken_in(samples),
    ensures
        ({
            let start = if samples.len() > HISTORY_LEN {
                samples.len() - HISTORY_LEN
            } else {
                0
            };
            &&& app.cpu_history@.len() == samples.len() - start
            &&& app.gpu_history@.len() == samples.len() - start
            &&& forall|k: int|
                0 <= k < samples.len() - start ==> #[trigger] app.cpu_history@[k]
                    == snapshot::bounded(samples[start + k].cpu_share as int)
            &&& forall|k: int|
                0 <= k < samples.len() - start ==> #[trigger] app.gpu_history@[k]
                    == snapshot::bounded(samples[start + k].gpu_share as int)
        }),
        ({
            let limit = app.args.sample_limit();
            let start = if samples.len() > limit {
                samples.len() - limit
            } else {
                0
            };
            &&& app.package_samples@.len() == samples.len() - start
            &&& app.cpu_samples@.len() == samples.len() - start
            &&& app.gpu_samples@.len() == samples.len() - start
            &&& forall|k: int|
                0 <= k < samples.len() - start ==> #[trigger] app.package_samples@[k]
                    == samples[start + k].snapshot.power.package_watts
            &&& forall|k: int|
                0 <= k < samples.len() - start ==> #[trigger] app.cpu_samples@[k]
                    == samples[start + k].snapshot.power.cpu_watts
            &&& forall|k: int|
                0 <= k < samples.len() - start ==> #[trigger] app.gpu_samples@[k]
                    == samples[start + k].snapshot.power.gpu_watts
        }),
        forall|i: int|
            #![trigger samples[i]]
            0 <= i < samples.len() ==> {
                let power = samples[i].snapshot.power;
                &&& !power.package_watts.is_nan() ==> power.package_watts.rank()
                    <= app.package_peak.rank()
                &&& !power.cpu_watts.is_nan() ==> power.cpu_watts.rank() <= app.cpu_peak.rank()
                &&& !power.gpu_watts.is_nan() ==> power.gpu_watts.rank() <= app.gpu_peak.rank()
            },
        app.package_peak == Watts::spec_zero() || exists|i: int|
            0 <= i < samples.len() && (#[trigger] samples[i]).snapshot.power.package_watts
                == app.package_peak,
        app.cpu_peak == Watts::spec_zero() || exists|i: int|
            0 <= i < samples.len() && (#[trigger] samples[i]).snapshot.power.cpu_watts
                == app.cpu_peak,
        app.gpu_peak == Watts::spec_zero() || exists|i: int|
            0 <= i < samples.len() && (#[trigger] samples[i]).snapshot.power.gpu_watts
                == app.gpu_peak,
{
    let limit = app.args.sample_limit() as nat;
    let packages = package_powers(samples);
    let cpus = cpu_powers(samples);
    let gpus = gpu_powers(samples);
    law_history_keeps_newest(cpu_percents(samples), HISTORY_LEN as nat);
    law_history_keeps_newest(gpu_percents(samples), HISTORY_LEN as nat);
    law_history_keeps_newest(packages, limit);
    law_history_keeps_newest(cpus, limit);
    law_history_keeps_newest(gpus, limit);
    law_peak_is_highest(packages, Watts::spec_zero());
    law_peak_is_highest(cpus, Watts::spec_zero());
    law_peak_is_highest(gpus, Watts::spec_zero());
    assert forall|i: int|
        #![trigger samples[i]]
        0 <= i < samples.len() implies {
        let power = samples[i].snapshot.power;
        &&& !power.package_watts.is_nan() ==> power.package_watts.rank() <= app.package_peak.rank()
        &&& !power.cpu_watts.is_nan() ==> power.cpu_watts.rank() <= app.cpu_peak.rank()
        &&& !power.gpu_watts.is_nan() ==> power.gpu_watts.rank() <= app.gpu_peak.rank()
    } by {
        assert(packages[i] == samples[i].snapshot.power.package_watts);
        assert(cpus[i] == samples[i].snapshot.power.cpu_watts);
        assert(gpus[i] == samples[i].snapshot.power.gpu_watts);
    }
    if app.package_peak != Watts::spec_zero() {
        let i = choose|i: int| 0 <= i < packages.len() && packages[i] == peak_of(packages);
        assert(samples[i].snapshot.power.package_watts == app.package_peak);
    }
    if app.cpu_peak != Watts::spec_zero() {
        let i = choose|i: int| 0 <= i < cpus.len() && cpus[i] == peak_of(cpus);
        assert(samples[i].snapshot.power.cpu_watts == app.cpu_peak);
    }
    if app.gpu_peak != Watts::spec_zero() {
        let i = choose|i: int| 0 <= i < gpus.len() && gpus[i] == peak_of(gpus);
        assert(samples[i].snapshot.power.gpu_watts == app.gpu_peak);
    }
}

/// An average takes in the samples of the time that it goes over, at least one: as many as there
/// are periods in it.
pub proof fn law_average_goes_over_its_time(args: Args)
    requires
        args.avg <= usize::MAX,
    ensures
        args.period() >= 1,
        args.interval >= 1 ==> args.period() == args.interval,
        args.sample_limit() >= 1,
        args.avg >= args.period() ==> args.sample_limit() * args.period() <= args.avg < (
        args.sample_limit() + 1) * args.period(),
        args.avg < args.period() ==> args.sample_limit() == 1,
{
    let avg = args.avg as int;
    let period = args.period() as int;
    vstd::arithmetic::div_mod::lemma_fundamental_div_mod(avg, period);
    vstd::arithmetic::div_mod::lemma_mod_bound(avg, period);
    let count = avg / period;
    assert(period * count == count * period) by (nonlinear_arith);
    assert((count + 1) * period == count * period + period) by (nonlinear_arith);
    assert(count <= avg) by (nonlinear_arith)
        requires
            count == avg / period,
            period >= 1,
            avg >= 0,
    ;
    if avg < period {
        assert(count == 0) by (nonlinear_arith)
            requires
                count == avg / period,
                0 <= avg < period,
        ;
    } else {
        assert(count >= 1) by (nonlinear_arith)
            requires
                count == avg / period,
                avg >= period,
                period >= 1,
        ;
    }
}

} // verus!
