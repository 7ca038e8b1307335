//! One sample of the machine, put together from the figures of its clusters.

use crate::text;
use crate::watts::Watts;
use vstd::prelude::*;

verus! {

/// The load and frequency of one core.
#[derive(Debug, Clone, Copy, PartialEq, Eq, Structural)]
pub struct CoreMetric {
    pub cpu: usize,
    pub active_percent: u16,
    pub freq_mhz: u64,
}

/// The load and frequency of one cluster and of its cores.
#[verifier::ext_equal]
pub struct ClusterValue {
    pub name: Seq<char>,
    pub active_percent: u16,
    pub freq_mhz: u64,
    pub cores: Seq<CoreMetric>,
}

/// The load and frequency of the graphics processor.
#[derive(Debug, Clone, Copy, PartialEq, Eq, Structural)]
pub struct GpuMetric {
    pub active_percent: u16,
    pub freq_mhz: u64,
}

/// A figure of whole percents, held between nothing and all.
pub open spec fn bounded(figure: int) -> int {
    if figure < 0 {
        0
    } else if figure > 100 {
        100
    } else {
        figure
    }
}

/// Holds a figure of whole percents between nothing and all.
pub fn percentage(figure: i64) -> (r: u16)
    ensures
        r == bounded(figure as int),
        r <= 100,
{
    if figure < 0 {
        0
    } else if figure > 100 {
        100
    } else {
        figure as u16
    }
}

/// The load of a part by the figure for it. A part without one counts as busy all the time.
pub open spec fn load_of(figure: Option<i64>) -> u16 {
    match figure {
        Some(percents) => bounded(percents as int) as u16,
        None => 100,
    }
}

/// Tells the load of a part by the figure for it.
pub fn load(figure: Option<i64>) -> (r: u16)
    ensures
        r == load_of(figure),
        r <= 100,
{
    match figure {
        Some(percents) => percentage(percents),
        None => 100,
    }
}

/// The figures of one core: how much of the time it was busy, in percents rounded to whole ones,
/// and its frequency.
#[derive(Debug, Clone, Copy, PartialEq, Eq)]
pub struct CoreFigures {
    pub cpu: usize,
    pub active: Option<i64>,
    pub freq_mhz: u64,
}

impl CoreFigures {
    /// The load and frequency that the figures tell.
    pub open spec fn metric(self) -> CoreMetric {
        CoreMetric {
            cpu: self.cpu,
            active_percent: load_of(self.active),
            freq_mhz: self.freq_mhz,
        }
    }
}

/// The figures of one cluster and of its cores.
#[derive(Debug, Clone)]
pub struct ClusterFigures {
    pub name: String,
    pub active: Option<i64>,
    pub freq_mhz: u64,
    pub cores: Vec<CoreFigures>,
}

impl ClusterFigures {
    /// The loads and frequencies that the figures tell.
    pub open spec fn value(self) -> ClusterValue {
        ClusterValue {
            name: self.name@,
            active_percent: load_of(self.active),
            freq_mhz: self.freq_mhz,
            cores: metrics(self.cores@),
        }
    }
}

/// The loads and frequencies that the figures of cores tell.
pub open spec fn metrics(cores: Seq<CoreFigures>) -> Seq<CoreMetric> {
    cores.map_values(|core: CoreFigures| core.metric())
}

/// The figures of the graphics processor.
#[derive(Debug, Clone, Copy, PartialEq, Eq)]
pub struct GpuFigures {
    pub active: Option<i64>,
    pub freq_mhz: u64,
}

impl GpuFigures {
    /// The load and frequency that the figures tell.
    pub open spec fn metric(self) -> GpuMetric {
        GpuMetric { active_percent: load_of(self.active), freq_mhz: self.freq_mhz }
    }
}

/// The power drawn by the parts of the machine.
#[derive(Debug, Clone, Copy, PartialEq, Eq, Structural)]
pub struct PowerMetric {
    pub ane_watts: Watts,
    pub cpu_watts: Watts,
    pub gpu_watts: Watts,
    pub package_watts: Watts,
}

/// One sample of the machine.
#[derive(Debug, Clone)]
pub struct Snapshot {
    pub timestamp: String,
    pub thermal_pressure: String,
    pub e_cluster_active: u16,
    pub e_cluster_freq_mhz: u64,
    pub p_cluster_active: u16,
    pub p_cluster_freq_mhz: u64,
    pub e_cores: Vec<CoreMetric>,
    pub p_cores: Vec<CoreMetric>,
    pub gpu: GpuMetric,
    pub power: PowerMetric,
}

/// The sum of the percentages.
pub open spec fn percent_sum(values: Seq<u16>) -> nat
    decreases values.len(),
{
    if values.len() == 0 {
        0
    } else {
        percent_sum(values.drop_last()) + values.last() as nat
    }
}

/// The mean of the percentages, rounded down; zero where there are none.
pub open spec fn mean_percent(values: Seq<u16>) -> nat {
    if values.len() == 0 {
        0
    } else {
        percent_sum(values) / values.len()
    }
}

/// The largest value; zero where there are none.
pub open spec fn largest(values: Seq<u64>) -> u64
    decreases values.len(),
{
    if values.len() == 0 {
        0
    } else {
        let before = largest(values.drop_last());
        if values.last() > before {
            values.last()
        } else {
            before
        }
    }
}

/// The largest value is one of the values and none is larger.
pub proof fn lemma_largest(values: Seq<u64>)
    ensures
        forall|i: int| 0 <= i < values.len() ==> #[trigger] values[i] <= largest(values),
        values.len() > 0 ==> values.contains(largest(values)),
        values.len() == 0 ==> largest(values) == 0,
    decreases values.len(),
{
    if values.len() > 0 {
        let before = values.drop_last();
        lemma_largest(before);
        assert forall|i: int| 0 <= i < values.len() implies #[trigger] values[i] <= largest(
            values,
        ) by {
            if i < values.len() - 1 {
                assert(before[i] == values[i]);
            }
        }
        if largest(values) == values.last() {
            assert(values[values.len() - 1] == largest(values));
        } else {
            let i = choose|i: int| 0 <= i < before.len() && before[i] == largest(before);
            assert(values[i] == largest(values));
        }
    }
}

/// The mean lies between two bounds that every percentage keeps.
pub proof fn lemma_mean_within(values: Seq<u16>, low: nat, high: nat)
    requires
        values.len() > 0,
        forall|i: int| 0 <= i < values.len() ==> low <= #[trigger] values[i] <= high,
    ensures
        low <= mean_percent(values) <= high,
{
    lemma_sum_within(values, low, high);
    let n = values.len();
    let sum = percent_sum(values);
    assert(low <= sum / n <= high) by (nonlinear_arith)
        requires
            n > 0,
            n * low <= sum <= n * high,
    ;
}

proof fn lemma_sum_within(values: Seq<u16>, low: nat, high: nat)
    requires
        forall|i: int| 0 <= i < values.len() ==> low <= #[trigger] values[i] <= high,
    ensures
        values.len() * low <= percent_sum(values) <= values.len() * high,
    decreases values.len(),
{
    if values.len() > 0 {
        let before = values.drop_last();
        assert forall|i: int| 0 <= i < before.len() implies low <= #[trigger] before[i] <= high by {
            assert(before[i] == values[i]);
        }
        lemma_sum_within(before, low, high);
        assert(values.len() * low == before.len() * low + low) by (nonlinear_arith)
            requires
                values.len() == before.len() + 1,
        ;
        assert(values.len() * high == before.len() * high + high) by (nonlinear_arith)
            requires
                values.len() == before.len() + 1,
        ;
    }
}

/// The mean of the percentages, rounded down; zero where there are none.
pub fn average_percent(values: &[u16]) -> (r: u16)
    ensures
        r == mean_percent(values@),
{
    if values.len() == 0 {
        return 0;
    }
    let n: usize = values.len();
    let mut sum: u128 = 0;
    let mut i: usize = 0;
    assert(values@.take(0) =~= Seq::empty());
    while i < n
        invariant
            n == values@.len(),
            i <= n,
            sum == percent_sum(values@.take(i as int)),
            sum <= i * 0xffff,
        decreases n - i,
    {
        assert(values@.take(i + 1).drop_last() =~= values@.take(i as int));
        assert(i * 0xffff <= 0xffff_ffff_ffff_ffff * 0xffff) by (nonlinear_arith)
            requires
                i <= 0xffff_ffff_ffff_ffff,
        ;
        sum = sum + values[i] as u128;
        i = i + 1;
    }
    assert(values@.take(n as int) =~= values@);
    proof {
        lemma_mean_within(values@, 0, 0xffff);
    }
    (sum / n as u128) as u16
}

/// The largest value; zero where there are none.
pub fn max_u64(values: &[u64]) -> (r: u64)
    ensures
        r == largest(values@),
{
    let mut best: u64 = 0;
    let mut i: usize = 0;
    assert(values@.take(0) =~= Seq::empty());
    while i < values.len()
        invariant
            i <= values@.len(),
            best == largest(values@.take(i as int)),
        decreases values@.len() - i,
    {
        assert(values@.take(i + 1).drop_last() =~= values@.take(i as int));
        if values[i] > best {
            best = values[i];
        }
        i = i + 1;
    }
    assert(values@.take(values@.len() as int) =~= values@);
    best
}

/// Whether a cluster's name begins with `letter`.
pub open spec fn of_kind(cluster: ClusterValue, letter: char) -> bool {
    cluster.name.len() > 0 && cluster.name[0] == letter
}

/// The loads of the clusters whose names begin with `letter`.
pub open spec fn loads(clusters: Seq<ClusterValue>, letter: char) -> Seq<u16>
    decreases clusters.len(),
{
    if clusters.len() == 0 {
        Seq::empty()
    } else {
        let before = loads(clusters.drop_last(), letter);
        if of_kind(clusters.last(), letter) {
            before.push(clusters.last().active_percent)
        } else {
            before
        }
    }
}

/// The frequencies of the clusters whose names begin with `letter`.
pub open spec fn frequencies(clusters: Seq<ClusterValue>, letter: char) -> Seq<u64>
    decreases clusters.len(),
{
    if clusters.len() == 0 {
        Seq::empty()
    } else {
        let before = frequencies(clusters.drop_last(), letter);
        if of_kind(clusters.last(), letter) {
            before.push(clusters.last().freq_mhz)
        } else {
            before
        }
    }
}

/// The last cluster that is called `E-Cluster`.
pub open spec fn sole_e_cluster(clusters: Seq<ClusterValue>) -> Option<ClusterValue>
    decreases clusters.len(),
{
    if clusters.len() == 0 {
        None
    } else if clusters.last().name == "E-Cluster"@ {
        Some(clusters.last())
    } else {
        sole_e_cluster(clusters.drop_last())
    }
}

/// The cores of the clusters whose names begin with `E`, or of all the others, in order.
pub open spec fn cores_of(clusters: Seq<ClusterValue>, e_clusters: bool) -> Seq<CoreMetric>
    decreases clusters.len(),
{
    if clusters.len() == 0 {
        Seq::empty()
    } else {
        let before = cores_of(clusters.drop_last(), e_clusters);
        if of_kind(clusters.last(), 'E') == e_clusters {
            before + clusters.last().cores
        } else {
            before
        }
    }
}

/// The load of the efficiency cores: that of the `E-Cluster` where there is one, else the mean.
pub open spec fn e_load(clusters: Seq<ClusterValue>) -> nat {
    match sole_e_cluster(clusters) {
        Some(cluster) => cluster.active_percent as nat,
        None => mean_percent(loads(clusters, 'E')),
    }
}

/// The frequency of the efficiency cores: that of the `E-Cluster` where there is one, else the
/// highest.
pub open spec fn e_frequency(clusters: Seq<ClusterValue>) -> u64 {
    match sole_e_cluster(clusters) {
        Some(cluster) => cluster.freq_mhz,
        None => largest(frequencies(clusters, 'E')),
    }
}

/// The loads and frequencies that the figures of clusters tell.
pub open spec fn cluster_values(clusters: Seq<ClusterFigures>) -> Seq<ClusterValue> {
    clusters.map_values(|cluster: ClusterFigures| cluster.value())
}

/// The cores of all the clusters.
pub open spec fn all_cores(clusters: Seq<ClusterValue>) -> Seq<CoreMetric>
    decreases clusters.len(),
{
    if clusters.len() == 0 {
        Seq::empty()
    } else {
        all_cores(clusters.drop_last()) + clusters.last().cores
    }
}

/// No core is lost and none is listed twice: the efficiency cores and the performance cores are
/// together all the cores of the clusters.
pub proof fn law_every_core_is_listed(clusters: Seq<ClusterValue>)
    ensures
        cores_of(clusters, true).to_multiset().add(cores_of(clusters, false).to_multiset())
            == all_cores(clusters).to_multiset(),
        cores_of(clusters, true).len() + cores_of(clusters, false).len() == all_cores(
            clusters,
        ).len(),
    decreases clusters.len(),
{
    broadcast use vstd::seq_lib::group_to_multiset_ensures;

    if clusters.len() > 0 {
        let before = clusters.drop_last();
        law_every_core_is_listed(before);
        let last = clusters.last().cores;
        vstd::seq_lib::lemma_multiset_commutative(all_cores(before), last);
        vstd::seq_lib::lemma_multiset_commutative(cores_of(before, true), last);
        vstd::seq_lib::lemma_multiset_commutative(cores_of(before, false), last);
        assert(cores_of(clusters, true).to_multiset().add(
            cores_of(clusters, false).to_multiset(),
        ) =~= all_cores(clusters).to_multiset());
    } else {
        assert(cores_of(clusters, true).to_multiset().add(
            cores_of(clusters, false).to_multiset(),
        ) =~= all_cores(clusters).to_multiset());
    }
}

/// Every load of a sample is a percentage, whatever the figures are: that of the efficiency cores,
/// that of the performance cores, and that of any core that is listed.
pub proof fn law_loads_are_percentages(clusters: Seq<ClusterFigures>)
    ensures
        e_load(cluster_values(clusters)) <= 100,
        mean_percent(loads(cluster_values(clusters), 'E')) <= 100,
        mean_percent(loads(cluster_values(clusters), 'P')) <= 100,
        forall|e_clusters: bool, k: int|
            0 <= k < cores_of(cluster_values(clusters), e_clusters).len() ==> (#[trigger] cores_of(
                cluster_values(clusters),
                e_clusters,
            )[k]).active_percent <= 100,
{
    let values = cluster_values(clusters);
    assert forall|i: int| 0 <= i < values.len() implies (#[trigger] values[i]).active_percent
        <= 100 by {
        assert(values[i] == clusters[i].value());
    }
    assert forall|i: int, k: int| 0 <= i < values.len() && 0 <= k < values[i].cores.len() implies (
    #[trigger] values[i].cores[k]).active_percent <= 100 by {
        assert(values[i] == clusters[i].value());
        assert(values[i].cores[k] == clusters[i].cores@[k].metric());
    }
    lemma_loads_at_most(values, 'E');
    lemma_loads_at_most(values, 'P');
    if loads(values, 'E').len() > 0 {
        lemma_mean_within(loads(values, 'E'), 0, 100);
    }
    if loads(values, 'P').len() > 0 {
        lemma_mean_within(loads(values, 'P'), 0, 100);
    }
    lemma_sole_e_cluster(values);
    lemma_cores_at_most(values, true);
    lemma_cores_at_most(values, false);
    assert forall|e_clusters: bool, k: int|
        0 <= k < cores_of(values, e_clusters).len() implies (#[trigger] cores_of(
        values,
        e_clusters,
    )[k]).active_percent <= 100 by {
        if e_clusters {
            assert(cores_of(values, true)[k].active_percent <= 100);
        } else {
            assert(cores_of(values, false)[k].active_percent <= 100);
        }
    }
}

/// A part for which there is no figure counts as busy all the time.
pub proof fn law_unknown_load_is_full(core: CoreFigures, gpu: GpuFigures)
    ensures
        core.active is None ==> core.metric().active_percent == 100,
        gpu.active is None ==> gpu.metric().active_percent == 100,
{
}

proof fn lemma_loads_at_most(clusters: Seq<ClusterValue>, letter: char)
    requires
        forall|i: int| 0 <= i < clusters.len() ==> (#[trigger] clusters[i]).active_percent <= 100,
    ensures
        forall|k: int|
            0 <= k < loads(clusters, letter).len() ==> #[trigger] loads(clusters, letter)[k] <= 100,
    decreases clusters.len(),
{
    if clusters.len() > 0 {
        let before = clusters.drop_last();
        assert forall|i: int| 0 <= i < before.len() implies (#[trigger] before[i]).active_percent
            <= 100 by {
            assert(clusters[i].active_percent <= 100);
        }
        lemma_loads_at_most(before, letter);
        assert(clusters[clusters.len() - 1].active_percent <= 100);
        assert forall|k: int| 0 <= k < loads(clusters, letter).len() implies #[trigger] loads(
            clusters,
            letter,
        )[k] <= 100 by {
            if k < loads(before, letter).len() {
                assert(loads(clusters, letter)[k] == loads(before, letter)[k]);
            }
        }
    }
}

proof fn lemma_sole_e_cluster(clusters: Seq<ClusterValue>)
    ensures
        sole_e_cluster(clusters) matches Some(cluster) ==> clusters.contains(cluster),
    decreases clusters.len(),
{
    if clusters.len() > 0 {
        let before = clusters.drop_last();
        lemma_sole_e_cluster(before);
        if sole_e_cluster(clusters) is Some {
            if sole_e_cluster(clusters) == Some(clusters.last()) {
                assert(clusters[clusters.len() - 1] == clusters.last());
            } else {
                let i = choose|i: int|
                    0 <= i < before.len() && before[i] == sole_e_cluster(before)->0;
                assert(clusters[i] == sole_e_cluster(before)->0);
            }
        }
    }
}

proof fn lemma_cores_at_most(clusters: Seq<ClusterValue>, e_clusters: bool)
    requires
        forall|i: int, k: int|
            0 <= i < clusters.len() && 0 <= k < clusters[i].cores.len() ==> (
            #[trigger] clusters[i].cores[k]).active_percent <= 100,
    ensures
        forall|k: int|
            0 <= k < cores_of(clusters, e_clusters).len() ==> (#[trigger] cores_of(
                clusters,
                e_clusters,
            )[k]).active_percent <= 100,
    decreases clusters.len(),
{
    if clusters.len() > 0 {
        let before = clusters.drop_last();
        assert forall|i: int, k: int| 0 <= i < before.len() && 0 <= k < before[i].cores.len() implies
            (#[trigger] before[i].cores[k]).active_percent <= 100 by {
            assert(clusters[i].cores[k].active_percent <= 100);
        }
        lemma_cores_at_most(before, e_clusters);
        let last = clusters.len() - 1;
        assert forall|k: int| 0 <= k < cores_of(clusters, e_clusters).len() implies (
        #[trigger] cores_of(clusters, e_clusters)[k]).active_percent <= 100 by {
            let n = cores_of(before, e_clusters).len();
            if k < n {
                assert(cores_of(clusters, e_clusters)[k] == cores_of(before, e_clusters)[k]);
            } else {
                assert(cores_of(clusters, e_clusters)[k] == clusters[last].cores[k - n]);
            }
        }
    }
}

impl Snapshot {
    /// Whether no load is above a hundred percent.
    pub open spec fn has_percentages(self) -> bool {
        &&& self.e_cluster_active <= 100
        &&& self.p_cluster_active <= 100
        &&& self.gpu.active_percent <= 100
        &&& forall|k: int|
            0 <= k < self.e_cores@.len() ==> (#[trigger] self.e_cores@[k]).active_percent <= 100
        &&& forall|k: int|
            0 <= k < self.p_cores@.len() ==> (#[trigger] self.p_cores@[k]).active_percent <= 100
    }

    /// Puts a sample together.
    pub fn assemble(
        timestamp: String,
        thermal_pressure: String,
        clusters: &Vec<ClusterFigures>,
        gpu: GpuFigures,
        power: PowerMetric,
    ) -> (r: Snapshot)
        ensures
            r.timestamp@ == timestamp@,
            r.thermal_pressure@ == thermal_pressure@,
            r.e_cluster_active == e_load(cluster_values(clusters@)),
            r.e_cluster_freq_mhz == e_frequency(cluster_values(clusters@)),
            r.p_cluster_active == mean_percent(loads(cluster_values(clusters@), 'P')),
            r.p_cluster_freq_mhz == largest(frequencies(cluster_values(clusters@), 'P')),
            r.e_cores@ == cores_of(cluster_values(clusters@), true),
            r.p_cores@ == cores_of(cluster_values(clusters@), false),
            r.gpu == gpu.metric(),
            r.power == power,
            r.has_percentages(),
    {
        let ghost all = cluster_values(clusters@);
        let mut e_loads: Vec<u16> = Vec::new();
        let mut e_freqs: Vec<u64> = Vec::new();
        let mut p_loads: Vec<u16> = Vec::new();
        let mut p_freqs: Vec<u64> = Vec::new();
        let mut e_cluster: Option<(u16, u64)> = None;
        let mut e_cores: Vec<CoreMetric> = Vec::new();
        let mut p_cores: Vec<CoreMetric> = Vec::new();
        let mut i: usize = 0;
        proof {
            reveal_strlit("E-Cluster");
            assert(all.take(0) =~= Seq::empty());
        }
        while i < clusters.len()
            invariant
                i <= clusters.len(),
                all == cluster_values(clusters@),
                "E-Cluster"@[0] == 'E',
                "E-Cluster"@.len() > 0,
                e_loads@ == loads(all.take(i as int), 'E'),
                e_freqs@ == frequencies(all.take(i as int), 'E'),
                p_loads@ == loads(all.take(i as int), 'P'),
                p_freqs@ == frequencies(all.take(i as int), 'P'),
                match e_cluster {
                    Some((load, freq)) => sole_e_cluster(all.take(i as int)) matches Some(cluster)
                        && cluster.active_percent == load && cluster.freq_mhz == freq,
                    None => sole_e_cluster(all.take(i as int)) is None,
                },
                e_cores@ == cores_of(all.take(i as int), true),
                p_cores@ == cores_of(all.take(i as int), false),
            decreases clusters.len() - i,
        {
            let cluster: &ClusterFigures = &clusters[i];
            assert(all.take(i + 1).drop_last() =~= all.take(i as int));
            assert(all.take(i + 1).last() == cluster.value());
            let active: u16 = load(cluster.active);
            let efficiency: bool = text::begins_with(cluster.name.as_str(), 'E');
            if efficiency {
                if text::same_text(cluster.name.as_str(), "E-Cluster") {
                    e_cluster = Some((active, cluster.freq_mhz));
                }
                e_loads.push(active);
                e_freqs.push(cluster.freq_mhz);
            } else if text::begins_with(cluster.name.as_str(), 'P') {
                p_loads.push(active);
                p_freqs.push(cluster.freq_mhz);
            }
            let ghost e_before = e_cores@;
            let ghost p_before = p_cores@;
            let mut j: usize = 0;
            while j < cluster.cores.len()
                invariant
                    j <= cluster.cores.len(),
                    efficiency ==> e_cores@ == e_before + metrics(
                        cluster.cores@.take(j as int),
                    ),
                    !efficiency ==> e_cores@ == e_before,
                    efficiency ==> p_cores@ == p_before,
                    !efficiency ==> p_cores@ == p_before + metrics(
                        cluster.cores@.take(j as int),
                    ),
                decreases cluster.cores.len() - j,
            {
                let figures: CoreFigures = cluster.cores[j];
                let core: CoreMetric = CoreMetric {
                    cpu: figures.cpu,
                    active_percent: load(figures.active),
                    freq_mhz: figures.freq_mhz,
                };
                assert(metrics(cluster.cores@.take(j + 1)) =~= metrics(
                    cluster.cores@.take(j as int),
                ).push(core));
                if efficiency {
                    e_cores.push(core);
                } else {
                    p_cores.push(core);
                }
                j = j + 1;
            }
            assert(cluster.cores@.take(j as int) =~= cluster.cores@);
            i = i + 1;
        }
        proof {
            assert(all.take(all.len() as int) =~= all);
            law_loads_are_percentages(clusters@);
            assert forall|k: int| 0 <= k < e_cores@.len() implies (
            #[trigger] e_cores@[k]).active_percent <= 100 by {
                assert(cores_of(all, true)[k].active_percent <= 100);
            }
            assert forall|k: int| 0 <= k < p_cores@.len() implies (
            #[trigger] p_cores@[k]).active_percent <= 100 by {
                assert(cores_of(all, false)[k].active_percent <= 100);
            }
        }
        let gpu: GpuMetric = GpuMetric { active_percent: load(gpu.active), freq_mhz: gpu.freq_mhz };
        let (e_cluster_active, e_cluster_freq_mhz): (u16, u64) = match e_cluster {
            Some((load, freq)) => (load, freq),
            None => (average_percent(e_loads.as_slice()), max_u64(e_freqs.as_slice())),
        };
        Snapshot {
            timestamp,
            thermal_pressure,
            e_cluster_active,
            e_cluster_freq_mhz,
            p_cluster_active: average_percent(p_loads.as_slice()),
            p_cluster_freq_mhz: max_u64(p_freqs.as_slice()),
            e_cores,
            p_cores,
            gpu,
            power,
        }
    }
}

/// A part keeps its number and its frequency, and its load is the figure for it, held between
/// nothing and a hundred percent.
pub proof fn law_figures_are_kept(core: CoreFigures, gpu: GpuFigures, percents: i64)
    ensures
        core.metric().cpu == core.cpu,
        core.metric().freq_mhz == core.freq_mhz,
        gpu.metric().freq_mhz == gpu.freq_mhz,
        core.active == Some(percents) && 0 <= percents <= 100 ==> core.metric().active_percent
            == percents,
        core.active == Some(percents) && percents < 0 ==> core.metric().active_percent == 0,
        core.active == Some(percents) && percents > 100 ==> core.metric().active_percent == 100,
        gpu.active == Some(percents) && 0 <= percents <= 100 ==> gpu.metric().active_percent
            == percents,
        gpu.active == Some(percents) && percents < 0 ==> gpu.metric().active_percent == 0,
        gpu.active == Some(percents) && percents > 100 ==> gpu.metric().active_percent == 100,
{
}

/// Whether a cluster's name begins with a letter.
pub open spec fn begins(cluster: ClusterFigures, letter: char) -> bool {
    cluster.name@.len() > 0 && cluster.name@[0] == letter
}

/// Where there are clusters called `E-Cluster`, the last of them alone gives the load and the
/// frequency of the efficiency cores.
pub proof fn law_e_cluster_speaks_for_itself(clusters: Seq<ClusterFigures>, i: int)
    requires
        0 <= i < clusters.len(),
        clusters[i].name@ == "E-Cluster"@,
        forall|j: int| i < j < clusters.len() ==> (#[trigger] clusters[j]).name@ != "E-Cluster"@,
    ensures
        e_load(cluster_values(clusters)) == load_of(clusters[i].active),
        e_frequency(cluster_values(clusters)) == clusters[i].freq_mhz,
    decreases clusters.len(),
{
    let values = cluster_values(clusters);
    let before = clusters.drop_last();
    assert(values.drop_last() =~= cluster_values(before));
    assert(values.last() == clusters.last().value());
    if i < clusters.len() - 1 {
        assert(clusters[clusters.len() - 1].name@ != "E-Cluster"@);
        law_e_cluster_speaks_for_itself(before, i);
        lemma_named_e_cluster(before, i);
    }
}

proof fn lemma_named_e_cluster(clusters: Seq<ClusterFigures>, i: int)
    requires
        0 <= i < clusters.len(),
        clusters[i].name@ == "E-Cluster"@,
    ensures
        sole_e_cluster(cluster_values(clusters)) is Some,
    decreases clusters.len(),
{
    let values = cluster_values(clusters);
    assert(values.drop_last() =~= cluster_values(clusters.drop_last()));
    assert(values.last() == clusters.last().value());
    if i < clusters.len() - 1 {
        lemma_named_e_cluster(clusters.drop_last(), i);
    }
}

/// Without a cluster called `E-Cluster` the efficiency cores are all the clusters whose names begin
/// with `E`: their load is the mean of the loads, and their frequency the highest one.
pub proof fn law_e_clusters_speak_together(clusters: Seq<ClusterFigures>)
    requires
        forall|j: int| 0 <= j < clusters.len() ==> (#[trigger] clusters[j]).name@ != "E-Cluster"@,
    ensures
        e_load(cluster_values(clusters)) == mean_percent(loads(cluster_values(clusters), 'E')),
        e_frequency(cluster_values(clusters)) == largest(
            frequencies(cluster_values(clusters), 'E'),
        ),
    decreases clusters.len(),
{
    let values = cluster_values(clusters);
    if clusters.len() > 0 {
        let before = clusters.drop_last();
        assert(values.drop_last() =~= cluster_values(before));
        assert(values.last() == clusters.last().value());
        assert(clusters[clusters.len() - 1].name@ != "E-Cluster"@);
        assert forall|j: int| 0 <= j < before.len() implies (#[trigger] before[j]).name@
            != "E-Cluster"@ by {
            assert(clusters[j].name@ != "E-Cluster"@);
        }
        law_e_clusters_speak_together(before);
        lemma_no_e_cluster(clusters);
    }
}

proof fn lemma_no_e_cluster(clusters: Seq<ClusterFigures>)
    requires
        forall|j: int| 0 <= j < clusters.len() ==> (#[trigger] clusters[j]).name@ != "E-Cluster"@,
    ensures
        sole_e_cluster(cluster_values(clusters)) is None,
    decreases clusters.len(),
{
    let values = cluster_values(clusters);
    if clusters.len() > 0 {
        let before = clusters.drop_last();
        assert(values.drop_last() =~= cluster_values(before));
        assert(values.last() == clusters.last().value());
        assert(clusters[clusters.len() - 1].name@ != "E-Cluster"@);
        assert forall|j: int| 0 <= j < before.len() implies (#[trigger] before[j]).name@
            != "E-Cluster"@ by {
            assert(clusters[j].name@ != "E-Cluster"@);
        }
        lemma_no_e_cluster(before);
    }
}

/// One more cluster adds its load and frequency to those of its letter and no others, and its cores
/// to the efficiency cores where its name begins with `E`, to the performance cores otherwise.
pub proof fn law_cluster_counts_by_its_letter(
    clusters: Seq<ClusterFigures>,
    next: ClusterFigures,
    letter: char,
)
    ensures
        ({
            let before = cluster_values(clusters);
            let after = cluster_values(clusters.push(next));
            let cores = metrics(next.cores@);
            &&& begins(next, letter) ==> loads(after, letter) == loads(before, letter).push(
                load_of(next.active),
            ) && frequencies(after, letter) == frequencies(before, letter).push(next.freq_mhz)
            &&& !begins(next, letter) ==> loads(after, letter) == loads(before, letter)
                && frequencies(after, letter) == frequencies(before, letter)
            &&& begins(next, 'E') ==> cores_of(after, true) == cores_of(before, true) + cores
                && cores_of(after, false) == cores_of(before, false)
            &&& !begins(next, 'E') ==> cores_of(after, false) == cores_of(before, false) + cores
                && cores_of(after, true) == cores_of(before, true)
        }),
        loads(cluster_values(Seq::empty()), letter).len() == 0,
        frequencies(cluster_values(Seq::empty()), letter).len() == 0,
        cores_of(cluster_values(Seq::empty()), true).len() == 0,
        cores_of(cluster_values(Seq::empty()), false).len() == 0,
{
    let after = cluster_values(clusters.push(next));
    assert(after.drop_last() =~= cluster_values(clusters));
    assert(after.last() == next.value());
}

/// The mean of percentages is their sum shared out evenly, rounded down, and the sum goes up by
/// what is added.
pub proof fn law_mean_shares_the_sum(values: Seq<u16>, next: u16)
    ensures
        values.len() == 0 ==> mean_percent(values) == 0 && percent_sum(values) == 0,
        values.len() > 0 ==> values.len() * mean_percent(values) <= percent_sum(values)
            < values.len() * (mean_percent(values) + 1),
        percent_sum(values.push(next)) == percent_sum(values) + next,
{
    assert(values.push(next).drop_last() =~= values);
    if values.len() > 0 {
        let n = values.len() as int;
        let sum = percent_sum(values) as int;
        vstd::arithmetic::div_mod::lemma_fundamental_div_mod(sum, n);
        vstd::arithmetic::div_mod::lemma_mod_bound(sum, n);
        assert(n * (sum / n + 1) == n * (sum / n) + n) by (nonlinear_arith);
    }
}

/// The highest frequency is one of the frequencies, and none is above it.
pub proof fn law_highest_frequency(values: Seq<u64>, i: int)
    requires
        0 <= i < values.len(),
    ensures
        values[i] <= largest(values),
        values.contains(largest(values)),
{
    lemma_largest(values);
}

} // verus!
