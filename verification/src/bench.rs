use vstd::prelude::*;

use crate::systick::TICK_HZ;

verus! {

/// Samples taken per measurement.
pub const BENCH_SAMPLES: usize = 1000;

/// Context-switch samples discarded at the start (warm-up).
pub const CONTEXT_SKIP_SAMPLES: usize = 1;

/// Benchmark stage in which the idle task must not sleep the core.
pub const STAGE_SLEEP: u8 = 3;

/// Pid value meaning "no task".
pub const NO_PID: usize = usize::MAX;

pub open spec fn sat_add(a: u32, b: u32) -> u32 {
    if a + b > u32::MAX { u32::MAX } else { (a + b) as u32 }
}

pub open spec fn max_u32(a: u32, b: u32) -> u32 {
    if a >= b { a } else { b }
}

/// Minimum, maximum, saturating sum and count of a series of samples.
#[derive(Clone, Copy, Debug, PartialEq, Eq)]
pub struct Stats {
    pub min: u32,
    pub max: u32,
    pub sum: u32,
    pub count: u32,
}

pub open spec fn stats_new() -> Stats {
    Stats { min: u32::MAX, max: 0, sum: 0, count: 0 }
}

pub open spec fn stats_update(s: Stats, sample: u32) -> Stats {
    Stats {
        min: if sample < s.min { sample } else { s.min },
        max: if sample > s.max { sample } else { s.max },
        sum: sat_add(s.sum, sample),
        count: sat_add(s.count, 1),
    }
}

/// The statistics of a series, fed in order from empty.
pub open spec fn stats_of(xs: Seq<u32>) -> Stats
    decreases xs.len(),
{
    if xs.len() == 0 {
        stats_new()
    } else {
        stats_update(stats_of(xs.drop_last()), xs.last())
    }
}

pub open spec fn stats_normalized(s: Stats) -> Stats {
    if s.count == 0 {
        Stats { min: 0, max: 0, sum: 0, count: 0 }
    } else {
        s
    }
}

impl Stats {
    pub fn new() -> (s: Self)
        ensures
            s == stats_new(),
    {
        Stats { min: u32::MAX, max: 0, sum: 0, count: 0 }
    }

    pub fn update(&mut self, sample: u32)
        ensures
            *final(self) == stats_update(*old(self), sample),
    {
        if sample < self.min {
            self.min = sample;
        }
        if sample > self.max {
            self.max = sample;
        }
        self.sum = self.sum.saturating_add(sample);
        self.count = self.count.saturating_add(1);
    }

    /// Mean of the samples (0 when there are none).
    pub fn avg(&self) -> (a: u32)
        ensures
            a == if self.count == 0 { 0 } else { self.sum / self.count },
    {
        if self.count == 0 {
            0
        } else {
            self.sum / self.count
        }
    }

    /// All zero when nothing was recorded, otherwise unchanged.
    pub fn normalized(self) -> (s: Self)
        ensures
            s == stats_normalized(self),
    {
        if self.count == 0 {
            Stats { min: 0, max: 0, sum: 0, count: 0 }
        } else {
            self
        }
    }
}

/// Pass/fail tally of timing checks, with the range of observed ticks.
#[derive(Clone, Copy, Debug, PartialEq, Eq)]
pub struct ValidationStats {
    pub pass: u32,
    pub fail: u32,
    pub min_ticks: u32,
    pub max_ticks: u32,
}

impl ValidationStats {
    pub fn new() -> (v: Self)
        ensures
            v == (ValidationStats { pass: 0, fail: 0, min_ticks: u32::MAX, max_ticks: 0 }),
    {
        ValidationStats { pass: 0, fail: 0, min_ticks: u32::MAX, max_ticks: 0 }
    }

    pub fn observe(&mut self, ticks: u32, passed: bool)
        ensures
            *final(self) == (ValidationStats {
                pass: if passed { sat_add(old(self).pass, 1) } else { old(self).pass },
                fail: if passed { old(self).fail } else { sat_add(old(self).fail, 1) },
                min_ticks: if ticks < old(self).min_ticks { ticks } else { old(self).min_ticks },
                max_ticks: if ticks > old(self).max_ticks { ticks } else { old(self).max_ticks },
            }),
    {
        if ticks < self.min_ticks {
            self.min_ticks = ticks;
        }
        if ticks > self.max_ticks {
            self.max_ticks = ticks;
        }
        if passed {
            self.pass = self.pass.saturating_add(1);
        } else {
            self.fail = self.fail.saturating_add(1);
        }
    }

    /// All zero when nothing was observed; otherwise an untouched minimum
    /// reads as 0.
    pub fn normalized(self) -> (v: Self)
        ensures
            self.pass == 0 && self.fail == 0 ==> v == (ValidationStats {
                pass: 0,
                fail: 0,
                min_ticks: 0,
                max_ticks: 0,
            }),
            !(self.pass == 0 && self.fail == 0) ==> v == (ValidationStats {
                min_ticks: if self.min_ticks == u32::MAX { 0 } else { self.min_ticks },
                ..self
            }),
    {
        if self.pass == 0 && self.fail == 0 {
            ValidationStats { pass: 0, fail: 0, min_ticks: 0, max_ticks: 0 }
        } else {
            ValidationStats {
                min_ticks: if self.min_ticks == u32::MAX {
                    0
                } else {
                    self.min_ticks
                },
                ..self
            }
        }
    }
}

/// A measured delay passes when it lasted the requested ticks, or one more.
pub fn delay_within_tolerance(elapsed: u32, delay_ticks: u32) -> (ok: bool)
    ensures
        ok == (elapsed >= delay_ticks && elapsed <= sat_add(delay_ticks, 1)),
{
    elapsed >= delay_ticks && elapsed <= delay_ticks.saturating_add(1)
}

/// Statistics with the median and 95th percentile of the kept samples.
#[derive(Clone, Copy, Debug, PartialEq, Eq)]
pub struct PercentileStats {
    pub stats: Stats,
    pub skipped: u32,
    pub p50: u32,
    pub p95: u32,
}

impl PercentileStats {
    pub fn empty() -> (p: Self)
        ensures
            p == (PercentileStats {
                stats: Stats { min: 0, max: 0, sum: 0, count: 0 },
                skipped: 0,
                p50: 0,
                p95: 0,
            }),
    {
        PercentileStats { stats: Stats { min: 0, max: 0, sum: 0, count: 0 }, skipped: 0, p50: 0, p95: 0 }
    }
}

/// Spike classification of latency samples against a threshold: a spike
/// overlapping an interrupt (tick or benchmark timer) or a clean one.
#[derive(Clone, Copy, Debug, PartialEq, Eq)]
pub struct MutexSpikeAttribution {
    pub threshold_cy: u32,
    pub overlap_samples: u32,
    pub spikes: u32,
    pub irq_spikes: u32,
    pub clean_spikes: u32,
    pub systick_spikes: u32,
    pub tim2_spikes: u32,
    pub max_irq_spike_cy: u32,
    pub max_clean_spike_cy: u32,
}

pub open spec fn spec_attribution_observe(
    a: MutexSpikeAttribution,
    delta: u32,
    systick_delta: u32,
    tim2_delta: u32,
) -> MutexSpikeAttribution {
    let overlap = systick_delta != 0 || tim2_delta != 0;
    let a1 = MutexSpikeAttribution {
        overlap_samples: if overlap { sat_add(a.overlap_samples, 1) } else { a.overlap_samples },
        ..a
    };
    if delta < a.threshold_cy {
        a1
    } else if overlap {
        MutexSpikeAttribution {
            spikes: sat_add(a1.spikes, 1),
            irq_spikes: sat_add(a1.irq_spikes, 1),
            systick_spikes: sat_add(a1.systick_spikes, if systick_delta != 0 { 1 } else { 0 }),
            tim2_spikes: sat_add(a1.tim2_spikes, if tim2_delta != 0 { 1 } else { 0 }),
            max_irq_spike_cy: max_u32(a1.max_irq_spike_cy, delta),
            ..a1
        }
    } else {
        MutexSpikeAttribution {
            spikes: sat_add(a1.spikes, 1),
            clean_spikes: sat_add(a1.clean_spikes, 1),
            max_clean_spike_cy: max_u32(a1.max_clean_spike_cy, delta),
            ..a1
        }
    }
}

impl MutexSpikeAttribution {
    pub fn new(threshold_cy: u32) -> (a: Self)
        ensures
            a == (MutexSpikeAttribution {
                threshold_cy,
                overlap_samples: 0,
                spikes: 0,
                irq_spikes: 0,
                clean_spikes: 0,
                systick_spikes: 0,
                tim2_spikes: 0,
                max_irq_spike_cy: 0,
                max_clean_spike_cy: 0,
            }),
    {
        MutexSpikeAttribution {
            threshold_cy,
            overlap_samples: 0,
            spikes: 0,
            irq_spikes: 0,
            clean_spikes: 0,
            systick_spikes: 0,
            tim2_spikes: 0,
            max_irq_spike_cy: 0,
            max_clean_spike_cy: 0,
        }
    }

    /// Record one sample of `delta` cycles, during which the tick and the
    /// benchmark timer interrupts ran `systick_delta` and `tim2_delta`
    /// times.
    pub fn observe(&mut self, delta: u32, systick_delta: u32, tim2_delta: u32)
        ensures
            *final(self) == spec_attribution_observe(*old(self), delta, systick_delta, tim2_delta),
    {
        let irq_overlap = systick_delta != 0 || tim2_delta != 0;
        if irq_overlap {
            self.overlap_samples = self.overlap_samples.saturating_add(1);
        }
        if delta < self.threshold_cy {
            return;
        }
        self.spikes = self.spikes.saturating_add(1);
        if irq_overlap {
            self.irq_spikes = self.irq_spikes.saturating_add(1);
            let st: u32 = if systick_delta != 0 { 1 } else { 0 };
            let tm: u32 = if tim2_delta != 0 { 1 } else { 0 };
            self.systick_spikes = self.systick_spikes.saturating_add(st);
            self.tim2_spikes = self.tim2_spikes.saturating_add(tm);
            if delta > self.max_irq_spike_cy {
                self.max_irq_spike_cy = delta;
            }
        } else {
            self.clean_spikes = self.clean_spikes.saturating_add(1);
            if delta > self.max_clean_spike_cy {
                self.max_clean_spike_cy = delta;
            }
        }
    }
}

/// Which of two phases dominated clean spikes, and their worst cases.
#[derive(Clone, Copy, Debug, PartialEq, Eq)]
pub struct TwoPhaseCleanBreakdown {
    pub clean_spikes: u32,
    pub first_dominant: u32,
    pub second_dominant: u32,
    pub max_first_cy: u32,
    pub max_second_cy: u32,
}

impl TwoPhaseCleanBreakdown {
    pub fn new() -> (b: Self)
        ensures
            b == (TwoPhaseCleanBreakdown {
                clean_spikes: 0,
                first_dominant: 0,
                second_dominant: 0,
                max_first_cy: 0,
                max_second_cy: 0,
            }),
    {
        TwoPhaseCleanBreakdown {
            clean_spikes: 0,
            first_dominant: 0,
            second_dominant: 0,
            max_first_cy: 0,
            max_second_cy: 0,
        }
    }

    /// Record a clean spike; ties count for the first phase.
    pub fn observe(&mut self, first_phase: u32, second_phase: u32)
        ensures
            *final(self) == (TwoPhaseCleanBreakdown {
                clean_spikes: sat_add(old(self).clean_spikes, 1),
                first_dominant: if first_phase >= second_phase {
                    sat_add(old(self).first_dominant, 1)
                } else {
                    old(self).first_dominant
                },
                second_dominant: if first_phase >= second_phase {
                    old(self).second_dominant
                } else {
                    sat_add(old(self).second_dominant, 1)
                },
                max_first_cy: max_u32(old(self).max_first_cy, first_phase),
                max_second_cy: max_u32(old(self).max_second_cy, second_phase),
            }),
    {
        self.clean_spikes = self.clean_spikes.saturating_add(1);
        if first_phase >= second_phase {
            self.first_dominant = self.first_dominant.saturating_add(1);
        } else {
            self.second_dominant = self.second_dominant.saturating_add(1);
        }
        if first_phase > self.max_first_cy {
            self.max_first_cy = first_phase;
        }
        if second_phase > self.max_second_cy {
            self.max_second_cy = second_phase;
        }
    }
}

/// Index of the largest of four phases; on a tie the earliest wins.
pub open spec fn dominant_phase(p: Seq<u32>) -> int {
    let d1: int = if p[1] > p[0] { 1 } else { 0 };
    let d2: int = if p[2] > p[d1] { 2 } else { d1 };
    if p[3] > p[d2] { 3 } else { d2 }
}

/// Which of four phases dominated clean spikes, and their worst cases.
#[derive(Clone, Copy, Debug, PartialEq, Eq)]
pub struct FourPhaseCleanBreakdown {
    pub clean_spikes: u32,
    pub first_dominant: u32,
    pub second_dominant: u32,
    pub third_dominant: u32,
    pub fourth_dominant: u32,
    pub max_first_cy: u32,
    pub max_second_cy: u32,
    pub max_third_cy: u32,
    pub max_fourth_cy: u32,
}

impl FourPhaseCleanBreakdown {
    pub fn new() -> (b: Self)
        ensures
            b == (FourPhaseCleanBreakdown {
                clean_spikes: 0,
                first_dominant: 0,
                second_dominant: 0,
                third_dominant: 0,
                fourth_dominant: 0,
                max_first_cy: 0,
                max_second_cy: 0,
                max_third_cy: 0,
                max_fourth_cy: 0,
            }),
    {
        FourPhaseCleanBreakdown {
            clean_spikes: 0,
            first_dominant: 0,
            second_dominant: 0,
            third_dominant: 0,
            fourth_dominant: 0,
            max_first_cy: 0,
            max_second_cy: 0,
            max_third_cy: 0,
            max_fourth_cy: 0,
        }
    }

    /// Record a clean spike made of four phases.
    pub fn observe(&mut self, first_phase: u32, second_phase: u32, third_phase: u32, fourth_phase: u32)
        ensures
            ({
                let d = dominant_phase(seq![first_phase, second_phase, third_phase, fourth_phase]);
                *final(self) == FourPhaseCleanBreakdown {
                    clean_spikes: sat_add(old(self).clean_spikes, 1),
                    first_dominant: if d == 0 {
                        sat_add(old(self).first_dominant, 1)
                    } else {
                        old(self).first_dominant
                    },
                    second_dominant: if d == 1 {
                        sat_add(old(self).second_dominant, 1)
                    } else {
                        old(self).second_dominant
                    },
                    third_dominant: if d == 2 {
                        sat_add(old(self).third_dominant, 1)
                    } else {
                        old(self).third_dominant
                    },
                    fourth_dominant: if d == 3 {
                        sat_add(old(self).fourth_dominant, 1)
                    } else {
                        old(self).fourth_dominant
                    },
                    max_first_cy: max_u32(old(self).max_first_cy, first_phase),
                    max_second_cy: max_u32(old(self).max_second_cy, second_phase),
                    max_third_cy: max_u32(old(self).max_third_cy, third_phase),
                    max_fourth_cy: max_u32(old(self).max_fourth_cy, fourth_phase),
                }
            }),
    {
        self.clean_spikes = self.clean_spikes.saturating_add(1);
        let phases: [u32; 4] = [first_phase, second_phase, third_phase, fourth_phase];
        let ghost ps = seq![first_phase, second_phase, third_phase, fourth_phase];
        proof {
            assert(phases@ =~= ps);
        }
        let mut dominant: usize = 0;
        let mut idx: usize = 1;
        while idx < 4
            invariant
                1 <= idx <= 4,
                phases@ == ps,
                dominant < idx,
                idx == 2 ==> dominant as int == (if ps[1] > ps[0] { 1int } else { 0int }),
                idx == 3 ==> dominant as int == ({
                    let d1: int = if ps[1] > ps[0] { 1 } else { 0 };
                    if ps[2] > ps[d1] { 2int } else { d1 }
                }),
                idx == 4 ==> dominant as int == dominant_phase(ps),
            decreases 4 - idx,
        {
            if phases[idx] > phases[dominant] {
                dominant = idx;
            }
            idx = idx + 1;
        }
        if dominant == 0 {
            self.first_dominant = self.first_dominant.saturating_add(1);
        } else if dominant == 1 {
            self.second_dominant = self.second_dominant.saturating_add(1);
        } else if dominant == 2 {
            self.third_dominant = self.third_dominant.saturating_add(1);
        } else {
            self.fourth_dominant = self.fourth_dominant.saturating_add(1);
        }
        if first_phase > self.max_first_cy {
            self.max_first_cy = first_phase;
        }
        if second_phase > self.max_second_cy {
            self.max_second_cy = second_phase;
        }
        if third_phase > self.max_third_cy {
            self.max_third_cy = third_phase;
        }
        if fourth_phase > self.max_fourth_cy {
            self.max_fourth_cy = fourth_phase;
        }
    }
}

/// Nearest-rank percentile index of a sorted series of length `len`:
/// `ceil(len * percent / 100) - 1` computed in saturating 32-bit
/// arithmetic, capped to the last index.
pub open spec fn nearest_rank_index(len: nat, percent: u32) -> int {
    let n = len as u32;
    let prod: int = if n * percent > u32::MAX { u32::MAX as int } else { n * percent };
    let s: int = if prod + 99 > u32::MAX { u32::MAX as int } else { prod + 99 };
    let q: int = s / 100;
    let rank: int = if q >= 1 { q - 1 } else { 0 };
    if rank > len - 1 { len - 1 } else { rank }
}

pub fn percentile_nearest_rank(sorted: &[u32], percent: u32) -> (p: u32)
    ensures
        sorted@.len() == 0 ==> p == 0,
        sorted@.len() > 0 ==> p == sorted@[nearest_rank_index(sorted@.len(), percent)],
{
    if sorted.len() == 0 {
        return 0;
    }
    let n: u32 = sorted.len() as u32;
    proof {
        assert(n as int * percent as int <= u32::MAX as int * u32::MAX as int) by (nonlinear_arith)
            requires
                n <= u32::MAX,
                percent <= u32::MAX,
        ;
    }
    let prod64: u64 = n as u64 * percent as u64;
    let prod: u32 = if prod64 > u32::MAX as u64 { u32::MAX } else { prod64 as u32 };
    let s: u32 = prod.saturating_add(99);
    let q: u32 = s / 100;
    let rank: usize = q.saturating_sub(1) as usize;
    let idx: usize = if rank > sorted.len() - 1 { sorted.len() - 1 } else { rank };
    sorted[idx]
}

/// The ascending sorted form of a series.
pub open spec fn is_sorted(s: Seq<u32>) -> bool {
    forall|i: int, j: int| 0 <= i <= j < s.len() ==> s[i] <= s[j]
}

/// `slice::sort_unstable`: the samples in ascending order (the same
/// values, rearranged).
#[verifier::external_body]
fn sort_samples(v: &mut Vec<u32>)
    ensures
        is_sorted(final(v)@),
        final(v)@.to_multiset() == old(v)@.to_multiset(),
{
    v.sort_unstable();
}

/// Context-switch statistics: of the first `recorded` samples (at most
/// `BENCH_SAMPLES`), the warm-up ones are skipped, the rest are summed up
/// and their median and 95th percentile taken.
pub fn compute_context_stats(samples: &[u32], recorded: u32) -> (p: PercentileStats)
    requires
        samples@.len() == BENCH_SAMPLES,
    ensures
        ({
            let total: int = if recorded as int > BENCH_SAMPLES { BENCH_SAMPLES as int } else { recorded as int };
            let skipped: int = if total > CONTEXT_SKIP_SAMPLES { CONTEXT_SKIP_SAMPLES as int } else { total };
            let kept = samples@.subrange(skipped, total);
            &&& kept.len() == 0 ==> p == PercentileStats {
                stats: Stats { min: 0, max: 0, sum: 0, count: 0 },
                skipped: 0,
                p50: 0,
                p95: 0,
            }
            &&& kept.len() > 0 ==> p.stats == stats_normalized(stats_of(kept)) && p.skipped
                == skipped as u32 && exists|sorted: Seq<u32>|
                #![trigger is_sorted(sorted)]
                is_sorted(sorted) && sorted.to_multiset() == kept.to_multiset() && p.p50
                    == sorted[nearest_rank_index(sorted.len(), 50)] && p.p95 == sorted[nearest_rank_index(
                    sorted.len(),
                    95,
                )] && sorted.len() == kept.len()
        }),
{
    let total: usize = if recorded as usize > BENCH_SAMPLES { BENCH_SAMPLES } else { recorded as usize };
    let skipped: usize = if total > CONTEXT_SKIP_SAMPLES { CONTEXT_SKIP_SAMPLES } else { total };
    let kept = total - skipped;
    if kept == 0 {
        return PercentileStats::empty();
    }
    let mut window: Vec<u32> = Vec::new();
    let mut stats = Stats::new();
    let mut i: usize = skipped;
    while i < total
        invariant
            skipped <= i <= total,
            total <= samples@.len(),
            window@ == samples@.subrange(skipped as int, i as int),
            stats == stats_of(window@),
        decreases total - i,
    {
        let x = samples[i];
        window.push(x);
        stats.update(x);
        proof {
            assert(window@.drop_last() =~= samples@.subrange(skipped as int, i as int));
            assert(window@ =~= samples@.subrange(skipped as int, i + 1));
        }
        i = i + 1;
    }
    let ghost kept_seq = window@;
    sort_samples(&mut window);
    proof {
        kept_seq.to_multiset_ensures();
        window@.to_multiset_ensures();
        assert(window@.len() == kept_seq.len());
    }
    let p50 = percentile_nearest_rank(window.as_slice(), 50);
    let p95 = percentile_nearest_rank(window.as_slice(), 95);
    let r = PercentileStats { stats: stats.normalized(), skipped: skipped as u32, p50, p95 };
    proof {
        assert(is_sorted(window@));
    }
    r
}

/// CPU cycles per system tick.
pub fn cycles_per_tick(cpu_hz: u32) -> (c: u32)
    ensures
        c == cpu_hz / TICK_HZ,
{
    cpu_hz / TICK_HZ
}

/// Cycles converted to microseconds at `cpu_hz` (0 when the clock is
/// unknown); the quotient is truncated to 32 bits.
pub fn cycles_to_us(cycles: u32, cpu_hz: u32) -> (us: u32)
    ensures
        cpu_hz == 0 ==> us == 0,
        cpu_hz != 0 ==> us == (cycles as int * 1_000_000 / cpu_hz as int) as u32,
{
    if cpu_hz == 0 {
        0
    } else {
        let q: u64 = (cycles as u64) * 1_000_000 / (cpu_hz as u64);
        q as u32
    }
}

/// Benchmark bookkeeping shared between the tasks: the stage being run and
/// the pids of the two benchmark tasks.
pub struct BenchState {
    pub stage: u8,
    pub task_a_pid: usize,
    pub task_b_pid: usize,
}

impl BenchState {
    pub fn new() -> (b: Self)
        ensures
            b.stage == 0 && b.task_a_pid == NO_PID && b.task_b_pid == NO_PID,
    {
        BenchState { stage: 0, task_a_pid: NO_PID, task_b_pid: NO_PID }
    }

    pub fn register_boot_tasks(&mut self, task_a_pid: usize, task_b_pid: usize)
        ensures
            *final(self) == (BenchState { task_a_pid, task_b_pid, ..*old(self) }),
    {
        self.task_a_pid = task_a_pid;
        self.task_b_pid = task_b_pid;
    }

    pub fn task_b_pid(&self) -> (r: Option<usize>)
        ensures
            r == if self.task_b_pid == NO_PID { None } else { Some(self.task_b_pid) },
    {
        if self.task_b_pid == NO_PID {
            None
        } else {
            Some(self.task_b_pid)
        }
    }

    /// The idle task may sleep the core except while sleep latency is
    /// being measured.
    pub fn idle_allows_wfi(&self) -> (b: bool)
        ensures
            b == (self.stage != STAGE_SLEEP),
    {
        self.stage != STAGE_SLEEP
    }
}

} // verus!
