use vstd::prelude::*;
use rand::rngs::ThreadRng;
use rand::Rng;
use std::time::{Duration, Instant};
use crate::primes::{
    count_primes_sieve, count_primes_trial, gen_sieve_of_eratosthenes, lemma_sieve_hits_are_primes,
    prime_count, sieve_spec,
};
use crate::report::BenchmarkResult;
use crate::sizes::{gen_sizes, sweep, MAX, MIN, STEP};

verus! {

/// How many times each size is measured; the reported time is the mean.
pub const TIMES: usize = 2000;

#[verifier::external_type_specification]
#[verifier::external_body]
pub struct ExThreadRng(ThreadRng);

#[verifier::external_type_specification]
#[verifier::external_body]
pub struct ExInstant(Instant);

/// Relies on std's Instant::now: reads the monotonic clock.
pub assume_specification[ Instant::now ]() -> Instant;

/// Relies on std's Instant::duration_since: the time elapsed between two
/// readings (zero when `earlier` is the later one).
pub assume_specification[ Instant::duration_since ](this: &Instant, earlier: Instant) -> Duration;

/// Relies on std's Duration::as_nanos: the whole duration in nanoseconds.
pub assume_specification[ Duration::as_nanos ](this: &Duration) -> u128;

/// Relies on rand's Rng::gen_range over the inclusive range `0..=high`, which
/// is never empty: a uniformly drawn value of that range.
#[verifier::external_body]
fn draw_up_to(rng: &mut ThreadRng, high: u32) -> (r: u32)
    ensures
        r <= high,
{
    rng.gen_range(0..=high)
}

/// Overwrites every entry of `sample` with a value drawn uniformly from
/// `[0, n]`, advancing `rng`.
pub fn fill_sample(sample: &mut Vec<u32>, rng: &mut ThreadRng, n: u32)
    ensures
        final(sample)@.len() == old(sample)@.len(),
        forall|i: int| 0 <= i < final(sample)@.len() ==> #[trigger] final(sample)@[i] <= n,
{
    let mut i: usize = 0;
    while i < sample.len()
        invariant
            i <= sample@.len(),
            sample@.len() == old(sample)@.len(),
            forall|k: int| 0 <= k < i ==> #[trigger] sample@[k] <= n,
        decreases sample@.len() - i,
    {
        let v = draw_up_to(rng, n);
        sample.set(i, v);
        i = i + 1;
    }
}

/// Timings and prime counts of one measurement of both methods on a sample.
pub struct Trial {
    pub simple_nanos: u128,
    pub sieve_nanos: u128,
    pub simple_primes: usize,
    pub sieve_primes: usize,
}

/// Times trial division over `sample`, then the construction of a fresh sieve
/// for `n` together with the lookups of `sample` in it. Both counts are the
/// number of primes in the sample.
pub fn run_trial(sample: &Vec<u32>, n: u32) -> (r: Trial)
    requires
        n >= 1,
        n < usize::MAX,
        forall|i: int| 0 <= i < sample@.len() ==> #[trigger] sample@[i] <= n,
    ensures
        r.simple_primes == prime_count(sample@),
        r.sieve_primes == prime_count(sample@),
{
    let simple_start = Instant::now();
    let simple_primes = count_primes_trial(sample);
    let simple_end = Instant::now();
    let simple_nanos = simple_end.duration_since(simple_start).as_nanos();

    let sieve_start = Instant::now();
    let sieve = gen_sieve_of_eratosthenes(n);
    let sieve_primes = count_primes_sieve(&sieve, sample);
    let sieve_end = Instant::now();
    let sieve_nanos = sieve_end.duration_since(sieve_start).as_nanos();

    proof {
        lemma_sieve_hits_are_primes(n as nat, sample@);
    }
    Trial { simple_nanos, sieve_nanos, simple_primes, sieve_primes }
}

/// Total trial-division time over `trials`, in nanoseconds.
pub open spec fn simple_nanos_sum(trials: Seq<Trial>) -> nat
    decreases trials.len(),
{
    if trials.len() == 0 {
        0
    } else {
        simple_nanos_sum(trials.drop_last()) + trials.last().simple_nanos as nat
    }
}

/// Total sieve time over `trials`, in nanoseconds.
pub open spec fn sieve_nanos_sum(trials: Seq<Trial>) -> nat
    decreases trials.len(),
{
    if trials.len() == 0 {
        0
    } else {
        sieve_nanos_sum(trials.drop_last()) + trials.last().sieve_nanos as nat
    }
}

/// Total of the primes that trial division found over `trials`.
pub open spec fn simple_primes_sum(trials: Seq<Trial>) -> nat
    decreases trials.len(),
{
    if trials.len() == 0 {
        0
    } else {
        simple_primes_sum(trials.drop_last()) + trials.last().simple_primes as nat
    }
}

/// Total of the primes that the sieve found over `trials`.
pub open spec fn sieve_primes_sum(trials: Seq<Trial>) -> nat
    decreases trials.len(),
{
    if trials.len() == 0 {
        0
    } else {
        sieve_primes_sum(trials.drop_last()) + trials.last().sieve_primes as nat
    }
}

/// The means and prime totals of the trials measured for one size.
pub struct SizeSummary {
    pub simple_mean: u128,
    pub sieve_mean: u128,
    pub simple_primes: u128,
    pub sieve_primes: u128,
}

/// Adds `x` to a total held as `q * d + r` with `r < d`.
fn add_to_quotient(q: u128, r: u128, x: u128, d: u128) -> (res: (u128, u128))
    requires
        d > 0,
        r < d,
        d <= usize::MAX,
        q * d + r + x <= d * u128::MAX,
    ensures
        res.0 * d + res.1 == q * d + r + x,
        res.1 < d,
{
    let a = x / d;
    let b = x % d;
    let s = r + b;
    let (c, r2): (u128, u128) = if s >= d {
        (1, s - d)
    } else {
        (0, s)
    };
    proof {
        vstd::arithmetic::div_mod::lemma_fundamental_div_mod(x as int, d as int);
        assert((q + a + c) * d + r2 == q * d + r + x) by (nonlinear_arith)
            requires
                x == d * a + b,
                s == r + b,
                c * d + r2 == s,
        ;
        assert(q + a + c <= u128::MAX) by (nonlinear_arith)
            requires
                (q + a + c) * d + r2 == q * d + r + x,
                q * d + r + x <= d * u128::MAX,
                r2 >= 0,
                d > 0,
        ;
    }
    (q + a + c, r2)
}

/// The floor means of the measured times over `trials`, and the totals of
/// the primes each method found.
pub fn summarize_trials(trials: &Vec<Trial>) -> (r: SizeSummary)
    requires
        trials@.len() > 0,
    ensures
        r.simple_mean == (simple_nanos_sum(trials@) as int) / (trials@.len() as int),
        r.sieve_mean == (sieve_nanos_sum(trials@) as int) / (trials@.len() as int),
        r.simple_primes == simple_primes_sum(trials@),
        r.sieve_primes == sieve_primes_sum(trials@),
{
    let d: u128 = trials.len() as u128;
    let mut simple_q: u128 = 0;
    let mut simple_r: u128 = 0;
    let mut sieve_q: u128 = 0;
    let mut sieve_r: u128 = 0;
    let mut simple_primes: u128 = 0;
    let mut sieve_primes: u128 = 0;
    let mut i: usize = 0;
    while i < trials.len()
        invariant
            d == trials@.len(),
            0 < d <= usize::MAX,
            i <= d,
            simple_r < d,
            sieve_r < d,
            simple_q * d + simple_r == simple_nanos_sum(trials@.subrange(0, i as int)),
            sieve_q * d + sieve_r == sieve_nanos_sum(trials@.subrange(0, i as int)),
            simple_nanos_sum(trials@.subrange(0, i as int)) <= i * u128::MAX,
            sieve_nanos_sum(trials@.subrange(0, i as int)) <= i * u128::MAX,
            simple_primes == simple_primes_sum(trials@.subrange(0, i as int)),
            sieve_primes == sieve_primes_sum(trials@.subrange(0, i as int)),
            simple_primes <= i * usize::MAX,
            sieve_primes <= i * usize::MAX,
        decreases d - i,
    {
        let ghost prefix = trials@.subrange(0, i as int);
        let ghost next = trials@.subrange(0, i + 1);
        assert(next.drop_last() =~= prefix);
        assert(next.last() == trials@[i as int]);
        let trial = &trials[i];
        assert(prefix.len() * u128::MAX + u128::MAX <= d * u128::MAX) by (nonlinear_arith)
            requires prefix.len() == i, i + 1 <= d;
        assert(i * usize::MAX + usize::MAX <= u128::MAX) by (nonlinear_arith)
            requires i <= usize::MAX;
        let (q1, r1) = add_to_quotient(simple_q, simple_r, trial.simple_nanos, d);
        let (q2, r2) = add_to_quotient(sieve_q, sieve_r, trial.sieve_nanos, d);
        simple_q = q1;
        simple_r = r1;
        sieve_q = q2;
        sieve_r = r2;
        simple_primes = simple_primes + trial.simple_primes as u128;
        sieve_primes = sieve_primes + trial.sieve_primes as u128;
        i = i + 1;
        assert((i - 1) * u128::MAX + u128::MAX == i * u128::MAX) by (nonlinear_arith);
        assert((i - 1) * usize::MAX + usize::MAX == i * usize::MAX) by (nonlinear_arith);
    }
    assert(trials@.subrange(0, d as int) =~= trials@);
    proof {
        vstd::arithmetic::div_mod::lemma_fundamental_div_mod_converse_div(
            simple_nanos_sum(trials@) as int,
            d as int,
            simple_q as int,
            simple_r as int,
        );
        vstd::arithmetic::div_mod::lemma_fundamental_div_mod_converse_div(
            sieve_nanos_sum(trials@) as int,
            d as int,
            sieve_q as int,
            sieve_r as int,
        );
    }
    SizeSummary { simple_mean: simple_q, sieve_mean: sieve_q, simple_primes, sieve_primes }
}

/// How many primes the samples `samples` hold together.
pub open spec fn sample_primes(samples: Seq<Seq<u32>>) -> nat
    decreases samples.len(),
{
    if samples.len() == 0 {
        0
    } else {
        sample_primes(samples.drop_last()) + prime_count(samples.last())
    }
}

/// How many primes the samples of a run hold, over all its sizes.
pub open spec fn run_primes(samples: Seq<Seq<Seq<u32>>>) -> nat
    decreases samples.len(),
{
    if samples.len() == 0 {
        0
    } else {
        run_primes(samples.drop_last()) + sample_primes(samples.last())
    }
}

/// `x`, or the largest `u128` where `x` exceeds it.
pub open spec fn capped(x: nat) -> nat {
    if x > u128::MAX {
        u128::MAX as nat
    } else {
        x
    }
}

proof fn lemma_trial_primes(trials: Seq<Trial>, samples: Seq<Seq<u32>>)
    requires
        trials.len() == samples.len(),
        forall|t: int|
            0 <= t < trials.len() ==> #[trigger] trials[t].simple_primes == prime_count(samples[t])
                && trials[t].sieve_primes == prime_count(samples[t]),
    ensures
        simple_primes_sum(trials) == sample_primes(samples),
        sieve_primes_sum(trials) == sample_primes(samples),
    decreases trials.len(),
{
    if trials.len() > 0 {
        let (ts, ss) = (trials.drop_last(), samples.drop_last());
        assert forall|t: int| 0 <= t < ts.len() implies #[trigger] ts[t].simple_primes
            == prime_count(ss[t]) && ts[t].sieve_primes == prime_count(ss[t]) by {
            assert(ts[t] == trials[t] && ss[t] == samples[t]);
        }
        lemma_trial_primes(ts, ss);
        assert(trials.last() == trials[trials.len() - 1]);
    }
}

/// What a run of the benchmark hands back: the averaged timings, and how many
/// sampled values each method found prime over the whole run. `trials` and
/// `samples` record, for each size, what was measured and on which values.
pub struct BenchmarkRun {
    pub result: BenchmarkResult,
    pub simple_count: u128,
    pub sieve_count: u128,
    pub trials: Ghost<Seq<Seq<Trial>>>,
    pub samples: Ghost<Seq<Seq<Seq<u32>>>>,
}

impl BenchmarkRun {
    /// The size at index `i` was measured on `samples[i]`, each of that size,
    /// with the trials `trials[i]`, and its recorded timings are their floor
    /// means.
    pub open spec fn size_measured(&self, i: int) -> bool {
        let ts = self.trials@[i];
        let ss = self.samples@[i];
        &&& ts.len() > 0
        &&& ss.len() == ts.len()
        &&& self.result.simple_totals@[i] == (simple_nanos_sum(ts) as int) / (ts.len() as int)
        &&& self.result.sieve_totals@[i] == (sieve_nanos_sum(ts) as int) / (ts.len() as int)
        &&& forall|t: int|
            0 <= t < ss.len() ==> (#[trigger] ss[t]).len() == self.result.sizes@[i]
                && ts[t].simple_primes == prime_count(ss[t]) && ts[t].sieve_primes
                == prime_count(ss[t])
    }

    /// Every recorded size was measured as `size_measured` says, and each
    /// counter holds the primes among all samples of the run, capped at the
    /// largest `u128`.
    pub open spec fn wf(&self) -> bool {
        &&& self.result.wf()
        &&& self.trials@.len() == self.result.sizes@.len()
        &&& self.samples@.len() == self.result.sizes@.len()
        &&& forall|i: int| 0 <= i < self.result.sizes@.len() ==> #[trigger] self.size_measured(i)
        &&& self.simple_count == capped(run_primes(self.samples@))
        &&& self.sieve_count == capped(run_primes(self.samples@))
    }

    /// A run with nothing measured yet.
    pub fn new() -> (r: BenchmarkRun)
        ensures
            r.wf(),
            r.result.sizes@.len() == 0,
            r.simple_count == 0,
            r.sieve_count == 0,
    {
        BenchmarkRun {
            result: BenchmarkResult::new(),
            simple_count: 0,
            sieve_count: 0,
            trials: Ghost(Seq::empty()),
            samples: Ghost(Seq::empty()),
        }
    }

    /// Measures both methods `times` times on a fresh sample of `size` values
    /// in `[0, n]`, records the floor means of the timings for `size`, and adds
    /// the primes found to both counters.
    pub fn measure_size(&mut self, rng: &mut ThreadRng, n: u32, size: usize, times: usize)
        requires
            old(self).wf(),
            n >= 1,
            n < usize::MAX,
            times > 0,
        ensures
            final(self).wf(),
            final(self).result.sizes@ == old(self).result.sizes@.push(size),
            final(self).trials@ == old(self).trials@.push(final(self).trials@.last()),
            final(self).samples@ == old(self).samples@.push(final(self).samples@.last()),
            final(self).trials@.last().len() == times,
            forall|t: int, k: int|
                0 <= t < times && 0 <= k < size ==> #[trigger] final(self).samples@.last()[t][k]
                    <= n,
    {
        let mut sample: Vec<u32> = vec![0u32; size];
        let mut trials: Vec<Trial> = Vec::new();
        let ghost mut drawn: Seq<Seq<u32>> = Seq::empty();
        let mut t: usize = 0;
        while t < times
            invariant
                n >= 1,
                n < usize::MAX,
                t <= times,
                sample@.len() == size,
                trials@.len() == t,
                drawn.len() == t,
                forall|k: int|
                    0 <= k < t ==> (#[trigger] drawn[k]).len() == size && trials@[k].simple_primes
                        == prime_count(drawn[k]) && trials@[k].sieve_primes == prime_count(drawn[k]),
                forall|k: int, v: int| 0 <= k < t && 0 <= v < size ==> #[trigger] drawn[k][v] <= n,
            decreases times - t,
        {
            fill_sample(&mut sample, rng, n);
            let trial = run_trial(&sample, n);
            proof {
                drawn = drawn.push(sample@);
            }
            trials.push(trial);
            t = t + 1;
        }
        let summary = summarize_trials(&trials);
        proof {
            lemma_trial_primes(trials@, drawn);
        }
        let ghost old_run = *self;
        self.result.record(size, summary.simple_mean, summary.sieve_mean);
        self.simple_count = self.simple_count.saturating_add(summary.simple_primes);
        self.sieve_count = self.sieve_count.saturating_add(summary.sieve_primes);
        self.trials = Ghost(self.trials@.push(trials@));
        self.samples = Ghost(self.samples@.push(drawn));
        proof {
            assert(self.samples@.drop_last() =~= old_run.samples@);
            assert forall|i: int| 0 <= i < self.result.sizes@.len() implies #[trigger] self.size_measured(i) by {
                if i < old_run.result.sizes@.len() {
                    assert(old_run.size_measured(i));
                }
            }
        }
    }
}

/// Measures both methods on every size of `sizes`, `times` times each with a
/// fresh sample of values in `[0, n]`, and records the floor means of the
/// timings. The counters hold the primes among this run's samples alone.
pub fn worker(sizes: &Vec<usize>, rng: &mut ThreadRng, n: u32, times: usize) -> (r: BenchmarkRun)
    requires
        n >= 1,
        n < usize::MAX,
        times > 0,
    ensures
        r.wf(),
        r.result.sizes@ == sizes@,
        forall|i: int| 0 <= i < sizes@.len() ==> (#[trigger] r.trials@[i]).len() == times,
        forall|i: int, t: int, k: int|
            0 <= i < sizes@.len() && 0 <= t < times && 0 <= k < sizes@[i] ==> #[trigger] r.samples@[i][t][k] <= n,
        r.simple_count == r.sieve_count,
{
    let mut run = BenchmarkRun::new();
    let mut s: usize = 0;
    while s < sizes.len()
        invariant
            n >= 1,
            n < usize::MAX,
            times > 0,
            s <= sizes@.len(),
            run.wf(),
            run.result.sizes@ == sizes@.subrange(0, s as int),
            forall|i: int| 0 <= i < s ==> (#[trigger] run.trials@[i]).len() == times,
            forall|i: int, t: int, k: int|
                0 <= i < s && 0 <= t < times && 0 <= k < sizes@[i] ==> #[trigger] run.samples@[i][t][k] <= n,
        decreases sizes@.len() - s,
    {
        run.measure_size(rng, n, sizes[s], times);
        assert(sizes@.subrange(0, s + 1) =~= sizes@.subrange(0, s as int).push(sizes@[s as int]));
        s = s + 1;
    }
    assert(sizes@.subrange(0, sizes@.len() as int) =~= sizes@);
    run
}

/// Runs the benchmark for upper bound `n` over the standard sweep of sizes,
/// measuring each size `TIMES` times.
pub fn worker_gen_sizes(rng: &mut ThreadRng, n: u32) -> (r: BenchmarkRun)
    requires
        n >= 1,
        n < usize::MAX,
    ensures
        r.wf(),
        r.simple_count == r.sieve_count,
        r.result.sizes@.len() == sweep(MIN as int, MAX as int, STEP as int).len(),
        forall|i: int|
            0 <= i < r.result.sizes@.len() ==> #[trigger] r.result.sizes@[i] as int == sweep(
                MIN as int,
                MAX as int,
                STEP as int,
            )[i],
        forall|i: int| 0 <= i < r.result.sizes@.len() ==> (#[trigger] r.trials@[i]).len() == TIMES,
{
    let sizes = gen_sizes();
    worker(&sizes, rng, n, TIMES)
}

} // verus!
