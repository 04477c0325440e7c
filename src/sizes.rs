use vstd::prelude::*;

verus! {

/// Smallest sample size of the sweep.
pub const MIN: usize = 20;

/// Largest sample size of the sweep.
pub const MAX: usize = 4000;

/// Distance between two consecutive sample sizes.
pub const STEP: usize = 20;

/// First size of a sweep: `min`, or `min + step` when `min` is zero, so that
/// no sample is empty.
pub open spec fn sweep_start(min: int, step: int) -> int {
    if min != 0 {
        min
    } else {
        min + step
    }
}

/// The sizes `start, start + step, ...` that do not exceed `max`.
pub open spec fn sweep(min: int, max: int, step: int) -> Seq<int> {
    let start = sweep_start(min, step);
    let len = if start > max {
        0
    } else {
        (max - start) / step + 1
    };
    Seq::new(len as nat, |i: int| start + i * step)
}

/// The ascending sizes from `min` (or `min + step` when `min` is zero) up to
/// `max`, `step` apart.
pub fn size_sequence(min: usize, max: usize, step: usize) -> (r: Vec<usize>)
    requires
        step > 0,
    ensures
        r@.len() == sweep(min as int, max as int, step as int).len(),
        forall|i: int|
            0 <= i < r@.len() ==> #[trigger] r@[i] as int == sweep(
                min as int,
                max as int,
                step as int,
            )[i],
{
    let ghost spec_sizes = sweep(min as int, max as int, step as int);
    let start: usize = if min != 0 {
        min
    } else {
        step
    };
    let mut out: Vec<usize> = Vec::new();
    if start > max {
        assert(spec_sizes.len() == 0);
        return out;
    }
    let count: usize = (max - start) / step + 1;
    assert(((max - start) / (step as int)) * step <= max - start) by (nonlinear_arith)
        requires step > 0, max >= start;
    let mut i: usize = 0;
    let mut x: usize = start;
    while i < count
        invariant
            spec_sizes == sweep(min as int, max as int, step as int),
            spec_sizes.len() == count,
            count == (max - start) / (step as int) + 1,
            ((max - start) / (step as int)) * step <= max - start,
            start == sweep_start(min as int, step as int),
            step > 0,
            start <= max,
            i <= count,
            i < count ==> x == start + i * step,
            out@.len() == i,
            forall|k: int| 0 <= k < i ==> #[trigger] out@[k] as int == spec_sizes[k],
        decreases count - i,
    {
        out.push(x);
        i = i + 1;
        if i < count {
            assert(x + step == start + i * step <= max) by (nonlinear_arith)
                requires
                    x == start + (i - 1) * step,
                    i < count,
                    count == (max - start) / (step as int) + 1,
                    ((max - start) / (step as int)) * step <= max - start,
                    step > 0,
            ;
            x = x + step;
        }
    }
    out
}

/// The sweep of sample sizes that the benchmark runs.
pub fn gen_sizes() -> (r: Vec<usize>)
    ensures
        r@.len() == sweep(MIN as int, MAX as int, STEP as int).len(),
        forall|i: int|
            0 <= i < r@.len() ==> #[trigger] r@[i] as int == sweep(
                MIN as int,
                MAX as int,
                STEP as int,
            )[i],
{
    size_sequence(MIN, MAX, STEP)
}

} // verus!
