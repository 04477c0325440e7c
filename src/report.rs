use vstd::prelude::*;

verus! {

/// The decimal digits of `n`, most significant first, as ASCII bytes.
pub open spec fn decimal(n: nat) -> Seq<u8>
    decreases n,
{
    if n < 10 {
        seq![(48 + n) as u8]
    } else {
        decimal(n / 10).push((48 + n % 10) as u8)
    }
}

/// The decimal forms of `values`, separated by single spaces.
pub open spec fn joined(values: Seq<nat>) -> Seq<u8>
    decreases values.len(),
{
    if values.len() == 0 {
        seq![]
    } else if values.len() == 1 {
        decimal(values[0])
    } else {
        joined(values.drop_last()) + seq![32u8] + decimal(values.last())
    }
}

/// One line of output: the values joined by spaces, ended by a newline.
pub open spec fn line(values: Seq<nat>) -> Seq<u8> {
    joined(values).push(10u8)
}

/// Sizes read as natural numbers.
pub open spec fn nats_of_sizes(s: Seq<usize>) -> Seq<nat> {
    Seq::new(s.len(), |i: int| s[i] as nat)
}

/// Timings read as natural numbers.
pub open spec fn nats_of_totals(s: Seq<u128>) -> Seq<nat> {
    Seq::new(s.len(), |i: int| s[i] as nat)
}

/// Appends the decimal digits of `n` to `out`.
fn push_decimal(out: &mut Vec<u8>, n: u128)
    ensures
        final(out)@ == old(out)@ + decimal(n as nat),
    decreases n,
{
    if n >= 10 {
        push_decimal(out, n / 10);
    }
    out.push(48u8 + (n % 10) as u8);
    assert(out@ =~= old(out)@ + decimal(n as nat));
}

/// Renders `values` as one line of text: decimal numbers separated by single
/// spaces, with a trailing newline.
pub fn render_line(values: &Vec<u128>) -> (r: Vec<u8>)
    ensures
        r@ == line(nats_of_totals(values@)),
{
    let mut out: Vec<u8> = Vec::new();
    let mut i: usize = 0;
    while i < values.len()
        invariant
            i <= values@.len(),
            out@ == joined(nats_of_totals(values@.subrange(0, i as int))),
        decreases values.len() - i,
    {
        if i > 0 {
            out.push(32u8);
        }
        push_decimal(&mut out, values[i]);
        proof {
            let next = nats_of_totals(values@.subrange(0, i + 1));
            assert(next.drop_last() =~= nats_of_totals(values@.subrange(0, i as int)));
            assert(next.last() == values@[i as int] as nat);
            assert(out@ =~= joined(next));
        }
        i = i + 1;
    }
    assert(values@.subrange(0, values@.len() as int) =~= values@);
    out.push(10u8);
    out
}

/// Averaged timings of a benchmark run: for the size at index `i`, the mean
/// time of trial division and of the sieve, in nanoseconds.
pub struct BenchmarkResult {
    pub sizes: Vec<usize>,
    pub simple_totals: Vec<u128>,
    pub sieve_totals: Vec<u128>,
}

impl BenchmarkResult {
    /// The three sequences have the same length.
    pub open spec fn wf(&self) -> bool {
        self.sizes@.len() == self.simple_totals@.len() && self.sizes@.len()
            == self.sieve_totals@.len()
    }

    /// A result with no sizes yet.
    pub fn new() -> (r: BenchmarkResult)
        ensures
            r.wf(),
            r.sizes@.len() == 0,
    {
        BenchmarkResult { sizes: Vec::new(), simple_totals: Vec::new(), sieve_totals: Vec::new() }
    }

    /// Appends the averaged timings measured for one size.
    pub fn record(&mut self, size: usize, simple_total: u128, sieve_total: u128)
        requires
            old(self).wf(),
        ensures
            final(self).wf(),
            final(self).sizes@ == old(self).sizes@.push(size),
            final(self).simple_totals@ == old(self).simple_totals@.push(simple_total),
            final(self).sieve_totals@ == old(self).sieve_totals@.push(sieve_total),
    {
        self.sizes.push(size);
        self.simple_totals.push(simple_total);
        self.sieve_totals.push(sieve_total);
    }

    /// The line of sizes.
    pub fn sizes_line(&self) -> (r: Vec<u8>)
        ensures
            r@ == line(nats_of_sizes(self.sizes@)),
    {
        let mut wide: Vec<u128> = Vec::new();
        let mut i: usize = 0;
        while i < self.sizes.len()
            invariant
                i <= self.sizes@.len(),
                wide@.len() == i,
                forall|k: int| 0 <= k < i ==> #[trigger] wide@[k] as int == self.sizes@[k] as int,
            decreases self.sizes.len() - i,
        {
            wide.push(self.sizes[i] as u128);
            i = i + 1;
        }
        let r = render_line(&wide);
        assert(nats_of_totals(wide@) =~= nats_of_sizes(self.sizes@));
        r
    }

    /// The line of averaged trial-division timings.
    pub fn simple_totals_line(&self) -> (r: Vec<u8>)
        ensures
            r@ == line(nats_of_totals(self.simple_totals@)),
    {
        render_line(&self.simple_totals)
    }

    /// The line of averaged sieve timings.
    pub fn sieve_totals_line(&self) -> (r: Vec<u8>)
        ensures
            r@ == line(nats_of_totals(self.sieve_totals@)),
    {
        render_line(&self.sieve_totals)
    }
}

} // verus!
