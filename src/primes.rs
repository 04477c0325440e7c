use vstd::prelude::*;
use vstd::arithmetic::div_mod::{lemma_fundamental_div_mod, lemma_fundamental_div_mod_converse_mod};

verus! {

/// `k` is prime: at least 2, and no integer in `[2, k)` divides it.
pub open spec fn spec_is_prime(k: int) -> bool {
    k >= 2 && forall|d: int| 2 <= d < k ==> #[trigger] (k % d) != 0
}

/// `k` has a divisor `d` with `2 <= d < bound` and `d * d <= k`.
pub open spec fn has_small_factor(k: int, bound: int) -> bool {
    exists|d: int| 2 <= d < bound && #[trigger] (d * d) <= k && k % d == 0
}

/// The indicator sequence of primes over `[0, n]`.
pub open spec fn sieve_spec(n: nat) -> Seq<bool> {
    Seq::new(n + 1, |k: int| spec_is_prime(k))
}

proof fn lemma_cofactor(k: int, d: int)
    requires
        2 <= d < k,
        k % d == 0,
    ensures
        2 <= k / d < k,
        k % (k / d) == 0,
        d * (k / d) == k,
{
    let q = k / d;
    assert(k == d * q) by (nonlinear_arith)
        requires k % d == 0, d > 0, q == k / d;
    assert(q >= 2) by (nonlinear_arith)
        requires k == d * q, d < k, d >= 2;
    assert(q < k) by (nonlinear_arith)
        requires k == d * q, d >= 2, q >= 2;
    assert(k % q == 0) by (nonlinear_arith)
        requires k == d * q, q > 0;
}

/// A number of at least 2 is prime exactly when it has no divisor `d >= 2`
/// with `d * d` at most the number.
pub proof fn lemma_prime_iff_no_small_factor(k: int)
    requires
        k >= 2,
    ensures
        spec_is_prime(k) <==> !has_small_factor(k, k + 1),
{
    if spec_is_prime(k) {
        if has_small_factor(k, k + 1) {
            let d = choose|d: int| 2 <= d < k + 1 && #[trigger] (d * d) <= k && k % d == 0;
            assert(d < k) by (nonlinear_arith)
                requires d >= 2, d * d <= k;
            assert(k % d != 0);
        }
    } else {
        let d = choose|d: int| 2 <= d < k && #[trigger] (k % d) != 0 == false;
        lemma_cofactor(k, d);
        let q = k / d;
        if d <= q {
            assert(d * d <= k) by (nonlinear_arith)
                requires d * q == k, d <= q, d >= 0;
            assert(has_small_factor(k, k + 1));
        } else {
            assert(q * q <= k) by (nonlinear_arith)
                requires d * q == k, q < d, q >= 0;
            assert(has_small_factor(k, k + 1));
        }
    }
}

/// Trial division: `num` is prime when it is at least 2 and no integer from 2
/// up to its integer square root divides it.
pub fn is_prime(num: u32) -> (r: bool)
    ensures
        r == spec_is_prime(num as int),
{
    if num < 2 {
        return false;
    }
    let mut i: u32 = 2;
    while (i as u64) * (i as u64) <= num as u64
        invariant
            2 <= i,
            (i as int) * (i as int) <= 0x1_0000_0000,
            forall|d: int| 2 <= d < i ==> #[trigger] (d * d) <= num ==> (num as int) % d != 0,
        decreases num - i,
    {
        assert(i < num) by (nonlinear_arith)
            requires (i as int) * (i as int) <= num as int, i >= 2;
        if num % i == 0 {
            proof {
                lemma_prime_iff_no_small_factor(num as int);
                assert((i as int) * (i as int) <= num);
                assert(has_small_factor(num as int, num as int + 1));
            }
            return false;
        }
        assert(i < 65536) by (nonlinear_arith)
            requires (i as int) * (i as int) <= num as int, num <= u32::MAX;
        assert(((i + 1) as int) * ((i + 1) as int) <= 0x1_0000_0000) by (nonlinear_arith)
            requires i < 65536, i >= 2;
        i = i + 1;
    }
    proof {
        lemma_prime_iff_no_small_factor(num as int);
        if has_small_factor(num as int, num as int + 1) {
            let d = choose|d: int| 2 <= d < num + 1 && #[trigger] (d * d) <= num && (num as int) % d == 0;
            assert(d < i) by (nonlinear_arith)
                requires d * d <= num as int, (i as int) * (i as int) > num as int, d >= 0, i >= 0;
        }
    }
    true
}

proof fn lemma_divides_trans(d: int, i: int, k: int)
    requires
        d > 0,
        i > 0,
        i % d == 0,
        k % i == 0,
    ensures
        k % d == 0,
{
    lemma_fundamental_div_mod(i, d);
    lemma_fundamental_div_mod(k, i);
    let a = i / d;
    let b = k / i;
    assert(k == (a * b) * d + 0) by (nonlinear_arith)
        requires i == d * a, k == i * b;
    lemma_fundamental_div_mod_converse_mod(k, d, a * b, 0);
}

proof fn lemma_between_multiples(i: int, j: int, k: int)
    requires
        i > 0,
        j % i == 0,
        j < k < j + i,
    ensures
        k % i != 0,
{
    lemma_fundamental_div_mod(j, i);
    let q = j / i;
    assert(k == q * i + (k - j)) by (nonlinear_arith)
        requires j == i * q;
    lemma_fundamental_div_mod_converse_mod(k, i, q, k - j);
}

proof fn lemma_factor_bound_step(k: int, i: int)
    requires
        i >= 2,
    ensures
        has_small_factor(k, i + 1) == (has_small_factor(k, i) || (i * i <= k && k % i == 0)),
{
    if has_small_factor(k, i + 1) {
        let d = choose|d: int| 2 <= d < i + 1 && #[trigger] (d * d) <= k && k % d == 0;
        if d < i {
            assert(has_small_factor(k, i));
        }
    }
    if i * i <= k && k % i == 0 {
        assert(has_small_factor(k, i + 1));
    }
    if has_small_factor(k, i) {
        let d = choose|d: int| 2 <= d < i && #[trigger] (d * d) <= k && k % d == 0;
        assert(has_small_factor(k, i + 1));
    }
}

proof fn lemma_composite_adds_no_factor(k: int, i: int)
    requires
        i >= 2,
        has_small_factor(i, i),
    ensures
        has_small_factor(k, i + 1) == has_small_factor(k, i),
{
    lemma_factor_bound_step(k, i);
    if i * i <= k && k % i == 0 {
        let d = choose|d: int| 2 <= d < i && #[trigger] (d * d) <= i && i % d == 0;
        lemma_divides_trans(d, i, k);
        assert(d * d <= k) by (nonlinear_arith)
            requires d * d <= i, i * i <= k, i >= 2;
        assert(has_small_factor(k, i));
    }
}

proof fn lemma_factor_bound_saturates(k: int, i: int)
    requires
        2 <= k,
        k < i * i,
        i >= 2,
    ensures
        has_small_factor(k, i) == has_small_factor(k, k + 1),
{
    if has_small_factor(k, k + 1) {
        let d = choose|d: int| 2 <= d < k + 1 && #[trigger] (d * d) <= k && k % d == 0;
        assert(d < i) by (nonlinear_arith)
            requires d * d <= k, k < i * i, d >= 0, i >= 0;
        assert(has_small_factor(k, i));
    }
    if has_small_factor(k, i) {
        let d = choose|d: int| 2 <= d < i && #[trigger] (d * d) <= k && k % d == 0;
        assert(d <= k) by (nonlinear_arith)
            requires d * d <= k, d >= 2;
        assert(has_small_factor(k, k + 1));
    }
}

/// The sieve of Eratosthenes over `[0, n]`: entry `k` is true exactly when
/// `k` is prime.
pub fn gen_sieve_of_eratosthenes(n: u32) -> (r: Vec<bool>)
    requires
        n >= 1,
        n < usize::MAX,
    ensures
        r@ == sieve_spec(n as nat),
        r@.len() == n + 1,
        r@[0] == false,
        r@[1] == false,
{
    let mut sieve: Vec<bool> = vec![true; n as usize + 1];
    sieve.set(0, false);
    sieve.set(1, false);
    let mut i: u64 = 2;
    while i * i <= n as u64
        invariant
            2 <= i,
            i * i <= 0x1_0000_0000,
            sieve@.len() == n + 1,
            sieve@[0] == false,
            sieve@[1] == false,
            forall|k: int| 2 <= k <= n ==> #[trigger] sieve@[k] == !has_small_factor(k, i as int),
        decreases 0x1_0000_0000 - i,
    {
        assert(i < 65536) by (nonlinear_arith)
            requires i * i <= n as int, n <= u32::MAX;
        assert(i <= n) by (nonlinear_arith)
            requires i * i <= n as int, i >= 2;
        if sieve[i as usize] {
            let mut j: u64 = i * i;
            proof {
                assert(4 <= j) by (nonlinear_arith)
                    requires j == i * i, i >= 2;
                lemma_fundamental_div_mod(j as int, i as int);
                lemma_fundamental_div_mod_converse_mod(j as int, i as int, i as int, 0);
            }
            while j <= n as u64
                invariant
                    2 <= i < 65536,
                    i * i <= j,
                    4 <= j <= n + i,
                    (j as int) % (i as int) == 0,
                    sieve@.len() == n + 1,
                    sieve@[0] == false,
                    sieve@[1] == false,
                    forall|k: int|
                        2 <= k <= n ==> #[trigger] sieve@[k] == !(has_small_factor(k, i as int) || (
                        k % (i as int) == 0 && i * i <= k && k < j)),
                decreases n + i - j,
            {
                sieve.set(j as usize, false);
                proof {
                    assert forall|k: int| 2 <= k <= n implies #[trigger] sieve@[k] == !(
                    has_small_factor(k, i as int) || (k % (i as int) == 0 && i * i <= k && k < j
                        + i)) by {
                        if j < k < j + i {
                            lemma_between_multiples(i as int, j as int, k);
                        }
                    }
                    lemma_fundamental_div_mod(j as int, i as int);
                    let q = (j as int) / (i as int);
                    assert((j + i) as int == (q + 1) * (i as int) + 0) by (nonlinear_arith)
                        requires (j as int) == (i as int) * q + (j as int) % (i as int), (j as int) % (i as int) == 0;
                    lemma_fundamental_div_mod_converse_mod(
                        (j + i) as int,
                        i as int,
                        (j as int) / (i as int) + 1,
                        0,
                    );
                }
                j = j + i;
            }
            proof {
                assert forall|k: int| 2 <= k <= n implies #[trigger] sieve@[k] == !has_small_factor(
                    k,
                    i + 1,
                ) by {
                    lemma_factor_bound_step(k, i as int);
                }
            }
        } else {
            proof {
                assert(has_small_factor(i as int, i as int));
                assert forall|k: int| 2 <= k <= n implies #[trigger] sieve@[k] == !has_small_factor(
                    k,
                    i + 1,
                ) by {
                    lemma_composite_adds_no_factor(k, i as int);
                }
            }
        }
        assert((i + 1) * (i + 1) <= 0x1_0000_0000) by (nonlinear_arith)
            requires i < 65536;
        i = i + 1;
    }
    proof {
        assert forall|k: int| 0 <= k <= n implies #[trigger] sieve@[k] == spec_is_prime(k) by {
            if k >= 2 {
                lemma_factor_bound_saturates(k, i as int);
                lemma_prime_iff_no_small_factor(k);
            }
        }
        assert(sieve@ =~= sieve_spec(n as nat));
    }
    sieve
}

/// How many of `values` are prime.
pub open spec fn prime_count(values: Seq<u32>) -> nat
    decreases values.len(),
{
    if values.len() == 0 {
        0
    } else {
        prime_count(values.drop_last()) + if spec_is_prime(values.last() as int) {
            1nat
        } else {
            0nat
        }
    }
}

/// How many of `values` index a true entry of `sieve`.
pub open spec fn sieve_hits(sieve: Seq<bool>, values: Seq<u32>) -> nat
    decreases values.len(),
{
    if values.len() == 0 {
        0
    } else {
        sieve_hits(sieve, values.drop_last()) + if sieve[values.last() as int] {
            1nat
        } else {
            0nat
        }
    }
}

/// For every `n >= 2` and every `k` in `[0, n]`, trial division and a lookup
/// in the sieve over `[0, n]` classify `k` alike.
pub proof fn lemma_trial_division_agrees_with_sieve(n: u32, k: u32)
    requires
        n >= 2,
        k <= n,
    ensures
        sieve_spec(n as nat)[k as int] == spec_is_prime(k as int),
{
}

/// For every `n >= 1`, the sieve over `[0, n]` marks neither 0 nor 1 prime.
pub proof fn lemma_sieve_excludes_zero_and_one(n: u32)
    requires
        n >= 1,
    ensures
        sieve_spec(n as nat)[0] == false,
        sieve_spec(n as nat)[1] == false,
{
}

/// Looking up values of at most `n` in the sieve over `[0, n]` finds as many
/// primes as trial division does.
pub proof fn lemma_sieve_hits_are_primes(n: nat, values: Seq<u32>)
    requires
        forall|i: int| 0 <= i < values.len() ==> #[trigger] values[i] <= n,
    ensures
        sieve_hits(sieve_spec(n), values) == prime_count(values),
    decreases values.len(),
{
    if values.len() > 0 {
        let rest = values.drop_last();
        assert forall|i: int| 0 <= i < rest.len() implies #[trigger] rest[i] <= n by {
            assert(rest[i] == values[i]);
        }
        lemma_sieve_hits_are_primes(n, rest);
        assert(values.last() == values[values.len() - 1]);
    }
}

/// Counts the primes among `values` by trial division.
pub fn count_primes_trial(values: &Vec<u32>) -> (r: usize)
    ensures
        r == prime_count(values@),
{
    let mut count: usize = 0;
    let mut i: usize = 0;
    while i < values.len()
        invariant
            i <= values@.len(),
            count <= i,
            count == prime_count(values@.subrange(0, i as int)),
        decreases values.len() - i,
    {
        let prime = is_prime(values[i]);
        proof {
            let next = values@.subrange(0, i + 1);
            assert(next.drop_last() =~= values@.subrange(0, i as int));
            assert(next.last() == values@[i as int]);
        }
        if prime {
            count = count + 1;
        }
        i = i + 1;
    }
    assert(values@.subrange(0, values@.len() as int) =~= values@);
    count
}

/// Counts the entries of `values` that `sieve` marks true.
pub fn count_primes_sieve(sieve: &Vec<bool>, values: &Vec<u32>) -> (r: usize)
    requires
        forall|i: int| 0 <= i < values@.len() ==> (#[trigger] values@[i] as int) < sieve@.len(),
    ensures
        r == sieve_hits(sieve@, values@),
{
    let mut count: usize = 0;
    let mut i: usize = 0;
    while i < values.len()
        invariant
            i <= values@.len(),
            count <= i,
            count == sieve_hits(sieve@, values@.subrange(0, i as int)),
            forall|i: int| 0 <= i < values@.len() ==> (#[trigger] values@[i] as int) < sieve@.len(),
        decreases values.len() - i,
    {
        let hit = sieve[values[i] as usize];
        proof {
            let next = values@.subrange(0, i + 1);
            assert(next.drop_last() =~= values@.subrange(0, i as int));
            assert(next.last() == values@[i as int]);
        }
        if hit {
            count = count + 1;
        }
        i = i + 1;
    }
    assert(values@.subrange(0, values@.len() as int) =~= values@);
    count
}

} // verus!
