//! Trial division against a sieve of Eratosthenes: verified primality
//! checkers, the sweep of sample sizes, the measurement driver and the
//! text rendering of its results.

pub mod primes;
pub mod sizes;
pub mod report;
pub mod bench;
