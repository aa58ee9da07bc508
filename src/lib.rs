//! Prime enumeration by the Sieve of Eratosthenes, proved correct against a
//! mathematical model of the primes.

pub mod primes;
pub mod sieve;
pub mod laws;
