//! What holds of the sieve's output for every bound, and how its two forms
//! agree, proved from their contracts.

use vstd::prelude::*;
use crate::primes::{is_prime, primes_upto};
use crate::sieve::as_ints;

verus! {

/// The primes up to `n` are ascending, lie in `[2, n]`, are each prime, and
/// include every prime in that range.
pub proof fn lemma_primes_upto_shape(n: int)
    ensures
        forall|j: int, k: int|
            0 <= j < k < primes_upto(n).len() ==> primes_upto(n)[j] < primes_upto(n)[k],
        forall|k: int|
            0 <= k < primes_upto(n).len() ==> 2 <= #[trigger] primes_upto(n)[k] <= n && is_prime(
                primes_upto(n)[k],
            ),
        forall|q: int| 2 <= q <= n && is_prime(q) ==> #[trigger] primes_upto(n).contains(q),
    decreases n,
{
    if n >= 2 {
        lemma_primes_upto_shape(n - 1);
        let prev = primes_upto(n - 1);
        assert forall|q: int| 2 <= q <= n && is_prime(q) implies #[trigger] primes_upto(n).contains(q) by {
            if q < n {
                assert(prev.contains(q));
                let k = choose|k: int| 0 <= k < prev.len() && prev[k] == q;
                assert(primes_upto(n)[k] == q);
            } else {
                assert(primes_upto(n)[prev.len() as int] == q);
            }
        }
    }
}

/// Whatever `sieve(n)` returns is strictly increasing, lies in `[2, n]`, and
/// holds only primes: no element has a divisor `d` with `2 <= d` and
/// `d * d` at most the element. It also misses no prime in `[2, n]`.
pub proof fn lemma_sieve_output(n: i32, r: Seq<i32>)
    requires
        as_ints(r) == primes_upto(n as int),
    ensures
        forall|j: int, k: int| 0 <= j < k < r.len() ==> r[j] < r[k],
        forall|k: int| 0 <= k < r.len() ==> 2 <= #[trigger] r[k] <= n,
        forall|k: int, d: int|
            0 <= k < r.len() && 2 <= d && d * d <= r[k] ==> #[trigger] ((r[k] as int) % d) != 0,
        forall|k: int| 0 <= k < r.len() ==> is_prime(#[trigger] r[k] as int),
        forall|q: i32| 2 <= q <= n && is_prime(q as int) ==> #[trigger] r.contains(q),
{
    lemma_primes_upto_shape(n as int);
    let s = primes_upto(n as int);
    assert forall|k: int| 0 <= k < r.len() implies s[k] == #[trigger] r[k] as int by {
        assert(as_ints(r)[k] == r[k] as int);
    }
    assert forall|j: int, k: int| 0 <= j < k < r.len() implies r[j] < r[k] by {
        assert(s[j] < s[k]);
    }
    assert forall|k: int, d: int|
        0 <= k < r.len() && 2 <= d && d * d <= r[k] implies #[trigger] ((r[k] as int) % d) != 0 by {
        assert(is_prime(s[k]));
        assert(d < r[k]) by (nonlinear_arith)
            requires
                2 <= d,
                d * d <= r[k],
        ;
    }
    assert forall|q: i32| 2 <= q <= n && is_prime(q as int) implies #[trigger] r.contains(q) by {
        assert(s.contains(q as int));
        let k = choose|k: int| 0 <= k < s.len() && s[k] == q as int;
        assert(r[k] == q);
    }
}

/// A sequence of `i32` is determined by the integers it holds.
proof fn lemma_as_ints_injective(a: Seq<i32>, b: Seq<i32>)
    requires
        as_ints(a) == as_ints(b),
    ensures
        a == b,
{
    assert(a.len() == as_ints(a).len());
    assert(b.len() == as_ints(b).len());
    assert forall|k: int| 0 <= k < a.len() implies a[k] == b[k] by {
        assert(as_ints(a)[k] == a[k] as int);
        assert(as_ints(b)[k] == b[k] as int);
    }
    assert(a =~= b);
}

/// Two calls of `sieve` with the same bound return the same sequence.
pub proof fn lemma_sieve_deterministic(n: i32, first: Seq<i32>, second: Seq<i32>)
    requires
        as_ints(first) == primes_upto(n as int),
        as_ints(second) == primes_upto(n as int),
    ensures
        first == second,
{
    lemma_as_ints_injective(first, second);
}

/// The count that `sieve_rs(n, ..)` returns is the length of `sieve(n)`, and
/// the buffer's first `count` entries are `sieve(n)`, element by element.
pub proof fn lemma_buffer_matches_sieve(n: i32, v: Seq<i32>, buffer: Seq<i32>, count: i32)
    requires
        as_ints(v) == primes_upto(n as int),
        count == primes_upto(n as int).len(),
        as_ints(buffer.subrange(0, count as int)) == primes_upto(n as int),
    ensures
        count == v.len(),
        buffer.subrange(0, count as int) == v,
{
    assert(v.len() == as_ints(v).len());
    lemma_as_ints_injective(buffer.subrange(0, count as int), v);
}

/// A buffer of `n + 1` slots always holds every prime up to `n`.
pub proof fn lemma_buffer_of_n_plus_one_suffices(n: i32)
    requires
        0 <= n,
    ensures
        primes_upto(n as int).len() <= n + 1,
{
    crate::primes::lemma_prime_count_bound(n as int);
}

} // verus!
