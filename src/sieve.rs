//! The Sieve of Eratosthenes, in a managed form that returns the primes and a
//! raw-buffer form that writes them into a slice the caller owns.

use vstd::prelude::*;
use crate::primes::{
    is_prime, primes_upto, lemma_small_divisor, lemma_divides_trans, lemma_no_multiple_between,
    lemma_primes_prefix, lemma_prime_count_bound,
};

verus! {

/// `i` is still marked once every candidate below `p` has crossed out its
/// multiples: at least 2, and no `d` in `[2, p)` with `d * d <= i` divides it.
spec fn survives(i: int, p: int) -> bool {
    i >= 2 && forall|d: int| 2 <= d < p && d * d <= i ==> #[trigger] (i % d) != 0
}

proof fn lemma_survives_step(i: int, p: int)
    requires
        2 <= p,
    ensures
        survives(i, p + 1) == (survives(i, p) && (p * p <= i ==> i % p != 0)),
{
    if survives(i, p) && (p * p <= i ==> i % p != 0) {
        assert forall|d: int| 2 <= d < p + 1 && d * d <= i implies #[trigger] (i % d) != 0 by {
            if d < p {
                assert(i % d != 0);
            }
        }
    }
}

/// Once `p` itself was crossed out, it crosses out nothing more.
proof fn lemma_composite_step(i: int, p: int)
    requires
        2 <= p,
        !survives(p, p),
    ensures
        survives(i, p + 1) == survives(i, p),
{
    lemma_survives_step(i, p);
    if survives(i, p) && p * p <= i && i % p == 0 {
        let d = choose|d: int| 2 <= d < p && d * d <= p && #[trigger] (p % d) == 0;
        lemma_divides_trans(i, p, d);
        assert(p <= p * p) by (nonlinear_arith)
            requires
                2 <= p,
        ;
        assert(i % d != 0);
    }
}

proof fn lemma_survivor_is_prime(i: int, p: int)
    requires
        2 <= p,
        i < p * p,
    ensures
        survives(i, p) == is_prime(i),
{
    if survives(i, p) && !is_prime(i) {
        let d = choose|d: int| 2 <= d < i && #[trigger] (i % d) == 0;
        let s = lemma_small_divisor(i, d);
        assert(s < p) by (nonlinear_arith)
            requires
                s * s <= i,
                i < p * p,
                2 <= s,
                2 <= p,
        ;
        assert(i % s != 0);
    }
    if is_prime(i) {
        assert forall|d: int| 2 <= d < p && d * d <= i implies #[trigger] (i % d) != 0 by {
            assert(d < i) by (nonlinear_arith)
                requires
                    2 <= d,
                    d * d <= i,
            ;
        }
    }
}

/// The sieve's table: entry `i` is true exactly when `i` is prime.
fn prime_table(n: usize) -> (table: Vec<bool>)
    requires
        2 <= n < 0x8000_0000,
    ensures
        table@.len() == n + 1,
        forall|i: int| 0 <= i <= n ==> table@[i] == is_prime(i),
{
    let mut table: Vec<bool> = Vec::new();
    table.push(false);
    table.push(false);
    let mut k: usize = 2;
    while k <= n
        invariant
            2 <= k <= n + 1,
            n < 0x8000_0000,
            table@.len() == k,
            forall|i: int| 0 <= i < k ==> table@[i] == survives(i, 2),
        decreases n + 1 - k,
    {
        table.push(true);
        k += 1;
    }
    let mut p: usize = 2;
    while (p as u64) * (p as u64) <= n as u64
        invariant
            2 <= p <= n + 1,
            n < 0x8000_0000,
            p * p <= 0x4000_0000_0000_0000,
            table@.len() == n + 1,
            forall|i: int| 0 <= i <= n ==> table@[i] == survives(i, p as int),
        decreases n + 1 - p,
    {
        assert(p <= p * p) by (nonlinear_arith)
            requires
                2 <= p,
        ;
        if table[p] {
            let mut m: usize = p * p;
            proof {
                vstd::arithmetic::div_mod::lemma_mod_multiples_basic(p as int, p as int);
            }
            while m <= n
                invariant
                    2 <= p <= n,
                    p * p <= n,
                    n < 0x8000_0000,
                    p * p <= m <= n + p,
                    m % p == 0,
                    table@.len() == n + 1,
                    forall|i: int|
                        0 <= i <= n ==> table@[i] == (survives(i, p as int) && !(p * p <= i < m
                            && i % (p as int) == 0)),
                decreases n + p - m,
            {
                let ghost old_m = m as int;
                table.set(m, false);
                m += p;
                assert(m % p == 0) by {
                    vstd::arithmetic::div_mod::lemma_mod_add_multiples_vanish(old_m, p as int);
                }
                assert forall|i: int| 0 <= i <= n implies table@[i] == (survives(i, p as int)
                    && !(p * p <= i < m && i % (p as int) == 0)) by {
                    if old_m < i < m {
                        lemma_no_multiple_between(i, old_m, p as int);
                    }
                }
            }
            assert forall|i: int| 0 <= i <= n implies table@[i] == survives(i, p + 1) by {
                lemma_survives_step(i, p as int);
            }
        } else {
            assert forall|i: int| 0 <= i <= n implies table@[i] == survives(i, p + 1) by {
                lemma_composite_step(i, p as int);
            }
        }
        p += 1;
        assert(p * p <= 0x4000_0000_0000_0000) by (nonlinear_arith)
            requires
                p <= 0x8000_0000,
        ;
    }
    assert forall|i: int| 0 <= i <= n implies table@[i] == is_prime(i) by {
        lemma_survivor_is_prime(i, p as int);
    }
    table
}

/// The integers that a sequence of `i32` holds.
pub open spec fn as_ints(s: Seq<i32>) -> Seq<int> {
    s.map_values(|x: i32| x as int)
}

/// Every prime in `[2, n]`, in ascending order; empty when `n < 2`.
pub fn sieve(n: i32) -> (r: Vec<i32>)
    ensures
        as_ints(r@) == primes_upto(n as int),
        n < 2 ==> r@.len() == 0,
{
    let mut r: Vec<i32> = Vec::new();
    if n < 2 {
        return r;
    }
    let limit = n as usize;
    let table = prime_table(limit);
    let mut i: usize = 2;
    while i <= limit
        invariant
            2 <= i <= limit + 1,
            limit == n,
            table@.len() == limit + 1,
            forall|k: int| 0 <= k <= limit ==> table@[k] == is_prime(k),
            as_ints(r@) == primes_upto(i - 1),
        decreases limit + 1 - i,
    {
        if table[i] {
            let ghost before = r@;
            r.push(i as i32);
            assert(as_ints(r@) =~= as_ints(before).push(i as int));
        }
        i += 1;
    }
    r
}

/// Writes every prime in `[2, n]`, in ascending order, to the front of
/// `primes_out` and returns how many it wrote. The caller sizes the buffer to
/// hold them all (`n + 1` slots always do); the entries past the count are
/// left as they were.
pub fn sieve_rs(n: i32, primes_out: &mut [i32]) -> (count: i32)
    requires
        primes_upto(n as int).len() <= old(primes_out)@.len(),
    ensures
        count == primes_upto(n as int).len(),
        final(primes_out)@.len() == old(primes_out)@.len(),
        as_ints(final(primes_out)@.subrange(0, count as int)) == primes_upto(n as int),
        forall|k: int|
            count <= k < old(primes_out)@.len() ==> final(primes_out)@[k] == old(primes_out)@[k],
{
    if n < 2 {
        assert(primes_out@.subrange(0, 0) =~= Seq::<i32>::empty());
        return 0;
    }
    let limit = n as usize;
    let table = prime_table(limit);
    let ghost len = primes_out@.len() as int;
    let ghost orig = primes_out@;
    let mut count: usize = 0;
    let mut i: usize = 2;
    while i <= limit
        invariant
            2 <= i <= limit + 1,
            limit == n,
            table@.len() == limit + 1,
            forall|k: int| 0 <= k <= limit ==> table@[k] == is_prime(k),
            primes_upto(n as int).len() <= len,
            primes_out@.len() == len,
            count == primes_upto(i - 1).len(),
            as_ints(primes_out@.subrange(0, count as int)) == primes_upto(i - 1),
            forall|k: int| count <= k < len ==> primes_out@[k] == orig[k],
        decreases limit + 1 - i,
    {
        if table[i] {
            proof {
                lemma_primes_prefix(i as int, n as int);
                assert(primes_upto(i as int) == primes_upto(i - 1).push(i as int));
            }
            let ghost before = primes_out@;
            primes_out[count] = i as i32;
            assert(as_ints(primes_out@.subrange(0, count + 1)) =~= as_ints(
                before.subrange(0, count as int),
            ).push(i as int));
            count += 1;
        }
        i += 1;
    }
    proof {
        lemma_prime_count_bound(n as int);
    }
    count as i32
}

} // verus!
