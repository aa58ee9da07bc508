//! The mathematical model: which integers are prime, and the ascending
//! sequence of primes up to a bound.

use vstd::prelude::*;

verus! {

/// `k` is prime: at least 2, and no integer in `[2, k)` divides it.
pub open spec fn is_prime(k: int) -> bool {
    k >= 2 && forall|d: int| 2 <= d < k ==> #[trigger] (k % d) != 0
}

/// Every prime in `[2, n]`, in ascending order.
pub open spec fn primes_upto(n: int) -> Seq<int>
    decreases n,
{
    if n < 2 {
        Seq::empty()
    } else if is_prime(n) {
        primes_upto(n - 1).push(n)
    } else {
        primes_upto(n - 1)
    }
}

/// The primes up to `i` begin the primes up to any `j >= i`.
pub proof fn lemma_primes_prefix(i: int, j: int)
    requires
        i <= j,
    ensures
        primes_upto(i).len() <= primes_upto(j).len(),
        primes_upto(i) =~= primes_upto(j).subrange(0, primes_upto(i).len() as int),
    decreases j - i,
{
    if i < j {
        lemma_primes_prefix(i, j - 1);
        if j >= 2 {
            assert(primes_upto(j - 1) =~= primes_upto(j).subrange(0, primes_upto(j - 1).len() as int));
        }
    }
}

/// There are at most `n - 1` primes up to `n`, and none below 2.
pub proof fn lemma_prime_count_bound(n: int)
    ensures
        primes_upto(n).len() <= if n < 2 { 0 } else { n - 1 },
    decreases n,
{
    if n >= 2 {
        lemma_prime_count_bound(n - 1);
    }
}

/// A composite number has a divisor `d` with `d * d <= k`.
pub proof fn lemma_small_divisor(k: int, d: int) -> (s: int)
    requires
        2 <= d < k,
        k % d == 0,
    ensures
        2 <= s,
        s * s <= k,
        k % s == 0,
{
    let e = k / d;
    assert(k == d * e + k % d) by {
        vstd::arithmetic::div_mod::lemma_fundamental_div_mod(k, d);
    }
    assert(k == d * e);
    assert(e >= 2) by (nonlinear_arith)
        requires
            k == d * e,
            2 <= d < k,
    ;
    if d <= e {
        assert(d * d <= k) by (nonlinear_arith)
            requires
                k == d * e,
                2 <= d <= e,
        ;
        d
    } else {
        assert(e * e <= k) by (nonlinear_arith)
            requires
                k == d * e,
                2 <= e < d,
        ;
        assert(k % e == 0) by {
            assert(k == e * d) by (nonlinear_arith)
                requires
                    k == d * e,
            ;
            vstd::arithmetic::div_mod::lemma_mod_multiples_basic(d, e);
        }
        e
    }
}

/// Divisibility is transitive.
pub proof fn lemma_divides_trans(i: int, p: int, d: int)
    requires
        0 < d,
        0 < p,
        i % p == 0,
        p % d == 0,
    ensures
        i % d == 0,
{
    vstd::arithmetic::div_mod::lemma_fundamental_div_mod(i, p);
    vstd::arithmetic::div_mod::lemma_fundamental_div_mod(p, d);
    let a = i / p;
    let b = p / d;
    assert(i == d * (b * a)) by (nonlinear_arith)
        requires
            i == p * a,
            p == d * b,
    ;
    vstd::arithmetic::div_mod::lemma_mod_multiples_basic(b * a, d);
    assert(i == (b * a) * d) by (nonlinear_arith)
        requires
            i == d * (b * a),
    ;
}

/// No multiple of `p` lies strictly between two consecutive multiples.
pub proof fn lemma_no_multiple_between(i: int, m: int, p: int)
    requires
        0 < p,
        m % p == 0,
        m < i < m + p,
    ensures
        i % p != 0,
{
    if i % p == 0 {
        vstd::arithmetic::div_mod::lemma_fundamental_div_mod(i, p);
        vstd::arithmetic::div_mod::lemma_fundamental_div_mod(m, p);
        let a = i / p;
        let b = m / p;
        assert(false) by (nonlinear_arith)
            requires
                i == p * a,
                m == p * b,
                m < i < m + p,
                0 < p,
        ;
    }
}

} // verus!
