//! Seven-smooth numbers: the positive integers whose prime factors all lie
//! among 2, 3, 5 and 7.
//!
//! Transform lengths are chosen among these numbers. This module defines
//! them by their prime factors and proves that dividing out 2, 3, 5 and 7
//! decides membership.

use vstd::arithmetic::div_mod::{
    lemma_div_decreases, lemma_div_pos_is_pos, lemma_fundamental_div_mod,
    lemma_mod_multiples_basic, lemma_small_mod,
};
use vstd::prelude::*;

verus! {

/// `p` is a prime number.
pub open spec fn is_prime(p: nat) -> bool {
    &&& p >= 2
    &&& forall|d: nat| 1 < d < p ==> #[trigger] (p % d) != 0
}

/// `n` is positive and no prime other than 2, 3, 5 and 7 divides it.
pub open spec fn is_seven_smooth(n: nat) -> bool {
    &&& n >= 1
    &&& forall|p: nat| #[trigger] is_prime(p) && n % p == 0 ==> p == 2 || p == 3 || p == 5 || p == 7
}

/// What is left of `n` once every factor `q` has been divided out.
/// Zero and one are left as they are.
pub open spec fn strip_factor(n: nat, q: nat) -> nat
    decreases n,
    when q >= 2
    via strip_factor_terminates
{
    if n > 1 && n % q == 0 {
        strip_factor(n / q, q)
    } else {
        n
    }
}

#[via_fn]
proof fn strip_factor_terminates(n: nat, q: nat) {
    if n > 1 && n % q == 0 {
        lemma_div_decreases(n as int, q as int);
        lemma_div_pos_is_pos(n as int, q as int);
    }
}

/// What is left of `n` once every factor 2, then 3, then 5, then 7 has been
/// divided out.
pub open spec fn smooth_residue(n: nat) -> nat {
    strip_factor(strip_factor(strip_factor(strip_factor(n, 2), 3), 5), 7)
}

/// A multiple of a multiple of `a` is a multiple of `a`.
pub proof fn lemma_divides_transitive(a: nat, b: nat, c: nat)
    requires
        a > 0,
        b > 0,
        b % a == 0,
        c % b == 0,
    ensures
        c % a == 0,
{
    lemma_fundamental_div_mod(b as int, a as int);
    lemma_fundamental_div_mod(c as int, b as int);
    let i = b as int / a as int;
    let j = c as int / b as int;
    assert(c == (i * j) * a) by (nonlinear_arith)
        requires
            b == a * i,
            c == b * j,
    ;
    lemma_mod_multiples_basic(i * j, a as int);
}

/// Every number from 2 on has a prime factor.
pub proof fn lemma_prime_factor_exists(n: nat) -> (p: nat)
    requires
        n >= 2,
    ensures
        is_prime(p),
        n % p == 0,
        p <= n,
    decreases n,
{
    if is_prime(n) {
        lemma_mod_multiples_basic(1, n as int);
        n
    } else {
        let d = choose|d: nat| 1 < d < n && #[trigger] (n % d) == 0;
        let p = lemma_prime_factor_exists(d);
        lemma_divides_transitive(p, d, n);
        p
    }
}

/// The primes below eleven are 2, 3, 5 and 7.
pub proof fn lemma_primes_below_eleven(p: nat)
    requires
        is_prime(p),
        p < 11,
    ensures
        p == 2 || p == 3 || p == 5 || p == 7,
{
    assert(4nat % 2 == 0 && 6nat % 2 == 0 && 8nat % 2 == 0 && 10nat % 2 == 0 && 9nat % 3 == 0);
}

/// A prime that divides `q * m`, with `q` positive and below the prime,
/// divides `m`.
pub proof fn lemma_prime_divides_cofactor(p: nat, q: nat, m: nat)
    requires
        is_prime(p),
        0 < q < p,
        (q * m) % p == 0,
    ensures
        m % p == 0,
    decreases q,
{
    if q == 1 {
        assert(q * m == m) by (nonlinear_arith)
            requires
                q == 1,
        ;
    } else {
        let t = p as int / q as int;
        let r = p % q;
        lemma_fundamental_div_mod(p as int, q as int);
        lemma_fundamental_div_mod((q * m) as int, p as int);
        let k = (q * m) as int / p as int;
        assert(r * m == (m - t * k) * p) by (nonlinear_arith)
            requires
                p == q * t + r,
                q * m == p * k,
        ;
        lemma_mod_multiples_basic(m - t * k, p as int);
        lemma_prime_divides_cofactor(p, r, m);
    }
}

/// Multiplying a seven-smooth number by 2, 3, 5 or 7 gives a seven-smooth
/// number, and dividing one by such a factor does too.
pub proof fn lemma_smooth_times_small_prime(q: nat, m: nat)
    requires
        q == 2 || q == 3 || q == 5 || q == 7,
        m >= 1,
    ensures
        is_seven_smooth(q * m) <==> is_seven_smooth(m),
{
    assert(q * m >= 1) by (nonlinear_arith)
        requires
            q >= 1,
            m >= 1,
    ;
    if is_seven_smooth(m) {
        assert forall|p: nat| #[trigger] is_prime(p) && (q * m) % p == 0 implies p == 2 || p == 3
            || p == 5 || p == 7 by {
            if p < 11 {
                lemma_primes_below_eleven(p);
            } else {
                lemma_prime_divides_cofactor(p, q, m);
            }
        }
    }
    if is_seven_smooth(q * m) {
        assert forall|p: nat| #[trigger] is_prime(p) && m % p == 0 implies p == 2 || p == 3 || p
            == 5 || p == 7 by {
            lemma_mod_multiples_basic(q as int, m as int);
            lemma_divides_transitive(p, m, q * m);
        }
    }
}

/// One is seven-smooth: no prime divides it.
pub proof fn lemma_one_is_smooth()
    ensures
        is_seven_smooth(1),
{
    assert forall|p: nat| #[trigger] is_prime(p) && 1nat % p == 0 implies p == 2 by {
        lemma_small_mod(1, p);
    }
}

/// Dividing out a factor of 2, 3, 5 or 7 keeps a positive number positive,
/// leaves a divisor of it, and changes nothing about its smoothness.
pub proof fn lemma_strip_factor(n: nat, q: nat)
    requires
        n >= 1,
        q == 2 || q == 3 || q == 5 || q == 7,
    ensures
        strip_factor(n, q) >= 1,
        n % strip_factor(n, q) == 0,
        strip_factor(n, q) == 1 || strip_factor(n, q) % q != 0,
        is_seven_smooth(strip_factor(n, q)) <==> is_seven_smooth(n),
    decreases n,
{
    if n > 1 && n % q == 0 {
        let m = n / q;
        lemma_fundamental_div_mod(n as int, q as int);
        lemma_div_pos_is_pos(n as int, q as int);
        assert(m >= 1) by (nonlinear_arith)
            requires
                n == q * m,
                n > 1,
                m >= 0,
        ;
        lemma_strip_factor(m, q);
        lemma_smooth_times_small_prime(q, m);
        lemma_mod_multiples_basic(q as int, m as int);
        lemma_divides_transitive(strip_factor(m, q), m, n);
    } else {
        lemma_mod_multiples_basic(1, n as int);
    }
}

/// A positive number is seven-smooth exactly when dividing out 2, 3, 5 and 7
/// leaves one.
pub proof fn lemma_smooth_iff_residue_is_one(n: nat)
    requires
        n >= 1,
    ensures
        is_seven_smooth(n) <==> smooth_residue(n) == 1,
{
    let r2 = strip_factor(n, 2);
    let r3 = strip_factor(r2, 3);
    let r5 = strip_factor(r3, 5);
    let r7 = strip_factor(r5, 7);
    lemma_strip_factor(n, 2);
    lemma_strip_factor(r2, 3);
    lemma_strip_factor(r3, 5);
    lemma_strip_factor(r5, 7);
    lemma_one_is_smooth();
    if is_seven_smooth(n) && r7 != 1 {
        let p = lemma_prime_factor_exists(r7);
        assert(p == 2 || p == 3 || p == 5 || p == 7);
        if p == 5 || p == 3 || p == 2 {
            lemma_divides_transitive(p, r7, r5);
            if p == 3 || p == 2 {
                lemma_divides_transitive(p, r5, r3);
                if p == 2 {
                    lemma_divides_transitive(p, r3, r2);
                }
            }
        }
    }
}

} // verus!
