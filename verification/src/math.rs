//! Elementary number theory used by the plane construction: divisibility,
//! primality, greatest common divisors, Bezout coefficients, and modular
//! inverses.  The key facts are that multiplication by a unit is cancellable
//! modulo `n`, and that every nonzero residue has a unique inverse modulo a
//! prime.

use vstd::arithmetic::div_mod::{
    lemma_fundamental_div_mod, lemma_mod_bound, lemma_mod_equivalence,
    lemma_mod_multiples_vanish, lemma_mul_mod_noop_general, lemma_mul_mod_noop_left,
    lemma_mul_mod_noop_right, lemma_small_mod,
};
use vstd::prelude::*;

verus! {

/// `d` divides `m`.
pub open spec fn divides(d: int, m: int) -> bool {
    exists|k: int| m == #[trigger] (d * k)
}

/// `n` is a prime number: at least 2, and without a divisor strictly
/// between 1 and `n`.
pub open spec fn is_prime(n: int) -> bool {
    n >= 2 && forall|d: int| 2 <= d < n ==> #[trigger] (n % d) != 0
}

/// The greatest common divisor, by Euclid's recursion.
pub open spec fn gcd(a: nat, b: nat) -> nat
    decreases b,
{
    if b == 0 {
        a
    } else {
        gcd(b, a % b)
    }
}

/// The inverse of `a` modulo `n`: the residue `m` with `a * m == 1 (mod n)`,
/// when one exists.
pub open spec fn mod_inv(a: nat, n: nat) -> nat {
    choose|m: nat| m < n && #[trigger] ((a * m) as int % n as int) == 1
}

/// Decides primality by trial division.
pub fn check_prime(n: u64) -> (r: bool)
    ensures
        r == is_prime(n as int),
{
    if n < 2 {
        return false;
    }
    let mut d: u64 = 2;
    while d < n
        invariant
            2 <= d <= n,
            forall|e: int| 2 <= e < d ==> #[trigger] ((n as int) % e) != 0,
        decreases n - d,
    {
        if n % d == 0 {
            return false;
        }
        d = d + 1;
    }
    true
}

/// Computes `gcd(a, b)` by Euclid's algorithm.
pub fn gcd_exec(a: u8, b: u8) -> (g: u8)
    ensures
        g as nat == gcd(a as nat, b as nat),
{
    let mut x = a;
    let mut y = b;
    while y != 0
        invariant
            gcd(x as nat, y as nat) == gcd(a as nat, b as nat),
        decreases y,
    {
        let t = x % y;
        x = y;
        y = t;
    }
    x
}

/// The gcd of 0 and `q` is `q`.
pub proof fn lemma_gcd_zero_left(q: nat)
    ensures
        gcd(0, q) == q,
{
    if q > 0 {
        lemma_small_mod(0, q);
        assert(gcd(0, q) == gcd(q, 0));
    }
}

/// 1 is coprime to everything.
pub proof fn lemma_gcd_one_left(q: nat)
    ensures
        gcd(1, q) == 1,
{
    if q == 0 {
    } else if q == 1 {
        assert(gcd(1, 1nat) == gcd(1, 0));
    } else {
        lemma_small_mod(1, q);
        assert(gcd(1, q) == gcd(q, 1));
        assert(gcd(q, 1) == gcd(1, q % 1));
        assert(gcd(1nat, 0nat) == 1);
    }
}

/// A positive divisor of a positive number is no larger than it.
proof fn lemma_divides_le(d: int, m: int)
    requires
        divides(d, m),
        d >= 1,
        m >= 1,
    ensures
        d <= m,
{
    let k = choose|k: int| m == #[trigger] (d * k);
    assert(d <= d * k) by (nonlinear_arith)
        requires
            d >= 1,
            d * k >= 1,
    ;
}

/// The gcd divides both of its arguments.
pub proof fn lemma_gcd_divides(a: nat, b: nat)
    ensures
        divides(gcd(a, b) as int, a as int),
        divides(gcd(a, b) as int, b as int),
    decreases b,
{
    if b == 0 {
        assert(a as int == (a as int) * 1);
        assert(0int == (a as int) * 0);
    } else {
        lemma_gcd_divides(b, a % b);
        let g = gcd(b, a % b) as int;
        let k1 = choose|k: int| b as int == #[trigger] (g * k);
        let k2 = choose|k: int| (a % b) as int == #[trigger] (g * k);
        lemma_fundamental_div_mod(a as int, b as int);
        let q = a as int / b as int;
        assert(a as int == g * (k1 * q + k2)) by (nonlinear_arith)
            requires
                a as int == (b as int) * q + (a % b) as int,
                b as int == g * k1,
                (a % b) as int == g * k2,
        ;
    }
}

/// The gcd of two numbers, not both zero, is positive.
pub proof fn lemma_gcd_pos(a: nat, b: nat)
    requires
        a > 0 || b > 0,
    ensures
        gcd(a, b) > 0,
    decreases b,
{
    if b != 0 {
        lemma_gcd_pos(b, a % b);
    }
}

/// Bezout's identity: returns coefficients `(u, v)` with
/// `gcd(a, b) == u * a + v * b`.
pub proof fn lemma_bezout(a: nat, b: nat) -> (r: (int, int))
    ensures
        gcd(a, b) as int == r.0 * a + r.1 * b,
    decreases b,
{
    if b == 0 {
        (1, 0)
    } else {
        let (u, v) = lemma_bezout(b, a % b);
        lemma_fundamental_div_mod(a as int, b as int);
        let q = a as int / b as int;
        let g = gcd(b, a % b) as int;
        assert(g == v * a + (u - v * q) * b) by (nonlinear_arith)
            requires
                g == u * b + v * ((a % b) as int),
                (a % b) as int == a as int - (b as int) * q,
        ;
        (v, u - v * q)
    }
}

/// A residue strictly between 0 and a prime is coprime to the prime.
pub proof fn lemma_prime_coprime(d: nat, p: nat)
    requires
        is_prime(p as int),
        1 <= d < p,
    ensures
        gcd(d, p) == 1,
{
    let g = gcd(d, p);
    lemma_gcd_divides(d, p);
    lemma_gcd_pos(d, p);
    lemma_divides_le(g as int, d as int);
    if g >= 2 {
        let k = choose|k: int| p as int == #[trigger] ((g as int) * k);
        lemma_fundamental_div_mod_converse_zero(p as int, g as int, k);
        assert(false);
    }
}

/// A multiple of `d` has remainder 0 modulo `d`.
proof fn lemma_fundamental_div_mod_converse_zero(m: int, d: int, k: int)
    requires
        d >= 1,
        m == d * k,
    ensures
        m % d == 0,
{
    vstd::arithmetic::div_mod::lemma_fundamental_div_mod_converse_mod(m, d, k, 0);
}

/// Multiplication by a number coprime to `n` is cancellable: if `d * k` is a
/// multiple of `n` and `k` lies below `n`, then `k` is zero.
pub proof fn lemma_coprime_cancel(d: nat, k: nat, n: nat)
    requires
        n >= 1,
        gcd(d, n) == 1,
        k < n,
        ((d * k) as int) % (n as int) == 0,
    ensures
        k == 0,
{
    let (u, v) = lemma_bezout(d, n);
    lemma_fundamental_div_mod((d * k) as int, n as int);
    let t = (d * k) as int / n as int;
    assert(k as int == (n as int) * (u * t + v * k)) by (nonlinear_arith)
        requires
            1 == u * d + v * n,
            (d * k) as int == (n as int) * t,
    ;
    let w = u * t + v * (k as int);
    assert(k == 0) by (nonlinear_arith)
        requires
            k as int == (n as int) * w,
            0 <= (k as int) < n as int,
            n >= 1,
    ;
}

/// Every residue coprime to `n` has an inverse modulo `n`.
pub proof fn lemma_inverse_exists(a: nat, n: nat)
    requires
        n >= 2,
        gcd(a, n) == 1,
    ensures
        exists|m: nat| m < n && #[trigger] ((a * m) as int % n as int) == 1,
{
    let (u, v) = lemma_bezout(a, n);
    vstd::arithmetic::div_mod::lemma_mod_bound(u, n as int);
    let m = u % (n as int);
    // a * m == a * u (mod n), and a * u == 1 - v * n, a multiple of n away from 1.
    lemma_mul_mod_noop_general(a as int, u, n as int);
    assert((a as int * m) % (n as int) == (a as int * u) % (n as int)) by {
        lemma_mul_mod_noop_general(a as int, m, n as int);
        vstd::arithmetic::div_mod::lemma_mod_twice(u, n as int);
    }
    assert(a as int * u == (-v) * (n as int) + 1) by (nonlinear_arith)
        requires
            1 == u * a + v * n,
    ;
    lemma_mod_multiples_vanish(-v, 1, n as int);
    lemma_small_mod(1, n);
    let mn = m as nat;
    assert(mn < n && ((a * mn) as int % n as int) == 1);
}

/// The inverse modulo `n` is unique among residues below `n`.
pub proof fn lemma_inverse_unique(a: nat, n: nat, m1: nat, m2: nat)
    requires
        n >= 2,
        gcd(a, n) == 1,
        m1 < n,
        m2 < n,
        ((a * m1) as int % n as int) == 1,
        ((a * m2) as int % n as int) == 1,
    ensures
        m1 == m2,
{
    lemma_mod_mul_cancel(a, m1, m2, n);
}

/// Congruent products of a factor coprime to `n` have congruent cofactors:
/// multiplication by a unit is cancellable modulo `n`.
pub proof fn lemma_mod_mul_cancel(a: nat, m1: nat, m2: nat, n: nat)
    requires
        n >= 1,
        gcd(a, n) == 1,
        m1 < n,
        m2 < n,
        ((a * m1) as int % n as int) == ((a * m2) as int % n as int),
    ensures
        m1 == m2,
{
    if m1 >= m2 {
        lemma_cancel_ordered(a, n, m1, m2);
    } else {
        lemma_cancel_ordered(a, n, m2, m1);
    }
}

/// Cancellation with the larger cofactor first.
proof fn lemma_cancel_ordered(a: nat, n: nat, m1: nat, m2: nat)
    requires
        n >= 1,
        gcd(a, n) == 1,
        m2 <= m1 < n,
        ((a * m1) as int % n as int) == ((a * m2) as int % n as int),
    ensures
        m1 == m2,
{
    lemma_mod_equivalence((a * m1) as int, (a * m2) as int, n as int);
    let k = (m1 - m2) as nat;
    assert((a * m1) as int - (a * m2) as int == (a * k) as int) by (nonlinear_arith)
        requires
            m2 <= m1,
            k == m1 - m2,
    ;
    lemma_coprime_cancel(a, k, n);
}

/// The chosen `mod_inv` value is a genuine inverse whenever `a` is coprime
/// to `n`.
pub proof fn lemma_mod_inv_works(a: nat, n: nat)
    requires
        n >= 2,
        gcd(a, n) == 1,
    ensures
        mod_inv(a, n) < n,
        ((a * mod_inv(a, n)) as int % n as int) == 1,
{
    lemma_inverse_exists(a, n);
}

/// Two affine congruences agree at `y` exactly when the reduced difference
/// equation does: `m1*y + c1 == m2*y + c2 (mod n)` holds iff
/// `d*y == e (mod n)` for `d = (m1 - m2) % n` and `e = (c2 - c1) % n`.
proof fn lemma_cross_bridge(n: int, m1: int, c1: int, m2: int, c2: int, y: int)
    requires
        n >= 1,
    ensures
        ((m1 * y + c1) % n == (m2 * y + c2) % n) <==> ((((m1 - m2) % n) * y) % n == (c2 - c1)
            % n),
{
    let d = (m1 - m2) % n;
    let e = (c2 - c1) % n;
    lemma_mod_equivalence(m1 * y + c1, m2 * y + c2, n);
    lemma_mod_equivalence(d * y, e, n);
    lemma_mod_bound(e, n);
    lemma_small_mod(e as nat, n as nat);
    lemma_fundamental_div_mod(m1 - m2, n);
    let q1 = (m1 - m2) / n;
    lemma_fundamental_div_mod(c2 - c1, n);
    let q2 = (c2 - c1) / n;
    assert((m1 * y + c1) - (m2 * y + c2) == n * (q1 * y - q2) + (d * y - e))
        by (nonlinear_arith)
        requires
            m1 - m2 == n * q1 + d,
            c2 - c1 == n * q2 + e,
    ;
    lemma_mod_multiples_vanish(q1 * y - q2, d * y - e, n);
}

/// Two residues with the same remainder difference are equal: helper turning
/// `(c2 - c1) % n == 0` into `c1 == c2` for residues below `n`.
pub proof fn lemma_zero_diff_mod(c1: int, c2: int, n: int)
    requires
        n >= 1,
        0 <= c1 < n,
        0 <= c2 < n,
        (c2 - c1) % n == 0,
    ensures
        c1 == c2,
{
    lemma_mod_equivalence(c2, c1, n);
    lemma_small_mod(c1 as nat, n as nat);
    lemma_small_mod(c2 as nat, n as nat);
}

/// Lines of distinct directions modulo a prime cross exactly once: for
/// residues `m1 != m2` and any offsets `c1`, `c2`, exactly one residue `x`
/// below `n` satisfies `m1*x + c1 == m2*x + c2 (mod n)`.
pub proof fn lemma_linear_cross(n: int, m1: int, c1: int, m2: int, c2: int) -> (x: int)
    requires
        is_prime(n),
        0 <= m1 < n,
        0 <= m2 < n,
        m1 != m2,
        0 <= c1 < n,
        0 <= c2 < n,
    ensures
        0 <= x < n,
        (m1 * x + c1) % n == (m2 * x + c2) % n,
        forall|y: int|
            0 <= y < n && #[trigger] ((m1 * y + c1) % n) == (m2 * y + c2) % n ==> y == x,
{
    let d = (m1 - m2) % n;
    let e = (c2 - c1) % n;
    lemma_mod_bound(m1 - m2, n);
    lemma_mod_bound(c2 - c1, n);
    // d is nonzero: m1 and m2 are distinct residues below n
    lemma_mod_equivalence(m1, m2, n);
    lemma_small_mod(m1 as nat, n as nat);
    lemma_small_mod(m2 as nat, n as nat);
    assert(d != 0);
    lemma_prime_coprime(d as nat, n as nat);
    lemma_mod_inv_works(d as nat, n as nat);
    let inv = mod_inv(d as nat, n as nat) as int;
    let x = (inv * e) % n;
    lemma_mod_bound(inv * e, n);
    assert((d * x) % n == e) by {
        lemma_mul_mod_noop_right(d, inv * e, n);
        assert(d * (inv * e) == (d * inv) * e) by (nonlinear_arith);
        lemma_mul_mod_noop_left(d * inv, e, n);
        assert((d as nat * mod_inv(d as nat, n as nat)) as int == d * inv);
        assert(((d * inv) % n) * e == e);
        lemma_small_mod(e as nat, n as nat);
    }
    lemma_cross_bridge(n, m1, c1, m2, c2, x);
    assert forall|y: int|
        0 <= y < n && #[trigger] ((m1 * y + c1) % n) == (m2 * y + c2) % n implies y == x
    by {
        lemma_cross_bridge(n, m1, c1, m2, c2, y);
        assert((d as nat * (y as nat)) as int == d * y) by (nonlinear_arith)
            requires
                d >= 0,
                y >= 0,
        ;
        assert((d as nat * (x as nat)) as int == d * x) by (nonlinear_arith)
            requires
                d >= 0,
                x >= 0,
        ;
        lemma_mod_mul_cancel(d as nat, y as nat, x as nat, n as nat);
    }
    x
}

/// Computes the inverse of `a` modulo a prime `n` by searching the residues.
pub fn mod_inverse(a: u8, n: u8) -> (r: u8)
    requires
        is_prime(n as int),
        1 <= a < n,
    ensures
        r < n,
        ((a as nat * r as nat) as int % n as int) == 1,
        r as nat == mod_inv(a as nat, n as nat),
{
    proof {
        lemma_prime_coprime(a as nat, n as nat);
        lemma_inverse_exists(a as nat, n as nat);
    }
    let mut m: u8 = 0;
    while m < n
        invariant
            m <= n,
            1 <= a < n,
            n >= 2,
            gcd(a as nat, n as nat) == 1,
            forall|j: nat| j < m ==> #[trigger] ((a as nat * j) as int % n as int) != 1,
        decreases n - m,
    {
        proof {
            assert(a as int * m as int <= 255 * 255) by (nonlinear_arith)
                requires
                    0 <= a as int <= 255,
                    0 <= m as int <= 255,
            ;
        }
        if (a as u16 * m as u16) % (n as u16) == 1 {
            proof {
                lemma_mod_inv_works(a as nat, n as nat);
                lemma_inverse_unique(
                    a as nat,
                    n as nat,
                    m as nat,
                    mod_inv(a as nat, n as nat),
                );
            }
            return m;
        }
        m = m + 1;
    }
    proof {
        let w = choose|w: nat| w < n as nat && #[trigger] ((a as nat * w) as int % n as int)
            == 1;
        assert(false);
    }
    0
}

} // verus!
