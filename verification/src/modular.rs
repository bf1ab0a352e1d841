//! Multiplication by an odd number modulo a power of two.

use vstd::prelude::*;

verus! {

/// Two to the power `k`.
pub open spec fn spec_pow2(k: nat) -> int
    decreases k,
{
    if k == 0 {
        1
    } else {
        2 * spec_pow2((k - 1) as nat)
    }
}

/// A power of two that divides a product with an odd factor divides the
/// other factor: where `d * m` is `q` times the power, `d` is the result
/// times the power.
pub proof fn lemma_odd_factor(d: int, m: int, q: int, k: nat) -> (t: int)
    requires
        m % 2 == 1,
        d * m == spec_pow2(k) * q,
    ensures
        d == spec_pow2(k) * t,
    decreases k,
{
    if k == 0 {
        d
    } else {
        let n = spec_pow2((k - 1) as nat);
        let e = d / 2;
        let r = d % 2;
        let f = m / 2;
        let ef = e * f;
        let fr = f * r;
        let nq = n * q;
        assert(d * m == 4 * ef + 2 * e + 2 * fr + r) by (nonlinear_arith)
            requires
                d == 2 * e + r,
                m == 2 * f + 1,
                ef == e * f,
                fr == f * r,
        ;
        assert((2 * n) * q == 2 * nq) by (nonlinear_arith)
            requires
                nq == n * q,
        ;
        assert(r == 0);
        let em = e * m;
        assert(d * m == 2 * em) by (nonlinear_arith)
            requires
                d == 2 * e,
                em == e * m,
        ;
        let t = lemma_odd_factor(e, m, q, (k - 1) as nat);
        assert(d == (2 * n) * t) by (nonlinear_arith)
            requires
                d == 2 * e,
                e == n * t,
        ;
        t
    }
}

/// Two numbers below a power of two whose products with an odd number
/// agree modulo that power are the same number.
pub proof fn lemma_odd_multiple(x: int, y: int, m: int, k: nat)
    requires
        0 <= x < spec_pow2(k),
        0 <= y < spec_pow2(k),
        0 <= m,
        m % 2 == 1,
        (x * m) % spec_pow2(k) == (y * m) % spec_pow2(k),
    ensures
        x == y,
{
    let n = spec_pow2(k);
    let xm = x * m;
    let ym = y * m;
    vstd::arithmetic::div_mod::lemma_fundamental_div_mod(xm, n);
    vstd::arithmetic::div_mod::lemma_fundamental_div_mod(ym, n);
    let q = xm / n - ym / n;
    vstd::arithmetic::mul::lemma_mul_is_distributive_sub(n, xm / n, ym / n);
    vstd::arithmetic::mul::lemma_mul_is_distributive_sub_other_way(m, x, y);
    assert((x - y) * m == n * q);
    let t = lemma_odd_factor(x - y, m, q, k);
    assert(t == 0) by (nonlinear_arith)
        requires
            x - y == n * t,
            -n < x - y < n,
    ;
}

/// Multiplying 32-bit numbers by an odd number, modulo 2^32, takes no two
/// of them to the same number.
pub proof fn lemma_odd_multiple_u32(a: u32, b: u32, m: u32)
    requires
        m % 2 == 1,
        a.wrapping_mul(m) == b.wrapping_mul(m),
    ensures
        a == b,
{
    assert(spec_pow2(32) == 0x1_0000_0000) by {
        reveal_with_fuel(spec_pow2, 33);
    }
    assert(a as int * m as int >= 0 && b as int * m as int >= 0) by (nonlinear_arith);
    lemma_odd_multiple(a as int, b as int, m as int, 32);
}

/// Multiplying 64-bit numbers by an odd number, modulo 2^64, takes no two
/// of them to the same number.
pub proof fn lemma_odd_multiple_u64(a: u64, b: u64, m: u64)
    requires
        m % 2 == 1,
        a.wrapping_mul(m) == b.wrapping_mul(m),
    ensures
        a == b,
{
    assert(spec_pow2(64) == 0x1_0000_0000_0000_0000) by {
        reveal_with_fuel(spec_pow2, 65);
    }
    assert(a as int * m as int >= 0 && b as int * m as int >= 0) by (nonlinear_arith);
    lemma_odd_multiple(a as int, b as int, m as int, 64);
}

} // verus!
