//! Exact comparison of two non-negative fractions without forming the
//! cross products (which could exceed 128 bits).

use vstd::prelude::*;

verus! {

proof fn lemma_split(a: int, b: int)
    requires
        a >= 0,
        b > 0,
    ensures
        a == (a / b) * b + a % b,
        0 <= a % b < b,
        a / b >= 0,
{
    vstd::arithmetic::div_mod::lemma_fundamental_div_mod(a, b);
    vstd::arithmetic::div_mod::lemma_mod_pos_bound(a, b);
    vstd::arithmetic::div_mod::lemma_div_pos_is_pos(a, b);
    assert(b * (a / b) == (a / b) * b) by (nonlinear_arith);
}

proof fn lemma_quotients_differ(a: int, q1: int, r1: int, b: int, c: int, q2: int, r2: int, d: int)
    requires
        a == q1 * b + r1,
        c == q2 * d + r2,
        b > 0,
        d > 0,
        0 <= r1 < b,
        0 <= r2 < d,
        q1 >= 0,
        q2 >= 0,
        q1 < q2,
    ensures
        a * d < c * b,
{
    assert((q1 * b + r1) * d == q1 * b * d + r1 * d) by (nonlinear_arith);
    assert(r1 * d < b * d) by (nonlinear_arith)
        requires
            0 <= r1 < b,
            d > 0,
    ;
    assert((q1 + 1) * b * d <= q2 * b * d) by (nonlinear_arith)
        requires
            q1 + 1 <= q2,
            b > 0,
            d > 0,
    ;
    assert((q2 * d + r2) * b == q2 * b * d + r2 * b) by (nonlinear_arith);
    assert(r2 * b >= 0) by (nonlinear_arith)
        requires
            r2 >= 0,
            b > 0,
    ;
    assert((q1 + 1) * b * d == q1 * b * d + b * d) by (nonlinear_arith);
    assert((q1 * b + r1) * d < (q2 * d + r2) * b);
    assert(a * d == (q1 * b + r1) * d);
    assert(c * b == (q2 * d + r2) * b);
}

proof fn lemma_same_quotient(q: int, r1: int, b: int, r2: int, d: int)
    ensures
        ((q * b + r1) * d <= (q * d + r2) * b) == (r1 * d <= r2 * b),
{
    assert((q * b + r1) * d == q * b * d + r1 * d) by (nonlinear_arith);
    assert((q * d + r2) * b == q * b * d + r2 * b) by (nonlinear_arith);
}

/// Whether `a / b <= c / d` for non-negative numerators and positive
/// denominators, decided by continued-fraction steps.
pub fn fraction_le(a: u128, b: u128, c: u128, d: u128) -> (r: bool)
    requires
        b > 0,
        d > 0,
    ensures
        r == (a * d <= c * b),
    decreases b + d,
{
    let q1 = a / b;
    let q2 = c / d;
    let r1 = a % b;
    let r2 = c % d;
    proof {
        lemma_split(a as int, b as int);
        lemma_split(c as int, d as int);
    }
    if q1 < q2 {
        proof {
            lemma_quotients_differ(a as int, q1 as int, r1 as int, b as int, c as int, q2 as int, r2 as int, d as int);
        }
        assert(a as int == q1 * b + r1);
        assert(c as int == q2 * d + r2);
        assert(a * d < c * b);
        return true;
    }
    if q2 < q1 {
        proof {
            lemma_quotients_differ(c as int, q2 as int, r2 as int, d as int, a as int, q1 as int, r1 as int, b as int);
        }
        assert(a as int == q1 * b + r1);
        assert(c as int == q2 * d + r2);
        return false;
    }
    assert(q1 == q2);
    assert(a as int == q1 * b + r1);
    assert(c as int == q1 * d + r2);
    proof {
        lemma_same_quotient(q1 as int, r1 as int, b as int, r2 as int, d as int);
    }
    assert((a * d <= c * b) == (r1 * d <= r2 * b));
    if r1 == 0 {
        assert(r2 * b >= 0) by (nonlinear_arith)
            requires
                r2 >= 0,
                b > 0,
        ;
        assert(r1 * d == 0) by (nonlinear_arith)
            requires
                r1 == 0,
        ;
        return true;
    }
    if r2 == 0 {
        assert(r1 * d > 0) by (nonlinear_arith)
            requires
                r1 > 0,
                d > 0,
        ;
        assert(r2 * b == 0) by (nonlinear_arith)
            requires
                r2 == 0,
        ;
        return false;
    }
    let inner = fraction_le(d, r2, b, r1);
    proof {
        assert(d * r1 == r1 * d) by (nonlinear_arith);
        assert(b * r2 == r2 * b) by (nonlinear_arith);
    }
    inner
}

} // verus!
