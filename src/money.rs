use vstd::prelude::*;

verus! {

/// Round `n / d` to the nearest integer, ties to the even neighbour.
pub open spec fn round_half_even(n: int, d: int) -> int
    recommends
        d > 0,
{
    let q = n / d;
    let r = n % d;
    if 2 * r < d {
        q
    } else if 2 * r > d {
        q + 1
    } else if q % 2 == 0 {
        q
    } else {
        q + 1
    }
}

/// A rounded quotient stays within a bound that the dividend respects.
pub proof fn lemma_round_half_even_le(n: int, d: int, m: int)
    requires
        0 <= n <= d * m,
        d > 0,
    ensures
        round_half_even(n, d) <= m,
{
    let q = n / d;
    let r = n % d;
    vstd::arithmetic::div_mod::lemma_fundamental_div_mod(n, d);
    assert(q <= m) by (nonlinear_arith)
        requires
            n == d * q + r,
            0 <= r,
            n <= d * m,
            d > 0,
    ;
    if q == m {
        assert(r == 0) by (nonlinear_arith)
            requires
                n == d * q + r,
                0 <= r,
                n <= d * m,
                q == m,
        ;
    }
}

/// Rounding a whole multiple gives the exact quotient.
pub proof fn lemma_round_half_even_exact(m: int, d: int)
    requires
        d > 0,
    ensures
        round_half_even(m * d, d) == m,
{
    vstd::arithmetic::div_mod::lemma_mod_multiples_basic(m, d);
    vstd::arithmetic::div_mod::lemma_div_multiples_vanish(m, d);
    assert(m * d == d * m) by (nonlinear_arith);
}

/// `n / d` truncated toward zero, for `d > 0`.
pub open spec fn div_toward_zero(n: int, d: int) -> int {
    if n >= 0 {
        n / d
    } else {
        -((-n) / d)
    }
}

} // verus!
