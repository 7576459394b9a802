//! Integer division that rounds down, and the bounds the crate's arithmetic
//! rests on.

use vstd::arithmetic::div_mod::{lemma_fundamental_div_mod, lemma_fundamental_div_mod_converse};
use vstd::prelude::*;

verus! {

/// The quotient of `n` by `d`, rounded towards negative infinity.
pub open spec fn floor_div(n: int, d: int) -> int
    recommends
        d != 0,
{
    if d > 0 {
        n / d
    } else {
        (-n) / (-d)
    }
}

/// The quotient `q` of `n` by a positive `d` brackets `n` between two
/// multiples of `d`.
pub proof fn lemma_quotient_bounds(n: int, d: int, q: int)
    requires
        d > 0,
        q == n / d,
    ensures
        q * d <= n < (q + 1) * d,
{
    lemma_fundamental_div_mod(n, d);
    assert(n == d * (n / d) + n % d);
    assert(0 <= n % d < d);
    assert(q * d == d * q) by (nonlinear_arith);
    assert((q + 1) * d == d * q + d) by (nonlinear_arith);
}

/// A product is bounded by the product of the bounds of its factors.
pub proof fn lemma_product_bound(x: int, y: int, bx: int, by: int)
    requires
        -bx <= x <= bx,
        -by <= y <= by,
    ensures
        -(bx * by) <= x * y <= bx * by,
{
    assert(-(bx * by) <= x * y <= bx * by) by (nonlinear_arith)
        requires
            -bx <= x <= bx,
            -by <= y <= by,
    ;
}

/// `n / d` rounded towards negative infinity, for a positive `d`.
pub fn floor_quotient(n: i128, d: i128) -> (q: i128)
    requires
        d > 0,
        -0x4000_0000_0000_0000_0000_0000_0000_0000 <= n <= 0x4000_0000_0000_0000_0000_0000_0000_0000,
    ensures
        q == n / d,
        q == floor_div(n as int, d as int),
{
    if n >= 0 {
        let q: u128 = (n as u128) / (d as u128);
        q as i128
    } else {
        let m: u128 = ((-n) - 1) as u128;
        let q: u128 = m / (d as u128);
        let r: Ghost<int> = Ghost((m as int) % (d as int));
        proof {
            lemma_fundamental_div_mod(m as int, d as int);
            assert(n == (-(q as int) - 1) * d + (d - r@ - 1)) by (nonlinear_arith)
                requires
                    m == d * q + r@,
                    m == -n - 1,
            ;
            lemma_fundamental_div_mod_converse(n as int, d as int, -(q as int) - 1, d - r@ - 1);
        }
        -(q as i128) - 1
    }
}

} // verus!
