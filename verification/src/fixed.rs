//! Fixed-point arithmetic: amounts and rates are whole numbers of millionths,
//! results are whole numbers of thousandths, and every division rounds to the
//! nearest integer.

use vstd::arithmetic::div_mod::{lemma_fundamental_div_mod, lemma_fundamental_div_mod_converse};
use vstd::prelude::*;

verus! {

/// Stored units per whole: an amount or a rate `x` is held as `x * SCALE`.
pub const SCALE: u64 = 1_000_000;

/// Stored units of an amount per unit of a printed result (thousandths).
pub const MILLI_STEP: u64 = 1_000;

/// The integer nearest to `n / d`, a tie going to the larger neighbour.
pub open spec fn round_div(n: int, d: int) -> int {
    (2 * n + d) / (2 * d)
}

/// `round_div(n, d)` is within one half of the exact quotient `n / d`.
pub proof fn lemma_round_div_nearest(n: int, d: int)
    requires
        d > 0,
    ensures
        -d <= 2 * n - 2 * d * round_div(n, d) < d,
{
    let r = round_div(n, d);
    lemma_fundamental_div_mod(2 * n + d, 2 * d);
    assert(2 * n + d == (2 * d) * r + (2 * n + d) % (2 * d));
    assert((2 * d) * r == 2 * d * r) by (nonlinear_arith);
}

/// Only one integer lies within one half of `n / d` on the side that
/// `round_div` picks.
pub proof fn lemma_round_div_unique(n: int, d: int, r: int)
    requires
        d > 0,
        -d <= 2 * n - 2 * d * r < d,
    ensures
        r == round_div(n, d),
{
    let rem = 2 * n + d - 2 * d * r;
    assert(2 * n + d == r * (2 * d) + rem) by (nonlinear_arith)
        requires
            rem == 2 * n + d - 2 * d * r,
    ;
    lemma_fundamental_div_mod_converse(2 * n + d, 2 * d, r, rem);
}

/// One divisor more in the numerator is one more in the quotient.
pub proof fn lemma_round_div_step(n: int, d: int)
    requires
        d > 0,
    ensures
        round_div(n + d, d) == round_div(n, d) + 1,
{
    let r = round_div(n, d);
    lemma_round_div_nearest(n, d);
    assert(2 * (n + d) - 2 * d * (r + 1) == 2 * n - 2 * d * r) by (nonlinear_arith);
    lemma_round_div_unique(n + d, d, r + 1);
}

/// Divides and rounds to the nearest integer.
pub fn div_round(n: i128, d: i128) -> (r: i128)
    requires
        d > 0,
    ensures
        r == round_div(n as int, d as int),
{
    if n == i128::MIN {
        proof {
            lemma_round_div_step(n as int, d as int);
            lemma_round_div_nearest(n + d, d as int);
            assert(round_div(n + d, d as int) > i128::MIN) by (nonlinear_arith)
                requires
                    -d <= 2 * (n + d) - 2 * d * round_div(n + d, d as int) < d,
                    n == i128::MIN,
                    d > 0,
            ;
        }
        div_round_above(n + d, d) - 1
    } else {
        div_round_above(n, d)
    }
}

fn div_round_above(n: i128, d: i128) -> (r: i128)
    requires
        d > 0,
        n > i128::MIN,
    ensures
        r == round_div(n as int, d as int),
{
    if n >= 0 {
        let q: i128 = n / d;
        let rem: i128 = n % d;
        proof {
            lemma_fundamental_div_mod(n as int, d as int);
            assert(q * d <= n) by (nonlinear_arith)
                requires
                    n == d * q + rem,
                    rem >= 0,
            ;
        }
        if rem >= d - rem {
            proof {
                assert(q < n) by (nonlinear_arith)
                    requires
                        n == d * q + rem,
                        rem >= d - rem,
                        rem < d,
                        q >= 0,
                        d > 0,
                ;
                assert(2 * n - 2 * d * (q + 1) == 2 * rem - 2 * d) by (nonlinear_arith)
                    requires
                        n == d * q + rem,
                ;
                lemma_round_div_unique(n as int, d as int, q + 1);
            }
            q + 1
        } else {
            proof {
                assert(2 * n - 2 * d * q == 2 * rem) by (nonlinear_arith)
                    requires
                        n == d * q + rem,
                ;
                lemma_round_div_unique(n as int, d as int, q as int);
            }
            q
        }
    } else {
        let m: i128 = -n;
        let q: i128 = m / d;
        let rem: i128 = m % d;
        proof {
            lemma_fundamental_div_mod(m as int, d as int);
        }
        if rem > d - rem {
            proof {
                assert(2 * n - 2 * d * (-q - 1) == 2 * d - 2 * rem) by (nonlinear_arith)
                    requires
                        -n == d * q + rem,
                ;
                lemma_round_div_unique(n as int, d as int, -q - 1);
            }
            -q - 1
        } else {
            proof {
                assert(2 * n - 2 * d * (-q) == -2 * rem) by (nonlinear_arith)
                    requires
                        -n == d * q + rem,
                ;
                lemma_round_div_unique(n as int, d as int, -(q as int));
            }
            -q
        }
    }
}

} // verus!
