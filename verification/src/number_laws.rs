//! How numbers are rounded and written.

use vstd::prelude::*;

use crate::single::{leading, narrowed, narrowed_size, nearest, of_integer, whole_size, SIGN};
use crate::text::{decimal, signed_decimal};

verus! {

/// A rounded number is a multiple of the unit, no other multiple lies nearer, and of two
/// that lie as near it is the even one.
pub proof fn rounding_goes_to_the_nearest(n: int, unit: int, k: int)
    requires
        unit > 0,
        n >= 0,
    ensures
        nearest(n, unit) % unit == 0,
        k * unit <= n && nearest(n, unit) <= n ==> k * unit <= nearest(n, unit),
        k * unit >= n && nearest(n, unit) >= n ==> k * unit >= nearest(n, unit),
        -unit <= 2 * (nearest(n, unit) - n) <= unit,
        2 * (nearest(n, unit) - n) == unit || 2 * (n - nearest(n, unit)) == unit ==> nearest(
            n,
            unit,
        ) % (2 * unit) == 0,
{
    let below = n / unit;
    let rest = n % unit;
    vstd::arithmetic::div_mod::lemma_fundamental_div_mod(n, unit);
    assert(0 <= rest < unit) by (nonlinear_arith)
        requires
            unit > 0,
            rest == n % unit,
    ;
    assert(unit * below == below * unit) by (nonlinear_arith);
    assert((below + 1) * unit == below * unit + unit) by (nonlinear_arith);
    let q = if nearest(n, unit) == below * unit && !(2 * rest > unit || (2 * rest == unit && below
        % 2 == 1)) {
        below
    } else {
        below + 1
    };
    assert(nearest(n, unit) == q * unit);
    vstd::arithmetic::div_mod::lemma_mod_multiples_basic(q, unit);
    if k * unit <= n && k * unit > nearest(n, unit) {
        assert(k > below) by (nonlinear_arith)
            requires
                unit > 0,
                k * unit > q * unit,
                q >= below,
        ;
        assert(k * unit >= (below + 1) * unit) by (nonlinear_arith)
            requires
                unit > 0,
                k >= below + 1,
        ;
    }
    if k * unit >= n && k * unit < nearest(n, unit) && nearest(n, unit) >= n {
        assert(k < q) by (nonlinear_arith)
            requires
                unit > 0,
                k * unit < q * unit,
        ;
        assert(k * unit <= (q - 1) * unit) by (nonlinear_arith)
            requires
                unit > 0,
                k <= q - 1,
        ;
        assert((q - 1) * unit == q * unit - unit) by (nonlinear_arith);
    }
    if 2 * (nearest(n, unit) - n) == unit || 2 * (n - nearest(n, unit)) == unit {
        assert(2 * rest == unit);
        assert(q % 2 == 0);
        let half = q / 2;
        assert(q == 2 * half);
        assert(q * unit == half * (2 * unit)) by (nonlinear_arith)
            requires
                q == 2 * half,
        ;
        vstd::arithmetic::div_mod::lemma_mod_multiples_basic(half, 2 * unit);
    }
}

/// The leading one of a number stands for the greatest power of two that is not greater.
pub proof fn leading_one_is_the_greatest(n: int)
    requires
        n >= 1,
    ensures
        1 <= leading(n) <= n < 2 * leading(n),
    decreases n,
{
    if n > 1 {
        leading_one_is_the_greatest(n / 2);
    }
}

/// A number and its opposite are written alike but for the sign.
pub proof fn opposite_numbers_differ_by_their_sign(n: i64, m: nat)
    ensures
        0 < n ==> of_integer(n) == whole_size(n as int) as u64 && of_integer((-n) as i64) == (SIGN
            + whole_size(n as int)) as u64,
        of_integer(0) == 0,
        signed_decimal(m as int) == decimal(m),
        m > 0 ==> signed_decimal(-m) == "-"@ + decimal(m),
{
}

/// A number and its opposite are narrowed alike.
pub proof fn opposite_numbers_are_narrowed_alike(bits: u64)
    requires
        bits < SIGN,
    ensures
        narrowed(bits) == narrowed_size(bits as int) as u64,
        narrowed((bits + SIGN) as u64) == (SIGN + narrowed_size(bits as int)) as u64,
{
}

} // verus!
