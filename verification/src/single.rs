//! Numbers of single precision, each held by the bits of the number of double precision
//! that is equal to it.

use vstd::arithmetic::div_mod::{
    lemma_div_is_ordered, lemma_div_multiples_vanish, lemma_fundamental_div_mod,
    lemma_fundamental_div_mod_converse, lemma_mod_multiples_basic,
};
use vstd::arithmetic::mul::lemma_mul_inequality;
use vstd::arithmetic::power2::{
    lemma2_to64, lemma2_to64_rest, lemma_pow2_adds, lemma_pow2_pos, lemma_pow2_strictly_increases,
    lemma_pow2_unfold, pow2,
};
use vstd::prelude::*;

verus! {

/// The bit of the sign.
pub const SIGN: u64 = 0x8000_0000_0000_0000;

/// One more than the digits of a number without its leading one: an exponent counts in
/// these.
pub const DIGITS: u64 = 0x0010_0000_0000_0000;

/// The bits of the number without an end.
pub const ENDLESS: u64 = 0x7FF0_0000_0000_0000;

/// The bits from which on a number is too great for single precision.
pub const TOO_GREAT: u64 = 0x47F0_0000_0000_0000;

/// The bits of one.
pub const ONE: u64 = 0x3FF0_0000_0000_0000;

/// The exponent from which on single precision keeps all its digits.
pub const FULL_FROM: u64 = 897;

/// The exponent below which nothing is left in single precision.
pub const LEFT_FROM: u64 = 873;

/// How many digits of double precision make one of single precision.
pub const DROPPED: u64 = 0x2000_0000;

/// The multiple of `unit` that is nearest to `n`; the even one where two are as near.
pub open spec fn nearest(n: int, unit: int) -> int {
    let below = n / unit;
    let rest = n % unit;
    if 2 * rest > unit || (2 * rest == unit && below % 2 == 1) {
        (below + 1) * unit
    } else {
        below * unit
    }
}

/// The last digit that single precision keeps of a number with this exponent.
pub open spec fn unit_at(exponent: int) -> int
    decreases FULL_FROM - exponent,
{
    if exponent >= FULL_FROM {
        DROPPED as int
    } else {
        2 * unit_at(exponent + 1)
    }
}

/// The bits of a number without its sign, in single precision.
pub open spec fn narrowed_size(size: int) -> int {
    if size >= ENDLESS {
        size
    } else {
        let exponent = size / DIGITS as int;
        if exponent < LEFT_FROM {
            0
        } else {
            let digits = nearest(DIGITS + size % DIGITS as int, unit_at(exponent));
            if digits == 0 {
                0
            } else if exponent * DIGITS + digits - DIGITS >= TOO_GREAT {
                ENDLESS as int
            } else {
                exponent * DIGITS + digits - DIGITS
            }
        }
    }
}

/// The bits of a number in single precision.
pub open spec fn narrowed(bits: u64) -> u64 {
    if bits >= SIGN {
        (SIGN + narrowed_size(bits - SIGN)) as u64
    } else {
        narrowed_size(bits as int) as u64
    }
}

/// The greatest power of two that is not above a positive number.
pub open spec fn leading(n: int) -> int
    decreases n,
{
    if n <= 1 {
        1
    } else {
        2 * leading(n / 2)
    }
}

/// Which power of two that is.
pub open spec fn places(n: int) -> int
    decreases n,
{
    if n <= 1 {
        0
    } else {
        1 + places(n / 2)
    }
}

/// The last digit that single precision keeps of a whole number.
pub open spec fn whole_unit(n: int) -> int {
    if leading(n) <= 0x80_0000 {
        1
    } else {
        leading(n) / 0x80_0000
    }
}

/// The bits of a positive whole number in single precision.
pub open spec fn whole_size(n: int) -> int {
    (1023 + places(n)) * DIGITS + (nearest(n, whole_unit(n)) - leading(n)) * DIGITS / leading(n)
}

/// The bits of a whole number in single precision.
pub open spec fn of_integer(n: i64) -> u64 {
    if n == 0 {
        0
    } else if n > 0 {
        whole_size(n as int) as u64
    } else {
        (SIGN + whole_size(-(n as int))) as u64
    }
}

/// What is nearest is a multiple, lies no further than the next one, and is the number
/// itself where that is a multiple.
proof fn lemma_nearest(n: int, unit: int)
    requires
        0 <= n,
        0 < unit,
    ensures
        nearest(n, unit) % unit == 0,
        n - unit < nearest(n, unit) <= n + unit,
        0 <= nearest(n, unit),
        n % unit == 0 ==> nearest(n, unit) == n,
{
    let below = n / unit;
    lemma_fundamental_div_mod(n, unit);
    assert(unit * below == below * unit) by (nonlinear_arith);
    assert((below + 1) * unit == below * unit + unit) by (nonlinear_arith);
    assert(0 <= below && 0 <= below * unit) by (nonlinear_arith)
        requires
            0 <= n,
            0 < unit,
            below == n / unit,
    ;
    lemma_mod_multiples_basic(below, unit);
    lemma_mod_multiples_basic(below + 1, unit);
}

/// What is nearest does not pass a multiple.
proof fn lemma_nearest_between(n: int, unit: int, low: int, high: int)
    requires
        0 < unit,
        0 <= low * unit <= n <= high * unit,
    ensures
        low * unit <= nearest(n, unit) <= high * unit,
{
    let below = n / unit;
    lemma_fundamental_div_mod(n, unit);
    assert(unit * below == below * unit) by (nonlinear_arith);
    assert((below + 1) * unit == below * unit + unit) by (nonlinear_arith);
    lemma_div_is_ordered(low * unit, n, unit);
    lemma_div_multiples_vanish(low, unit);
    assert(unit * low == low * unit) by (nonlinear_arith);
    assert(low <= below);
    lemma_mul_inequality(low, below, unit);
    if n % unit > 0 {
        assert(below + 1 <= high) by (nonlinear_arith)
            requires
                below * unit < high * unit,
                0 < unit,
        ;
        lemma_mul_inequality(below + 1, high, unit);
    }
}

/// The last digits: how many of them make twice the digits of a number.
spec fn units(exponent: int) -> int
    decreases exponent,
{
    if exponent <= LEFT_FROM {
        1
    } else {
        2 * units(exponent - 1)
    }
}

proof fn lemma_units(exponent: int)
    requires
        LEFT_FROM <= exponent <= FULL_FROM,
    ensures
        units(exponent) * unit_at(exponent) == 2 * DIGITS,
        0 < unit_at(exponent),
        0 < units(exponent),
    decreases FULL_FROM - exponent,
{
    if exponent == FULL_FROM {
        reveal_with_fuel(units, 25);
        assert(units(897) == 0x100_0000);
        assert(0x100_0000 * 0x2000_0000 == 2 * 0x0010_0000_0000_0000) by (nonlinear_arith);
    } else {
        lemma_units(exponent + 1);
        let a = units(exponent);
        let b = unit_at(exponent + 1);
        assert(units(exponent + 1) == 2 * a);
        assert(a * (2 * b) == (2 * a) * b) by (nonlinear_arith);
    }
}

/// The digits of a number are a multiple of the last one, and so are twice as many.
proof fn lemma_digit_units(exponent: int) -> (count: int)
    requires
        LEFT_FROM < exponent,
    ensures
        0 < count,
        0 < unit_at(exponent) <= DIGITS,
        count * unit_at(exponent) == DIGITS,
        (2 * count) * unit_at(exponent) == 2 * DIGITS,
{
    let unit = unit_at(exponent);
    if exponent >= FULL_FROM {
        assert(0x80_0000 * 0x2000_0000 == 0x0010_0000_0000_0000) by (nonlinear_arith);
        assert(0x100_0000 * 0x2000_0000 == 2 * 0x0010_0000_0000_0000) by (nonlinear_arith);
        0x80_0000
    } else {
        lemma_units(exponent);
        let count = units(exponent - 1);
        if exponent - 1 > LEFT_FROM {
            lemma_units(exponent - 1);
        }
        assert(units(exponent) == 2 * count);
        assert((2 * count) * unit == 2 * (count * unit)) by (nonlinear_arith);
        assert(unit <= count * unit) by (nonlinear_arith)
            requires
                0 < unit,
                0 < count,
        ;
        count
    }
}

/// The digits that are kept: none, or as many as a number has, up to twice as many.
proof fn lemma_kept_digits(size: int)
    requires
        0 <= size < ENDLESS,
        size / DIGITS as int >= LEFT_FROM,
    ensures
        ({
            let exponent = size / DIGITS as int;
            let digits = nearest(DIGITS + size % DIGITS as int, unit_at(exponent));
            &&& 0 < unit_at(exponent) <= 2 * DIGITS
            &&& digits == 0 || DIGITS <= digits <= 2 * DIGITS
            &&& digits == 0 || exponent > LEFT_FROM || digits == 2 * DIGITS
            &&& digits % unit_at(exponent) == 0
        }),
{
    let exponent = size / DIGITS as int;
    let full = DIGITS + size % DIGITS as int;
    let unit = unit_at(exponent);
    if exponent > LEFT_FROM {
        let count = lemma_digit_units(exponent);
        lemma_nearest_between(full, unit, count, 2 * count);
        lemma_nearest(full, unit);
    } else {
        lemma_units(exponent);
        assert(units(exponent) == 1);
        assert(unit == 2 * DIGITS);
        lemma_nearest(full, unit);
        assert(0 * unit == 0 && 1 * unit == unit);
        lemma_nearest_between(full, unit, 0, 1);
        assert(nearest(full, unit) == 0 || nearest(full, unit) == unit) by {
            let below = full / unit;
            lemma_fundamental_div_mod(full, unit);
            assert(below == 0) by (nonlinear_arith)
                requires
                    0 <= full < unit,
                    below == full / unit,
            ;
            assert((0 + 1) * unit == unit);
        }
    }
}

/// A number that was taken in single precision stays the same.
pub proof fn narrowing_twice_changes_nothing(bits: u64)
    ensures
        narrowed(narrowed(bits)) == narrowed(bits),
{
    let size = if bits >= SIGN {
        bits - SIGN
    } else {
        bits as int
    };
    lemma_size_in_range(size);
    lemma_size_twice(size);
}

/// A number in single precision needs no more bits.
proof fn lemma_size_in_range(size: int)
    requires
        0 <= size < SIGN,
    ensures
        0 <= narrowed_size(size) < SIGN,
        size < ENDLESS ==> narrowed_size(size) <= ENDLESS,
{
    if size < ENDLESS && size / DIGITS as int >= LEFT_FROM {
        lemma_kept_digits(size);
    }
}

proof fn lemma_size_twice(size: int)
    requires
        0 <= size < SIGN,
    ensures
        narrowed_size(narrowed_size(size)) == narrowed_size(size),
{
    let exponent = size / DIGITS as int;
    if size < ENDLESS && exponent >= LEFT_FROM {
        let unit = unit_at(exponent);
        let digits = nearest(DIGITS + size % DIGITS as int, unit);
        let kept = exponent * DIGITS + digits - DIGITS;
        lemma_kept_digits(size);
        if digits != 0 && kept < TOO_GREAT {
            if digits < 2 * DIGITS {
                lemma_fundamental_div_mod_converse(
                    kept,
                    DIGITS as int,
                    exponent,
                    digits - DIGITS,
                );
                lemma_nearest(digits, unit);
            } else {
                assert(kept == (exponent + 1) * DIGITS);
                lemma_fundamental_div_mod_converse(kept, DIGITS as int, exponent + 1, 0);
                let count = lemma_digit_units(exponent + 1);
                lemma_mod_multiples_basic(count, unit_at(exponent + 1));
                lemma_nearest(DIGITS as int, unit_at(exponent + 1));
            }
        }
    }
}

/// The last digit that single precision keeps of a number with this exponent.
fn unit_for(exponent: u64) -> (r: u64)
    requires
        LEFT_FROM <= exponent,
    ensures
        r == unit_at(exponent as int),
        0 < r <= 2 * DIGITS,
    decreases FULL_FROM - exponent,
{
    if exponent >= FULL_FROM {
        DROPPED
    } else {
        let next = unit_for(exponent + 1);
        proof {
            let count = lemma_digit_units(exponent + 1);
        }
        2 * next
    }
}

/// The multiple of `unit` that is nearest to `n`.
fn nearest_multiple(n: u64, unit: u64) -> (r: u64)
    requires
        0 < unit <= 2 * DIGITS,
        n <= SIGN,
    ensures
        r == nearest(n as int, unit as int),
{
    proof {
        lemma_nearest(n as int, unit as int);
        lemma_fundamental_div_mod(n as int, unit as int);
    }
    let below = n / unit;
    let rest = n % unit;
    proof {
        assert(unit * below == below * unit) by (nonlinear_arith);
        assert((below + 1) * unit == below * unit + unit) by (nonlinear_arith);
    }
    let low = n - rest;
    if 2 * rest > unit || (2 * rest == unit && below % 2 == 1) {
        low + unit
    } else {
        low
    }
}

/// The bits of a number without its sign, in single precision.
fn narrow_size(size: u64) -> (r: u64)
    requires
        size < SIGN,
    ensures
        r == narrowed_size(size as int),
        r < SIGN,
{
    proof {
        lemma_size_in_range(size as int);
    }
    if size >= ENDLESS {
        return size;
    }
    let exponent = size / DIGITS;
    if exponent < LEFT_FROM {
        return 0;
    }
    proof {
        lemma_kept_digits(size as int);
    }
    let digits = nearest_multiple(DIGITS + size % DIGITS, unit_for(exponent));
    if digits == 0 {
        return 0;
    }
    assert(exponent * DIGITS <= size);
    let kept = exponent * DIGITS + (digits - DIGITS);
    if kept >= TOO_GREAT {
        ENDLESS
    } else {
        kept
    }
}

/// A number in single precision.
pub fn narrow(bits: u64) -> (r: u64)
    ensures
        r == narrowed(bits),
{
    if bits >= SIGN {
        SIGN + narrow_size(bits - SIGN)
    } else {
        narrow_size(bits)
    }
}

/// The greatest power of two that is not above a positive number, and which one it is.
fn leading_power(n: u64) -> (r: (u64, u64))
    requires
        0 < n,
    ensures
        r.0 == leading(n as int),
        r.1 == places(n as int),
        0 < r.0 <= n,
        n < 2 * r.0,
        r.1 < r.0,
        n <= SIGN ==> r.1 <= 63,
    decreases n,
{
    proof {
        lemma_leading(n as int);
        if n <= SIGN {
            lemma_places(n as int);
        }
    }
    if n <= 1 {
        (1, 0)
    } else {
        let (power, place) = leading_power(n / 2);
        (2 * power, place + 1)
    }
}

/// The leading power of two lies between a number and half of it.
proof fn lemma_leading(n: int)
    requires
        0 < n,
    ensures
        0 < leading(n) <= n < 2 * leading(n),
        0 <= places(n) < leading(n),
        leading(n) == pow2(places(n) as nat),
    decreases n,
{
    if n > 1 {
        lemma_leading(n / 2);
        lemma_pow2_unfold(places(n) as nat);
    } else {
        lemma2_to64();
    }
}

/// A number that fits in a word has no more places than that.
proof fn lemma_places(n: int)
    requires
        0 < n <= SIGN,
    ensures
        places(n) <= 63,
        places(n) == 63 ==> n == SIGN,
        places(n) < 63 ==> 2 * leading(n) <= SIGN,
{
    lemma_leading(n);
    lemma2_to64_rest();
    let k = places(n) as nat;
    assert(pow2(63) == SIGN);
    if k > 63 {
        lemma_pow2_strictly_increases(63, k);
    }
    if k < 62 {
        lemma_pow2_unfold(k + 1);
        lemma_pow2_strictly_increases(k + 1, 63);
    } else if k == 62 {
        lemma_pow2_unfold(63);
    }
}

/// The bits of a positive whole number in single precision.
fn whole(n: u64) -> (r: u64)
    requires
        0 < n <= SIGN,
    ensures
        r == whole_size(n as int),
        r < SIGN,
{
    let (power, place) = leading_power(n);
    let unit: u64 = if power <= 0x80_0000 {
        1
    } else {
        power / 0x80_0000
    };
    proof {
        lemma_whole(n as int);
    }
    let rounded = nearest_multiple(n, unit);
    let ghost over = nearest(n as int, whole_unit(n as int)) - leading(n as int);
    assert(over * DIGITS <= power * DIGITS) by (nonlinear_arith)
        requires
            0 <= over <= power,
    ;
    assert(0 <= over * DIGITS) by (nonlinear_arith)
        requires
            0 <= over,
    ;
    assert(power * DIGITS <= 0x8000_0000_0000_0000 * 0x0010_0000_0000_0000) by (nonlinear_arith)
        requires
            power <= 0x8000_0000_0000_0000,
    ;
    let digits = (rounded - power) as u128 * DIGITS as u128 / power as u128;
    assert(digits <= DIGITS) by {
        lemma_div_is_ordered(over * DIGITS, power * DIGITS, power as int);
        lemma_div_multiples_vanish(DIGITS as int, power as int);
    }
    (1023 + place) * DIGITS + digits as u64
}

/// A whole number is rounded to no less than its leading power of two and to no more than
/// the next.
proof fn lemma_whole(n: int)
    requires
        0 < n <= SIGN,
    ensures
        0 < whole_unit(n) <= leading(n),
        whole_unit(n) <= 2 * DIGITS,
        leading(n) <= nearest(n, whole_unit(n)) <= 2 * leading(n),
        nearest(n, whole_unit(n)) <= SIGN,
{
    lemma_leading(n);
    lemma_places(n);
    lemma2_to64();
    let power = leading(n);
    let unit = whole_unit(n);
    let count: int = if power <= 0x80_0000 {
        power
    } else {
        0x80_0000
    };
    assert(count * unit == power && 0 < unit <= power) by {
        if power > 0x80_0000 {
            let k = places(n) as nat;
            if k <= 23 {
                if k < 23 {
                    lemma_pow2_strictly_increases(k, 23);
                }
            }
            let more = (k - 23) as nat;
            lemma_pow2_adds(23, more);
            lemma_pow2_pos(more);
            lemma_div_multiples_vanish(pow2(more) as int, 0x80_0000);
            assert(0x80_0000 * pow2(more) == power);
            assert(unit == pow2(more));
        } else {
            assert(power * 1 == power);
        }
    }
    assert((2 * count) * unit == 2 * (count * unit)) by (nonlinear_arith);
    lemma_nearest_between(n, unit, count, 2 * count);
    if places(n) == 63 {
        lemma2_to64_rest();
        assert(power == SIGN);
        lemma_mod_multiples_basic(count, unit);
        lemma_nearest(n, unit);
    }
}

/// A whole number in single precision.
pub fn integer_bits(n: i64) -> (r: u64)
    ensures
        r == of_integer(n),
{
    if n == 0 {
        0
    } else if n > 0 {
        whole(n as u64)
    } else if n == i64::MIN {
        SIGN + whole(SIGN)
    } else {
        SIGN + whole((-n) as u64)
    }
}

/// A whole number that was taken in single precision stays the same.
pub proof fn narrowing_a_whole_number_changes_nothing(n: i64)
    ensures
        narrowed(of_integer(n)) == of_integer(n),
{
    if n > 0 {
        lemma_whole_size(n as int);
    } else if n < 0 {
        lemma_whole_size(-(n as int));
    }
}

/// The digits behind the leading one are a multiple of the last one that is kept.
proof fn lemma_whole_digits(n: int) -> (count: int)
    requires
        0 < n <= SIGN,
    ensures
        0 <= count * DROPPED <= DIGITS,
        (nearest(n, whole_unit(n)) - leading(n)) * DIGITS / leading(n) == count * DROPPED,
{
    lemma_leading(n);
    lemma_places(n);
    lemma_whole(n);
    lemma2_to64();
    let k = places(n) as nat;
    let power = leading(n);
    let unit = whole_unit(n);
    let over = nearest(n, unit) - power;
    lemma_nearest(n, unit);
    let count: int = if power <= 0x80_0000 {
        let more = pow2((23 - k) as nat) as int;
        if k > 23 {
            lemma_pow2_strictly_increases(23, k);
        }
        lemma_pow2_adds((23 - k) as nat, k);
        assert(more * power == 0x80_0000);
        assert((over * more) * DROPPED * power == over * (more * power) * DROPPED)
            by (nonlinear_arith);
        assert(over * 0x80_0000 * DROPPED == over * DIGITS) by (nonlinear_arith);
        over * more
    } else {
        if k < 23 {
            lemma_pow2_strictly_increases(k, 23);
        }
        let more = (k - 23) as nat;
        lemma_pow2_adds(23, more);
        lemma_pow2_pos(more);
        lemma_div_multiples_vanish(pow2(more) as int, 0x80_0000);
        assert(unit == pow2(more));
        let rounded = nearest(n, unit) / unit;
        lemma_fundamental_div_mod(nearest(n, unit), unit);
        assert(over == (rounded - 0x80_0000) * unit) by (nonlinear_arith)
            requires
                over == nearest(n, unit) - power,
                nearest(n, unit) == unit * rounded,
                power == 0x80_0000 * unit,
        ;
        let times = rounded - 0x80_0000;
        assert(times * DROPPED * (0x80_0000 * unit) == (times * unit) * (DROPPED * 0x80_0000))
            by (nonlinear_arith);
        times
    };
    assert(count * DROPPED * power == over * DIGITS);
    lemma_div_multiples_vanish(count * DROPPED, power);
    assert(power * (count * DROPPED) == count * DROPPED * power) by (nonlinear_arith);
    assert(0 <= count * DROPPED <= DIGITS) by (nonlinear_arith)
        requires
            count * DROPPED * power == over * DIGITS,
            0 <= over <= power,
            0 < power,
    ;
    count
}

/// The bits of a whole number are those of a number of single precision.
proof fn lemma_whole_size(n: int)
    requires
        0 < n <= SIGN,
    ensures
        0 <= whole_size(n) < SIGN,
        narrowed_size(whole_size(n)) == whole_size(n),
{
    let count = lemma_whole_digits(n);
    lemma_leading(n);
    lemma_places(n);
    let exponent = 1023 + places(n);
    let size = whole_size(n);
    let digits = count * DROPPED;
    assert(size == exponent * DIGITS + digits);
    assert(0x80_0000 * 0x2000_0000 == 0x0010_0000_0000_0000) by (nonlinear_arith);
    if digits < DIGITS {
        lemma_fundamental_div_mod_converse(size, DIGITS as int, exponent, digits);
        assert((0x80_0000 + count) * DROPPED == DIGITS + digits) by (nonlinear_arith)
            requires
                digits == count * DROPPED,
        ;
        lemma_mod_multiples_basic(0x80_0000 + count, DROPPED as int);
        lemma_nearest(DIGITS + digits, DROPPED as int);
    } else {
        assert(size == (exponent + 1) * DIGITS);
        lemma_fundamental_div_mod_converse(size, DIGITS as int, exponent + 1, 0);
        lemma_mod_multiples_basic(0x80_0000, DROPPED as int);
        lemma_nearest(DIGITS as int, DROPPED as int);
    }
}

} // verus!
