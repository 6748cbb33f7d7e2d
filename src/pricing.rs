use crate::error::{CoreError, Field};
use rust_decimal::Decimal;
use vstd::prelude::*;

verus! {

/// Ten to the power `e`.
pub open spec fn pow10(e: nat) -> int
    decreases e,
{
    if e == 0 {
        1
    } else {
        10 * pow10((e - 1) as nat)
    }
}

/// The integer nearest to `n / d` for `n >= 0` and `d > 0`; a tie goes to the even neighbour.
pub open spec fn round_half_even(n: int, d: int) -> int {
    let q = n / d;
    let r = n % d;
    if 2 * r > d {
        q + 1
    } else if 2 * r < d {
        q
    } else if q % 2 == 0 {
        q
    } else {
        q + 1
    }
}

/// `n / d` for `d > 0`, rounded half to even, symmetric about zero.
pub open spec fn round_quotient(n: int, d: int) -> int {
    if n >= 0 {
        round_half_even(n, d)
    } else {
        -round_half_even(-n, d)
    }
}

/// `n / d` rounded to `dp` decimal places, counted in units of `10^-dp`.
pub open spec fn scaled_quotient(n: int, d: int, dp: nat) -> int {
    round_quotient(n * pow10(dp), d)
}

/// Relies on rust_decimal: `Decimal::checked_div` of two integers, which returns a quotient
/// for every non-zero divisor (its one overflow path needs a negative scale, and an integer
/// has scale 0), then `Decimal::round_dp`, which rounds half to even and leaves a value that
/// already has no more than `dp` places unchanged. The result comes back as mantissa and scale.
#[verifier::external_body]
fn decimal_quotient(num: i32, den: i32, dp: u32) -> (r: Option<(i128, u32)>)
    requires
        den > 0,
        dp <= 4,
    ensures
        r is Some,
        r matches Some((m, s)) ==> s <= dp && m * pow10((dp - s) as nat) == scaled_quotient(
            num as int,
            den as int,
            dp as nat,
        ),
{
    match Decimal::from(num).checked_div(Decimal::from(den)) {
        Some(q) => {
            let q = q.round_dp(dp);
            Some((q.mantissa(), q.scale()))
        },
        None => None,
    }
}

/// A rounded quotient is no larger in size than the dividend.
proof fn lemma_round_half_even_bounded(n: int, d: int)
    requires
        n >= 0,
        d >= 1,
    ensures
        0 <= round_half_even(n, d) <= n,
{
    let q = n / d;
    let r = n % d;
    assert(n == q * d + r && 0 <= r < d) by (nonlinear_arith)
        requires
            d >= 1,
            q == n / d,
            r == n % d,
    ;
    assert(0 <= q <= n) by (nonlinear_arith)
        requires
            n == q * d + r,
            0 <= r < d,
            d >= 1,
            n >= 0,
    ;
    if 2 * r >= d {
        assert(q + 1 <= n) by (nonlinear_arith)
            requires
                n == q * d + r,
                0 <= q,
                1 <= r,
                d >= 1,
        ;
    }
}

/// `num / den` rounded half to even to a whole number, computed with exact decimal division.
pub fn rounded_quotient(num: i32, den: i32) -> (r: i64)
    requires
        den > 0,
    ensures
        r == scaled_quotient(num as int, den as int, 0),
{
    proof {
        if num >= 0 {
            lemma_round_half_even_bounded(num as int, den as int);
        } else {
            lemma_round_half_even_bounded(-num, den as int);
        }
        assert(pow10(0) == 1);
        assert(num as int * pow10(0) == num);
    }
    match decimal_quotient(num, den, 0) {
        Some((m, s)) => {
            proof {
                assert(s == 0);
                assert(pow10(0) == 1);
                assert(m * pow10(0) == m);
            }
            m as i64
        },
        None => 0,
    }
}

/// The smallest-unit price of a specification: `raw_price / smallest_unit` rounded half to
/// even to two decimal places. Both prices are counted in hundredths, so the result is the
/// quotient rounded to a whole hundredth. A non-positive `smallest_unit` is refused.
pub fn lowest_price(raw_price: i32, smallest_unit: i32) -> (r: Result<i64, CoreError>)
    ensures
        smallest_unit <= 0 ==> r == Err::<i64, CoreError>(CoreError::ValidationFailed(Field::SmallestUnit)),
        smallest_unit > 0 ==> r == Ok::<i64, CoreError>(
            scaled_quotient(raw_price as int, smallest_unit as int, 0) as i64,
        ),
        smallest_unit > 0 ==> i64::MIN <= scaled_quotient(raw_price as int, smallest_unit as int, 0) <= i64::MAX,
{
    if smallest_unit <= 0 {
        return Err(CoreError::ValidationFailed(Field::SmallestUnit));
    }
    Ok(rounded_quotient(raw_price, smallest_unit))
}

} // verus!
