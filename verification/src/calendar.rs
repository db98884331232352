//! Civil (proleptic Gregorian, UTC) date-time to Unix time, with the proof that
//! the day number it computes counts calendar days from 1970-01-01.
use vstd::prelude::*;

verus! {

/// Rust's integer `/` for a positive divisor (rounds toward zero).
pub open spec fn trunc_div(a: int, b: int) -> int {
    if a >= 0 {
        a / b
    } else {
        -((-a) / b)
    }
}

/// Rust's integer `%` for a positive divisor (sign of the dividend).
pub open spec fn trunc_rem(a: int, b: int) -> int {
    a - b * trunc_div(a, b)
}

/// Days since 1970-01-01 of the civil date `y-m-d`, by the days-from-civil
/// formula (March-based years, 400-year eras), with Rust's integer division.
pub open spec fn days_from_civil(y: int, m: int, d: int) -> int {
    let y = if m <= 2 {
        y - 1
    } else {
        y
    };
    let era = trunc_div(
        if y >= 0 {
            y
        } else {
            y - 399
        },
        400,
    );
    let yoe = y - era * 400;
    let mp = trunc_rem(m + 9, 12);
    let doy = trunc_div(153 * mp + 2, 5) + d - 1;
    let doe = yoe * 365 + trunc_div(yoe, 4) - trunc_div(yoe, 100) + doy;
    era * 146097 + doe - 719468
}

/// Unix seconds of the civil date-time.
pub open spec fn unix_seconds(y: int, m: int, d: int, hh: int, mm: int, ss: int) -> int {
    days_from_civil(y, m, d) * 86400 + hh * 3600 + mm * 60 + ss
}

/// Gregorian leap year.
pub open spec fn is_leap_year(y: int) -> bool {
    (y % 4 == 0 && y % 100 != 0) || y % 400 == 0
}

/// Number of days of month `m` (1..=12) of year `y`.
pub open spec fn days_in_month(y: int, m: int) -> int {
    if m == 2 {
        if is_leap_year(y) {
            29
        } else {
            28
        }
    } else if m == 4 || m == 6 || m == 9 || m == 11 {
        30
    } else {
        31
    }
}

/// A real calendar date.
pub open spec fn is_valid_date(y: int, m: int, d: int) -> bool {
    1 <= m <= 12 && 1 <= d <= days_in_month(y, m)
}

/// The calendar day after `y-m-d`.
pub open spec fn next_day(y: int, m: int, d: int) -> (int, int, int) {
    if d < days_in_month(y, m) {
        (y, m, d + 1)
    } else if m < 12 {
        (y, m + 1, 1)
    } else {
        (y + 1, 1, 1)
    }
}

pub open spec fn fits_i64(x: int) -> bool {
    i64::MIN <= x <= i64::MAX
}

/// Every step of the computation fits in an `i64`, taken in the order the
/// days-from-civil formula evaluates them (the inputs on which it does not
/// overflow).
pub open spec fn civil_fits(y: int, m: int, d: int, hh: int, mm: int, ss: int) -> bool {
    let y1 = if m <= 2 {
        y - 1
    } else {
        y
    };
    let a = if y1 >= 0 {
        y1
    } else {
        y1 - 399
    };
    let era = trunc_div(a, 400);
    let yoe = y1 - era * 400;
    let mp = trunc_rem(m + 9, 12);
    let q = trunc_div(153 * mp + 2, 5);
    let doy = q + d - 1;
    let c = yoe * 365 + trunc_div(yoe, 4) - trunc_div(yoe, 100);
    let doe = c + doy;
    let e = era * 146097;
    let days = e + doe - 719468;
    &&& fits_i64(y1)
    &&& fits_i64(a)
    &&& fits_i64(m + 9)
    &&& fits_i64(q + d)
    &&& fits_i64(doy)
    &&& fits_i64(doe)
    &&& fits_i64(e)
    &&& fits_i64(e + doe)
    &&& fits_i64(days)
    &&& fits_i64(days * 86400)
    &&& fits_i64(hh * 3600)
    &&& fits_i64(days * 86400 + hh * 3600)
    &&& fits_i64(mm * 60)
    &&& fits_i64(days * 86400 + hh * 3600 + mm * 60)
    &&& fits_i64(days * 86400 + hh * 3600 + mm * 60 + ss)
}

/// Rust's `a / b` for a positive `b`, on wide integers.
fn tdiv(a: i128, b: i128) -> (q: i128)
    requires
        b > 0,
        a > i128::MIN,
    ensures
        q == trunc_div(a as int, b as int),
{
    if a >= 0 {
        a / b
    } else {
        -((-a) / b)
    }
}

proof fn lemma_div_shrinks(a: int, b: int)
    requires
        b > 0,
    ensures
        a >= 0 ==> 0 <= trunc_div(a, b) <= a,
        a < 0 ==> a <= trunc_div(a, b) <= 0,
{
    if a >= 0 {
        vstd::arithmetic::div_mod::lemma_div_is_ordered_by_denominator(a, 1, b);
        vstd::arithmetic::div_mod::lemma_div_pos_is_pos(a, b);
    } else {
        vstd::arithmetic::div_mod::lemma_div_is_ordered_by_denominator(-a, 1, b);
        vstd::arithmetic::div_mod::lemma_div_pos_is_pos(-a, b);
    }
}

/// Convert a civil UTC date-time to a Unix timestamp (Howard Hinnant's
/// days-from-civil algorithm). Shared by image EXIF and video `creation_time`
/// parsing.
pub fn civil_to_unix(y: i64, m: i64, d: i64, hh: i64, mm: i64, ss: i64) -> (t: i64)
    requires
        civil_fits(y as int, m as int, d as int, hh as int, mm as int, ss as int),
    ensures
        t == unix_seconds(y as int, m as int, d as int, hh as int, mm as int, ss as int),
{
    let (y, m, d, hh, mm, ss) = (y as i128, m as i128, d as i128, hh as i128, mm as i128, ss as i128);
    let y1 = if m <= 2 {
        y - 1
    } else {
        y
    };
    let a = if y1 >= 0 {
        y1
    } else {
        y1 - 399
    };
    let era = tdiv(a, 400);
    proof {
        lemma_div_shrinks(a as int, 400);
        lemma_era(y1 as int);
    }
    let yoe = y1 - era * 400;
    let m9 = m + 9;
    let mq = tdiv(m9, 12);
    proof {
        lemma_div_shrinks(m9 as int, 12);
    }
    let mp = m9 - 12 * mq;
    proof {
        vstd::arithmetic::div_mod::lemma_fundamental_div_mod(if m9 >= 0 { m9 as int } else { -m9 as int }, 12);
    }
    assert(-12 < mp < 12);
    let q = tdiv(153 * mp + 2, 5);
    proof {
        lemma_div_shrinks(153 * mp + 2, 5);
    }
    let doy = q + d - 1;
    let c = yoe * 365 + tdiv(yoe, 4) - tdiv(yoe, 100);
    proof {
        lemma_div_shrinks(yoe as int, 4);
        lemma_div_shrinks(yoe as int, 100);
    }
    let doe = c + doy;
    let days = era * 146097 + doe - 719468;
    let t = days * 86400 + hh * 3600 + mm * 60 + ss;
    t as i64
}

/// Small inputs (each field within four digits) never overflow.
pub proof fn lemma_small_civil_fits(y: int, m: int, d: int, hh: int, mm: int, ss: int)
    requires
        -10000 < y < 10000,
        -10000 < m < 10000,
        -10000 < d < 10000,
        -10000 < hh < 10000,
        -10000 < mm < 10000,
        -10000 < ss < 10000,
    ensures
        civil_fits(y, m, d, hh, mm, ss),
{
    let y1 = if m <= 2 {
        y - 1
    } else {
        y
    };
    let a = if y1 >= 0 {
        y1
    } else {
        y1 - 399
    };
    lemma_div_shrinks(a, 400);
    lemma_era(y1);
    let m9 = m + 9;
    lemma_div_shrinks(m9, 12);
    vstd::arithmetic::div_mod::lemma_fundamental_div_mod(if m9 >= 0 { m9 } else { -m9 }, 12);
    let mp = trunc_rem(m9, 12);
    assert(-12 < mp < 12);
    lemma_div_shrinks(153 * mp + 2, 5);
    let yoe = y1 - trunc_div(a, 400) * 400;
    lemma_div_shrinks(yoe, 4);
    lemma_div_shrinks(yoe, 100);
    assert(-30 <= y1 / 400 <= 30) by {
        vstd::arithmetic::div_mod::lemma_fundamental_div_mod(y1, 400);
    }
}

/// The era and year-of-era that `days_from_civil` uses are `y / 400` and
/// `y % 400` (floor division).
proof fn lemma_era(y: int)
    ensures
        trunc_div(
            if y >= 0 {
                y
            } else {
                y - 399
            },
            400,
        ) == y / 400,
        y - (y / 400) * 400 == y % 400,
        0 <= y % 400 < 400,
{
    vstd::arithmetic::div_mod::lemma_fundamental_div_mod(y, 400);
    if y < 0 {
        let q = y / 400;
        let r = y % 400;
        vstd::arithmetic::div_mod::lemma_fundamental_div_mod_converse(399 - y, 400, -q, 399 - r);
    }
}

/// Day number of March 1st of March-based year `y` (that is, `days_from_civil(y, 3, 1)`).
spec fn march_first(y: int) -> int {
    let era = y / 400;
    let yoe = y % 400;
    era * 146097 + yoe * 365 + yoe / 4 - yoe / 100 - 719468
}

proof fn lemma_days_from_civil_march(y: int, m: int, d: int)
    requires
        1 <= m <= 12,
    ensures
        days_from_civil(y, m, d) == march_first(if m <= 2 {
            y - 1
        } else {
            y
        }) + (if m >= 3 {
            (153 * (m - 3) + 2) / 5
        } else {
            (153 * (m + 9) + 2) / 5
        }) + d - 1,
{
    let y1 = if m <= 2 {
        y - 1
    } else {
        y
    };
    lemma_era(y1);
}

proof fn lemma_div_step(r: int, k: int)
    requires
        1 <= r,
        0 < k,
    ensures
        r / k - (r - 1) / k == (if r % k == 0 {
            1int
        } else {
            0int
        }),
{
    let q1 = (r - 1) / k;
    let r1 = (r - 1) % k;
    vstd::arithmetic::div_mod::lemma_fundamental_div_mod(r - 1, k);
    assert(r - 1 == q1 * k + r1) by (nonlinear_arith)
        requires
            r - 1 == k * q1 + r1,
    ;
    if r1 == k - 1 {
        assert(r == (q1 + 1) * k + 0) by (nonlinear_arith)
            requires
                r - 1 == q1 * k + r1,
                r1 == k - 1,
        ;
        vstd::arithmetic::div_mod::lemma_fundamental_div_mod_converse(r, k, q1 + 1, 0);
    } else {
        vstd::arithmetic::div_mod::lemma_fundamental_div_mod_converse(r, k, q1, r1 + 1);
    }
}

/// A March-based year lasts 365 days, plus one when the February that ends it
/// is a leap February.
proof fn lemma_march_year_length(y: int)
    ensures
        march_first(y) == march_first(y - 1) + 365 + (if is_leap_year(y) {
            1int
        } else {
            0int
        }),
{
    let q = y / 400;
    let r = y % 400;
    vstd::arithmetic::div_mod::lemma_fundamental_div_mod(y, 400);
    assert(y == 400 * q + r);
    vstd::arithmetic::div_mod::lemma_mod_multiples_vanish(100 * q, r, 4);
    vstd::arithmetic::div_mod::lemma_mod_multiples_vanish(4 * q, r, 100);
    assert(4 * (100 * q) + r == y);
    assert(100 * (4 * q) + r == y);
    if r >= 1 {
        vstd::arithmetic::div_mod::lemma_fundamental_div_mod_converse(y - 1, 400, q, r - 1);
        lemma_div_step(r, 4);
        lemma_div_step(r, 100);
        assert(march_first(y - 1) == q * 146097 + (r - 1) * 365 + (r - 1) / 4 - (r - 1) / 100
            - 719468);
        assert(march_first(y) == q * 146097 + r * 365 + r / 4 - r / 100 - 719468);
    } else {
        vstd::arithmetic::div_mod::lemma_fundamental_div_mod_converse(y - 1, 400, q - 1, 399);
        assert(march_first(y - 1) == (q - 1) * 146097 + 399 * 365 + 99 - 3 - 719468);
        assert(march_first(y) == q * 146097 - 719468);
    }
}

/// 1970-01-01 is day zero.
pub proof fn lemma_epoch_is_day_zero()
    ensures
        days_from_civil(1970, 1, 1) == 0,
        unix_seconds(1970, 1, 1, 0, 0, 0) == 0,
{
    lemma_days_from_civil_march(1970, 1, 1);
    assert(march_first(1969) == -306);
}

/// Law: on every real calendar date, the next calendar day has the next day
/// number. With `lemma_epoch_is_day_zero` this makes `days_from_civil` the count
/// of calendar days since 1970-01-01, and `civil_to_unix` the Unix time.
pub proof fn lemma_next_day_is_next_number(y: int, m: int, d: int)
    requires
        is_valid_date(y, m, d),
    ensures
        is_valid_date(next_day(y, m, d).0, next_day(y, m, d).1, next_day(y, m, d).2),
        days_from_civil(next_day(y, m, d).0, next_day(y, m, d).1, next_day(y, m, d).2)
            == days_from_civil(y, m, d) + 1,
{
    let (y2, m2, d2) = next_day(y, m, d);
    lemma_days_from_civil_march(y, m, d);
    lemma_days_from_civil_march(y2, m2, d2);
    if d < days_in_month(y, m) {
    } else if m == 2 {
        lemma_march_year_length(y);
    } else {
    }
}

} // verus!
