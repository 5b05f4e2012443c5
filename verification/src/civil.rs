//! Unix time to proleptic Gregorian civil date-time, with the calendar it is proved against.

use vstd::prelude::*;
use vstd::arithmetic::div_mod::{lemma_fundamental_div_mod, lemma_fundamental_div_mod_converse};

verus! {

// ---------------------------------------------------------------------------
// The Gregorian calendar
// ---------------------------------------------------------------------------

pub open spec fn is_leap_year(y: int) -> bool {
    (y % 4 == 0 && y % 100 != 0) || y % 400 == 0
}

pub open spec fn days_in_month(y: int, m: int) -> int {
    if m == 2 {
        if is_leap_year(y) {
            29
        } else {
            28
        }
    } else if m == 4 || m == 6 || m == 9 || m == 11 {
        30
    } else {
        31
    }
}

/// Days in months 1 ..= m-1 of year `y`.
pub open spec fn days_before_month(y: int, m: int) -> int {
    let common: int = if m <= 1 {
        0
    } else if m == 2 {
        31
    } else if m == 3 {
        59
    } else if m == 4 {
        90
    } else if m == 5 {
        120
    } else if m == 6 {
        151
    } else if m == 7 {
        181
    } else if m == 8 {
        212
    } else if m == 9 {
        243
    } else if m == 10 {
        273
    } else if m == 11 {
        304
    } else {
        334
    };
    common + if m > 2 && is_leap_year(y) {
        1int
    } else {
        0int
    }
}

/// Days from 0001-01-01 to `y`-01-01: 365 per year plus one per leap year
/// (multiples of 4, less multiples of 100, plus multiples of 400) before `y`.
pub open spec fn days_before_year(y: int) -> int {
    365 * (y - 1) + (y - 1) / 4 - (y - 1) / 100 + (y - 1) / 400
}

/// Days from 1970-01-01 (Unix day 0) to the date `y`-`m`-`d`.
pub open spec fn days_from_epoch(y: int, m: int, d: int) -> int {
    days_before_year(y) + days_before_month(y, m) + d - 1 - 719162
}

pub open spec fn is_valid_date(y: int, m: int, d: int) -> bool {
    1 <= m <= 12 && 1 <= d <= days_in_month(y, m)
}

// ---------------------------------------------------------------------------
// Facts about the day arithmetic
// ---------------------------------------------------------------------------

/// Within a 400-year era counted from March 1st, the year index computed from the
/// day index lands in the year that holds that day.
proof fn lemma_year_of_era(doe: u64, yoe: u64)
    by (bit_vector)
    requires
        doe <= 146096,
        yoe == ((((doe - doe / 1460) as u64 + doe / 36524) as u64 - doe / 146096) as u64) / 365,
    ensures
        yoe <= 399,
        ((365 * yoe) as u64 + yoe / 4 - yoe / 100) as u64 <= doe,
        ((doe - (((365 * yoe) as u64 + yoe / 4 - yoe / 100) as u64)) as u64) < 365 || (((doe
            - (((365 * yoe) as u64 + yoe / 4 - yoe / 100) as u64)) as u64) == 365 && ((((yoe + 1) as u64)
            % 4 == 0 && ((yoe + 1) as u64) % 100 != 0) || ((yoe + 1) as u64) % 400 == 0)),
{
}

/// Day of a March-based year to (month index from March, day of month).
proof fn lemma_month_of_year(doy: u64, mp: u64)
    by (bit_vector)
    requires
        doy <= 365,
        mp == ((5 * doy) as u64 + 2) as u64 / 153,
    ensures
        mp <= 11,
        ((153 * mp) as u64 + 2) as u64 / 5 <= doy,
        mp < 11 ==> doy < ((153 * ((mp + 1) as u64)) as u64 + 2) as u64 / 5,
{
}

/// `(a + 1) / k` is `a / k`, plus one when `k` divides `a + 1`.
proof fn lemma_div_succ(a: int, k: int)
    requires
        k > 0,
    ensures
        (a + 1) / k == a / k + if (a + 1) % k == 0 {
            1int
        } else {
            0int
        },
{
    lemma_fundamental_div_mod(a, k);
    let q = a / k;
    assert(k * q == q * k && (q + 1) * k == q * k + k) by (nonlinear_arith);
    if (a % k) + 1 == k {
        lemma_fundamental_div_mod_converse(a + 1, k, a / k + 1, 0);
    } else {
        lemma_fundamental_div_mod_converse(a + 1, k, a / k, a % k + 1);
    }
}

proof fn lemma_leap_step(y: int)
    requires
        y >= 1,
    ensures
        days_before_year(y + 1) == days_before_year(y) + 365 + if is_leap_year(y) {
            1int
        } else {
            0int
        },
{
    let a = y - 1;
    lemma_div_succ(a, 4);
    lemma_div_succ(a, 100);
    lemma_div_succ(a, 400);
    assert(y % 100 == 0 ==> y % 4 == 0) by {
        if y % 100 == 0 {
            lemma_fundamental_div_mod(y, 100);
            lemma_fundamental_div_mod_converse(y, 4, (y / 100) * 25, 0);
        }
    }
    assert(y % 400 == 0 ==> y % 100 == 0) by {
        if y % 400 == 0 {
            lemma_fundamental_div_mod(y, 400);
            lemma_fundamental_div_mod_converse(y, 100, (y / 400) * 4, 0);
        }
    }
}

/// March 1st of year `y = 400 * era + yoe` is day `146097 * era + 365 * yoe + yoe/4 - yoe/100`
/// counted from 0000-03-01, i.e. `days_before_year(y + 1)`.
proof fn lemma_era_start(era: int, yoe: int)
    requires
        era >= 0,
        0 <= yoe <= 399,
    ensures
        days_before_year(400 * era + yoe + 1) == 146097 * era + 365 * yoe + yoe / 4 - yoe / 100,
        is_leap_year(400 * era + yoe + 1) == is_leap_year(yoe + 1),
{
    let y = 400 * era + yoe;
    lemma_fundamental_div_mod(yoe, 4);
    lemma_fundamental_div_mod(yoe, 100);
    lemma_fundamental_div_mod_converse(y, 4, 100 * era + yoe / 4, yoe % 4);
    lemma_fundamental_div_mod_converse(y, 100, 4 * era + yoe / 100, yoe % 100);
    lemma_fundamental_div_mod_converse(y, 400, era, yoe);
    let z = yoe + 1;
    lemma_fundamental_div_mod(z, 4);
    lemma_fundamental_div_mod(z, 100);
    lemma_fundamental_div_mod(z, 400);
    lemma_fundamental_div_mod_converse(y + 1, 4, 100 * era + z / 4, z % 4);
    lemma_fundamental_div_mod_converse(y + 1, 100, 4 * era + z / 100, z % 100);
    lemma_fundamental_div_mod_converse(y + 1, 400, era + z / 400, z % 400);
}

// ---------------------------------------------------------------------------
// Conversion
// ---------------------------------------------------------------------------

/// Convert Unix epoch seconds into civil date-time (Year, Month, Day, Hour, Min, Sec) in UTC.
/// The year is the calendar year truncated to 32 bits.
pub fn epoch_to_civil(secs: u64) -> (r: (u32, u32, u32, u32, u32, u32))
    ensures
        exists|y: int|
            #![trigger days_from_epoch(y, r.1 as int, r.2 as int)]
            is_valid_date(y, r.1 as int, r.2 as int) && days_from_epoch(y, r.1 as int, r.2 as int)
                == secs / 86400 && r.0 as int == y % 0x1_0000_0000,
        r.3 == (secs % 86400) / 3600,
        r.4 == (secs % 3600) / 60,
        r.5 == secs % 60,
{
    let days: u64 = secs / 86400;
    let day_secs: u64 = secs % 86400;
    let hour = (day_secs / 3600) as u32;
    let min = ((day_secs % 3600) / 60) as u32;
    let sec = (day_secs % 60) as u32;
    assert((secs % 86400) % 3600 == secs % 3600 && (secs % 86400) % 60 == secs % 60) by {
        vstd::arithmetic::div_mod::lemma_mod_mod(secs as int, 3600, 24);
        vstd::arithmetic::div_mod::lemma_mod_mod(secs as int, 60, 1440);
    }

    let z: u64 = days + 719468;
    let era: u64 = z / 146097;
    let doe: u64 = z % 146097;
    let yoe: u64 = (doe - doe / 1460 + doe / 36524 - doe / 146096) / 365;
    proof {
        lemma_year_of_era(doe, yoe);
    }
    let y: u64 = yoe + era * 400;
    let doy: u64 = doe - (365 * yoe + yoe / 4 - yoe / 100);
    let mp: u64 = (5 * doy + 2) / 153;
    proof {
        lemma_month_of_year(doy, mp);
    }
    let d: u64 = doy - (153 * mp + 2) / 5 + 1;
    let m: u64 = if mp < 10 {
        mp + 3
    } else {
        mp - 9
    };
    let yc: u64 = if m <= 2 {
        y + 1
    } else {
        y
    };
    proof {
        let yi = y as int;
        lemma_fundamental_div_mod(z as int, 146097);
        lemma_era_start(era as int, yoe as int);
        assert(yi >= 1);
        lemma_leap_step(yi);
        let s = 146097 * era + 365 * yoe + yoe / 4 - yoe / 100;
        assert(z == s + doy);
        // month-start offsets from March 1st
        assert(mp == 0 ==> (153 * mp + 2) / 5 == 0);
        assert(mp == 1 ==> (153 * mp + 2) / 5 == 31);
        assert(mp == 2 ==> (153 * mp + 2) / 5 == 61);
        assert(mp == 3 ==> (153 * mp + 2) / 5 == 92);
        assert(mp == 4 ==> (153 * mp + 2) / 5 == 122);
        assert(mp == 5 ==> (153 * mp + 2) / 5 == 153);
        assert(mp == 6 ==> (153 * mp + 2) / 5 == 184);
        assert(mp == 7 ==> (153 * mp + 2) / 5 == 214);
        assert(mp == 8 ==> (153 * mp + 2) / 5 == 245);
        assert(mp == 9 ==> (153 * mp + 2) / 5 == 275);
        assert(mp == 10 ==> (153 * mp + 2) / 5 == 306);
        assert(mp == 11 ==> (153 * mp + 2) / 5 == 337);
        assert(mp < 11 ==> (153 * (mp + 1) + 2) / 5 == if mp == 0 {
            31int
        } else if mp == 1 {
            61int
        } else if mp == 2 {
            92int
        } else if mp == 3 {
            122int
        } else if mp == 4 {
            153int
        } else if mp == 5 {
            184int
        } else if mp == 6 {
            214int
        } else if mp == 7 {
            245int
        } else if mp == 8 {
            275int
        } else if mp == 9 {
            306int
        } else {
            337int
        });
        assert(is_valid_date(yc as int, m as int, d as int));
        assert(days_from_epoch(yc as int, m as int, d as int) == days);
    }
    let year = (yc % 0x1_0000_0000) as u32;
    let r = (year, m as u32, d as u32, hour, min, sec);
    assert(is_valid_date(yc as int, r.1 as int, r.2 as int) && days_from_epoch(
        yc as int,
        r.1 as int,
        r.2 as int,
    ) == secs / 86400 && r.0 as int == (yc as int) % 0x1_0000_0000);
    r
}

} // verus!
