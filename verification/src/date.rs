//! Calendar dates in UTC+8, from Julian day numbers.

use vstd::prelude::*;
use crate::text::{
    u64_to_padded_decimal, decimal, zero_padded, push_str_chars,
    lemma_zero_padded_value, lemma_decimal_len_small,
};

verus! {

/// Seconds in a day.
pub const SECS_PER_DAY: u64 = 86400;

/// The offset of UTC+8 from UTC, in seconds.
pub const UTC8_OFFSET_SECS: u64 = 28800;

/// The Julian day number of 1970-01-01, the Unix epoch.
pub const UNIX_EPOCH_JD: i64 = 2440588;

/// The largest Julian day number handled (about 2^60).
pub const MAX_JD: i64 = 0x1000_0000_0000_0000;

/// The Gregorian (year, month, day) of Julian day number `jd`, by the
/// Fliegel–Van Flandern algorithm; [`lemma_jd_to_ymd_is_gregorian`] shows
/// that from day 0 on it is the proleptic Gregorian calendar: 1970-01-01 at
/// the Unix epoch, each day within its month, and each next Julian day the
/// next calendar day.
pub open spec fn jd_to_ymd_spec(jd: int) -> (int, int, int) {
    let l = jd + 68569;
    let n = 4 * l / 146097;
    let l = l - (146097 * n + 3) / 4;
    let i = 4000 * (l + 1) / 1461001;
    let l = l - 1461 * i / 4 + 31;
    let j = 80 * l / 2447;
    let d = l - 2447 * j / 80;
    let l = j / 11;
    let m = j + 2 - 12 * l;
    let y = 100 * (n - 49) + i + l;
    (y, m, d)
}

/// Division rounding toward zero, as integer division does on machine
/// integers (`b` > 0).
pub open spec fn trunc_div(a: int, b: int) -> int {
    if a >= 0 {
        a / b
    } else {
        -((-a) / b)
    }
}

/// The bound on `jd + 68569` within which the algorithm's arithmetic fits
/// in 64 bits (2^61).
pub const JD_ARITH_LIMIT: i64 = 0x2000_0000_0000_0000;

/// The algorithm of [`jd_to_ymd_spec`] with divisions that round toward
/// zero, as run on machine integers; it agrees with [`jd_to_ymd_spec`] for
/// every Julian day number from 0 on.
pub open spec fn jd_to_ymd_machine(jd: int) -> (int, int, int) {
    let l = jd + 68569;
    let n = trunc_div(4 * l, 146097);
    let l = l - trunc_div(146097 * n + 3, 4);
    let i = trunc_div(4000 * (l + 1), 1461001);
    let l = l - trunc_div(1461 * i, 4) + 31;
    let j = trunc_div(80 * l, 2447);
    let d = l - trunc_div(2447 * j, 80);
    let l = trunc_div(j, 11);
    let m = j + 2 - 12 * l;
    let y = 100 * (n - 49) + i + l;
    (y, m, d)
}

/// Julian day number to Gregorian (year, month, day); month and day are
/// handed back as they come out of the algorithm, converted to `u64`.
pub fn jd_to_ymd(jd: i64) -> (r: (i64, u64, u64))
    requires
        -JD_ARITH_LIMIT <= jd + 68569 < JD_ARITH_LIMIT,
    ensures
        r.0 as int == jd_to_ymd_machine(jd as int).0,
        r.1 == jd_to_ymd_machine(jd as int).1 as u64,
        r.2 == jd_to_ymd_machine(jd as int).2 as u64,
        0 <= jd <= MAX_JD ==> {
            &&& jd_to_ymd_machine(jd as int) == jd_to_ymd_spec(jd as int)
            &&& 1 <= r.1 <= 12
            &&& 1 <= r.2 <= days_in_month(r.0 as int, r.1 as int)
        },
{
    let l: i64 = jd + 68569;
    let n: i64 = 4 * l / 146097;
    assert(-63131837319417 <= n <= 63131837319417);
    let c: i64 = (146097 * n + 3) / 4;
    let l2: i64 = l - c;
    assert(-36526 <= l2 <= 36526);
    let i: i64 = 4000 * (l2 + 1) / 1461001;
    assert(-101 <= i <= 101);
    let l3: i64 = l2 - 1461 * i / 4 + 31;
    let j: i64 = 80 * l3 / 2447;
    let d: i64 = l3 - 2447 * j / 80;
    let l4: i64 = j / 11;
    let m: i64 = j + 2 - 12 * l4;
    let y: i64 = 100 * (n - 49) + i + l4;
    proof {
        if 0 <= jd <= MAX_JD {
            lemma_machine_agrees(jd as int);
            lemma_jd_to_ymd_ranges(jd as int);
            lemma_jd_to_ymd_is_gregorian(jd as int);
        }
    }
    (y, m as u64, d as u64)
}

/// The bounds of the algorithm's intermediate values from day 0 on.
proof fn lemma_jd_steps(jd: int)
    requires
        0 <= jd <= MAX_JD,
    ensures
        ({
            let l = jd + 68569;
            let n = 4 * l / 146097;
            let l2 = l - (146097 * n + 3) / 4;
            let i = 4000 * (l2 + 1) / 1461001;
            let l3 = l2 - 1461 * i / 4 + 31;
            let j = 80 * l3 / 2447;
            &&& n >= 0
            &&& 0 <= l2 <= 36524
            &&& 0 <= i <= 100
            &&& 31 <= l3 <= 396
            &&& 1 <= j <= 12
        }),
{
    let l = jd + 68569;
    let n = 4 * l / 146097;
    let l2 = l - (146097 * n + 3) / 4;
    assert(0 <= l2 <= 36524);
    let i = 4000 * (l2 + 1) / 1461001;
    assert(0 <= i <= 100);
    let l3 = l2 - 1461 * i / 4 + 31;
    assert(31 <= l3 <= 396) by {
        assert(4000 * (l2 + 1) < 1461001 * (i + 1));
    }
}

/// From day 0 on, the machine divisions agree with the mathematical ones.
proof fn lemma_machine_agrees(jd: int)
    requires
        0 <= jd <= MAX_JD,
    ensures
        jd_to_ymd_machine(jd) == jd_to_ymd_spec(jd),
{
    lemma_jd_steps(jd);
}

/// Law: every Julian day number in range gives a month in 1..=12, a day in
/// 1..=31, and, from the Unix epoch on, a year of at least 1970.
pub proof fn lemma_jd_to_ymd_ranges(jd: int)
    requires
        0 <= jd <= MAX_JD,
    ensures
        1 <= jd_to_ymd_spec(jd).1 <= 12,
        1 <= jd_to_ymd_spec(jd).2 <= 31,
        jd >= UNIX_EPOCH_JD ==> jd_to_ymd_spec(jd).0 >= 1970,
{
    lemma_jd_steps(jd);
    let l = jd + 68569;
    let n = 4 * l / 146097;
    let l2 = l - (146097 * n + 3) / 4;
    let i = 4000 * (l2 + 1) / 1461001;
    let l3 = l2 - 1461 * i / 4 + 31;
    let j = 80 * l3 / 2447;
    let d = l3 - 2447 * j / 80;
    assert(1 <= d <= 31) by {
        assert(2447 * j <= 80 * l3);
        assert(80 * l3 < 2447 * (j + 1));
        assert(2447 * j != 80 * l3) by {
            assert((2447 * j) % 80 != 0);
        }
    }
    if jd >= UNIX_EPOCH_JD {
        assert(n >= 68);
        assert(jd_to_ymd_spec(jd).0 >= 1970) by {
            // 1970-01-01 is the earliest date from the epoch on.
            assert(jd_to_ymd_spec(jd).0 >= 100 * (n - 49));
            if n == 68 {
                assert(l2 >= 0);
            }
        }
    }
}

/// `YYYY-MM-DD`: the year in four or more digits, month and day in two,
/// zero padded.
pub open spec fn date_text(y: nat, m: nat, d: nat) -> Seq<char> {
    zero_padded(decimal(y), 4) + seq!['-'] + zero_padded(decimal(m), 2) + seq!['-'] + zero_padded(
        decimal(d),
        2,
    )
}

/// The Julian day number, in UTC+8, of the instant `utc_secs` seconds after
/// the Unix epoch.
pub open spec fn utc8_jd(utc_secs: u64) -> int {
    (utc_secs + UTC8_OFFSET_SECS) / (SECS_PER_DAY as int) + UNIX_EPOCH_JD
}

/// The UTC+8 date of the instant `utc_secs` seconds after the Unix epoch.
pub open spec fn date_of(utc_secs: u64) -> Seq<char> {
    let (y, m, d) = jd_to_ymd_spec(utc8_jd(utc_secs));
    date_text(y as nat, m as nat, d as nat)
}

/// The date, in UTC+8, of the instant `utc_secs` seconds after the Unix
/// epoch, as `YYYY-MM-DD`.
pub fn today_string(utc_secs: u64) -> (r: String)
    requires
        utc_secs <= u64::MAX - UTC8_OFFSET_SECS,
    ensures
        r@ == date_of(utc_secs),
{
    let secs: u64 = utc_secs + UTC8_OFFSET_SECS;
    let days: u64 = secs / SECS_PER_DAY;
    assert(days <= 213503982334601);
    let jd: i64 = (days as i64) + UNIX_EPOCH_JD;
    proof {
        lemma_jd_to_ymd_ranges(jd as int);
    }
    let (y, m, d) = jd_to_ymd(jd);
    let mut r = u64_to_padded_decimal(y as u64, 4);
    r.push('-');
    let ms = u64_to_padded_decimal(m, 2);
    push_str_chars(&mut r, ms.as_str());
    r.push('-');
    let ds = u64_to_padded_decimal(d, 2);
    push_str_chars(&mut r, ds.as_str());
    r
}

/// Law: two instants in the same UTC+8 day have the same date, so the
/// daily result changes only when UTC+8 midnight passes.
pub proof fn lemma_same_day_same_date(t1: u64, t2: u64)
    requires
        (t1 + UTC8_OFFSET_SECS) / (SECS_PER_DAY as int) == (t2 + UTC8_OFFSET_SECS) / (
        SECS_PER_DAY as int),
    ensures
        date_of(t1) == date_of(t2),
{
}


/// Different Julian day numbers give different dates.
pub proof fn lemma_jd_to_ymd_injective(a: int, b: int)
    requires
        0 <= a <= MAX_JD,
        0 <= b <= MAX_JD,
        jd_to_ymd_spec(a) == jd_to_ymd_spec(b),
    ensures
        a == b,
{
    let la = a + 68569;
    let na = 4 * la / 146097;
    let l2a = la - (146097 * na + 3) / 4;
    let ia = 4000 * (l2a + 1) / 1461001;
    let l3a = l2a - 1461 * ia / 4 + 31;
    let ja = 80 * l3a / 2447;
    let lb = b + 68569;
    let nb = 4 * lb / 146097;
    let l2b = lb - (146097 * nb + 3) / 4;
    let ib = 4000 * (l2b + 1) / 1461001;
    let l3b = l2b - 1461 * ib / 4 + 31;
    let jb = 80 * l3b / 2447;
    assert(0 <= l2a <= 36524);
    assert(0 <= l2b <= 36524);
    assert(0 <= ia <= 99);
    assert(0 <= ib <= 99);
    assert(31 <= l3a <= 396) by {
        assert(4000 * (l2a + 1) < 1461001 * (ia + 1));
    }
    assert(31 <= l3b <= 396) by {
        assert(4000 * (l2b + 1) < 1461001 * (ib + 1));
    }
    assert(1 <= ja <= 12);
    assert(1 <= jb <= 12);
    // The month fixes j, and with it the day fixes l3.
    assert(ja == jb);
    assert(l3a == l3b);
    // The year fixes 100 n + i, with i below 100.
    assert(100 * na + ia == 100 * nb + ib);
    assert(na == nb);
    assert(ia == ib);
    assert(l2a == l2b);
}

/// Different dates have different texts.
pub proof fn lemma_date_text_injective(y1: nat, m1: nat, d1: nat, y2: nat, m2: nat, d2: nat)
    requires
        m1 < 100,
        d1 < 100,
        m2 < 100,
        d2 < 100,
        date_text(y1, m1, d1) == date_text(y2, m2, d2),
    ensures
        y1 == y2,
        m1 == m2,
        d1 == d2,
{
    lemma_decimal_len_small(m1);
    lemma_decimal_len_small(d1);
    lemma_decimal_len_small(m2);
    lemma_decimal_len_small(d2);
    lemma_zero_padded_value(y1, 4);
    lemma_zero_padded_value(y2, 4);
    lemma_zero_padded_value(m1, 2);
    lemma_zero_padded_value(m2, 2);
    lemma_zero_padded_value(d1, 2);
    lemma_zero_padded_value(d2, 2);
    let ya = zero_padded(decimal(y1), 4);
    let yb = zero_padded(decimal(y2), 4);
    let ma = zero_padded(decimal(m1), 2);
    let mb = zero_padded(decimal(m2), 2);
    let da = zero_padded(decimal(d1), 2);
    let db = zero_padded(decimal(d2), 2);
    let t = date_text(y1, m1, d1);
    assert(t.len() == ya.len() + 6);
    assert(t.len() == yb.len() + 6);
    let n = ya.len() as int;
    assert(t == ya + seq!['-'] + ma + seq!['-'] + da);
    assert(t == yb + seq!['-'] + mb + seq!['-'] + db);
    assert(ya =~= t.subrange(0, n));
    assert(yb =~= t.subrange(0, n));
    assert(ma =~= t.subrange(n + 1, n + 3));
    assert(mb =~= t.subrange(n + 1, n + 3));
    assert(da =~= t.subrange(n + 4, n + 6));
    assert(db =~= t.subrange(n + 4, n + 6));
}

/// Law: instants in different UTC+8 days have different dates, so the
/// daily table is started afresh on the next day. With
/// [`lemma_same_day_same_date`]: two instants have the same date exactly
/// when they fall in the same UTC+8 day.
pub proof fn lemma_other_day_other_date(t1: u64, t2: u64)
    requires
        t1 <= u64::MAX - UTC8_OFFSET_SECS,
        t2 <= u64::MAX - UTC8_OFFSET_SECS,
        utc8_jd(t1) != utc8_jd(t2),
    ensures
        date_of(t1) != date_of(t2),
{
    let a = utc8_jd(t1);
    let b = utc8_jd(t2);
    assert(0 <= a <= MAX_JD);
    assert(0 <= b <= MAX_JD);
    lemma_jd_to_ymd_ranges(a);
    lemma_jd_to_ymd_ranges(b);
    let (ya, ma, da) = jd_to_ymd_spec(a);
    let (yb, mb, db) = jd_to_ymd_spec(b);
    if date_of(t1) == date_of(t2) {
        lemma_date_text_injective(ya as nat, ma as nat, da as nat, yb as nat, mb as nat, db as nat);
        lemma_jd_to_ymd_injective(a, b);
    }
}


/// Whether `y` is a leap year of the proleptic Gregorian calendar.
pub open spec fn is_leap_year(y: int) -> bool {
    (y % 4 == 0 && y % 100 != 0) || y % 400 == 0
}

/// The number of days of month `m` of year `y`.
pub open spec fn days_in_month(y: int, m: int) -> int {
    if m == 2 {
        if is_leap_year(y) {
            29
        } else {
            28
        }
    } else if m == 4 || m == 6 || m == 9 || m == 11 {
        30
    } else {
        31
    }
}

/// The calendar day after (`y`, `m`, `d`).
pub open spec fn next_date(date: (int, int, int)) -> (int, int, int) {
    let (y, m, d) = date;
    if d < days_in_month(y, m) {
        (y, m, d + 1)
    } else if m < 12 {
        (y, m + 1, 1)
    } else {
        (y + 1, 1, 1)
    }
}

/// The first day, counted from 0, of the Fliegel–Van Flandern block `n`:
/// blocks are centuries that start on March 1.
pub open spec fn block_start(n: int) -> int {
    (146097 * n + 3) / 4
}

/// The first day, counted from 0 in its block, of year `i` of a block
/// (years run from March 1 to the end of February).
pub open spec fn block_year_start(i: int) -> int {
    1461 * i / 4
}

/// The length of month `j` of a year that starts in March (`j` = 1 is
/// March, `j` = 12 is February, taken with its leap day).
pub open spec fn march_month_len(j: int) -> int {
    if j == 12 {
        29
    } else if j == 2 || j == 4 || j == 7 || j == 9 {
        30
    } else {
        31
    }
}

/// Month `j` and day `d` of the day `doy` (from 0) of a year that starts
/// in March, by the algorithm's formulas.
pub open spec fn month_day(doy: int) -> (int, int) {
    let l3 = doy + 31;
    let j = 80 * l3 / 2447;
    (j, l3 - 2447 * j / 80)
}

proof fn lemma_month_day(doy: int)
    requires
        0 <= doy <= 365,
    ensures
        1 <= month_day(doy).0 <= 12,
        1 <= month_day(doy).1 <= march_month_len(month_day(doy).0),
        doy == 365 ==> month_day(doy) == (12int, 29int),
        doy < 365 && month_day(doy).1 < march_month_len(month_day(doy).0) ==> month_day(doy + 1)
            == (month_day(doy).0, month_day(doy).1 + 1),
        doy < 365 && month_day(doy).1 == march_month_len(month_day(doy).0) ==> month_day(doy).0
            < 12 && month_day(doy + 1) == (month_day(doy).0 + 1, 1int),
{
    let (j, d) = month_day(doy);
    let (j2, d2) = month_day(doy + 1);
    if doy < 31 {
        assert(j == 1 && d == doy + 1);
    } else if doy < 61 {
        assert(j == 2 && d == doy - 30);
    } else if doy < 92 {
        assert(j == 3 && d == doy - 60);
    } else if doy < 122 {
        assert(j == 4 && d == doy - 91);
    } else if doy < 153 {
        assert(j == 5 && d == doy - 121);
    } else if doy < 184 {
        assert(j == 6 && d == doy - 152);
    } else if doy < 214 {
        assert(j == 7 && d == doy - 183);
    } else if doy < 245 {
        assert(j == 8 && d == doy - 213);
    } else if doy < 275 {
        assert(j == 9 && d == doy - 244);
    } else if doy < 306 {
        assert(j == 10 && d == doy - 274);
    } else if doy < 337 {
        assert(j == 11 && d == doy - 305);
    } else {
        assert(j == 12 && d == doy - 336);
    }
    if doy < 365 {
        if doy + 1 < 31 {
            assert(j2 == 1 && d2 == doy + 2);
        } else if doy + 1 < 61 {
            assert(j2 == 2 && d2 == doy - 29);
        } else if doy + 1 < 92 {
            assert(j2 == 3 && d2 == doy - 59);
        } else if doy + 1 < 122 {
            assert(j2 == 4 && d2 == doy - 90);
        } else if doy + 1 < 153 {
            assert(j2 == 5 && d2 == doy - 120);
        } else if doy + 1 < 184 {
            assert(j2 == 6 && d2 == doy - 151);
        } else if doy + 1 < 214 {
            assert(j2 == 7 && d2 == doy - 182);
        } else if doy + 1 < 245 {
            assert(j2 == 8 && d2 == doy - 212);
        } else if doy + 1 < 275 {
            assert(j2 == 9 && d2 == doy - 243);
        } else if doy + 1 < 306 {
            assert(j2 == 10 && d2 == doy - 273);
        } else if doy + 1 < 337 {
            assert(j2 == 11 && d2 == doy - 304);
        } else {
            assert(j2 == 12 && d2 == doy - 335);
        }
    }
}

/// The year `i` of its block that the day `l2` of the block falls in.
pub open spec fn block_year(l2: int) -> int {
    4000 * (l2 + 1) / 1461001
}

proof fn lemma_block_year(l2: int)
    requires
        0 <= l2 <= 36524,
    ensures
        0 <= block_year(l2) <= 99,
        block_year_start(block_year(l2)) <= l2 < block_year_start(block_year(l2) + 1),
        block_year_start(block_year(l2) + 1) - block_year_start(block_year(l2)) == 365 + if (
        block_year(l2) + 1) % 4 == 0 {
            1int
        } else {
            0int
        },
{
    let i = block_year(l2);
    assert(4000 * (l2 + 1) < 1461001 * (i + 1));
    assert(1461001 * i <= 4000 * (l2 + 1));
}

proof fn lemma_block_year_unique(l2: int, k: int)
    requires
        0 <= l2 <= 36524,
        0 <= k <= 99,
        block_year_start(k) <= l2 < block_year_start(k + 1),
    ensures
        block_year(l2) == k,
{
    lemma_block_year(l2);
    let i = block_year(l2);
    if i < k {
        assert(block_year_start(i + 1) <= block_year_start(k));
    }
    if i > k {
        assert(block_year_start(k + 1) <= block_year_start(i));
    }
}

/// The block that the day `l` falls in.
pub open spec fn block_of(l: int) -> int {
    4 * l / 146097
}

proof fn lemma_block(l: int)
    requires
        0 <= l,
    ensures
        0 <= block_of(l),
        block_start(block_of(l)) <= l < block_start(block_of(l) + 1),
        block_start(block_of(l) + 1) - block_start(block_of(l)) == 36524 + if block_of(l) % 4
            == 0 {
            1int
        } else {
            0int
        },
{
}

proof fn lemma_block_unique(l: int, k: int)
    requires
        0 <= l,
        0 <= k,
        block_start(k) <= l < block_start(k + 1),
    ensures
        block_of(l) == k,
{
    lemma_block(l);
    let n = block_of(l);
    if n < k {
        assert(block_start(n + 1) <= block_start(k));
    }
    if n > k {
        assert(block_start(k + 1) <= block_start(n));
    }
}

/// Law: the dates are those of the proleptic Gregorian calendar: every day
/// lies within its month, the Julian day after gives the calendar day
/// after, and the Unix epoch is 1970-01-01.
pub proof fn lemma_jd_to_ymd_is_gregorian(jd: int)
    requires
        0 <= jd <= MAX_JD,
    ensures
        jd_to_ymd_spec(jd).2 <= days_in_month(jd_to_ymd_spec(jd).0, jd_to_ymd_spec(jd).1),
        jd_to_ymd_spec(jd + 1) == next_date(jd_to_ymd_spec(jd)),
        jd_to_ymd_spec(UNIX_EPOCH_JD as int) == (1970int, 1int, 1int),
{
    let l = jd + 68569;
    let n = block_of(l);
    lemma_block(l);
    let l2 = l - block_start(n);
    let i = block_year(l2);
    lemma_block_year(l2);
    let doy = l2 - block_year_start(i);
    // a year of 366 days has its leap day only where the calendar has one
    assert(doy <= 365);
    lemma_month_day(doy);
    let (j, d) = month_day(doy);
    let ll = j / 11;
    let y = 100 * (n - 49) + i + ll;
    let m = j + 2 - 12 * ll;
    assert(jd_to_ymd_spec(jd) == (y, m, d));
    let year_len = block_year_start(i + 1) - block_year_start(i);
    let block_len = block_start(n + 1) - block_start(n);
    assert(d <= days_in_month(y, m)) by {
        if j == 12 && d == 29 {
            assert(doy == 365);
            assert((i + 1) % 4 == 0);
            if i == 99 {
                assert(l2 == 36524);
                assert(n % 4 == 0);
            }
        }
    }
    // the next day
    let l2n = if l2 + 1 < block_len { l2 + 1 } else { 0 };
    let nn = if l2 + 1 < block_len { n } else { n + 1 };
    lemma_block_unique(l + 1, nn);
    assert(l + 1 - block_start(nn) == l2n);
    let in_ = if l2 + 1 < block_len && doy + 1 < year_len { i } else if l2 + 1 < block_len { i + 1 } else { 0 };
    let doyn = if l2 + 1 < block_len && doy + 1 < year_len { doy + 1 } else { 0 };
    if l2 + 1 < block_len && doy + 1 >= year_len {
        assert(i + 1 <= 99);
        lemma_block_year(l2 + 1);
    }
    lemma_block_year_unique(l2n, in_);
    assert(l2n - block_year_start(in_) == doyn);
    lemma_month_day(doyn);
    if doy + 1 < year_len && l2 + 1 < block_len {
        // same year of the block
        if d == march_month_len(j) && !(j == 12 && d < days_in_month(y, m)) {
            assert(j < 12);
        }
        if j == 12 {
            assert(d < days_in_month(y, m) || doy == year_len - 1);
        }
    } else {
        // the last day of February
        assert(j == 12);
        assert(d == days_in_month(y, m)) by {
            if (i + 1) % 4 == 0 && (i != 99 || n % 4 == 0) {
                assert(doy == 365);
            } else {
                assert(doy == 364);
            }
        }
    }
}

} // verus!
