//! Decimal formatting of counts, sizes and timestamps.
use vstd::prelude::*;
use vstd::string::StringExecFns;

verus! {

/// The decimal digit character for `d` in `0..10`.
pub open spec fn digit_char(d: int) -> char {
    if d == 0 {
        '0'
    } else if d == 1 {
        '1'
    } else if d == 2 {
        '2'
    } else if d == 3 {
        '3'
    } else if d == 4 {
        '4'
    } else if d == 5 {
        '5'
    } else if d == 6 {
        '6'
    } else if d == 7 {
        '7'
    } else if d == 8 {
        '8'
    } else {
        '9'
    }
}

/// The decimal representation of `n`, without leading zeros.
pub open spec fn decimal(n: nat) -> Seq<char>
    decreases n,
{
    if n < 10 {
        seq![digit_char(n as int)]
    } else {
        decimal(n / 10).push(digit_char((n % 10) as int))
    }
}

fn push_digit(s: &mut String, d: u64)
    requires
        d < 10,
    ensures
        final(s)@ == old(s)@.push(digit_char(d as int)),
{
    proof {
        reveal_strlit("0");
        reveal_strlit("1");
        reveal_strlit("2");
        reveal_strlit("3");
        reveal_strlit("4");
        reveal_strlit("5");
        reveal_strlit("6");
        reveal_strlit("7");
        reveal_strlit("8");
        reveal_strlit("9");
    }
    let ghost s0 = s@;
    if d == 0 {
        s.append("0");
    } else if d == 1 {
        s.append("1");
    } else if d == 2 {
        s.append("2");
    } else if d == 3 {
        s.append("3");
    } else if d == 4 {
        s.append("4");
    } else if d == 5 {
        s.append("5");
    } else if d == 6 {
        s.append("6");
    } else if d == 7 {
        s.append("7");
    } else if d == 8 {
        s.append("8");
    } else {
        s.append("9");
    }
    assert(s@ =~= s0.push(digit_char(d as int)));
}

/// Appends the decimal representation of `n`.
pub fn push_decimal(s: &mut String, n: u64)
    ensures
        final(s)@ == old(s)@ + decimal(n as nat),
    decreases n,
{
    let ghost s0 = s@;
    if n >= 10 {
        push_decimal(s, n / 10);
    }
    push_digit(s, n % 10);
    proof {
        if n >= 10 {
            assert(s@ =~= s0 + decimal(n as nat));
        } else {
            assert(s@ =~= s0 + decimal(n as nat));
        }
    }
}


/// Three decimal digits of `k < 1000`, with leading zeros.
pub open spec fn three_digits(k: nat) -> Seq<char> {
    seq![digit_char((k / 100) as int), digit_char(((k / 10) % 10) as int), digit_char((k % 10) as int)]
}

/// The decimal representation of `n` with a comma between groups of three
/// digits.
pub open spec fn grouped(n: nat) -> Seq<char>
    decreases n,
{
    if n < 1000 {
        decimal(n)
    } else {
        grouped(n / 1000).push(',') + three_digits(n % 1000)
    }
}

fn push_grouped(s: &mut String, n: u64)
    ensures
        final(s)@ == old(s)@ + grouped(n as nat),
    decreases n,
{
    let ghost s0 = s@;
    if n < 1000 {
        push_decimal(s, n);
        return;
    }
    push_grouped(s, n / 1000);
    proof {
        reveal_strlit(",");
    }
    s.append(",");
    let k = n % 1000;
    push_digit(s, k / 100);
    push_digit(s, (k / 10) % 10);
    push_digit(s, k % 10);
    assert(s@ =~= s0 + grouped(n as nat));
}

/// A count with thousands separators, such as `1,234,567`.
pub fn fmt_num(n: u64) -> (s: String)
    ensures
        s@ == grouped(n as nat),
{
    let mut s = String::new();
    push_grouped(&mut s, n);
    assert(s@ =~= grouped(n as nat));
    s
}

/// A book depth in short form: millions as `M`, thousands as `K`,
/// rounded down.
pub open spec fn depth_label(n: nat) -> Seq<char> {
    if n >= 1_000_000 {
        decimal(n / 1_000_000).push('M')
    } else if n >= 1_000 {
        decimal(n / 1_000).push('K')
    } else {
        decimal(n)
    }
}

pub fn fmt_depth(n: u64) -> (s: String)
    ensures
        s@ == depth_label(n as nat),
{
    let mut s = String::new();
    proof {
        reveal_strlit("M");
        reveal_strlit("K");
    }
    if n >= 1_000_000 {
        push_decimal(&mut s, n / 1_000_000);
        s.append("M");
    } else if n >= 1_000 {
        push_decimal(&mut s, n / 1_000);
        s.append("K");
    } else {
        push_decimal(&mut s, n);
    }
    assert(s@ =~= depth_label(n as nat));
    s
}

/// `n` in decimal, padded with leading zeros to at least `width` digits.
pub open spec fn zero_padded(n: nat, width: nat) -> Seq<char> {
    let d = decimal(n);
    if d.len() < width {
        Seq::new((width - d.len()) as nat, |i: int| '0') + d
    } else {
        d
    }
}

/// The number of decimal digits of `n`.
fn digit_count(n: u64) -> (c: u64)
    ensures
        c == decimal(n as nat).len(),
        1 <= c,
        n >= 1 ==> c <= n,
    decreases n,
{
    if n < 10 {
        1
    } else {
        digit_count(n / 10) + 1
    }
}

/// Appends `n`, padded with leading zeros to at least `width` digits.
pub fn push_padded(s: &mut String, n: u64, width: usize)
    ensures
        final(s)@ == old(s)@ + zero_padded(n as nat, width as nat),
{
    let ghost s0 = s@;
    let c = digit_count(n);
    let width = width as u64;
    let mut k: u64 = c;
    while k < width
        invariant
            c <= k,
            c == decimal(n as nat).len(),
            k <= width || k == c,
            s@ == s0 + Seq::new((k - c) as nat, |i: int| '0'),
        decreases width - k,
    {
        proof {
            reveal_strlit("0");
        }
        s.append("0");
        proof {
            assert(s@ =~= s0 + Seq::new((k + 1 - c) as nat, |i: int| '0'));
        }
        k = k + 1;
    }
    push_decimal(s, n);
    proof {
        if c < width {
            assert(k == width);
            assert(s@ =~= s0 + zero_padded(n as nat, width as nat));
        } else {
            assert(k == c);
            assert(s@ =~= s0 + zero_padded(n as nat, width as nat));
        }
    }
}


/// The year of era and day of year of day `doe` of a 400-year era that
/// starts on March 1st: the year never runs past the day, and leaves at
/// most a leap year's worth of days.
pub proof fn lemma_civil_year(doe: int)
    requires
        0 <= doe < 146097,
    ensures
        ({
            let yoe = (doe - doe / 1460 + doe / 36524 - doe / 146096) / 365;
            &&& 0 <= yoe <= 399
            &&& 365 * yoe + yoe / 4 - yoe / 100 <= doe
            &&& doe - (365 * yoe + yoe / 4 - yoe / 100) <= 365
        }),
{
}


/// Year of era, month and day of day `doe` of a 400-year era that starts
/// on March 1st of its first year.
pub open spec fn era_date(doe: int) -> (int, int, int) {
    let yoe = (doe - doe / 1460 + doe / 36524 - doe / 146096) / 365;
    let doy = doe - (365 * yoe + yoe / 4 - yoe / 100);
    let mp = (5 * doy + 2) / 153;
    let d = doy - (153 * mp + 2) / 5 + 1;
    let m = if mp < 10 {
        mp + 3
    } else {
        mp - 9
    };
    (yoe, m, d)
}

/// The civil (proleptic Gregorian) year, month and day of `days` days
/// after 1970-01-01.
pub open spec fn civil_from_days(days: int) -> (int, int, int) {
    let z = days + 719468;
    let era = z / 146097;
    let (yoe, m, d) = era_date(z % 146097);
    let y = yoe + era * 400;
    (if m <= 2 {
        y + 1
    } else {
        y
    }, m, d)
}

/// Within an era, months run from 1 to 12 and days from 1 to 31.
pub proof fn lemma_era_date(doe: int)
    requires
        0 <= doe < 146097,
    ensures
        0 <= era_date(doe).0 <= 399,
        1 <= era_date(doe).1 <= 12,
        1 <= era_date(doe).2 <= 31,
{
    lemma_civil_year(doe);
}

/// Whether `y` is a leap year of the proleptic Gregorian calendar.
pub open spec fn is_leap(y: int) -> bool {
    y % 4 == 0 && (y % 100 != 0 || y % 400 == 0)
}

/// The number of days of month `m` of year `y`.
pub open spec fn days_in_month(y: int, m: int) -> int {
    if m == 2 {
        if is_leap(y) {
            29
        } else {
            28
        }
    } else if m == 4 || m == 6 || m == 9 || m == 11 {
        30
    } else {
        31
    }
}

/// The day after `(y, m, d)`.
pub open spec fn next_date(date: (int, int, int)) -> (int, int, int) {
    let (y, m, d) = date;
    if d < days_in_month(y, m) {
        (y, m, d + 1)
    } else if m < 12 {
        (y, m + 1, 1)
    } else {
        (y + 1, 1, 1)
    }
}

/// From one day of an era to the next: the year of era and day of year
/// either both move on by one day, or, on the last day of a year (the
/// 366th in the year before a leap day's March, else the 365th), the year
/// moves on and the day starts again.
#[verifier::rlimit(100)]
proof fn lemma_era_year_step(doe: u32)
    requires
        doe < 146096,
    ensures
        ({
            let yoe = (doe - doe / 1460 + doe / 36524 - doe / 146096) / 365;
            let doy = doe - (365 * yoe + yoe / 4 - yoe / 100);
            let e1 = doe + 1;
            let yoe1 = (e1 - e1 / 1460 + e1 / 36524 - e1 / 146096) / 365;
            let doy1 = e1 - (365 * yoe1 + yoe1 / 4 - yoe1 / 100);
            let len = if (yoe + 1) % 4 == 0 && ((yoe + 1) % 100 != 0 || (yoe + 1) % 400 == 0) {
                366int
            } else {
                365int
            };
            (yoe1 == yoe && doy1 == doy + 1 && doy + 1 < len) || (yoe1 == yoe + 1 && doy1 == 0 && doy
                + 1 == len)
        }),
{
    assert({
        let yoe = (doe - doe / 1460 + doe / 36524 - doe / 146096) / 365;
        let doy = doe - (365 * yoe + yoe / 4 - yoe / 100);
        let e1 = doe + 1;
        let yoe1 = (e1 - e1 / 1460 + e1 / 36524 - e1 / 146096) / 365;
        let doy1 = e1 - (365 * yoe1 + yoe1 / 4 - yoe1 / 100);
        let len = if (yoe + 1) % 4 == 0 && ((yoe + 1) % 100 != 0 || (yoe + 1) % 400 == 0) {
            366int
        } else {
            365int
        };
        (yoe1 == yoe && doy1 == doy + 1 && doy + 1 < len) || (yoe1 == yoe + 1 && doy1 == 0 && doy + 1
            == len)
    }) by (bit_vector)
        requires
            doe < 146096,
    ;
}

/// The month length of month index `mp` of a year that starts in March,
/// with February at most 29 days.
spec fn march_month_len(mp: int) -> int {
    if mp == 11 {
        29
    } else if mp == 1 || mp == 3 || mp == 6 || mp == 8 {
        30
    } else {
        31
    }
}

/// Within a year that starts in March: the month index and day of day
/// `doy`, and how they move on to the next day.
#[verifier::rlimit(100)]
proof fn lemma_year_month_step(doy: u32)
    requires
        doy <= 365,
    ensures
        ({
            let mp = (5 * doy + 2) / 153;
            let d = doy - (153 * mp + 2) / 5 + 1;
            let mp1 = (5 * (doy + 1) + 2) / 153;
            let d1 = (doy + 1) - (153 * mp1 + 2) / 5 + 1;
            &&& mp <= 11
            &&& 1 <= d <= march_month_len(mp)
            &&& mp == 11 ==> (d == 29 <==> doy == 365) && (d == 28 <==> doy == 364)
            &&& (mp == 11 <==> doy >= 337)
            &&& doy < 365 ==> (d < march_month_len(mp) && mp1 == mp && d1 == d + 1) || (d
                == march_month_len(mp) && mp1 == mp + 1 && d1 == 1)
        }),
{
    assert({
        let mp = (5 * doy + 2) / 153;
        let d = doy - (153 * mp + 2) / 5 + 1;
        let mp1 = (5 * (doy + 1) + 2) / 153;
        let d1 = (doy + 1) - (153 * mp1 + 2) / 5 + 1;
        let ml = if mp == 11 {
            29int
        } else if mp == 1 || mp == 3 || mp == 6 || mp == 8 {
            30int
        } else {
            31int
        };
        &&& mp <= 11
        &&& 1 <= d <= ml
        &&& mp == 11 ==> (d == 29 <==> doy == 365) && (d == 28 <==> doy == 364)
        &&& (mp == 11 <==> doy >= 337)
        &&& doy < 365 ==> (d < ml && mp1 == mp && d1 == d + 1) || (d == ml && mp1 == mp + 1 && d1
            == 1)
    }) by (bit_vector)
        requires
            doy <= 365,
    ;
}

/// The civil date of day `doe` of era `era`.
spec fn era_civil(era: int, doe: int) -> (int, int, int) {
    let (yoe, m, d) = era_date(doe);
    let y = yoe + era * 400;
    (if m <= 2 {
        y + 1
    } else {
        y
    }, m, d)
}

/// Whole 400-year cycles do not change whether a year is a leap year.
proof fn lemma_leap_shift(x: int, e: int)
    ensures
        is_leap(x + 400 * e) == is_leap(x),
{
    vstd::arithmetic::div_mod::lemma_mod_multiples_vanish(100 * e, x, 4);
    vstd::arithmetic::div_mod::lemma_mod_multiples_vanish(4 * e, x, 100);
    vstd::arithmetic::div_mod::lemma_mod_multiples_vanish(e, x, 400);
    assert(4 * (100 * e) == 400 * e) by (nonlinear_arith);
    assert(100 * (4 * e) == 400 * e) by (nonlinear_arith);
}

/// Within an era, the day after a date is the next date of the calendar.
proof fn lemma_era_step(era: int, doe: int)
    requires
        0 <= doe < 146096,
    ensures
        ({
            let c = era_civil(era, doe);
            &&& 1 <= c.1 <= 12
            &&& 1 <= c.2 <= days_in_month(c.0, c.1)
            &&& era_civil(era, doe + 1) == next_date(c)
        }),
{
    let u = doe as u32;
    lemma_era_year_step(u);
    lemma_civil_year(doe);
    let yoe = (doe - doe / 1460 + doe / 36524 - doe / 146096) / 365;
    let doy = doe - (365 * yoe + yoe / 4 - yoe / 100);
    assert(0 <= doy <= 365);
    lemma_year_month_step(doy as u32);
    lemma_leap_shift(yoe + 1, era);
    let mp = (5 * doy + 2) / 153;
    let d = doy - (153 * mp + 2) / 5 + 1;
    let e1 = doe + 1;
    let yoe1 = (e1 - e1 / 1460 + e1 / 36524 - e1 / 146096) / 365;
    let doy1 = e1 - (365 * yoe1 + yoe1 / 4 - yoe1 / 100);
    if yoe1 == yoe + 1 {
        assert(doy1 == 0);
        assert(era_date(doe + 1) == (yoe + 1, 3int, 1int));
    }
}

/// The last day of an era is a leap day, and the next era starts on
/// March 1st of the same year.
proof fn lemma_era_wrap(era: int)
    ensures
        era_civil(era, 146096) == (400 * era + 400, 2int, 29int),
        era_civil(era + 1, 0) == (400 * era + 400, 3int, 1int),
        is_leap(400 * era + 400),
{
    assert(era_date(146096) == (399int, 2int, 29int));
    assert(era_date(0) == (0int, 3int, 1int));
    lemma_leap_shift(0, era + 1);
    assert(400 * (era + 1) == 400 * era + 400) by (nonlinear_arith);
    assert((era + 1) * 400 == 400 * era + 400) by (nonlinear_arith);
    assert(era * 400 == 400 * era) by (nonlinear_arith);
}

/// The calendar moves one day at a time: every date is a real day of its
/// month, and the next day's date is the date after it (the next day of
/// the month, the first of the next month, or New Year's Day).
pub proof fn law_next_day(n: int)
    ensures
        1 <= civil_from_days(n).1 <= 12,
        1 <= civil_from_days(n).2 <= days_in_month(civil_from_days(n).0, civil_from_days(n).1),
        civil_from_days(n + 1) == next_date(civil_from_days(n)),
{
    let z = n + 719468;
    let era = z / 146097;
    let doe = z % 146097;
    assert(civil_from_days(n) == era_civil(era, doe));
    if doe < 146096 {
        assert((z + 1) / 146097 == era && (z + 1) % 146097 == doe + 1);
        assert(civil_from_days(n + 1) == era_civil(era, doe + 1));
        lemma_era_step(era, doe);
    } else {
        assert((z + 1) / 146097 == era + 1 && (z + 1) % 146097 == 0);
        assert(civil_from_days(n + 1) == era_civil(era + 1, 0));
        lemma_era_wrap(era);
    }
}

fn era_day_date(doe: u64) -> (r: (u64, u64, u64))
    requires
        doe < 146097,
    ensures
        (r.0 as int, r.1 as int, r.2 as int) == era_date(doe as int),
        r.0 <= 399,
        1 <= r.1 <= 12,
        1 <= r.2 <= 31,
{
    proof {
        lemma_civil_year(doe as int);
        lemma_era_date(doe as int);
    }
    let yoe = (doe - doe / 1460 + doe / 36524 - doe / 146096) / 365;
    let doy = doe - (365 * yoe + yoe / 4 - yoe / 100);
    let mp = (5 * doy + 2) / 153;
    let d = doy - (153 * mp + 2) / 5 + 1;
    let m = if mp < 10 {
        mp + 3
    } else {
        mp - 9
    };
    (yoe, m, d)
}

/// Year, month and day of `days_since_epoch` days after 1970-01-01.
pub fn days_to_ymd(days_since_epoch: u64) -> (r: (u64, u64, u64))
    requires
        days_since_epoch + 719468 <= u64::MAX,
    ensures
        (r.0 as int, r.1 as int, r.2 as int) == civil_from_days(days_since_epoch as int),
        1 <= r.1 <= 12,
        1 <= r.2 <= 31,
        r.2 <= days_in_month(r.0 as int, r.1 as int),
{
    proof {
        law_next_day(days_since_epoch as int);
    }
    let z = days_since_epoch + 719468;
    let era = z / 146097;
    let doe = z - era * 146097;
    let (yoe, m, d) = era_day_date(doe);
    let y = yoe + era * 400;
    let y = if m <= 2 {
        y + 1
    } else {
        y
    };
    (y, m, d)
}

/// A signed number padded like `{:0w}`: a minus sign, then zeros, within
/// the width.
pub open spec fn signed_padded(v: int, width: nat) -> Seq<char> {
    if v < 0 {
        seq!['-'] + zero_padded((-v) as nat, if width > 0 {
            (width - 1) as nat
        } else {
            0
        })
    } else {
        zero_padded(v as nat, width)
    }
}

/// A compact UTC timestamp, `YYYYMMDDTHHMMSS`, of `secs` seconds after
/// the epoch read as a signed number.
pub open spec fn utc_label(secs: u64) -> Seq<char> {
    let s = (secs as i64) as int;
    let days = s / 86400;
    let time = s % 86400;
    let (y, m, d) = civil_from_days(days);
    signed_padded(y, 4) + zero_padded(m as nat, 2) + zero_padded(d as nat, 2) + seq!['T']
        + zero_padded((time / 3600) as nat, 2) + zero_padded(((time % 3600) / 60) as nat, 2)
        + zero_padded((time % 60) as nat, 2)
}

fn push_signed_padded(s: &mut String, v: i64, width: usize)
    ensures
        final(s)@ == old(s)@ + signed_padded(v as int, width as nat),
{
    if v < 0 {
        let ghost s0 = s@;
        proof {
            reveal_strlit("-");
        }
        s.append("-");
        let mag: u64 = if v == i64::MIN {
            0x8000_0000_0000_0000
        } else {
            (-v) as u64
        };
        let w = if width > 0 {
            width - 1
        } else {
            0
        };
        push_padded(s, mag, w);
        assert(s@ =~= s0 + signed_padded(v as int, width as nat));
    } else {
        push_padded(s, v as u64, width);
    }
}

fn div_euclid(a: i64, b: i64) -> (q: i64)
    requires
        b > 0,
    ensures
        q == a / b,
{
    assert(i64::MIN <= a / b <= i64::MAX) by (nonlinear_arith)
        requires
            b > 0,
            i64::MIN <= a <= i64::MAX,
    ;
    match a.checked_div_euclid(b) {
        Some(q) => q,
        None => 0,
    }
}

fn rem_euclid(a: i64, b: i64) -> (r: i64)
    requires
        b > 0,
    ensures
        r == a % b,
        0 <= r < b,
{
    match a.checked_rem_euclid(b) {
        Some(r) => r,
        None => 0,
    }
}

/// Convert unix timestamp to "20260305T200748" (compact ISO-ish).
pub fn fmt_utc(secs: u64) -> (out: String)
    ensures
        out@ == utc_label(secs),
{
    let s = secs as i64;
    let days = div_euclid(s, 86400);
    let time = rem_euclid(s, 86400);
    let h = time / 3600;
    let m = (time % 3600) / 60;
    let sec = time % 60;
    let z = days + 719468;
    let era = div_euclid(z, 146097);
    let doe = rem_euclid(z, 146097);
    let (yoe, mo, d) = era_day_date(doe as u64);
    let y = yoe as i64 + era * 400;
    let yr = if mo <= 2 {
        y + 1
    } else {
        y
    };
    let mut out = String::new();
    push_signed_padded(&mut out, yr, 4);
    push_padded(&mut out, mo, 2);
    push_padded(&mut out, d, 2);
    proof {
        reveal_strlit("T");
    }
    out.append("T");
    push_padded(&mut out, h as u64, 2);
    push_padded(&mut out, m as u64, 2);
    push_padded(&mut out, sec as u64, 2);
    assert(out@ =~= utc_label(secs));
    out
}


/// The compact UTC timestamp `YYYYMMDDTHHMMSS` of `now` seconds after the
/// epoch.
pub open spec fn stamp_label(now: u64) -> Seq<char> {
    let (y, m, d) = civil_from_days((now / 86400) as int);
    zero_padded(y as nat, 4) + zero_padded(m as nat, 2) + zero_padded(d as nat, 2) + seq!['T']
        + zero_padded(((now / 3600) % 24) as nat, 2) + zero_padded(((now / 60) % 60) as nat, 2)
        + zero_padded((now % 60) as nat, 2)
}

pub fn fmt_utc_timestamp_at(now: u64) -> (out: String)
    ensures
        out@ == stamp_label(now),
{
    let secs = now % 60;
    let mins = (now / 60) % 60;
    let hours = (now / 3600) % 24;
    let days = now / 86400;
    let (y, m, d) = days_to_ymd(days);
    let mut out = String::new();
    push_padded(&mut out, y, 4);
    push_padded(&mut out, m, 2);
    push_padded(&mut out, d, 2);
    proof {
        reveal_strlit("T");
    }
    out.append("T");
    push_padded(&mut out, hours, 2);
    push_padded(&mut out, mins, 2);
    push_padded(&mut out, secs, 2);
    assert(out@ =~= stamp_label(now));
    out
}

} // verus!
