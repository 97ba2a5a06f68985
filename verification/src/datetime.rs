//! The legacy fixed-point date/time encoding and its decoder.
//!
//! A raw value counts whole days since 1900-01-01 (possibly negative)
//! plus fragments of 1/300 second within that day.  Decoding turns it
//! into a civil UTC timestamp with nanosecond precision, and rendering
//! prints that timestamp in ISO-8601 form.

use vstd::arithmetic::div_mod::{
    lemma_div_is_ordered, lemma_div_multiples_vanish, lemma_fundamental_div_mod,
    lemma_fundamental_div_mod_converse, lemma_mod_mod, lemma_mod_multiples_vanish,
    lemma_multiply_divide_lt,
};
use vstd::prelude::*;

verus! {

/// One day's worth of 1/300-second fragments.
pub const FRAGMENTS_PER_DAY: u32 = 25_920_000;

/// The raw legacy encoding: whole days since 1900-01-01 plus fragments
/// of 1/300 second within the day.
#[derive(Clone, Copy, PartialEq, Eq, Structural)]
pub struct LegacyDateTime {
    pub days: i32,
    pub fragments: u32,
}

/// A raw value as the wire ever produces it: the fragment count stays
/// below one day's worth.
pub open spec fn legacy_wf(dt: LegacyDateTime) -> bool {
    dt.fragments < FRAGMENTS_PER_DAY
}

/// A calendar timestamp, implicitly UTC.
#[derive(Clone, Copy, PartialEq, Eq, Structural)]
pub struct CivilDateTime {
    pub year: i64,
    pub month: u8,
    pub day: u8,
    pub hour: u8,
    pub minute: u8,
    pub second: u8,
    pub nanos: u32,
}

pub open spec fn is_leap_year(y: int) -> bool {
    y % 4 == 0 && (y % 100 != 0 || y % 400 == 0)
}

pub open spec fn days_in_year(y: int) -> int {
    if is_leap_year(y) {
        366
    } else {
        365
    }
}

pub open spec fn days_in_month(y: int, m: int) -> int {
    if m == 2 {
        if is_leap_year(y) {
            29
        } else {
            28
        }
    } else if m == 4 || m == 6 || m == 9 || m == 11 {
        30
    } else {
        31
    }
}

/// Days from the first of the year to the first of month `m`.
pub open spec fn days_before_month(y: int, m: int) -> int
    decreases m,
{
    if m <= 1 {
        0
    } else {
        days_before_month(y, m - 1) + days_in_month(y, m - 1)
    }
}

/// Days from 1900-01-01 to the first of year `y`; negative for earlier
/// years.
pub open spec fn year_offset(y: int) -> int
    decreases (if y >= 1900 { y - 1900 } else { 1900 - y }),
{
    if y == 1900 {
        0
    } else if y > 1900 {
        year_offset(y - 1) + days_in_year(y - 1)
    } else {
        year_offset(y + 1) - days_in_year(y)
    }
}

/// The day offset of a civil date from 1900-01-01.
pub open spec fn civil_day_number(y: int, m: int, d: int) -> int {
    year_offset(y) + days_before_month(y, m) + (d - 1)
}

/// A well-formed civil timestamp: a real calendar date and an in-range
/// time of day.  The year bound reflects the span a 32-bit day offset
/// can ever reach.
pub open spec fn civil_wf(c: CivilDateTime) -> bool {
    &&& -6_000_000 <= c.year <= 6_000_000
    &&& 1 <= c.month <= 12
    &&& 1 <= c.day <= days_in_month(c.year as int, c.month as int)
    &&& c.hour < 24
    &&& c.minute < 60
    &&& c.second < 60
    &&& c.nanos < 1_000_000_000
}

/// Nanoseconds standing for `r` 1/300-second fragments within the
/// current second: `r * 10^9 / 300` rounded to the nearest integer,
/// computed exactly (the quotient never falls halfway).
pub open spec fn fragment_nanos(r: int) -> int {
    (r * 10_000_000 + 1) / 3
}

/// What decoding a raw legacy value must give: the unique well-formed
/// civil timestamp whose day offset and time of day match the encoding.
pub open spec fn decodes_to(dt: LegacyDateTime, c: CivilDateTime) -> bool {
    &&& civil_wf(c)
    &&& civil_day_number(c.year as int, c.month as int, c.day as int) == dt.days as int
    &&& c.hour as int == (dt.fragments as int / 300) / 3600
    &&& c.minute as int == ((dt.fragments as int / 300) % 3600) / 60
    &&& c.second as int == (dt.fragments as int / 300) % 60
    &&& c.nanos as int == fragment_nanos(dt.fragments as int % 300)
}

/// Whether a year is a leap year.  The shift by a positive multiple of
/// 400 keeps the executable remainders non-negative for early years.
fn leap_exec(y: i64) -> (b: bool)
    requires
        -10_000_000 <= y <= 10_000_000,
    ensures
        b == is_leap_year(y as int),
{
    let s: i64 = y + 2_400_000_000;
    proof {
        lemma_mod_multiples_vanish(600_000_000, y as int, 4);
        lemma_mod_multiples_vanish(24_000_000, y as int, 100);
        lemma_mod_multiples_vanish(6_000_000, y as int, 400);
    }
    s % 4 == 0 && (s % 100 != 0 || s % 400 == 0)
}

fn days_in_year_exec(y: i64) -> (n: u16)
    requires
        -10_000_000 <= y <= 10_000_000,
    ensures
        n as int == days_in_year(y as int),
{
    if leap_exec(y) {
        366
    } else {
        365
    }
}

fn days_in_month_exec(y: i64, m: u8) -> (n: u8)
    requires
        -10_000_000 <= y <= 10_000_000,
        1 <= m <= 12,
    ensures
        n as int == days_in_month(y as int, m as int),
{
    if m == 2 {
        if leap_exec(y) {
            29
        } else {
            28
        }
    } else if m == 4 || m == 6 || m == 9 || m == 11 {
        30
    } else {
        31
    }
}

/// A year's offset grows by 365 to 366 days per year in both directions.
proof fn lemma_year_offset_growth(y: int)
    ensures
        y >= 1900 ==> 365 * (y - 1900) <= year_offset(y) <= 366 * (y - 1900),
        y <= 1900 ==> 366 * (y - 1900) <= year_offset(y) <= 365 * (y - 1900),
    decreases (if y >= 1900 { y - 1900 } else { 1900 - y }),
{
    if y > 1900 {
        lemma_year_offset_growth(y - 1);
    } else if y < 1900 {
        lemma_year_offset_growth(y + 1);
    }
}

/// The months of a year exactly exhaust it.
proof fn lemma_days_before_month_full(y: int)
    ensures
        days_before_month(y, 13) == days_in_year(y),
{
    reveal_with_fuel(days_before_month, 14);
}

/// The civil date standing `days` days after 1900-01-01 (before it for
/// a negative offset).
pub fn civil_from_days(days: i32) -> (r: (i64, u8, u8))
    ensures
        -6_000_000 <= r.0 <= 6_000_000,
        1 <= r.1 <= 12,
        1 <= r.2 as int <= days_in_month(r.0 as int, r.1 as int),
        civil_day_number(r.0 as int, r.1 as int, r.2 as int) == days as int,
{
    let mut y: i64 = 1900;
    let mut rem: i64 = days as i64;
    while rem < 0
        invariant
            year_offset(y as int) + rem as int == days as int,
            -6_000_000 <= y <= 1900,
            i32::MIN <= days as int <= i32::MAX,
        decreases (if rem < 0 {
            -(rem as int)
        } else {
            0
        }),
    {
        proof {
            lemma_year_offset_growth(y as int);
            lemma_year_offset_growth(y as int - 1);
            assert(year_offset(y as int - 1) == year_offset(y as int) - days_in_year(
                y as int - 1,
            ));
        }
        y = y - 1;
        let n = days_in_year_exec(y);
        rem = rem + n as i64;
    }
    let mut n = days_in_year_exec(y);
    while rem >= n as i64
        invariant
            year_offset(y as int) + rem as int == days as int,
            0 <= rem,
            n as int == days_in_year(y as int),
            -6_000_000 <= y <= 6_000_000,
            i32::MIN <= days as int <= i32::MAX,
        decreases rem as int,
    {
        proof {
            lemma_year_offset_growth(y as int);
            lemma_year_offset_growth(y as int + 1);
            assert(year_offset(y as int + 1) == year_offset(y as int) + days_in_year(y as int));
        }
        rem = rem - n as i64;
        y = y + 1;
        n = days_in_year_exec(y);
    }
    let mut m: u8 = 1;
    let mut md = days_in_month_exec(y, m);
    while rem >= md as i64
        invariant
            1 <= m <= 12,
            0 <= rem,
            md as int == days_in_month(y as int, m as int),
            rem as int + days_before_month(y as int, m as int) < days_in_year(y as int),
            year_offset(y as int) + days_before_month(y as int, m as int) + rem as int == days
                as int,
            -6_000_000 <= y <= 6_000_000,
        decreases 12 - m as int,
    {
        proof {
            if m as int == 12 {
                lemma_days_before_month_full(y as int);
                assert(false);
            }
        }
        rem = rem - md as i64;
        m = m + 1;
        md = days_in_month_exec(y, m);
    }
    let d: u8 = (rem + 1) as u8;
    (y, m, d)
}

/// Decode a raw legacy value into its civil timestamp.
pub fn decode(dt: &LegacyDateTime) -> (c: CivilDateTime)
    requires
        legacy_wf(*dt),
    ensures
        decodes_to(*dt, c),
{
    let (year, month, day) = civil_from_days(dt.days);
    let whole: u32 = dt.fragments / 300;
    let r: u32 = dt.fragments % 300;
    let hour: u8 = (whole / 3600) as u8;
    let minute: u8 = ((whole % 3600) / 60) as u8;
    let second: u8 = (whole % 60) as u8;
    let nanos: u32 = (((r as u64) * 10_000_000 + 1) / 3) as u32;
    proof {
        lemma_mod_mod(whole as int, 60, 60);
        assert(whole as int % (60int * 60int) == whole as int % 3600);
    }
    CivilDateTime { year, month, day, hour, minute, second, nanos }
}

pub open spec fn digit_char(d: int) -> char {
    if d == 0 {
        '0'
    } else if d == 1 {
        '1'
    } else if d == 2 {
        '2'
    } else if d == 3 {
        '3'
    } else if d == 4 {
        '4'
    } else if d == 5 {
        '5'
    } else if d == 6 {
        '6'
    } else if d == 7 {
        '7'
    } else if d == 8 {
        '8'
    } else {
        '9'
    }
}

/// The decimal digits of `n`, most significant first, no leading zeros.
pub open spec fn dec_seq(n: nat) -> Seq<char>
    decreases n,
{
    if n < 10 {
        seq![digit_char(n as int)]
    } else {
        dec_seq(n / 10) + seq![digit_char((n % 10) as int)]
    }
}

pub open spec fn zeros(k: nat) -> Seq<char> {
    Seq::new(k, |i: int| '0')
}

/// The decimal digits of `n` left-padded with zeros to at least `w`
/// places.
pub open spec fn pad_seq(n: nat, w: nat) -> Seq<char> {
    if dec_seq(n).len() >= w {
        dec_seq(n)
    } else {
        zeros((w - dec_seq(n).len()) as nat) + dec_seq(n)
    }
}

pub open spec fn pow10(k: nat) -> nat
    decreases k,
{
    if k == 0 {
        1
    } else {
        10 * pow10((k - 1) as nat)
    }
}

/// Fractional-second digits: the nanosecond count padded to `w` places,
/// with trailing zeros dropped.
pub open spec fn frac_seq(n: nat, w: nat) -> Seq<char>
    decreases w,
{
    if w > 1 && n % 10 == 0 {
        frac_seq(n / 10, (w - 1) as nat)
    } else {
        pad_seq(n, w)
    }
}

/// The ISO-8601 UTC rendering of a civil timestamp: date, `T`, time,
/// the fractional seconds only when they are not zero, and a `Z`.
pub open spec fn iso_seq(c: CivilDateTime) -> Seq<char> {
    (if c.year < 0 {
        "-"@ + pad_seq((-(c.year as int)) as nat, 4)
    } else {
        pad_seq(c.year as nat, 4)
    }) + "-"@ + pad_seq(c.month as nat, 2) + "-"@ + pad_seq(c.day as nat, 2) + "T"@ + pad_seq(
        c.hour as nat,
        2,
    ) + ":"@ + pad_seq(c.minute as nat, 2) + ":"@ + pad_seq(c.second as nat, 2) + (if c.nanos == 0 {
        Seq::<char>::empty()
    } else {
        "."@ + frac_seq(c.nanos as nat, 9)
    }) + "Z"@
}

proof fn lemma_pow10_pos(k: nat)
    ensures
        pow10(k) >= 1,
    decreases k,
{
    if k > 0 {
        lemma_pow10_pos((k - 1) as nat);
    }
}

/// A number below `10^k` has at most `k` decimal digits.
proof fn lemma_dec_len_upper(n: nat, k: nat)
    requires
        1 <= k,
        n < pow10(k),
    ensures
        dec_seq(n).len() <= k,
    decreases k,
{
    if n >= 10 {
        assert(pow10(k) == 10 * pow10((k - 1) as nat));
        if k == 1 {
            assert(pow10(0nat) == 1);
            assert(false);
        }
        lemma_multiply_divide_lt(n as int, 10, pow10((k - 1) as nat) as int);
        lemma_dec_len_upper(n / 10, (k - 1) as nat);
    }
}

/// A number of at least `10^k` has more than `k` decimal digits.
proof fn lemma_dec_len_lower(n: nat, k: nat)
    requires
        pow10(k) <= n,
    ensures
        dec_seq(n).len() >= k + 1,
    decreases k,
{
    if k > 0 {
        assert(pow10(k) == 10 * pow10((k - 1) as nat));
        lemma_pow10_pos((k - 1) as nat);
        lemma_div_is_ordered(pow10(k) as int, n as int, 10);
        lemma_div_multiples_vanish(pow10((k - 1) as nat) as int, 10);
        lemma_dec_len_lower(n / 10, (k - 1) as nat);
    }
}

fn digit_str(d: u64) -> (r: &'static str)
    requires
        d < 10,
    ensures
        r@ == seq![digit_char(d as int)],
{
    proof {
        reveal_strlit("0");
        reveal_strlit("1");
        reveal_strlit("2");
        reveal_strlit("3");
        reveal_strlit("4");
        reveal_strlit("5");
        reveal_strlit("6");
        reveal_strlit("7");
        reveal_strlit("8");
        reveal_strlit("9");
    }
    let r: &'static str = if d == 0 {
        "0"
    } else if d == 1 {
        "1"
    } else if d == 2 {
        "2"
    } else if d == 3 {
        "3"
    } else if d == 4 {
        "4"
    } else if d == 5 {
        "5"
    } else if d == 6 {
        "6"
    } else if d == 7 {
        "7"
    } else if d == 8 {
        "8"
    } else {
        "9"
    };
    proof {
        assert(r@ =~= seq![digit_char(d as int)]);
    }
    r
}

/// Append the decimal digits of `n`, most significant first.
fn push_dec(s: &mut String, n: u64)
    ensures
        final(s)@ == old(s)@ + dec_seq(n as nat),
    decreases n,
{
    if n >= 10 {
        push_dec(s, n / 10);
        s.append(digit_str(n % 10));
        proof {
            assert(s@ =~= old(s)@ + dec_seq(n as nat));
        }
    } else {
        s.append(digit_str(n));
        proof {
            assert(s@ =~= old(s)@ + dec_seq(n as nat));
        }
    }
}

/// Append `n` as exactly two digits.
fn push_pad2(s: &mut String, n: u64)
    requires
        n < 100,
    ensures
        final(s)@ == old(s)@ + pad_seq(n as nat, 2),
{
    if n < 10 {
        s.append("0");
    }
    push_dec(s, n);
    proof {
        if n < 10 {
            reveal_strlit("0");
            assert("0"@ =~= zeros(1));
            assert(s@ =~= old(s)@ + pad_seq(n as nat, 2));
        } else {
            assert(dec_seq((n as nat) / 10).len() == 1);
            assert(s@ =~= old(s)@ + pad_seq(n as nat, 2));
        }
    }
}

/// Append `n` as at least four digits.
fn push_pad4(s: &mut String, n: u64)
    requires
        n < 10_000_000,
    ensures
        final(s)@ == old(s)@ + pad_seq(n as nat, 4),
{
    if n < 10 {
        s.append("000");
    } else if n < 100 {
        s.append("00");
    } else if n < 1000 {
        s.append("0");
    }
    push_dec(s, n);
    proof {
        reveal_with_fuel(pow10, 5);
        reveal_strlit("0");
        reveal_strlit("00");
        reveal_strlit("000");
        if n < 10 {
            assert("000"@ =~= zeros(3));
            assert(s@ =~= old(s)@ + pad_seq(n as nat, 4));
        } else if n < 100 {
            lemma_dec_len_upper(n as nat, 2);
            lemma_dec_len_lower(n as nat, 1);
            assert("00"@ =~= zeros(2));
            assert(s@ =~= old(s)@ + pad_seq(n as nat, 4));
        } else if n < 1000 {
            lemma_dec_len_upper(n as nat, 3);
            lemma_dec_len_lower(n as nat, 2);
            assert("0"@ =~= zeros(1));
            assert(s@ =~= old(s)@ + pad_seq(n as nat, 4));
        } else {
            lemma_dec_len_lower(n as nat, 3);
            assert(s@ =~= old(s)@ + pad_seq(n as nat, 4));
        }
    }
}

fn append_zeros(s: &mut String, k: u64)
    requires
        k <= 8,
    ensures
        final(s)@ == old(s)@ + zeros(k as nat),
{
    proof {
        reveal_strlit("");
        reveal_strlit("0");
        reveal_strlit("00");
        reveal_strlit("000");
        reveal_strlit("0000");
        reveal_strlit("00000");
        reveal_strlit("000000");
        reveal_strlit("0000000");
        reveal_strlit("00000000");
    }
    if k == 0 {
        s.append("");
    } else if k == 1 {
        s.append("0");
    } else if k == 2 {
        s.append("00");
    } else if k == 3 {
        s.append("000");
    } else if k == 4 {
        s.append("0000");
    } else if k == 5 {
        s.append("00000");
    } else if k == 6 {
        s.append("000000");
    } else if k == 7 {
        s.append("0000000");
    } else {
        s.append("00000000");
    }
    proof {
        assert(s@ =~= old(s)@ + zeros(k as nat));
    }
}

/// How many decimal digits a number below one billion has.
fn dec_len9(v: u64) -> (len: u64)
    requires
        v < 1_000_000_000,
    ensures
        len as nat == dec_seq(v as nat).len(),
        1 <= len <= 9,
{
    if v < 10 {
        1
    } else if v < 100 {
        proof {
            reveal_with_fuel(pow10, 10);
            lemma_dec_len_lower(v as nat, 1);
            lemma_dec_len_upper(v as nat, 2);
        }
        2
    } else if v < 1000 {
        proof {
            reveal_with_fuel(pow10, 10);
            lemma_dec_len_lower(v as nat, 2);
            lemma_dec_len_upper(v as nat, 3);
        }
        3
    } else if v < 10_000 {
        proof {
            reveal_with_fuel(pow10, 10);
            lemma_dec_len_lower(v as nat, 3);
            lemma_dec_len_upper(v as nat, 4);
        }
        4
    } else if v < 100_000 {
        proof {
            reveal_with_fuel(pow10, 10);
            lemma_dec_len_lower(v as nat, 4);
            lemma_dec_len_upper(v as nat, 5);
        }
        5
    } else if v < 1_000_000 {
        proof {
            reveal_with_fuel(pow10, 10);
            lemma_dec_len_lower(v as nat, 5);
            lemma_dec_len_upper(v as nat, 6);
        }
        6
    } else if v < 10_000_000 {
        proof {
            reveal_with_fuel(pow10, 10);
            lemma_dec_len_lower(v as nat, 6);
            lemma_dec_len_upper(v as nat, 7);
        }
        7
    } else if v < 100_000_000 {
        proof {
            reveal_with_fuel(pow10, 10);
            lemma_dec_len_lower(v as nat, 7);
            lemma_dec_len_upper(v as nat, 8);
        }
        8
    } else {
        proof {
            reveal_with_fuel(pow10, 10);
            lemma_dec_len_lower(v as nat, 8);
            lemma_dec_len_upper(v as nat, 9);
        }
        9
    }
}

/// Append `v` left-padded with zeros to exactly `w` places.
fn push_pad_frac(s: &mut String, v: u64, w: u64)
    requires
        1 <= w <= 9,
        v < 1_000_000_000,
        (v as nat) < pow10(w as nat),
    ensures
        final(s)@ == old(s)@ + pad_seq(v as nat, w as nat),
{
    let len = dec_len9(v);
    proof {
        lemma_dec_len_upper(v as nat, w as nat);
    }
    append_zeros(s, w - len);
    push_dec(s, v);
    proof {
        assert(s@ =~= old(s)@ + pad_seq(v as nat, w as nat));
    }
}

/// Render a civil timestamp in ISO-8601 UTC form.
pub fn render_civil(c: &CivilDateTime) -> (s: String)
    requires
        civil_wf(*c),
    ensures
        s@ == iso_seq(*c),
{
    let mut s = String::new();
    if c.year < 0 {
        s.append("-");
        push_pad4(&mut s, (-(c.year)) as u64);
    } else {
        push_pad4(&mut s, c.year as u64);
    }
    s.append("-");
    push_pad2(&mut s, c.month as u64);
    s.append("-");
    push_pad2(&mut s, c.day as u64);
    s.append("T");
    push_pad2(&mut s, c.hour as u64);
    s.append(":");
    push_pad2(&mut s, c.minute as u64);
    s.append(":");
    push_pad2(&mut s, c.second as u64);
    if c.nanos > 0 {
        s.append(".");
        let mut v: u64 = c.nanos as u64;
        let mut w: u64 = 9;
        proof {
            reveal_with_fuel(pow10, 10);
        }
        while v % 10 == 0
            invariant
                1 <= w <= 9,
                0 < v,
                (v as nat) < pow10(w as nat),
                frac_seq(c.nanos as nat, 9) == frac_seq(v as nat, w as nat),
            decreases v,
        {
            proof {
                if w == 1 {
                    reveal_with_fuel(pow10, 2);
                    assert(false);
                }
                assert(pow10(w as nat) == 10 * pow10((w - 1) as nat));
                lemma_multiply_divide_lt(v as int, 10, pow10((w - 1) as nat) as int);
            }
            v = v / 10;
            w = w - 1;
        }
        push_pad_frac(&mut s, v, w);
    }
    s.append("Z");
    proof {
        assert(s@ =~= iso_seq(*c));
    }
    s
}

/// Stepping one year forward adds exactly that year's length.
proof fn lemma_year_offset_step(y: int)
    ensures
        year_offset(y + 1) == year_offset(y) + days_in_year(y),
{
    if y >= 1900 {
        assert(year_offset(y + 1) == year_offset(y) + days_in_year(y));
    } else {
        assert(year_offset(y) == year_offset(y + 1) - days_in_year(y));
    }
}

/// Year offsets are monotone.
proof fn lemma_year_offset_le(y1: int, y2: int)
    requires
        y1 <= y2,
    ensures
        year_offset(y1) <= year_offset(y2),
    decreases y2 - y1,
{
    if y1 < y2 {
        lemma_year_offset_le(y1, y2 - 1);
        lemma_year_offset_step(y2 - 1);
    }
}

/// Month prefixes are monotone within a year.
proof fn lemma_days_before_month_le(y: int, m1: int, m2: int)
    requires
        m1 <= m2,
    ensures
        days_before_month(y, m1) <= days_before_month(y, m2),
    decreases m2 - m1,
{
    if m1 < m2 {
        lemma_days_before_month_le(y, m1, m2 - 1);
    }
}

/// A date inside a year never reaches the next year's offset.
proof fn lemma_day_number_within_year(y: int, m: int, d: int)
    requires
        1 <= m <= 12,
        1 <= d <= days_in_month(y, m),
    ensures
        year_offset(y) <= civil_day_number(y, m, d) < year_offset(y + 1),
{
    lemma_days_before_month_le(y, 1, m);
    lemma_days_before_month_le(y, m + 1, 13);
    lemma_days_before_month_full(y);
    lemma_year_offset_step(y);
}

/// Two well-formed civil timestamps that decode the same raw value are
/// the same timestamp: the decoder's contract pins its result.
pub proof fn lemma_decode_unique(dt: LegacyDateTime, c1: CivilDateTime, c2: CivilDateTime)
    requires
        decodes_to(dt, c1),
        decodes_to(dt, c2),
    ensures
        c1 == c2,
{
    let n = dt.days as int;
    lemma_day_number_within_year(c1.year as int, c1.month as int, c1.day as int);
    lemma_day_number_within_year(c2.year as int, c2.month as int, c2.day as int);
    if c1.year < c2.year {
        lemma_year_offset_le(c1.year as int + 1, c2.year as int);
        assert(false);
    }
    if c2.year < c1.year {
        lemma_year_offset_le(c2.year as int + 1, c1.year as int);
        assert(false);
    }
    let y = c1.year as int;
    if c1.month < c2.month {
        lemma_days_before_month_le(y, c1.month as int + 1, c2.month as int);
        assert(false);
    }
    if c2.month < c1.month {
        lemma_days_before_month_le(y, c2.month as int + 1, c1.month as int);
        assert(false);
    }
}

/// The fragment count that re-encoding a decoded timestamp gives back:
/// seconds since midnight times 300, plus the fragments of the
/// nanosecond part rounded to the nearest whole fragment
/// (`round(nanos * 300 / 10^9)`).
pub open spec fn reencode_fragments(c: CivilDateTime) -> int {
    (c.hour as int * 3600 + c.minute as int * 60 + c.second as int) * 300 + (c.nanos as int * 6
        + 10_000_000) / 20_000_000
}

/// Round trip of the date/time decoding: re-encoding a decoded
/// timestamp — day offset from the calendar date, fragments from the
/// time of day rounded to the nearest 1/300 second — recovers the raw
/// day offset and the exact raw fragment count.
pub proof fn lemma_datetime_round_trip(dt: LegacyDateTime, c: CivilDateTime)
    requires
        dt.days >= 0,
        legacy_wf(dt),
        decodes_to(dt, c),
    ensures
        civil_day_number(c.year as int, c.month as int, c.day as int) == dt.days as int,
        reencode_fragments(c) == dt.fragments as int,
{
    let f = dt.fragments as int;
    let whole = f / 300;
    let r = f % 300;
    let nanos = c.nanos as int;
    // The time of day sums back to the whole seconds within the day.
    lemma_fundamental_div_mod(whole, 3600);
    lemma_mod_mod(whole, 60, 60);
    assert(whole % (60int * 60int) == whole % 3600);
    lemma_fundamental_div_mod(whole % 3600, 60);
    assert(c.hour as int * 3600 + c.minute as int * 60 + c.second as int == whole);
    // The whole seconds and the fragment remainder rebuild the count.
    lemma_fundamental_div_mod(f, 300);
    // The nanosecond rounding inverts exactly; split on the remainder
    // of the fragment part modulo three.
    let q = r / 3;
    let t = r % 3;
    lemma_fundamental_div_mod(r, 3);
    if t == 0 {
        lemma_fundamental_div_mod_converse(r * 10_000_000 + 1, 3, 10_000_000 * q, 1);
        assert(nanos == 10_000_000 * q);
        lemma_fundamental_div_mod_converse(nanos * 6 + 10_000_000, 20_000_000, r, 10_000_000);
    } else if t == 1 {
        lemma_fundamental_div_mod_converse(r * 10_000_000 + 1, 3, 10_000_000 * q + 3_333_333, 2);
        assert(nanos == 10_000_000 * q + 3_333_333);
        lemma_fundamental_div_mod_converse(nanos * 6 + 10_000_000, 20_000_000, r, 9_999_998);
    } else {
        lemma_fundamental_div_mod_converse(r * 10_000_000 + 1, 3, 10_000_000 * q + 6_666_667, 0);
        assert(nanos == 10_000_000 * q + 6_666_667);
        lemma_fundamental_div_mod_converse(nanos * 6 + 10_000_000, 20_000_000, r, 10_000_002);
    }
    assert(reencode_fragments(c) == whole * 300 + r);
}

/// Decode a raw legacy value and render it: the single ISO-8601 string
/// the projection writes into the document for a date/time column.
pub fn render_legacy(dt: &LegacyDateTime) -> (s: String)
    requires
        legacy_wf(*dt),
    ensures
        exists|c: CivilDateTime| decodes_to(*dt, c) && s@ == iso_seq(c),
{
    let c = decode(dt);
    render_civil(&c)
}

} // verus!
