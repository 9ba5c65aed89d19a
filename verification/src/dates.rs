//! Calendar arithmetic and the four registry date grammars, each mapped to
//! seconds since the Unix epoch (UTC).

use vstd::prelude::*;

use crate::text::all_digits;
use crate::text::digits_val;
use crate::text::find_char;
use crate::text::find_space;
use crate::text::leading_spaces;

verus! {

/// Gregorian leap year.
pub open spec fn is_leap_year(y: int) -> bool {
    y % 4 == 0 && (y % 100 != 0 || y % 400 == 0)
}

/// Length of month `m` of year `y`.
pub open spec fn days_in_month(y: int, m: int) -> int
    recommends
        1 <= m <= 12,
{
    if m == 2 {
        if is_leap_year(y) {
            29
        } else {
            28
        }
    } else if m == 4 || m == 6 || m == 9 || m == 11 {
        30
    } else {
        31
    }
}

/// A calendar date the parser accepts: four-digit era years only.
pub open spec fn valid_ymd(y: int, m: int, d: int) -> bool {
    1 <= y <= 9999 && 1 <= m <= 12 && 1 <= d <= days_in_month(y, m)
}

/// A wall-clock time of day.
pub open spec fn valid_hms(h: int, mi: int, s: int) -> bool {
    0 <= h <= 23 && 0 <= mi <= 59 && 0 <= s <= 59
}

/// Days from 1970-01-01 to the given date in the proleptic Gregorian
/// calendar (negative before the epoch), by era decomposition: the year is
/// shifted so it starts in March, making the leap day the last day of the
/// shifted year.
pub open spec fn days_from_epoch(y: int, m: int, d: int) -> int
    recommends
        valid_ymd(y, m, d),
{
    let yy = if m > 2 {
        y
    } else {
        y - 1
    };
    let mm = if m > 2 {
        m - 3
    } else {
        m + 9
    };
    let doy = (153 * mm + 2) / 5 + d - 1;
    yy * 365 + yy / 4 - yy / 100 + yy / 400 + doy - 719468
}

/// Seconds from the Unix epoch to the given UTC date and time.
pub open spec fn utc_secs(y: int, m: int, d: int, h: int, mi: int, s: int) -> int {
    days_from_epoch(y, m, d) * 86400 + h * 3600 + mi * 60 + s
}

/// Exec counterpart of [`is_leap_year`].
pub fn leap_year(y: u32) -> (r: bool)
    ensures
        r == is_leap_year(y as int),
{
    y % 4 == 0 && (y % 100 != 0 || y % 400 == 0)
}

/// Exec counterpart of [`days_in_month`].
pub fn month_days(y: u32, m: u32) -> (r: u32)
    requires
        1 <= m <= 12,
    ensures
        r == days_in_month(y as int, m as int),
{
    if m == 2 {
        if leap_year(y) {
            29
        } else {
            28
        }
    } else if m == 4 || m == 6 || m == 9 || m == 11 {
        30
    } else {
        31
    }
}

/// Exec counterpart of [`days_from_epoch`].
pub fn epoch_days(y: u32, m: u32, d: u32) -> (r: i64)
    requires
        valid_ymd(y as int, m as int, d as int),
    ensures
        r == days_from_epoch(y as int, m as int, d as int),
        -719468 <= r <= 3000000,
{
    let yy: u64 = if m > 2 {
        y as u64
    } else {
        (y - 1) as u64
    };
    let mm: u64 = if m > 2 {
        (m - 3) as u64
    } else {
        (m + 9) as u64
    };
    let doy: u64 = (153 * mm + 2) / 5 + (d - 1) as u64;
    let days0: u64 = yy * 365 + yy / 4 - yy / 100 + yy / 400 + doy;
    assert(days0 == (yy as int) * 365 + (yy as int) / 4 - (yy as int) / 100 + (yy as int) / 400
        + doy);
    (days0 as i64) - 719468
}

/// Exec counterpart of [`utc_secs`].
pub fn epoch_secs(y: u32, m: u32, d: u32, h: u32, mi: u32, s: u32) -> (r: i64)
    requires
        valid_ymd(y as int, m as int, d as int),
        valid_hms(h as int, mi as int, s as int),
    ensures
        r == utc_secs(y as int, m as int, d as int, h as int, mi as int, s as int),
{
    let days: i64 = epoch_days(y, m, d);
    days * 86400 + (h * 3600 + mi * 60 + s) as i64
}

/// What a day-field, month-name-field and year-field triple denotes:
/// midnight UTC of that date, when the fields are well formed.
pub open spec fn md_ymd_secs(day: Seq<char>, mon: Seq<char>, yr: Seq<char>) -> Option<int> {
    if 1 <= day.len() <= 2 && all_digits(day) && yr.len() == 4
        && all_digits(yr) {
        match month_of(mon) {
            Some(m) => {
                let d = digits_val(day);
                let y = digits_val(yr);
                if valid_ymd(y, m, d) {
                    Some(utc_secs(y, m, d, 0, 0, 0))
                } else {
                    None
                }
            },
            None => None,
        }
    } else {
        None
    }
}

/// The instant a `day-month_name-year` value (`02-January-2025`) denotes:
/// midnight UTC of that date.
pub open spec fn dmy_secs(s: Seq<char>) -> Option<int> {
    let i = find_char(s, '-');
    if i >= s.len() {
        None
    } else {
        let rest = s.subrange(i + 1, s.len() as int);
        let j = find_char(rest, '-');
        if j >= rest.len() {
            None
        } else {
            md_ymd_secs(
                s.subrange(0, i),
                rest.subrange(0, j),
                rest.subrange(j + 1, rest.len() as int),
            )
        }
    }
}

/// The instant a `month_name day year` value (`January 2 2025`) denotes,
/// fields parted by runs of whitespace: midnight UTC of that date.
pub open spec fn mdy_secs(s: Seq<char>) -> Option<int> {
    let i = find_space(s);
    if i >= s.len() {
        None
    } else {
        let r1 = s.subrange(i, s.len() as int);
        let k = leading_spaces(r1);
        let r2 = r1.subrange(k, r1.len() as int);
        let j = find_space(r2);
        if j >= r2.len() {
            None
        } else {
            let r3 = r2.subrange(j, r2.len() as int);
            let k2 = leading_spaces(r3);
            md_ymd_secs(r2.subrange(0, j), s.subrange(0, i), r3.subrange(k2, r3.len() as int))
        }
    }
}

/// The instant a `day.month.year hour:minute:second` value
/// (`02.01.2025 00:00:00`) denotes, read as UTC wall-clock time.
pub open spec fn dmy_hms_secs(s: Seq<char>) -> Option<int> {
    let i = find_char(s, '.');
    if i >= s.len() {
        None
    } else {
        let rest = s.subrange(i + 1, s.len() as int);
        let j = find_char(rest, '.');
        if j >= rest.len() {
            None
        } else {
            let rest2 = rest.subrange(j + 1, rest.len() as int);
            let k = find_space(rest2);
            if k >= rest2.len() {
                None
            } else {
                let r3 = rest2.subrange(k, rest2.len() as int);
                let sp = leading_spaces(r3);
                let time = r3.subrange(sp, r3.len() as int);
                let a = find_char(time, ':');
                if a >= time.len() {
                    None
                } else {
                    let t2 = time.subrange(a + 1, time.len() as int);
                    let b = find_char(t2, ':');
                    if b >= t2.len() {
                        None
                    } else {
                        hms_fields_secs(
                            s.subrange(0, i),
                            rest.subrange(0, j),
                            rest2.subrange(0, k),
                            time.subrange(0, a),
                            t2.subrange(0, b),
                            t2.subrange(b + 1, t2.len() as int),
                        )
                    }
                }
            }
        }
    }
}

/// What six numeric fields of a wall-clock date and time denote.
pub open spec fn hms_fields_secs(
    day: Seq<char>,
    mon: Seq<char>,
    yr: Seq<char>,
    hh: Seq<char>,
    mi: Seq<char>,
    ss: Seq<char>,
) -> Option<int> {
    if 1 <= day.len() <= 2 && all_digits(day) && 1 <= mon.len() <= 2
        && all_digits(mon) && yr.len() == 4 && all_digits(yr) && 1
        <= hh.len() <= 2 && all_digits(hh) && 1 <= mi.len() <= 2
        && all_digits(mi) && 1 <= ss.len() <= 2 && all_digits(ss) {
        let d = digits_val(day);
        let m = digits_val(mon);
        let y = digits_val(yr);
        let h = digits_val(hh);
        let miv = digits_val(mi);
        let sv = digits_val(ss);
        if valid_ymd(y, m, d) && valid_hms(h, miv, sv) {
            Some(utc_secs(y, m, d, h, miv, sv))
        } else {
            None
        }
    } else {
        None
    }
}

/// `a` equals the lowercase letter `b`, ignoring ASCII case.
pub open spec fn ch_eq_ci(a: char, b: char) -> bool {
    a == b || ('A' as u32 <= a as u32 && a as u32 <= 'Z' as u32 && a as u32 + 32 == b as u32)
}

/// `s` equals the lowercase name `name`, ignoring ASCII case.
pub open spec fn match_ci(s: Seq<char>, name: Seq<char>) -> bool {
    s.len() == name.len() && forall|k: int| 0 <= k < s.len() ==> ch_eq_ci(s[k], name[k])
}

/// The full English name of month `m`, lowercase.
pub open spec fn month_name(m: int) -> Seq<char>
    recommends
        1 <= m <= 12,
{
    if m == 1 {
        seq!['j', 'a', 'n', 'u', 'a', 'r', 'y']
    } else if m == 2 {
        seq!['f', 'e', 'b', 'r', 'u', 'a', 'r', 'y']
    } else if m == 3 {
        seq!['m', 'a', 'r', 'c', 'h']
    } else if m == 4 {
        seq!['a', 'p', 'r', 'i', 'l']
    } else if m == 5 {
        seq!['m', 'a', 'y']
    } else if m == 6 {
        seq!['j', 'u', 'n', 'e']
    } else if m == 7 {
        seq!['j', 'u', 'l', 'y']
    } else if m == 8 {
        seq!['a', 'u', 'g', 'u', 's', 't']
    } else if m == 9 {
        seq!['s', 'e', 'p', 't', 'e', 'm', 'b', 'e', 'r']
    } else if m == 10 {
        seq!['o', 'c', 't', 'o', 'b', 'e', 'r']
    } else if m == 11 {
        seq!['n', 'o', 'v', 'e', 'm', 'b', 'e', 'r']
    } else {
        seq!['d', 'e', 'c', 'e', 'm', 'b', 'e', 'r']
    }
}

/// `s` names month `m`: its full name or three-letter form, any ASCII case.
pub open spec fn names_month(s: Seq<char>, m: int) -> bool
    recommends
        1 <= m <= 12,
{
    match_ci(s, month_name(m)) || match_ci(s, month_name(m).take(3))
}

/// The month that `s` names, if any.
pub open spec fn month_of(s: Seq<char>) -> Option<int> {
    if names_month(s, 1) {
        Some(1)
    } else if names_month(s, 2) {
        Some(2)
    } else if names_month(s, 3) {
        Some(3)
    } else if names_month(s, 4) {
        Some(4)
    } else if names_month(s, 5) {
        Some(5)
    } else if names_month(s, 6) {
        Some(6)
    } else if names_month(s, 7) {
        Some(7)
    } else if names_month(s, 8) {
        Some(8)
    } else if names_month(s, 9) {
        Some(9)
    } else if names_month(s, 10) {
        Some(10)
    } else if names_month(s, 11) {
        Some(11)
    } else if names_month(s, 12) {
        Some(12)
    } else {
        None
    }
}

/// Exec test for [`ch_eq_ci`].
fn ch_eq_ci_x(a: char, b: char) -> (r: bool)
    ensures
        r == ch_eq_ci(a, b),
{
    let au: u32 = a as u32;
    a == b || ('A' as u32 <= au && au <= 'Z' as u32 && au + 32 == b as u32)
}

/// Whether `v[from..to]` matches the lowercase pattern `p` ignoring case.
fn range_match_ci(v: &Vec<char>, from: usize, to: usize, p: &str) -> (r: bool)
    requires
        from <= to <= v@.len(),
    ensures
        r == match_ci(v@.subrange(from as int, to as int), p@),
{
    let ghost s = v@.subrange(from as int, to as int);
    let n: usize = p.unicode_len();
    if n != to - from {
        return false;
    }
    let mut k: usize = 0;
    while k < n
        invariant
            0 <= k <= n == p@.len(),
            from + n == to <= v@.len(),
            s == v@.subrange(from as int, to as int),
            forall|t: int| 0 <= t < k ==> ch_eq_ci(s[t], p@[t]),
        decreases n - k,
    {
        if !ch_eq_ci_x(v[from + k], p.get_char(k)) {
            assert(s[k as int] == v@[from + k]);
            return false;
        }
        assert(s[k as int] == v@[from + k]);
        k = k + 1;
    }
    true
}

/// The month named by `v[from..to]`, per [`month_of`].
pub fn month_of_range(v: &Vec<char>, from: usize, to: usize) -> (r: Option<u32>)
    requires
        from <= to <= v@.len(),
    ensures
        match r {
            Some(m) => 1 <= m <= 12 && month_of(v@.subrange(from as int, to as int)) == Some(
                m as int,
            ),
            None => month_of(v@.subrange(from as int, to as int)) is None,
        },
{
    proof {
        reveal_strlit("january");
        reveal_strlit("february");
        reveal_strlit("march");
        reveal_strlit("april");
        reveal_strlit("may");
        reveal_strlit("june");
        reveal_strlit("july");
        reveal_strlit("august");
        reveal_strlit("september");
        reveal_strlit("october");
        reveal_strlit("november");
        reveal_strlit("december");
        reveal_strlit("jan");
        reveal_strlit("feb");
        reveal_strlit("mar");
        reveal_strlit("apr");
        reveal_strlit("jun");
        reveal_strlit("jul");
        reveal_strlit("aug");
        reveal_strlit("sep");
        reveal_strlit("oct");
        reveal_strlit("nov");
        reveal_strlit("dec");
        assert("january"@ =~= month_name(1));
        assert("february"@ =~= month_name(2));
        assert("march"@ =~= month_name(3));
        assert("april"@ =~= month_name(4));
        assert("may"@ =~= month_name(5));
        assert("june"@ =~= month_name(6));
        assert("july"@ =~= month_name(7));
        assert("august"@ =~= month_name(8));
        assert("september"@ =~= month_name(9));
        assert("october"@ =~= month_name(10));
        assert("november"@ =~= month_name(11));
        assert("december"@ =~= month_name(12));
        assert("jan"@ =~= month_name(1).take(3));
        assert("feb"@ =~= month_name(2).take(3));
        assert("mar"@ =~= month_name(3).take(3));
        assert("apr"@ =~= month_name(4).take(3));
        assert("may"@ =~= month_name(5).take(3));
        assert("jun"@ =~= month_name(6).take(3));
        assert("jul"@ =~= month_name(7).take(3));
        assert("aug"@ =~= month_name(8).take(3));
        assert("sep"@ =~= month_name(9).take(3));
        assert("oct"@ =~= month_name(10).take(3));
        assert("nov"@ =~= month_name(11).take(3));
        assert("dec"@ =~= month_name(12).take(3));
    }
    if range_match_ci(v, from, to, "january") || range_match_ci(v, from, to, "jan") {
        Some(1)
    } else if range_match_ci(v, from, to, "february") || range_match_ci(v, from, to, "feb") {
        Some(2)
    } else if range_match_ci(v, from, to, "march") || range_match_ci(v, from, to, "mar") {
        Some(3)
    } else if range_match_ci(v, from, to, "april") || range_match_ci(v, from, to, "apr") {
        Some(4)
    } else if range_match_ci(v, from, to, "may") {
        Some(5)
    } else if range_match_ci(v, from, to, "june") || range_match_ci(v, from, to, "jun") {
        Some(6)
    } else if range_match_ci(v, from, to, "july") || range_match_ci(v, from, to, "jul") {
        Some(7)
    } else if range_match_ci(v, from, to, "august") || range_match_ci(v, from, to, "aug") {
        Some(8)
    } else if range_match_ci(v, from, to, "september") || range_match_ci(v, from, to, "sep") {
        Some(9)
    } else if range_match_ci(v, from, to, "october") || range_match_ci(v, from, to, "oct") {
        Some(10)
    } else if range_match_ci(v, from, to, "november") || range_match_ci(v, from, to, "nov") {
        Some(11)
    } else if range_match_ci(v, from, to, "december") || range_match_ci(v, from, to, "dec") {
        Some(12)
    } else {
        None
    }
}

/// Parses the three fields of a named-month date held in `v`, per
/// [`md_ymd_secs`].
fn finish_md_ymd(
    v: &Vec<char>,
    day_from: usize,
    day_to: usize,
    mon_from: usize,
    mon_to: usize,
    yr_from: usize,
    yr_to: usize,
) -> (r: Option<i64>)
    requires
        day_from <= day_to <= v@.len(),
        mon_from <= mon_to <= v@.len(),
        yr_from <= yr_to <= v@.len(),
    ensures
        ({
            let spec_r = md_ymd_secs(
                v@.subrange(day_from as int, day_to as int),
                v@.subrange(mon_from as int, mon_to as int),
                v@.subrange(yr_from as int, yr_to as int),
            );
            match r {
                Some(t) => spec_r == Some(t as int),
                None => spec_r is None,
            }
        }),
{
    let dl: usize = day_to - day_from;
    if dl < 1 || dl > 2 {
        return None;
    }
    if yr_to - yr_from != 4 {
        return None;
    }
    let d: u32 = match crate::text::parse_digits(v, day_from, day_to) {
        Some(x) => x,
        None => {
            return None;
        },
    };
    let y: u32 = match crate::text::parse_digits(v, yr_from, yr_to) {
        Some(x) => x,
        None => {
            return None;
        },
    };
    let m: u32 = match month_of_range(v, mon_from, mon_to) {
        Some(x) => x,
        None => {
            return None;
        },
    };
    proof {
        assert(ten_pow_is(4, 10000) && ten_pow_is(2, 100)) by {
            reveal_with_fuel(crate::text::ten_pow, 5);
        }
    }
    if y == 0 {
        return None;
    }
    let md: u32 = month_days(y, m);
    if d == 0 || d > md {
        return None;
    }
    Some(epoch_secs(y, m, d, 0, 0, 0))
}

/// `ten_pow(n)` equals `x`; a named shape for fuel-revealed facts.
pub open spec fn ten_pow_is(n: nat, x: int) -> bool {
    crate::text::ten_pow(n) == x
}

/// Parses a `day-month_name-year` value (`02-January-2025`), per
/// [`dmy_secs`].
pub fn parse_dmy(v: &Vec<char>, from: usize, to: usize) -> (r: Option<i64>)
    requires
        from <= to <= v@.len(),
    ensures
        ({
            let spec_r = dmy_secs(v@.subrange(from as int, to as int));
            match r {
                Some(t) => spec_r == Some(t as int),
                None => spec_r is None,
            }
        }),
{
    let ghost s = v@.subrange(from as int, to as int);
    let i: usize = crate::text::range_find(v, from, to, '-');
    if i == to {
        return None;
    }
    let ghost rest = s.subrange((i - from) + 1, s.len() as int);
    proof {
        assert(rest =~= v@.subrange(i + 1, to as int));
    }
    let j: usize = crate::text::range_find(v, i + 1, to, '-');
    if j == to {
        return None;
    }
    proof {
        assert(s.subrange(0, i - from) =~= v@.subrange(from as int, i as int));
        assert(rest.subrange(0, j - (i + 1)) =~= v@.subrange(i + 1, j as int));
        assert(rest.subrange((j - (i + 1)) + 1, rest.len() as int) =~= v@.subrange(
            j + 1,
            to as int,
        ));
    }
    finish_md_ymd(v, from, i, i + 1, j, j + 1, to)
}

/// Parses a `month_name day year` value (`January 2 2025`), per
/// [`mdy_secs`].
pub fn parse_mdy(v: &Vec<char>, from: usize, to: usize) -> (r: Option<i64>)
    requires
        from <= to <= v@.len(),
    ensures
        ({
            let spec_r = mdy_secs(v@.subrange(from as int, to as int));
            match r {
                Some(t) => spec_r == Some(t as int),
                None => spec_r is None,
            }
        }),
{
    let ghost s = v@.subrange(from as int, to as int);
    let i: usize = crate::text::range_find_space(v, from, to);
    if i == to {
        return None;
    }
    let ghost r1 = s.subrange(i - from, s.len() as int);
    proof {
        assert(r1 =~= v@.subrange(i as int, to as int));
    }
    let a: usize = crate::text::skip_spaces(v, i, to);
    let ghost r2 = r1.subrange(a - i, r1.len() as int);
    proof {
        assert(r2 =~= v@.subrange(a as int, to as int));
    }
    let j: usize = crate::text::range_find_space(v, a, to);
    if j == to {
        return None;
    }
    let ghost r3 = r2.subrange(j - a, r2.len() as int);
    proof {
        assert(r3 =~= v@.subrange(j as int, to as int));
    }
    let b: usize = crate::text::skip_spaces(v, j, to);
    proof {
        assert(r2.subrange(0, j - a) =~= v@.subrange(a as int, j as int));
        assert(s.subrange(0, i - from) =~= v@.subrange(from as int, i as int));
        assert(r3.subrange(b - j, r3.len() as int) =~= v@.subrange(b as int, to as int));
    }
    finish_md_ymd(v, a, j, from, i, b, to)
}

/// Parses a `day.month.year hour:minute:second` value
/// (`02.01.2025 00:00:00`), per [`dmy_hms_secs`].
pub fn parse_dmy_hms(v: &Vec<char>, from: usize, to: usize) -> (r: Option<i64>)
    requires
        from <= to <= v@.len(),
    ensures
        ({
            let spec_r = dmy_hms_secs(v@.subrange(from as int, to as int));
            match r {
                Some(t) => spec_r == Some(t as int),
                None => spec_r is None,
            }
        }),
{
    let ghost s = v@.subrange(from as int, to as int);
    let i: usize = crate::text::range_find(v, from, to, '.');
    if i == to {
        return None;
    }
    let ghost rest = s.subrange((i - from) + 1, s.len() as int);
    proof {
        assert(rest =~= v@.subrange(i + 1, to as int));
    }
    let j: usize = crate::text::range_find(v, i + 1, to, '.');
    if j == to {
        return None;
    }
    let ghost rest2 = rest.subrange((j - (i + 1)) + 1, rest.len() as int);
    proof {
        assert(rest2 =~= v@.subrange(j + 1, to as int));
    }
    let k: usize = crate::text::range_find_space(v, j + 1, to);
    if k == to {
        return None;
    }
    let ghost r3 = rest2.subrange(k - (j + 1), rest2.len() as int);
    proof {
        assert(r3 =~= v@.subrange(k as int, to as int));
    }
    let sp: usize = crate::text::skip_spaces(v, k, to);
    let ghost time = r3.subrange(sp - k, r3.len() as int);
    proof {
        assert(time =~= v@.subrange(sp as int, to as int));
    }
    let a: usize = crate::text::range_find(v, sp, to, ':');
    if a == to {
        return None;
    }
    let ghost t2 = time.subrange((a - sp) + 1, time.len() as int);
    proof {
        assert(t2 =~= v@.subrange(a + 1, to as int));
    }
    let b: usize = crate::text::range_find(v, a + 1, to, ':');
    if b == to {
        return None;
    }
    proof {
        assert(s.subrange(0, i - from) =~= v@.subrange(from as int, i as int));
        assert(rest.subrange(0, j - (i + 1)) =~= v@.subrange(i + 1, j as int));
        assert(rest2.subrange(0, k - (j + 1)) =~= v@.subrange(j + 1, k as int));
        assert(time.subrange(0, a - sp) =~= v@.subrange(sp as int, a as int));
        assert(t2.subrange(0, b - (a + 1)) =~= v@.subrange(a + 1, b as int));
        assert(t2.subrange((b - (a + 1)) + 1, t2.len() as int) =~= v@.subrange(b + 1, to as int));
    }
    parse_hms_fields(v, from, i, i + 1, j, j + 1, k, sp, a, a + 1, b, b + 1, to)
}

/// Parses the six numeric fields of a wall-clock date and time held in `v`,
/// per [`hms_fields_secs`].
fn parse_hms_fields(
    v: &Vec<char>,
    day_from: usize,
    day_to: usize,
    mon_from: usize,
    mon_to: usize,
    yr_from: usize,
    yr_to: usize,
    hh_from: usize,
    hh_to: usize,
    mi_from: usize,
    mi_to: usize,
    ss_from: usize,
    ss_to: usize,
) -> (r: Option<i64>)
    requires
        day_from <= day_to <= v@.len(),
        mon_from <= mon_to <= v@.len(),
        yr_from <= yr_to <= v@.len(),
        hh_from <= hh_to <= v@.len(),
        mi_from <= mi_to <= v@.len(),
        ss_from <= ss_to <= v@.len(),
    ensures
        ({
            let spec_r = hms_fields_secs(
                v@.subrange(day_from as int, day_to as int),
                v@.subrange(mon_from as int, mon_to as int),
                v@.subrange(yr_from as int, yr_to as int),
                v@.subrange(hh_from as int, hh_to as int),
                v@.subrange(mi_from as int, mi_to as int),
                v@.subrange(ss_from as int, ss_to as int),
            );
            match r {
                Some(t) => spec_r == Some(t as int),
                None => spec_r is None,
            }
        }),
{
    if day_to - day_from < 1 || day_to - day_from > 2 {
        return None;
    }
    if mon_to - mon_from < 1 || mon_to - mon_from > 2 {
        return None;
    }
    if yr_to - yr_from != 4 {
        return None;
    }
    if hh_to - hh_from < 1 || hh_to - hh_from > 2 {
        return None;
    }
    if mi_to - mi_from < 1 || mi_to - mi_from > 2 {
        return None;
    }
    if ss_to - ss_from < 1 || ss_to - ss_from > 2 {
        return None;
    }
    let d: u32 = match crate::text::parse_digits(v, day_from, day_to) {
        Some(x) => x,
        None => {
            return None;
        },
    };
    let m: u32 = match crate::text::parse_digits(v, mon_from, mon_to) {
        Some(x) => x,
        None => {
            return None;
        },
    };
    let y: u32 = match crate::text::parse_digits(v, yr_from, yr_to) {
        Some(x) => x,
        None => {
            return None;
        },
    };
    let h: u32 = match crate::text::parse_digits(v, hh_from, hh_to) {
        Some(x) => x,
        None => {
            return None;
        },
    };
    let mi: u32 = match crate::text::parse_digits(v, mi_from, mi_to) {
        Some(x) => x,
        None => {
            return None;
        },
    };
    let ss: u32 = match crate::text::parse_digits(v, ss_from, ss_to) {
        Some(x) => x,
        None => {
            return None;
        },
    };
    proof {
        assert(ten_pow_is(4, 10000) && ten_pow_is(2, 100)) by {
            reveal_with_fuel(crate::text::ten_pow, 5);
        }
    }
    if y == 0 || m == 0 || m > 12 {
        return None;
    }
    let md: u32 = month_days(y, m);
    if d == 0 || d > md {
        return None;
    }
    if h > 23 || mi > 59 || ss > 59 {
        return None;
    }
    Some(epoch_secs(y, m, d, h, mi, ss))
}

/// First index at or after `i` holding no digit, or the end of `s`: where a
/// fractional-second run stops.
pub open spec fn frac_end(s: Seq<char>, i: int) -> int
    recommends
        0 <= i <= s.len(),
    decreases s.len() - i,
    when 0 <= i <= s.len()
{
    if i < s.len() && crate::text::is_digit(s[i]) {
        frac_end(s, i + 1)
    } else {
        i
    }
}

/// Digits in `s[i..j]`, as a shorthand over subranges.
pub open spec fn digits_in(s: Seq<char>, i: int, j: int) -> bool
    recommends
        0 <= i <= j <= s.len(),
{
    all_digits(s.subrange(i, j))
}

/// Value of the digit run `s[i..j]`.
pub open spec fn val_in(s: Seq<char>, i: int, j: int) -> int
    recommends
        0 <= i <= j <= s.len(),
{
    digits_val(s.subrange(i, j))
}

/// Where the UTC-offset part of an RFC 3339 value starts: after the seconds,
/// or after the fractional-second run when one is present.
pub open spec fn iso_offset_start(s: Seq<char>) -> int
    recommends
        s.len() >= 20,
{
    if s[19] == '.' {
        frac_end(s, 20)
    } else {
        19
    }
}

/// Shape of an RFC 3339 / ISO 8601 timestamp with offset:
/// `YYYY-MM-DDTHH:MM:SS`, an optional `.` and fractional digits, then `Z` or
/// a signed `HH:MM` offset. `T` may also be lowercase or a space; `Z` may be
/// lowercase.
pub open spec fn iso_valid(s: Seq<char>) -> bool {
    &&& s.len() >= 20
    &&& digits_in(s, 0, 4)
    &&& s[4] == '-'
    &&& digits_in(s, 5, 7)
    &&& s[7] == '-'
    &&& digits_in(s, 8, 10)
    &&& (s[10] == 'T' || s[10] == 't' || s[10] == ' ')
    &&& digits_in(s, 11, 13)
    &&& s[13] == ':'
    &&& digits_in(s, 14, 16)
    &&& s[16] == ':'
    &&& digits_in(s, 17, 19)
    &&& (s[19] == '.' ==> frac_end(s, 20) > 20)
    &&& ({
        let p = iso_offset_start(s);
        ||| (s.len() == p + 1 && (s[p] == 'Z' || s[p] == 'z'))
        ||| (s.len() == p + 6 && (s[p] == '+' || s[p] == '-') && digits_in(s, p + 1, p + 3) && s[p
            + 3] == ':' && digits_in(s, p + 4, p + 6) && val_in(s, p + 1, p + 3) <= 23 && val_in(
            s,
            p + 4,
            p + 6,
        ) <= 59)
    })
    &&& valid_ymd(val_in(s, 0, 4), val_in(s, 5, 7), val_in(s, 8, 10))
    &&& valid_hms(val_in(s, 11, 13), val_in(s, 14, 16), val_in(s, 17, 19))
}

/// The offset a valid RFC 3339 value carries, in seconds east of UTC.
pub open spec fn iso_offset_secs(s: Seq<char>) -> int
    recommends
        iso_valid(s),
{
    let p = iso_offset_start(s);
    if s[p] == 'Z' || s[p] == 'z' {
        0
    } else {
        let mag = val_in(s, p + 1, p + 3) * 3600 + val_in(s, p + 4, p + 6) * 60;
        if s[p] == '+' {
            mag
        } else {
            -mag
        }
    }
}

/// The UTC instant an RFC 3339 timestamp value denotes; fractional seconds
/// are truncated.
pub open spec fn iso_secs(s: Seq<char>) -> Option<int> {
    if iso_valid(s) {
        Some(
            utc_secs(
                val_in(s, 0, 4),
                val_in(s, 5, 7),
                val_in(s, 8, 10),
                val_in(s, 11, 13),
                val_in(s, 14, 16),
                val_in(s, 17, 19),
            ) - iso_offset_secs(s),
        )
    } else {
        None
    }
}

/// Parses an RFC 3339 timestamp value (`2025-01-02T00:00:00Z`), per
/// [`iso_secs`].
pub fn parse_iso(v: &Vec<char>, from: usize, to: usize) -> (r: Option<i64>)
    requires
        from <= to <= v@.len(),
    ensures
        ({
            let spec_r = iso_secs(v@.subrange(from as int, to as int));
            match r {
                Some(t) => spec_r == Some(t as int),
                None => spec_r is None,
            }
        }),
{
    let ghost s = v@.subrange(from as int, to as int);
    proof {
        assert(forall|k: int| 0 <= k < s.len() ==> s[k] == v@[from + k]);
    }
    let n: usize = to - from;
    if n < 20 {
        return None;
    }
    if v[from + 4] != '-' || v[from + 7] != '-' || v[from + 13] != ':' || v[from + 16] != ':' {
        return None;
    }
    let sep: char = v[from + 10];
    if !(sep == 'T' || sep == 't' || sep == ' ') {
        return None;
    }
    proof {
        assert(s.subrange(0, 4) =~= v@.subrange(from as int, from + 4));
        assert(s.subrange(5, 7) =~= v@.subrange(from + 5, from + 7));
        assert(s.subrange(8, 10) =~= v@.subrange(from + 8, from + 10));
        assert(s.subrange(11, 13) =~= v@.subrange(from + 11, from + 13));
        assert(s.subrange(14, 16) =~= v@.subrange(from + 14, from + 16));
        assert(s.subrange(17, 19) =~= v@.subrange(from + 17, from + 19));
    }
    let y: u32 = match crate::text::parse_digits(v, from, from + 4) {
        Some(x) => x,
        None => {
            return None;
        },
    };
    let mo: u32 = match crate::text::parse_digits(v, from + 5, from + 7) {
        Some(x) => x,
        None => {
            return None;
        },
    };
    let d: u32 = match crate::text::parse_digits(v, from + 8, from + 10) {
        Some(x) => x,
        None => {
            return None;
        },
    };
    let h: u32 = match crate::text::parse_digits(v, from + 11, from + 13) {
        Some(x) => x,
        None => {
            return None;
        },
    };
    let mi: u32 = match crate::text::parse_digits(v, from + 14, from + 16) {
        Some(x) => x,
        None => {
            return None;
        },
    };
    let se: u32 = match crate::text::parse_digits(v, from + 17, from + 19) {
        Some(x) => x,
        None => {
            return None;
        },
    };
    // the fractional-second run, if any
    let mut p: usize = from + 19;
    if v[p] == '.' {
        p = from + 20;
        while p < to && crate::text::digit_char(v[p])
            invariant
                from + 20 <= p <= to <= v@.len(),
                s == v@.subrange(from as int, to as int),
                s.len() == to - from >= 20,
                forall|k: int| 0 <= k < s.len() ==> s[k] == v@[from + k],
                frac_end(s, 20) == frac_end(s, p - from),
            decreases to - p,
        {
            proof {
                assert(frac_end(s, p - from) == frac_end(s, (p - from) + 1));
            }
            p = p + 1;
        }
        proof {
            assert(frac_end(s, p - from) == p - from);
        }
        if p == from + 20 {
            return None;
        }
    }
    let ghost op = iso_offset_start(s);
    proof {
        assert(op == p - from);
    }
    if p == to {
        return None;
    }
    let oc: char = v[p];
    let off: i64;
    if oc == 'Z' || oc == 'z' {
        if p + 1 != to {
            return None;
        }
        off = 0;
    } else if oc == '+' || oc == '-' {
        if to - p != 6 {
            return None;
        }
        if v[p + 3] != ':' {
            return None;
        }
        proof {
            assert(s.subrange(op + 1, op + 3) =~= v@.subrange(p + 1, p + 3));
            assert(s.subrange(op + 4, op + 6) =~= v@.subrange(p + 4, p + 6));
        }
        let oh: u32 = match crate::text::parse_digits(v, p + 1, p + 3) {
            Some(x) => x,
            None => {
                return None;
            },
        };
        let om: u32 = match crate::text::parse_digits(v, p + 4, p + 6) {
            Some(x) => x,
            None => {
                return None;
            },
        };
        if oh > 23 || om > 59 {
            return None;
        }
        let mag: i64 = (oh * 3600 + om * 60) as i64;
        off = if oc == '+' {
            mag
        } else {
            -mag
        };
    } else {
        return None;
    }
    proof {
        assert(ten_pow_is(4, 10000) && ten_pow_is(2, 100)) by {
            reveal_with_fuel(crate::text::ten_pow, 5);
        }
    }
    if y == 0 || mo == 0 || mo > 12 {
        return None;
    }
    let md: u32 = month_days(y, mo);
    if d == 0 || d > md {
        return None;
    }
    if h > 23 || mi > 59 || se > 59 {
        return None;
    }
    let base: i64 = epoch_secs(y, mo, d, h, mi, se);
    Some(base - off)
}

} // verus!
