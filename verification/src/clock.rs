//! Points in time: publish times of a registry, and the stamps in file names.

use crate::numbers::{
    all_digits, digit_value, digits_of, lemma_digits, lemma_padded, padded, value_of, zero_padded,
};
use crate::order::text_before;
use crate::text::{chars_of, is_digit};
use vstd::prelude::*;

verus! {

/// Whether `y` is a leap year of the Gregorian calendar.
pub open spec fn leap(y: int) -> bool {
    y % 4 == 0 && (y % 100 != 0 || y % 400 == 0)
}

/// How many days the years from 0 up to `y` have.
pub open spec fn year_days(y: nat) -> nat
    decreases y,
{
    if y == 0 {
        0
    } else {
        year_days((y - 1) as nat) + if leap(y - 1) {
            366nat
        } else {
            365nat
        }
    }
}

/// How many days the month `m` of the year `y` has.
pub open spec fn month_len(y: int, m: int) -> nat {
    if m == 2 {
        if leap(y) {
            29
        } else {
            28
        }
    } else if m == 4 || m == 6 || m == 9 || m == 11 {
        30
    } else {
        31
    }
}

/// How many days the months of the year `y` before `m` have.
pub open spec fn month_days(y: int, m: nat) -> nat
    decreases m,
{
    if m <= 1 {
        0
    } else {
        month_days(y, (m - 1) as nat) + month_len(y, m - 1)
    }
}

/// The days from 1970-01-01 to the day `d` of the month `m` of the year `y`. A day beyond the end
/// of the month counts on into the next one.
pub open spec fn epoch_day(y: nat, m: nat, d: int) -> int {
    year_days(y) - year_days(1970) + month_days(y as int, m) + d - 1
}

proof fn lemma_year_days(y: nat)
    ensures
        year_days(y) == 365 * y + (y + 3) / 4 - (y + 99) / 100 + (y + 399) / 400,
    decreases y,
{
    if y > 0 {
        let k = y - 1;
        lemma_year_days(k as nat);
        lemma_fours(k);
        lemma_hundreds(k);
        lemma_four_hundreds(k);
    }
}

proof fn lemma_fours(k: int)
    ensures
        (k + 4) / 4 == (k + 3) / 4 + if k % 4 == 0 {
            1int
        } else {
            0int
        },
{
}

proof fn lemma_hundreds(k: int)
    ensures
        (k + 100) / 100 == (k + 99) / 100 + if k % 100 == 0 {
            1int
        } else {
            0int
        },
        k % 100 == 0 ==> k % 4 == 0,
{
}

proof fn lemma_four_hundreds(k: int)
    ensures
        (k + 400) / 400 == (k + 399) / 400 + if k % 400 == 0 {
            1int
        } else {
            0int
        },
        k % 400 == 0 ==> k % 100 == 0,
{
}

/// A point in time, as a registry writes it.
pub struct Moment {
    /// Year.
    pub y: nat,
    /// Month, from 1.
    pub mo: nat,
    /// Day, from 1.
    pub d: nat,
    /// Hour.
    pub h: nat,
    /// Minute.
    pub mi: nat,
    /// Second.
    pub s: nat,
}

/// What may follow the seconds: `Z`, with a fraction of digits before it or not.
pub open spec fn utc_tail(t: Seq<char>) -> bool {
    &&& t.len() > 0
    &&& t.last() == 'Z'
    &&& t.len() > 1 ==> t.len() > 2 && t[0] == '.' && all_digits(t.subrange(1, t.len() - 1))
}

/// Whether `s` has the shape `yyyy-mm-ddThh:mm:ss` before a UTC tail.
pub open spec fn moment_shape(s: Seq<char>) -> bool {
    &&& s.len() >= 19
    &&& all_digits(s.subrange(0, 4)) && s[4] == '-'
    &&& all_digits(s.subrange(5, 7)) && s[7] == '-'
    &&& all_digits(s.subrange(8, 10)) && s[10] == 'T'
    &&& all_digits(s.subrange(11, 13)) && s[13] == ':'
    &&& all_digits(s.subrange(14, 16)) && s[16] == ':'
    &&& all_digits(s.subrange(17, 19))
    &&& utc_tail(s.skip(19))
}

/// The numbers in a text of that shape.
pub open spec fn moment_in(s: Seq<char>) -> Moment {
    Moment {
        y: value_of(s.subrange(0, 4)),
        mo: value_of(s.subrange(5, 7)),
        d: value_of(s.subrange(8, 10)),
        h: value_of(s.subrange(11, 13)),
        mi: value_of(s.subrange(14, 16)),
        s: value_of(s.subrange(17, 19)),
    }
}

/// Whether the numbers lie within their ranges.
pub open spec fn moment_ranges(t: Moment) -> bool {
    1 <= t.mo <= 12 && 1 <= t.d <= 31 && t.h <= 23 && t.mi <= 59 && t.s <= 60
}

/// The seconds from 1970-01-01 00:00:00 UTC.
pub open spec fn moment_secs(t: Moment) -> int {
    epoch_day(t.y, t.mo, t.d as int) * 86400 + t.h * 3600 + t.mi * 60 + t.s
}

/// The time that a registry's text in UTC writes, in seconds.
pub open spec fn utc_secs(s: Seq<char>) -> Option<int> {
    if moment_shape(s) && moment_ranges(moment_in(s)) {
        Some(moment_secs(moment_in(s)))
    } else {
        None
    }
}

/// The value of the digits from `from` up to `to`.
fn field(cs: &Vec<char>, from: usize, to: usize) -> (r: Option<u64>)
    requires
        from <= to <= cs@.len(),
        to - from <= 4,
    ensures
        match r {
            Some(n) => all_digits(cs@.subrange(from as int, to as int)) && n == value_of(
                cs@.subrange(from as int, to as int),
            ) && n <= 9999 && (to - from <= 2 ==> n <= 99),
            None => !all_digits(cs@.subrange(from as int, to as int)),
        },
{
    let ghost d = cs@.subrange(from as int, to as int);
    let mut n: u64 = 0;
    let mut i: usize = from;
    while i < to
        invariant
            from <= i <= to <= cs@.len(),
            to - from <= 4,
            d == cs@.subrange(from as int, to as int),
            all_digits(d.take(i - from)),
            n == value_of(d.take(i - from)),
            i - from == 0 ==> n == 0,
            i - from <= 1 ==> n <= 9,
            i - from <= 2 ==> n <= 99,
            i - from <= 3 ==> n <= 999,
            n <= 9999,
        decreases to - i,
    {
        let c = cs[i];
        proof {
            let next = d.take(i - from + 1);
            assert(d[i - from] == c);
            assert(next.drop_last() =~= d.take(i - from));
            assert(next.last() == c);
            assert forall|k: int| is_digit(c) && 0 <= k < next.len() implies is_digit(
                #[trigger] next[k],
            ) by {
                if k < i - from {
                    assert(d.take(i - from)[k] == next[k]);
                }
            }
        }
        if !('0' <= c && c <= '9') {
            return None;
        }
        n = n * 10 + (c as u32 - 48) as u64;
        i += 1;
    }
    proof {
        assert(d.take(d.len() as int) =~= d);
    }
    Some(n)
}

fn is_utc_tail(cs: &Vec<char>) -> (r: bool)
    requires
        cs@.len() >= 19,
    ensures
        r == utc_tail(cs@.skip(19)),
{
    let n: usize = cs.len();
    let ghost t = cs@.skip(19);
    if n == 19 || cs[n - 1] != 'Z' {
        return false;
    }
    proof {
        assert(t.last() == cs@[n - 1]);
    }
    if n == 20 {
        return true;
    }
    proof {
        assert(t[0] == cs@[19]);
    }
    if n == 21 || cs[19] != '.' {
        return false;
    }
    let ghost frac = t.subrange(1, t.len() - 1);
    let mut i: usize = 20;
    while i < n - 1
        invariant
            20 <= i <= n - 1,
            n == cs@.len(),
            t == cs@.skip(19),
            frac == t.subrange(1, t.len() - 1),
            forall|k: int| 20 <= k < i ==> is_digit(#[trigger] cs@[k]),
        decreases n - i,
    {
        let c = cs[i];
        if !('0' <= c && c <= '9') {
            proof {
                assert(frac[i - 20] == c);
            }
            return false;
        }
        i += 1;
    }
    proof {
        assert forall|k: int| 0 <= k < frac.len() implies is_digit(#[trigger] frac[k]) by {
            assert(frac[k] == cs@[k + 20]);
        }
    }
    true
}

fn days_before_month(y: u64, m: u64) -> (r: u64)
    requires
        1 <= m <= 12,
    ensures
        r == month_days(y as int, m as nat),
        r <= 341,
{
    let feb: u64 = if y % 4 == 0 && (y % 100 != 0 || y % 400 == 0) {
        29
    } else {
        28
    };
    let mut k: u64 = 1;
    let mut days: u64 = 0;
    while k < m
        invariant
            1 <= k <= m <= 12,
            feb == month_len(y as int, 2),
            days == month_days(y as int, k as nat),
            days <= 31 * (k - 1),
        decreases m - k,
    {
        days = days + if k == 2 {
            feb
        } else if k == 4 || k == 6 || k == 9 || k == 11 {
            30
        } else {
            31
        };
        k += 1;
    }
    days
}

/// The time that a registry's text such as `2026-09-10T06:53:19.720Z` writes, in seconds since
/// 1970. Times that are not in UTC are not taken.
pub fn parse_rfc3339_utc_secs(s: &str) -> (r: Option<i64>)
    ensures
        match r {
            Some(n) => utc_secs(s@) == Some(n as int),
            None => utc_secs(s@) is None,
        },
{
    let cs = chars_of(s);
    if cs.len() < 19 {
        return None;
    }
    if cs[4] != '-' || cs[7] != '-' || cs[10] != 'T' || cs[13] != ':' || cs[16] != ':' {
        return None;
    }
    let (y, mo, d) = match (field(&cs, 0, 4), field(&cs, 5, 7), field(&cs, 8, 10)) {
        (Some(y), Some(mo), Some(d)) => (y, mo, d),
        _ => {
            return None;
        },
    };
    let (h, mi, sec) = match (field(&cs, 11, 13), field(&cs, 14, 16), field(&cs, 17, 19)) {
        (Some(h), Some(mi), Some(sec)) => (h, mi, sec),
        _ => {
            return None;
        },
    };
    if mo < 1 || mo > 12 || d < 1 || d > 31 || h > 23 || mi > 59 || sec > 60 {
        return None;
    }
    if !is_utc_tail(&cs) {
        return None;
    }
    proof {
        lemma_year_days(y as nat);
        lemma_year_days(1970);
    }
    let year: u64 = 365 * y + (y + 3) / 4 - (y + 99) / 100 + (y + 399) / 400;
    let day: i64 = (year + days_before_month(y, mo) + d - 1) as i64 - 719528;
    Some(day * 86400 + (h * 3600 + mi * 60 + sec) as i64)
}

/// A time that a registry can write lies within some thousand years of 1970.
pub proof fn lemma_secs_bounds(s: Seq<char>)
    requires
        utc_secs(s) is Some,
    ensures
        -70_000_000_000 <= utc_secs(s)->0 <= 300_000_000_000,
{
    let t = moment_in(s);
    lemma_value_four(s.subrange(0, 4));
    let d = s.subrange(0, 4);
    assert(is_digit(d[0]) && is_digit(d[1]) && is_digit(d[2]) && is_digit(d[3]));
    lemma_year_days(t.y);
    lemma_year_days(1970);
    lemma_month_days(t.y as int, 1, t.mo);
    lemma_month_days(t.y as int, t.mo, 13);
    lemma_year_len(t.y as int);
}

proof fn lemma_month_days(y: int, m: nat, n: nat)
    requires
        1 <= m <= n,
    ensures
        month_days(y, m) <= month_days(y, n),
        m < n ==> month_days(y, m) + month_len(y, m as int) <= month_days(y, n),
    decreases n,
{
    if m < n {
        lemma_month_days(y, m, (n - 1) as nat);
    }
}

proof fn lemma_year_len(y: int)
    ensures
        month_days(y, 13) == if leap(y) {
            366nat
        } else {
            365nat
        },
{
    reveal_with_fuel(month_days, 14);
}

proof fn lemma_years_grow(a: nat, b: nat)
    requires
        a < b,
    ensures
        year_days(a) + month_days(a as int, 13) <= year_days(b),
    decreases b,
{
    lemma_year_len(a as int);
    if a + 1 < b {
        lemma_years_grow(a, (b - 1) as nat);
    }
}

/// Whether the moment lies in a day and a minute that exist.
pub open spec fn real_moment(t: Moment) -> bool {
    1 <= t.mo <= 12 && 1 <= t.d <= month_len(t.y as int, t.mo as int) && t.h <= 23 && t.mi <= 59
        && t.s <= 59
}

/// Whether one moment is earlier than another by its numbers, year first.
pub open spec fn earlier(a: Moment, b: Moment) -> bool {
    ||| a.y < b.y
    ||| a.y == b.y && a.mo < b.mo
    ||| a.y == b.y && a.mo == b.mo && a.d < b.d
    ||| a.y == b.y && a.mo == b.mo && a.d == b.d && a.h < b.h
    ||| a.y == b.y && a.mo == b.mo && a.d == b.d && a.h == b.h && a.mi < b.mi
    ||| a.y == b.y && a.mo == b.mo && a.d == b.d && a.h == b.h && a.mi == b.mi && a.s < b.s
}

/// A moment that is earlier has fewer seconds.
pub proof fn law_earlier_has_fewer_seconds(a: Moment, b: Moment)
    requires
        real_moment(a),
        real_moment(b),
        earlier(a, b),
    ensures
        moment_secs(a) < moment_secs(b),
{
    if a.y < b.y {
        lemma_years_grow(a.y, b.y);
        lemma_month_days(a.y as int, a.mo, 13);
    } else if a.mo < b.mo {
        lemma_month_days(a.y as int, a.mo, b.mo);
    }
}

/// A local time as the stamp `yyyy-MM-dd_HHmmss`.
pub open spec fn stamp_of(t: Moment) -> Seq<char> {
    zero_padded(digits_of(t.y), 4) + "-"@ + zero_padded(digits_of(t.mo), 2) + "-"@ + zero_padded(
        digits_of(t.d),
        2,
    ) + "_"@ + zero_padded(digits_of(t.h), 2) + zero_padded(digits_of(t.mi), 2) + zero_padded(
        digits_of(t.s),
        2,
    )
}

/// A local time.
pub struct LocalTime {
    /// Year.
    pub year: u16,
    /// Month, from 1.
    pub month: u16,
    /// Day, from 1.
    pub day: u16,
    /// Hour.
    pub hour: u16,
    /// Minute.
    pub minute: u16,
    /// Second.
    pub second: u16,
}

impl View for LocalTime {
    type V = Moment;

    open spec fn view(&self) -> Moment {
        Moment {
            y: self.year as nat,
            mo: self.month as nat,
            d: self.day as nat,
            h: self.hour as nat,
            mi: self.minute as nat,
            s: self.second as nat,
        }
    }
}

/// A local time as the stamp `yyyy-MM-dd_HHmmss`.
pub fn now_stamp(t: &LocalTime) -> (r: String)
    ensures
        r@ == stamp_of(t@),
{
    let mut out = padded(t.year as u64, 4);
    out.append("-");
    out.append(padded(t.month as u64, 2).as_str());
    out.append("-");
    out.append(padded(t.day as u64, 2).as_str());
    out.append("_");
    out.append(padded(t.hour as u64, 2).as_str());
    out.append(padded(t.minute as u64, 2).as_str());
    out.append(padded(t.second as u64, 2).as_str());
    out
}

/// Whether the numbers fit in the digits that a stamp has for them.
pub open spec fn stampable(t: Moment) -> bool {
    t.y <= 9999 && t.mo <= 99 && t.d <= 99 && t.h <= 99 && t.mi <= 99 && t.s <= 99
}

proof fn lemma_two(n: nat)
    requires
        n <= 99,
    ensures
        zero_padded(digits_of(n), 2).len() == 2,
        all_digits(zero_padded(digits_of(n), 2)),
        value_of(zero_padded(digits_of(n), 2)) == n,
{
    lemma_digits(n);
    reveal_with_fuel(digits_of, 3);
    lemma_padded(digits_of(n), if 2 > digits_of(n).len() {
        2 - digits_of(n).len()
    } else {
        0
    });
}

proof fn lemma_four(n: nat)
    requires
        n <= 9999,
    ensures
        zero_padded(digits_of(n), 4).len() == 4,
        all_digits(zero_padded(digits_of(n), 4)),
        value_of(zero_padded(digits_of(n), 4)) == n,
{
    lemma_digits(n);
    reveal_with_fuel(digits_of, 5);
    lemma_padded(digits_of(n), if 4 > digits_of(n).len() {
        4 - digits_of(n).len()
    } else {
        0
    });
}

/// The parts of a stamp stand at fixed places.
pub proof fn lemma_stamp(t: Moment)
    requires
        stampable(t),
    ensures
        stamp_of(t).len() == 17,
        stamp_of(t).subrange(0, 4) == zero_padded(digits_of(t.y), 4),
        stamp_of(t).subrange(5, 7) == zero_padded(digits_of(t.mo), 2),
        stamp_of(t).subrange(8, 10) == zero_padded(digits_of(t.d), 2),
        stamp_of(t).subrange(11, 13) == zero_padded(digits_of(t.h), 2),
        stamp_of(t).subrange(13, 15) == zero_padded(digits_of(t.mi), 2),
        stamp_of(t).subrange(15, 17) == zero_padded(digits_of(t.s), 2),
        stamp_of(t)[4] == '-',
        stamp_of(t)[7] == '-',
        stamp_of(t)[10] == '_',
        forall|i: int| 11 <= i < 17 ==> is_digit(#[trigger] stamp_of(t)[i]),
        forall|i: int|
            0 <= i < 10 ==> is_digit(#[trigger] stamp_of(t)[i]) || stamp_of(t)[i] == '-',
{
    lemma_four(t.y);
    lemma_two(t.mo);
    lemma_two(t.d);
    lemma_two(t.h);
    lemma_two(t.mi);
    lemma_two(t.s);
    reveal_strlit("-");
    reveal_strlit("_");
    let s = stamp_of(t);
    assert(s.subrange(0, 4) =~= zero_padded(digits_of(t.y), 4));
    assert(s.subrange(5, 7) =~= zero_padded(digits_of(t.mo), 2));
    assert(s.subrange(8, 10) =~= zero_padded(digits_of(t.d), 2));
    assert(s.subrange(11, 13) =~= zero_padded(digits_of(t.h), 2));
    assert(s.subrange(13, 15) =~= zero_padded(digits_of(t.mi), 2));
    assert(s.subrange(15, 17) =~= zero_padded(digits_of(t.s), 2));
    assert forall|i: int| 11 <= i < 17 implies is_digit(#[trigger] s[i]) by {
        if i < 13 {
            assert(s.subrange(11, 13)[i - 11] == s[i]);
        } else if i < 15 {
            assert(s.subrange(13, 15)[i - 13] == s[i]);
        } else {
            assert(s.subrange(15, 17)[i - 15] == s[i]);
        }
    }
    assert forall|i: int| 0 <= i < 10 implies is_digit(#[trigger] s[i]) || s[i] == '-' by {
        if i < 4 {
            assert(s.subrange(0, 4)[i] == s[i]);
        } else if 5 <= i < 7 {
            assert(s.subrange(5, 7)[i - 5] == s[i]);
        } else if 8 <= i {
            assert(s.subrange(8, 10)[i - 8] == s[i]);
        }
    }
}

/// Behind beginnings of one length, the rests decide where the beginnings are the same.
pub proof fn lemma_before_joined(x: Seq<char>, y: Seq<char>, r: Seq<char>, q: Seq<char>)
    requires
        x.len() == y.len(),
    ensures
        text_before(x + r, y + q) == (text_before(x, y) || (x == y && text_before(r, q))),
    decreases x.len(),
{
    if x.len() == 0 {
        assert(x + r =~= r);
        assert(y + q =~= q);
        assert(x =~= y);
    } else {
        lemma_before_joined(x.skip(1), y.skip(1), r, q);
        assert((x + r).skip(1) =~= x.skip(1) + r);
        assert((y + q).skip(1) =~= y.skip(1) + q);
        if x[0] == y[0] && x.skip(1) == y.skip(1) {
            assert(x =~= seq![x[0]] + x.skip(1));
            assert(y =~= seq![y[0]] + y.skip(1));
        }
    }
}

proof fn lemma_value_two(x: Seq<char>)
    requires
        x.len() == 2,
    ensures
        value_of(x) == digit_value(x[0]) * 10 + digit_value(x[1]),
{
    reveal_with_fuel(value_of, 3);
    assert(x.drop_last().drop_last() =~= Seq::empty());
}

proof fn lemma_value_four(x: Seq<char>)
    requires
        x.len() == 4,
    ensures
        value_of(x) == digit_value(x[0]) * 1000 + digit_value(x[1])
            * 100 + digit_value(x[2]) * 10 + digit_value(x[3]),
{
    reveal_with_fuel(value_of, 5);
    assert(x.drop_last().drop_last().drop_last().drop_last() =~= Seq::empty());
}

proof fn lemma_order_two(x: Seq<char>, y: Seq<char>)
    requires
        x.len() == 2,
        y.len() == 2,
        all_digits(x),
        all_digits(y),
    ensures
        text_before(x, y) <==> value_of(x) < value_of(y),
        x == y <==> value_of(x) == value_of(y),
{
    lemma_value_two(x);
    lemma_value_two(y);
    assert(is_digit(x[0]) && is_digit(x[1]) && is_digit(y[0]) && is_digit(y[1]));
    reveal_with_fuel(text_before, 3);
    if x[0] == y[0] && x[1] == y[1] {
        assert(x =~= y);
    }
}

proof fn lemma_order_four(x: Seq<char>, y: Seq<char>)
    requires
        x.len() == 4,
        y.len() == 4,
        all_digits(x),
        all_digits(y),
    ensures
        text_before(x, y) <==> value_of(x) < value_of(y),
        x == y <==> value_of(x) == value_of(y),
{
    lemma_value_four(x);
    lemma_value_four(y);
    assert(is_digit(x[0]) && is_digit(x[1]) && is_digit(x[2]) && is_digit(x[3]));
    assert(is_digit(y[0]) && is_digit(y[1]) && is_digit(y[2]) && is_digit(y[3]));
    reveal_with_fuel(text_before, 5);
    if x[0] == y[0] && x[1] == y[1] && x[2] == y[2] && x[3] == y[3] {
        assert(x =~= y);
    }
}

/// Stamps are in the order of their times, so that the last file name is that of the newest file.
pub proof fn law_stamps_in_order_of_time(a: Moment, b: Moment)
    requires
        stampable(a),
        stampable(b),
    ensures
        text_before(stamp_of(a), stamp_of(b)) <==> earlier(a, b),
{
    lemma_four(a.y);
    lemma_four(b.y);
    lemma_two(a.mo);
    lemma_two(b.mo);
    lemma_two(a.d);
    lemma_two(b.d);
    lemma_two(a.h);
    lemma_two(b.h);
    lemma_two(a.mi);
    lemma_two(b.mi);
    lemma_two(a.s);
    lemma_two(b.s);
    let (y0, y1) = (zero_padded(digits_of(a.y), 4), zero_padded(digits_of(b.y), 4));
    let (m0, m1) = (zero_padded(digits_of(a.mo), 2), zero_padded(digits_of(b.mo), 2));
    let (d0, d1) = (zero_padded(digits_of(a.d), 2), zero_padded(digits_of(b.d), 2));
    let (h0, h1) = (zero_padded(digits_of(a.h), 2), zero_padded(digits_of(b.h), 2));
    let (i0, i1) = (zero_padded(digits_of(a.mi), 2), zero_padded(digits_of(b.mi), 2));
    let (s0, s1) = (zero_padded(digits_of(a.s), 2), zero_padded(digits_of(b.s), 2));
    lemma_order_four(y0, y1);
    lemma_order_two(m0, m1);
    lemma_order_two(d0, d1);
    lemma_order_two(h0, h1);
    lemma_order_two(i0, i1);
    lemma_order_two(s0, s1);
    let (p0, p1) = (i0 + s0, i1 + s1);
    let (q0, q1) = (h0 + p0, h1 + p1);
    let (r0, r1) = ("_"@ + q0, "_"@ + q1);
    let (t0, t1) = (d0 + r0, d1 + r1);
    let (u0, u1) = ("-"@ + t0, "-"@ + t1);
    let (v0, v1) = (m0 + u0, m1 + u1);
    let (w0, w1) = ("-"@ + v0, "-"@ + v1);
    assert(stamp_of(a) =~= y0 + w0);
    assert(stamp_of(b) =~= y1 + w1);
    lemma_before_joined(y0, y1, w0, w1);
    lemma_before_joined("-"@, "-"@, v0, v1);
    lemma_before_joined(m0, m1, u0, u1);
    lemma_before_joined("-"@, "-"@, t0, t1);
    lemma_before_joined(d0, d1, r0, r1);
    lemma_before_joined("_"@, "_"@, q0, q1);
    lemma_before_joined(h0, h1, p0, p1);
    lemma_before_joined(i0, i1, s0, s1);
    crate::order::lemma_before_one_way("-"@, "-"@);
    crate::order::lemma_before_one_way("_"@, "_"@);
}

/// Whether a text writes a moment of a day that exists, without a fraction of a second.
pub open spec fn plain_moment(s: Seq<char>) -> bool {
    moment_shape(s) && s.len() == 20 && real_moment(moment_in(s))
}

/// The parts of a text without a fraction.
proof fn lemma_parts(s: Seq<char>)
    requires
        moment_shape(s),
        s.len() == 20,
    ensures
        s == s.subrange(0, 4) + ("-"@ + (s.subrange(5, 7) + ("-"@ + (s.subrange(8, 10) + ("T"@ + (
        s.subrange(11, 13) + (":"@ + (s.subrange(14, 16) + (":"@ + (s.subrange(17, 19)
            + "Z"@)))))))))),
{
    reveal_strlit("-");
    reveal_strlit("T");
    reveal_strlit(":");
    reveal_strlit("Z");
    assert(s.skip(19).last() == s[19]);
    assert(s =~= s.subrange(0, 4) + ("-"@ + (s.subrange(5, 7) + ("-"@ + (s.subrange(8, 10) + ("T"@
        + (s.subrange(11, 13) + (":"@ + (s.subrange(14, 16) + (":"@ + (s.subrange(17, 19)
        + "Z"@)))))))))));
}

proof fn lemma_plain_order(a: Seq<char>, b: Seq<char>)
    requires
        plain_moment(a),
        plain_moment(b),
    ensures
        text_before(a, b) <==> earlier(moment_in(a), moment_in(b)),
{
    lemma_parts(a);
    lemma_parts(b);
    let (y0, y1) = (a.subrange(0, 4), b.subrange(0, 4));
    let (m0, m1) = (a.subrange(5, 7), b.subrange(5, 7));
    let (d0, d1) = (a.subrange(8, 10), b.subrange(8, 10));
    let (h0, h1) = (a.subrange(11, 13), b.subrange(11, 13));
    let (i0, i1) = (a.subrange(14, 16), b.subrange(14, 16));
    let (s0, s1) = (a.subrange(17, 19), b.subrange(17, 19));
    lemma_order_four(y0, y1);
    lemma_order_two(m0, m1);
    lemma_order_two(d0, d1);
    lemma_order_two(h0, h1);
    lemma_order_two(i0, i1);
    lemma_order_two(s0, s1);
    let (e0, e1) = (s0 + "Z"@, s1 + "Z"@);
    let (f0, f1) = (":"@ + e0, ":"@ + e1);
    let (g0, g1) = (i0 + f0, i1 + f1);
    let (j0, j1) = (":"@ + g0, ":"@ + g1);
    let (k0, k1) = (h0 + j0, h1 + j1);
    let (l0, l1) = ("T"@ + k0, "T"@ + k1);
    let (n0, n1) = (d0 + l0, d1 + l1);
    let (o0, o1) = ("-"@ + n0, "-"@ + n1);
    let (p0, p1) = (m0 + o0, m1 + o1);
    let (q0, q1) = ("-"@ + p0, "-"@ + p1);
    lemma_before_joined(y0, y1, q0, q1);
    lemma_before_joined("-"@, "-"@, p0, p1);
    lemma_before_joined(m0, m1, o0, o1);
    lemma_before_joined("-"@, "-"@, n0, n1);
    lemma_before_joined(d0, d1, l0, l1);
    lemma_before_joined("T"@, "T"@, k0, k1);
    lemma_before_joined(h0, h1, j0, j1);
    lemma_before_joined(":"@, ":"@, g0, g1);
    lemma_before_joined(i0, i1, f0, f1);
    lemma_before_joined(":"@, ":"@, e0, e1);
    lemma_before_joined(s0, s1, "Z"@, "Z"@);
    crate::order::lemma_before_one_way("-"@, "-"@);
    crate::order::lemma_before_one_way("T"@, "T"@);
    crate::order::lemma_before_one_way(":"@, ":"@);
    crate::order::lemma_before_one_way("Z"@, "Z"@);
}

/// Of two texts that write moments, the one that comes before the other has fewer seconds.
pub proof fn law_earlier_text_has_fewer_seconds(a: Seq<char>, b: Seq<char>)
    requires
        plain_moment(a),
        plain_moment(b),
        text_before(a, b),
    ensures
        utc_secs(a) is Some,
        utc_secs(b) is Some,
        utc_secs(a)->0 < utc_secs(b)->0,
{
    lemma_plain_order(a, b);
    law_earlier_has_fewer_seconds(moment_in(a), moment_in(b));
}

/// A fraction of a second changes nothing.
pub proof fn law_fraction_changes_nothing(s: Seq<char>, fraction: Seq<char>)
    requires
        s.len() >= 19,
        utc_tail(s.skip(19)),
        fraction.len() > 0,
        all_digits(fraction),
    ensures
        utc_secs(s.take(19) + "."@ + fraction + "Z"@) == utc_secs(s),
{
    reveal_strlit(".");
    reveal_strlit("Z");
    let t = s.take(19) + "."@ + fraction + "Z"@;
    let tail = t.skip(19);
    assert(tail =~= "."@ + fraction + "Z"@);
    assert(tail.subrange(1, tail.len() - 1) =~= fraction);
    assert(t.take(19) =~= s.take(19));
    assert(t.subrange(0, 4) =~= s.subrange(0, 4));
    assert(t.subrange(5, 7) =~= s.subrange(5, 7));
    assert(t.subrange(8, 10) =~= s.subrange(8, 10));
    assert(t.subrange(11, 13) =~= s.subrange(11, 13));
    assert(t.subrange(14, 16) =~= s.subrange(14, 16));
    assert(t.subrange(17, 19) =~= s.subrange(17, 19));
    assert(t[4] == s[4] && t[7] == s[7] && t[10] == s[10] && t[13] == s[13] && t[16] == s[16]);
}

/// The same time on the next day of the calendar.
pub open spec fn next_day(t: Moment) -> Moment {
    if t.d < month_len(t.y as int, t.mo as int) {
        Moment { d: t.d + 1, ..t }
    } else if t.mo < 12 {
        Moment { mo: t.mo + 1, d: 1, ..t }
    } else {
        Moment { y: t.y + 1, mo: 1, d: 1, ..t }
    }
}

/// The next day of the calendar at the same time is 86400 seconds later.
pub proof fn law_next_day_is_a_day_later(a: Seq<char>, b: Seq<char>)
    requires
        moment_shape(a),
        moment_shape(b),
        real_moment(moment_in(a)),
        moment_in(b) == next_day(moment_in(a)),
    ensures
        utc_secs(a) is Some,
        utc_secs(b) == Some(utc_secs(a)->0 + 86400),
{
    let t = moment_in(a);
    let n = moment_in(b);
    lemma_year_len(t.y as int);
    assert(epoch_day(n.y, n.mo, n.d as int) == epoch_day(t.y, t.mo, t.d as int) + 1) by {
        if t.d == month_len(t.y as int, t.mo as int) && t.mo == 12 {
            assert(month_days(t.y as int, 13) == month_days(t.y as int, 12) + 31);
            assert(month_days(n.y as int, 1) == 0);
            assert(year_days(n.y) == year_days(t.y) + month_days(t.y as int, 13));
        }
    }
}

/// A time in UTC as it is written.
pub open spec fn written(t: Moment) -> Seq<char> {
    zero_padded(digits_of(t.y), 4) + "-"@ + zero_padded(digits_of(t.mo), 2) + "-"@ + zero_padded(
        digits_of(t.d),
        2,
    ) + "T"@ + zero_padded(digits_of(t.h), 2) + ":"@ + zero_padded(digits_of(t.mi), 2) + ":"@
        + zero_padded(digits_of(t.s), 2) + "Z"@
}

/// A time that is written with all its parts is read if and only if its month, day, hour, minute and
/// second are such, a leap second included; it is read as what is written.
pub proof fn law_written_time_is_read(t: Moment)
    requires
        stampable(t),
    ensures
        utc_secs(written(t)) is Some <==> 1 <= t.mo <= 12 && 1 <= t.d <= 31 && t.h <= 23 && t.mi
            <= 59 && t.s <= 60,
        utc_secs(written(t)) is Some ==> utc_secs(written(t)) == Some(moment_secs(t)),
{
    reveal_strlit("-");
    reveal_strlit("T");
    reveal_strlit(":");
    reveal_strlit("Z");
    lemma_four(t.y);
    lemma_two(t.mo);
    lemma_two(t.d);
    lemma_two(t.h);
    lemma_two(t.mi);
    lemma_two(t.s);
    let w = written(t);
    assert(w.len() == 20);
    assert(w.subrange(0, 4) =~= zero_padded(digits_of(t.y), 4));
    assert(w.subrange(5, 7) =~= zero_padded(digits_of(t.mo), 2));
    assert(w.subrange(8, 10) =~= zero_padded(digits_of(t.d), 2));
    assert(w.subrange(11, 13) =~= zero_padded(digits_of(t.h), 2));
    assert(w.subrange(14, 16) =~= zero_padded(digits_of(t.mi), 2));
    assert(w.subrange(17, 19) =~= zero_padded(digits_of(t.s), 2));
    assert(w.skip(19) =~= "Z"@);
    assert(moment_in(w) == t);
}

/// Only times in UTC are read: a text that does not end with `Z`, or whose parts are not parted by
/// `-`, `T` and `:` at their places, is none.
pub proof fn law_other_texts_are_no_times(s: Seq<char>)
    ensures
        s.len() < 20 || s.last() != 'Z' ==> utc_secs(s) is None,
        s.len() >= 20 && (s[4] != '-' || s[7] != '-' || s[10] != 'T' || s[13] != ':' || s[16] != ':')
            ==> utc_secs(s) is None,
        s.len() >= 20 && s.len() != 20 && s[19] != '.' ==> utc_secs(s) is None,
        s.len() == 21 ==> utc_secs(s) is None,
        (exists|i: int|
            0 <= i < s.len() - 1 && i != 4 && i != 7 && i != 10 && i != 13 && i != 16 && i != 19
                && !is_digit(#[trigger] s[i])) ==> utc_secs(s) is None,
{
    if s.len() >= 19 {
        let t = s.skip(19);
        if t.len() > 0 {
            assert(t.last() == s.last());
        }
        if t.len() > 1 {
            assert(t[0] == s[19]);
        }
    }
    if utc_secs(s) is Some {
        assert forall|i: int|
            0 <= i < s.len() - 1 && i != 4 && i != 7 && i != 10 && i != 13 && i != 16 && i
                != 19 implies is_digit(#[trigger] s[i]) by {
            if i < 4 {
                assert(s.subrange(0, 4)[i] == s[i]);
            } else if i < 7 {
                assert(s.subrange(5, 7)[i - 5] == s[i]);
            } else if i < 10 {
                assert(s.subrange(8, 10)[i - 8] == s[i]);
            } else if i < 13 {
                assert(s.subrange(11, 13)[i - 11] == s[i]);
            } else if i < 16 {
                assert(s.subrange(14, 16)[i - 14] == s[i]);
            } else if i < 19 {
                assert(s.subrange(17, 19)[i - 17] == s[i]);
            } else {
                let t = s.skip(19);
                assert(t.subrange(1, t.len() - 1)[i - 20] == s[i]);
            }
        }
    }
}

/// Seconds count from the start of 1970, and within a day by hours and minutes.
pub proof fn law_seconds_count_from_1970(h: nat, mi: nat, s: nat, t: Moment)
    ensures
        moment_secs(Moment { y: 1970, mo: 1, d: 1, h, mi, s }) == h * 3600 + mi * 60 + s,
        moment_secs(Moment { h, mi, s, ..t }) == moment_secs(Moment { h: 0, mi: 0, s: 0, ..t }) + h
            * 3600 + mi * 60 + s,
{
}

/// A year has 366 days if and only if four divides it, and, where a hundred divides it, four hundred
/// does too; its months have the days that everyone knows.
pub proof fn law_days_of_a_year(y: nat)
    ensures
        year_days(y + 1) - year_days(y) == if y % 400 == 0 || (y % 4 == 0 && y % 100 != 0) {
            366int
        } else {
            365
        },
        month_days(y as int, 2) == 31,
        month_days(y as int, 3) - month_days(y as int, 2) == year_days(y + 1) - year_days(y) - 337,
        month_days(y as int, 4) - month_days(y as int, 3) == 31,
        month_days(y as int, 5) - month_days(y as int, 4) == 30,
        month_days(y as int, 6) - month_days(y as int, 5) == 31,
        month_days(y as int, 7) - month_days(y as int, 6) == 30,
        month_days(y as int, 8) - month_days(y as int, 7) == 31,
        month_days(y as int, 9) - month_days(y as int, 8) == 31,
        month_days(y as int, 10) - month_days(y as int, 9) == 30,
        month_days(y as int, 11) - month_days(y as int, 10) == 31,
        month_days(y as int, 12) - month_days(y as int, 11) == 30,
{
    reveal_with_fuel(month_days, 13);
    reveal_with_fuel(year_days, 2);
    assert(y % 400 == 0 ==> y % 4 == 0 && y % 100 == 0);
}

} // verus!
