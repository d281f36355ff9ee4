//! ISO 8601 times, as the command line client reads them, and their value in
//! seconds since the Unix epoch (proleptic Gregorian calendar).
use crate::model::Timestamp;
use crate::text::{chars_of, digits_value, is_digit};
use vstd::prelude::*;

verus! {

/// Every character of `ds` is an ASCII digit.
pub open spec fn all_digits(ds: Seq<char>) -> bool {
    forall|i: int| 0 <= i < ds.len() ==> is_digit(#[trigger] ds[i])
}

/// The value of the `k` digits of `s` at `i`, if they are all digits.
pub open spec fn field_value(s: Seq<char>, i: int, k: int) -> Option<int> {
    if 0 <= i && 0 <= k && i + k <= s.len() && all_digits(s.subrange(i, i + k)) {
        Some(digits_value(s.subrange(i, i + k)) as int)
    } else {
        None
    }
}

/// Ten to the power `k`.
pub open spec fn pow10(k: nat) -> nat
    decreases k,
{
    if k == 0 {
        1
    } else {
        10 * pow10((k - 1) as nat)
    }
}

proof fn lemma_pow10_mono(i: nat, j: nat)
    requires
        i <= j,
    ensures
        1 <= pow10(i) <= pow10(j),
    decreases j,
{
    if i < j {
        lemma_pow10_mono(i, (j - 1) as nat);
    } else if i > 0 {
        lemma_pow10_mono((i - 1) as nat, (i - 1) as nat);
    }
}

proof fn lemma_digits_value_bound(ds: Seq<char>)
    requires
        all_digits(ds),
    ensures
        digits_value(ds) < pow10(ds.len()),
    decreases ds.len(),
{
    if ds.len() > 0 {
        let d = ds.drop_last();
        assert forall|i: int| 0 <= i < d.len() implies is_digit(#[trigger] d[i]) by {
            assert(d[i] == ds[i]);
        }
        lemma_digits_value_bound(d);
        assert(is_digit(ds[ds.len() - 1]));
    }
}

/// The value of the `k <= 9` digits of `cs` at `i`, if they are all digits.
fn field(cs: &[char], i: usize, k: usize) -> (res: Option<u64>)
    requires
        i + k <= cs@.len(),
        k <= 9,
    ensures
        match res {
            Some(v) => field_value(cs@, i as int, k as int) == Some(v as int) && v < 1_000_000_000,
            None => field_value(cs@, i as int, k as int) is None,
        },
{
    let ghost ds = cs@.subrange(i as int, i + k);
    let mut val: u64 = 0;
    let mut j: usize = 0;
    proof {
        reveal_with_fuel(pow10, 10);
        assert(pow10(9) == 1_000_000_000);
    }
    while j < k
        invariant
            j <= k <= 9,
            i + k <= cs@.len(),
            cs@.len() == cs.len(),
            ds == cs@.subrange(i as int, i + k),
            all_digits(ds.take(j as int)),
            val as int == digits_value(ds.take(j as int)),
            pow10(9) == 1_000_000_000,
        decreases k - j,
    {
        assert(i + j < cs@.len());
        let c = cs[i + j];
        assert(ds[j as int] == c);
        if !('0' <= c && c <= '9') {
            return None;
        }
        proof {
            lemma_digits_value_bound(ds.take(j as int));
            lemma_pow10_mono(j as nat, 8);
            lemma_pow10_mono(8, 9);
            assert(ds.take(j + 1).drop_last() == ds.take(j as int));
        }
        val = val * 10 + ((c as u32) - 48) as u64;
        j = j + 1;
        proof {
            assert forall|t: int| 0 <= t < j implies is_digit(#[trigger] ds.take(j as int)[t]) by {
                if t < j - 1 {
                    assert(ds.take(j as int)[t] == ds.take(j - 1)[t]);
                }
            }
        }
    }
    proof {
        assert(ds.take(k as int) == ds);
        lemma_digits_value_bound(ds);
        lemma_pow10_mono(k as nat, 9);
    }
    Some(val)
}

/// A leap year of the Gregorian calendar.
pub open spec fn is_leap_year(y: int) -> bool {
    y % 4 == 0 && (y % 100 != 0 || y % 400 == 0)
}

/// The number of days of month `m` of year `y`.
pub open spec fn days_in_month(y: int, m: int) -> int {
    if m == 2 {
        if is_leap_year(y) {
            29
        } else {
            28
        }
    } else if m == 4 || m == 6 || m == 9 || m == 11 {
        30
    } else {
        31
    }
}

/// The number of days of the years before year `y`, counted from year 0.
pub open spec fn days_before_year(y: int) -> int
    decreases y,
{
    if y <= 0 {
        0
    } else {
        days_before_year(y - 1) + if is_leap_year(y - 1) {
            366int
        } else {
            365int
        }
    }
}

/// The number of days of the months of year `y` before month `m`.
pub open spec fn days_before_month(y: int, m: int) -> int
    decreases m,
{
    if m <= 1 {
        0
    } else {
        days_before_month(y, m - 1) + days_in_month(y, m - 1)
    }
}

/// The seconds since the Unix epoch of a time of day on a date, at an offset
/// of `offset` seconds east of UTC.
pub open spec fn epoch_seconds(
    y: int,
    mo: int,
    d: int,
    h: int,
    mi: int,
    sec: int,
    offset: int,
) -> int {
    (days_before_year(y) - days_before_year(1970) + days_before_month(y, mo) + d - 1) * 86400 + h
        * 3600 + mi * 60 + sec - offset
}

fn leap(y: u64) -> (res: bool)
    ensures
        res == is_leap_year(y as int),
{
    y % 4 == 0 && (y % 100 != 0 || y % 400 == 0)
}

fn year_days(y: u64) -> (res: i64)
    requires
        y <= 9999,
    ensures
        res == days_before_year(y as int),
        0 <= res <= 366 * y,
{
    let mut acc: i64 = 0;
    let mut k: u64 = 0;
    while k < y
        invariant
            k <= y <= 9999,
            acc == days_before_year(k as int),
            0 <= acc <= 366 * k,
        decreases y - k,
    {
        let add: i64 = if leap(k) { 366 } else { 365 };
        acc = acc + add;
        k = k + 1;
    }
    acc
}

fn month_length(y: u64, m: u64) -> (res: i64)
    ensures
        res == days_in_month(y as int, m as int),
{
    if m == 2 {
        if leap(y) { 29 } else { 28 }
    } else if m == 4 || m == 6 || m == 9 || m == 11 {
        30
    } else {
        31
    }
}

fn month_days(y: u64, m: u64) -> (res: i64)
    requires
        m <= 12,
    ensures
        res == days_before_month(y as int, m as int),
        0 <= res <= 31 * 12,
{
    let mut acc: i64 = 0;
    let mut k: u64 = 1;
    if m <= 1 {
        return 0;
    }
    while k < m
        invariant
            1 <= k <= m <= 12,
            acc == days_before_month(y as int, k as int),
            0 <= acc <= 31 * k,
        decreases m - k,
    {
        acc = acc + month_length(y, k);
        k = k + 1;
    }
    acc
}


/// The seconds since the Unix epoch of a date and time of day, at `off`
/// seconds east of UTC.
fn epoch(y: u64, mo: u64, d: u64, h: u64, mi: u64, sec: u64, off: i64) -> (res: i64)
    requires
        y <= 9999,
        mo <= 12,
        d <= 31,
        h <= 23,
        mi <= 59,
        sec <= 59,
        -86400 < off < 86400,
    ensures
        res == epoch_seconds(y as int, mo as int, d as int, h as int, mi as int, sec as int, off as int),
{
    let days: i64 = year_days(y) - year_days(1970) + month_days(y, mo) + d as i64 - 1;
    days * 86400 + (h as i64) * 3600 + (mi as i64) * 60 + sec as i64 - off
}

/// The length of the zone designator at the end of `t`: 1 for `Z`, 6 for an
/// offset `+HH:MM` or `-HH:MM`, 0 for none.
pub open spec fn iso_zone_len(t: Seq<char>) -> int {
    if t.len() > 0 && t.last() == 'Z' {
        1
    } else if t.len() >= 6 && (t[t.len() - 6] == '+' || t[t.len() - 6] == '-') {
        6
    } else {
        0
    }
}

/// The offset east of UTC, in seconds, that a zone designator gives: none
/// or `Z` is UTC; `+HH:MM` and `-HH:MM` need an hour up to 23 and minutes up
/// to 59.
pub open spec fn iso_offset(z: Seq<char>) -> Option<int> {
    if z.len() == 0 || (z.len() == 1 && z[0] == 'Z') {
        Some(0)
    } else if z.len() == 6 && (z[0] == '+' || z[0] == '-') && z[3] == ':' {
        match (field_value(z, 1, 2), field_value(z, 4, 2)) {
            (Some(hh), Some(mm)) => if hh <= 23 && mm <= 59 {
                if z[0] == '+' {
                    Some(hh * 3600 + mm * 60)
                } else {
                    Some(-(hh * 3600 + mm * 60))
                }
            } else {
                None
            },
            _ => None,
        }
    } else {
        None
    }
}

/// `ds` followed by zeros up to nine digits.
pub open spec fn zero_padded(ds: Seq<char>) -> Seq<char> {
    ds + Seq::new((9 - ds.len()) as nat, |i: int| '0')
}

/// The nanoseconds that a fraction of a second gives: none is 0, else a dot
/// and one to nine digits.
pub open spec fn iso_nanos(f: Seq<char>) -> Option<int> {
    if f.len() == 0 {
        Some(0)
    } else if 2 <= f.len() <= 10 && f[0] == '.' && all_digits(f.skip(1)) {
        Some(digits_value(zero_padded(f.skip(1))) as int)
    } else {
        None
    }
}

/// The time an ISO 8601 text denotes: a date `YYYY-MM-DD` (midnight UTC), or
/// a date and a time `YYYY-MM-DDTHH:MM:SS`, with an optional fraction of a
/// second (one to nine digits) and an optional zone (`Z` or `+HH:MM` or
/// `-HH:MM`; none is UTC). Months, days, hours, minutes and seconds must be
/// in range; anything else is `None`.
pub open spec fn spec_parse_iso8601(s: Seq<char>) -> Option<Timestamp> {
    if s.len() >= 10 && s[4] == '-' && s[7] == '-' {
        match (field_value(s, 0, 4), field_value(s, 5, 2), field_value(s, 8, 2)) {
            (Some(y), Some(mo), Some(d)) => if 1 <= mo <= 12 && 1 <= d <= days_in_month(y, mo) {
                if s.len() == 10 {
                    Some(Timestamp { sec: epoch_seconds(y, mo, d, 0, 0, 0, 0) as i64, nsec: 0 })
                } else if s.len() >= 19 && s[10] == 'T' && s[13] == ':' && s[16] == ':' {
                    match (field_value(s, 11, 2), field_value(s, 14, 2), field_value(s, 17, 2)) {
                        (Some(h), Some(mi), Some(sec)) => if h <= 23 && mi <= 59 && sec <= 59 {
                            let t = s.subrange(19, s.len() as int);
                            let zl = iso_zone_len(t);
                            match (iso_nanos(t.take(t.len() - zl)), iso_offset(t.skip(t.len() - zl))) {
                                (Some(ns), Some(off)) => Some(
                                    Timestamp {
                                        sec: epoch_seconds(y, mo, d, h, mi, sec, off) as i64,
                                        nsec: ns as u32,
                                    },
                                ),
                                _ => None,
                            }
                        } else {
                            None
                        },
                        _ => None,
                    }
                } else {
                    None
                }
            } else {
                None
            },
            _ => None,
        }
    } else {
        None
    }
}

fn subrange_of(cs: &[char], a: usize, b: usize) -> (res: Vec<char>)
    requires
        a <= b <= cs@.len(),
    ensures
        res@ == cs@.subrange(a as int, b as int),
{
    let mut res: Vec<char> = Vec::new();
    let mut i: usize = a;
    while i < b
        invariant
            a <= i <= b <= cs@.len(),
            res@ == cs@.subrange(a as int, i as int),
        decreases b - i,
    {
        res.push(cs[i]);
        i = i + 1;
        assert(res@ == cs@.subrange(a as int, i as int));
    }
    res
}

fn offset_of(z: &[char]) -> (res: Option<i64>)
    ensures
        match res {
            Some(o) => iso_offset(z@) == Some(o as int) && -86400 < o < 86400,
            None => iso_offset(z@) is None,
        },
{
    if z.len() == 0 || (z.len() == 1 && z[0] == 'Z') {
        return Some(0);
    }
    if !(z.len() == 6 && (z[0] == '+' || z[0] == '-') && z[3] == ':') {
        return None;
    }
    let hh = match field(z, 1, 2) {
        Some(v) => v,
        None => return None,
    };
    let mm = match field(z, 4, 2) {
        Some(v) => v,
        None => return None,
    };
    if !(hh <= 23 && mm <= 59) {
        return None;
    }
    let o: i64 = (hh as i64) * 3600 + (mm as i64) * 60;
    if z[0] == '+' {
        Some(o)
    } else {
        Some(-o)
    }
}

fn nanos_of(f: &[char]) -> (res: Option<u32>)
    ensures
        match res {
            Some(v) => iso_nanos(f@) == Some(v as int),
            None => iso_nanos(f@) is None,
        },
{
    if f.len() == 0 {
        return Some(0);
    }
    if !(2 <= f.len() && f.len() <= 10 && f[0] == '.') {
        return None;
    }
    let ghost ds = f@.skip(1);
    let mut padded = subrange_of(f, 1, f.len());
    assert(padded@ == ds);
    while padded.len() < 9
        invariant
            ds.len() <= padded@.len() <= 9,
            padded@ == ds + Seq::new((padded@.len() - ds.len()) as nat, |i: int| '0'),
        decreases 9 - padded@.len(),
    {
        let ghost before = padded@;
        padded.push('0');
        assert(padded@ =~= ds + Seq::new((padded@.len() - ds.len()) as nat, |i: int| '0'));
    }
    assert(padded@ == zero_padded(ds));
    assert(padded@.subrange(0, 9) == padded@);
    match field(padded.as_slice(), 0, 9) {
        Some(v) => {
            assert forall|i: int| 0 <= i < ds.len() implies is_digit(#[trigger] ds[i]) by {
                assert(padded@[i] == ds[i]);
            }
            Some(v as u32)
        },
        None => {
            proof {
                if all_digits(ds) {
                    assert forall|i: int| 0 <= i < 9 implies is_digit(#[trigger] padded@[i]) by {
                        if i < ds.len() {
                            assert(padded@[i] == ds[i]);
                        }
                    }
                }
            }
            None
        },
    }
}

/// Reads an ISO 8601 time (see `spec_parse_iso8601`).
pub fn parse_iso8601(text: &str) -> (res: Option<Timestamp>)
    ensures
        res == spec_parse_iso8601(text@),
{
    let s = chars_of(text);
    let n = s.len();
    if !(n >= 10 && s[4] == '-' && s[7] == '-') {
        return None;
    }
    let y = match field(s.as_slice(), 0, 4) {
        Some(v) => v,
        None => return None,
    };
    let mo = match field(s.as_slice(), 5, 2) {
        Some(v) => v,
        None => return None,
    };
    let d = match field(s.as_slice(), 8, 2) {
        Some(v) => v,
        None => return None,
    };
    if !(1 <= mo && mo <= 12 && 1 <= d && (d as i64) <= month_length(y, mo)) {
        return None;
    }
    proof {
        assert(digits_value(s@.subrange(0, 4)) < pow10(4)) by {
            lemma_digits_value_bound(s@.subrange(0, 4));
        }
        reveal_with_fuel(pow10, 5);
    }
    if n == 10 {
        return Some(Timestamp { sec: epoch(y, mo, d, 0, 0, 0, 0), nsec: 0 });
    }
    if !(n >= 19 && s[10] == 'T' && s[13] == ':' && s[16] == ':') {
        return None;
    }
    let h = match field(s.as_slice(), 11, 2) {
        Some(v) => v,
        None => return None,
    };
    let mi = match field(s.as_slice(), 14, 2) {
        Some(v) => v,
        None => return None,
    };
    let sec = match field(s.as_slice(), 17, 2) {
        Some(v) => v,
        None => return None,
    };
    if !(h <= 23 && mi <= 59 && sec <= 59) {
        return None;
    }
    let t = subrange_of(s.as_slice(), 19, n);
    let tl = t.len();
    let zl: usize = if tl > 0 && t[tl - 1] == 'Z' {
        1
    } else if tl >= 6 && (t[tl - 6] == '+' || t[tl - 6] == '-') {
        6
    } else {
        0
    };
    assert(zl == iso_zone_len(t@));
    let f = subrange_of(t.as_slice(), 0, tl - zl);
    let z = subrange_of(t.as_slice(), tl - zl, tl);
    assert(f@ == t@.take(t@.len() - zl));
    assert(z@ == t@.skip(t@.len() - zl));
    let ns = match nanos_of(f.as_slice()) {
        Some(v) => v,
        None => return None,
    };
    let off = match offset_of(z.as_slice()) {
        Some(v) => v,
        None => return None,
    };
    Some(Timestamp { sec: epoch(y, mo, d, h, mi, sec, off), nsec: ns })
}


proof fn lemma_days_before_year_bound(y: int)
    requires
        0 <= y,
    ensures
        0 <= days_before_year(y) <= 366 * y,
    decreases y,
{
    if y > 0 {
        lemma_days_before_year_bound(y - 1);
    }
}

proof fn lemma_days_before_month_bound(y: int, m: int)
    requires
        1 <= m,
    ensures
        0 <= days_before_month(y, m) <= 31 * (m - 1),
    decreases m,
{
    if m > 1 {
        lemma_days_before_month_bound(y, m - 1);
    }
}

/// The seconds of a date and time in range fit comfortably in an `i64`.
proof fn lemma_epoch_seconds_bound(y: int, mo: int, d: int, h: int, mi: int, sec: int, off: int)
    requires
        0 <= y <= 9999,
        1 <= mo <= 12,
        1 <= d <= 31,
        0 <= h <= 23,
        0 <= mi <= 59,
        0 <= sec <= 59,
        -86400 < off < 86400,
    ensures
        -1_000_000_000_000 < epoch_seconds(y, mo, d, h, mi, sec, off) < 1_000_000_000_000,
{
    lemma_days_before_year_bound(y);
    lemma_days_before_year_bound(1970);
    lemma_days_before_month_bound(y, mo);
}

proof fn lemma_two_digits(z: Seq<char>, i: int)
    requires
        0 <= i,
        i + 2 <= z.len(),
        is_digit(z[i]),
        is_digit(z[i + 1]),
    ensures
        field_value(z, i, 2) == Some(((z[i] as int) - 48) * 10 + ((z[i + 1] as int) - 48)),
{
    let ds = z.subrange(i, i + 2);
    assert(ds.drop_last().drop_last().len() == 0);
    assert(ds.drop_last().last() == z[i]);
    assert(ds.last() == z[i + 1]);
    assert(all_digits(ds)) by {
        assert forall|k: int| 0 <= k < ds.len() implies is_digit(#[trigger] ds[k]) by {
            assert(ds[k] == z[i + k]);
        }
    }
    let d0 = ds.drop_last();
    assert(digits_value(d0.drop_last()) == 0);
    assert(digits_value(d0) == ((z[i] as u32) - 48) as nat);
    assert(digits_value(ds) == digits_value(d0) * 10 + ((z[i + 1] as u32) - 48) as nat);
}

/// An offset `+HH:MM` is HH hours and MM minutes east of UTC (hours up to
/// 23, minutes up to 59), and `-HH:MM` the same west of it.
pub proof fn lemma_offset_value(sign: char, h1: char, h2: char, m1: char, m2: char)
    requires
        sign == '+' || sign == '-',
        is_digit(h1) && is_digit(h2) && is_digit(m1) && is_digit(m2),
    ensures
        ({
            let hh = ((h1 as int) - 48) * 10 + ((h2 as int) - 48);
            let mm = ((m1 as int) - 48) * 10 + ((m2 as int) - 48);
            let east = hh * 3600 + mm * 60;
            iso_offset(seq![sign, h1, h2, ':', m1, m2]) == if hh <= 23 && mm <= 59 {
                Some(if sign == '+' { east } else { -east })
            } else {
                None
            }
        }),
{
    let z = seq![sign, h1, h2, ':', m1, m2];
    lemma_two_digits(z, 1);
    lemma_two_digits(z, 4);
}

/// An offset written with `-` is the negation of the same offset written
/// with `+`, and one is valid exactly when the other is.
pub proof fn lemma_offset_sign(t: Seq<char>)
    requires
        t.len() > 0,
    ensures
        (iso_offset(seq!['+'] + t) is Some) == (iso_offset(seq!['-'] + t) is Some),
        iso_offset(seq!['+'] + t) is Some ==> iso_offset(seq!['-'] + t)->0 == -iso_offset(
            seq!['+'] + t,
        )->0,
{
    let p = seq!['+'] + t;
    let m = seq!['-'] + t;
    if p.len() == 6 {
        assert(p.subrange(1, 3) == m.subrange(1, 3));
        assert(p.subrange(4, 6) == m.subrange(4, 6));
        assert(p[3] == m[3]);
    }
}

/// A time `s` (a date and a time of day, without fraction or zone) read at
/// an offset `z` east of UTC is `z`'s seconds earlier than the same time read
/// in UTC (`Z`).
pub proof fn lemma_offset_shifts_time(s: Seq<char>, z: Seq<char>)
    requires
        s.len() == 19,
        spec_parse_iso8601(s + seq!['Z']) is Some,
        z.len() == 6,
        z[0] == '+' || z[0] == '-',
        iso_offset(z) is Some,
    ensures
        spec_parse_iso8601(s + z) is Some,
        spec_parse_iso8601(s + z)->0.sec as int == spec_parse_iso8601(s + seq!['Z'])->0.sec as int
            - iso_offset(z)->0,
        spec_parse_iso8601(s + z)->0.nsec == 0,
        spec_parse_iso8601(s + seq!['Z'])->0.nsec == 0,
{
    let a = s + seq!['Z'];
    let b = s + z;
    assert forall|i: int, k: int| 0 <= i && 0 <= k && i + k <= 19 implies field_value(a, i, k)
        == field_value(s, i, k) && field_value(b, i, k) == field_value(s, i, k) by {
        assert(a.subrange(i, i + k) == s.subrange(i, i + k));
        assert(b.subrange(i, i + k) == s.subrange(i, i + k));
    }
    assert(a[4] == s[4] && a[7] == s[7] && a[10] == s[10] && a[13] == s[13] && a[16] == s[16]);
    assert(b[4] == s[4] && b[7] == s[7] && b[10] == s[10] && b[13] == s[13] && b[16] == s[16]);
    let ta = a.subrange(19, a.len() as int);
    let tb = b.subrange(19, b.len() as int);
    assert(ta == seq!['Z']);
    assert(tb == z);
    assert(ta.take(0) == Seq::<char>::empty());
    assert(ta.skip(0) == ta);
    assert(tb.take(0) == Seq::<char>::empty());
    assert(tb.skip(0) == tb);
    assert(field_value(z, 4, 2) is Some);
    assert(z.subrange(4, 6)[1] == z[5]);
    assert(is_digit(z[5]));
    assert(iso_zone_len(tb) == 6);
    let y = field_value(s, 0, 4)->0;
    let mo = field_value(s, 5, 2)->0;
    let d = field_value(s, 8, 2)->0;
    let h = field_value(s, 11, 2)->0;
    let mi = field_value(s, 14, 2)->0;
    let sec = field_value(s, 17, 2)->0;
    let o = iso_offset(z)->0;
    lemma_digits_value_bound(s.subrange(0, 4));
    reveal_with_fuel(pow10, 5);
    assert(-86400 < o < 86400);
    lemma_epoch_seconds_bound(y, mo, d, h, mi, sec, 0);
    lemma_epoch_seconds_bound(y, mo, d, h, mi, sec, o);
}


/// The calendar runs on without gaps: the Unix epoch is 1970-01-01 at
/// midnight UTC; each day is 86400 seconds after the one before it, also
/// across the end of a month and of a year; February has 29 days exactly in
/// Gregorian leap years; and a time of day adds its hours, minutes and
/// seconds to its date's midnight, less the offset east of UTC.
pub proof fn lemma_calendar(y: int, mo: int, d: int, h: int, mi: int, sec: int, off: int)
    requires
        0 <= y,
        1 <= mo <= 12,
        1 <= d <= days_in_month(y, mo),
    ensures
        epoch_seconds(1970, 1, 1, 0, 0, 0, 0) == 0,
        d < days_in_month(y, mo) ==> epoch_seconds(y, mo, d + 1, 0, 0, 0, 0) == epoch_seconds(
            y,
            mo,
            d,
            0,
            0,
            0,
            0,
        ) + 86400,
        d == days_in_month(y, mo) && mo < 12 ==> epoch_seconds(y, mo + 1, 1, 0, 0, 0, 0)
            == epoch_seconds(y, mo, d, 0, 0, 0, 0) + 86400,
        d == days_in_month(y, mo) && mo == 12 ==> epoch_seconds(y + 1, 1, 1, 0, 0, 0, 0)
            == epoch_seconds(y, mo, d, 0, 0, 0, 0) + 86400,
        (days_in_month(y, 2) == 29) == (y % 4 == 0 && (y % 100 != 0 || y % 400 == 0)),
        days_in_month(y, 2) == 28 || days_in_month(y, 2) == 29,
        epoch_seconds(y, mo, d, h, mi, sec, off) == epoch_seconds(y, mo, d, 0, 0, 0, 0) + h * 3600
            + mi * 60 + sec - off,
{
    reveal_with_fuel(days_before_month, 13);
    assert(days_before_month(y, 12) == if is_leap_year(y) { 335int } else { 334int });
}


/// The value of a decimal digit character.
pub open spec fn digit_of(c: char) -> int {
    (c as int) - 48
}

proof fn lemma_digits_push(ds: Seq<char>, c: char)
    ensures
        digits_value(ds.push(c)) == digits_value(ds) * 10 + ((c as u32) - 48) as nat,
{
    assert(ds.push(c).drop_last() == ds);
}

proof fn lemma_four_digits(z: Seq<char>, i: int)
    requires
        0 <= i,
        i + 4 <= z.len(),
        is_digit(z[i]) && is_digit(z[i + 1]) && is_digit(z[i + 2]) && is_digit(z[i + 3]),
    ensures
        field_value(z, i, 4) == Some(
            digit_of(z[i]) * 1000 + digit_of(z[i + 1]) * 100 + digit_of(z[i + 2]) * 10 + digit_of(
                z[i + 3],
            ),
        ),
{
    let ds = z.subrange(i, i + 4);
    assert(all_digits(ds)) by {
        assert forall|k: int| 0 <= k < ds.len() implies is_digit(#[trigger] ds[k]) by {
            assert(ds[k] == z[i + k]);
        }
    }
    let e = Seq::<char>::empty();
    assert(ds == e.push(z[i]).push(z[i + 1]).push(z[i + 2]).push(z[i + 3]));
    lemma_digits_push(e, z[i]);
    lemma_digits_push(e.push(z[i]), z[i + 1]);
    lemma_digits_push(e.push(z[i]).push(z[i + 1]), z[i + 2]);
    lemma_digits_push(e.push(z[i]).push(z[i + 1]).push(z[i + 2]), z[i + 3]);
}

/// The digit positions of a text `YYYY-MM-DDTHH:MM:SS`.
pub open spec fn date_time_digits(s: Seq<char>) -> bool {
    &&& s.len() >= 19
    &&& is_digit(s[0]) && is_digit(s[1]) && is_digit(s[2]) && is_digit(s[3])
    &&& s[4] == '-' && is_digit(s[5]) && is_digit(s[6]) && s[7] == '-'
    &&& is_digit(s[8]) && is_digit(s[9]) && s[10] == 'T'
    &&& is_digit(s[11]) && is_digit(s[12]) && s[13] == ':'
    &&& is_digit(s[14]) && is_digit(s[15]) && s[16] == ':'
    &&& is_digit(s[17]) && is_digit(s[18])
}

/// A text `YYYY-MM-DDTHH:MM:SSZ` denotes that date and time of day in UTC,
/// year, month, day, hour, minute and second read from their places, and is
/// refused when one of them is out of range; its first ten characters alone
/// denote midnight of that date.
pub proof fn lemma_parse_date_time(s: Seq<char>)
    requires
        s.len() == 20,
        date_time_digits(s),
        s[19] == 'Z',
    ensures
        ({
            let y = digit_of(s[0]) * 1000 + digit_of(s[1]) * 100 + digit_of(s[2]) * 10 + digit_of(
                s[3],
            );
            let mo = digit_of(s[5]) * 10 + digit_of(s[6]);
            let d = digit_of(s[8]) * 10 + digit_of(s[9]);
            let h = digit_of(s[11]) * 10 + digit_of(s[12]);
            let mi = digit_of(s[14]) * 10 + digit_of(s[15]);
            let sec = digit_of(s[17]) * 10 + digit_of(s[18]);
            let date_ok = 1 <= mo <= 12 && 1 <= d <= days_in_month(y, mo);
            &&& spec_parse_iso8601(s) == if date_ok && h <= 23 && mi <= 59 && sec <= 59 {
                Some(Timestamp { sec: epoch_seconds(y, mo, d, h, mi, sec, 0) as i64, nsec: 0 })
            } else {
                None
            }
            &&& spec_parse_iso8601(s.take(10)) == if date_ok {
                Some(Timestamp { sec: epoch_seconds(y, mo, d, 0, 0, 0, 0) as i64, nsec: 0 })
            } else {
                None
            }
        }),
{
    lemma_four_digits(s, 0);
    lemma_two_digits(s, 5);
    lemma_two_digits(s, 8);
    lemma_two_digits(s, 11);
    lemma_two_digits(s, 14);
    lemma_two_digits(s, 17);
    let p = s.take(10);
    assert forall|i: int, k: int| 0 <= i && 0 <= k && i + k <= 10 implies field_value(p, i, k)
        == field_value(s, i, k) by {
        assert(p.subrange(i, i + k) == s.subrange(i, i + k));
    }
    let t = s.subrange(19, 20);
    assert(t == seq!['Z']);
    assert(t.take(0) == Seq::<char>::empty());
    assert(t.skip(0) == t);
}

proof fn lemma_zeros(ds: Seq<char>, n: nat)
    ensures
        digits_value(ds + Seq::new(n, |i: int| '0')) == digits_value(ds) * pow10(n),
    decreases n,
{
    if n == 0 {
        assert(ds + Seq::new(n, |i: int| '0') == ds);
        let a = digits_value(ds) as int;
        let pn = pow10(n) as int;
        assert(pn == 1);
        assert(a * pn == a) by (nonlinear_arith)
            requires
                pn == 1,
        ;
    } else {
        let m = (n - 1) as nat;
        let x = ds + Seq::new(m, |i: int| '0');
        lemma_zeros(ds, m);
        assert(ds + Seq::new(n, |i: int| '0') == x.push('0'));
        lemma_digits_push(x, '0');
        assert(('0' as u32) - 48 == 0);
        assert(digits_value(x.push('0')) == digits_value(x) * 10);
        let a = digits_value(ds) as int;
        let pm = pow10(m) as int;
        let pn = pow10(n) as int;
        assert(pn == 10 * pm);
        assert(a * pm * 10 == a * pn) by (nonlinear_arith)
            requires
                pn == 10 * pm,
        ;
        assert(digits_value(x) == a * pm);
        assert(digits_value(ds + Seq::new(n, |i: int| '0')) == a * pn);
    }
}

/// A fraction of a second of `k` digits (one to nine) gives its value
/// times ten to the power `9 - k` nanoseconds.
pub proof fn lemma_fraction_nanos(ds: Seq<char>)
    requires
        1 <= ds.len() <= 9,
        all_digits(ds),
    ensures
        iso_nanos(seq!['.'] + ds) == Some((digits_value(ds) * pow10((9 - ds.len()) as nat)) as int),
{
    let f = seq!['.'] + ds;
    assert(f.skip(1) == ds);
    lemma_zeros(ds, (9 - ds.len()) as nat);
}

} // verus!
