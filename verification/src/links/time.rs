//! Calendar arithmetic on instants, in UTC, without a date library.

use vstd::prelude::*;
use crate::acl::edit::{first_index_of, lemma_first_index, lemma_first_index_none};
use crate::text::{
    decimal, push_decimal, push_padded, zero_padded, chars_of, push_range, push_str, split_char, split_vec, string_of, trim, trim_bounds, views,
};

verus! {

/// The month counted from March: March is 0 and February is 11.
pub open spec fn march_month(month: int) -> int {
    if month > 2 {
        month - 3
    } else {
        month + 9
    }
}

/// Day of the March-based year on which a month begins.
pub open spec fn month_start(mp: int) -> int {
    (153 * mp + 2) / 5
}

/// Day of a 400-year era on which its `yoe`-th March-based year begins.
pub open spec fn year_start(yoe: int) -> int {
    365 * yoe + yoe / 4 - yoe / 100
}

/// Days since 1970-01-01 of a proleptic Gregorian date.
pub open spec fn days_from_civil_spec(year: int, month: int, day: int) -> int {
    let y = if month <= 2 { year - 1 } else { year };
    let era = y / 400;
    let yoe = y - era * 400;
    let doe = year_start(yoe) + month_start(march_month(month)) + day - 1;
    era * 146097 + doe - 719468
}

/// The March-based year of the era in which its `doe`-th day falls.
pub open spec fn year_of_era(doe: int) -> int {
    (doe - doe / 1460 + doe / 36524 - doe / 146096) / 365
}

/// The date `days` after 1970-01-01, as (year, month, day).
pub open spec fn civil_from_days_spec(days: int) -> (int, int, int) {
    let z = days + 719468;
    let era = z / 146097;
    let doe = z % 146097;
    let yoe = year_of_era(doe);
    let doy = doe - year_start(yoe);
    let mp = (5 * doy + 2) / 153;
    let day = doy - month_start(mp) + 1;
    let month = if mp < 10 { mp + 3 } else { mp - 9 };
    (if month <= 2 { yoe + era * 400 + 1 } else { yoe + era * 400 }, month, day)
}

pub open spec fn is_leap_year(year: int) -> bool {
    (year % 4 == 0 && year % 100 != 0) || year % 400 == 0
}

pub open spec fn days_in_month(year: int, month: int) -> int {
    if month == 1 || month == 3 || month == 5 || month == 7 || month == 8 || month == 10
        || month == 12 {
        31
    } else if month == 4 || month == 6 || month == 9 || month == 11 {
        30
    } else if month == 2 {
        if is_leap_year(year) {
            29
        } else {
            28
        }
    } else {
        0
    }
}

/// A real calendar date.
pub open spec fn valid_date(year: int, month: int, day: int) -> bool {
    1 <= month <= 12 && 1 <= day <= days_in_month(year, month)
}

/// Years whose day counts fit in an `i64`: about as far as the arithmetic goes
/// before it overflows, near 2.5 * 10^16 years either way.
pub open spec fn year_in_range(year: int) -> bool {
    -25_000_000_000_000_000 <= year <= 25_000_000_000_000_000
}

/// Hinnant's year recovery inverts `year_start` within an era.
#[verifier::spinoff_prover]
proof fn lemma_recover_year(yoe: int, doy: int)
    requires
        0 <= yoe <= 399,
        0 <= doy <= 365,
        doy == 365 ==> ((yoe + 1) % 4 == 0 && ((yoe + 1) % 100 != 0 || yoe == 399)),
    ensures
        year_of_era(year_start(yoe) + doy) == yoe,
{
    let c = yoe / 100;
    let q = (yoe % 100) / 4;
    let t = yoe % 4;
    assert(yoe == 100 * c + 4 * q + t && yoe / 4 == 25 * c + q && 0 <= c <= 3 && 0 <= q <= 24
        && 0 <= t <= 3);
    let doe = year_start(yoe) + doy;
    assert(doe == 36524 * c + 1461 * q + 365 * t + doy);
    let r = 24 * c + q + 365 * t + doy;
    let k: int = if r >= 1460 { 1 } else { 0 };
    let e: int = if c == 3 && q == 24 && t == 3 && doy == 365 { 1 } else { 0 };
    assert(doe == 1460 * (25 * c + q) + r);
    assert(doe / 1460 == 25 * c + q + k);
    assert(doe / 36524 == c + e);
    assert(doe / 146096 == e);
    assert(doe - doe / 1460 + doe / 36524 - doe / 146096 == 365 * yoe + (doy - k));
    assert(0 <= doy - k <= 364);
}

/// Hinnant's month recovery inverts `month_start` within a March-based year.
proof fn lemma_recover_month(mp: int, day: int)
    requires
        0 <= mp <= 11,
        1 <= day <= month_start(mp + 1) - month_start(mp),
    ensures
        (5 * (month_start(mp) + day - 1) + 2) / 153 == mp,
{
}

/// Reading a date back from its day count gives the date: days_from_civil and
/// civil_from_days are inverse on every real calendar date.
#[verifier::spinoff_prover]
pub proof fn lemma_civil_round_trip(year: int, month: int, day: int)
    requires
        valid_date(year, month, day),
    ensures
        civil_from_days_spec(days_from_civil_spec(year, month, day)) == (year, month, day),
{
    let y = if month <= 2 { year - 1 } else { year };
    let era = y / 400;
    let yoe = y - era * 400;
    let mp = march_month(month);
    let doy = month_start(mp) + day - 1;
    let doe = year_start(yoe) + doy;
    assert(0 <= yoe <= 399);
    assert(0 <= mp <= 11);
    assert(1 <= day <= month_start(mp + 1) - month_start(mp)) by {
        if month == 2 {
            assert(month_start(12) - month_start(11) == 30);
        }
    }
    assert(0 <= doy <= 365);
    if doy == 365 {
        assert(month == 2 && day == 29);
        assert(year == era * 400 + yoe + 1);
        assert(is_leap_year(year));
        assert(year % 4 == (yoe + 1) % 4);
        assert(year % 100 == (yoe + 1) % 100);
        assert(year % 400 == (yoe + 1) % 400);
    }
    lemma_recover_year(yoe, doy);
    lemma_recover_month(mp, day);
    assert(0 <= doe < 146097);
    let z = days_from_civil_spec(year, month, day) + 719468;
    assert(z == era * 146097 + doe);
    assert(z / 146097 == era);
    assert(z % 146097 == doe);
}

/// Days since 1970-01-01 of a proleptic Gregorian date (Howard Hinnant's algorithm).
#[verifier::spinoff_prover]
pub fn days_from_civil(year: i64, month: u32, day: u32) -> (days: i64)
    requires
        year_in_range(year as int),
    ensures
        days == days_from_civil_spec(year as int, month as int, day as int),
{
    let y: i64 = if month <= 2 { year - 1 } else { year };
    let era: i64 = y.checked_div_euclid(400).unwrap();
    let yoe: i64 = y - era * 400;
    let m: i64 = month as i64;
    let mp: i64 = if m > 2 { m - 3 } else { m + 9 };
    let doy: i64 = (153 * mp + 2) / 5 + day as i64 - 1;
    let doe: i64 = yoe * 365 + yoe / 4 - yoe / 100 + doy;
    era * 146_097 + doe - 719_468
}

/// Day counts whose dates stay within `year_in_range`.
pub open spec fn days_in_range(days: int) -> bool {
    -9_200_000_000_000_000_000 <= days <= 9_200_000_000_000_000_000
}

/// The day count of every real date in the supported years is one `civil_from_days`
/// accepts, so converting a date to days and back works for all of them.
pub proof fn lemma_days_of_supported_year(year: int, month: int, day: int)
    requires
        valid_date(year, month, day),
        year_in_range(year),
    ensures
        days_in_range(days_from_civil_spec(year, month, day)),
        civil_from_days_spec(days_from_civil_spec(year, month, day)) == (year, month, day),
{
    lemma_civil_round_trip(year, month, day);
    let y = if month <= 2 { year - 1 } else { year };
    let era = y / 400;
    let yoe = y - era * 400;
    assert(0 <= yoe < 400);
    assert(-62_500_000_000_001 <= era <= 62_500_000_000_000);
    assert(0 <= month_start(march_month(month)) <= 337);
    assert(0 <= year_start(yoe) <= 146000);
}

/// The date `days` after 1970-01-01, as (year, month, day).
#[verifier::spinoff_prover]
pub fn civil_from_days(days: i64) -> (date: (i64, u32, u32))
    requires
        days_in_range(days as int),
    ensures
        (date.0 as int, date.1 as int, date.2 as int) == civil_from_days_spec(days as int),
{
    let z: i64 = days + 719_468;
    let era: i64 = z.checked_div_euclid(146_097).unwrap();
    let day_of_era: i64 = z.checked_rem_euclid(146_097).unwrap();
    let year_of_era: i64 = (day_of_era - day_of_era / 1_460 + day_of_era / 36_524 - day_of_era
        / 146_096) / 365;
    let year: i64 = year_of_era + era * 400;
    let day_of_year: i64 = day_of_era - (365 * year_of_era + year_of_era / 4 - year_of_era / 100);
    let month_prime: i64 = (5 * day_of_year + 2) / 153;
    let day: i64 = day_of_year - (153 * month_prime + 2) / 5 + 1;
    let month: i64 = if month_prime < 10 { month_prime + 3 } else { month_prime - 9 };
    (if month <= 2 { year + 1 } else { year }, month as u32, day as u32)
}

pub open spec fn is_sep(c: char) -> bool {
    c == 'T' || c == ' '
}

pub open spec fn is_sign(c: char) -> bool {
    c == '+' || c == '-'
}

/// Position of the first `T` or space in `s`, or -1.
pub open spec fn first_sep(s: Seq<char>) -> int
    decreases s.len(),
{
    if s.len() == 0 {
        -1
    } else if is_sep(s[0]) {
        0
    } else if first_sep(s.drop_first()) < 0 {
        -1
    } else {
        first_sep(s.drop_first()) + 1
    }
}

/// Position of the last `+` or `-` in `s`, or -1.
pub open spec fn last_sign(s: Seq<char>) -> int
    decreases s.len(),
{
    if s.len() == 0 {
        -1
    } else if is_sign(s.last()) {
        s.len() - 1
    } else {
        last_sign(s.drop_last())
    }
}

proof fn lemma_first_sep(s: Seq<char>, k: int)
    requires
        0 <= k <= s.len(),
        k < s.len() ==> is_sep(s[k]),
        forall|j: int| 0 <= j < k ==> !is_sep(s[j]),
    ensures
        first_sep(s) == if k < s.len() { k } else { -1 },
    decreases k,
{
    if k > 0 {
        lemma_first_sep(s.drop_first(), k - 1);
    }
}

proof fn lemma_last_sign(s: Seq<char>, k: int)
    requires
        -1 <= k < s.len(),
        k >= 0 ==> is_sign(s[k]),
        forall|j: int| k < j < s.len() ==> !is_sign(s[j]),
    ensures
        last_sign(s) == k,
    decreases s.len(),
{
    if s.len() > 0 && k < s.len() - 1 {
        lemma_last_sign(s.drop_last(), k);
    }
}

/// The value of a nonempty run of ASCII digits.
pub open spec fn digits_value(s: Seq<char>) -> nat
    decreases s.len(),
{
    if s.len() == 0 {
        0
    } else {
        digits_value(s.drop_last()) * 10 + ((s.last() as int - 48) as nat)
    }
}

pub open spec fn all_digits(s: Seq<char>) -> bool {
    forall|i: int| 0 <= i < s.len() ==> '0' <= #[trigger] s[i] <= '9'
}

/// What `str::parse` reads as an unsigned integer: an optional `+`, then digits.
pub open spec fn uint_value(s: Seq<char>) -> Option<nat> {
    let d = if s.len() > 0 && s[0] == '+' { s.skip(1) } else { s };
    if d.len() > 0 && all_digits(d) {
        Some(digits_value(d))
    } else {
        None
    }
}

/// `uint_value`, refusing anything above `cap`.
pub open spec fn capped_value(s: Seq<char>, cap: int) -> Option<nat> {
    match uint_value(s) {
        Some(n) => if n <= cap { Some(n) } else { None },
        None => None,
    }
}

fn parse_capped(v: &Vec<char>, lo: usize, hi: usize, cap: u64) -> (r: Option<u64>)
    requires
        lo <= hi <= v.len(),
        cap <= 1_000_000_000,
    ensures
        match r {
            Some(n) => capped_value(v@.subrange(lo as int, hi as int), cap as int) == Some(n as nat)
                && n <= cap,
            None => capped_value(v@.subrange(lo as int, hi as int), cap as int) is None,
        },
{
    let ghost s = v@.subrange(lo as int, hi as int);
    let start: usize = if lo < hi && v[lo] == '+' { lo + 1 } else { lo };
    let ghost d = v@.subrange(start as int, hi as int);
    assert(d =~= if s.len() > 0 && s[0] == '+' { s.skip(1) } else { s });
    if start == hi {
        return None;
    }
    let mut value: u64 = 0;
    let mut i: usize = start;
    while i < hi
        invariant
            lo <= start <= i <= hi <= v.len(),
            d == v@.subrange(start as int, hi as int),
            s == v@.subrange(lo as int, hi as int),
            d == if s.len() > 0 && s[0] == '+' { s.skip(1) } else { s },
            cap <= 1_000_000_000,
            value <= cap,
            all_digits(v@.subrange(start as int, i as int)),
            value == digits_value(v@.subrange(start as int, i as int)),
        decreases hi - i,
    {
        let c = v[i];
        if !('0' <= c && c <= '9') {
            assert(!all_digits(d)) by {
                assert(d[i - start] == c);
            }
            return None;
        }
        let ghost prev = v@.subrange(start as int, i as int);
        assert(v@.subrange(start as int, i + 1) =~= prev.push(c));
        assert(v@.subrange(start as int, i + 1).drop_last() =~= prev);
        let next: u64 = value * 10 + (c as u64 - 48);
        i += 1;
        if next > cap {
            proof {
                assert(d.take(i - start) =~= v@.subrange(start as int, i as int));
                lemma_digits_grow(d, i - start);
            }
            return None;
        }
        value = next;
    }
    assert(v@.subrange(start as int, hi as int) =~= d);
    Some(value)
}

pub proof fn lemma_digits_grow(d: Seq<char>, k: int)
    requires
        0 < k <= d.len(),
        all_digits(d.take(k)),
    ensures
        all_digits(d) ==> digits_value(d) >= digits_value(d.take(k)),
    decreases d.len() - k,
{
    if k < d.len() && all_digits(d) {
        lemma_digits_grow(d, k + 1);
        assert(d.take(k + 1).drop_last() =~= d.take(k));
    } else if k == d.len() {
        assert(d.take(k) =~= d);
    }
}

/// `YYYY-MM-DD`, read as (year, month, day) when it names a real date.
pub open spec fn parse_date_spec(part: Seq<char>) -> Option<(int, int, int)> {
    let f = split_char(part, '-');
    if f.len() != 3 || f[0].len() != 4 || f[1].len() != 2 || f[2].len() != 2 {
        None
    } else {
        match (uint_value(f[0]), uint_value(f[1]), uint_value(f[2])) {
            (Some(y), Some(m), Some(d)) => if valid_date(y as int, m as int, d as int) {
                Some((y as int, m as int, d as int))
            } else {
                None
            },
            _ => None,
        }
    }
}

/// Whether every field of a split time is two characters holding a number.
pub open spec fn time_fields_ok(f: Seq<Seq<char>>) -> bool {
    forall|i: int| 0 <= i < f.len() ==> #[trigger] f[i].len() == 2 && uint_value(f[i]) is Some
}

/// `HH:MM` or `HH:MM:SS`, read as (hours, minutes, seconds) when in range.
pub open spec fn parse_time_spec(part: Seq<char>) -> Option<(int, int, int)> {
    let f = split_char(part, ':');
    if f.len() < 2 || f.len() > 3 || !time_fields_ok(f) {
        None
    } else {
        let h = uint_value(f[0])->0 as int;
        let m = uint_value(f[1])->0 as int;
        let sec = if f.len() == 3 { uint_value(f[2])->0 as int } else { 0 };
        if h > 23 || m > 59 || sec > 59 {
            None
        } else {
            Some((h, m, sec))
        }
    }
}

pub open spec fn all_ascii(s: Seq<char>) -> bool {
    forall|i: int| 0 <= i < s.len() ==> (#[trigger] s[i] as u32) < 128
}

/// Where the body before a UTC offset ends, and where the offset's sign stands, when
/// `raw` carries a `±HH:MM` offset after its date.
pub open spec fn offset_sign_at(raw: Seq<char>) -> int {
    let from = if first_sep(raw) < 0 { 0 } else { first_sep(raw) };
    let rel = last_sign(raw.skip(from));
    if rel >= 0 && from > 0 {
        from + rel
    } else {
        -1
    }
}

pub open spec fn has_zulu(raw: Seq<char>) -> bool {
    raw.len() > 0 && (raw.last() == 'Z' || raw.last() == 'z')
}

/// The hours and minutes text of an offset's digits.
pub open spec fn offset_parts(digits: Seq<char>) -> Option<(Seq<char>, Seq<char>)> {
    let k = first_index_of(digits, ':');
    if k >= 0 {
        Some((digits.take(k), digits.skip(k + 1)))
    } else if digits.len() == 4 && all_ascii(digits) {
        Some((digits.take(2), digits.skip(2)))
    } else {
        None
    }
}

/// The timestamp body and its UTC offset in minutes, or None when the offset is
/// malformed.
pub open spec fn split_offset_spec(raw: Seq<char>) -> Option<(Seq<char>, int)> {
    if has_zulu(raw) {
        Some((raw.drop_last(), 0))
    } else {
        let pos = offset_sign_at(raw);
        if pos < 0 {
            Some((raw, 0))
        } else {
            match offset_parts(raw.skip(pos + 1)) {
                None => None,
                Some(hm) => match (uint_value(hm.0), uint_value(hm.1)) {
                    (Some(h), Some(m)) => if h > 23 || m > 59 {
                        None
                    } else {
                        Some(
                            (
                                raw.take(pos),
                                if raw[pos] == '-' {
                                    -(h * 60 + m)
                                } else {
                                    (h * 60 + m) as int
                                },
                            ),
                        )
                    },
                    _ => None,
                },
            }
        }
    }
}

/// Bytes of a character in UTF-8.
pub open spec fn utf8_len(c: char) -> int {
    if (c as u32) < 0x80 {
        1
    } else if (c as u32) < 0x800 {
        2
    } else if (c as u32) < 0x10000 {
        3
    } else {
        4
    }
}

pub open spec fn utf8_bytes(s: Seq<char>) -> int
    decreases s.len(),
{
    if s.len() == 0 {
        0
    } else {
        utf8_bytes(s.drop_last()) + utf8_len(s.last())
    }
}

/// Whether reading `raw` slices a four-byte offset through the middle of a character,
/// which `str` indexing refuses by panicking.
pub open spec fn until_panics(raw: Seq<char>) -> bool {
    let t = trim(raw);
    let pos = offset_sign_at(t);
    let digits = t.skip(pos + 1);
    &&& t.len() > 0
    &&& !has_zulu(t)
    &&& pos >= 0
    &&& first_index_of(digits, ':') < 0
    &&& utf8_bytes(digits) == 4
    &&& !(utf8_len(digits[0]) == 2 || (utf8_len(digits[0]) == 1 && utf8_len(digits[1]) == 1))
}

/// Milliseconds since the epoch named by a `--until` value, or None when it is refused.
pub open spec fn parse_until_spec(raw: Seq<char>) -> Option<int> {
    let t = trim(raw);
    if t.len() == 0 {
        None
    } else {
        match split_offset_spec(t) {
            None => None,
            Some(bo) => {
                let body = bo.0;
                let k = first_sep(body);
                let date = if k >= 0 { body.take(k) } else { body };
                match parse_date_spec(date) {
                    None => None,
                    Some(ymd) => {
                        let hms = if k >= 0 {
                            parse_time_spec(body.skip(k + 1))
                        } else {
                            Some((23, 59, 59))
                        };
                        match hms {
                            None => None,
                            Some(x) => Some(
                                (days_from_civil_spec(ymd.0, ymd.1, ymd.2) * 86400 + x.0 * 3600
                                    + x.1 * 60 + x.2 - bo.1 * 60) * 1000,
                            ),
                        }
                    },
                }
            },
        }
    }
}

pub open spec fn pow10(n: nat) -> nat
    decreases n,
{
    if n == 0 {
        1
    } else {
        10 * pow10((n - 1) as nat)
    }
}

proof fn lemma_digits_bound(s: Seq<char>)
    requires
        all_digits(s),
    ensures
        digits_value(s) < pow10(s.len()),
    decreases s.len(),
{
    if s.len() > 0 {
        assert(all_digits(s.drop_last()));
        lemma_digits_bound(s.drop_last());
    }
}

proof fn lemma_small_uint(s: Seq<char>)
    requires
        s.len() <= 4,
    ensures
        uint_value(s) is Some ==> uint_value(s)->0 < 10000,
{
    let d = if s.len() > 0 && s[0] == '+' { s.skip(1) } else { s };
    if d.len() > 0 && all_digits(d) {
        lemma_digits_bound(d);
        assert(pow10(0) == 1);
        assert(pow10(1) == 10);
        assert(pow10(2) == 100);
        assert(pow10(3) == 1000);
        assert(pow10(4) == 10000);
    }
}

/// `uint_value` of a piece of at most four characters.
fn small_uint(v: &Vec<char>) -> (r: Option<u64>)
    requires
        v.len() <= 4,
    ensures
        match r {
            Some(n) => uint_value(v@) == Some(n as nat) && n < 10000,
            None => uint_value(v@) is None,
        },
{
    proof {
        lemma_small_uint(v@);
    }
    assert(v@.subrange(0, v@.len() as int) =~= v@);
    parse_capped(v, 0, v.len(), 9999)
}

fn is_leap_exec(year: i64) -> (r: bool)
    ensures
        r == is_leap_year(year as int),
{
    let r4 = year.checked_rem_euclid(4).unwrap();
    let r100 = year.checked_rem_euclid(100).unwrap();
    let r400 = year.checked_rem_euclid(400).unwrap();
    (r4 == 0 && r100 != 0) || r400 == 0
}

fn days_in_month_exec(year: i64, month: u32) -> (r: u32)
    ensures
        r as int == days_in_month(year as int, month as int),
{
    if month == 1 || month == 3 || month == 5 || month == 7 || month == 8 || month == 10
        || month == 12 {
        31
    } else if month == 4 || month == 6 || month == 9 || month == 11 {
        30
    } else if month == 2 {
        if is_leap_exec(year) {
            29
        } else {
            28
        }
    } else {
        0
    }
}

fn parse_date(part: &Vec<char>) -> (r: Option<(i64, u32, u32)>)
    ensures
        match r {
            Some(ymd) => parse_date_spec(part@) == Some((ymd.0 as int, ymd.1 as int, ymd.2 as int))
                && 0 <= ymd.0 <= 9999 && 1 <= ymd.1 <= 12 && 1 <= ymd.2 <= 31,
            None => parse_date_spec(part@) is None,
        },
{
    let f = split_vec(part, '-');
    proof {
        assert(views(f@) == split_char(part@, '-'));
        assert(forall|i: int| 0 <= i < f@.len() ==> #[trigger] views(f@)[i] == f@[i]@);
    }
    if f.len() != 3 || f[0].len() != 4 || f[1].len() != 2 || f[2].len() != 2 {
        return None;
    }
    let ghost fs = split_char(part@, '-');
    assert(fs[0] == f@[0]@ && fs[1] == f@[1]@ && fs[2] == f@[2]@);
    let y = match small_uint(&f[0]) {
        Some(y) => y,
        None => return None,
    };
    let m = match small_uint(&f[1]) {
        Some(m) => m,
        None => return None,
    };
    let d = match small_uint(&f[2]) {
        Some(d) => d,
        None => return None,
    };
    let year = y as i64;
    if m < 1 || m > 12 {
        return None;
    }
    let dim = days_in_month_exec(year, m as u32);
    if d < 1 || d > dim as u64 {
        return None;
    }
    Some((year, m as u32, d as u32))
}

/// A two-character time field and the number read from it.
spec fn field_read(field: Seq<char>, value: u64) -> bool {
    field.len() == 2 && uint_value(field) == Some(value as nat)
}

fn parse_time(part: &Vec<char>) -> (r: Option<(i64, i64, i64)>)
    ensures
        match r {
            Some(hms) => parse_time_spec(part@) == Some((hms.0 as int, hms.1 as int, hms.2 as int))
                && 0 <= hms.0 <= 23 && 0 <= hms.1 <= 59 && 0 <= hms.2 <= 59,
            None => parse_time_spec(part@) is None,
        },
{
    let f = split_vec(part, ':');
    proof {
        assert(views(f@) == split_char(part@, ':'));
        assert(forall|i: int| 0 <= i < f@.len() ==> #[trigger] views(f@)[i] == f@[i]@);
    }
    if f.len() < 2 || f.len() > 3 {
        return None;
    }
    let mut values: Vec<u64> = Vec::new();
    let mut i: usize = 0;
    while i < f.len()
        invariant
            i <= f.len() <= 3,
            values.len() == i,
            views(f@) == split_char(part@, ':'),
            forall|j: int| 0 <= j < f@.len() ==> #[trigger] views(f@)[j] == f@[j]@,
            forall|j: int| 0 <= j < i ==> field_read(#[trigger] f@[j]@, values@[j]),
        decreases f.len() - i,
    {
        let ghost old_values = values@;
        if f[i].len() != 2 {
            assert(!time_fields_ok(split_char(part@, ':'))) by {
                assert(split_char(part@, ':')[i as int] == f@[i as int]@);
            }
            return None;
        }
        let parsed = small_uint(&f[i]);
        if parsed.is_none() {
            assert(!time_fields_ok(split_char(part@, ':'))) by {
                assert(split_char(part@, ':')[i as int] == f@[i as int]@);
            }
            return None;
        }
        let n = parsed.unwrap();
        values.push(n);
        assert forall|j: int| 0 <= j < i + 1 implies field_read(#[trigger] f@[j]@, values@[j]) by {
            if j < i {
                assert(values@[j] == old_values[j]);
            }
        }
        i += 1;
    }
    let ghost fs = split_char(part@, ':');
    assert(time_fields_ok(fs)) by {
        assert forall|j: int| 0 <= j < fs.len() implies #[trigger] fs[j].len() == 2 && uint_value(
            fs[j],
        ) is Some by {
            assert(fs[j] == f@[j]@);
            assert(field_read(f@[j]@, values@[j]));
        }
    }
    assert(fs[0] == f@[0]@ && fs[1] == f@[1]@);
    assert(field_read(f@[0]@, values@[0]) && field_read(f@[1]@, values@[1]));
    let h = values[0];
    let m = values[1];
    let sec = if values.len() == 3 {
        assert(fs[2] == f@[2]@ && field_read(f@[2]@, values@[2]));
        values[2]
    } else {
        0
    };
    if h > 23 || m > 59 || sec > 59 {
        return None;
    }
    Some((h as i64, m as i64, sec as i64))
}

/// The position of the first `T` or space in `v[..hi]`.
fn find_sep(v: &Vec<char>, hi: usize) -> (r: Option<usize>)
    requires
        hi <= v.len(),
    ensures
        match r {
            Some(k) => k as int == first_sep(v@.take(hi as int)) && k < hi,
            None => first_sep(v@.take(hi as int)) == -1,
        },
{
    let mut i: usize = 0;
    while i < hi
        invariant
            i <= hi <= v.len(),
            forall|j: int| 0 <= j < i ==> !is_sep(#[trigger] v@[j]),
        decreases hi - i,
    {
        if v[i] == 'T' || v[i] == ' ' {
            proof {
                lemma_first_sep(v@.take(hi as int), i as int);
            }
            return Some(i);
        }
        i += 1;
    }
    proof {
        lemma_first_sep(v@.take(hi as int), hi as int);
    }
    None
}

/// The position of the last `+` or `-` in `v[from..]`, counted from `from`.
fn find_last_sign(v: &Vec<char>, from: usize) -> (r: Option<usize>)
    requires
        from <= v.len(),
    ensures
        match r {
            Some(k) => k as int == last_sign(v@.skip(from as int)) && from + k < v.len(),
            None => last_sign(v@.skip(from as int)) == -1,
        },
{
    let mut i: usize = v.len();
    while i > from
        invariant
            from <= i <= v.len(),
            forall|j: int| i <= j < v.len() ==> !is_sign(#[trigger] v@[j]),
        decreases i,
    {
        if v[i - 1] == '+' || v[i - 1] == '-' {
            proof {
                let t = v@.skip(from as int);
                assert forall|j: int| (i - 1 - from) < j < t.len() implies !is_sign(
                    #[trigger] t[j],
                ) by {
                    assert(t[j] == v@[from + j]);
                }
                lemma_last_sign(t, i - 1 - from);
            }
            return Some(i - 1 - from);
        }
        i -= 1;
    }
    proof {
        let t = v@.skip(from as int);
        assert forall|j: int| -1 < j < t.len() implies !is_sign(#[trigger] t[j]) by {
            assert(t[j] == v@[from + j]);
        }
        lemma_last_sign(t, -1);
    }
    None
}

/// The position of the first `:` in `v[lo..hi]`, counted from `lo`.
fn find_colon(v: &Vec<char>, lo: usize, hi: usize) -> (r: Option<usize>)
    requires
        lo <= hi <= v.len(),
    ensures
        match r {
            Some(k) => k as int == first_index_of(v@.subrange(lo as int, hi as int), ':') && lo
                + k < hi,
            None => first_index_of(v@.subrange(lo as int, hi as int), ':') == -1,
        },
{
    let ghost t = v@.subrange(lo as int, hi as int);
    let mut i: usize = lo;
    while i < hi
        invariant
            lo <= i <= hi <= v.len(),
            t == v@.subrange(lo as int, hi as int),
            forall|j: int| lo <= j < i ==> #[trigger] v@[j] != ':',
        decreases hi - i,
    {
        if v[i] == ':' {
            proof {
                assert forall|j: int| 0 <= j < i - lo implies #[trigger] t[j] != ':' by {
                    assert(t[j] == v@[lo + j]);
                }
                lemma_first_index(t, ':', i - lo);
            }
            return Some(i - lo);
        }
        i += 1;
    }
    proof {
        assert forall|j: int| 0 <= j < t.len() implies #[trigger] t[j] != ':' by {
            assert(t[j] == v@[lo + j]);
        }
        lemma_first_index_none(t, ':');
    }
    None
}

fn utf8_len_exec(c: char) -> (r: usize)
    ensures
        r as int == utf8_len(c),
{
    let n = c as u32;
    if n < 0x80 {
        1
    } else if n < 0x800 {
        2
    } else if n < 0x10000 {
        3
    } else {
        4
    }
}

/// Whether `v[lo..hi]` is all ASCII.
fn ascii_range(v: &Vec<char>, lo: usize, hi: usize) -> (r: bool)
    requires
        lo <= hi <= v.len(),
    ensures
        r == all_ascii(v@.subrange(lo as int, hi as int)),
{
    let mut i: usize = lo;
    while i < hi
        invariant
            lo <= i <= hi <= v.len(),
            forall|j: int| lo <= j < i ==> (#[trigger] v@[j] as u32) < 128,
        decreases hi - i,
    {
        if (v[i] as u32) >= 128 {
            assert(v@.subrange(lo as int, hi as int)[i - lo] == v@[i as int]);
            return false;
        }
        i += 1;
    }
    assert forall|j: int| 0 <= j < hi - lo implies (#[trigger] v@.subrange(
        lo as int,
        hi as int,
    )[j] as u32) < 128 by {
        assert(v@.subrange(lo as int, hi as int)[j] == v@[lo + j]);
    }
    true
}

/// `uint_value` of `v[lo..hi]`, refusing anything above `cap`.
fn capped(v: &Vec<char>, lo: usize, hi: usize, cap: u64) -> (r: Option<u64>)
    requires
        lo <= hi <= v.len(),
        cap <= 1_000_000_000,
    ensures
        match r {
            Some(n) => capped_value(v@.subrange(lo as int, hi as int), cap as int) == Some(n as nat)
                && n <= cap,
            None => capped_value(v@.subrange(lo as int, hi as int), cap as int) is None,
        },
{
    parse_capped(v, lo, hi, cap)
}

/// `split_offset_spec` of `t`, as the length of the body and the offset in minutes.
fn split_offset(t: &Vec<char>) -> (r: Option<(usize, i64)>)
    requires
        !(t@.len() > 0 && !has_zulu(t@) && offset_sign_at(t@) >= 0 && first_index_of(
            t@.skip(offset_sign_at(t@) + 1),
            ':',
        ) < 0 && utf8_bytes(t@.skip(offset_sign_at(t@) + 1)) == 4 && !(utf8_len(
            t@.skip(offset_sign_at(t@) + 1)[0],
        ) == 2 || (utf8_len(t@.skip(offset_sign_at(t@) + 1)[0]) == 1 && utf8_len(
            t@.skip(offset_sign_at(t@) + 1)[1],
        ) == 1))),
    ensures
        match r {
            Some(x) => x.0 <= t.len() && split_offset_spec(t@) == Some(
                (t@.take(x.0 as int), x.1 as int),
            ),
            None => split_offset_spec(t@) is None,
        },
{
    let n = t.len();
    if n > 0 && (t[n - 1] == 'Z' || t[n - 1] == 'z') {
        assert(t@.drop_last() =~= t@.take(n - 1));
        return Some((n - 1, 0));
    }
    let from: usize = match find_sep(t, n) {
        Some(k) => k,
        None => 0,
    };
    assert(t@.take(n as int) =~= t@);
    let rel = match find_last_sign(t, from) {
        Some(k) => k,
        None => {
            assert(t@.take(n as int) =~= t@);
            return Some((n, 0));
        },
    };
    if from == 0 {
        assert(t@.take(n as int) =~= t@);
        return Some((n, 0));
    }
    let pos: usize = from + rel;
    assert(pos as int == offset_sign_at(t@));
    let ghost digits = t@.skip(pos + 1);
    assert(digits =~= t@.subrange(pos + 1, n as int));
    let (h_lo, h_hi, m_lo, m_hi) = match find_colon(t, pos + 1, n) {
        Some(k) => (pos + 1, pos + 1 + k, pos + 2 + k, n),
        None => {
            if n - (pos + 1) == 4 && ascii_range(t, pos + 1, n) {
                (pos + 1, pos + 3, pos + 3, n)
            } else {
                return None;
            }
        },
    };
    assert(offset_parts(digits) == Some(
        (t@.subrange(h_lo as int, h_hi as int), t@.subrange(m_lo as int, m_hi as int)),
    ));
    let hr = capped(t, h_lo, h_hi, 23);
    if hr.is_none() {
        return None;
    }
    let mr = capped(t, m_lo, m_hi, 59);
    if mr.is_none() {
        return None;
    }
    let h: u64 = hr.unwrap();
    let m: u64 = mr.unwrap();
    assert(h <= 23 && m <= 59);
    assert(uint_value(t@.subrange(h_lo as int, h_hi as int)) == Some(h as nat));
    assert(uint_value(t@.subrange(m_lo as int, m_hi as int)) == Some(m as nat));
    assert(!has_zulu(t@));
    let minutes: i64 = (h * 60 + m) as i64;
    let offset: i64 = if t[pos] == '-' { -minutes } else { minutes };
    let ghost hm = offset_parts(t@.skip(pos + 1))->0;
    assert(hm.0 == t@.subrange(h_lo as int, h_hi as int));
    assert(hm.1 == t@.subrange(m_lo as int, m_hi as int));
    assert(split_offset_spec(t@) == Some((t@.take(pos as int), offset as int)));
    Some((pos, offset))
}

proof fn lemma_days_bounded(year: int, month: int, day: int)
    requires
        0 <= year <= 9999,
        1 <= month <= 12,
        1 <= day <= 31,
    ensures
        -1_000_000 <= days_from_civil_spec(year, month, day) <= 3_000_000,
{
    let y = if month <= 2 { year - 1 } else { year };
    let era = y / 400;
    let yoe = y - era * 400;
    assert(-1 <= era <= 24);
    assert(0 <= yoe < 400);
    assert(0 <= month_start(march_month(month)) <= 337);
    assert(0 <= year_start(yoe) <= 146000);
}

/// The refusal text for a `--until` value that names no instant.
pub open spec fn refusal_spec(raw: Seq<char>) -> Seq<char> {
    "`"@ + raw
        + "` is not a valid expiry; expected YYYY-MM-DD, optionally with THH:MM or THH:MM:SS and Z or ±HH:MM"@
}

/// The refusal for a `--until` value with nothing in it.
pub open spec fn empty_until_spec() -> Seq<char> {
    "--until is empty; expected a date such as 2026-09-01"@
}

/// See [`refusal_spec`].
fn refusal(raw: &str) -> (r: String)
    ensures
        r@ == refusal_spec(raw@),
{
    let mut m: Vec<char> = Vec::new();
    push_str(&mut m, "`");
    push_str(&mut m, raw);
    push_str(
        &mut m,
        "` is not a valid expiry; expected YYYY-MM-DD, optionally with THH:MM or THH:MM:SS and Z or ±HH:MM",
    );
    assert(m@ =~= refusal_spec(raw@));
    string_of(&m)
}

/// Read a `--until` value as milliseconds since the Unix epoch.
///
/// Accepts `YYYY-MM-DD`, `YYYY-MM-DDTHH:MM` and `YYYY-MM-DDTHH:MM:SS`, each optionally
/// followed by `Z` or `±HH:MM`. Without an offset the value is UTC; a bare date means
/// the last second of that day.
#[verifier::spinoff_prover]
pub fn parse_until(raw: &str) -> (r: Result<i64, String>)
    requires
        !until_panics(raw@),
    ensures
        match r {
            Ok(ms) => parse_until_spec(raw@) == Some(ms as int),
            Err(m) => parse_until_spec(raw@) is None && m@ == if trim(raw@).len() == 0 {
                empty_until_spec()
            } else {
                refusal_spec(raw@)
            },
        },
{
    let v = chars_of(raw);
    let (lo, hi) = trim_bounds(&v, 0, v.len());
    assert(v@.subrange(0, v@.len() as int) =~= v@);
    let mut t: Vec<char> = Vec::new();
    push_range(&mut t, &v, lo, hi);
    assert(t@ =~= trim(raw@));
    if t.len() == 0 {
        return Err(String::from_str("--until is empty; expected a date such as 2026-09-01"));
    }
    let (body_len, off) = match split_offset(&t) {
        Some(x) => x,
        None => return Err(refusal(raw)),
    };
    let ghost body = t@.take(body_len as int);
    let k = find_sep(&t, body_len);
    let date_end: usize = match k {
        Some(k) => k,
        None => body_len,
    };
    let mut date: Vec<char> = Vec::new();
    push_range(&mut date, &t, 0, date_end);
    assert(date@ =~= if first_sep(body) >= 0 { body.take(first_sep(body)) } else { body });
    let ymd = match parse_date(&date) {
        Some(x) => x,
        None => return Err(refusal(raw)),
    };
    let hms: (i64, i64, i64) = match k {
        Some(k) => {
            let mut tm: Vec<char> = Vec::new();
            push_range(&mut tm, &t, k + 1, body_len);
            assert(tm@ =~= body.skip(k + 1));
            match parse_time(&tm) {
                Some(x) => x,
                None => return Err(refusal(raw)),
            }
        },
        None => (23, 59, 59),
    };
    proof {
        lemma_days_bounded(ymd.0 as int, ymd.1 as int, ymd.2 as int);
    }
    let days = days_from_civil(ymd.0, ymd.1, ymd.2);
    let seconds: i64 = days * 86_400 + hms.0 * 3600 + hms.1 * 60 + hms.2 - off * 60;
    Ok(seconds * 1000)
}

/// `value` and its unit, pluralised unless the value is one: "1 day", "3 days".
pub open spec fn quantity(value: int, unit: Seq<char>) -> Seq<char> {
    decimal(value as nat) + " "@ + unit + if value == 1 { ""@ } else { "s"@ }
}

/// The interval left on a link, rounded down to whole minutes, hours or days.
pub open spec fn humanize_remaining_spec(milliseconds: int) -> Seq<char> {
    let seconds = milliseconds / 1000;
    if milliseconds <= 0 || seconds < 60 {
        "less than a minute"@
    } else if seconds >= 86_400 {
        quantity(seconds / 86_400, "day"@)
    } else if seconds >= 3_600 {
        quantity(seconds / 3_600, "hour"@)
    } else {
        quantity(seconds / 60, "minute"@)
    }
}

fn push_quantity(out: &mut Vec<char>, value: i64, unit: &str)
    requires
        value >= 0,
    ensures
        final(out)@ == old(out)@ + quantity(value as int, unit@),
{
    push_decimal(out, value as u64);
    push_str(out, " ");
    push_str(out, unit);
    if value != 1 {
        push_str(out, "s");
        assert(final(out)@ =~= old(out)@ + quantity(value as int, unit@));
    } else {
        assert(""@ =~= Seq::<char>::empty()) by {
            reveal_strlit("");
        }
        assert(final(out)@ =~= old(out)@ + quantity(value as int, unit@));
    }
}

/// A short, human interval for the recipient banner: "20 hours", "3 days", "45 minutes".
///
/// Rounds down, so the banner never promises time the link does not have.
pub fn humanize_remaining(milliseconds: i64) -> (r: String)
    ensures
        r@ == humanize_remaining_spec(milliseconds as int),
{
    let mut out: Vec<char> = Vec::new();
    if milliseconds <= 0 {
        push_str(&mut out, "less than a minute");
        return string_of(&out);
    }
    let seconds: i64 = milliseconds / 1000;
    if seconds >= 86_400 {
        push_quantity(&mut out, seconds / 86_400, "day");
    } else if seconds >= 3_600 {
        push_quantity(&mut out, seconds / 3_600, "hour");
    } else if seconds >= 60 {
        push_quantity(&mut out, seconds / 60, "minute");
    } else {
        push_str(&mut out, "less than a minute");
    }
    assert(out@ =~= humanize_remaining_spec(milliseconds as int));
    string_of(&out)
}

/// An instant in milliseconds as `YYYY-MM-DD HH:MM:SSZ`.
pub open spec fn format_instant_spec(milliseconds: int) -> Seq<char> {
    let seconds = milliseconds / 1000;
    let days = seconds / 86_400;
    let tod = seconds % 86_400;
    let date = civil_from_days_spec(days);
    zero_padded(date.0, 4) + "-"@ + zero_padded(date.1, 2) + "-"@ + zero_padded(date.2, 2)
        + " "@ + zero_padded(tod / 3600, 2) + ":"@ + zero_padded((tod % 3600) / 60, 2) + ":"@
        + zero_padded(tod % 60, 2) + "Z"@
}

pub proof fn lemma_civil_year_bound(days: int)
    requires
        days_in_range(days),
    ensures
        -100_000_000_000_000_000 <= civil_from_days_spec(days).0 <= 100_000_000_000_000_000,
{
    let z = days + 719468;
    let era = z / 146097;
    let doe = z % 146097;
    assert(0 <= doe < 146097);
    assert(0 <= year_of_era(doe) <= 400);
    assert(-100_000_000_000_000 <= era <= 100_000_000_000_000) by (nonlinear_arith)
        requires
            era == z / 146097,
            -9_300_000_000_000_000_000 <= z <= 9_300_000_000_000_000_000,
    ;
    let y = year_of_era(doe) + era * 400;
    assert(-40_000_000_000_000_001 <= y <= 40_000_000_000_000_400);
    assert(civil_from_days_spec(days).0 == y || civil_from_days_spec(days).0 == y + 1);
}

/// Format a millisecond instant as `YYYY-MM-DD HH:MM:SSZ`.
pub fn format_instant(milliseconds: i64) -> (r: String)
    ensures
        r@ == format_instant_spec(milliseconds as int),
{
    let seconds: i64 = milliseconds.checked_div_euclid(1000).unwrap();
    let days: i64 = seconds.checked_div_euclid(86_400).unwrap();
    let tod: i64 = seconds.checked_rem_euclid(86_400).unwrap();
    proof {
        lemma_civil_year_bound(days as int);
    }
    let (year, month, day) = civil_from_days(days);
    let mut out: Vec<char> = Vec::new();
    push_padded(&mut out, year, 4);
    push_str(&mut out, "-");
    push_padded(&mut out, month as i64, 2);
    push_str(&mut out, "-");
    push_padded(&mut out, day as i64, 2);
    push_str(&mut out, " ");
    push_padded(&mut out, tod / 3600, 2);
    push_str(&mut out, ":");
    push_padded(&mut out, (tod % 3600) / 60, 2);
    push_str(&mut out, ":");
    push_padded(&mut out, tod % 60, 2);
    push_str(&mut out, "Z");
    assert(out@ =~= format_instant_spec(milliseconds as int));
    string_of(&out)
}

} // verus!
