use vstd::prelude::*;
use chrono::Datelike;
use crate::money::{decimal, digit_char};
use crate::text::{chars_of, is_white, string_of, trim, trim_end, trim_start, trimmed};
use crate::parse::{
    all_digits, digit_value, is_ascii_digit, lemma_decimal, pow10, lemma_digit_char, lemma_digit_value_append,
};

verus! {

/// A calendar date, as the bot reads it from the clock or the database.
#[derive(Debug, Clone, Copy, PartialEq, Eq, Structural, Hash)]
pub struct Date {
    pub year: i32,
    pub month: u32,
    pub day: u32,
}

/// The earliest year a `chrono::NaiveDate` can hold.
pub const MIN_YEAR: i32 = -262143;

/// The latest year a `chrono::NaiveDate` can hold.
pub const MAX_YEAR: i32 = 262142;

/// Gregorian leap years.
pub open spec fn is_leap(y: int) -> bool {
    (y % 4 == 0 && y % 100 != 0) || y % 400 == 0
}

pub open spec fn days_in_month(y: int, m: int) -> int {
    if m == 2 {
        if is_leap(y) { 29 } else { 28 }
    } else if m == 4 || m == 6 || m == 9 || m == 11 {
        30
    } else {
        31
    }
}

/// A real day of the proleptic Gregorian calendar.
pub open spec fn is_calendar_date(y: int, m: int, d: int) -> bool {
    1 <= m <= 12 && 1 <= d <= days_in_month(y, m)
}

/// A day that `chrono::NaiveDate` can represent.
pub open spec fn representable(y: int, m: int, d: int) -> bool {
    MIN_YEAR <= y <= MAX_YEAR && is_calendar_date(y, m, d)
}

/// The number of days from 1970-01-01 to the given day (negative before it).
pub open spec fn day_number(y: int, m: int, d: int) -> int {
    let y1 = if m <= 2 { y - 1 } else { y };
    let era = y1 / 400;
    let yoe = y1 % 400;
    let mp = if m > 2 { m - 3 } else { m + 9 };
    let doy = (153 * mp + 2) / 5 + d - 1;
    let doe = yoe * 365 + yoe / 4 - yoe / 100 + doy;
    era * 146097 + doe - 719468
}

/// Days since Monday: 0 for Monday through 6 for Sunday. 1970-01-01 was a Thursday.
pub open spec fn weekday_index(n: int) -> int {
    (n + 3) % 7
}

/// The day number of `NaiveDate::MIN`, the first representable day.
pub open spec fn first_day_number() -> int {
    day_number(MIN_YEAR as int, 1, 1)
}

impl Date {
    pub open spec fn is_calendar(self) -> bool {
        is_calendar_date(self.year as int, self.month as int, self.day as int)
    }

    pub open spec fn is_representable(self) -> bool {
        representable(self.year as int, self.month as int, self.day as int)
    }

    pub open spec fn number(self) -> int {
        day_number(self.year as int, self.month as int, self.day as int)
    }

    /// The week of this day starts within the representable range.
    pub open spec fn has_monday(self) -> bool {
        self.number() - weekday_index(self.number()) >= first_day_number()
    }
}

/// The calendar date, in Buenos Aires, of the instant `ms` milliseconds after
/// 1970-01-01T00:00:00Z, as chrono and chrono-tz compute it, or `None` when
/// chrono cannot represent that instant.
pub uninterp spec fn buenos_aires_date(ms: i64) -> Option<(i32, u32, u32)>;

/// The first instant, in milliseconds since the Unix epoch, whose Buenos
/// Aires date chrono can compute: 3 h 53 min 48 s after the start of chrono's
/// range. Before it, Buenos Aires' local mean time (UTC-3:53:48) falls before
/// the first day chrono can hold, and `date_naive` panics.
pub const FIRST_LOCAL_MS: i64 = -8334601214772000;

/// `DateTime::from_timestamp_millis`, then `with_timezone` to
/// `America/Argentina/Buenos_Aires` and `date_naive`, read back as year, month
/// and day. Instants before `FIRST_LOCAL_MS` are left out, since there the
/// local time falls outside chrono's range and `date_naive` panics; Buenos
/// Aires' offsets are all negative, so the end of the range is safe. The
/// contract names the result and states that a `NaiveDate` is always a real
/// calendar day (its month is 1 to 12 and its day exists in that month); which
/// day it is rests on the tz database that chrono-tz embeds.
#[verifier::external_body]
fn chrono_buenos_aires_date(ms: i64) -> (r: Option<(i32, u32, u32)>)
    requires
        ms >= FIRST_LOCAL_MS,
    ensures
        r == buenos_aires_date(ms),
        r matches Some((y, m, d)) ==> is_calendar_date(y as int, m as int, d as int),
{
    match chrono::DateTime::from_timestamp_millis(ms) {
        Some(t) => {
            let date = t.with_timezone(&chrono_tz::America::Argentina::Buenos_Aires).date_naive();
            Some((date.year(), date.month(), date.day()))
        },
        None => None,
    }
}

/// `NaiveDate::from_ymd_opt(y, m, d).is_some()`: chrono accepts exactly the
/// real calendar days within its year range.
#[verifier::external_body]
fn chrono_date_exists(y: i32, m: u32, d: u32) -> (b: bool)
    ensures
        b == representable(y as int, m as int, d as int),
{
    chrono::NaiveDate::from_ymd_opt(y, m, d).is_some()
}

/// `Datelike::weekday` then `Weekday::num_days_from_monday` of the given day:
/// 0 for Monday through 6 for Sunday.
#[verifier::external_body]
fn chrono_weekday(y: i32, m: u32, d: u32) -> (w: u32)
    requires
        representable(y as int, m as int, d as int),
    ensures
        w as int == weekday_index(day_number(y as int, m as int, d as int)),
{
    chrono::NaiveDate::from_ymd_opt(y, m, d).unwrap().weekday().num_days_from_monday()
}

/// `NaiveDate::checked_sub_days(Days::new(n))` on the given day: the day `n`
/// days earlier, or `None` when that day is before `NaiveDate::MIN`.
#[verifier::external_body]
fn chrono_days_before(y: i32, m: u32, d: u32, n: u32) -> (r: Option<(i32, u32, u32)>)
    requires
        representable(y as int, m as int, d as int),
        n < 7,
    ensures
        r is Some <==> day_number(y as int, m as int, d as int) - n >= first_day_number(),
        r matches Some((a, b, c)) ==> representable(a as int, b as int, c as int)
            && day_number(a as int, b as int, c as int) == day_number(y as int, m as int, d as int) - n,
{
    match chrono::NaiveDate::from_ymd_opt(y, m, d).unwrap().checked_sub_days(chrono::Days::new(n as u64)) {
        Some(date) => Some((date.year(), date.month(), date.day())),
        None => None,
    }
}

/// What `NaiveDate::parse_from_str(text, "%Y-%m-%d")` reads from `text`.
pub uninterp spec fn iso_date_read(text: Seq<char>) -> Option<(i32, u32, u32)>;

/// `NaiveDate::parse_from_str(text, "%Y-%m-%d")`, read back as year, month and
/// day. The contract names the result and states that a parsed date is a
/// representable day; which texts chrono accepts is not stated.
#[verifier::external_body]
fn chrono_parse_iso(text: &str) -> (r: Option<(i32, u32, u32)>)
    ensures
        r == iso_date_read(text@),
        r matches Some((y, m, d)) ==> representable(y as int, m as int, d as int),
{
    match chrono::NaiveDate::parse_from_str(text, "%Y-%m-%d") {
        Ok(date) => Some((date.year(), date.month(), date.day())),
        Err(_) => None,
    }
}

impl Date {
    /// The day with this year, month and day, if chrono can represent it.
    pub fn from_ymd_opt(year: i32, month: u32, day: u32) -> (r: Option<Date>)
        ensures
            r is Some <==> representable(year as int, month as int, day as int),
            r matches Some(date) ==> date == (Date { year, month, day }),
    {
        if chrono_date_exists(year, month, day) {
            Some(Date { year, month, day })
        } else {
            None
        }
    }

    /// Reads a stored `YYYY-MM-DD` date the way chrono does.
    pub fn parse_iso(text: &str) -> (r: Option<Date>)
        ensures
            match iso_date_read(text@) {
                Some((y, m, d)) => r == Some(Date { year: y, month: m, day: d }),
                None => r is None,
            },
            r matches Some(date) ==> date.is_representable(),
    {
        match chrono_parse_iso(text) {
            Some((year, month, day)) => Some(Date { year, month, day }),
            None => None,
        }
    }
}

/// The calendar date in Buenos Aires at the instant `now_ms` (milliseconds
/// since the Unix epoch), if chrono can represent that instant.
pub fn local_date(now_ms: i64) -> (r: Option<Date>)
    ensures
        r == local_date_spec(now_ms),
        now_ms < FIRST_LOCAL_MS ==> r is None,
        r matches Some(date) ==> date.is_calendar(),
{
    if now_ms < FIRST_LOCAL_MS {
        return None;
    }
    match chrono_buenos_aires_date(now_ms) {
        Some((year, month, day)) => Some(Date { year, month, day }),
        None => None,
    }
}

/// A day number minus its weekday index is a Monday, at most six days back.
pub proof fn lemma_monday(n: int)
    ensures
        weekday_index(n - weekday_index(n)) == 0,
        0 <= weekday_index(n) <= 6,
{
    let w = weekday_index(n);
    assert(n + 3 == 7 * ((n + 3) / 7) + w);
    assert((n - w + 3) == 7 * ((n + 3) / 7));
    assert((7 * ((n + 3) / 7)) % 7 == 0) by (nonlinear_arith);
}

/// All seven days of a week have the same Monday: the day `k` days after a
/// Monday is `k` days into its week.
pub proof fn law_week_days_share_monday(n: int, k: int)
    requires
        0 <= k <= 6,
    ensures
        weekday_index((n - weekday_index(n)) + k) == k,
        ((n - weekday_index(n)) + k) - weekday_index((n - weekday_index(n)) + k) == n - weekday_index(n),
{
    lemma_monday(n);
    let m = n - weekday_index(n);
    let q = (m + 3) / 7;
    assert(m + 3 == 7 * q);
    assert((7 * q + k) % 7 == k);
    assert(m + k + 3 == 7 * q + k);
}

/// The Monday of the week containing `date`: a Monday, at most six days
/// before `date`.
pub fn monday_of(date: Date) -> (r: Date)
    requires
        date.is_representable(),
        date.has_monday(),
    ensures
        r.is_representable(),
        r.number() == date.number() - weekday_index(date.number()),
        weekday_index(r.number()) == 0,
        date.number() - 6 <= r.number() <= date.number(),
{
    proof {
        lemma_monday(date.number());
    }
    let offset = chrono_weekday(date.year, date.month, date.day);
    match chrono_days_before(date.year, date.month, date.day, offset) {
        Some((year, month, day)) => Date { year, month, day },
        None => date,
    }
}

/// The Monday of the Buenos Aires week containing the instant `now_ms`, when
/// chrono can represent both that day and that Monday.
pub fn week_start(now_ms: i64) -> (r: Option<Date>)
    ensures
        match local_date_spec(now_ms) {
            Some(today) => if today.is_representable() && today.has_monday() {
                r matches Some(monday) && monday.is_representable()
                    && monday.number() == today.number() - weekday_index(today.number())
            } else {
                r is None
            },
            None => r is None,
        },
{
    match local_date(now_ms) {
        Some(today) => {
            if !chrono_date_exists(today.year, today.month, today.day) {
                return None;
            }
            let offset = chrono_weekday(today.year, today.month, today.day);
            match chrono_days_before(today.year, today.month, today.day, offset) {
                Some((year, month, day)) => Some(Date { year, month, day }),
                None => None,
            }
        },
        None => None,
    }
}

/// `local_date` as a value.
pub open spec fn local_date_spec(now_ms: i64) -> Option<Date> {
    if now_ms < FIRST_LOCAL_MS {
        None
    } else {
        match buenos_aires_date(now_ms) {
            Some((y, m, d)) => Some(Date { year: y, month: m, day: d }),
            None => None,
        }
    }
}


/// `ds` with `0`s in front up to `n` characters.
pub open spec fn left_pad(ds: Seq<char>, n: nat) -> Seq<char>
    decreases n - ds.len(),
{
    if ds.len() >= n {
        ds
    } else {
        left_pad(seq!['0'] + ds, n)
    }
}

/// A number below 100 as two digits.
pub open spec fn two_digits(v: int) -> Seq<char> {
    seq![digit_char(v / 10), digit_char(v % 10)]
}

/// chrono's `%Y`: four digits, zero padded, for years 0 to 9999; other years
/// get a sign in front of at least four digits.
pub open spec fn year_text(y: int) -> Seq<char> {
    if 0 <= y <= 9999 {
        left_pad(decimal(y as nat), 4)
    } else if y < 0 {
        seq!['-'] + left_pad(decimal((-y) as nat), 4)
    } else {
        seq!['+'] + left_pad(decimal(y as nat), 4)
    }
}

/// `%Y-%m-%d`, the storage format: `2026-07-20`.
pub open spec fn iso_text(d: Date) -> Seq<char> {
    year_text(d.year as int) + seq!['-'] + two_digits(d.month as int) + seq!['-'] + two_digits(d.day as int)
}

/// `%d/%m`, the display format: `20/07`.
pub open spec fn day_month_text(d: Date) -> Seq<char> {
    two_digits(d.day as int) + seq!['/'] + two_digits(d.month as int)
}

/// `%Y-%m`, the month key: `2026-07`.
pub open spec fn month_key_text(d: Date) -> Seq<char> {
    year_text(d.year as int) + seq!['-'] + two_digits(d.month as int)
}

fn push_left_padded(v: u64, width: usize, out: &mut Vec<char>)
    requires
        width <= 4,
    ensures
        final(out)@ == old(out)@ + left_pad(decimal(v as nat), width as nat),
{
    let mut ds: Vec<char> = Vec::new();
    crate::money::push_decimal(v, &mut ds);
    assert(ds@ =~= decimal(v as nat));
    while ds.len() < width
        invariant
            width <= 4,
            left_pad(ds@, width as nat) == left_pad(decimal(v as nat), width as nat),
        decreases width - ds.len(),
    {
        let ghost before = ds@;
        ds.insert(0, '0');
        assert(ds@ =~= seq!['0'] + before);
    }
    let ghost before = out@;
    let mut i: usize = 0;
    while i < ds.len()
        invariant
            i <= ds.len(),
            out@ == before + ds@.take(i as int),
        decreases ds.len() - i,
    {
        out.push(ds[i]);
        assert(ds@.take(i as int).push(ds@[i as int]) =~= ds@.take(i + 1));
        i += 1;
    }
    assert(ds@.take(ds.len() as int) =~= ds@);
}

fn push_two_digits(v: u32, out: &mut Vec<char>)
    requires
        v < 100,
    ensures
        final(out)@ == old(out)@ + two_digits(v as int),
{
    let tens = v / 10;
    let ones = v % 10;
    out.push(((tens as u8) + 48u8) as char);
    out.push(((ones as u8) + 48u8) as char);
}

fn push_year(y: i32, out: &mut Vec<char>)
    ensures
        final(out)@ == old(out)@ + year_text(y as int),
{
    if 0 <= y && y <= 9999 {
        push_left_padded(y as u64, 4, out);
    } else if y < 0 {
        out.push('-');
        let magnitude: u64 = (-(y as i64)) as u64;
        push_left_padded(magnitude, 4, out);
    } else {
        out.push('+');
        push_left_padded(y as u64, 4, out);
    }
}

/// `2026-07-20`, the storage format for `local_date` and `week_start`.
pub fn iso(date: Date) -> (s: String)
    requires
        date.is_calendar(),
    ensures
        s@ == iso_text(date),
{
    let mut out: Vec<char> = Vec::new();
    push_year(date.year, &mut out);
    out.push('-');
    push_two_digits(date.month, &mut out);
    out.push('-');
    push_two_digits(date.day, &mut out);
    let s = string_of(&out);
    assert(s@ =~= iso_text(date));
    s
}

/// `20/07`, the display format used in replies.
pub fn day_month(date: Date) -> (s: String)
    requires
        date.is_calendar(),
    ensures
        s@ == day_month_text(date),
{
    let mut out: Vec<char> = Vec::new();
    push_two_digits(date.day, &mut out);
    out.push('/');
    push_two_digits(date.month, &mut out);
    let s = string_of(&out);
    assert(s@ =~= day_month_text(date));
    s
}

/// `2026-07`, the key `/mes` and `/export` filter on.
pub fn month_key(date: Date) -> (s: String)
    requires
        date.is_calendar(),
    ensures
        s@ == month_key_text(date),
{
    let mut out: Vec<char> = Vec::new();
    push_year(date.year, &mut out);
    out.push('-');
    push_two_digits(date.month, &mut out);
    let s = string_of(&out);
    assert(s@ =~= month_key_text(date));
    s
}


/// The position of the first `c` in `t`.
pub open spec fn first_index_of(t: Seq<char>, c: char) -> Option<int> {
    if exists|i: int| 0 <= i < t.len() && t[i] == c {
        Some(choose|i: int| 0 <= i < t.len() && t[i] == c && forall|j: int| 0 <= j < i ==> #[trigger] t[j] != c)
    } else {
        None
    }
}

/// What `str::parse` gives for a non-negative integer: an optional `+`,
/// then at least one ASCII digit.
pub open spec fn unsigned_value(s: Seq<char>) -> Option<int> {
    let ds = if s.len() > 0 && s[0] == '+' { s.skip(1) } else { s };
    if ds.len() > 0 && all_digits(ds) {
        Some(digit_value(ds))
    } else {
        None
    }
}

/// A user's `YYYY-MM`, accepted when it is four characters, a dash, two
/// characters, both numbers, and the month exists; then echoed back
/// normalized as four digits, a dash and two digits.
pub open spec fn month_key_parsed(input: Seq<char>) -> Option<Seq<char>> {
    let t = trim(input);
    match first_index_of(t, '-') {
        None => None,
        Some(p) => {
            let ys = t.take(p);
            let ms = t.skip(p + 1);
            if ys.len() != 4 || ms.len() != 2 {
                None
            } else {
                match (unsigned_value(ys), unsigned_value(ms)) {
                    (Some(y), Some(m)) => if representable(y, m, 1) {
                        Some(month_key_of(y as nat, m))
                    } else {
                        None
                    },
                    _ => None,
                }
            }
        },
    }
}

proof fn lemma_small_digit_value(ds: Seq<char>)
    requires
        all_digits(ds),
        ds.len() <= 4,
    ensures
        0 <= digit_value(ds),
        ds.len() <= 1 ==> digit_value(ds) < 10,
        ds.len() <= 2 ==> digit_value(ds) < 100,
        ds.len() <= 3 ==> digit_value(ds) < 1000,
        digit_value(ds) < 10000,
    decreases ds.len(),
{
    if ds.len() > 0 {
        let t = ds.drop_last();
        assert(all_digits(t)) by {
            assert forall|k: int| 0 <= k < t.len() implies is_ascii_digit(#[trigger] t[k]) by {
                assert(t[k] == ds[k]);
            }
        }
        assert(is_ascii_digit(ds[ds.len() - 1]));
        lemma_small_digit_value(t);
        assert(digit_value(ds) == digit_value(t) * 10 + (ds.last() as int - 48));
    }
}

/// Reads an optional `+` and at least one digit, at most four characters.
fn read_small_unsigned(s: &Vec<char>) -> (r: Option<u32>)
    requires
        s.len() <= 4,
    ensures
        match unsigned_value(s@) {
            Some(v) => r matches Some(x) && x as int == v && v < 10000 && (s@.len() <= 2 ==> v < 100),
            None => r is None,
        },
{
    let start: usize = if s.len() > 0 && s[0] == '+' { 1 } else { 0 };
    let ghost ds = if s@.len() > 0 && s@[0] == '+' { s@.skip(1) } else { s@ };
    assert(ds =~= s@.skip(start as int));
    if start == s.len() {
        return None;
    }
    let mut value: u32 = 0;
    let mut i: usize = start;
    while i < s.len()
        invariant
            start <= i <= s.len() <= 4,
            ds == s@.skip(start as int),
            ds == (if s@.len() > 0 && s@[0] == '+' { s@.skip(1) } else { s@ }),
            forall|k: int| start <= k < i ==> is_ascii_digit(#[trigger] s@[k]),
            value as int == digit_value(s@.subrange(start as int, i as int)),
            value < 10000,
            i - start <= 2 ==> value < 100,
        decreases s.len() - i,
    {
        let c = s[i];
        if !('0' <= c && c <= '9') {
            assert(ds[i - start] == c);
            assert(!is_ascii_digit(ds[i - start]));
            return None;
        }
        proof {
            let sub = s@.subrange(start as int, i + 1);
            assert(sub.drop_last() =~= s@.subrange(start as int, i as int));
            assert(all_digits(sub)) by {
                assert forall|k: int| 0 <= k < sub.len() implies is_ascii_digit(#[trigger] sub[k]) by {
                    assert(sub[k] == s@[start + k]);
                }
            }
            lemma_small_digit_value(sub);
        }
        value = value * 10 + ((c as u32) - 48);
        i += 1;
    }
    assert(s@.subrange(start as int, s.len() as int) =~= ds);
    assert(all_digits(ds)) by {
        assert forall|k: int| 0 <= k < ds.len() implies is_ascii_digit(#[trigger] ds[k]) by {
            assert(ds[k] == s@[start + k]);
        }
    }
    Some(value)
}

/// Accepts a user-supplied `YYYY-MM` and echoes it back normalized, so a typo
/// becomes an error message instead of an empty report.
pub fn parse_month_key(input: &str) -> (r: Option<String>)
    ensures
        match month_key_parsed(input@) {
            Some(k) => r matches Some(s) && s@ == k,
            None => r is None,
        },
{
    let t = trimmed(&chars_of(input));
    let mut p: usize = 0;
    while p < t.len() && t[p] != '-'
        invariant
            p <= t.len(),
            forall|j: int| 0 <= j < p ==> #[trigger] t@[j] != '-',
        decreases t.len() - p,
    {
        p += 1;
    }
    if p == t.len() {
        assert(first_index_of(t@, '-') is None);
        return None;
    }
    proof {
        assert(t@[p as int] == '-');
        let q = choose|i: int| 0 <= i < t@.len() && t@[i] == '-' && forall|j: int| 0 <= j < i ==> #[trigger] t@[j] != '-';
        assert(q == p);
        assert(first_index_of(t@, '-') == Some(p as int));
    }
    let ys = crate::text::copy_range(&t, 0, p);
    let ms = crate::text::copy_range(&t, p + 1, t.len());
    assert(ys@ =~= t@.take(p as int));
    assert(ms@ =~= t@.skip(p + 1));
    if ys.len() != 4 || ms.len() != 2 {
        return None;
    }
    let year = match read_small_unsigned(&ys) {
        Some(y) => y,
        None => return None,
    };
    let month = match read_small_unsigned(&ms) {
        Some(m) => m,
        None => return None,
    };
    assert(unsigned_value(ys@) == Some(year as int));
    assert(unsigned_value(ms@) == Some(month as int));
    if !chrono_date_exists(year as i32, month, 1) {
        assert(!representable(year as int, month as int, 1));
        return None;
    }
    let mut out: Vec<char> = Vec::new();
    push_left_padded(year as u64, 4, &mut out);
    out.push('-');
    push_two_digits(month, &mut out);
    let s = string_of(&out);
    assert(s@ =~= left_pad(decimal(year as nat), 4) + seq!['-'] + two_digits(month as int));
    Some(s)
}


proof fn lemma_decimal_len(n: nat)
    ensures
        n < 10 ==> decimal(n).len() == 1,
        n < 100 ==> decimal(n).len() <= 2,
        n < 1000 ==> decimal(n).len() <= 3,
        n < 10000 ==> decimal(n).len() <= 4,
    decreases n,
{
    if n >= 10 {
        lemma_decimal_len(n / 10);
    }
}

proof fn lemma_left_pad(ds: Seq<char>, n: nat)
    requires
        ds.len() > 0,
        all_digits(ds),
    ensures
        left_pad(ds, n).len() == if ds.len() >= n { ds.len() } else { n },
        left_pad(ds, n).len() > 0,
        all_digits(left_pad(ds, n)),
        digit_value(left_pad(ds, n)) == digit_value(ds),
    decreases n - ds.len(),
{
    if ds.len() < n {
        let z = seq!['0'] + ds;
        assert(all_digits(z)) by {
            assert forall|k: int| 0 <= k < z.len() implies is_ascii_digit(#[trigger] z[k]) by {
                if k > 0 {
                    assert(z[k] == ds[k - 1]);
                }
            }
        }
        lemma_digit_value_append(seq!['0'], ds);
        let zero = seq!['0'];
        assert(zero.drop_last() =~= Seq::<char>::empty());
        assert(digit_value(Seq::<char>::empty()) == 0);
        assert(zero.last() == '0');
        assert(digit_value(zero) == digit_value(zero.drop_last()) * 10 + (zero.last() as int - 48));
        assert(digit_value(zero) == 0);
        assert(digit_value(z) == 0 * pow10(ds.len()) + digit_value(ds));
        assert(digit_value(z) == digit_value(ds));
        lemma_left_pad(z, n);
        assert(left_pad(ds, n) == left_pad(z, n));
    }
}

/// The month key `parse_month_key` writes for year `y` and month `m`.
pub open spec fn month_key_of(y: nat, m: int) -> Seq<char> {
    left_pad(decimal(y), 4) + seq!['-'] + two_digits(m)
}

/// A normalized month key is accepted as it stands.
proof fn lemma_month_key_of_accepted(y: nat, m: int)
    requires
        y <= 9999,
        representable(y as int, m, 1),
    ensures
        month_key_parsed(month_key_of(y, m)) == Some(month_key_of(y, m)),
{
    let k = month_key_of(y, m);
    let ys = left_pad(decimal(y), 4);
    let ms = two_digits(m);
    lemma_decimal(y);
    lemma_decimal_len(y);
    lemma_left_pad(decimal(y), 4);
    assert(ys.len() == 4);
    lemma_digit_char(m / 10);
    lemma_digit_char(m % 10);
    assert(all_digits(ms)) by {
        assert forall|i: int| 0 <= i < ms.len() implies is_ascii_digit(#[trigger] ms[i]) by {}
    }
    assert(ms.drop_last() =~= seq![digit_char(m / 10)]);
    assert(ms.drop_last().drop_last() =~= seq![]);
    assert(digit_value(ms.drop_last().drop_last()) == 0);
    assert(digit_value(ms.drop_last()) == m / 10);
    assert(digit_value(ms) == m);
    assert(k.len() == 7);
    assert(is_ascii_digit(k[0]) && k[0] == ys[0]);
    assert(!is_white(k[0]));
    assert(trim_start(k) == k);
    assert(k.last() == ms[1]);
    assert(!is_white(k.last()));
    assert(trim_end(k) == k);
    assert(trim(k) == k);
    assert(k[4] == '-');
    assert forall|j: int| 0 <= j < 4 implies #[trigger] k[j] != '-' by {
        assert(k[j] == ys[j]);
        assert(is_ascii_digit(ys[j]));
    }
    assert(first_index_of(k, '-') == Some(4int)) by {
        let i = choose|i: int| 0 <= i < k.len() && k[i] == '-' && forall|j: int| 0 <= j < i ==> #[trigger] k[j] != '-';
        assert(0 <= 4 < k.len() && k[4] == '-');
        if i < 4 {
            assert(k[i] != '-');
        }
        if i > 4 {
            assert(k[4] != '-');
        }
    }
    assert(k.take(4) =~= ys);
    assert(k.skip(5) =~= ms);
    assert(!(ys.len() > 0 && ys[0] == '+'));
    assert(unsigned_value(ys) == Some(y as int));
    assert(!(ms.len() > 0 && ms[0] == '+'));
    assert(unsigned_value(ms) == Some(m));
}

/// Normalizing a month key twice changes nothing: whatever `parse_month_key`
/// gives back, it accepts and gives back unchanged.
pub proof fn law_month_key_normalization_is_idempotent(input: Seq<char>)
    ensures
        month_key_parsed(input) matches Some(k) ==> month_key_parsed(k) == Some(k),
{
    if let Some(k) = month_key_parsed(input) {
        let t = trim(input);
        let p = first_index_of(t, '-')->0;
        let ys = t.take(p);
        let ms = t.skip(p + 1);
        let y = unsigned_value(ys)->0;
        let m = unsigned_value(ms)->0;
        let ds = if ys.len() > 0 && ys[0] == '+' { ys.skip(1) } else { ys };
        lemma_small_digit_value(ds);
        assert(k == month_key_of(y as nat, m));
        lemma_month_key_of_accepted(y as nat, m);
    }
}

/// The month key the bot derives for a day of years 0 to 9999 is one that
/// `/mes` and `/export` accept unchanged.
pub proof fn law_month_key_of_a_day_is_accepted(d: Date)
    requires
        d.is_representable(),
        0 <= d.year <= 9999,
    ensures
        month_key_parsed(month_key_text(d)) == Some(month_key_text(d)),
{
    assert(month_key_text(d) == month_key_of(d.year as nat, d.month as int));
    lemma_month_key_of_accepted(d.year as nat, d.month as int);
}


/// The year a day counts in when years start on March 1.
spec fn shifted_year(y: int, m: int) -> int {
    if m <= 2 { y - 1 } else { y }
}

/// Months counted from March: 0 for March through 11 for February.
spec fn march_month(m: int) -> int {
    if m > 2 { m - 3 } else { m + 9 }
}

/// Days from March 1 to the first of the month `mp` months after March.
spec fn month_start(mp: int) -> int {
    (153 * mp + 2) / 5
}

/// Days from March 1 to the first of the year `yoe` years into a 400-year era.
spec fn years_days(yoe: int) -> int {
    yoe * 365 + yoe / 4 - yoe / 100
}

proof fn lemma_day_of_year(y: int, m: int, d: int)
    requires
        is_calendar_date(y, m, d),
    ensures
        0 <= month_start(march_month(m)),
        month_start(march_month(m)) + d - 1 < month_start(march_month(m)) + days_in_month(y, m),
        march_month(m) <= 10 ==> month_start(march_month(m) + 1) == month_start(march_month(m)) + days_in_month(y, m),
        0 <= march_month(m) <= 11,
        month_start(march_month(m)) + d - 1 <= 365,
        month_start(march_month(m)) + d - 1 == 365 ==> m == 2 && is_leap(y),
{
    if m == 1 {
        assert(month_start(10) == 306 && month_start(11) == 337);
    } else if m == 2 {
        assert(month_start(11) == 337);
    } else if m == 3 {
        assert(month_start(0) == 0 && month_start(1) == 31);
    } else if m == 4 {
        assert(month_start(1) == 31 && month_start(2) == 61);
    } else if m == 5 {
        assert(month_start(2) == 61 && month_start(3) == 92);
    } else if m == 6 {
        assert(month_start(3) == 92 && month_start(4) == 122);
    } else if m == 7 {
        assert(month_start(4) == 122 && month_start(5) == 153);
    } else if m == 8 {
        assert(month_start(5) == 153 && month_start(6) == 184);
    } else if m == 9 {
        assert(month_start(6) == 184 && month_start(7) == 214);
    } else if m == 10 {
        assert(month_start(7) == 214 && month_start(8) == 245);
    } else if m == 11 {
        assert(month_start(8) == 245 && month_start(9) == 275);
    } else {
        assert(month_start(9) == 275 && month_start(10) == 306);
    }
}

proof fn lemma_month_start_monotone(a: int, b: int)
    requires
        0 <= a <= b,
    ensures
        month_start(a) <= month_start(b),
{
    assert(153 * a + 2 <= 153 * b + 2);
}

proof fn lemma_years_days_step(a: int)
    requires
        0 <= a < 399,
    ensures
        years_days(a + 1) - years_days(a) == 365 + (if (a + 1) % 4 == 0 && (a + 1) % 100 != 0 { 1int } else { 0int }),
{
    assert((a + 1) / 4 - a / 4 == (if (a + 1) % 4 == 0 { 1int } else { 0int }));
    assert((a + 1) / 100 - a / 100 == (if (a + 1) % 100 == 0 { 1int } else { 0int }));
    assert((a + 1) % 100 == 0 ==> (a + 1) % 4 == 0);
}

proof fn lemma_years_days_monotone(a: int, b: int)
    requires
        0 <= a < b <= 399,
    ensures
        years_days(a + 1) <= years_days(b),
    decreases b - a,
{
    if b > a + 1 {
        lemma_years_days_monotone(a, b - 1);
        lemma_years_days_step(b - 1);
    }
}

/// The year of the era, the day of that year, and the era of a real day, as
/// `day_number` splits it.
proof fn lemma_day_number_parts(y: int, m: int, d: int)
    requires
        is_calendar_date(y, m, d),
    ensures
        0 <= shifted_year(y, m) % 400 <= 399,
        shifted_year(y, m) == 400 * (shifted_year(y, m) / 400) + shifted_year(y, m) % 400,
        day_number(y, m, d) == (shifted_year(y, m) / 400) * 146097 + years_days(shifted_year(y, m) % 400)
            + month_start(march_month(m)) + d - 1 - 719468,
        0 <= years_days(shifted_year(y, m) % 400) + month_start(march_month(m)) + d - 1 <= 146096,
        // the day lies before the start of the next year of the era
        shifted_year(y, m) % 400 < 399 ==> month_start(march_month(m)) + d - 1 < years_days(
            shifted_year(y, m) % 400 + 1,
        ) - years_days(shifted_year(y, m) % 400),
{
    let y1 = shifted_year(y, m);
    let yoe = y1 % 400;
    lemma_day_of_year(y, m, d);
    if yoe < 399 {
        lemma_years_days_monotone(yoe, 399);
        lemma_years_days_step(yoe);
        if month_start(march_month(m)) + d - 1 == 365 {
            assert(y == y1 + 1);
            assert(y == 400 * (y1 / 400) + yoe + 1);
            assert(y % 400 == yoe + 1);
            assert(y % 4 == (yoe + 1) % 4);
            assert(y % 100 == (yoe + 1) % 100);
        }
    }
    assert(years_days(399) == 145731);
    assert(years_days(yoe) >= 0);
}

/// Two real calendar days with the same day number are the same day: the day
/// number identifies the day. So the Monday that `week_start` gives for an
/// instant and the Monday that `monday_of` gives for that instant's local
/// date, whose contracts both fix the result's day number, are one day.
pub proof fn law_day_number_identifies_the_day(a: Date, b: Date)
    requires
        a.is_calendar(),
        b.is_calendar(),
        a.number() == b.number(),
    ensures
        a == b,
{
    let (ya, ma, da) = (a.year as int, a.month as int, a.day as int);
    let (yb, mb, db) = (b.year as int, b.month as int, b.day as int);
    lemma_day_number_parts(ya, ma, da);
    lemma_day_number_parts(yb, mb, db);
    lemma_day_of_year(ya, ma, da);
    lemma_day_of_year(yb, mb, db);
    let ea = shifted_year(ya, ma) / 400;
    let eb = shifted_year(yb, mb) / 400;
    let qa = shifted_year(ya, ma) % 400;
    let qb = shifted_year(yb, mb) % 400;
    let oa = month_start(march_month(ma)) + da - 1;
    let ob = month_start(march_month(mb)) + db - 1;
    let ra = years_days(qa) + oa;
    let rb = years_days(qb) + ob;
    assert(ea * 146097 + ra == eb * 146097 + rb);
    assert(ea == eb) by (nonlinear_arith)
        requires
            ea * 146097 + ra == eb * 146097 + rb,
            0 <= ra <= 146096,
            0 <= rb <= 146096,
    {
        if ea < eb {
            assert(eb * 146097 >= (ea + 1) * 146097);
        } else if ea > eb {
            assert(ea * 146097 >= (eb + 1) * 146097);
        }
    }
    assert(ra == rb);
    if qa < qb {
        lemma_years_days_monotone(qa, qb);
        assert(false);
    } else if qb < qa {
        lemma_years_days_monotone(qb, qa);
        assert(false);
    }
    assert(oa == ob);
    let pa = march_month(ma);
    let pb = march_month(mb);
    if pa < pb {
        lemma_month_start_monotone(pa + 1, pb);
        assert(false);
    } else if pb < pa {
        lemma_month_start_monotone(pb + 1, pa);
        assert(false);
    }
    assert(ma == mb);
    assert(da == db);
    assert(shifted_year(ya, ma) == shifted_year(yb, mb));
    assert(ya == yb);
}

} // verus!
