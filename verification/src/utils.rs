//! Local wall-clock time and its text forms (`HH:MM:SS`, `YYYY-MM-DD`).
use vstd::prelude::*;

use crate::text::{push_char, string_of};

verus! {

#[verifier::external_type_specification]
#[verifier::external_body]
pub struct ExOffsetDateTime(time::OffsetDateTime);

/// A tagged log message handed from the engine to the logger.
#[derive(Debug, Clone)]
pub struct LogEntry {
    pub tag: &'static str,
    pub message: String,
}

/// The calendar fields of a moment, as plain numbers.
#[derive(Clone, Copy, Debug)]
pub struct CalendarTime {
    pub year: i32,
    pub month: u8,
    pub day: u8,
    pub hour: u8,
    pub minute: u8,
    pub second: u8,
}

/// `time::OffsetDateTime::now_local`: the current moment in the local
/// offset, or `None` when that offset cannot be determined.  Nothing is
/// promised of the moment itself.
#[verifier::external_body]
fn local_now() -> (r: Option<time::OffsetDateTime>) {
    time::OffsetDateTime::now_local().ok()
}

/// `time::OffsetDateTime::now_utc`: the current moment in UTC.  Nothing is
/// promised of the moment itself.
#[verifier::external_body]
fn utc_now() -> (r: time::OffsetDateTime) {
    time::OffsetDateTime::now_utc()
}

/// The getters `year`, `month`, `day`, `hour`, `minute` and `second` of
/// `time::OffsetDateTime`.  Their documentation bounds month to `1..=12`
/// (the `Month` enum's discriminants), day to `1..=31`, hour to `0..24`
/// and minute and second to `0..60`; the year is not bounded here.
#[verifier::external_body]
fn calendar_of(t: &time::OffsetDateTime) -> (r: CalendarTime)
    ensures
        1 <= r.month <= 12,
        1 <= r.day <= 31,
        r.hour < 24,
        r.minute < 60,
        r.second < 60,
{
    CalendarTime {
        year: t.year(),
        month: u8::from(t.month()),
        day: t.day(),
        hour: t.hour(),
        minute: t.minute(),
        second: t.second(),
    }
}

/// The local calendar time, or UTC when the local offset is unknown:
/// returns year, month, day and the second of the day.
fn local_time() -> (r: (u64, u64, u64, u64))
    ensures
        1 <= r.1 <= 12,
        1 <= r.2 <= 31,
        r.3 < 86400,
{
    let now = match local_now() {
        Some(t) => t,
        None => utc_now(),
    };
    let c = calendar_of(&now);
    let secs: u64 = c.hour as u64 * 3600 + c.minute as u64 * 60 + c.second as u64;
    (c.year as u64, c.month as u64, c.day as u64, secs)
}

/// The ASCII digit for `d < 10`.
pub open spec fn digit_char(d: int) -> char {
    if d == 0 {
        '0'
    } else if d == 1 {
        '1'
    } else if d == 2 {
        '2'
    } else if d == 3 {
        '3'
    } else if d == 4 {
        '4'
    } else if d == 5 {
        '5'
    } else if d == 6 {
        '6'
    } else if d == 7 {
        '7'
    } else if d == 8 {
        '8'
    } else {
        '9'
    }
}

/// The decimal digits of `n`, without leading zeros.
pub open spec fn decimal(n: nat) -> Seq<char>
    decreases n,
{
    if n < 10 {
        seq![digit_char(n as int)]
    } else {
        decimal(n / 10).push(digit_char((n % 10) as int))
    }
}

/// `n` in decimal, padded on the left with zeros to at least `width` digits
/// (the `{:0width$}` format).
pub open spec fn zero_padded(n: nat, width: nat) -> Seq<char> {
    let d = decimal(n);
    if d.len() >= width {
        d
    } else {
        Seq::new((width - d.len()) as nat, |i: int| '0') + d
    }
}

/// `HH:MM:SS` for a count of seconds.
pub open spec fn hms_text(secs: nat) -> Seq<char> {
    zero_padded(secs / 3600, 2) + seq![':'] + zero_padded((secs % 3600) / 60, 2) + seq![':']
        + zero_padded(secs % 60, 2)
}

/// `YYYY-MM-DD`.
pub open spec fn date_text(y: nat, m: nat, d: nat) -> Seq<char> {
    zero_padded(y, 4) + seq!['-'] + zero_padded(m, 2) + seq!['-'] + zero_padded(d, 2)
}

fn digit_of(d: u64) -> (c: char)
    requires
        d < 10,
    ensures
        c == digit_char(d as int),
{
    if d == 0 {
        '0'
    } else if d == 1 {
        '1'
    } else if d == 2 {
        '2'
    } else if d == 3 {
        '3'
    } else if d == 4 {
        '4'
    } else if d == 5 {
        '5'
    } else if d == 6 {
        '6'
    } else if d == 7 {
        '7'
    } else if d == 8 {
        '8'
    } else {
        '9'
    }
}

pub(crate) fn decimal_chars(n: u64) -> (r: Vec<char>)
    ensures
        r@ == decimal(n as nat),
    decreases n,
{
    if n < 10 {
        let mut v = Vec::new();
        v.push(digit_of(n));
        assert(v@ =~= seq![digit_char(n as int)]);
        v
    } else {
        let mut v = decimal_chars(n / 10);
        v.push(digit_of(n % 10));
        v
    }
}

fn push_padded(dst: &mut Vec<char>, n: u64, width: usize)
    ensures
        final(dst)@ == old(dst)@ + zero_padded(n as nat, width as nat),
{
    let d = decimal_chars(n);
    let ghost start = dst@;
    if d.len() < width {
        let pad = width - d.len();
        let mut i: usize = 0;
        while i < pad
            invariant
                i <= pad,
                pad == width - d@.len(),
                dst@ == start + Seq::new(i as nat, |k: int| '0'),
            decreases pad - i,
        {
            dst.push('0');
            i = i + 1;
            assert(dst@ =~= start + Seq::new(i as nat, |k: int| '0'));
        }
    }
    let ghost mid = dst@;
    let mut j: usize = 0;
    while j < d.len()
        invariant
            j <= d@.len(),
            dst@ == mid + d@.subrange(0, j as int),
        decreases d@.len() - j,
    {
        dst.push(d[j]);
        j = j + 1;
        assert(dst@ =~= mid + d@.subrange(0, j as int));
    }
    assert(d@.subrange(0, d@.len() as int) =~= d@);
    assert(dst@ =~= start + zero_padded(n as nat, width as nat));
}

/// `HH:MM:SS` for a count of seconds (hours are not wrapped).
pub fn format_hms(secs: u64) -> (r: String)
    ensures
        r@ == hms_text(secs as nat),
{
    let mut v: Vec<char> = Vec::new();
    push_padded(&mut v, secs / 3600, 2);
    v.push(':');
    push_padded(&mut v, (secs % 3600) / 60, 2);
    v.push(':');
    push_padded(&mut v, secs % 60, 2);
    assert(v@ =~= hms_text(secs as nat));
    string_of(&v)
}

/// `YYYY-MM-DD`.
pub fn format_date(y: u64, m: u64, d: u64) -> (r: String)
    ensures
        r@ == date_text(y as nat, m as nat, d as nat),
{
    let mut v: Vec<char> = Vec::new();
    push_padded(&mut v, y, 4);
    v.push('-');
    push_padded(&mut v, m, 2);
    v.push('-');
    push_padded(&mut v, d, 2);
    assert(v@ =~= date_text(y as nat, m as nat, d as nat));
    string_of(&v)
}

/// The current local time of day, `HH:MM:SS`.
pub fn now_hms() -> (r: String)
    ensures
        exists|s: nat| s < 86400 && r@ == hms_text(s),
{
    let (_, _, _, s) = local_time();
    format_hms(s)
}

/// Today's local date, `YYYY-MM-DD`.
pub fn now_date() -> (r: String)
    ensures
        exists|y: nat, m: nat, d: nat| 1 <= m <= 12 && 1 <= d <= 31 && r@ == date_text(y, m, d),
{
    let (y, m, d, _) = local_time();
    format_date(y, m, d)
}

/// The current local date and time, `YYYY-MM-DD HH:MM:SS` (the clock is read
/// once for the date and once for the time).
pub fn now_datetime() -> (r: String)
    ensures
        exists|y: nat, m: nat, d: nat, s: nat|
            1 <= m <= 12 && 1 <= d <= 31 && s < 86400 && r@ == date_text(y, m, d) + seq![' ']
                + hms_text(s),
{
    let mut r = now_date();
    let ghost date = r@;
    push_char(&mut r, ' ');
    let t = now_hms();
    r.append(t.as_str());
    proof {
        let (y, m, d) = choose|y: nat, m: nat, d: nat|
            1 <= m <= 12 && 1 <= d <= 31 && date == date_text(y, m, d);
        let s = choose|s: nat| s < 86400 && t@ == hms_text(s);
        assert(r@ == date_text(y, m, d) + seq![' '] + hms_text(s));
    }
    r
}

} // verus!
