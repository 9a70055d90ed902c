//! Calendar timestamps with second precision.
//!
//! The store's time domain is the proleptic Gregorian calendar from
//! 0000-01-01T00:00:00 to 9999-12-31T23:59:59 — exactly the values the
//! four accepted textual formats can express. Ordering is defined by an
//! injective integer encoding of the six fields.

use vstd::prelude::*;
use vstd::string::StringExecFns;

use crate::json::{digit_val, is_digit, lemma_digit_char_val};
use crate::text::{
    chars_of, chars_to_string, digit_char, push_pad2, push_pad4, spec_dec, spec_pad2, spec_pad4,
};

verus! {

/// The message every timestamp validation failure carries.
pub fn invalid_timestamp_message() -> (r: String)
    ensures
        r@ == "Invalid timestamp"@,
{
    String::from_str("Invalid timestamp")
}

/// A calendar date and time of day, second precision.
#[derive(Debug, Clone, Copy, PartialEq, Eq, PartialOrd, Ord, Structural)]
pub struct Timestamp {
    pub year: u32,
    pub month: u8,
    pub day: u8,
    pub hour: u8,
    pub minute: u8,
    pub second: u8,
}

pub open spec fn spec_is_leap_year(y: u32) -> bool {
    y % 4 == 0 && (y % 100 != 0 || y % 400 == 0)
}

pub open spec fn spec_days_in_month(y: u32, m: u8) -> u8 {
    if m == 2 {
        if spec_is_leap_year(y) {
            29
        } else {
            28
        }
    } else if m == 4 || m == 6 || m == 9 || m == 11 {
        30
    } else {
        31
    }
}

pub fn is_leap_year(y: u32) -> (r: bool)
    ensures
        r == spec_is_leap_year(y),
{
    y % 4 == 0 && (y % 100 != 0 || y % 400 == 0)
}

pub fn days_in_month(y: u32, m: u8) -> (r: u8)
    ensures
        r == spec_days_in_month(y, m),
{
    if m == 2 {
        if is_leap_year(y) {
            29
        } else {
            28
        }
    } else if m == 4 || m == 6 || m == 9 || m == 11 {
        30
    } else {
        31
    }
}

impl Timestamp {
    /// A valid calendar timestamp: real date, 24-hour clock, 4-digit year.
    pub open spec fn wf(self) -> bool {
        &&& self.year <= 9999
        &&& 1 <= self.month <= 12
        &&& 1 <= self.day <= spec_days_in_month(self.year, self.month)
        &&& self.hour <= 23
        &&& self.minute <= 59
        &&& self.second <= 59
    }

    /// Injective encoding that orders timestamps chronologically on valid
    /// values: each factor strictly dominates the fields to its right.
    pub open spec fn enc(self) -> int {
        ((((self.year * 13 + self.month) * 32 + self.day) * 24 + self.hour) * 60 + self.minute)
            * 60 + self.second
    }

    pub open spec fn spec_lt(self, other: Self) -> bool {
        self.enc() < other.enc()
    }

    pub open spec fn spec_le(self, other: Self) -> bool {
        self.enc() <= other.enc()
    }

    /// Executable form of the ordering encoding.
    pub fn enc_u64(&self) -> (r: u64)
        ensures
            r == self.enc(),
    {
        ((((self.year as u64 * 13 + self.month as u64) * 32 + self.day as u64) * 24
            + self.hour as u64) * 60 + self.minute as u64) * 60 + self.second as u64
    }

    pub fn lt(&self, other: &Self) -> (r: bool)
        ensures
            r == self.spec_lt(*other),
    {
        self.enc_u64() < other.enc_u64()
    }

    pub fn le(&self, other: &Self) -> (r: bool)
        ensures
            r == self.spec_le(*other),
    {
        self.enc_u64() <= other.enc_u64()
    }

    /// Validating constructor: accepts exactly the valid calendar values.
    pub fn new(year: u32, month: u8, day: u8, hour: u8, minute: u8, second: u8) -> (r: Result<
        Timestamp,
        String,
    >)
        ensures
            r is Ok <==> (Timestamp { year, month, day, hour, minute, second }).wf(),
            r is Ok ==> r->Ok_0 == (Timestamp { year, month, day, hour, minute, second }),
    {
        let ts = Timestamp { year, month, day, hour, minute, second };
        if ts.is_valid() {
            Ok(ts)
        } else {
            Err(invalid_timestamp_message())
        }
    }

    /// Runtime check of `wf`.
    pub fn is_valid(&self) -> (r: bool)
        ensures
            r == self.wf(),
    {
        self.year <= 9999 && 1 <= self.month && self.month <= 12 && 1 <= self.day && self.day
            <= days_in_month(self.year, self.month) && self.hour <= 23 && self.minute <= 59
            && self.second <= 59
    }

    /// Whether this is the last date the domain can represent; only there
    /// does the following calendar day not exist.
    pub open spec fn spec_is_max_date(self) -> bool {
        self.year == 9999 && self.month == 12 && self.day == 31
    }

    pub fn is_max_date(&self) -> (r: bool)
        ensures
            r == self.spec_is_max_date(),
    {
        self.year == 9999 && self.month == 12 && self.day == 31
    }

    /// The start of the following calendar day, keeping the time of day.
    pub open spec fn spec_next_day(self) -> Timestamp {
        if self.day < spec_days_in_month(self.year, self.month) {
            Timestamp { day: (self.day + 1) as u8, ..self }
        } else if self.month < 12 {
            Timestamp { month: (self.month + 1) as u8, day: 1, ..self }
        } else {
            Timestamp { year: (self.year + 1) as u32, month: 1, day: 1, ..self }
        }
    }

    /// Same time of day, one calendar day later.
    pub fn next_day(&self) -> (r: Timestamp)
        requires
            self.wf(),
            !self.spec_is_max_date(),
        ensures
            r == self.spec_next_day(),
            r.wf(),
            self.enc() < r.enc(),
            r.hour == self.hour && r.minute == self.minute && r.second == self.second,
    {
        let dim = days_in_month(self.year, self.month);
        if self.day < dim {
            Timestamp { day: self.day + 1, ..*self }
        } else if self.month < 12 {
            Timestamp { month: self.month + 1, day: 1, ..*self }
        } else {
            Timestamp { year: self.year + 1, month: 1, day: 1, ..*self }
        }
    }
}

/// The date label of a timestamp: `YYYY-MM-DD`.
pub open spec fn spec_date_label(ts: Timestamp) -> Seq<char> {
    spec_pad4(ts.year as int) + seq!['-'] + spec_pad2(ts.month as int) + seq!['-'] + spec_pad2(
        ts.day as int,
    )
}

/// The textual form of a timestamp: `YYYY-MM-DDTHH:MM:SS`.
pub open spec fn spec_ts_text(ts: Timestamp) -> Seq<char> {
    spec_date_label(ts) + seq!['T'] + spec_pad2(ts.hour as int) + seq![':'] + spec_pad2(
        ts.minute as int,
    ) + seq![':'] + spec_pad2(ts.second as int)
}

/// Appends `YYYY-MM-DD`.
pub fn push_date_label(out: &mut Vec<char>, ts: &Timestamp)
    ensures
        final(out)@ == old(out)@ + spec_date_label(*ts),
{
    push_pad4(out, ts.year as u64);
    out.push('-');
    push_pad2(out, ts.month as u64);
    out.push('-');
    push_pad2(out, ts.day as u64);
    proof {
        assert(out@ =~= old(out)@ + spec_date_label(*ts));
    }
}

/// Appends `YYYY-MM-DDTHH:MM:SS`.
pub fn push_ts_text(out: &mut Vec<char>, ts: &Timestamp)
    ensures
        final(out)@ == old(out)@ + spec_ts_text(*ts),
{
    push_date_label(out, ts);
    out.push('T');
    push_pad2(out, ts.hour as u64);
    out.push(':');
    push_pad2(out, ts.minute as u64);
    out.push(':');
    push_pad2(out, ts.second as u64);
    proof {
        assert(out@ =~= old(out)@ + spec_ts_text(*ts));
    }
}

impl Timestamp {
    /// The date label `YYYY-MM-DD`.
    pub fn format_date(&self) -> (r: String)
        ensures
            r@ == spec_date_label(*self),
    {
        let mut out: Vec<char> = Vec::new();
        push_date_label(&mut out, self);
        chars_to_string(&out)
    }

    /// The textual form `YYYY-MM-DDTHH:MM:SS`.
    pub fn format_text(&self) -> (r: String)
        ensures
            r@ == spec_ts_text(*self),
    {
        let mut out: Vec<char> = Vec::new();
        push_ts_text(&mut out, self);
        chars_to_string(&out)
    }
}


/// Stepping to the following day preserves validity and strictly
/// increases the order encoding.
pub proof fn lemma_next_day(ts: Timestamp)
    requires
        ts.wf(),
        !ts.spec_is_max_date(),
    ensures
        ts.spec_next_day().wf(),
        ts.enc() < ts.spec_next_day().enc(),
{
}

/// The timestamp `k` calendar days later.
pub open spec fn spec_add_days(ts: Timestamp, k: nat) -> Timestamp
    decreases k,
{
    if k == 0 {
        ts
    } else {
        spec_add_days(ts.spec_next_day(), (k - 1) as nat)
    }
}

pub proof fn lemma_add_days_next(ts: Timestamp, k: nat)
    ensures
        spec_add_days(ts, k + 1) == spec_add_days(ts, k).spec_next_day(),
    decreases k,
{
    assert(spec_add_days(ts, k + 1) == spec_add_days(ts.spec_next_day(), k));
    if k > 0 {
        lemma_add_days_next(ts.spec_next_day(), (k - 1) as nat);
        assert(spec_add_days(ts, k) == spec_add_days(ts.spec_next_day(), (k - 1) as nat));
    } else {
        assert(spec_add_days(ts.spec_next_day(), 0) == ts.spec_next_day());
    }
}

/// How many day buckets `[day, end)` spans: one per calendar day started
/// before `end`, the last representable date closing the range.
pub open spec fn day_count(day: Timestamp, end: Timestamp) -> nat
    decreases (if day.spec_lt(end) { end.enc() - day.enc() } else { 0int }) when day.wf()
        via day_count_decreases
{
    if !day.spec_lt(end) {
        0
    } else if day.spec_is_max_date() {
        1
    } else {
        (1 + day_count(day.spec_next_day(), end)) as nat
    }
}

#[via_fn]
proof fn day_count_decreases(day: Timestamp, end: Timestamp) {
    if day.spec_lt(end) && !day.spec_is_max_date() {
        lemma_next_day(day);
        assert(day.enc() < day.spec_next_day().enc());
    }
}

/// Valid timestamps order by year first: the month factor 13 strictly
/// exceeds any valid month, and so on down the fields.
pub proof fn lemma_enc_year_order(a: Timestamp, b: Timestamp)
    requires
        a.wf(),
        b.wf(),
        a.enc() < b.enc(),
    ensures
        a.year <= b.year,
{
}

/// The timestamp a string denotes, under the four accepted formats:
/// `YYYY-MM-DDTHH:MM:SS`, `YYYY-MM-DDTHH:MM`, and the same two with a
/// space in place of the `T`. Fixed-width fields; the result must be a
/// valid calendar value.
pub open spec fn spec_parse_timestamp(s: Seq<char>) -> Option<Timestamp> {
    if (s.len() == 19 || s.len() == 16) && is_digit(s[0]) && is_digit(s[1]) && is_digit(s[2])
        && is_digit(s[3]) && s[4] == '-' && is_digit(s[5]) && is_digit(s[6]) && s[7] == '-'
        && is_digit(s[8]) && is_digit(s[9]) && (s[10] == 'T' || s[10] == ' ') && is_digit(s[11])
        && is_digit(s[12]) && s[13] == ':' && is_digit(s[14]) && is_digit(s[15]) && (s.len() == 16
        || (s[16] == ':' && is_digit(s[17]) && is_digit(s[18]))) {
        let ts = Timestamp {
            year: (digit_val(s[0]) * 1000 + digit_val(s[1]) * 100 + digit_val(s[2]) * 10
                + digit_val(s[3])) as u32,
            month: (digit_val(s[5]) * 10 + digit_val(s[6])) as u8,
            day: (digit_val(s[8]) * 10 + digit_val(s[9])) as u8,
            hour: (digit_val(s[11]) * 10 + digit_val(s[12])) as u8,
            minute: (digit_val(s[14]) * 10 + digit_val(s[15])) as u8,
            second: if s.len() == 19 {
                (digit_val(s[17]) * 10 + digit_val(s[18])) as u8
            } else {
                0
            },
        };
        if ts.wf() {
            Some(ts)
        } else {
            None
        }
    } else {
        None
    }
}

/// The message an unparsable timestamp string earns.
pub open spec fn spec_timestamp_error(s: Seq<char>) -> Seq<char> {
    "Invalid timestamp: '"@ + s + "'. Use YYYY-MM-DDTHH:MM:SS"@
}

fn two_digits(v: &Vec<char>, i: usize) -> (r: Option<u8>)
    requires
        i + 2 <= v@.len(),
    ensures
        r is Some <==> is_digit(v@[i as int]) && is_digit(v@[i as int + 1]),
        r is Some ==> r->0 == digit_val(v@[i as int]) * 10 + digit_val(v@[i as int + 1]),
{
    let n = v.len();
    let a = char_to_digit(v[i]);
    let b = char_to_digit(v[i + 1]);
    match (a, b) {
        (Some(x), Some(y)) => Some(x * 10 + y),
        _ => None,
    }
}

fn char_to_digit(c: char) -> (r: Option<u8>)
    ensures
        r is Some <==> is_digit(c),
        r is Some ==> r->0 == digit_val(c) && digit_val(c) < 10,
{
    if '0' <= c && c <= '9' {
        Some((c as u32 - '0' as u32) as u8)
    } else {
        None
    }
}

/// Parses a timestamp from one of the four accepted textual formats.
pub fn parse_timestamp(s: &str) -> (r: Result<Timestamp, String>)
    ensures
        match spec_parse_timestamp(s@) {
            Some(ts) => r == Ok::<Timestamp, String>(ts),
            None => r is Err && r->Err_0@ == spec_timestamp_error(s@),
        },
{
    let v = chars_of(s);
    let n = v.len();
    if n != 19 && n != 16 {
        return Err(timestamp_error(s));
    }
    let ok_shape = v[4] == '-' && v[7] == '-' && (v[10] == 'T' || v[10] == ' ') && v[13] == ':'
        && (n == 16 || v[16] == ':');
    if !ok_shape {
        return Err(timestamp_error(s));
    }
    let y_hi = two_digits(&v, 0);
    let y_lo = two_digits(&v, 2);
    let mo = two_digits(&v, 5);
    let dy = two_digits(&v, 8);
    let hr = two_digits(&v, 11);
    let mi = two_digits(&v, 14);
    let se: Option<u8> = if n == 19 {
        two_digits(&v, 17)
    } else {
        Some(0)
    };
    match (y_hi, y_lo, mo, dy, hr, mi, se) {
        (Some(yh), Some(yl), Some(mo), Some(dy), Some(hr), Some(mi), Some(se)) => {
            let ts = Timestamp {
                year: yh as u32 * 100 + yl as u32,
                month: mo,
                day: dy,
                hour: hr,
                minute: mi,
                second: se,
            };
            proof {
                assert(ts.year == digit_val(s@[0]) * 1000 + digit_val(s@[1]) * 100 + digit_val(
                    s@[2],
                ) * 10 + digit_val(s@[3]));
            }
            if ts.is_valid() {
                Ok(ts)
            } else {
                Err(timestamp_error(s))
            }
        },
        _ => Err(timestamp_error(s)),
    }
}

pub(crate) fn timestamp_error(s: &str) -> (r: String)
    ensures
        r@ == spec_timestamp_error(s@),
{
    let mut m = String::from_str("Invalid timestamp: '");
    m.append(s);
    m.append("'. Use YYYY-MM-DDTHH:MM:SS");
    m
}

/// The text of a valid timestamp parses back to it.
pub proof fn lemma_ts_text_parses(ts: Timestamp)
    requires
        ts.wf(),
    ensures
        spec_ts_text(ts).len() == 19,
        spec_parse_timestamp(spec_ts_text(ts)) == Some(ts),
{
    let s = spec_ts_text(ts);
    let p4 = spec_pad4(ts.year as int);
    let p_mo = spec_pad2(ts.month as int);
    let p_dy = spec_pad2(ts.day as int);
    let p_hr = spec_pad2(ts.hour as int);
    let p_mi = spec_pad2(ts.minute as int);
    let p_se = spec_pad2(ts.second as int);
    lemma_pad4_props(ts.year as int);
    lemma_pad2_props(ts.month as int);
    lemma_pad2_props(ts.day as int);
    lemma_pad2_props(ts.hour as int);
    lemma_pad2_props(ts.minute as int);
    lemma_pad2_props(ts.second as int);
    assert(s =~= p4 + seq!['-'] + p_mo + seq!['-'] + p_dy + seq!['T'] + p_hr + seq![':'] + p_mi
        + seq![':'] + p_se);
    assert(s.len() == 19);
    assert(s[0] == p4[0] && s[1] == p4[1] && s[2] == p4[2] && s[3] == p4[3]);
    assert(s[4] == '-');
    assert(s[5] == p_mo[0] && s[6] == p_mo[1]);
    assert(s[7] == '-');
    assert(s[8] == p_dy[0] && s[9] == p_dy[1]);
    assert(s[10] == 'T');
    assert(s[11] == p_hr[0] && s[12] == p_hr[1]);
    assert(s[13] == ':');
    assert(s[14] == p_mi[0] && s[15] == p_mi[1]);
    assert(s[16] == ':');
    assert(s[17] == p_se[0] && s[18] == p_se[1]);
    let t2 = spec_parse_timestamp(s)->0;
    assert(t2.year == ts.year && t2.month == ts.month && t2.day == ts.day && t2.hour == ts.hour
        && t2.minute == ts.minute && t2.second == ts.second);
}

/// The four zero-padded digits of a value below 10000, with their
/// positional reading.
pub proof fn lemma_pad4_props(n: int)
    requires
        0 <= n < 10000,
    ensures
        spec_pad4(n).len() == 4,
        is_digit(spec_pad4(n)[0]),
        is_digit(spec_pad4(n)[1]),
        is_digit(spec_pad4(n)[2]),
        is_digit(spec_pad4(n)[3]),
        digit_val(spec_pad4(n)[0]) * 1000 + digit_val(spec_pad4(n)[1]) * 100 + digit_val(
            spec_pad4(n)[2],
        ) * 10 + digit_val(spec_pad4(n)[3]) == n,
{
    if n < 10 {
        lemma_digit_char_val(0);
        lemma_digit_char_val(n);
        assert(spec_pad4(n) == seq!['0', '0', '0'] + spec_dec(n));
    } else if n < 100 {
        lemma_digit_char_val(0);
        lemma_digit_char_val(n / 10);
        lemma_digit_char_val(n % 10);
        assert(spec_dec(n) == spec_dec(n / 10).push(digit_char(n % 10)));
        assert(spec_dec(n / 10) == seq![digit_char(n / 10)]);
        assert(spec_pad4(n) == seq!['0', '0'] + spec_dec(n));
    } else if n < 1000 {
        lemma_digit_char_val(0);
        lemma_digit_char_val(n / 100);
        lemma_digit_char_val((n / 10) % 10);
        lemma_digit_char_val(n % 10);
        assert(spec_dec(n) == spec_dec(n / 10).push(digit_char(n % 10)));
        assert(spec_dec(n / 10) == spec_dec(n / 100).push(digit_char((n / 10) % 10)));
        assert(spec_dec(n / 100) == seq![digit_char(n / 100)]);
        assert(spec_pad4(n) == seq!['0'] + spec_dec(n));
        assert((n / 100) * 100 + ((n / 10) % 10) * 10 + n % 10 == n);
    } else {
        lemma_digit_char_val(n / 1000);
        lemma_digit_char_val((n / 100) % 10);
        lemma_digit_char_val((n / 10) % 10);
        lemma_digit_char_val(n % 10);
        assert(spec_dec(n) == spec_dec(n / 10).push(digit_char(n % 10)));
        assert(spec_dec(n / 10) == spec_dec(n / 100).push(digit_char((n / 10) % 10)));
        assert(spec_dec(n / 100) == spec_dec(n / 1000).push(digit_char((n / 100) % 10)));
        assert(spec_dec(n / 1000) == seq![digit_char(n / 1000)]);
        assert((n / 1000) * 1000 + ((n / 100) % 10) * 100 + ((n / 10) % 10) * 10 + n % 10 == n);
    }
}

/// The two zero-padded digits of a value below 100, with their
/// positional reading.
pub proof fn lemma_pad2_props(n: int)
    requires
        0 <= n < 100,
    ensures
        spec_pad2(n).len() == 2,
        is_digit(spec_pad2(n)[0]),
        is_digit(spec_pad2(n)[1]),
        digit_val(spec_pad2(n)[0]) * 10 + digit_val(spec_pad2(n)[1]) == n,
{
    if n < 10 {
        lemma_digit_char_val(0);
        lemma_digit_char_val(n);
        assert(spec_pad2(n) == seq!['0'] + spec_dec(n));
    } else {
        lemma_digit_char_val(n / 10);
        lemma_digit_char_val(n % 10);
        assert(spec_dec(n) == spec_dec(n / 10).push(digit_char(n % 10)));
        assert(spec_dec(n / 10) == seq![digit_char(n / 10)]);
    }
}

} // verus!
