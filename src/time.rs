//! Resolving human time expressions to instants, and rendering durations.
use vstd::prelude::*;
use crate::events::Timestamp;
use crate::text::{chars_of, decimal, digit_char, push_decimal, same_chars};

verus! {

pub const MINUTE_MS: i64 = 60_000;

pub const HOUR_MS: i64 = 3_600_000;

pub const DAY_MS: i64 = 86_400_000;

pub const WEEK_MS: i64 = 604_800_000;

/// The instants a time expression is resolved against.
#[derive(Debug, Clone, Copy, PartialEq, Eq)]
pub struct Clock {
    /// The current instant.
    pub now: Timestamp,
    /// Local midnight at the start of the current day.
    pub today_start: Timestamp,
    /// Local midnight at the start of the previous day.
    pub yesterday_start: Timestamp,
}

/// Why a time expression could not be resolved; each holds the expression.
#[derive(Debug, Clone, PartialEq, Eq)]
pub enum TimeError {
    /// The expression has none of the recognized forms.
    UnrecognizedTimeExpression(String),
    /// The expression ends in a unit but its count is not an integer.
    InvalidTimeFormat(String),
    /// The count is an integer but the instant it names cannot be represented.
    OutOfRange(String),
}

impl TimeError {
    /// The expression the error is about.
    pub fn expression(&self) -> (r: &String)
        ensures
            r@ == error_expression(*self),
    {
        match self {
            TimeError::UnrecognizedTimeExpression(s) => s,
            TimeError::InvalidTimeFormat(s) => s,
            TimeError::OutOfRange(s) => s,
        }
    }

    /// A one-line description for the user.
    pub fn message(&self) -> (r: String)
        ensures
            r@ == error_message(*self),
    {
        let mut r = match self {
            TimeError::UnrecognizedTimeExpression(_) => String::from_str(
                "Unrecognized time format: ",
            ),
            TimeError::InvalidTimeFormat(_) => String::from_str("Invalid time format: "),
            TimeError::OutOfRange(_) => String::from_str("Time out of range: "),
        };
        r.append(self.expression().as_str());
        r
    }
}

pub open spec fn error_expression(e: TimeError) -> Seq<char> {
    match e {
        TimeError::UnrecognizedTimeExpression(s) => s@,
        TimeError::InvalidTimeFormat(s) => s@,
        TimeError::OutOfRange(s) => s@,
    }
}

pub open spec fn error_message(e: TimeError) -> Seq<char> {
    match e {
        TimeError::UnrecognizedTimeExpression(s) => "Unrecognized time format: "@ + s@,
        TimeError::InvalidTimeFormat(s) => "Invalid time format: "@ + s@,
        TimeError::OutOfRange(s) => "Time out of range: "@ + s@,
    }
}

pub open spec fn is_digit(c: char) -> bool {
    '0' <= c && c <= '9'
}

pub open spec fn digit_value(c: char) -> int {
    (c as u32) as int - ('0' as u32) as int
}

/// The number a run of decimal digits spells.
pub open spec fn digits_value(s: Seq<char>) -> int
    decreases s.len(),
{
    if s.len() == 0 {
        0
    } else {
        digits_value(s.drop_last()) * 10 + digit_value(s.last())
    }
}

pub open spec fn all_digits(s: Seq<char>) -> bool {
    s.len() > 0 && forall|i: int| 0 <= i < s.len() ==> is_digit(#[trigger] s[i])
}

/// The integer `s` spells as an optional sign and decimal digits, in any range.
pub open spec fn signed_value(s: Seq<char>) -> Option<int> {
    if s.len() > 0 && s[0] == '-' {
        if all_digits(s.drop_first()) {
            Some(-digits_value(s.drop_first()))
        } else {
            None
        }
    } else if s.len() > 0 && s[0] == '+' {
        if all_digits(s.drop_first()) {
            Some(digits_value(s.drop_first()))
        } else {
            None
        }
    } else if all_digits(s) {
        Some(digits_value(s))
    } else {
        None
    }
}

/// The 64-bit signed integer `s` spells, as Rust's integer parsing reads it.
pub open spec fn parse_i64(s: Seq<char>) -> Option<i64> {
    match signed_value(s) {
        Some(v) => if i64::MIN <= v <= i64::MAX {
            Some(v as i64)
        } else {
            None
        },
        None => None,
    }
}

proof fn lemma_digits_grow(s: Seq<char>, i: int)
    requires
        0 <= i <= s.len(),
        forall|k: int| 0 <= k < s.len() ==> is_digit(#[trigger] s[k]),
    ensures
        digits_value(s) >= digits_value(s.subrange(0, i)) >= 0,
    decreases s.len() - i,
{
    if i == s.len() {
        assert(s.subrange(0, i) =~= s);
        lemma_digits_nonneg(s);
    } else {
        lemma_digits_grow(s, i + 1);
        let p = s.subrange(0, i + 1);
        assert(p.drop_last() =~= s.subrange(0, i));
        lemma_digits_nonneg(s.subrange(0, i));
    }
}

proof fn lemma_digits_nonneg(s: Seq<char>)
    requires
        forall|k: int| 0 <= k < s.len() ==> is_digit(#[trigger] s[k]),
    ensures
        digits_value(s) >= 0,
    decreases s.len(),
{
    if s.len() > 0 {
        lemma_digits_nonneg(s.drop_last());
    }
}

/// Reads a run of decimal digits, or `None` when one is not a digit or the value
/// exceeds `limit`.
fn read_digits(s: &Vec<char>, from: usize, limit: u64) -> (r: Option<u64>)
    requires
        from <= s@.len(),
        limit >= 9,
    ensures
        match r {
            Some(v) => all_digits(s@.subrange(from as int, s@.len() as int)) && v == digits_value(
                s@.subrange(from as int, s@.len() as int),
            ) && v <= limit,
            None => !all_digits(s@.subrange(from as int, s@.len() as int)) || digits_value(
                s@.subrange(from as int, s@.len() as int),
            ) > limit,
        },
{
    let ghost body = s@.subrange(from as int, s@.len() as int);
    if from == s.len() {
        return None;
    }
    let mut acc: u64 = 0;
    let mut i: usize = from;
    while i < s.len()
        invariant
            from <= i <= s@.len(),
            body == s@.subrange(from as int, s@.len() as int),
            forall|k: int| from <= k < i ==> is_digit(#[trigger] s@[k]),
            acc == digits_value(s@.subrange(from as int, i as int)),
            acc <= limit,
            limit >= 9,
        decreases s@.len() - i,
    {
        let c = s[i];
        if !('0' <= c && c <= '9') {
            assert(!is_digit(body[i - from]));
            return None;
        }
        let d = (c as u32 - '0' as u32) as u64;
        let ghost pre = s@.subrange(from as int, (i + 1) as int);
        assert(pre.drop_last() =~= s@.subrange(from as int, i as int));
        if acc > (limit - d) / 10 {
            assert(digits_value(pre) > limit) by (nonlinear_arith)
                requires
                    digits_value(pre) == acc * 10 + d,
                    acc > (limit - d) / 10,
                    d <= 9,
                    acc >= 0,
            ;
            proof {
                if all_digits(body) {
                    lemma_digits_grow(body, i + 1 - from);
                    assert(body.subrange(0, i + 1 - from) =~= pre);
                }
            }
            return None;
        }
        acc = acc * 10 + d;
        i = i + 1;
    }
    assert(s@.subrange(from as int, i as int) =~= body);
    Some(acc)
}

/// Parses a 64-bit signed integer: an optional `+` or `-`, then decimal digits.
pub fn parse_integer(s: &str) -> (r: Option<i64>)
    ensures
        r == parse_i64(s@),
{
    let cs = chars_of(s);
    if cs.len() > 0 && cs[0] == '-' {
        let ghost body = s@.drop_first();
        assert(body =~= s@.subrange(1, s@.len() as int));
        match read_digits(&cs, 1, 9_223_372_036_854_775_808) {
            Some(v) => {
                if v == 9_223_372_036_854_775_808 {
                    Some(i64::MIN)
                } else {
                    Some(-(v as i64))
                }
            },
            None => None,
        }
    } else {
        let from: usize = if cs.len() > 0 && cs[0] == '+' {
            1
        } else {
            0
        };
        assert(from == 0 ==> s@.subrange(0, s@.len() as int) =~= s@);
        assert(from == 1 ==> s@.drop_first() =~= s@.subrange(1, s@.len() as int));
        match read_digits(&cs, from, 9_223_372_036_854_775_807) {
            Some(v) => Some(v as i64),
            None => None,
        }
    }
}

/// The length of a unit named by its suffix letter, in milliseconds.
pub open spec fn unit_ms(c: char) -> int {
    if c == 'm' {
        MINUTE_MS as int
    } else if c == 'h' {
        HOUR_MS as int
    } else if c == 'd' {
        DAY_MS as int
    } else {
        WEEK_MS as int
    }
}

pub open spec fn is_unit(c: char) -> bool {
    c == 'm' || c == 'h' || c == 'd' || c == 'w'
}

/// What an expression resolves to, in unbounded integers.
pub enum Resolution {
    At(int),
    Unrecognized,
    Invalid,
}

/// What `input` resolves to against `clock`.
pub open spec fn resolution(input: Seq<char>, clock: Clock) -> Resolution {
    if input == "now"@ {
        Resolution::At(clock.now as int)
    } else if input == "today"@ {
        Resolution::At(clock.today_start as int)
    } else if input == "yesterday"@ {
        Resolution::At(clock.yesterday_start as int)
    } else if input == "last-session"@ {
        Resolution::At(clock.now - HOUR_MS)
    } else if input.len() > 0 && is_unit(input.last()) {
        match parse_i64(input.drop_last()) {
            Some(n) => Resolution::At(clock.now - n * unit_ms(input.last())),
            None => Resolution::Invalid,
        }
    } else {
        Resolution::Unrecognized
    }
}

/// The result `parse_relative_time` owes for `input` against `clock`.
pub open spec fn resolves_to(input: Seq<char>, clock: Clock, r: Result<Timestamp, TimeError>) -> bool {
    match resolution(input, clock) {
        Resolution::At(t) => if i64::MIN <= t <= i64::MAX {
            r == Ok::<Timestamp, TimeError>(t as i64)
        } else {
            r is Err && r->Err_0 is OutOfRange && error_expression(r->Err_0) == input
        },
        Resolution::Unrecognized => r is Err && r->Err_0 is UnrecognizedTimeExpression
            && error_expression(r->Err_0) == input,
        Resolution::Invalid => r is Err && r->Err_0 is InvalidTimeFormat && error_expression(
            r->Err_0,
        ) == input,
    }
}

fn is_literal(input: &Vec<char>, lit: &str) -> (r: bool)
    ensures
        r == (input@ == lit@),
{
    same_chars(input, &chars_of(lit))
}

/// Resolves a time expression against `clock`: `now`, `today`, `yesterday`,
/// `last-session` (one hour back), or a count of minutes, hours, days or weeks
/// back (`30m`, `2h`, `1d`, `3w`).
pub fn parse_relative_time(input: &str, clock: &Clock) -> (r: Result<Timestamp, TimeError>)
    ensures
        resolves_to(input@, *clock, r),
{
    let cs = chars_of(input);
    if is_literal(&cs, "now") {
        return Ok(clock.now);
    }
    if is_literal(&cs, "today") {
        return Ok(clock.today_start);
    }
    if is_literal(&cs, "yesterday") {
        return Ok(clock.yesterday_start);
    }
    if is_literal(&cs, "last-session") {
        if clock.now < i64::MIN + HOUR_MS {
            return Err(TimeError::OutOfRange(String::from_str(input)));
        }
        return Ok(clock.now - HOUR_MS);
    }
    if cs.len() > 0 {
        let u = cs[cs.len() - 1];
        if u == 'm' || u == 'h' || u == 'd' || u == 'w' {
            let unit: i64 = if u == 'm' {
                MINUTE_MS
            } else if u == 'h' {
                HOUR_MS
            } else if u == 'd' {
                DAY_MS
            } else {
                WEEK_MS
            };
            let count = String::from_str(input.substring_char(0, cs.len() - 1));
            assert(count@ =~= input@.drop_last());
            match parse_integer(count.as_str()) {
                Some(n) => {
                    let ni = n as i128;
                    let ui = unit as i128;
                    assert(-9_223_372_036_854_775_808 * 604_800_000 <= ni * ui
                        <= 9_223_372_036_854_775_807 * 604_800_000) by (nonlinear_arith)
                        requires
                            -9_223_372_036_854_775_808 <= ni <= 9_223_372_036_854_775_807,
                            0 < ui <= 604_800_000,
                    ;
                    let t: i128 = clock.now as i128 - ni * ui;
                    if t < i64::MIN as i128 || t > i64::MAX as i128 {
                        return Err(TimeError::OutOfRange(String::from_str(input)));
                    }
                    return Ok(t as i64);
                },
                None => {
                    return Err(TimeError::InvalidTimeFormat(String::from_str(input)));
                },
            }
        }
    }
    Err(TimeError::UnrecognizedTimeExpression(String::from_str(input)))
}

/// A day of the proleptic Gregorian calendar.
#[derive(Debug, Clone, Copy, PartialEq, Eq)]
pub struct CalendarDate {
    pub year: i32,
    /// From 1 to 12.
    pub month: u32,
    /// From 1 to 31.
    pub day: u32,
}

/// Why a calendar day could not be read; holds the input.
#[derive(Debug, Clone, PartialEq, Eq)]
pub enum DateError {
    InvalidDate(String),
}

impl DateError {
    /// A one-line description for the user.
    pub fn message(&self) -> (r: String)
        ensures
            r@ == match *self {
                DateError::InvalidDate(s) => "Invalid date format: "@ + s@ + " (use YYYY-MM-DD)"@,
            },
    {
        match self {
            DateError::InvalidDate(s) => {
                let mut r = String::from_str("Invalid date format: ");
                r.append(s.as_str());
                r.append(" (use YYYY-MM-DD)");
                r
            },
        }
    }
}

/// Year, month and day of the date chrono reads from `s` with the format
/// `%Y-%m-%d`, when it reads one.
pub uninterp spec fn iso_date_of(s: Seq<char>) -> Option<(i32, u32, u32)>;

/// Relies on chrono's `NaiveDate::parse_from_str(s, "%Y-%m-%d")`, and on the
/// `Datelike` accessors of the date it returns: `month` ranges from 1 to 12 and
/// `day` from 1 to 31.
#[verifier::external_body]
fn read_iso_date(s: &str) -> (r: Option<(i32, u32, u32)>)
    ensures
        r == iso_date_of(s@),
        r matches Some((_, m, d)) ==> 1 <= m <= 12 && 1 <= d <= 31,
{
    match chrono::NaiveDate::parse_from_str(s, "%Y-%m-%d") {
        Ok(d) => Some(
            (chrono::Datelike::year(&d), chrono::Datelike::month(&d), chrono::Datelike::day(&d)),
        ),
        Err(_) => None,
    }
}

/// Reads a calendar day written `YYYY-MM-DD`.
pub fn parse_date(s: &str) -> (r: Result<CalendarDate, DateError>)
    ensures
        match iso_date_of(s@) {
            Some((y, m, d)) => r == Ok::<CalendarDate, DateError>(
                CalendarDate { year: y, month: m, day: d },
            ),
            None => r matches Err(DateError::InvalidDate(e)) && e@ == s@,
        },
        r matches Ok(c) ==> 1 <= c.month <= 12 && 1 <= c.day <= 31,
{
    match read_iso_date(s) {
        Some((year, month, day)) => Ok(CalendarDate { year, month, day }),
        None => Err(DateError::InvalidDate(String::from_str(s))),
    }
}

/// How a span of whole seconds reads: the largest unit, and the next one down
/// when it is not zero (`45s`, `5m`, `2h 5m`, `3d`, `1d 4h`).
pub open spec fn duration_text(secs: nat) -> Seq<char> {
    if secs < 60 {
        decimal(secs) + "s"@
    } else if secs < 3600 {
        decimal(secs / 60) + "m"@
    } else if secs < 86400 {
        if (secs % 3600) / 60 > 0 {
            decimal(secs / 3600) + "h "@ + decimal((secs % 3600) / 60) + "m"@
        } else {
            decimal(secs / 3600) + "h"@
        }
    } else {
        if (secs % 86400) / 3600 > 0 {
            decimal(secs / 86400) + "d "@ + decimal((secs % 86400) / 3600) + "h"@
        } else {
            decimal(secs / 86400) + "d"@
        }
    }
}

/// Renders a span given in milliseconds, counting whole seconds.
pub fn format_duration(millis: u64) -> (r: String)
    ensures
        r@ == duration_text((millis / 1000) as nat),
{
    let secs = millis / 1000;
    let mut r = String::new();
    if secs < 60 {
        push_decimal(&mut r, secs);
        r.append("s");
    } else if secs < 3600 {
        push_decimal(&mut r, secs / 60);
        r.append("m");
    } else if secs < 86400 {
        push_decimal(&mut r, secs / 3600);
        let mins = (secs % 3600) / 60;
        if mins > 0 {
            r.append("h ");
            push_decimal(&mut r, mins);
            r.append("m");
        } else {
            r.append("h");
        }
    } else {
        push_decimal(&mut r, secs / 86400);
        let hours = (secs % 86400) / 3600;
        if hours > 0 {
            r.append("d ");
            push_decimal(&mut r, hours);
            r.append("h");
        } else {
            r.append("d");
        }
    }
    assert(r@ =~= duration_text(secs as nat));
    r
}

proof fn lemma_digit_char(d: nat)
    requires
        d < 10,
    ensures
        is_digit(digit_char(d)),
        digit_value(digit_char(d)) == d,
{
    assert('0' as u32 == 48u32);
    assert('1' as u32 == 49u32);
    assert('2' as u32 == 50u32);
    assert('3' as u32 == 51u32);
    assert('4' as u32 == 52u32);
    assert('5' as u32 == 53u32);
    assert('6' as u32 == 54u32);
    assert('7' as u32 == 55u32);
    assert('8' as u32 == 56u32);
    assert('9' as u32 == 57u32);
}

proof fn lemma_decimal_digits(n: nat)
    ensures
        all_digits(decimal(n)),
        digits_value(decimal(n)) == n,
    decreases n,
{
    let d = decimal(n);
    lemma_digit_char(n % 10);
    if n < 10 {
        assert(d.drop_last() =~= Seq::<char>::empty());
        assert(d.last() == digit_char(n));
        assert(digits_value(d.drop_last()) == 0);
        assert(n % 10 == n);
        assert(digits_value(d) == digits_value(d.drop_last()) * 10 + digit_value(d.last()));
    } else {
        lemma_decimal_digits(n / 10);
        assert(d.drop_last() =~= decimal(n / 10));
        assert(d.last() == digit_char(n % 10));
        assert((n / 10) * 10 + n % 10 == n) by (nonlinear_arith);
        assert(digits_value(d) == digits_value(d.drop_last()) * 10 + digit_value(d.last()));
        assert forall|i: int| 0 <= i < d.len() implies is_digit(#[trigger] d[i]) by {
            if i < d.len() - 1 {
                assert(d[i] == decimal(n / 10)[i]);
            }
        }
    }
}

/// A count followed by `m`, `h`, `d` or `w` resolves to that many minutes, hours,
/// days or weeks before now.
pub proof fn lemma_count_back(n: nat, c: char, clock: Clock)
    requires
        is_unit(c),
        n <= i64::MAX,
    ensures
        resolution(decimal(n) + seq![c], clock) == Resolution::At(clock.now - n * unit_ms(c)),
{
    let s = decimal(n) + seq![c];
    lemma_decimal_digits(n);
    assert(s.drop_last() =~= decimal(n));
    assert(is_digit(s[0]));
    reveal_strlit("now");
    reveal_strlit("today");
    reveal_strlit("yesterday");
    reveal_strlit("last-session");
    assert(s != "now"@ && s != "today"@ && s != "yesterday"@ && s != "last-session"@) by {
        assert("now"@[0] == 'n');
        assert("today"@[0] == 't');
        assert("yesterday"@[0] == 'y');
        assert("last-session"@[0] == 'l');
    }
    assert(s.last() == c);
    assert(signed_value(decimal(n)) == Some(n as int));
}

/// A count followed by `m`, `h`, `d` or `w` resolves to exactly that many
/// minutes, hours, days or weeks before now, whenever that instant is
/// representable.
pub proof fn lemma_count_back_resolves(
    n: nat,
    c: char,
    clock: Clock,
    r: Result<Timestamp, TimeError>,
)
    requires
        is_unit(c),
        n <= i64::MAX,
        i64::MIN <= clock.now - n * unit_ms(c),
        resolves_to(decimal(n) + seq![c], clock, r),
    ensures
        r == Ok::<Timestamp, TimeError>((clock.now - n * unit_ms(c)) as i64),
{
    lemma_count_back(n, c, clock);
    assert(n * unit_ms(c) >= 0) by (nonlinear_arith)
        requires
            unit_ms(c) > 0,
    ;
}

} // verus!
