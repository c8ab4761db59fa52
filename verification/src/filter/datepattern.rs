//! Dates in log lines: patterns that find them, and reading them.

use crate::error::{Error, ErrorView};
use crate::filter::pattern;
use crate::filter::pattern::Pattern;
use crate::text;
use crate::text::find;
use crate::text::number;
use crate::text::split;
use crate::text::trim;
use crate::text::Text;
use crate::time::Timestamp;
use vstd::prelude::*;

verus! {

/// How a date that was found is read.
#[derive(Debug, Clone, Copy, PartialEq, Eq, Structural)]
pub enum DateKind {
    /// One of several common formats.
    Strftime,
    /// Seconds since 1970.
    EpochSecs,
    /// Milliseconds since 1970.
    EpochMillis,
    /// Microseconds since 1970.
    EpochMicros,
    /// ISO 8601.
    Iso8601,
    /// `Mon DD HH:MM:SS` of the current year.
    Syslog,
    /// TAI64N labels, which are found but not read.
    Tai64n,
}

/// A pattern that finds dates, and how they are read.
#[derive(Debug)]
pub struct DateMatcher {
    /// The regular expression; its first group is the date.
    pub regex: Pattern,
    /// How the date is read.
    pub kind: DateKind,
}

/// The model of a date pattern: its regular expression and how dates are read.
pub type MatcherView = (Text, DateKind);

impl View for DateMatcher {
    type V = (Text, DateKind);

    open spec fn view(&self) -> (Text, DateKind) {
        (self.regex.source(), self.kind)
    }
}

pub const EPOCH_SECS_REGEX: &'static str = r"(\d{10})";

pub const EPOCH_MILLIS_REGEX: &'static str = r"(\d{13})";

pub const EPOCH_MICROS_REGEX: &'static str = r"(\d{16})";

pub const ISO8601_REGEX: &'static str =
    r"(\d{4}-\d{2}-\d{2}[T ]\d{2}:\d{2}:\d{2}(?:\.\d+)?(?:Z|[+-]\d{2}:?\d{2})?)";

pub const TAI64N_REGEX: &'static str = r"(@40000000[0-9a-f]{8})";

pub const SYSLOG_REGEX: &'static str = r"([A-Z][a-z]{2}\s+\d{1,2}\s+\d{2}:\d{2}:\d{2})";

/// The text without any number of `p` at its start.
pub open spec fn unprefixed(s: Text, p: Text) -> Text
    decreases s.len(),
{
    if p.len() > 0 && find::starts(s, p) {
        unprefixed(s.skip(p.len() as int), p)
    } else {
        s
    }
}

/// Whether a character has a meaning of its own in a regular expression.
pub open spec fn is_meta(c: char) -> bool {
    c == '\\' || c == '.' || c == '+' || c == '*' || c == '?' || c == '(' || c == ')' || c == '|'
        || c == '[' || c == ']' || c == '{' || c == '}' || c == '^' || c == '$'
}

/// Whether a character names a field of a date after `%`.
pub open spec fn is_field(c: char) -> bool {
    c == 'Y' || c == 'm' || c == 'd' || c == 'H' || c == 'M' || c == 'S' || c == 'y' || c == 'j'
        || c == 'b' || c == 'B' || c == 'h' || c == 'a' || c == 'A' || c == 'p' || c == 'z' || c
        == 'Z'
}

/// What a field of a date looks like.
pub open spec fn field_regex(c: char) -> Text {
    if c == 'Y' {
        r"\d{4}"@
    } else if c == 'm' || c == 'd' || c == 'H' || c == 'M' || c == 'S' || c == 'y' {
        r"\d{2}"@
    } else if c == 'j' {
        r"\d{3}"@
    } else if c == 'b' || c == 'B' || c == 'h' || c == 'a' || c == 'A' {
        r"[A-Za-z]{3,9}"@
    } else if c == 'p' {
        r"(?:AM|PM)"@
    } else if c == 'z' {
        r"[+-]\d{4}"@
    } else if c == 'Z' {
        r"[A-Za-z/]+"@
    } else if c == '%' {
        r"%"@
    } else {
        r"\S+"@
    }
}

/// The regular expression of a date format. A percent sign, single or doubled,
/// starts a field; a blank stands for white space; any other character for
/// itself.
pub open spec fn format_regex(s: Text) -> Text
    decreases s.len(),
{
    if s.len() == 0 {
        Seq::empty()
    } else if s[0] == '%' {
        if s.len() == 1 {
            field_regex('%')
        } else if s[1] == '%' && s.len() > 2 && is_field(s[2]) {
            field_regex(s[2]) + format_regex(s.skip(3))
        } else {
            field_regex(s[1]) + format_regex(s.skip(2))
        }
    } else if s[0] == ' ' {
        r"\s+"@ + format_regex(s.skip(1))
    } else if is_meta(s[0]) {
        seq!['\\', s[0]] + format_regex(s.skip(1))
    } else {
        seq![s[0]] + format_regex(s.skip(1))
    }
}

/// The pattern's regular expression where it compiles, and otherwise an error
/// that starts with `prefix`.
pub open spec fn checked(source: Text, kind: DateKind, prefix: Text) -> Result<
    (Text, DateKind),
    ErrorView,
> {
    match pattern::regex_fault(source) {
        None => Ok((source, kind)),
        Some(m) => Err(ErrorView::Regex(prefix + m)),
    }
}

/// The date pattern that a text describes: a name, a format, or else a regular
/// expression with one group.
pub open spec fn matcher_of(s: Text) -> Result<(Text, DateKind), ErrorView> {
    let t = trim::trimmed(unprefixed(unprefixed(s, "{^LN-BEG}"@), "{UNB}"@));
    let name = text::lowered(t);
    let prefix = "compiled datepattern regex: "@;
    if name == "epoch"@ {
        checked(EPOCH_SECS_REGEX@, DateKind::EpochSecs, prefix)
    } else if name == "epochmilli"@ || name == "epoch_milli"@ {
        checked(EPOCH_MILLIS_REGEX@, DateKind::EpochMillis, prefix)
    } else if name == "epochmicro"@ || name == "epoch_micro"@ {
        checked(EPOCH_MICROS_REGEX@, DateKind::EpochMicros, prefix)
    } else if name == "iso8601"@ || name == "rfc3339"@ {
        checked(ISO8601_REGEX@, DateKind::Iso8601, prefix)
    } else if name == "tai64n"@ {
        checked(TAI64N_REGEX@, DateKind::Tai64n, prefix)
    } else if t.contains('%') {
        checked("("@ + format_regex(t) + ")"@, DateKind::Strftime, prefix)
    } else {
        checked(
            t,
            DateKind::Iso8601,
            "invalid datepattern "@ + text::debug_text(t) + ": "@,
        )
    }
}

fn strip_all<'a>(s: &'a str, p: &str) -> (r: &'a str)
    ensures
        r@ == unprefixed(s@, p@),
    decreases s@.len(),
{
    if p.is_empty() {
        return s;
    }
    match find::strip_prefix(s, p) {
        Some(rest) => strip_all(rest, p),
        None => s,
    }
}

/// Whether a character has a meaning of its own in a regular expression.
pub fn is_meta_character(c: char) -> (r: bool)
    ensures
        r == is_meta(c),
{
    c == '\\' || c == '.' || c == '+' || c == '*' || c == '?' || c == '(' || c == ')' || c == '|'
        || c == '[' || c == ']' || c == '{' || c == '}' || c == '^' || c == '$'
}

fn names_field(c: char) -> (r: bool)
    ensures
        r == is_field(c),
{
    c == 'Y' || c == 'm' || c == 'd' || c == 'H' || c == 'M' || c == 'S' || c == 'y' || c == 'j'
        || c == 'b' || c == 'B' || c == 'h' || c == 'a' || c == 'A' || c == 'p' || c == 'z' || c
        == 'Z'
}

fn strftime_token(c: char) -> (r: &'static str)
    ensures
        r@ == field_regex(c),
{
    if c == 'Y' {
        r"\d{4}"
    } else if c == 'm' || c == 'd' || c == 'H' || c == 'M' || c == 'S' || c == 'y' {
        r"\d{2}"
    } else if c == 'j' {
        r"\d{3}"
    } else if c == 'b' || c == 'B' || c == 'h' || c == 'a' || c == 'A' {
        r"[A-Za-z]{3,9}"
    } else if c == 'p' {
        r"(?:AM|PM)"
    } else if c == 'z' {
        r"[+-]\d{4}"
    } else if c == 'Z' {
        r"[A-Za-z/]+"
    } else if c == '%' {
        r"%"
    } else {
        r"\S+"
    }
}

fn strftime_regex(fmt: &str) -> (r: String)
    ensures
        r@ == format_regex(fmt@),
{
    let v = text::chars_of(fmt);
    let mut out = String::new();
    let mut i: usize = 0;
    proof {
        assert(v@.skip(0) =~= v@);
        assert(out@ + format_regex(fmt@) =~= format_regex(fmt@));
    }
    while i < v.len()
        invariant
            i <= v.len(),
            v@ == fmt@,
            format_regex(fmt@) == out@ + format_regex(v@.skip(i as int)),
        decreases v.len() - i,
    {
        let ghost s = v@.skip(i as int);
        let ghost front = out@;
        let c = v[i];
        assert(s[0] == c);
        if c == '%' {
            if i + 1 == v.len() {
                out.append(strftime_token('%'));
                i += 1;
                proof {
                    assert(v@.skip(i as int) =~= Seq::<char>::empty());
                    assert(front + format_regex(s) =~= out@ + format_regex(v@.skip(i as int)));
                }
                continue;
            }
            assert(s[1] == v@[i + 1]);
            if v[i + 1] == '%' && i + 2 < v.len() && names_field(v[i + 2]) {
                assert(s[2] == v@[i + 2]);
                out.append(strftime_token(v[i + 2]));
                i += 3;
                assert(s.skip(3) =~= v@.skip(i as int));
            } else {
                if i + 2 < v.len() {
                    assert(s[2] == v@[i + 2]);
                }
                out.append(strftime_token(v[i + 1]));
                i += 2;
                assert(s.skip(2) =~= v@.skip(i as int));
            }
        } else if c == ' ' {
            out.append(r"\s+");
            i += 1;
            assert(s.skip(1) =~= v@.skip(i as int));
        } else if is_meta_character(c) {
            out.push('\\');
            out.push(c);
            i += 1;
            proof {
                assert(s.skip(1) =~= v@.skip(i as int));
                assert(out@ =~= front + seq!['\\', c]);
            }
        } else {
            out.push(c);
            i += 1;
            proof {
                assert(s.skip(1) =~= v@.skip(i as int));
                assert(out@ =~= front + seq![c]);
            }
        }
        assert(front + format_regex(s) =~= out@ + format_regex(v@.skip(i as int)));
    }
    proof {
        assert(v@.skip(i as int) =~= Seq::<char>::empty());
        assert(out@ + Seq::<char>::empty() =~= out@);
    }
    out
}

fn matcher(source: &str, kind: DateKind, prefix: &str) -> (r: Result<DateMatcher, Error>)
    ensures
        crate::error::outcome(r) == checked(source@, kind, prefix@),
{
    match Pattern::compile(source) {
        Ok(regex) => Ok(DateMatcher { regex, kind }),
        Err(m) => Err(Error::Regex(text::cat2(prefix, m.as_str()))),
    }
}

/// Compiles a date pattern.
pub fn compile(pattern: &str) -> (r: Result<DateMatcher, Error>)
    ensures
        crate::error::outcome(r) == matcher_of(pattern@),
{
    let t = trim::trim(strip_all(strip_all(pattern, "{^LN-BEG}"), "{UNB}"));
    let lower = text::to_lower(t);
    let name = lower.as_str();
    let prefix = "compiled datepattern regex: ";
    if text::same(name, "epoch") {
        matcher(EPOCH_SECS_REGEX, DateKind::EpochSecs, prefix)
    } else if text::same(name, "epochmilli") || text::same(name, "epoch_milli") {
        matcher(EPOCH_MILLIS_REGEX, DateKind::EpochMillis, prefix)
    } else if text::same(name, "epochmicro") || text::same(name, "epoch_micro") {
        matcher(EPOCH_MICROS_REGEX, DateKind::EpochMicros, prefix)
    } else if text::same(name, "iso8601") || text::same(name, "rfc3339") {
        matcher(ISO8601_REGEX, DateKind::Iso8601, prefix)
    } else if text::same(name, "tai64n") {
        matcher(TAI64N_REGEX, DateKind::Tai64n, prefix)
    } else if find::has(t, '%') {
        let body = strftime_regex(t);
        let source = text::cat3("(", body.as_str(), ")");
        matcher(source.as_str(), DateKind::Strftime, prefix)
    } else {
        let q = text::quoted(t);
        let p = text::cat3("invalid datepattern ", q.as_str(), ": ");
        matcher(t, DateKind::Iso8601, p.as_str())
    }
}

/// The moment that `chrono` reads from a date and time of RFC 3339.
pub uninterp spec fn rfc3339(s: Text) -> Option<(i64, u32)>;

/// The moment that `chrono` reads from a date and time without a time zone in
/// a format, taken as UTC.
pub uninterp spec fn naive_date(s: Text, fmt: Text) -> Option<(i64, u32)>;

/// The moment that `chrono` reads from a date and time with a time zone in a
/// format.
pub uninterp spec fn zoned_date(s: Text, fmt: Text) -> Option<(i64, u32)>;

/// The time of day that `chrono` reads in a format: seconds since midnight and
/// nanoseconds.
pub uninterp spec fn time_of_day(s: Text, fmt: Text) -> Option<(u32, u32)>;

/// The moment, in seconds, at which a day starts in UTC according to `chrono`;
/// `None` where there is no such day.
pub uninterp spec fn day_start(year: i32, month: u32, day: u32) -> Option<i64>;

/// Whether `chrono` can represent a number of seconds and nanoseconds: the day
/// is one of the years -262143 to 262142, and the nanoseconds are fewer than a
/// second has, or than two seconds have where it is the last second of a
/// minute, which can be a leap second.
pub open spec fn representable(secs: i64, nanos: u32) -> bool {
    -8334601228800 <= secs <= 8210266876799 && (nanos < 1000000000 || (nanos < 2000000000 && secs
        as int % 60 == 59))
}

/// `chrono::DateTime::parse_from_rfc3339`, as seconds and nanoseconds since
/// 1970 in UTC; the result is named `rfc3339`.
#[verifier::external_body]
fn read_rfc3339(s: &str) -> (r: Option<(i64, u32)>)
    ensures
        r == rfc3339(s@),
{
    chrono::DateTime::parse_from_rfc3339(s).ok().map(
        |d| (d.timestamp(), d.timestamp_subsec_nanos()),
    )
}

/// `chrono::NaiveDateTime::parse_from_str`, as seconds and nanoseconds since
/// 1970; the result is named `naive_date`.
#[verifier::external_body]
fn read_naive(s: &str, fmt: &str) -> (r: Option<(i64, u32)>)
    ensures
        r == naive_date(s@, fmt@),
{
    chrono::NaiveDateTime::parse_from_str(s, fmt).ok().map(
        |d| (d.and_utc().timestamp(), d.and_utc().timestamp_subsec_nanos()),
    )
}

/// `chrono::DateTime::parse_from_str`, as seconds and nanoseconds since 1970
/// in UTC; the result is named `zoned_date`.
#[verifier::external_body]
fn read_zoned(s: &str, fmt: &str) -> (r: Option<(i64, u32)>)
    ensures
        r == zoned_date(s@, fmt@),
{
    chrono::DateTime::parse_from_str(s, fmt).ok().map(
        |d| (d.timestamp(), d.timestamp_subsec_nanos()),
    )
}

/// `chrono::NaiveTime::parse_from_str`, as seconds since midnight and
/// nanoseconds; the result is named `time_of_day`. The seconds are those of
/// one day.
#[verifier::external_body]
fn read_time(s: &str, fmt: &str) -> (r: Option<(u32, u32)>)
    ensures
        r == time_of_day(s@, fmt@),
        r matches Some(t) ==> t.0 < 86400,
{
    chrono::NaiveTime::parse_from_str(s, fmt).ok().map(
        |t| (
            chrono::Timelike::num_seconds_from_midnight(&t),
            chrono::Timelike::nanosecond(&t),
        ),
    )
}

/// `chrono::NaiveDate::from_ymd_opt`, as the seconds since 1970 at the start
/// of the day; the result is named `day_start`. The years that `chrono` knows,
/// fewer than 263000 on either side of 1970, bound it.
#[verifier::external_body]
fn start_of_day(year: i32, month: u32, day: u32) -> (r: Option<i64>)
    ensures
        r == day_start(year, month, day),
        r matches Some(s) ==> -9000000000000 <= s <= 9000000000000,
{
    chrono::NaiveDate::from_ymd_opt(year, month, day).map(
        |d| d.and_time(chrono::NaiveTime::MIN).and_utc().timestamp(),
    )
}

/// `chrono::DateTime::from_timestamp`: the moment at a number of seconds and
/// nanoseconds, where `chrono` can represent it.
#[verifier::external_body]
pub(crate) fn from_timestamp(secs: i64, nanos: u32) -> (r: Option<(i64, u32)>)
    ensures
        r == (if representable(secs, nanos) {
            Some((secs, nanos))
        } else {
            None
        }),
{
    chrono::DateTime::from_timestamp(secs, nanos).map(
        |d| (d.timestamp(), d.timestamp_subsec_nanos()),
    )
}

/// A moment from seconds and nanoseconds.
pub open spec fn moment(p: Option<(i64, u32)>) -> Option<Timestamp> {
    match p {
        Some(t) => Some(Timestamp { secs: t.0, nanos: t.1 }),
        None => None,
    }
}

/// The first of two that is there.
pub open spec fn first_moment(a: Option<Timestamp>, b: Option<Timestamp>) -> Option<Timestamp> {
    match a {
        Some(t) => Some(t),
        None => b,
    }
}

/// The moment at a number of seconds and nanoseconds.
pub open spec fn moment_at(secs: i64, nanos: u32) -> Option<Timestamp> {
    if representable(secs, nanos) {
        Some(Timestamp { secs, nanos })
    } else {
        None
    }
}

/// A date in a format, without or with a time zone.
pub open spec fn in_format(s: Text, fmt: Text) -> Option<Timestamp> {
    first_moment(moment(naive_date(s, fmt)), moment(zoned_date(s, fmt)))
}

/// The text with blanks turned into `T`.
pub open spec fn with_t(s: Text) -> Text {
    s.map_values(
        |c: char|
            if c == ' ' {
                'T'
            } else {
                c
            },
    )
}

/// The number of a month's English abbreviation.
pub open spec fn month_number(s: Text) -> Option<u32> {
    if s == "Jan"@ {
        Some(1)
    } else if s == "Feb"@ {
        Some(2)
    } else if s == "Mar"@ {
        Some(3)
    } else if s == "Apr"@ {
        Some(4)
    } else if s == "May"@ {
        Some(5)
    } else if s == "Jun"@ {
        Some(6)
    } else if s == "Jul"@ {
        Some(7)
    } else if s == "Aug"@ {
        Some(8)
    } else if s == "Sep"@ {
        Some(9)
    } else if s == "Oct"@ {
        Some(10)
    } else if s == "Nov"@ {
        Some(11)
    } else if s == "Dec"@ {
        Some(12)
    } else {
        None
    }
}

/// A date `Mon DD HH:MM:SS` of the year, as UTC.
pub open spec fn syslog_date(s: Text, year: i32) -> Option<Timestamp> {
    let w = split::items(s, false);
    if w.len() < 3 {
        None
    } else {
        match (month_number(w[0]), number::unsigned_of(w[1], u32::MAX as nat)) {
            (Some(month), Ok(day)) => match (
                day_start(year, month, day as u32),
                time_of_day(w[2], "%H:%M:%S"@),
            ) {
                (Some(start), Some(t)) => Some(
                    Timestamp { secs: (start + t.0) as i64, nanos: t.1 },
                ),
                _ => None,
            },
            _ => None,
        }
    }
}

/// Microseconds since 1970 as a moment. Dividing cuts off towards zero, and a
/// remainder below zero is no number of nanoseconds.
pub open spec fn micros_date(us: int) -> Option<Timestamp> {
    if us >= 0 {
        moment_at((us / 1000000) as i64, (us % 1000000 * 1000) as u32)
    } else if us % 1000000 == 0 {
        moment_at((us / 1000000) as i64, 0)
    } else {
        None
    }
}

/// The moment that a date stands for; `year` is the current year, for dates
/// that hold none.
pub open spec fn date_of(s: Text, kind: DateKind, year: i32) -> Option<Timestamp> {
    match kind {
        DateKind::Iso8601 => first_moment(
            moment(rfc3339(s)),
            first_moment(
                moment(rfc3339(with_t(s))),
                first_moment(
                    moment(naive_date(s, "%Y-%m-%d %H:%M:%S"@)),
                    moment(naive_date(s, "%Y-%m-%dT%H:%M:%S"@)),
                ),
            ),
        ),
        DateKind::EpochSecs => match number::signed_of(s) {
            Ok(n) => moment_at(n as i64, 0),
            Err(_) => None,
        },
        DateKind::EpochMillis => match number::signed_of(s) {
            Ok(n) => moment_at((n / 1000) as i64, (n % 1000 * 1000000) as u32),
            Err(_) => None,
        },
        DateKind::EpochMicros => match number::signed_of(s) {
            Ok(n) => micros_date(n),
            Err(_) => None,
        },
        DateKind::Strftime => first_moment(
            in_format(s, "%Y-%m-%d %H:%M:%S"@),
            first_moment(
                in_format(s, "%Y-%m-%dT%H:%M:%S"@),
                first_moment(
                    in_format(s, "%Y/%m/%d %H:%M:%S"@),
                    first_moment(
                        in_format(s, "%d/%b/%Y:%H:%M:%S %z"@),
                        first_moment(
                            in_format(s, "%d/%b/%Y:%H:%M:%S"@),
                            first_moment(
                                in_format(s, "%b %d %H:%M:%S"@),
                                in_format(s, "%b  %d %H:%M:%S"@),
                            ),
                        ),
                    ),
                ),
            ),
        ),
        DateKind::Syslog => syslog_date(s, year),
        DateKind::Tai64n => None,
    }
}

fn to_moment(p: Option<(i64, u32)>) -> (r: Option<Timestamp>)
    ensures
        r == moment(p),
{
    match p {
        Some((secs, nanos)) => Some(Timestamp { secs, nanos }),
        None => None,
    }
}

fn parse_format(s: &str, fmt: &str) -> (r: Option<Timestamp>)
    ensures
        r == in_format(s@, fmt@),
{
    match read_naive(s, fmt) {
        Some((secs, nanos)) => Some(Timestamp { secs, nanos }),
        None => to_moment(read_zoned(s, fmt)),
    }
}

fn blanks_to_t(s: &str) -> (r: String)
    ensures
        r@ == with_t(s@),
{
    let mut r = String::new();
    for c in it: s.chars()
        invariant
            r@ == with_t(it.seq().take(it.index() as int)),
            it.seq() == s@,
    {
        let ghost i = it.index() as int;
        if c == ' ' {
            r.push('T');
        } else {
            r.push(c);
        }
        assert(r@ =~= with_t(it.seq().take(i + 1)));
    }
    assert(s@.take(s@.len() as int) =~= s@);
    r
}

fn parse_iso8601(s: &str) -> (r: Option<Timestamp>)
    ensures
        r == date_of(s@, DateKind::Iso8601, 0),
{
    if let Some((secs, nanos)) = read_rfc3339(s) {
        return Some(Timestamp { secs, nanos });
    }
    let t = blanks_to_t(s);
    if let Some((secs, nanos)) = read_rfc3339(t.as_str()) {
        return Some(Timestamp { secs, nanos });
    }
    if let Some((secs, nanos)) = read_naive(s, "%Y-%m-%d %H:%M:%S") {
        return Some(Timestamp { secs, nanos });
    }
    to_moment(read_naive(s, "%Y-%m-%dT%H:%M:%S"))
}

fn parse_strftime_fallback(s: &str) -> (r: Option<Timestamp>)
    ensures
        r == date_of(s@, DateKind::Strftime, 0),
{
    if let Some(t) = parse_format(s, "%Y-%m-%d %H:%M:%S") {
        return Some(t);
    }
    if let Some(t) = parse_format(s, "%Y-%m-%dT%H:%M:%S") {
        return Some(t);
    }
    if let Some(t) = parse_format(s, "%Y/%m/%d %H:%M:%S") {
        return Some(t);
    }
    if let Some(t) = parse_format(s, "%d/%b/%Y:%H:%M:%S %z") {
        return Some(t);
    }
    if let Some(t) = parse_format(s, "%d/%b/%Y:%H:%M:%S") {
        return Some(t);
    }
    if let Some(t) = parse_format(s, "%b %d %H:%M:%S") {
        return Some(t);
    }
    parse_format(s, "%b  %d %H:%M:%S")
}

fn month_of(s: &str) -> (r: Option<u32>)
    ensures
        r == month_number(s@),
{
    if text::same(s, "Jan") {
        Some(1)
    } else if text::same(s, "Feb") {
        Some(2)
    } else if text::same(s, "Mar") {
        Some(3)
    } else if text::same(s, "Apr") {
        Some(4)
    } else if text::same(s, "May") {
        Some(5)
    } else if text::same(s, "Jun") {
        Some(6)
    } else if text::same(s, "Jul") {
        Some(7)
    } else if text::same(s, "Aug") {
        Some(8)
    } else if text::same(s, "Sep") {
        Some(9)
    } else if text::same(s, "Oct") {
        Some(10)
    } else if text::same(s, "Nov") {
        Some(11)
    } else if text::same(s, "Dec") {
        Some(12)
    } else {
        None
    }
}

fn parse_syslog(s: &str, year: i32) -> (r: Option<Timestamp>)
    ensures
        r == syslog_date(s@, year),
{
    let w = split::split_items(s, false);
    let ghost all = split::items(s@, false);
    assert(all.len() == w@.len());
    if w.len() < 3 {
        return None;
    }
    proof {
        assert(all[0] == w@[0]@);
        assert(all[1] == w@[1]@);
        assert(all[2] == w@[2]@);
    }
    let month: u32 = match month_of(w[0].as_str()) {
        Some(m) => m,
        None => {
            return None;
        },
    };
    let day: u32 = match number::parse_unsigned(w[1].as_str(), u32::MAX as u64) {
        Ok(d) => d as u32,
        Err(_) => {
            return None;
        },
    };
    match (start_of_day(year, month, day), read_time(w[2].as_str(), "%H:%M:%S")) {
        (Some(start), Some((secs, nanos))) => Some(
            Timestamp { secs: start + secs as i64, nanos },
        ),
        _ => None,
    }
}

fn parse_micros(us: i64) -> (r: Option<Timestamp>)
    ensures
        r == micros_date(us as int),
{
    if us >= 0 {
        to_moment(from_timestamp(us / 1000000, (us % 1000000 * 1000) as u32))
    } else {
        let up: i128 = -(us as i128);
        if up % 1000000 == 0 {
            let secs: i64 = (-(up / 1000000)) as i64;
            proof {
                assert(us as int / 1000000 == secs && us as int % 1000000 == 0) by (
                nonlinear_arith)
                    requires
                        up == -(us as int),
                        up % 1000000 == 0,
                        secs == -(up / 1000000),
                ;
            }
            to_moment(from_timestamp(secs, 0))
        } else {
            proof {
                assert(us as int % 1000000 != 0) by (nonlinear_arith)
                    requires
                        up == -(us as int),
                        up % 1000000 != 0,
                ;
            }
            None
        }
    }
}

fn parse_millis(ms: i64) -> (r: Option<Timestamp>)
    ensures
        r == moment_at((ms as int / 1000) as i64, (ms as int % 1000 * 1000000) as u32),
{
    let up: i128 = ms as i128 + 9223372036854776000;
    let q: i128 = up / 1000;
    let rest: i128 = up % 1000;
    let secs: i64 = (q - 9223372036854776) as i64;
    assert(ms as int / 1000 == secs && ms as int % 1000 == rest) by (nonlinear_arith)
        requires
            up == ms as int + 9223372036854776000,
            q == up / 1000,
            rest == up % 1000,
            secs == q - 9223372036854776,
    ;
    to_moment(from_timestamp(secs, rest as u32 * 1000000))
}

/// Reads a date; `year` is the current year, for dates that hold none.
pub fn convert(raw: &str, kind: DateKind, year: i32) -> (r: Option<Timestamp>)
    ensures
        r == date_of(raw@, kind, year),
{
    match kind {
        DateKind::Iso8601 => parse_iso8601(raw),
        DateKind::EpochSecs => match number::parse_signed(raw) {
            Ok(n) => to_moment(from_timestamp(n, 0)),
            Err(_) => None,
        },
        DateKind::EpochMillis => match number::parse_signed(raw) {
            Ok(n) => parse_millis(n),
            Err(_) => None,
        },
        DateKind::EpochMicros => match number::parse_signed(raw) {
            Ok(n) => parse_micros(n),
            Err(_) => None,
        },
        DateKind::Strftime => parse_strftime_fallback(raw),
        DateKind::Syslog => parse_syslog(raw, year),
        DateKind::Tai64n => None,
    }
}

/// The date that a pattern finds in a line: what is written, and the moment.
pub open spec fn found_date(m: (Text, DateKind), line: Text, year: i32) -> Option<
    (Text, Timestamp),
> {
    match pattern::regex_groups(m.0, line) {
        None => None,
        Some(g) => date_in(g, m.1, year),
    }
}

/// The date in the groups of a match: the first group, where it can be read.
pub open spec fn date_in(g: Seq<(Option<Text>, Option<Text>)>, kind: DateKind, year: i32) -> Option<
    (Text, Timestamp),
> {
    match pattern::numbered(g, 1) {
        None => None,
        Some(raw) => match date_of(raw, kind, year) {
            Some(ts) => Some((raw, ts)),
            None => None,
        },
    }
}

/// The patterns by which dates are detected, in the order in which they are
/// tried.
pub open spec fn known_patterns() -> Seq<(Text, DateKind)> {
    seq![
        (ISO8601_REGEX@, DateKind::Iso8601),
        (EPOCH_SECS_REGEX@, DateKind::EpochSecs),
        (EPOCH_MILLIS_REGEX@, DateKind::EpochMillis),
        (SYSLOG_REGEX@, DateKind::Syslog),
    ]
}

/// The first date that one of the patterns from position `i` on finds, and how
/// it was read.
pub open spec fn detected(
    patterns: Seq<(Text, DateKind)>,
    i: int,
    line: Text,
    year: i32,
) -> Option<(Text, Timestamp, DateKind)>
    decreases patterns.len() - i,
{
    if i >= patterns.len() {
        None
    } else {
        match found_date(patterns[i], line, year) {
            Some(d) => Some((d.0, d.1, patterns[i].1)),
            None => detected(patterns, i + 1, line, year),
        }
    }
}

/// What is wrong with the first of the patterns from position `i` on that does
/// not compile.
pub open spec fn first_fault(patterns: Seq<(Text, DateKind)>, i: int) -> Option<Text>
    decreases patterns.len() - i,
{
    if i >= patterns.len() {
        None
    } else {
        match pattern::regex_fault(patterns[i].0) {
            Some(m) => Some(m),
            None => first_fault(patterns, i + 1),
        }
    }
}

/// The compiled patterns by which dates are detected.
#[derive(Debug)]
pub struct DateDetector {
    matchers: Vec<DateMatcher>,
}

impl DateDetector {
    /// Whether the detector holds the known patterns.
    pub closed spec fn wf(&self) -> bool {
        self.matchers@.map_values(|m: DateMatcher| m@) == known_patterns()
    }

    /// Compiles the patterns.
    pub fn new() -> (r: Result<DateDetector, Error>)
        ensures
            match r {
                Ok(d) => d.wf() && first_fault(known_patterns(), 0) is None,
                Err(e) => first_fault(known_patterns(), 0) matches Some(m) && e@
                    == ErrorView::Regex("compiled datepattern regex: "@ + m),
            },
    {
        proof {
            reveal_with_fuel(first_fault, 5);
        }
        let prefix = "compiled datepattern regex: ";
        let a = match matcher(ISO8601_REGEX, DateKind::Iso8601, prefix) {
            Ok(m) => m,
            Err(e) => {
                return Err(e);
            },
        };
        let b = match matcher(EPOCH_SECS_REGEX, DateKind::EpochSecs, prefix) {
            Ok(m) => m,
            Err(e) => {
                return Err(e);
            },
        };
        let c = match matcher(EPOCH_MILLIS_REGEX, DateKind::EpochMillis, prefix) {
            Ok(m) => m,
            Err(e) => {
                return Err(e);
            },
        };
        let d = match matcher(SYSLOG_REGEX, DateKind::Syslog, prefix) {
            Ok(m) => m,
            Err(e) => {
                return Err(e);
            },
        };
        let mut matchers: Vec<DateMatcher> = Vec::new();
        matchers.push(a);
        matchers.push(b);
        matchers.push(c);
        matchers.push(d);
        assert(matchers@.map_values(|m: DateMatcher| m@) =~= known_patterns());
        Ok(DateDetector { matchers })
    }
}

impl DateMatcher {
    /// The date that the pattern finds in a line.
    pub fn find(&self, line: &str, year: i32) -> (r: Option<(String, Timestamp)>)
        ensures
            match r {
                Some(d) => found_date(self@, line@, year) == Some((d.0@, d.1)),
                None => found_date(self@, line@, year) is None,
            },
    {
        match self.regex.find_groups(line) {
            Some(g) => read_date(&g, self.kind, year),
            None => None,
        }
    }
}

/// Reads the date in the groups of a match.
pub fn read_date(g: &Vec<(Option<String>, Option<String>)>, kind: DateKind, year: i32) -> (r: Option<
    (String, Timestamp),
>)
    ensures
        match r {
            Some(d) => date_in(pattern::groups_view(g@), kind, year) == Some((d.0@, d.1)),
            None => date_in(pattern::groups_view(g@), kind, year) is None,
        },
{
    match pattern::group_at(g, 1) {
        None => None,
        Some(raw) => match convert(raw, kind, year) {
            Some(ts) => Some((raw.to_owned(), ts)),
            None => None,
        },
    }
}

/// Detects a date in a line.
pub fn auto_detect(line: &str, detector: &DateDetector, year: i32) -> (r: Option<
    (String, Timestamp, DateKind),
>)
    requires
        detector.wf(),
    ensures
        match r {
            Some(d) => detected(known_patterns(), 0, line@, year) == Some((d.0@, d.1, d.2)),
            None => detected(known_patterns(), 0, line@, year) is None,
        },
{
    let ghost all = known_patterns();
    let mut i: usize = 0;
    while i < detector.matchers.len()
        invariant
            i <= detector.matchers.len(),
            all == known_patterns(),
            all == detector.matchers@.map_values(|m: DateMatcher| m@),
            detected(all, 0, line@, year) == detected(all, i as int, line@, year),
        decreases detector.matchers.len() - i,
    {
        let m = &detector.matchers[i];
        assert(all[i as int] == m@);
        if let Some((raw, ts)) = m.find(line, year) {
            return Some((raw, ts, m.kind));
        }
        i += 1;
    }
    None
}

/// The English abbreviations of the months, in the order of the calendar.
pub open spec fn month_names() -> Seq<Text> {
    seq![
        "Jan"@, "Feb"@, "Mar"@, "Apr"@, "May"@, "Jun"@, "Jul"@, "Aug"@, "Sep"@, "Oct"@, "Nov"@,
        "Dec"@,
    ]
}

/// The abbreviations of the months stand for 1 to 12 in the order of the
/// calendar, and no other text stands for a month.
pub proof fn law_months_in_order(i: int, s: Text)
    ensures
        month_names().len() == 12,
        0 <= i < 12 ==> month_number(month_names()[i]) == Some((i + 1) as u32),
        month_number(s) matches Some(n) ==> 1 <= n <= 12 && month_names()[n - 1] == s,
{
    reveal_strlit("Jan");
    reveal_strlit("Feb");
    reveal_strlit("Mar");
    reveal_strlit("Apr");
    reveal_strlit("May");
    reveal_strlit("Jun");
    reveal_strlit("Jul");
    reveal_strlit("Aug");
    reveal_strlit("Sep");
    reveal_strlit("Oct");
    reveal_strlit("Nov");
    reveal_strlit("Dec");
    assert("Jan"@[0] == 'J' && "Jan"@[1] == 'a' && "Jan"@[2] == 'n');
    assert("Feb"@[0] == 'F' && "Feb"@[1] == 'e' && "Feb"@[2] == 'b');
    assert("Mar"@[0] == 'M' && "Mar"@[1] == 'a' && "Mar"@[2] == 'r');
    assert("Apr"@[0] == 'A' && "Apr"@[1] == 'p' && "Apr"@[2] == 'r');
    assert("May"@[0] == 'M' && "May"@[1] == 'a' && "May"@[2] == 'y');
    assert("Jun"@[0] == 'J' && "Jun"@[1] == 'u' && "Jun"@[2] == 'n');
    assert("Jul"@[0] == 'J' && "Jul"@[1] == 'u' && "Jul"@[2] == 'l');
    assert("Aug"@[0] == 'A' && "Aug"@[1] == 'u' && "Aug"@[2] == 'g');
    assert("Sep"@[0] == 'S' && "Sep"@[1] == 'e' && "Sep"@[2] == 'p');
    assert("Oct"@[0] == 'O' && "Oct"@[1] == 'c' && "Oct"@[2] == 't');
    assert("Nov"@[0] == 'N' && "Nov"@[1] == 'o' && "Nov"@[2] == 'v');
    assert("Dec"@[0] == 'D' && "Dec"@[1] == 'e' && "Dec"@[2] == 'c');
}

/// A date `Mon DD HH:MM:SS` is that day of the current year, and that time of
/// the day after its start.
pub proof fn law_syslog_date_is_read(i: int, day: u32, clock: Text, year: i32)
    requires
        0 <= i < 12,
        split::is_item(clock, false),
    ensures
        ({
            let s = month_names()[i] + " "@ + number::decimal(day as nat) + " "@ + clock;
            let start = day_start(year, (i + 1) as u32, day);
            let t = time_of_day(clock, "%H:%M:%S"@);
            let r = date_of(s, DateKind::Syslog, year);
            &&& r is Some <==> start is Some && t is Some
            &&& start is Some && t is Some && i64::MIN <= start->0 + (t->0).0 <= i64::MAX ==> r->0.secs
                == start->0 + (t->0).0 && r->0.nanos == (t->0).1
        }),
{
    law_months_in_order(i, Seq::empty());
    let month = month_names()[i];
    let d = number::decimal(day as nat);
    reveal_strlit(" ");
    reveal_strlit("Jan");
    reveal_strlit("Feb");
    reveal_strlit("Mar");
    reveal_strlit("Apr");
    reveal_strlit("May");
    reveal_strlit("Jun");
    reveal_strlit("Jul");
    reveal_strlit("Aug");
    reveal_strlit("Sep");
    reveal_strlit("Oct");
    reveal_strlit("Nov");
    reveal_strlit("Dec");
    assert(split::is_item(month, false));
    number::lemma_decimal_digits(day as nat);
    number::lemma_decimal_read(day as nat, u32::MAX as nat);
    assert(split::is_item(d, false));
    let one = seq![' '];
    assert(" "@ =~= one);
    let c = one + clock;
    let b = one + (d + c);
    let s = month + " "@ + d + " "@ + clock;
    assert(s =~= month + b);
    split::law_item_comes_first(month, b, false);
    split::law_break_makes_no_item(' ', d + c, false);
    split::law_item_comes_first(d, c, false);
    split::law_break_makes_no_item(' ', clock, false);
    assert(clock + Seq::<char>::empty() =~= clock);
    split::law_item_comes_first(clock, Seq::empty(), false);
    let w = split::items(s, false);
    assert(w =~= seq![month, d, clock]);
}

/// Seconds, milliseconds and microseconds since 1970 are the moments that far
/// from it.
pub proof fn law_epochs_are_read(n: i64, year: i32)
    requires
        -1000000000000 <= n <= 1000000000000,
    ensures
        date_of(number::decimal_int(n as int), DateKind::EpochSecs, year) == Some(
            Timestamp { secs: n, nanos: 0 },
        ),
        ({
            let t = date_of(number::decimal_int(n as int), DateKind::EpochMillis, year);
            t is Some && t->0.secs * 1000000000 + t->0.nanos == n * 1000000 && t->0.nanos < 1000000000
        }),
        n >= 0 ==> ({
            let t = date_of(number::decimal_int(n as int), DateKind::EpochMicros, year);
            t is Some && t->0.secs * 1000000000 + t->0.nanos == n * 1000 && t->0.nanos < 1000000000
        }),
{
    number::lemma_decimal_int_read(n);
}

/// The formats in which a date with fields is read, in the order in which they
/// are tried.
pub open spec fn date_formats() -> Seq<Text> {
    seq![
        "%Y-%m-%d %H:%M:%S"@,
        "%Y-%m-%dT%H:%M:%S"@,
        "%Y/%m/%d %H:%M:%S"@,
        "%d/%b/%Y:%H:%M:%S %z"@,
        "%d/%b/%Y:%H:%M:%S"@,
        "%b %d %H:%M:%S"@,
        "%b  %d %H:%M:%S"@,
    ]
}

/// A date with fields is what the first of the formats that can read it reads,
/// without a time zone or else with one. It is none where no format can.
pub proof fn law_first_format_counts(s: Text, i: int, year: i32)
    requires
        0 <= i <= 7,
        forall|k: int|
            0 <= k < i ==> naive_date(s, #[trigger] date_formats()[k]) is None && zoned_date(
                s,
                date_formats()[k],
            ) is None,
    ensures
        i == 7 ==> date_of(s, DateKind::Strftime, year) is None,
        i < 7 ==> (naive_date(s, date_formats()[i]) matches Some(t) ==> date_of(
            s,
            DateKind::Strftime,
            year,
        ) == Some(Timestamp { secs: t.0, nanos: t.1 })),
        i < 7 ==> (naive_date(s, date_formats()[i]) is None ==> (zoned_date(s, date_formats()[i])
            matches Some(t) ==> date_of(s, DateKind::Strftime, year) == Some(
            Timestamp { secs: t.0, nanos: t.1 },
        ))),
{
    let f = date_formats();
    assert(i > 0 ==> naive_date(s, f[0]) is None);
    assert(i > 1 ==> naive_date(s, f[1]) is None);
    assert(i > 2 ==> naive_date(s, f[2]) is None);
    assert(i > 3 ==> naive_date(s, f[3]) is None);
    assert(i > 4 ==> naive_date(s, f[4]) is None);
    assert(i > 5 ==> naive_date(s, f[5]) is None);
    assert(i > 6 ==> naive_date(s, f[6]) is None);
}

/// A date of ISO 8601 is the moment that RFC 3339 gives it, with a blank for
/// the `T` too; one without a time zone is taken as UTC.
pub proof fn law_iso_date_is_read(s: Text, t: (i64, u32), year: i32)
    ensures
        ({
            let blank = s.map_values(
                |c: char|
                    if c == ' ' {
                        'T'
                    } else {
                        c
                    },
            );
            let r = date_of(s, DateKind::Iso8601, year);
            let m = Some(Timestamp { secs: t.0, nanos: t.1 });
            &&& rfc3339(s) == Some(t) ==> r == m
            &&& rfc3339(s) is None && rfc3339(blank) == Some(t) ==> r == m
            &&& rfc3339(s) is None && rfc3339(blank) is None && naive_date(
                s,
                "%Y-%m-%d %H:%M:%S"@,
            ) == Some(t) ==> r == m
            &&& rfc3339(s) is None && rfc3339(blank) is None && naive_date(
                s,
                "%Y-%m-%d %H:%M:%S"@,
            ) is None ==> match naive_date(s, "%Y-%m-%dT%H:%M:%S"@) {
                Some(p) => r == Some(Timestamp { secs: p.0, nanos: p.1 }),
                None => r is None,
            }
        }),
{
    assert(with_t(s) =~= s.map_values(
        |c: char|
            if c == ' ' {
                'T'
            } else {
                c
            },
    ));
}

/// A pattern finds the date that its first group captures, where that is a
/// date of its kind, and no other.
pub proof fn law_first_group_is_the_date(
    source: Text,
    kind: DateKind,
    line: Text,
    year: i32,
    g: Seq<(Option<Text>, Option<Text>)>,
)
    requires
        pattern::regex_groups(source, line) == Some(g),
        g.len() > 1,
    ensures
        match g[1].1 {
            Some(raw) => match date_of(raw, kind, year) {
                Some(ts) => found_date((source, kind), line, year) == Some((raw, ts)),
                None => found_date((source, kind), line, year) is None,
            },
            None => found_date((source, kind), line, year) is None,
        },
{
}

/// A detected date is the first that ISO 8601, seconds, milliseconds and the
/// form `Mon DD HH:MM:SS`, tried in this order, find in the line.
pub proof fn law_dates_are_detected_in_order(line: Text, year: i32)
    ensures
        ({
            let iso = found_date((ISO8601_REGEX@, DateKind::Iso8601), line, year);
            let secs = found_date((EPOCH_SECS_REGEX@, DateKind::EpochSecs), line, year);
            let millis = found_date((EPOCH_MILLIS_REGEX@, DateKind::EpochMillis), line, year);
            let syslog = found_date((SYSLOG_REGEX@, DateKind::Syslog), line, year);
            let r = detected(known_patterns(), 0, line, year);
            &&& iso matches Some(d) ==> r == Some((d.0, d.1, DateKind::Iso8601))
            &&& iso is None ==> (secs matches Some(d) ==> r == Some((d.0, d.1, DateKind::EpochSecs)))
            &&& iso is None && secs is None ==> (millis matches Some(d) ==> r == Some(
                (d.0, d.1, DateKind::EpochMillis),
            ))
            &&& iso is None && secs is None && millis is None ==> (syslog matches Some(d) ==> r
                == Some((d.0, d.1, DateKind::Syslog)))
            &&& iso is None && secs is None && millis is None && syslog is None ==> r is None
        }),
{
    reveal_with_fuel(detected, 5);
}

/// The date patterns that have names: the name, the regular expression, and
/// how the date is read.
pub open spec fn named_patterns() -> Seq<(Text, Text, DateKind)> {
    seq![
        ("epoch"@, EPOCH_SECS_REGEX@, DateKind::EpochSecs),
        ("epochmilli"@, EPOCH_MILLIS_REGEX@, DateKind::EpochMillis),
        ("epoch_milli"@, EPOCH_MILLIS_REGEX@, DateKind::EpochMillis),
        ("epochmicro"@, EPOCH_MICROS_REGEX@, DateKind::EpochMicros),
        ("epoch_micro"@, EPOCH_MICROS_REGEX@, DateKind::EpochMicros),
        ("iso8601"@, ISO8601_REGEX@, DateKind::Iso8601),
        ("rfc3339"@, ISO8601_REGEX@, DateKind::Iso8601),
        ("tai64n"@, TAI64N_REGEX@, DateKind::Tai64n),
    ]
}

proof fn lemma_plain_source(s: Text)
    requires
        s.len() > 0,
        s[0] != '{',
        !trim::is_space(s[0]),
        !trim::is_space(s.last()),
    ensures
        trim::trimmed(unprefixed(unprefixed(s, "{^LN-BEG}"@), "{UNB}"@)) == s,
        trim::trimmed(unprefixed(unprefixed("{^LN-BEG}"@ + s, "{^LN-BEG}"@), "{UNB}"@)) == s,
{
    reveal_strlit("{^LN-BEG}");
    reveal_strlit("{UNB}");
    let e = Seq::<char>::empty();
    trim::law_trimmed(e, s, e);
    assert(e + s + e =~= s);
    if find::starts(s, "{^LN-BEG}"@) {
        assert(s.take(9)[0] == '{');
    }
    if find::starts(s, "{UNB}"@) {
        assert(s.take(5)[0] == '{');
    }
    let t = "{^LN-BEG}"@ + s;
    assert(t.take(9) =~= "{^LN-BEG}"@);
    assert(t.skip(9) =~= s);
    reveal_with_fuel(unprefixed, 2);
}

/// A date pattern with a name is the regular expression of that name, with or
/// without `{^LN-BEG}` in front.
pub proof fn law_named_pattern(i: int)
    requires
        0 <= i < 8,
        pattern::regex_fault(named_patterns()[i].1) is None,
    ensures
        ({
            let p = named_patterns()[i];
            let r = Ok::<(Text, DateKind), ErrorView>((p.1, p.2));
            matcher_of(p.0) == r && matcher_of("{^LN-BEG}"@ + p.0) == r
        }),
{
    reveal_strlit("epoch");
    reveal_strlit("epochmilli");
    reveal_strlit("epoch_milli");
    reveal_strlit("epochmicro");
    reveal_strlit("epoch_micro");
    reveal_strlit("iso8601");
    reveal_strlit("rfc3339");
    reveal_strlit("tai64n");
    assert("epoch"@.len() == 5 && "epoch"@[0] == 'e' && "epoch"@[5 - 1] == 'h' && "epoch"@.last() == 'h');
    assert("epochmilli"@.len() == 10 && "epochmilli"@[0] == 'e' && "epochmilli"@[5 - 0] == 'm' && "epochmilli"@.last() == 'i');
    assert("epoch_milli"@.len() == 11 && "epoch_milli"@[0] == 'e' && "epoch_milli"@[5 - 0] == '_' && "epoch_milli"@.last() == 'i');
    assert("epochmicro"@.len() == 10 && "epochmicro"@[0] == 'e' && "epochmicro"@[5 - 0] == 'm' && "epochmicro"@.last() == 'o');
    assert("epoch_micro"@.len() == 11 && "epoch_micro"@[0] == 'e' && "epoch_micro"@[5 - 0] == '_' && "epoch_micro"@.last() == 'o');
    assert("iso8601"@.len() == 7 && "iso8601"@[0] == 'i' && "iso8601"@[5 - 0] == '0' && "iso8601"@.last() == '1');
    assert("rfc3339"@.len() == 7 && "rfc3339"@[0] == 'r' && "rfc3339"@[5 - 0] == '3' && "rfc3339"@.last() == '9');
    assert("tai64n"@.len() == 6 && "tai64n"@[0] == 't' && "tai64n"@[5 - 0] == 'n' && "tai64n"@.last() == 'n');
    let p = named_patterns()[i];
    lemma_plain_source(p.0);
    assert(text::lowered(p.0) =~= p.0);
}

/// A date pattern with `%` is a format: what it describes is the date.
pub proof fn law_format_is_one_group(s: Text)
    requires
        s.len() > 0,
        s[0] == '%',
        !trim::is_space(s.last()),
        pattern::regex_fault("("@ + format_regex(s) + ")"@) is None,
    ensures
        matcher_of(s) == Ok::<(Text, DateKind), ErrorView>(
            ("("@ + format_regex(s) + ")"@, DateKind::Strftime),
        ),
{
    lemma_plain_source(s);
    reveal_strlit("epoch");
    reveal_strlit("epochmilli");
    reveal_strlit("epoch_milli");
    reveal_strlit("epochmicro");
    reveal_strlit("epoch_micro");
    reveal_strlit("iso8601");
    reveal_strlit("rfc3339");
    reveal_strlit("tai64n");
    assert(text::lowered(s)[0] == '%');
    assert(s.contains(s[0]));
}

/// The fields of a format, with the regular expressions they stand for.
pub open spec fn format_fields() -> Seq<(char, Text)> {
    seq![
        ('Y', r"\d{4}"@),
        ('m', r"\d{2}"@),
        ('d', r"\d{2}"@),
        ('H', r"\d{2}"@),
        ('M', r"\d{2}"@),
        ('S', r"\d{2}"@),
        ('y', r"\d{2}"@),
        ('j', r"\d{3}"@),
        ('b', r"[A-Za-z]{3,9}"@),
        ('B', r"[A-Za-z]{3,9}"@),
        ('h', r"[A-Za-z]{3,9}"@),
        ('a', r"[A-Za-z]{3,9}"@),
        ('A', r"[A-Za-z]{3,9}"@),
        ('p', r"(?:AM|PM)"@),
        ('z', r"[+-]\d{4}"@),
        ('Z', r"[A-Za-z/]+"@),
    ]
}

/// A field of a format, written with one `%` or two, stands for its regular
/// expression; a blank stands for white space; a sign that has a meaning in
/// regular expressions stands for itself, and so does any other character.
pub proof fn law_format_fields(i: int, c: char, rest: Text)
    requires
        0 <= i < 16,
    ensures
        ({
            let (f, e) = format_fields()[i];
            &&& format_regex(seq!['%', f] + rest) == e + format_regex(rest)
            &&& format_regex(seq!['%', '%', f] + rest) == e + format_regex(rest)
        }),
        format_regex(seq![' '] + rest) == r"\s+"@ + format_regex(rest),
        r".+*?()|[]{}^$\"@.contains(c) ==> format_regex(seq![c] + rest) == seq!['\\', c]
            + format_regex(rest),
        c != '%' && c != ' ' && !r".+*?()|[]{}^$\"@.contains(c) ==> format_regex(seq![c] + rest)
            == seq![c] + format_regex(rest),
{
    let (f, e) = format_fields()[i];
    assert((seq!['%', f] + rest).skip(2) =~= rest);
    assert((seq!['%', '%', f] + rest).skip(3) =~= rest);
    assert((seq![' '] + rest).skip(1) =~= rest);
    assert((seq![c] + rest).skip(1) =~= rest);
    reveal_strlit(r".+*?()|[]{}^$\");
    let m = r".+*?()|[]{}^$\"@;
    assert(is_meta(c) == m.contains(c)) by {
        if is_meta(c) {
            assert(m[0] == '.' && m[1] == '+' && m[2] == '*' && m[3] == '?' && m[4] == '(' && m[5]
                == ')' && m[6] == '|' && m[7] == '[' && m[8] == ']' && m[9] == '{' && m[10] == '}'
                && m[11] == '^' && m[12] == '$' && m[13] == '\\');
        }
    }
}

/// Microseconds before 1970 are read where they are whole seconds, and not
/// otherwise; dates of TAI64N are found and not read.
pub proof fn law_dates_that_are_not_read(n: i64, s: Text, year: i32)
    requires
        -1000000000000 <= n < 0,
    ensures
        date_of(number::decimal_int(n * 1000000), DateKind::EpochMicros, year) == Some(
            Timestamp { secs: n, nanos: 0 },
        ),
        n % 1000000 != 0 ==> date_of(
            number::decimal_int(n as int),
            DateKind::EpochMicros,
            year,
        ) is None,
        date_of(s, DateKind::Tai64n, year) is None,
{
    number::lemma_decimal_int_read(n);
    number::lemma_decimal_int_read((n * 1000000) as i64);
    assert((n * 1000000) % 1000000 == 0);
    assert((n * 1000000) / 1000000 == n);
}

} // verus!
