//! Durations as they are written in configuration files: `3600`, `10m`,
//! `1d12h`, `-1`, `permanent`.

use crate::error;
use crate::error::{Error, ErrorView};
use crate::text;
use crate::text::number;
use crate::text::trim;
use crate::text::Text;
use vstd::prelude::*;

verus! {

/// A parsed duration.
#[derive(Debug, Clone, Copy, PartialEq, Eq, Hash)]
pub struct TimeValue {
    /// The duration in seconds; `None` for one without an end.
    pub seconds: Option<u64>,
    /// Whether the duration has no end.
    pub permanent: bool,
}

impl View for TimeValue {
    type V = TimeValue;

    open spec fn view(&self) -> TimeValue {
        *self
    }
}

/// The duration without an end.
pub open spec fn forever() -> TimeValue {
    TimeValue { seconds: None, permanent: true }
}

/// A duration of `n` seconds, cut off at the largest 64-bit number.
pub open spec fn lasting(n: nat) -> TimeValue {
    TimeValue { seconds: Some(capped(n)), permanent: false }
}

/// A duration in seconds, the largest 64-bit number for one without an end.
pub open spec fn seconds_or_max(t: TimeValue) -> u64 {
    match t.seconds {
        Some(n) => n,
        None => u64::MAX,
    }
}

/// A number cut off at the largest 64-bit number.
pub open spec fn capped(n: nat) -> u64 {
    if n > u64::MAX {
        u64::MAX
    } else {
        n as u64
    }
}

/// The seconds in a unit of time.
pub open spec fn unit_seconds(u: Text) -> Option<nat> {
    if u == "y"@ || u == "year"@ || u == "years"@ {
        Some(365 * 86400)
    } else if u == "mo"@ || u == "month"@ || u == "months"@ {
        Some(30 * 86400)
    } else if u == "w"@ || u == "week"@ || u == "weeks"@ {
        Some(7 * 86400)
    } else if u == "d"@ || u == "day"@ || u == "days"@ {
        Some(86400)
    } else if u == "h"@ || u == "hour"@ || u == "hours"@ {
        Some(3600)
    } else if u == "m"@ || u == "min"@ || u == "minute"@ || u == "minutes"@ {
        Some(60)
    } else if u == "s"@ || u == "sec"@ || u == "second"@ || u == "seconds"@ {
        Some(1)
    } else {
        None
    }
}

/// How many digits the text starts with.
pub open spec fn digit_run(s: Text) -> nat
    decreases s.len(),
{
    if s.len() == 0 || !text::is_digit(s[0]) {
        0
    } else {
        1 + digit_run(s.drop_first())
    }
}

/// How many ASCII letters the text starts with.
pub open spec fn letter_run(s: Text) -> nat
    decreases s.len(),
{
    if s.len() == 0 || !text::is_letter(s[0]) {
        0
    } else {
        1 + letter_run(s.drop_first())
    }
}

/// The sum of the spans (a number and its unit) that the text is made of,
/// added to `sum`. White space may stand between spans. A number without a
/// unit counts seconds and ends the text. `found` says whether a span came
/// before; `input` is what the error messages quote.
pub open spec fn spans(s: Text, sum: nat, found: bool, input: Text) -> Result<nat, ErrorView>
    decreases s.len(),
    via spans_shrink
{
    let digits = digit_run(s) as int;
    let rest = s.skip(digits);
    let letters = letter_run(rest) as int;
    if s.len() == 0 {
        if found {
            Ok(sum)
        } else {
            Err(ErrorView::TimeParse("no time unit consumed in "@ + text::debug_text(input)))
        }
    } else if trim::is_space(s[0]) {
        spans(s.drop_first(), sum, found, input)
    } else if digits == 0 {
        Err(ErrorView::TimeParse("expected number at position in "@ + text::debug_text(input)))
    } else {
        match number::unsigned_of(s.take(digits), u64::MAX as nat) {
            Err(f) => Err(
                ErrorView::TimeParse(
                    "invalid number "@ + s.take(digits) + ": "@ + number::fault_text(f),
                ),
            ),
            Ok(n) => if letters == 0 {
                Ok(sum + n)
            } else {
                match unit_seconds(rest.take(letters)) {
                    Some(u) => spans(rest.skip(letters), sum + n * u, true, input),
                    None => Err(
                        ErrorView::TimeParse(
                            "unknown time unit "@ + text::debug_text(rest.take(letters)) + " in "@
                                + text::debug_text(input),
                        ),
                    ),
                }
            },
        }
    }
}

#[via_fn]
proof fn spans_shrink(s: Text, sum: nat, found: bool, input: Text) {
    lemma_digit_run(s);
    lemma_letter_run(s.skip(digit_run(s) as int));
}

/// What a text means as a duration.
pub open spec fn time_of(input: Text) -> Result<TimeValue, ErrorView> {
    let t = trim::trimmed(input);
    let lower = text::lowered(t);
    if t.len() == 0 {
        Err(ErrorView::TimeParse("empty time value"@))
    } else if lower == "permanent"@ || lower == "infinite"@ || lower == "never"@ {
        Ok(forever())
    } else {
        match number::signed_of(t) {
            Ok(n) => if n < 0 {
                Ok(forever())
            } else {
                Ok(lasting(n as nat))
            },
            Err(_) => match spans(lower, 0, false, input) {
                Ok(n) => Ok(lasting(n)),
                Err(e) => Err(e),
            },
        }
    }
}

proof fn lemma_digit_run(s: Text)
    ensures
        digit_run(s) <= s.len(),
    decreases s.len(),
{
    if s.len() > 0 && text::is_digit(s[0]) {
        lemma_digit_run(s.drop_first());
    }
}

proof fn lemma_letter_run(s: Text)
    ensures
        letter_run(s) <= s.len(),
    decreases s.len(),
{
    if s.len() > 0 && text::is_letter(s[0]) {
        lemma_letter_run(s.drop_first());
    }
}

fn digits_from(v: &Vec<char>, from: usize) -> (j: usize)
    requires
        from <= v.len(),
    ensures
        from <= j <= v.len(),
        j == from + digit_run(v@.skip(from as int)),
{
    let mut j: usize = from;
    while j < v.len() && text::digit(v[j])
        invariant
            from <= j <= v.len(),
            digit_run(v@.skip(from as int)) == j - from + digit_run(v@.skip(j as int)),
        decreases v.len() - j,
    {
        proof {
            text::lemma_skip_step(v@, j as int);
        }
        j += 1;
    }
    j
}

fn letters_from(v: &Vec<char>, from: usize) -> (j: usize)
    requires
        from <= v.len(),
    ensures
        from <= j <= v.len(),
        j == from + letter_run(v@.skip(from as int)),
{
    let mut j: usize = from;
    while j < v.len() && text::letter(v[j])
        invariant
            from <= j <= v.len(),
            letter_run(v@.skip(from as int)) == j - from + letter_run(v@.skip(j as int)),
        decreases v.len() - j,
    {
        proof {
            text::lemma_skip_step(v@, j as int);
        }
        j += 1;
    }
    j
}

fn seconds_of_unit(u: &str) -> (r: Option<u64>)
    ensures
        match r {
            Some(n) => unit_seconds(u@) == Some(n as nat),
            None => unit_seconds(u@) is None,
        },
        r matches Some(n) ==> n <= 31536000,
{
    if text::same(u, "y") || text::same(u, "year") || text::same(u, "years") {
        Some(31536000)
    } else if text::same(u, "mo") || text::same(u, "month") || text::same(u, "months") {
        Some(2592000)
    } else if text::same(u, "w") || text::same(u, "week") || text::same(u, "weeks") {
        Some(604800)
    } else if text::same(u, "d") || text::same(u, "day") || text::same(u, "days") {
        Some(86400)
    } else if text::same(u, "h") || text::same(u, "hour") || text::same(u, "hours") {
        Some(3600)
    } else if text::same(u, "m") || text::same(u, "min") || text::same(u, "minute") || text::same(
        u,
        "minutes",
    ) {
        Some(60)
    } else if text::same(u, "s") || text::same(u, "sec") || text::same(u, "second") || text::same(
        u,
        "seconds",
    ) {
        Some(1)
    } else {
        None
    }
}

/// `total` and `n` units of `u` seconds, cut off at the largest 64-bit number.
pub fn add_span(total: u64, n: u64, u: u64) -> (r: u64)
    ensures
        r == capped((total + n * u) as nat),
{
    proof {
        assert(0 <= n * u <= u64::MAX * u64::MAX) by (nonlinear_arith)
            requires
                0 <= n <= u64::MAX,
                0 <= u <= u64::MAX,
        ;
    }
    let sum: u128 = total as u128 + n as u128 * u as u128;
    if sum > u64::MAX as u128 {
        u64::MAX
    } else {
        sum as u64
    }
}

fn read_spans(lower: &str, input: &str) -> (r: Result<u64, Error>)
    ensures
        match r {
            Ok(n) => spans(lower@, 0, false, input@) matches Ok(sum) && n == capped(sum),
            Err(e) => spans(lower@, 0, false, input@) == Err::<nat, ErrorView>(e@),
        },
{
    let v = text::chars_of(lower);
    let mut total: u64 = 0;
    let mut found = false;
    let mut i: usize = 0;
    let ghost mut sum: nat = 0;
    assert(v@.skip(0) =~= v@);
    while i < v.len()
        invariant
            i <= v.len(),
            total == capped(sum),
            spans(lower@, 0, false, input@) == spans(v@.skip(i as int), sum, found, input@),
        decreases v.len() - i,
    {
        let ghost s = v@.skip(i as int);
        proof {
            text::lemma_skip_step(v@, i as int);
        }
        if trim::space(v[i]) {
            i += 1;
            continue;
        }
        let j = digits_from(&v, i);
        if j == i {
            let q = text::quoted(input);
            return Err(
                Error::TimeParse(text::cat2("expected number at position in ", q.as_str())),
            );
        }
        let num = text::string_of(&v, i, j);
        assert(num@ =~= s.take(j - i));
        let n: u64 = match number::parse_unsigned(num.as_str(), u64::MAX) {
            Ok(n) => n,
            Err(f) => {
                return Err(
                    Error::TimeParse(
                        text::cat4("invalid number ", num.as_str(), ": ", f.message()),
                    ),
                );
            },
        };
        let k = letters_from(&v, j);
        assert(s.skip(j - i) =~= v@.skip(j as int));
        if k == j {
            return Ok(add_span(total, n, 1));
        }
        let unit = text::string_of(&v, j, k);
        assert(unit@ =~= v@.skip(j as int).take(k - j));
        assert(v@.skip(j as int).skip(k - j) =~= v@.skip(k as int));
        match seconds_of_unit(unit.as_str()) {
            Some(u) => {
                proof {
                    assert(n as nat * u as nat >= 0) by (nonlinear_arith);
                    assert((n as nat * u as nat) as int == n * u);
                    sum = sum + n as nat * u as nat;
                }
                total = add_span(total, n, u);
                found = true;
                i = k;
            },
            None => {
                let uq = text::quoted(unit.as_str());
                let iq = text::quoted(input);
                return Err(
                    Error::TimeParse(
                        text::cat4("unknown time unit ", uq.as_str(), " in ", iq.as_str()),
                    ),
                );
            },
        }
    }
    if !found {
        let q = text::quoted(input);
        return Err(Error::TimeParse(text::cat2("no time unit consumed in ", q.as_str())));
    }
    Ok(total)
}

impl TimeValue {
    /// Reads a duration: a number of seconds, a sum of spans such as `1d12h`,
    /// or for one without an end a negative number or one of the words
    /// `permanent`, `infinite` and `never`.
    pub fn parse(input: &str) -> (r: Result<TimeValue, Error>)
        ensures
            error::outcome(r) == time_of(input@),
    {
        let trimmed = trim::trim(input);
        if trimmed.is_empty() {
            return Err(Error::TimeParse("empty time value".to_owned()));
        }
        let lower = text::to_lower(trimmed);
        if text::same(lower.as_str(), "permanent") || text::same(lower.as_str(), "infinite")
            || text::same(lower.as_str(), "never") {
            return Ok(TimeValue { seconds: None, permanent: true });
        }
        if let Ok(n) = number::parse_signed(trimmed) {
            if n < 0 {
                return Ok(TimeValue { seconds: None, permanent: true });
            }
            return Ok(TimeValue { seconds: Some(n as u64), permanent: false });
        }
        match read_spans(lower.as_str(), input) {
            Ok(n) => Ok(TimeValue { seconds: Some(n), permanent: false }),
            Err(e) => Err(e),
        }
    }

    /// The duration in whole seconds; `None` for one without an end.
    pub fn to_duration(self) -> (r: Option<u64>)
        ensures
            r == self.seconds,
    {
        self.seconds
    }

    /// The duration in seconds, the largest 64-bit number for one without an
    /// end.
    pub fn to_seconds_or_max(self) -> (r: u64)
        ensures
            r == seconds_or_max(self),
    {
        match self.seconds {
            Some(n) => n,
            None => u64::MAX,
        }
    }
}

impl From<u64> for TimeValue {
    fn from(s: u64) -> (r: TimeValue) {
        TimeValue { seconds: Some(s), permanent: false }
    }
}

impl vstd::std_specs::convert::FromSpecImpl<u64> for TimeValue {
    open spec fn obeys_from_spec() -> bool {
        true
    }

    open spec fn from_spec(s: u64) -> TimeValue {
        lasting(s as nat)
    }
}

/// Whether every character is a digit.
pub open spec fn all_digits(s: Text) -> bool {
    forall|i: int| 0 <= i < s.len() ==> text::is_digit(#[trigger] s[i])
}

/// Whether every character is a lower-case ASCII letter.
pub open spec fn all_small_letters(s: Text) -> bool {
    forall|i: int| 0 <= i < s.len() ==> 'a' <= #[trigger] s[i] && s[i] <= 'z'
}

proof fn lemma_digit_run_all(d: Text, rest: Text)
    requires
        all_digits(d),
        rest.len() > 0 ==> !text::is_digit(rest[0]),
    ensures
        digit_run(d + rest) == d.len(),
    decreases d.len(),
{
    if d.len() == 0 {
        assert(d + rest =~= rest);
    } else {
        let t = d.drop_first();
        assert((d + rest).drop_first() =~= t + rest);
        assert((d + rest)[0] == d[0]);
        assert forall|i: int| 0 <= i < t.len() implies text::is_digit(#[trigger] t[i]) by {
            assert(t[i] == d[i + 1]);
        }
        lemma_digit_run_all(t, rest);
    }
}

proof fn lemma_letter_run_all(u: Text, rest: Text)
    requires
        all_small_letters(u),
        rest.len() > 0 ==> !text::is_letter(rest[0]),
    ensures
        letter_run(u + rest) == u.len(),
    decreases u.len(),
{
    if u.len() == 0 {
        assert(u + rest =~= rest);
    } else {
        let t = u.drop_first();
        assert((u + rest).drop_first() =~= t + rest);
        assert((u + rest)[0] == u[0]);
        assert forall|i: int| 0 <= i < t.len() implies 'a' <= #[trigger] t[i] && t[i] <= 'z' by {
            assert(t[i] == u[i + 1]);
        }
        lemma_letter_run_all(t, rest);
    }
}

/// A unit of time is written in lower-case letters.
proof fn lemma_unit_letters(u: Text)
    requires
        unit_seconds(u) is Some,
    ensures
        u.len() > 0,
        all_small_letters(u),
{
    reveal_strlit("y");
    reveal_strlit("year");
    reveal_strlit("years");
    reveal_strlit("mo");
    reveal_strlit("month");
    reveal_strlit("months");
    reveal_strlit("w");
    reveal_strlit("week");
    reveal_strlit("weeks");
    reveal_strlit("d");
    reveal_strlit("day");
    reveal_strlit("days");
    reveal_strlit("h");
    reveal_strlit("hour");
    reveal_strlit("hours");
    reveal_strlit("m");
    reveal_strlit("min");
    reveal_strlit("minute");
    reveal_strlit("minutes");
    reveal_strlit("s");
    reveal_strlit("sec");
    reveal_strlit("second");
    reveal_strlit("seconds");
}

/// A number with its unit at the start of a text counts as that many units,
/// whatever follows, as long as what follows does not go on with a letter.
pub proof fn law_span_adds(n: u64, u: Text, rest: Text, sum: nat, found: bool, input: Text)
    requires
        unit_seconds(u) is Some,
        rest.len() > 0 ==> !text::is_letter(rest[0]),
    ensures
        spans(number::decimal(n as nat) + u + rest, sum, found, input) == spans(
            rest,
            sum + n as nat * unit_seconds(u)->0,
            true,
            input,
        ),
{
    let d = number::decimal(n as nat);
    let s = d + u + rest;
    lemma_unit_letters(u);
    number::lemma_decimal_digits(n as nat);
    number::lemma_decimal_read(n as nat, u64::MAX as nat);
    assert(s =~= d + (u + rest));
    assert((u + rest)[0] == u[0]);
    lemma_digit_run_all(d, u + rest);
    assert(s.take(d.len() as int) =~= d);
    assert(s.skip(d.len() as int) =~= u + rest);
    lemma_letter_run_all(u, rest);
    assert((u + rest).take(u.len() as int) =~= u);
    assert((u + rest).skip(u.len() as int) =~= rest);
    assert(s[0] == d[0]);
    assert(text::is_digit(d[0]));
}

/// Digits and small letters are neither trimmed nor changed in case.
proof fn lemma_plain(s: Text)
    requires
        s.len() > 0,
        forall|i: int|
            0 <= i < s.len() ==> text::is_digit(#[trigger] s[i]) || ('a' <= s[i] && s[i] <= 'z'),
    ensures
        trim::trimmed(s) == s,
        text::lowered(s) == s,
{
    assert(text::is_digit(s[0]) || ('a' <= s[0] && s[0] <= 'z'));
    assert(text::is_digit(s.last()) || ('a' <= s.last() && s.last() <= 'z'));
    assert(text::lowered(s) =~= s);
}

/// What starts with a digit is none of the words for a duration without an
/// end.
proof fn lemma_no_word(s: Text)
    requires
        s.len() > 0,
        text::is_digit(s[0]),
    ensures
        s != "permanent"@,
        s != "infinite"@,
        s != "never"@,
{
    reveal_strlit("permanent");
    reveal_strlit("infinite");
    reveal_strlit("never");
}

/// A plain number counts seconds.
pub proof fn law_plain_number(n: u64)
    ensures
        time_of(number::decimal(n as nat)) == Ok::<TimeValue, ErrorView>(lasting(n as nat)),
{
    let d = number::decimal(n as nat);
    number::lemma_decimal_digits(n as nat);
    lemma_plain(d);
    assert(text::is_digit(d[0]));
    lemma_no_word(d);
    if n <= i64::MAX {
        number::lemma_decimal_read(n as nat, i64::MAX as nat);
    } else {
        number::lemma_decimal_read(n as nat, u64::MAX as nat);
        assert(d + Seq::<char>::empty() =~= d);
        lemma_digit_run_all(d, Seq::empty());
        assert(d.take(d.len() as int) =~= d);
        assert(d.skip(d.len() as int) =~= Seq::empty());
        match number::signed_of(d) {
            Ok(m) => {
                lemma_read_within(d, 0, i64::MAX as nat, u64::MAX as nat);
            },
            Err(_) => {},
        }
    }
}

/// A number that can be read within a range is the same within a larger one.
proof fn lemma_read_within(s: Text, acc: nat, low: nat, high: nat)
    requires
        low <= high,
        number::read_digits(s, acc, low) is Ok,
    ensures
        number::read_digits(s, acc, high) == number::read_digits(s, acc, low),
    decreases s.len(),
{
    if s.len() > 0 {
        lemma_read_within(
            s.drop_first(),
            acc * 10 + number::digit_value(s[0]),
            low,
            high,
        );
    }
}

/// A negative number stands for a duration without an end.
pub proof fn law_negative_number(n: i64)
    requires
        n < 0,
    ensures
        time_of(number::decimal_int(n as int)) == Ok::<TimeValue, ErrorView>(forever()),
{
    let d = number::decimal((-n) as nat);
    let s = number::decimal_int(n as int);
    number::lemma_decimal_int_read(n);
    number::lemma_decimal_digits((-n) as nat);
    assert(s[0] == '-');
    assert(s.last() == d.last());
    assert(text::is_digit(d[d.len() - 1]));
    assert(trim::trimmed(s) == s);
    let l = text::lowered(s);
    assert(l[0] == '-');
    reveal_strlit("permanent");
    reveal_strlit("infinite");
    reveal_strlit("never");
}

/// A number with a unit counts that many units.
pub proof fn law_number_with_unit(n: u64, u: Text)
    requires
        unit_seconds(u) is Some,
    ensures
        time_of(number::decimal(n as nat) + u) == Ok::<TimeValue, ErrorView>(
            lasting(n as nat * unit_seconds(u)->0),
        ),
{
    let d = number::decimal(n as nat);
    let s = d + u;
    number::lemma_decimal_digits(n as nat);
    lemma_unit_letters(u);
    lemma_mixed(d, u);
    law_span_adds(n, u, Seq::empty(), 0, false, s);
    assert(d + u + Seq::<char>::empty() =~= s);
}

/// Two spans written one after the other add up.
pub proof fn law_spans_combine(n: u64, u: Text, m: u64, w: Text)
    requires
        unit_seconds(u) is Some,
        unit_seconds(w) is Some,
    ensures
        time_of(number::decimal(n as nat) + u + number::decimal(m as nat) + w) == Ok::<
            TimeValue,
            ErrorView,
        >(lasting(n as nat * unit_seconds(u)->0 + m as nat * unit_seconds(w)->0)),
{
    let d = number::decimal(n as nat);
    let e = number::decimal(m as nat);
    let s = d + u + e + w;
    number::lemma_decimal_digits(n as nat);
    number::lemma_decimal_digits(m as nat);
    lemma_unit_letters(u);
    lemma_unit_letters(w);
    let tail = u + e + w;
    assert(s =~= d + tail);
    assert(tail[0] == u[0]);
    assert forall|i: int| 0 <= i < tail.len() implies text::is_digit(#[trigger] tail[i]) || ('a'
        <= tail[i] && tail[i] <= 'z') by {
        if i < u.len() {
            assert(tail[i] == u[i]);
        } else if i < u.len() + e.len() {
            assert(tail[i] == e[i - u.len()]);
        } else {
            assert(tail[i] == w[i - u.len() - e.len()]);
        }
    }
    lemma_mixed(d, tail);
    assert(text::is_digit(e[0]));
    assert((e + w)[0] == e[0]);
    law_span_adds(n, u, e + w, 0, false, s);
    assert(d + u + (e + w) =~= s);
    law_span_adds(m, w, Seq::empty(), n as nat * unit_seconds(u)->0, true, s);
    assert(e + w + Seq::<char>::empty() =~= e + w);
}

/// A number followed by something that starts with a letter is read as spans.
proof fn lemma_mixed(d: Text, tail: Text)
    requires
        d.len() > 0,
        all_digits(d),
        tail.len() > 0,
        'a' <= tail[0] && tail[0] <= 'z',
        forall|i: int|
            0 <= i < tail.len() ==> text::is_digit(#[trigger] tail[i]) || ('a' <= tail[i] && tail[i]
                <= 'z'),
    ensures
        time_of(d + tail) == (match spans(d + tail, 0, false, d + tail) {
            Ok(n) => Ok::<TimeValue, ErrorView>(lasting(n)),
            Err(e) => Err(e),
        }),
{
    let s = d + tail;
    assert forall|i: int| 0 <= i < s.len() implies text::is_digit(#[trigger] s[i]) || ('a' <= s[i]
        && s[i] <= 'z') by {
        if i < d.len() {
            assert(s[i] == d[i]);
        } else {
            assert(s[i] == tail[i - d.len()]);
        }
    }
    lemma_plain(s);
    assert(s[0] == d[0]);
    assert(text::is_digit(d[0]));
    lemma_no_word(s);
    lemma_read_stops(s, d.len() as int, 0, i64::MAX as nat);
}

/// Digits with something else among them are no number.
proof fn lemma_read_stops(s: Text, k: int, acc: nat, max: nat)
    requires
        0 <= k < s.len(),
        !text::is_digit(s[k]),
    ensures
        number::read_digits(s, acc, max) is Err,
    decreases k,
{
    if k > 0 && text::is_digit(s[0]) {
        assert(s.drop_first()[k - 1] == s[k]);
        lemma_read_stops(s.drop_first(), k - 1, acc * 10 + number::digit_value(s[0]), max);
    }
}

/// A parsed duration is permanent exactly when it has no length.
pub proof fn law_permanent_has_no_seconds(input: Text)
    ensures
        time_of(input) matches Ok(v) ==> (v.permanent <==> v.seconds is None),
{
}

/// A moment: seconds since 1970-01-01 00:00:00 UTC, and nanoseconds. A leap
/// second has more than a second's worth of nanoseconds.
#[derive(Debug, Clone, Copy, PartialEq, Eq, Hash, Structural)]
pub struct Timestamp {
    pub secs: i64,
    pub nanos: u32,
}

/// Whether `a` comes before `b`.
pub open spec fn earlier(a: Timestamp, b: Timestamp) -> bool {
    a.secs < b.secs || (a.secs == b.secs && a.nanos < b.nanos)
}

impl Timestamp {
    /// The moment at a number of seconds.
    pub fn at(secs: i64) -> (r: Timestamp)
        ensures
            r == (Timestamp { secs, nanos: 0 }),
    {
        Timestamp { secs, nanos: 0 }
    }

    /// Whether the moment comes before another.
    pub fn is_before(self, other: Timestamp) -> (r: bool)
        ensures
            r == earlier(self, other),
    {
        self.secs < other.secs || (self.secs == other.secs && self.nanos < other.nanos)
    }
}

/// The moment `n` seconds after another, as seconds and nanoseconds. Going
/// forth from a leap second counts from its second, going back from the one
/// that follows it.
pub open spec fn shifted(t: Timestamp, n: int) -> (int, nat) {
    if t.nanos >= 1000000000 && n > 0 {
        (t.secs + n, (t.nanos - 1000000000) as nat)
    } else if t.nanos >= 1000000000 && n < 0 {
        (t.secs + 1 + n, (t.nanos - 1000000000) as nat)
    } else {
        (t.secs + n, t.nanos as nat)
    }
}

/// More seconds than lie between any two moments.
pub const MOST_SECONDS: i128 = 0x1_0000_0000_0000_0000_0000;

/// Whether a moment is not before the one `n` seconds after another.
pub open spec fn not_before(t: Timestamp, base: Timestamp, n: int) -> bool {
    let limit = shifted(base, n);
    t.secs > limit.0 || (t.secs == limit.0 && t.nanos >= limit.1)
}

impl Timestamp {
    /// Whether the moment is not before the one `n` seconds after another.
    pub fn reaches(self, base: Timestamp, n: i128) -> (r: bool)
        ensures
            r == not_before(self, base, n as int),
    {
        if n > MOST_SECONDS {
            return false;
        }
        if n < -MOST_SECONDS {
            return true;
        }
        let mut secs: i128 = base.secs as i128 + n;
        let mut nanos: u32 = base.nanos;
        if base.nanos >= 1000000000 && n != 0 {
            nanos = base.nanos - 1000000000;
            if n < 0 {
                secs = secs + 1;
            }
        }
        self.secs as i128 > secs || (self.secs as i128 == secs && self.nanos >= nanos)
    }
}

/// The units of time and their seconds.
pub open spec fn unit_table() -> Seq<(Text, nat)> {
    seq![
        ("y"@, 31536000),
        ("year"@, 31536000),
        ("years"@, 31536000),
        ("mo"@, 2592000),
        ("month"@, 2592000),
        ("months"@, 2592000),
        ("w"@, 604800),
        ("week"@, 604800),
        ("weeks"@, 604800),
        ("d"@, 86400),
        ("day"@, 86400),
        ("days"@, 86400),
        ("h"@, 3600),
        ("hour"@, 3600),
        ("hours"@, 3600),
        ("m"@, 60),
        ("min"@, 60),
        ("minute"@, 60),
        ("minutes"@, 60),
        ("s"@, 1),
        ("sec"@, 1),
        ("second"@, 1),
        ("seconds"@, 1),
    ]
}

/// Every unit of time stands for its seconds, and no other word is a unit.
pub proof fn law_units(i: int, u: Text)
    ensures
        unit_table().len() == 23,
        0 <= i < unit_table().len() ==> unit_seconds(unit_table()[i].0) == Some(unit_table()[i].1),
        unit_seconds(u) matches Some(n) ==> exists|k: int|
            0 <= k < unit_table().len() && #[trigger] unit_table()[k] == (u, n),
{
    reveal_strlit("y");
    reveal_strlit("year");
    reveal_strlit("years");
    reveal_strlit("mo");
    reveal_strlit("month");
    reveal_strlit("months");
    reveal_strlit("w");
    reveal_strlit("week");
    reveal_strlit("weeks");
    reveal_strlit("d");
    reveal_strlit("day");
    reveal_strlit("days");
    reveal_strlit("h");
    reveal_strlit("hour");
    reveal_strlit("hours");
    reveal_strlit("m");
    reveal_strlit("min");
    reveal_strlit("minute");
    reveal_strlit("minutes");
    reveal_strlit("s");
    reveal_strlit("sec");
    reveal_strlit("second");
    reveal_strlit("seconds");
    assert("y"@.len() == 1 && "y"@[0] == 'y');
    assert("year"@.len() == 4 && "year"@[0] == 'y' && "year"@[1] == 'e' && "year"@[2] == 'a');
    assert("years"@.len() == 5 && "years"@[0] == 'y' && "years"@[1] == 'e' && "years"@[2] == 'a');
    assert("mo"@.len() == 2 && "mo"@[0] == 'm' && "mo"@[1] == 'o');
    assert("month"@.len() == 5 && "month"@[0] == 'm' && "month"@[1] == 'o' && "month"@[2] == 'n');
    assert("months"@.len() == 6 && "months"@[0] == 'm' && "months"@[1] == 'o' && "months"@[2] == 'n');
    assert("w"@.len() == 1 && "w"@[0] == 'w');
    assert("week"@.len() == 4 && "week"@[0] == 'w' && "week"@[1] == 'e' && "week"@[2] == 'e');
    assert("weeks"@.len() == 5 && "weeks"@[0] == 'w' && "weeks"@[1] == 'e' && "weeks"@[2] == 'e');
    assert("d"@.len() == 1 && "d"@[0] == 'd');
    assert("day"@.len() == 3 && "day"@[0] == 'd' && "day"@[1] == 'a' && "day"@[2] == 'y');
    assert("days"@.len() == 4 && "days"@[0] == 'd' && "days"@[1] == 'a' && "days"@[2] == 'y');
    assert("h"@.len() == 1 && "h"@[0] == 'h');
    assert("hour"@.len() == 4 && "hour"@[0] == 'h' && "hour"@[1] == 'o' && "hour"@[2] == 'u');
    assert("hours"@.len() == 5 && "hours"@[0] == 'h' && "hours"@[1] == 'o' && "hours"@[2] == 'u');
    assert("m"@.len() == 1 && "m"@[0] == 'm');
    assert("min"@.len() == 3 && "min"@[0] == 'm' && "min"@[1] == 'i' && "min"@[2] == 'n');
    assert("minute"@.len() == 6 && "minute"@[0] == 'm' && "minute"@[1] == 'i' && "minute"@[2] == 'n');
    assert("minutes"@.len() == 7 && "minutes"@[0] == 'm' && "minutes"@[1] == 'i' && "minutes"@[2] == 'n');
    assert("s"@.len() == 1 && "s"@[0] == 's');
    assert("sec"@.len() == 3 && "sec"@[0] == 's' && "sec"@[1] == 'e' && "sec"@[2] == 'c');
    assert("second"@.len() == 6 && "second"@[0] == 's' && "second"@[1] == 'e' && "second"@[2] == 'c');
    assert("seconds"@.len() == 7 && "seconds"@[0] == 's' && "seconds"@[1] == 'e' && "seconds"@[2] == 'c');
    let t = unit_table();
    assert(t[0] == ("y"@, 31536000nat));
    assert(t[1] == ("year"@, 31536000nat));
    assert(t[2] == ("years"@, 31536000nat));
    assert(t[3] == ("mo"@, 2592000nat));
    assert(t[4] == ("month"@, 2592000nat));
    assert(t[5] == ("months"@, 2592000nat));
    assert(t[6] == ("w"@, 604800nat));
    assert(t[7] == ("week"@, 604800nat));
    assert(t[8] == ("weeks"@, 604800nat));
    assert(t[9] == ("d"@, 86400nat));
    assert(t[10] == ("day"@, 86400nat));
    assert(t[11] == ("days"@, 86400nat));
    assert(t[12] == ("h"@, 3600nat));
    assert(t[13] == ("hour"@, 3600nat));
    assert(t[14] == ("hours"@, 3600nat));
    assert(t[15] == ("m"@, 60nat));
    assert(t[16] == ("min"@, 60nat));
    assert(t[17] == ("minute"@, 60nat));
    assert(t[18] == ("minutes"@, 60nat));
    assert(t[19] == ("s"@, 1nat));
    assert(t[20] == ("sec"@, 1nat));
    assert(t[21] == ("second"@, 1nat));
    assert(t[22] == ("seconds"@, 1nat));
}

/// The words for a duration without an end are read as such, in either case
/// and with white space around them.
pub proof fn law_words_without_end(s: Text)
    ensures
        ({
            let w = text::lowered(trim::trimmed(s));
            (w == "permanent"@ || w == "infinite"@ || w == "never"@) ==> (time_of(s) matches Ok(t)
                && t.seconds is None && t.permanent)
        }),
{
    reveal_strlit("permanent");
    reveal_strlit("infinite");
    reveal_strlit("never");
    assert(text::lowered(trim::trimmed(s)).len() == trim::trimmed(s).len());
}

/// A number, alone or with a unit, is a duration of exactly so many seconds,
/// as far as the integers reach.
pub proof fn law_number_is_its_seconds(n: u64, i: int)
    requires
        0 <= i < unit_table().len(),
    ensures
        time_of(number::decimal(n as nat)) == Ok::<TimeValue, ErrorView>(
            TimeValue { seconds: Some(n), permanent: false },
        ),
        ({
            let exact = n * unit_table()[i].1;
            time_of(number::decimal(n as nat) + unit_table()[i].0) == Ok::<TimeValue, ErrorView>(
                TimeValue {
                    seconds: Some(
                        if exact <= u64::MAX {
                            exact as u64
                        } else {
                            u64::MAX
                        },
                    ),
                    permanent: false,
                },
            )
        }),
{
    law_units(i, Seq::empty());
    law_plain_number(n);
    law_number_with_unit(n, unit_table()[i].0);
    let u = unit_table()[i].1;
    assert(n * u >= 0) by (nonlinear_arith)
        requires
            n >= 0,
            u >= 0,
    ;
}

/// A duration in seconds is its seconds, and the largest number where it has
/// no end.
pub proof fn law_seconds_or_max(n: u64)
    ensures
        seconds_or_max(TimeValue { seconds: Some(n), permanent: false }) == n,
        seconds_or_max(TimeValue { seconds: None, permanent: true }) == u64::MAX,
{
}

/// A moment `n` seconds after another is that many seconds later, outside
/// leap seconds; and a moment is not before itself, but before every later
/// one.
pub proof fn law_moments(t: Timestamp, base: Timestamp, n: int)
    requires
        t.nanos < 1000000000,
        base.nanos < 1000000000,
    ensures
        not_before(t, base, n) <==> t.secs * 1000000000 + t.nanos >= (base.secs + n) * 1000000000
            + base.nanos,
        earlier(t, base) <==> t.secs * 1000000000 + t.nanos < base.secs * 1000000000 + base.nanos,
{
}

} // verus!
