//! Integers in decimal notation.

use crate::text;
use crate::text::Text;
use vstd::prelude::*;

verus! {

/// Why a text is not an integer of the wanted range.
#[derive(Debug, Clone, Copy, PartialEq, Eq, Structural)]
pub enum IntFault {
    /// There is nothing to read.
    Empty,
    /// Something other than a digit stands where a digit belongs.
    Invalid,
    /// The number is above the range.
    TooLarge,
    /// The number is below the range.
    TooSmall,
}

/// The fault in words.
pub open spec fn fault_text(f: IntFault) -> Text {
    match f {
        IntFault::Empty => "cannot parse integer from empty string"@,
        IntFault::Invalid => "invalid digit found in string"@,
        IntFault::TooLarge => "number too large to fit in target type"@,
        IntFault::TooSmall => "number too small to fit in target type"@,
    }
}

pub open spec fn digit_value(c: char) -> nat {
    (c as u32 - '0' as u32) as nat
}

pub open spec fn digit_char(d: nat) -> char {
    ('0' as u32 + d) as char
}

/// A number in decimal notation, without leading zeros.
pub open spec fn decimal(n: nat) -> Text
    decreases n,
{
    if n < 10 {
        seq![digit_char(n)]
    } else {
        decimal(n / 10).push(digit_char(n % 10))
    }
}

/// An integer in decimal notation.
pub open spec fn decimal_int(n: int) -> Text {
    if n < 0 {
        seq!['-'] + decimal((-n) as nat)
    } else {
        decimal(n as nat)
    }
}

/// Reads digits from left to right onto the number `acc`. The first character
/// that is no digit, or that takes the number above `max`, ends the reading.
pub open spec fn read_digits(s: Text, acc: nat, max: nat) -> Result<nat, IntFault>
    decreases s.len(),
{
    if s.len() == 0 {
        Ok(acc)
    } else if !text::is_digit(s[0]) {
        Err(IntFault::Invalid)
    } else if acc * 10 + digit_value(s[0]) > max {
        Err(IntFault::TooLarge)
    } else {
        read_digits(s.drop_first(), acc * 10 + digit_value(s[0]), max)
    }
}

/// Reads an integer from 0 to `max`. One leading plus sign is allowed.
pub open spec fn unsigned_of(s: Text, max: nat) -> Result<nat, IntFault> {
    if s.len() == 0 {
        Err(IntFault::Empty)
    } else if s[0] == '+' {
        if s.len() == 1 {
            Err(IntFault::Invalid)
        } else {
            read_digits(s.drop_first(), 0, max)
        }
    } else {
        read_digits(s, 0, max)
    }
}

/// Reads an integer of 64 bits with a sign. One leading sign is allowed.
pub open spec fn signed_of(s: Text) -> Result<int, IntFault> {
    if s.len() > 0 && s[0] == '-' {
        if s.len() == 1 {
            Err(IntFault::Invalid)
        } else {
            match read_digits(s.drop_first(), 0, (i64::MAX + 1) as nat) {
                Ok(n) => Ok(-(n as int)),
                Err(IntFault::TooLarge) => Err(IntFault::TooSmall),
                Err(f) => Err(f),
            }
        }
    } else {
        match unsigned_of(s, i64::MAX as nat) {
            Ok(n) => Ok(n as int),
            Err(f) => Err(f),
        }
    }
}

/// Reading one character more.
pub proof fn lemma_read_push(s: Text, c: char, acc: nat, max: nat)
    ensures
        read_digits(s.push(c), acc, max) == (match read_digits(s, acc, max) {
            Ok(n) => if !text::is_digit(c) {
                Err(IntFault::Invalid)
            } else if n * 10 + digit_value(c) > max {
                Err(IntFault::TooLarge)
            } else {
                Ok(n * 10 + digit_value(c))
            },
            Err(f) => Err(f),
        }),
    decreases s.len(),
{
    if s.len() == 0 {
        assert(s.push(c).drop_first() =~= Seq::<char>::empty());
        reveal_with_fuel(read_digits, 2);
    } else {
        assert(s.push(c).drop_first() =~= s.drop_first().push(c));
        if text::is_digit(s[0]) && acc * 10 + digit_value(s[0]) <= max {
            lemma_read_push(s.drop_first(), c, acc * 10 + digit_value(s[0]), max);
        }
    }
}

/// Decimal notation holds digits only, at least one, and no zero in front of
/// a number above zero.
pub proof fn lemma_decimal_digits(n: nat)
    ensures
        decimal(n).len() > 0,
        forall|i: int| 0 <= i < decimal(n).len() ==> text::is_digit(#[trigger] decimal(n)[i]),
        n > 0 ==> decimal(n)[0] != '0',
    decreases n,
{
    if n >= 10 {
        lemma_decimal_digits(n / 10);
        let t = decimal(n / 10);
        assert forall|i: int| 0 <= i < decimal(n).len() implies text::is_digit(
            #[trigger] decimal(n)[i],
        ) by {
            if i < t.len() {
                assert(decimal(n)[i] == t[i]);
            }
        }
    }
}

/// Reading the decimal notation of a number gives the number back, where it
/// is within the range.
pub proof fn lemma_decimal_read(n: nat, max: nat)
    requires
        n <= max,
    ensures
        read_digits(decimal(n), 0, max) == Ok::<nat, IntFault>(n),
        unsigned_of(decimal(n), max) == Ok::<nat, IntFault>(n),
    decreases n,
{
    lemma_decimal_digits(n);
    if n < 10 {
        assert(decimal(n) =~= Seq::<char>::empty().push(digit_char(n)));
        lemma_read_push(Seq::empty(), digit_char(n), 0, max);
    } else {
        lemma_decimal_read(n / 10, max);
        lemma_read_push(decimal(n / 10), digit_char(n % 10), 0, max);
    }
    assert(text::is_digit(decimal(n)[0]));
}

/// Reading the decimal notation of a 64-bit integer gives the integer back.
pub proof fn lemma_decimal_int_read(n: i64)
    ensures
        signed_of(decimal_int(n as int)) == Ok::<int, IntFault>(n as int),
{
    if n < 0 {
        let t = decimal((-n) as nat);
        lemma_decimal_read((-n) as nat, (i64::MAX + 1) as nat);
        lemma_decimal_digits((-n) as nat);
        assert((seq!['-'] + t).drop_first() =~= t);
    } else {
        lemma_decimal_read(n as nat, i64::MAX as nat);
        lemma_decimal_digits(n as nat);
        assert(text::is_digit(decimal(n as nat)[0]));
    }
}

impl IntFault {
    /// The fault in words.
    pub fn message(self) -> (r: &'static str)
        ensures
            r@ == fault_text(self),
    {
        match self {
            IntFault::Empty => "cannot parse integer from empty string",
            IntFault::Invalid => "invalid digit found in string",
            IntFault::TooLarge => "number too large to fit in target type",
            IntFault::TooSmall => "number too small to fit in target type",
        }
    }
}

fn read_from(v: &Vec<char>, from: usize, max: u64) -> (r: Result<u64, IntFault>)
    requires
        from <= v.len(),
    ensures
        match r {
            Ok(n) => n <= max && read_digits(v@.skip(from as int), 0, max as nat) == Ok::<
                nat,
                IntFault,
            >(n as nat),
            Err(f) => read_digits(v@.skip(from as int), 0, max as nat) == Err::<nat, IntFault>(f),
        },
{
    let mut n: u64 = 0;
    let mut i: usize = from;
    while i < v.len()
        invariant
            from <= i <= v.len(),
            n <= max,
            read_digits(v@.skip(from as int), 0, max as nat) == read_digits(
                v@.skip(i as int),
                n as nat,
                max as nat,
            ),
        decreases v.len() - i,
    {
        proof {
            text::lemma_skip_step(v@, i as int);
        }
        let c = v[i];
        if !text::digit(c) {
            return Err(IntFault::Invalid);
        }
        let d: u64 = c as u64 - '0' as u64;
        if n > max / 10 || (n == max / 10 && d > max % 10) {
            return Err(IntFault::TooLarge);
        }
        n = n * 10 + d;
        i += 1;
    }
    Ok(n)
}

/// Reads an integer from 0 to `max`.
pub fn parse_unsigned(s: &str, max: u64) -> (r: Result<u64, IntFault>)
    ensures
        match r {
            Ok(n) => n <= max && unsigned_of(s@, max as nat) == Ok::<nat, IntFault>(n as nat),
            Err(f) => unsigned_of(s@, max as nat) == Err::<nat, IntFault>(f),
        },
{
    let v = text::chars_of(s);
    if v.len() == 0 {
        return Err(IntFault::Empty);
    }
    if v[0] == '+' {
        if v.len() == 1 {
            return Err(IntFault::Invalid);
        }
        return read_from(&v, 1, max);
    }
    assert(v@.skip(0) =~= v@);
    read_from(&v, 0, max)
}

/// Reads a 64-bit integer with a sign.
pub fn parse_signed(s: &str) -> (r: Result<i64, IntFault>)
    ensures
        match r {
            Ok(n) => signed_of(s@) == Ok::<int, IntFault>(n as int),
            Err(f) => signed_of(s@) == Err::<int, IntFault>(f),
        },
{
    let v = text::chars_of(s);
    if v.len() > 0 && v[0] == '-' {
        if v.len() == 1 {
            return Err(IntFault::Invalid);
        }
        return match read_from(&v, 1, 0x8000_0000_0000_0000) {
            Ok(n) => if n == 0x8000_0000_0000_0000 {
                Ok(i64::MIN)
            } else {
                Ok(-(n as i64))
            },
            Err(IntFault::TooLarge) => Err(IntFault::TooSmall),
            Err(f) => Err(f),
        };
    }
    match parse_unsigned(s, i64::MAX as u64) {
        Ok(n) => Ok(n as i64),
        Err(f) => Err(f),
    }
}

/// The number in decimal notation.
pub fn to_decimal(n: u64) -> (r: String)
    ensures
        r@ == decimal(n as nat),
    decreases n,
{
    let d: u8 = (n % 10) as u8;
    let c = ('0' as u8 + d) as char;
    if n < 10 {
        let mut s = String::new();
        s.push(c);
        assert(s@ =~= seq![c]);
        s
    } else {
        let mut s = to_decimal(n / 10);
        s.push(c);
        s
    }
}

/// The integer in decimal notation.
pub fn to_decimal_int(n: i64) -> (r: String)
    ensures
        r@ == decimal_int(n as int),
{
    if n < 0 {
        let m: u64 = (-(n as i128)) as u64;
        let mut s = String::new();
        s.push('-');
        let t = to_decimal(m);
        s.append(t.as_str());
        assert(s@ =~= seq!['-'] + t@);
        s
    } else {
        to_decimal(n as u64)
    }
}

/// A number is written with the digits from `0` to `9`, the highest first.
pub proof fn law_decimal(n: nat, d: nat)
    requires
        d < 10,
    ensures
        decimal(d) == seq!["0123456789"@[d as int]],
        n > 0 ==> decimal(n * 10 + d) == decimal(n).push("0123456789"@[d as int]),
        n > 0 ==> decimal_int(-(n as int)) == seq!['-'] + decimal(n),
        decimal_int(n as int) == decimal(n),
{
    reveal_strlit("0123456789");
    let s = "0123456789"@;
    assert(s[0] == '0' && s[1] == '1' && s[2] == '2' && s[3] == '3' && s[4] == '4' && s[5] == '5'
        && s[6] == '6' && s[7] == '7' && s[8] == '8' && s[9] == '9');
    assert((n * 10 + d) / 10 == n);
    assert((n * 10 + d) % 10 == d);
}

/// A number is read back where it fits; one that does not fit, a text that is
/// empty and one that holds another character are told apart.
pub proof fn law_numbers_are_read(n: nat, max: nat, a: Text, c: char, b: Text)
    requires
        !text::is_digit(c),
        c != '+',
        forall|i: int| 0 <= i < a.len() ==> text::is_digit(#[trigger] a[i]),
    ensures
        n <= max ==> unsigned_of(decimal(n), max) == Ok::<nat, IntFault>(n),
        n > max ==> unsigned_of(decimal(n), max) == Err::<nat, IntFault>(IntFault::TooLarge),
        unsigned_of(Seq::empty(), max) == Err::<nat, IntFault>(IntFault::Empty),
        unsigned_of(seq!['+'], max) == Err::<nat, IntFault>(IntFault::Invalid),
        n <= max ==> unsigned_of(seq!['+'] + decimal(n), max) == Ok::<nat, IntFault>(n),
        unsigned_of(a.push(c) + b, max) is Err,
{
    lemma_decimal_digits(n);
    if n <= max {
        lemma_decimal_read(n, max);
        assert((seq!['+'] + decimal(n)).drop_first() =~= decimal(n));
    } else {
        lemma_too_large(n, max);
    }
    let s = a.push(c) + b;
    lemma_not_a_number(a, c, b, 0, max);
    if a.len() > 0 {
        assert(s[0] == a[0]);
    }
}

proof fn lemma_too_large(n: nat, max: nat)
    requires
        n > max,
    ensures
        read_digits(decimal(n), 0, max) == Err::<nat, IntFault>(IntFault::TooLarge),
    decreases n,
{
    if n < 10 {
        assert(decimal(n) =~= Seq::<char>::empty().push(digit_char(n)));
        lemma_read_push(Seq::empty(), digit_char(n), 0, max);
    } else {
        lemma_read_push(decimal(n / 10), digit_char(n % 10), 0, max);
        if n / 10 <= max {
            lemma_decimal_read(n / 10, max);
        } else {
            lemma_too_large(n / 10, max);
        }
    }
}

proof fn lemma_not_a_number(a: Text, c: char, b: Text, acc: nat, max: nat)
    requires
        !text::is_digit(c),
    ensures
        read_digits(a.push(c) + b, acc, max) is Err,
    decreases a.len(),
{
    let s = a.push(c) + b;
    if a.len() > 0 {
        let t = a.drop_first();
        assert(s.drop_first() =~= t.push(c) + b);
        lemma_not_a_number(t, c, b, acc * 10 + digit_value(s[0]), max);
    }
}

/// A number with a sign is read back; one that does not fit is too large or
/// too small.
pub proof fn law_signed_numbers(n: i64, m: nat)
    ensures
        signed_of(decimal_int(n as int)) == Ok::<int, IntFault>(n as int),
        m > i64::MAX ==> signed_of(decimal(m)) == Err::<int, IntFault>(IntFault::TooLarge),
        m > i64::MAX + 1 ==> signed_of(seq!['-'] + decimal(m)) == Err::<int, IntFault>(
            IntFault::TooSmall,
        ),
        signed_of(seq!['-']) == Err::<int, IntFault>(IntFault::Invalid),
{
    lemma_decimal_int_read(n);
    lemma_decimal_digits(m);
    if m > i64::MAX {
        lemma_too_large(m, i64::MAX as nat);
        assert(text::is_digit(decimal(m)[0]));
    }
    if m > i64::MAX + 1 {
        lemma_too_large(m, (i64::MAX + 1) as nat);
        assert((seq!['-'] + decimal(m)).drop_first() =~= decimal(m));
    }
}

/// What is said of a text that is no number.
pub proof fn law_faults_are_said()
    ensures
        fault_text(IntFault::Empty) == "cannot parse integer from empty string"@,
        fault_text(IntFault::Invalid) == "invalid digit found in string"@,
        fault_text(IntFault::TooLarge) == "number too large to fit in target type"@,
        fault_text(IntFault::TooSmall) == "number too small to fit in target type"@,
{
}

} // verus!
