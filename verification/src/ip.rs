//! IP addresses, networks, and lists of what is never to be banned.

use crate::config::files;
use crate::config::files::{FileSet, SourceView, Stop, StopView};
use crate::error;
use crate::error::{Error, ErrorView};
use crate::text;
use crate::text::find;
use crate::text::number;
use crate::text::split;
use crate::text::trim;
use crate::text::Text;
use vstd::prelude::*;

verus! {

/// An IP address, as the number that its bytes make up.
#[derive(Debug, Clone, Copy, PartialEq, Eq, Hash, Structural)]
pub enum IpAddr {
    V4(u32),
    V6(u128),
}

/// An IP family.
#[derive(Debug, Clone, Copy, PartialEq, Eq, Hash, Structural)]
pub enum IpFamily {
    /// IPv4
    Inet4,
    /// IPv6
    Inet6,
}

/// A network: the addresses that agree with one in their first `prefix` bits.
#[derive(Debug, Clone, Copy, PartialEq, Eq, Hash, Structural)]
pub enum IpNet {
    /// An IPv4 address and a number of bits.
    V4(u32, u8),
    /// An IPv6 address and a number of bits.
    V6(u128, u8),
}

/// The number that a text of one to three decimal digits without a leading
/// zero stands for, where it fits a byte.
pub open spec fn octet_of(p: Text) -> Option<nat> {
    if p.len() == 0 || p.len() > 3 || (p.len() > 1 && p[0] == '0') {
        None
    } else {
        match number::read_digits(p, 0, 255) {
            Ok(n) => Some(n),
            Err(_) => None,
        }
    }
}

/// The IPv4 address that a text in dotted notation stands for.
pub open spec fn v4_of(s: Text) -> Option<nat> {
    let p = split::pieces(s, '.');
    if p.len() == 4 && octet_of(p[0]) is Some && octet_of(p[1]) is Some && octet_of(p[2]) is Some
        && octet_of(p[3]) is Some {
        Some(
            ((octet_of(p[0])->0 * 256 + octet_of(p[1])->0) * 256 + octet_of(p[2])->0) * 256
                + octet_of(p[3])->0,
        )
    } else {
        None
    }
}

pub open spec fn hex_value(c: char) -> Option<nat> {
    if '0' <= c && c <= '9' {
        Some((c as u32 - '0' as u32) as nat)
    } else if 'a' <= c && c <= 'f' {
        Some((c as u32 - 'a' as u32 + 10) as nat)
    } else if 'A' <= c && c <= 'F' {
        Some((c as u32 - 'A' as u32 + 10) as nat)
    } else {
        None
    }
}

/// The number that hexadecimal digits stand for.
pub open spec fn hex_of(p: Text) -> Option<nat>
    decreases p.len(),
{
    if p.len() == 0 {
        Some(0)
    } else {
        match (hex_of(p.drop_last()), hex_value(p.last())) {
            (Some(n), Some(d)) => Some(n * 16 + d),
            _ => None,
        }
    }
}

/// The 16-bit group that one to four hexadecimal digits stand for.
pub open spec fn group_of(p: Text) -> Option<nat> {
    if p.len() == 0 || p.len() > 4 {
        None
    } else {
        hex_of(p)
    }
}

/// The groups that the pieces of an IPv6 address stand for. The last piece may
/// be an IPv4 address, which makes two groups, where `dotted` allows it.
pub open spec fn groups_of(p: Seq<Text>, dotted: bool) -> Option<Seq<nat>>
    decreases p.len(),
{
    if p.len() == 0 {
        Some(Seq::empty())
    } else {
        let last = if dotted && v4_of(p.last()) is Some {
            let n = v4_of(p.last())->0;
            Some(seq![n / 65536, n % 65536])
        } else {
            match group_of(p.last()) {
                Some(g) => Some(seq![g]),
                None => None,
            }
        };
        match (groups_of(p.drop_last(), false), last) {
            (Some(front), Some(back)) => Some(front + back),
            _ => None,
        }
    }
}

/// The groups of one side of an IPv6 address; an empty side has none.
pub open spec fn side_of(s: Text, dotted: bool) -> Option<Seq<nat>> {
    if s.len() == 0 {
        Some(Seq::empty())
    } else {
        groups_of(split::pieces(s, ':'), dotted)
    }
}

/// The number whose 16-bit groups these are.
pub open spec fn from_groups(g: Seq<nat>) -> nat
    decreases g.len(),
{
    if g.len() == 0 {
        0
    } else {
        from_groups(g.drop_last()) * 65536 + g.last()
    }
}

/// `n` groups of zero.
pub open spec fn zeros(n: int) -> Seq<nat> {
    Seq::new(n as nat, |i: int| 0nat)
}

/// The IPv6 address that a text stands for: eight groups, or fewer with one
/// `::` that stands for the missing groups, at least one, all zero.
pub open spec fn v6_of(s: Text) -> Option<nat> {
    let i = find::find_text(s, "::"@);
    if i < 0 {
        match side_of(s, true) {
            Some(g) => if g.len() == 8 {
                Some(from_groups(g))
            } else {
                None
            },
            None => None,
        }
    } else {
        match (side_of(s.take(i), false), side_of(s.skip(i + 2), true)) {
            (Some(head), Some(tail)) => if head.len() + tail.len() <= 7 {
                Some(from_groups(head + zeros(8 - head.len() - tail.len()) + tail))
            } else {
                None
            },
            _ => None,
        }
    }
}

/// The IP address that a text stands for.
pub open spec fn ip_of(s: Text) -> Option<IpAddr> {
    match v4_of(s) {
        Some(n) => Some(IpAddr::V4(n as u32)),
        None => match v6_of(s) {
            Some(n) => Some(IpAddr::V6(n as u128)),
            None => None,
        },
    }
}

fn parse_octet(p: &str) -> (r: Option<u32>)
    ensures
        match r {
            Some(n) => n <= 255 && octet_of(p@) == Some(n as nat),
            None => octet_of(p@) is None,
        },
{
    let n = p.unicode_len();
    if n == 0 || n > 3 || (n > 1 && p.get_char(0) == '0') {
        return None;
    }
    if p.get_char(0) == '+' {
        return None;
    }
    match number::parse_unsigned(p, 255) {
        Ok(v) => Some(v as u32),
        Err(_) => None,
    }
}

fn parse_v4(s: &str) -> (r: Option<u32>)
    ensures
        match r {
            Some(n) => v4_of(s@) == Some(n as nat),
            None => v4_of(s@) is None,
        },
{
    let p = split::split(s, '.');
    let ghost t = split::pieces(s@, '.');
    assert(t.len() == p@.len());
    if p.len() != 4 {
        return None;
    }
    proof {
        assert(t[0] == p@[0]@);
        assert(t[1] == p@[1]@);
        assert(t[2] == p@[2]@);
        assert(t[3] == p@[3]@);
    }
    match (
        parse_octet(p[0].as_str()),
        parse_octet(p[1].as_str()),
        parse_octet(p[2].as_str()),
        parse_octet(p[3].as_str()),
    ) {
        (Some(a), Some(b), Some(c), Some(d)) => Some(((a * 256 + b) * 256 + c) * 256 + d),
        _ => None,
    }
}

fn hex_digit(c: char) -> (r: Option<u32>)
    ensures
        match r {
            Some(n) => n < 16 && hex_value(c) == Some(n as nat),
            None => hex_value(c) is None,
        },
{
    if '0' <= c && c <= '9' {
        Some(c as u32 - '0' as u32)
    } else if 'a' <= c && c <= 'f' {
        Some(c as u32 - 'a' as u32 + 10)
    } else if 'A' <= c && c <= 'F' {
        Some(c as u32 - 'A' as u32 + 10)
    } else {
        None
    }
}

proof fn lemma_hex_fails(p: Text, k: int)
    requires
        0 <= k <= p.len(),
        hex_of(p.take(k)) is None,
    ensures
        hex_of(p) is None,
    decreases p.len() - k,
{
    if k < p.len() {
        assert(p.take(k + 1).drop_last() =~= p.take(k));
        lemma_hex_fails(p, k + 1);
    } else {
        assert(p.take(k) =~= p);
    }
}

fn parse_group(p: &str) -> (r: Option<u32>)
    ensures
        match r {
            Some(n) => n <= 65535 && group_of(p@) == Some(n as nat),
            None => group_of(p@) is None,
        },
{
    let v = text::chars_of(p);
    if v.len() == 0 || v.len() > 4 {
        return None;
    }
    let mut n: u32 = 0;
    let mut bound: u32 = 1;
    let mut i: usize = 0;
    assert(v@.take(0) =~= Seq::<char>::empty());
    while i < v.len()
        invariant
            i <= v.len() <= 4,
            v@ == p@,
            hex_of(v@.take(i as int)) == Some(n as nat),
            n < bound,
            bound == (if i == 0 { 1u32 } else if i == 1 { 16 } else if i == 2 { 256 } else if i
                == 3 { 4096 } else { 65536 }),
        decreases v.len() - i,
    {
        proof {
            assert(v@.take(i + 1).drop_last() =~= v@.take(i as int));
            assert(v@.take(i + 1).last() == v@[i as int]);
        }
        match hex_digit(v[i]) {
            Some(d) => {
                n = n * 16 + d;
                bound = bound * 16;
            },
            None => {
                proof {
                    lemma_hex_fails(v@, i + 1);
                }
                return None;
            },
        }
        i += 1;
    }
    assert(v@.take(i as int) =~= v@);
    Some(n)
}

/// The models of a sequence of groups.
pub open spec fn nats(v: Seq<u32>) -> Seq<nat> {
    v.map_values(|x: u32| x as nat)
}

fn parse_side(s: &str, dotted: bool) -> (r: Option<Vec<u32>>)
    ensures
        match r {
            Some(v) => side_of(s@, dotted) == Some(nats(v@)) && forall|i: int|
                0 <= i < v@.len() ==> #[trigger] v@[i] <= 65535,
            None => side_of(s@, dotted) is None,
        },
{
    let mut out: Vec<u32> = Vec::new();
    if s.is_empty() {
        assert(nats(out@) =~= Seq::<nat>::empty());
        return Some(out);
    }
    let p = split::split(s, ':');
    let ghost t = split::pieces(s@, ':');
    let n = p.len();
    let mut i: usize = 0;
    proof {
        assert(t.len() == n);
        assert(t.take(0) =~= Seq::<Text>::empty());
        assert(nats(out@) =~= Seq::<nat>::empty());
    }
    while i < n
        invariant
            i <= n == p.len() == t.len(),
            n > 0,
            s@.len() > 0,
            t == text::texts(p@),
            t == split::pieces(s@, ':'),
            i < n ==> groups_of(t.take(i as int), false) == Some(nats(out@)),
            i == n ==> groups_of(t, dotted) == Some(nats(out@)),
            forall|k: int| 0 <= k < out@.len() ==> #[trigger] out@[k] <= 65535,
        decreases n - i,
    {
        let ghost before = out@;
        let ghost upto = t.take(i + 1);
        proof {
            assert(upto.drop_last() =~= t.take(i as int));
            assert(upto.last() == p@[i as int]@);
            if i + 1 == n {
                assert(upto =~= t);
            }
        }
        let last = i + 1 == n;
        if last && dotted {
            if let Some(a) = parse_v4(p[i].as_str()) {
                out.push(a / 65536);
                out.push(a % 65536);
                assert(nats(out@) =~= nats(before) + seq![a as nat / 65536, a as nat % 65536]);
                return Some(out);
            }
        }
        match parse_group(p[i].as_str()) {
            Some(g) => {
                out.push(g);
                assert(nats(out@) =~= nats(before) + seq![g as nat]);
            },
            None => {
                proof {
                    lemma_groups_fail(t, i + 1, dotted);
                }
                return None;
            },
        }
        i += 1;
    }
    Some(out)
}

/// Groups that fail at some piece fail as a whole.
proof fn lemma_groups_fail(t: Seq<Text>, k: int, dotted: bool)
    requires
        0 <= k <= t.len(),
        k < t.len() ==> groups_of(t.take(k), false) is None,
        k == t.len() ==> groups_of(t, dotted) is None,
    ensures
        groups_of(t, dotted) is None,
    decreases t.len() - k,
{
    if k < t.len() {
        assert(t.take(k + 1).drop_last() =~= t.take(k));
        if k + 1 == t.len() {
            assert(t.take(k + 1) =~= t);
        }
        lemma_groups_fail(t, k + 1, dotted);
    }
}

pub proof fn lemma_eight(g: Seq<nat>)
    requires
        g.len() == 8,
    ensures
        from_groups(g) == (((((((g[0] * 65536 + g[1]) * 65536 + g[2]) * 65536 + g[3]) * 65536
            + g[4]) * 65536 + g[5]) * 65536 + g[6]) * 65536 + g[7]),
{
    let g7 = g.drop_last();
    let g6 = g7.drop_last();
    let g5 = g6.drop_last();
    let g4 = g5.drop_last();
    let g3 = g4.drop_last();
    let g2 = g3.drop_last();
    let g1 = g2.drop_last();
    let g0 = g1.drop_last();
    assert(from_groups(g0) == 0);
    assert(from_groups(g1) == g[0]);
    assert(from_groups(g2) == g[0] * 65536 + g[1]);
    assert(from_groups(g3) == from_groups(g2) * 65536 + g[2]);
    assert(from_groups(g4) == from_groups(g3) * 65536 + g[3]);
    assert(from_groups(g5) == from_groups(g4) * 65536 + g[4]);
    assert(from_groups(g6) == from_groups(g5) * 65536 + g[5]);
    assert(from_groups(g7) == from_groups(g6) * 65536 + g[6]);
}

fn combine(g: &Vec<u32>) -> (r: u128)
    requires
        g@.len() == 8,
        forall|i: int| 0 <= i < 8 ==> #[trigger] g@[i] <= 65535,
    ensures
        r == from_groups(nats(g@)),
{
    proof {
        lemma_eight(nats(g@));
    }
    let a: u128 = g[0] as u128 * 65536 + g[1] as u128;
    let b: u128 = a * 65536 + g[2] as u128;
    let c: u128 = b * 65536 + g[3] as u128;
    let d: u128 = c * 65536 + g[4] as u128;
    let e: u128 = d * 65536 + g[5] as u128;
    let f: u128 = e * 65536 + g[6] as u128;
    f * 65536 + g[7] as u128
}

fn parse_v6(s: &str) -> (r: Option<u128>)
    ensures
        match r {
            Some(n) => v6_of(s@) == Some(n as nat),
            None => v6_of(s@) is None,
        },
{
    proof {
        reveal_strlit("::");
    }
    match find::position_of(s, "::") {
        None => match parse_side(s, true) {
            Some(g) => if g.len() == 8 {
                Some(combine(&g))
            } else {
                None
            },
            None => None,
        },
        Some(i) => {
            let n = s.unicode_len();
            let head = match parse_side(s.substring_char(0, i), false) {
                Some(h) => h,
                None => {
                    return None;
                },
            };
            let tail = match parse_side(s.substring_char(i + 2, n), true) {
                Some(t) => t,
                None => {
                    return None;
                },
            };
            if head.len() > 7 || tail.len() > 7 - head.len() {
                return None;
            }
            let ghost first = head@;
            let gap: usize = 8 - head.len() - tail.len();
            let mut g = head;
            let mut k: usize = 0;
            while k < gap
                invariant
                    k <= gap,
                    g@.len() == first.len() + k,
                    nats(g@) == nats(first) + zeros(k as int),
                    forall|j: int| 0 <= j < g@.len() ==> #[trigger] g@[j] <= 65535,
                decreases gap - k,
            {
                let ghost before = g@;
                g.push(0);
                k += 1;
                assert(nats(g@) =~= nats(first) + zeros(k as int)) by {
                    assert(nats(g@) =~= nats(before).push(0));
                }
            }
            let mut j: usize = 0;
            while j < tail.len()
                invariant
                    j <= tail.len(),
                    g@.len() == first.len() + gap + j,
                    nats(g@) == nats(first) + zeros(gap as int) + nats(tail@).take(j as int),
                    forall|i: int| 0 <= i < g@.len() ==> #[trigger] g@[i] <= 65535,
                    forall|i: int| 0 <= i < tail@.len() ==> #[trigger] tail@[i] <= 65535,
                decreases tail.len() - j,
            {
                let ghost before = g@;
                g.push(tail[j]);
                j += 1;
                assert(nats(g@) =~= nats(first) + zeros(gap as int) + nats(tail@).take(j as int))
                    by {
                    assert(nats(g@) =~= nats(before).push(tail@[j - 1] as nat));
                }
            }
            assert(nats(tail@).take(j as int) =~= nats(tail@));
            Some(combine(&g))
        },
    }
}

impl IpAddr {
    /// Reads an IP address.
    pub fn parse(s: &str) -> (r: Option<IpAddr>)
        ensures
            r == ip_of(s@),
    {
        match parse_v4(s) {
            Some(n) => Some(IpAddr::V4(n)),
            None => match parse_v6(s) {
                Some(n) => Some(IpAddr::V6(n)),
                None => None,
            },
        }
    }
}

/// An IPv4 address in dotted notation.
pub open spec fn v4_text(n: nat) -> Text {
    number::decimal(n / 16777216) + "."@ + number::decimal(n / 65536 % 256) + "."@
        + number::decimal(n / 256 % 256) + "."@ + number::decimal(n % 256)
}

/// The last `k` 16-bit groups of a number.
pub open spec fn to_groups(n: nat, k: nat) -> Seq<nat>
    decreases k,
{
    if k == 0 {
        Seq::empty()
    } else {
        to_groups(n / 65536, (k - 1) as nat).push(n % 65536)
    }
}

pub open spec fn hex_char(d: nat) -> char {
    if d < 10 {
        ('0' as u32 + d) as char
    } else {
        ('a' as u32 + d - 10) as char
    }
}

/// A number in hexadecimal notation, in small letters, without leading zeros.
pub open spec fn hexadecimal(n: nat) -> Text
    decreases n,
{
    if n < 16 {
        seq![hex_char(n)]
    } else {
        hexadecimal(n / 16).push(hex_char(n % 16))
    }
}

/// Groups in hexadecimal notation, with colons between them.
pub open spec fn groups_text(g: Seq<nat>) -> Text {
    text::joined(g.map_values(|x: nat| hexadecimal(x)), ":"@)
}

/// How many groups from `i` on are zero.
pub open spec fn zero_run(g: Seq<nat>, i: int) -> nat
    decreases g.len() - i,
{
    if i < 0 || i >= g.len() || g[i] != 0 {
        0
    } else {
        1 + zero_run(g, i + 1)
    }
}

/// The first of the longest runs of zero groups that start at `i` or later:
/// where it starts and how long it is.
pub open spec fn longest_run(g: Seq<nat>, i: int) -> (int, nat)
    decreases g.len() - i,
{
    if i >= g.len() {
        (i, 0)
    } else {
        let rest = longest_run(g, i + 1);
        if zero_run(g, i) >= rest.1 {
            (i, zero_run(g, i))
        } else {
            rest
        }
    }
}

/// An IPv6 address in its canonical notation: the first of the longest runs of
/// more than one zero group is written `::`, and an IPv4-mapped address ends
/// in dotted notation.
pub open spec fn v6_text(n: nat) -> Text {
    let g = to_groups(n, 8);
    let run = longest_run(g, 0);
    if n / 4294967296 == 65535 {
        "::ffff:"@ + v4_text(n % 4294967296)
    } else if run.1 > 1 {
        groups_text(g.take(run.0)) + "::"@ + groups_text(g.skip(run.0 + run.1))
    } else {
        groups_text(g)
    }
}

/// An IP address in its canonical notation.
pub open spec fn ip_text(ip: IpAddr) -> Text {
    match ip {
        IpAddr::V4(n) => v4_text(n as nat),
        IpAddr::V6(n) => v6_text(n as nat),
    }
}

fn show_v4(n: u32) -> (r: String)
    ensures
        r@ == v4_text(n as nat),
{
    let a = number::to_decimal((n / 16777216) as u64);
    let b = number::to_decimal((n / 65536 % 256) as u64);
    let c = number::to_decimal((n / 256 % 256) as u64);
    let d = number::to_decimal((n % 256) as u64);
    let mut r = text::cat5(a.as_str(), ".", b.as_str(), ".", c.as_str());
    r.append(".");
    r.append(d.as_str());
    r
}

fn show_hex(n: u32) -> (r: String)
    ensures
        r@ == hexadecimal(n as nat),
    decreases n,
{
    let d: u8 = (n % 16) as u8;
    let c = if d < 10 {
        ('0' as u8 + d) as char
    } else {
        ('a' as u8 + (d - 10)) as char
    };
    if n < 16 {
        let mut s = String::new();
        s.push(c);
        assert(s@ =~= seq![c]);
        s
    } else {
        let mut s = show_hex(n / 16);
        s.push(c);
        s
    }
}

fn show_groups(g: &Vec<u32>, from: usize, to: usize) -> (r: String)
    requires
        from <= to <= g.len(),
    ensures
        r@ == groups_text(nats(g@).subrange(from as int, to as int)),
{
    let mut parts: Vec<String> = Vec::new();
    let mut i: usize = from;
    while i < to
        invariant
            from <= i <= to <= g.len(),
            parts@.len() == i - from,
            forall|k: int|
                0 <= k < i - from ==> (#[trigger] parts@[k])@ == hexadecimal(g@[from + k] as nat),
        decreases to - i,
    {
        parts.push(show_hex(g[i]));
        i += 1;
    }
    assert(text::texts(parts@) =~= nats(g@).subrange(from as int, to as int).map_values(
        |x: nat| hexadecimal(x),
    ));
    text::join(&parts, ":")
}

fn split_groups(n: u128) -> (g: Vec<u32>)
    ensures
        nats(g@) == to_groups(n as nat, 8),
        g@.len() == 8,
{
    let n1: u128 = n / 65536;
    let n2: u128 = n1 / 65536;
    let n3: u128 = n2 / 65536;
    let n4: u128 = n3 / 65536;
    let n5: u128 = n4 / 65536;
    let n6: u128 = n5 / 65536;
    let n7: u128 = n6 / 65536;
    let mut g: Vec<u32> = Vec::new();
    g.push((n7 % 65536) as u32);
    g.push((n6 % 65536) as u32);
    g.push((n5 % 65536) as u32);
    g.push((n4 % 65536) as u32);
    g.push((n3 % 65536) as u32);
    g.push((n2 % 65536) as u32);
    g.push((n1 % 65536) as u32);
    g.push((n % 65536) as u32);
    proof {
        reveal_with_fuel(to_groups, 9);
        assert(nats(g@) =~= to_groups(n as nat, 8));
    }
    g
}

fn run_at(g: &Vec<u32>, i: usize) -> (r: usize)
    requires
        i <= g.len(),
    ensures
        r == zero_run(nats(g@), i as int),
        i + r <= g.len(),
    decreases g.len() - i,
{
    if i >= g.len() || g[i] != 0 {
        0
    } else {
        1 + run_at(g, i + 1)
    }
}

fn best_run(g: &Vec<u32>, i: usize) -> (r: (usize, usize))
    requires
        i <= g.len(),
    ensures
        r.0 == longest_run(nats(g@), i as int).0,
        r.1 == longest_run(nats(g@), i as int).1,
        r.0 + r.1 <= g.len(),
    decreases g.len() - i,
{
    if i >= g.len() {
        (i, 0)
    } else {
        let rest = best_run(g, i + 1);
        let here = run_at(g, i);
        if here >= rest.1 {
            (i, here)
        } else {
            rest
        }
    }
}

fn show_v6(n: u128) -> (r: String)
    ensures
        r@ == v6_text(n as nat),
{
    let g = split_groups(n);
    if n / 4294967296 == 65535 {
        let low = show_v4((n % 4294967296) as u32);
        return text::cat2("::ffff:", low.as_str());
    }
    let run = best_run(&g, 0);
    if run.1 > 1 {
        let head = show_groups(&g, 0, run.0);
        let tail = show_groups(&g, run.0 + run.1, g.len());
        text::cat3(head.as_str(), "::", tail.as_str())
    } else {
        assert(nats(g@).subrange(0, 8) =~= nats(g@));
        show_groups(&g, 0, g.len())
    }
}

impl IpAddr {
    /// The address in its canonical notation.
    pub fn show(self) -> (r: String)
        ensures
            r@ == ip_text(self),
    {
        match self {
            IpAddr::V4(n) => show_v4(n),
            IpAddr::V6(n) => show_v6(n),
        }
    }
}

/// What `ipnet::IpNet` reads from a text: whether the network is one of IPv6,
/// the address as a number, and the number of bits; `None` where the text is
/// no network.
pub uninterp spec fn read_net(s: Text) -> Option<(bool, u128, u8)>;

/// `ipnet::IpNet::from_str`. The result is named `read_net`; besides, an IPv4
/// address fits 32 bits and its prefix is at most 32, an IPv6 prefix at most
/// 128.
#[verifier::external_body]
fn parse_net(s: &str) -> (r: Option<(bool, u128, u8)>)
    ensures
        r == read_net(s@),
        r matches Some(n) ==> (if n.0 {
            n.2 <= 128
        } else {
            n.1 <= u32::MAX && n.2 <= 32
        }),
{
    match s.parse::<ipnet::IpNet>() {
        Ok(ipnet::IpNet::V4(n)) => Some((false, u32::from(n.addr()) as u128, n.prefix_len())),
        Ok(ipnet::IpNet::V6(n)) => Some((true, u128::from(n.addr()), n.prefix_len())),
        Err(_) => None,
    }
}

/// The network that a text stands for.
pub open spec fn net_of(s: Text) -> Option<IpNet> {
    match read_net(s) {
        Some(n) => if n.0 {
            Some(IpNet::V6(n.1, n.2))
        } else {
            Some(IpNet::V4(n.1 as u32, n.2))
        },
        None => None,
    }
}

/// Whether a network has no more bits in its prefix than its addresses have.
pub open spec fn net_wf(net: IpNet) -> bool {
    match net {
        IpNet::V4(_, p) => p <= 32,
        IpNet::V6(_, p) => p <= 128,
    }
}

/// Two to the power of `k`.
pub open spec fn pow2(k: nat) -> nat
    decreases k,
{
    if k == 0 {
        1
    } else {
        2 * pow2((k - 1) as nat)
    }
}

/// Whether an address belongs to a network: it is of the same family, and
/// agrees with the network's address in the first `prefix` bits.
pub open spec fn net_contains(net: IpNet, ip: IpAddr) -> bool {
    match (net, ip) {
        (IpNet::V4(a, p), IpAddr::V4(b)) => a as nat / pow2((32 - p) as nat) == b as nat / pow2(
            (32 - p) as nat,
        ),
        (IpNet::V6(a, p), IpAddr::V6(b)) => a as nat / pow2((128 - p) as nat) == b as nat / pow2(
            (128 - p) as nat,
        ),
        _ => false,
    }
}

/// Dividing by two `k` times is dividing by two to the power of `k`.
proof fn lemma_halve(n: nat, k: nat)
    ensures
        pow2(k) > 0,
        n / pow2(k + 1) == (n / pow2(k)) / 2,
    decreases k,
{
    lemma_pow2_positive(k);
    let d = pow2(k) as int;
    assert(pow2(k + 1) == 2 * pow2(k));
    vstd::arithmetic::div_mod::lemma_div_denominator(n as int, d, 2);
    assert(d * 2 == pow2(k + 1));
}

proof fn lemma_pow2_positive(k: nat)
    ensures
        pow2(k) > 0,
    decreases k,
{
    if k > 0 {
        lemma_pow2_positive((k - 1) as nat);
    }
}

fn top_bits(n: u128, low: u8) -> (r: u128)
    ensures
        r == n as nat / pow2(low as nat),
{
    let mut r: u128 = n;
    let mut k: u8 = 0;
    assert(n as nat / 1 == n);
    while k < low
        invariant
            k <= low,
            r == n as nat / pow2(k as nat),
        decreases low - k,
    {
        proof {
            lemma_halve(n as nat, k as nat);
        }
        r = r / 2;
        k += 1;
    }
    r
}

impl IpNet {
    /// Reads a network.
    pub fn parse(s: &str) -> (r: Option<IpNet>)
        ensures
            r == net_of(s@),
            r matches Some(n) ==> net_wf(n),
    {
        match parse_net(s) {
            Some((true, a, p)) => Some(IpNet::V6(a, p)),
            Some((false, a, p)) => Some(IpNet::V4(a as u32, p)),
            None => None,
        }
    }

    /// Whether an address belongs to the network.
    pub fn contains(&self, ip: &IpAddr) -> (r: bool)
        requires
            net_wf(*self),
        ensures
            r == net_contains(*self, *ip),
    {
        match (*self, *ip) {
            (IpNet::V4(a, p), IpAddr::V4(b)) => top_bits(a as u128, 32 - p) == top_bits(
                b as u128,
                32 - p,
            ),
            (IpNet::V6(a, p), IpAddr::V6(b)) => top_bits(a, 128 - p) == top_bits(b, 128 - p),
            _ => false,
        }
    }
}

/// The name of a family.
pub open spec fn family_text(f: IpFamily) -> Text {
    match f {
        IpFamily::Inet4 => "inet4"@,
        IpFamily::Inet6 => "inet6"@,
    }
}

impl IpFamily {
    /// `"inet4"` or `"inet6"`.
    pub fn as_str(self) -> (r: &'static str)
        ensures
            r@ == family_text(self),
    {
        match self {
            IpFamily::Inet4 => "inet4",
            IpFamily::Inet6 => "inet6",
        }
    }
}

/// The family of an address.
pub open spec fn family(ip: IpAddr) -> IpFamily {
    match ip {
        IpAddr::V4(_) => IpFamily::Inet4,
        IpAddr::V6(_) => IpFamily::Inet6,
    }
}

/// The family of an address.
pub fn family_of(ip: IpAddr) -> (r: IpFamily)
    ensures
        r == family(ip),
{
    match ip {
        IpAddr::V4(_) => IpFamily::Inet4,
        IpAddr::V6(_) => IpFamily::Inet6,
    }
}

/// The family of the address that a text stands for; IPv4 where it stands for
/// none.
pub open spec fn family_or_default(s: Text) -> IpFamily {
    match ip_of(s) {
        Some(ip) => family(ip),
        None => IpFamily::Inet4,
    }
}

/// The family of the address that a string stands for; IPv4 where it stands
/// for none.
pub fn family_of_or_default(s: &str) -> (r: IpFamily)
    ensures
        r == family_or_default(s@),
{
    match IpAddr::parse(s) {
        Some(ip) => family_of(ip),
        None => IpFamily::Inet4,
    }
}

/// One entry of a list of what is never to be banned.
#[derive(Debug)]
pub enum IgnoreEntry {
    /// A network.
    Net(IpNet),
    /// An address.
    Ip(IpAddr),
    /// Anything else, such as a host name or a failure ID.
    Raw(String),
}

/// The model of an entry.
pub enum IgnoreView {
    Net(IpNet),
    Ip(IpAddr),
    Raw(Text),
}

impl View for IgnoreEntry {
    type V = IgnoreView;

    open spec fn view(&self) -> IgnoreView {
        match *self {
            IgnoreEntry::Net(n) => IgnoreView::Net(n),
            IgnoreEntry::Ip(a) => IgnoreView::Ip(a),
            IgnoreEntry::Raw(s) => IgnoreView::Raw(s@),
        }
    }
}

/// The entry that a text stands for.
pub open spec fn entry_of(input: Text) -> Result<IgnoreView, ErrorView> {
    let s = trim::trimmed(input);
    if s.len() == 0 {
        Err(ErrorView::IpParse("empty entry"@))
    } else {
        match (net_of(s), ip_of(s)) {
            (Some(n), _) => Ok(IgnoreView::Net(n)),
            (None, Some(a)) => Ok(IgnoreView::Ip(a)),
            (None, None) => Ok(IgnoreView::Raw(s)),
        }
    }
}

/// Whether the prefix of a network entry fits its family.
pub open spec fn entry_wf(e: IgnoreView) -> bool {
    match e {
        IgnoreView::Net(n) => net_wf(n),
        _ => true,
    }
}

/// Whether an entry covers an address.
pub open spec fn entry_matches(e: IgnoreView, ip: IpAddr) -> bool {
    match e {
        IgnoreView::Net(n) => net_contains(n, ip),
        IgnoreView::Ip(a) => a == ip,
        IgnoreView::Raw(_) => false,
    }
}

/// Whether an entry is the raw text.
pub open spec fn entry_matches_raw(e: IgnoreView, raw: Text) -> bool {
    e == IgnoreView::Raw(raw)
}

/// A network as it is written.
pub open spec fn net_text(net: IpNet) -> Text {
    match net {
        IpNet::V4(addr, bits) => ip_text(IpAddr::V4(addr)) + "/"@ + number::decimal(bits as nat),
        IpNet::V6(addr, bits) => ip_text(IpAddr::V6(addr)) + "/"@ + number::decimal(bits as nat),
    }
}

/// An entry as it is written.
pub open spec fn entry_text(e: IgnoreView) -> Text {
    match e {
        IgnoreView::Net(n) => net_text(n),
        IgnoreView::Ip(a) => ip_text(a),
        IgnoreView::Raw(s) => s,
    }
}

impl IgnoreEntry {
    /// The entry as it is written.
    pub fn show(&self) -> (r: String)
        ensures
            r@ == entry_text(self@),
    {
        match self {
            IgnoreEntry::Net(n) => {
                let (addr, bits) = match n {
                    IpNet::V4(a, b) => (IpAddr::V4(*a), *b),
                    IpNet::V6(a, b) => (IpAddr::V6(*a), *b),
                };
                let a = addr.show();
                let b = number::to_decimal(bits as u64);
                text::cat3(a.as_str(), "/", b.as_str())
            },
            IgnoreEntry::Ip(a) => a.show(),
            IgnoreEntry::Raw(s) => s.clone(),
        }
    }

    /// Reads an entry.
    pub fn parse(s: &str) -> (r: Result<IgnoreEntry, Error>)
        ensures
            error::outcome(r) == entry_of(s@),
            r matches Ok(e) ==> entry_wf(e@),
    {
        let t = trim::trim(s);
        if t.is_empty() {
            return Err(Error::IpParse("empty entry".to_owned()));
        }
        if let Some(n) = IpNet::parse(t) {
            return Ok(IgnoreEntry::Net(n));
        }
        if let Some(a) = IpAddr::parse(t) {
            return Ok(IgnoreEntry::Ip(a));
        }
        Ok(IgnoreEntry::Raw(t.to_owned()))
    }

    /// Whether the entry covers an address.
    pub fn matches(&self, ip: &IpAddr) -> (r: bool)
        requires
            entry_wf(self@),
        ensures
            r == entry_matches(self@, *ip),
    {
        match self {
            IgnoreEntry::Net(n) => n.contains(ip),
            IgnoreEntry::Ip(a) => *a == *ip,
            IgnoreEntry::Raw(_) => false,
        }
    }

    /// Whether the entry is the raw text.
    pub fn matches_raw(&self, raw: &str) -> (r: bool)
        ensures
            r == entry_matches_raw(self@, raw@),
    {
        match self {
            IgnoreEntry::Raw(s) => text::same(s.as_str(), raw),
            _ => false,
        }
    }
}

/// A list of what is never to be banned.
#[derive(Debug)]
pub struct IgnoreList {
    entries: Vec<IgnoreEntry>,
}

impl Clone for IgnoreEntry {
    fn clone(&self) -> (r: IgnoreEntry)
        ensures
            r@ == self@,
    {
        match self {
            IgnoreEntry::Net(n) => IgnoreEntry::Net(*n),
            IgnoreEntry::Ip(a) => IgnoreEntry::Ip(*a),
            IgnoreEntry::Raw(s) => IgnoreEntry::Raw(s.clone()),
        }
    }
}

impl Clone for IgnoreList {
    fn clone(&self) -> (r: IgnoreList)
        ensures
            r@ == self@,
    {
        let mut entries: Vec<IgnoreEntry> = Vec::new();
        let mut i: usize = 0;
        while i < self.entries.len()
            invariant
                i <= self.entries.len(),
                entries@.len() == i,
                forall|k: int| 0 <= k < i ==> (#[trigger] entries@[k])@ == self.entries@[k]@,
            decreases self.entries.len() - i,
        {
            entries.push(self.entries[i].clone());
            i += 1;
        }
        let r = IgnoreList { entries };
        assert(r@ =~= self@);
        r
    }
}

impl View for IgnoreList {
    type V = Seq<IgnoreView>;

    closed spec fn view(&self) -> Seq<IgnoreView> {
        self.entries@.map_values(|e: IgnoreEntry| e@)
    }
}

/// Whether every network entry's prefix fits its family.
pub open spec fn list_wf(l: Seq<IgnoreView>) -> bool {
    forall|i: int| 0 <= i < l.len() ==> entry_wf(#[trigger] l[i])
}

/// Whether some entry covers the address.
pub open spec fn list_matches(l: Seq<IgnoreView>, ip: IpAddr) -> bool {
    exists|i: int| 0 <= i < l.len() && entry_matches(#[trigger] l[i], ip)
}

/// Whether some entry is the raw text.
pub open spec fn list_matches_raw(l: Seq<IgnoreView>, raw: Text) -> bool {
    exists|i: int| 0 <= i < l.len() && entry_matches_raw(#[trigger] l[i], raw)
}

/// The entries on the lines of a file from position `i` on, added to `acc`.
/// Empty lines and lines that start with `#` hold none.
pub open spec fn file_entries(lines: Seq<Text>, i: int, acc: Seq<IgnoreView>) -> Result<
    Seq<IgnoreView>,
    ErrorView,
>
    decreases lines.len() - i,
{
    if i >= lines.len() {
        Ok(acc)
    } else {
        let t = trim::trimmed(lines[i]);
        if t.len() == 0 || t[0] == '#' {
            file_entries(lines, i + 1, acc)
        } else {
            match entry_of(t) {
                Ok(e) => file_entries(lines, i + 1, acc.push(e)),
                Err(e) => Err(e),
            }
        }
    }
}

/// The list with the entries of a file added to it.
pub open spec fn with_file(files: Seq<SourceView>, path: Text, acc: Seq<IgnoreView>) -> Result<
    Seq<IgnoreView>,
    StopView,
> {
    match files::known(files, path) {
        None => Err(StopView::Need(path)),
        Some(f) => match f.content {
            Err(m) => Err(
                StopView::Failed(
                    ErrorView::IpParse("loading ignoreip file "@ + path + ": "@ + m),
                ),
            ),
            Ok(c) => match file_entries(split::lines_of(c), 0, acc) {
                Ok(l) => Ok(l),
                Err(e) => Err(StopView::Failed(e)),
            },
        },
    }
}

/// The entries that items from position `i` on stand for, added to `acc`. An
/// item `file:` with a path stands for the entries of that file.
pub open spec fn item_entries(
    files: Seq<SourceView>,
    items: Seq<Text>,
    i: int,
    acc: Seq<IgnoreView>,
) -> Result<Seq<IgnoreView>, StopView>
    decreases items.len() - i,
{
    if i >= items.len() {
        Ok(acc)
    } else {
        match find::after_prefix(items[i], "file:"@) {
            Some(path) => match with_file(files, path, acc) {
                Ok(l) => item_entries(files, items, i + 1, l),
                Err(s) => Err(s),
            },
            None => match entry_of(items[i]) {
                Ok(e) => item_entries(files, items, i + 1, acc.push(e)),
                Err(e) => Err(StopView::Failed(e)),
            },
        }
    }
}

/// The list that a text stands for: items between white space and commas.
pub open spec fn ignore_list_of(s: Text, files: Seq<SourceView>) -> Result<
    Seq<IgnoreView>,
    StopView,
> {
    item_entries(files, split::items(s, true), 0, Seq::empty())
}

impl IgnoreList {
    /// A list without entries.
    pub fn new() -> (r: IgnoreList)
        ensures
            r@ == Seq::<IgnoreView>::empty(),
            list_wf(r@),
    {
        let r = IgnoreList { entries: Vec::new() };
        assert(r@ =~= Seq::<IgnoreView>::empty());
        r
    }

    /// Adds an entry.
    pub fn push(&mut self, entry: IgnoreEntry)
        ensures
            final(self)@ == old(self)@.push(entry@),
    {
        let ghost before = self@;
        self.entries.push(entry);
        assert(self@ =~= before.push(entry@));
    }

    /// Adds the entries of a file, one to a line. What is returned is why it
    /// stopped; the list is of use only where it did not.
    pub fn load_file(&mut self, path: &str, files: &FileSet) -> (r: Option<Stop>)
        requires
            list_wf(old(self)@),
        ensures
            with_file(files@, path@, old(self)@) == (match r {
                Some(s) => Err::<Seq<IgnoreView>, StopView>(s@),
                None => Ok(final(self)@),
            }),
            list_wf(final(self)@),
    {
        let content = match files.find(path) {
            None => {
                return Some(Stop::Need(path.to_owned()));
            },
            Some(f) => match &f.content {
                Err(m) => {
                    return Some(
                        Stop::Failed(
                            Error::IpParse(
                                text::cat4("loading ignoreip file ", path, ": ", m.as_str()),
                            ),
                        ),
                    );
                },
                Ok(c) => c,
            },
        };
        let lines = split::lines(content.as_str());
        let ghost all = text::texts(lines@);
        let ghost start = self@;
        let mut i: usize = 0;
        while i < lines.len()
            invariant
                i <= lines.len(),
                start == old(self)@,
                all == text::texts(lines@),
                with_file(files@, path@, start) == (match file_entries(all, 0, start) {
                    Ok(l) => Ok::<Seq<IgnoreView>, StopView>(l),
                    Err(e) => Err(StopView::Failed(e)),
                }),
                list_wf(self@),
                file_entries(all, 0, start) == file_entries(all, i as int, self@),
            decreases lines.len() - i,
        {
            assert(all[i as int] == lines@[i as int]@);
            let line = trim::trim(lines[i].as_str());
            i += 1;
            if line.is_empty() || line.get_char(0) == '#' {
                continue;
            }
            match IgnoreEntry::parse(line) {
                Ok(e) => {
                    self.push(e);
                },
                Err(e) => {
                    return Some(Stop::Failed(e));
                },
            }
        }
        None
    }

    /// Reads a list.
    pub fn parse(s: &str, files: &FileSet) -> (r: Result<IgnoreList, Stop>)
        ensures
            files::answer(r) == ignore_list_of(s@, files@),
            r matches Ok(l) ==> list_wf(l@),
    {
        let items = split::split_items(s, true);
        let ghost all = text::texts(items@);
        let mut list = IgnoreList::new();
        let mut i: usize = 0;
        while i < items.len()
            invariant
                i <= items.len(),
                all == text::texts(items@),
                list_wf(list@),
                ignore_list_of(s@, files@) == item_entries(files@, all, i as int, list@),
            decreases items.len() - i,
        {
            assert(all[i as int] == items@[i as int]@);
            match find::strip_prefix(items[i].as_str(), "file:") {
                Some(path) => {
                    if let Some(stop) = list.load_file(path, files) {
                        return Err(stop);
                    }
                },
                None => match IgnoreEntry::parse(items[i].as_str()) {
                    Ok(e) => {
                        list.push(e);
                    },
                    Err(e) => {
                        return Err(Stop::Failed(e));
                    },
                },
            }
            i += 1;
        }
        Ok(list)
    }

    /// Whether some entry covers the address.
    pub fn matches_ip(&self, ip: &IpAddr) -> (r: bool)
        requires
            list_wf(self@),
        ensures
            r == list_matches(self@, *ip),
    {
        let mut i: usize = 0;
        while i < self.entries.len()
            invariant
                i <= self.entries.len(),
                list_wf(self@),
                forall|k: int| 0 <= k < i ==> !entry_matches(#[trigger] self@[k], *ip),
            decreases self.entries.len() - i,
        {
            assert(self@[i as int] == self.entries@[i as int]@);
            if self.entries[i].matches(ip) {
                return true;
            }
            i += 1;
        }
        false
    }

    /// Whether some entry is the raw text.
    pub fn matches_raw(&self, raw: &str) -> (r: bool)
        ensures
            r == list_matches_raw(self@, raw@),
    {
        let mut i: usize = 0;
        while i < self.entries.len()
            invariant
                i <= self.entries.len(),
                forall|k: int| 0 <= k < i ==> !entry_matches_raw(#[trigger] self@[k], raw@),
            decreases self.entries.len() - i,
        {
            assert(self@[i as int] == self.entries@[i as int]@);
            if self.entries[i].matches_raw(raw) {
                return true;
            }
            i += 1;
        }
        false
    }

    /// The entries.
    pub fn iter(&self) -> (r: &Vec<IgnoreEntry>)
        ensures
            r@.map_values(|e: IgnoreEntry| e@) == self@,
    {
        &self.entries
    }

    /// The number of entries.
    pub fn len(&self) -> (n: usize)
        ensures
            n == self@.len(),
    {
        self.entries.len()
    }

    /// Whether there are no entries.
    pub fn is_empty(&self) -> (r: bool)
        ensures
            r == (self@.len() == 0),
    {
        self.entries.len() == 0
    }
}

impl Default for IgnoreList {
    fn default() -> (r: IgnoreList)
        ensures
            r@ == Seq::<IgnoreView>::empty(),
    {
        IgnoreList::new()
    }
}

/// A network holds the addresses that agree with its own in the leading bits.
pub proof fn law_network_prefix(a: u32, b: u32, x: u128, y: u128)
    ensures
        net_contains(IpNet::V4(a, 0), IpAddr::V4(b)),
        net_contains(IpNet::V4(a, 8), IpAddr::V4(b)) <==> a / 0x100_0000 == b / 0x100_0000,
        net_contains(IpNet::V4(a, 16), IpAddr::V4(b)) <==> a / 0x1_0000 == b / 0x1_0000,
        net_contains(IpNet::V4(a, 24), IpAddr::V4(b)) <==> a / 0x100 == b / 0x100,
        net_contains(IpNet::V4(a, 32), IpAddr::V4(b)) <==> a == b,
        net_contains(IpNet::V6(x, 128), IpAddr::V6(y)) <==> x == y,
        net_contains(IpNet::V6(x, 112), IpAddr::V6(y)) <==> x / 0x1_0000 == y / 0x1_0000,
        !net_contains(IpNet::V4(a, 0), IpAddr::V6(y)),
        !net_contains(IpNet::V6(x, 0), IpAddr::V4(b)),
{
    assert(pow2(0) == 1);
    reveal_with_fuel(pow2, 9);
    assert(pow2(8) == 0x100);
    assert(pow2(16) == 0x1_0000);
    assert(pow2(24) == 0x100_0000);
    assert(pow2(32) == 0x1_0000_0000);
    assert(a as nat / pow2(32) == 0 && b as nat / pow2(32) == 0);
    assert(a as nat / pow2(0) == a && b as nat / pow2(0) == b);
    assert(x as nat / pow2(0) == x && y as nat / pow2(0) == y);
}

/// One bit less holds twice the addresses: a longer prefix is never wider.
pub proof fn law_longer_prefix_is_narrower(a: u32, b: u32, x: u128, y: u128, p: u8)
    ensures
        p < 32 && net_contains(IpNet::V4(a, (p + 1) as u8), IpAddr::V4(b)) ==> net_contains(
            IpNet::V4(a, p),
            IpAddr::V4(b),
        ),
        p < 128 && net_contains(IpNet::V6(x, (p + 1) as u8), IpAddr::V6(y)) ==> net_contains(
            IpNet::V6(x, p),
            IpAddr::V6(y),
        ),
        p < 128 ==> pow2((128 - p) as nat) == 2 * pow2((127 - p) as nat),
{
    if p < 32 {
        lemma_halve(a as nat, (31 - p) as nat);
        lemma_halve(b as nat, (31 - p) as nat);
    }
    if p < 128 {
        lemma_halve(x as nat, (127 - p) as nat);
        lemma_halve(y as nat, (127 - p) as nat);
    }
}

/// An entry is a network, an address or a name, whichever it can be read as
/// first; white space around it does not count, and an empty one is an error.
pub proof fn law_ignore_entry(s: Text, n: IpNet, a: IpAddr)
    requires
        s.len() > 0,
        !trim::is_space(s[0]),
        !trim::is_space(s.last()),
    ensures
        net_of(s) == Some(n) ==> entry_of(s) == Ok::<IgnoreView, ErrorView>(IgnoreView::Net(n)),
        net_of(s) is None && ip_of(s) == Some(a) ==> entry_of(s) == Ok::<IgnoreView, ErrorView>(
            IgnoreView::Ip(a),
        ),
        net_of(s) is None && ip_of(s) is None ==> entry_of(s) == Ok::<IgnoreView, ErrorView>(
            IgnoreView::Raw(s),
        ),
        entry_of(" "@ + s + " "@) == entry_of(s),
        entry_of(Seq::empty()) == Err::<IgnoreView, ErrorView>(ErrorView::IpParse("empty entry"@)),
{
    reveal_strlit(" ");
    let e = Seq::<char>::empty();
    trim::law_trimmed(e, s, e);
    assert(e + s + e =~= s);
    trim::law_trimmed(" "@, s, " "@);
    trim::law_trimmed(e, e, e);
    assert(e + e + e =~= e);
}

/// What is ignored: the addresses of a network, an address itself, and a name
/// itself; a list ignores what one of its entries ignores.
pub proof fn law_what_is_ignored(
    l: Seq<IgnoreView>,
    e: IgnoreView,
    n: IpNet,
    a: IpAddr,
    b: IpAddr,
    s: Text,
    t: Text,
)
    ensures
        entry_matches(IgnoreView::Net(n), a) <==> net_contains(n, a),
        entry_matches(IgnoreView::Ip(b), a) <==> a == b,
        !entry_matches(IgnoreView::Raw(s), a),
        entry_matches_raw(IgnoreView::Raw(s), t) <==> s == t,
        !entry_matches_raw(IgnoreView::Ip(b), t),
        !entry_matches_raw(IgnoreView::Net(n), t),
        !list_matches(Seq::empty(), a),
        !list_matches_raw(Seq::empty(), t),
        list_matches(l.push(e), a) <==> list_matches(l, a) || entry_matches(e, a),
        list_matches_raw(l.push(e), t) <==> list_matches_raw(l, t) || entry_matches_raw(e, t),
{
    let m = l.push(e);
    assert(m[l.len() as int] == e);
    assert forall|i: int| 0 <= i < l.len() implies m[i] == l[i] by {}
    if list_matches(l, a) {
        let i = choose|i: int| 0 <= i < l.len() && entry_matches(#[trigger] l[i], a);
        assert(entry_matches(m[i], a));
    }
    if list_matches_raw(l, t) {
        let i = choose|i: int| 0 <= i < l.len() && entry_matches_raw(#[trigger] l[i], t);
        assert(entry_matches_raw(m[i], t));
    }
    if list_matches(m, a) {
        let i = choose|i: int| 0 <= i < m.len() && entry_matches(#[trigger] m[i], a);
        if i < l.len() {
            assert(entry_matches(l[i], a));
        }
    }
    if list_matches_raw(m, t) {
        let i = choose|i: int| 0 <= i < m.len() && entry_matches_raw(#[trigger] m[i], t);
        if i < l.len() {
            assert(entry_matches_raw(l[i], t));
        }
    }
}

/// The entries of a list are read in turn: `file:` brings the entries of a
/// file, where empty lines and those that begin with `#` do not count.
pub proof fn law_entries_in_turn(
    files: Seq<SourceView>,
    items: Seq<Text>,
    i: int,
    acc: Seq<IgnoreView>,
    e: IgnoreView,
    path: Text,
    content: Text,
)
    requires
        0 <= i < items.len(),
    ensures
        !find::starts(items[i], "file:"@) && entry_of(items[i]) == Ok::<IgnoreView, ErrorView>(e)
            ==> item_entries(files, items, i, acc) == item_entries(
            files,
            items,
            i + 1,
            acc.push(e),
        ),
        items[i] == "file:"@ + path ==> (match with_file(files, path, acc) {
            Ok(l) => item_entries(files, items, i, acc) == item_entries(files, items, i + 1, l),
            Err(s) => item_entries(files, items, i, acc) == Err::<Seq<IgnoreView>, StopView>(s),
        }),
        item_entries(files, items, items.len() as int, acc) == Ok::<Seq<IgnoreView>, StopView>(acc),
        files::known(files, path) is None ==> with_file(files, path, acc) == Err::<
            Seq<IgnoreView>,
            StopView,
        >(StopView::Need(path)),
        trim::trimmed(items[i]).len() == 0 || trim::trimmed(items[i])[0] == '#' ==> file_entries(
            items,
            i,
            acc,
        ) == file_entries(items, i + 1, acc),
        trim::trimmed(items[i]).len() > 0 && trim::trimmed(items[i])[0] != '#' && entry_of(
            trim::trimmed(items[i]),
        ) == Ok::<IgnoreView, ErrorView>(e) ==> file_entries(items, i, acc) == file_entries(
            items,
            i + 1,
            acc.push(e),
        ),
        file_entries(items, items.len() as int, acc) == Ok::<Seq<IgnoreView>, ErrorView>(acc),
{
    reveal_strlit("file:");
    find::law_prefix_and_suffix("file:"@, path);
}

/// An entry is shown as it is written: a network with its prefix, an address,
/// a name.
pub proof fn law_entries_are_shown(a: u32, x: u128, p: u8, s: Text)
    ensures
        entry_text(IgnoreView::Net(IpNet::V4(a, p))) == ip_text(IpAddr::V4(a)) + "/"@
            + number::decimal(p as nat),
        entry_text(IgnoreView::Net(IpNet::V6(x, p))) == ip_text(IpAddr::V6(x)) + "/"@
            + number::decimal(p as nat),
        entry_text(IgnoreView::Ip(IpAddr::V4(a))) == ip_text(IpAddr::V4(a)),
        entry_text(IgnoreView::Raw(s)) == s,
        family_text(family(IpAddr::V4(a))) == "inet4"@,
        family_text(family(IpAddr::V6(x))) == "inet6"@,
{
}

/// What is no address is taken for IPv4.
pub proof fn law_family_of_text(s: Text, a: u32, x: u128)
    ensures
        ip_of(s) == Some(IpAddr::V4(a)) ==> family_or_default(s) == IpFamily::Inet4,
        ip_of(s) == Some(IpAddr::V6(x)) ==> family_or_default(s) == IpFamily::Inet6,
        ip_of(s) is None ==> family_or_default(s) == IpFamily::Inet4,
{
}

} // verus!
