//! IP addresses survive being written and read again.

use crate::ip;
use crate::ip::{IgnoreView, IpAddr, IpNet};
use crate::text;
use crate::text::find;
use crate::text::number;
use crate::text::split;
use crate::text::Text;
use vstd::prelude::*;

verus! {

/// A piece, the character that ends it, and more.
proof fn lemma_first_piece(a: Text, c: char, rest: Text)
    requires
        !a.contains(c),
    ensures
        split::pieces(a + seq![c] + rest, c) == seq![a] + split::pieces(rest, c),
{
    let s = a + seq![c] + rest;
    let n: int = a.len() as int;
    assert forall|k: int| 0 <= k < n implies s[k] != c by {
        assert(s[k] == a[k]);
    }
    find::lemma_find_at(s, c, n);
    assert(s.take(n) =~= a);
    assert(s.skip(n + 1) =~= rest);
}

/// A text without the character is a piece of its own.
proof fn lemma_only_piece(a: Text, c: char)
    requires
        !a.contains(c),
    ensures
        split::pieces(a, c) == seq![a],
{
    find::lemma_find(a, c);
}

/// Decimal notation holds digits only.
proof fn lemma_decimal_has_no(n: nat, c: char)
    requires
        !text::is_digit(c),
    ensures
        !number::decimal(n).contains(c),
{
    number::lemma_decimal_digits(n);
}

/// A byte survives being written and read again.
proof fn lemma_octet(n: nat)
    requires
        n < 256,
    ensures
        ip::octet_of(number::decimal(n)) == Some(n),
{
    number::lemma_decimal_digits(n);
    number::lemma_decimal_read(n, 255);
    reveal_with_fuel(number::decimal, 4);
    if n < 10 {
    } else if n < 100 {
        assert(number::decimal(n / 10).len() == 1);
    } else {
        assert(number::decimal(n / 100).len() == 1);
        assert(n / 10 / 10 == n / 100);
        assert(number::decimal(n / 10).len() == 2);
    }
}

/// Four texts with dots between them.
pub open spec fn dotted(a: Text, b: Text, c: Text, d: Text) -> Text {
    a + "."@ + b + "."@ + c + "."@ + d
}

/// Four texts without dots come apart at the dots between them.
proof fn lemma_dotted_pieces(a: Text, b: Text, c: Text, d: Text)
    requires
        !a.contains('.'),
        !b.contains('.'),
        !c.contains('.'),
        !d.contains('.'),
    ensures
        split::pieces(dotted(a, b, c, d), '.') == seq![a, b, c, d],
{
    reveal_strlit(".");
    let dot = seq!['.'];
    assert("."@ =~= dot);
    assert(dotted(a, b, c, d) =~= a + dot + (b + dot + (c + dot + d)));
    lemma_first_piece(a, '.', b + dot + (c + dot + d));
    lemma_first_piece(b, '.', c + dot + d);
    lemma_first_piece(c, '.', d);
    lemma_only_piece(d, '.');
    assert(split::pieces(dotted(a, b, c, d), '.') =~= seq![a, b, c, d]);
}

/// A character that is in neither of two texts is not in both together.
proof fn lemma_not_in_both(a: Text, b: Text, x: char)
    requires
        !a.contains(x),
        !b.contains(x),
    ensures
        !(a + b).contains(x),
{
    assert forall|i: int| 0 <= i < (a + b).len() implies (a + b)[i] != x by {
        if i < a.len() {
            assert((a + b)[i] == a[i]);
        } else {
            assert((a + b)[i] == b[i - a.len()]);
        }
    }
}

proof fn lemma_dotted_without(a: Text, b: Text, c: Text, d: Text, x: char)
    requires
        x != '.',
        !a.contains(x),
        !b.contains(x),
        !c.contains(x),
        !d.contains(x),
    ensures
        !dotted(a, b, c, d).contains(x),
{
    reveal_strlit(".");
    assert(!"."@.contains(x)) by {
        assert("."@ =~= seq!['.']);
    }
    lemma_not_in_both(a, "."@, x);
    lemma_not_in_both(a + "."@, b, x);
    lemma_not_in_both(a + "."@ + b, "."@, x);
    lemma_not_in_both(a + "."@ + b + "."@, c, x);
    lemma_not_in_both(a + "."@ + b + "."@ + c, "."@, x);
    lemma_not_in_both(a + "."@ + b + "."@ + c + "."@, d, x);
}

/// The bytes of a 32-bit number make it up.
proof fn lemma_bytes(n: nat)
    requires
        n <= u32::MAX,
    ensures
        n / 16777216 < 256,
        ((n / 16777216 * 256 + n / 65536 % 256) * 256 + n / 256 % 256) * 256 + n % 256 == n,
{
    assert(n / 65536 == (n / 16777216) * 256 + n / 65536 % 256);
    assert(n / 256 == (n / 65536) * 256 + n / 256 % 256);
    assert(n == (n / 256) * 256 + n % 256);
}

/// An IPv4 address survives being written and read again.
proof fn lemma_v4(n: nat)
    requires
        n <= u32::MAX,
    ensures
        ip::v4_of(ip::v4_text(n)) == Some(n),
        !ip::v4_text(n).contains(':'),
        ip::v4_text(n).len() > 0,
{
    lemma_bytes(n);
    let a = number::decimal(n / 16777216);
    let b = number::decimal(n / 65536 % 256);
    let c = number::decimal(n / 256 % 256);
    let d = number::decimal(n % 256);
    lemma_decimal_has_no(n / 16777216, '.');
    lemma_decimal_has_no(n / 65536 % 256, '.');
    lemma_decimal_has_no(n / 256 % 256, '.');
    lemma_decimal_has_no(n % 256, '.');
    lemma_decimal_has_no(n / 16777216, ':');
    lemma_decimal_has_no(n / 65536 % 256, ':');
    lemma_decimal_has_no(n / 256 % 256, ':');
    lemma_decimal_has_no(n % 256, ':');
    lemma_dotted_pieces(a, b, c, d);
    lemma_dotted_without(a, b, c, d, ':');
    number::lemma_decimal_digits(n / 16777216);
    assert(ip::v4_text(n) == dotted(a, b, c, d));
    lemma_octet(n / 16777216);
    lemma_octet(n / 65536 % 256);
    lemma_octet(n / 256 % 256);
    lemma_octet(n % 256);
}

/// The value of the character of a hexadecimal digit is the digit.
proof fn lemma_hex_digit(d: nat)
    requires
        d < 16,
    ensures
        ip::hex_value(ip::hex_char(d)) == Some(d),
        ip::hex_char(d) != ':',
        ip::hex_char(d) != '.',
{
}

/// A number survives being written and read in hexadecimal notation.
proof fn lemma_hexadecimal(n: nat)
    ensures
        ip::hex_of(ip::hexadecimal(n)) == Some(n),
        ip::hexadecimal(n).len() > 0,
        !ip::hexadecimal(n).contains(':'),
        !ip::hexadecimal(n).contains('.'),
    decreases n,
{
    let h = ip::hexadecimal(n);
    if n < 16 {
        lemma_hex_digit(n);
        assert(h.drop_last() =~= Seq::<char>::empty());
        reveal_with_fuel(ip::hex_of, 2);
    } else {
        lemma_hexadecimal(n / 16);
        lemma_hex_digit(n % 16);
        let t = ip::hexadecimal(n / 16);
        assert(h.drop_last() =~= t);
        assert forall|i: int| 0 <= i < h.len() implies h[i] != ':' && h[i] != '.' by {
            if i < t.len() {
                assert(h[i] == t[i]);
            }
        }
    }
}

/// A 16-bit group survives being written and read again.
proof fn lemma_group(n: nat)
    requires
        n < 65536,
    ensures
        ip::group_of(ip::hexadecimal(n)) == Some(n),
{
    lemma_hexadecimal(n);
    reveal_with_fuel(ip::hexadecimal, 5);
    if n >= 16 {
        if n >= 256 {
            assert(n / 16 / 16 == n / 256);
            if n >= 4096 {
                assert(n / 256 / 16 == n / 4096);
            }
        }
    }
    assert(ip::hexadecimal(n).len() <= 4);
}

/// Texts that are joined start with the first of them.
proof fn lemma_joined_front(parts: Seq<Text>, sep: Text)
    requires
        parts.len() >= 2,
    ensures
        text::joined(parts, sep) == parts[0] + sep + text::joined(parts.drop_first(), sep),
    decreases parts.len(),
{
    let front = parts.drop_last();
    let back = parts.drop_first();
    if parts.len() == 2 {
        reveal_with_fuel(text::joined, 3);
        assert(front[0] == parts[0]);
        assert(back[0] == parts[1]);
    } else {
        lemma_joined_front(front, sep);
        assert(front.drop_first() =~= back.drop_last());
        assert(back.last() == parts.last());
        assert(text::joined(parts, sep) =~= parts[0] + sep + text::joined(back, sep));
    }
}

/// Whether a text holds no colon and is not empty.
pub open spec fn is_plain(p: Text) -> bool {
    p.len() > 0 && !p.contains(':') && !p.contains('.')
}

/// Texts that are joined with colons come apart at the colons.
proof fn lemma_joined_pieces(parts: Seq<Text>)
    requires
        parts.len() > 0,
        forall|i: int| 0 <= i < parts.len() ==> is_plain(#[trigger] parts[i]),
    ensures
        split::pieces(text::joined(parts, ":"@), ':') == parts,
    decreases parts.len(),
{
    reveal_strlit(":");
    assert(":"@ =~= seq![':']);
    assert(is_plain(parts[0]));
    if parts.len() == 1 {
        lemma_only_piece(parts[0], ':');
        assert(seq![parts[0]] =~= parts);
    } else {
        let back = parts.drop_first();
        assert forall|i: int| 0 <= i < back.len() implies is_plain(#[trigger] back[i]) by {
            assert(back[i] == parts[i + 1]);
        }
        lemma_joined_front(parts, ":"@);
        lemma_joined_pieces(back);
        lemma_first_piece(parts[0], ':', text::joined(back, ":"@));
        assert(seq![parts[0]] + back =~= parts);
    }
}

/// Whether a text has no two colons next to each other, none at its ends, and
/// no dot.
pub open spec fn is_tame(s: Text) -> bool {
    &&& forall|i: int| 0 <= i < s.len() - 1 ==> !(#[trigger] s[i] == ':' && s[i + 1] == ':')
    &&& s.len() > 0 ==> s[0] != ':' && s.last() != ':'
    &&& !s.contains('.')
}

proof fn lemma_joined_tame(parts: Seq<Text>)
    requires
        forall|i: int| 0 <= i < parts.len() ==> is_plain(#[trigger] parts[i]),
    ensures
        is_tame(text::joined(parts, ":"@)),
        parts.len() > 0 ==> text::joined(parts, ":"@).len() > 0,
    decreases parts.len(),
{
    reveal_strlit(":");
    assert(":"@ =~= seq![':']);
    let s = text::joined(parts, ":"@);
    if parts.len() > 0 {
        let last = parts.last();
        assert(is_plain(last));
        if parts.len() == 1 {
            assert(s == last);
            assert forall|i: int| 0 <= i < s.len() - 1 implies !(#[trigger] s[i] == ':' && s[i + 1]
                == ':') by {
                assert(last[i] != ':');
            }
        } else {
            let front = parts.drop_last();
            assert forall|i: int| 0 <= i < front.len() implies is_plain(#[trigger] front[i]) by {
                assert(front[i] == parts[i]);
            }
            lemma_joined_tame(front);
            let f = text::joined(front, ":"@);
            assert(s == f + ":"@ + last);
            let n = f.len() as int;
            assert forall|i: int| 0 <= i < s.len() - 1 implies !(#[trigger] s[i] == ':' && s[i + 1]
                == ':') by {
                if i < n - 1 {
                    assert(s[i] == f[i] && s[i + 1] == f[i + 1]);
                } else if i == n - 1 {
                    assert(s[i] == f.last());
                } else {
                    assert(s[i + 1] == last[i - n]);
                }
            }
            assert(s[0] == f[0]);
            assert(s.last() == last.last());
            assert forall|i: int| 0 <= i < s.len() implies s[i] != '.' by {
                if i < n {
                    assert(s[i] == f[i]);
                } else if i > n {
                    assert(s[i] == last[i - n - 1]);
                }
            }
        }
    }
}

/// A text without two colons next to each other has no double colon.
proof fn lemma_no_double(s: Text)
    requires
        forall|i: int| 0 <= i < s.len() - 1 ==> !(#[trigger] s[i] == ':' && s[i + 1] == ':'),
    ensures
        find::find_text(s, "::"@) == -1,
    decreases s.len(),
{
    reveal_strlit("::");
    if find::starts(s, "::"@) {
        assert(s.take(2)[0] == ':' && s.take(2)[1] == ':');
        assert(s[0] == ':' && s[1] == ':');
    }
    if s.len() > 0 {
        let t = s.drop_first();
        assert forall|i: int| 0 <= i < t.len() - 1 implies !(#[trigger] t[i] == ':' && t[i + 1]
            == ':') by {
            assert(t[i] == s[i + 1] && t[i + 1] == s[i + 2]);
        }
        lemma_no_double(t);
    }
}

/// The first double colon stands behind a text that has none and does not end
/// in a colon.
proof fn lemma_double_at(a: Text, b: Text)
    requires
        forall|i: int| 0 <= i < a.len() - 1 ==> !(#[trigger] a[i] == ':' && a[i + 1] == ':'),
        a.len() > 0 ==> a.last() != ':',
    ensures
        find::find_text(a + "::"@ + b, "::"@) == a.len(),
    decreases a.len(),
{
    reveal_strlit("::");
    let s = a + "::"@ + b;
    if a.len() == 0 {
        assert(s.take(2) =~= "::"@);
    } else {
        if find::starts(s, "::"@) {
            assert(s.take(2)[0] == ':' && s.take(2)[1] == ':');
            assert(s[0] == a[0]);
            if a.len() == 1 {
                assert(a[0] == a.last());
            } else {
                assert(s[1] == a[1]);
                assert(!(a[0] == ':' && a[1] == ':'));
            }
        }
        let t = a.drop_first();
        assert forall|i: int| 0 <= i < t.len() - 1 implies !(#[trigger] t[i] == ':' && t[i + 1]
            == ':') by {
            assert(t[i] == a[i + 1] && t[i + 1] == a[i + 2]);
        }
        if t.len() > 0 {
            assert(t.last() == a.last());
        }
        lemma_double_at(t, b);
        assert(s.drop_first() =~= t + "::"@ + b);
    }
}

/// Whether all groups have at most 16 bits.
pub open spec fn are_groups(g: Seq<nat>) -> bool {
    forall|i: int| 0 <= i < g.len() ==> #[trigger] g[i] < 65536
}

proof fn lemma_hex_plain(g: Seq<nat>)
    ensures
        ({
            let p = g.map_values(|x: nat| ip::hexadecimal(x));
            forall|i: int| 0 <= i < p.len() ==> is_plain(#[trigger] p[i])
        }),
{
    let p = g.map_values(|x: nat| ip::hexadecimal(x));
    assert forall|i: int| 0 <= i < p.len() implies is_plain(#[trigger] p[i]) by {
        lemma_hexadecimal(g[i]);
    }
}

/// Groups survive being written and read one by one.
proof fn lemma_groups_read(g: Seq<nat>, dotted_end: bool)
    requires
        are_groups(g),
    ensures
        ip::groups_of(g.map_values(|x: nat| ip::hexadecimal(x)), dotted_end) == Some(g),
    decreases g.len(),
{
    let p = g.map_values(|x: nat| ip::hexadecimal(x));
    if g.len() > 0 {
        let front = g.drop_last();
        assert forall|i: int| 0 <= i < front.len() implies #[trigger] front[i] < 65536 by {
            assert(front[i] == g[i]);
        }
        lemma_groups_read(front, false);
        assert(p.drop_last() =~= front.map_values(|x: nat| ip::hexadecimal(x)));
        let last = g.last();
        assert(g[g.len() - 1] < 65536);
        assert(p.last() == ip::hexadecimal(last));
        lemma_hexadecimal(last);
        lemma_group(last);
        lemma_only_piece(ip::hexadecimal(last), '.');
        assert(ip::v4_of(p.last()) is None);
        assert(front + seq![last] =~= g);
    } else {
        assert(g =~= Seq::<nat>::empty());
    }
}

/// One side of an IPv6 address survives being written and read.
proof fn lemma_side(g: Seq<nat>, dotted_end: bool)
    requires
        are_groups(g),
    ensures
        ip::side_of(ip::groups_text(g), dotted_end) == Some(g),
        is_tame(ip::groups_text(g)),
{
    let p = g.map_values(|x: nat| ip::hexadecimal(x));
    lemma_hex_plain(g);
    lemma_joined_tame(p);
    if g.len() > 0 {
        lemma_joined_pieces(p);
        lemma_groups_read(g, dotted_end);
    } else {
        assert(g =~= Seq::<nat>::empty());
    }
}

/// 65536 to the power of `k`.
pub open spec fn radix(k: nat) -> nat
    decreases k,
{
    if k == 0 {
        1
    } else {
        65536 * radix((k - 1) as nat)
    }
}

/// The groups of a number make it up.
proof fn lemma_groups_make_up(n: nat, k: nat)
    requires
        n < radix(k),
    ensures
        ip::from_groups(ip::to_groups(n, k)) == n,
        ip::to_groups(n, k).len() == k,
        are_groups(ip::to_groups(n, k)),
    decreases k,
{
    if k > 0 {
        let r = radix((k - 1) as nat);
        assert(n / 65536 < r) by (nonlinear_arith)
            requires
                n < 65536 * r,
        ;
        lemma_groups_make_up(n / 65536, (k - 1) as nat);
        let t = ip::to_groups(n / 65536, (k - 1) as nat);
        let g = ip::to_groups(n, k);
        assert(g.drop_last() =~= t);
        assert forall|i: int| 0 <= i < g.len() implies #[trigger] g[i] < 65536 by {
            if i < t.len() {
                assert(g[i] == t[i]);
            }
        }
    }
}

/// A run of zero groups holds zeros.
proof fn lemma_zero_run(g: Seq<nat>, i: int)
    requires
        0 <= i <= g.len(),
    ensures
        i + ip::zero_run(g, i) <= g.len(),
        forall|k: int| i <= k < i + ip::zero_run(g, i) ==> #[trigger] g[k] == 0,
    decreases g.len() - i,
{
    if i < g.len() && g[i] == 0 {
        lemma_zero_run(g, i + 1);
    }
}

proof fn lemma_longest_run(g: Seq<nat>, i: int)
    requires
        0 <= i <= g.len(),
    ensures
        ({
            let r = ip::longest_run(g, i);
            &&& i <= r.0
            &&& r.0 + r.1 <= g.len()
            &&& forall|k: int| r.0 <= k < r.0 + r.1 ==> #[trigger] g[k] == 0
        }),
    decreases g.len() - i,
{
    if i < g.len() {
        lemma_longest_run(g, i + 1);
        lemma_zero_run(g, i);
    }
}

proof fn lemma_radix8()
    ensures
        radix(8) == 0x1_0000_0000_0000_0000_0000_0000_0000_0000,
{
    reveal_with_fuel(radix, 9);
}

/// A text without dots is no IPv4 address.
proof fn lemma_no_dots(s: Text)
    requires
        !s.contains('.'),
    ensures
        ip::v4_of(s) is None,
{
    lemma_only_piece(s, '.');
}

/// An IPv6 address that is not mapped from IPv4 survives being written and
/// read again.
proof fn lemma_v6_plain(n: nat)
    requires
        n < radix(8),
        n / 4294967296 != 65535,
    ensures
        ip::v6_of(ip::v6_text(n)) == Some(n),
        ip::v4_of(ip::v6_text(n)) is None,
{
    reveal_strlit("::");
    let g = ip::to_groups(n, 8);
    lemma_groups_make_up(n, 8);
    lemma_longest_run(g, 0);
    let run = ip::longest_run(g, 0);
    let s = ip::v6_text(n);
    if run.1 > 1 {
        let head = g.take(run.0);
        let tail = g.skip(run.0 + run.1);
        assert forall|i: int| 0 <= i < head.len() implies #[trigger] head[i] < 65536 by {
            assert(head[i] == g[i]);
        }
        assert forall|i: int| 0 <= i < tail.len() implies #[trigger] tail[i] < 65536 by {
            assert(tail[i] == g[run.0 + run.1 + i]);
        }
        lemma_side(head, false);
        lemma_side(tail, true);
        let a = ip::groups_text(head);
        let b = ip::groups_text(tail);
        lemma_double_at(a, b);
        let i = a.len() as int;
        assert(s.take(i) =~= a);
        assert(s.skip(i + 2) =~= b);
        assert(head + ip::zeros(8 - head.len() - tail.len()) + tail =~= g);
        lemma_not_in_both(a, "::"@, '.');
        lemma_not_in_both(a + "::"@, b, '.');
    } else {
        lemma_side(g, true);
        lemma_no_double(s);
    }
    lemma_no_dots(s);
}

/// What an IPv6 address that is mapped from IPv4 is written with.
proof fn lemma_mapped_tail(m: nat)
    requires
        m <= u32::MAX,
    ensures
        ip::side_of("ffff:"@ + ip::v4_text(m), true) == Some(seq![65535nat, m / 65536, m % 65536]),
{
    reveal_strlit("ffff:");
    let t = ip::v4_text(m);
    lemma_v4(m);
    let f = seq!['f', 'f', 'f', 'f'];
    let s = "ffff:"@ + t;
    assert(s =~= f + seq![':'] + t);
    assert(!f.contains(':'));
    lemma_first_piece(f, ':', t);
    lemma_only_piece(t, ':');
    let p = split::pieces(s, ':');
    assert(p =~= seq![f, t]);
    assert(p.drop_last() =~= seq![f]);
    assert(seq![f].drop_last() =~= Seq::<Text>::empty());
    assert(ip::hex_of(f) == Some(65535nat)) by {
        reveal_with_fuel(ip::hex_of, 5);
        assert(f.drop_last() =~= seq!['f', 'f', 'f']);
        assert(f.drop_last().drop_last() =~= seq!['f', 'f']);
        assert(f.drop_last().drop_last().drop_last() =~= seq!['f']);
        assert(f.drop_last().drop_last().drop_last().drop_last() =~= Seq::<char>::empty());
    }
    reveal_with_fuel(ip::groups_of, 3);
    let r = ip::groups_of(p, true);
    assert(ip::groups_of(seq![f], false) == Some(Seq::<nat>::empty() + seq![65535nat]));
    assert(r->0 =~= seq![65535nat, m / 65536, m % 65536]);
}

/// An IPv6 address that is mapped from IPv4 survives being written and read
/// again.
proof fn lemma_v6_mapped(n: nat)
    requires
        n / 4294967296 == 65535,
    ensures
        ip::v6_of(ip::v6_text(n)) == Some(n),
        ip::v4_of(ip::v6_text(n)) is None,
{
    reveal_strlit("::ffff:");
    reveal_strlit("ffff:");
    reveal_strlit("::");
    let m = n % 4294967296;
    let t = ip::v4_text(m);
    let s = ip::v6_text(n);
    lemma_v4(m);
    let none = Seq::<char>::empty();
    assert(s =~= none + "::"@ + ("ffff:"@ + t));
    lemma_double_at(none, "ffff:"@ + t);
    assert(s.take(0) =~= none);
    assert(s.skip(2) =~= "ffff:"@ + t);
    lemma_mapped_tail(m);
    let tail = seq![65535nat, m / 65536, m % 65536];
    let g = Seq::<nat>::empty() + ip::zeros(5) + tail;
    lemma_mapped_sum(m);
    assert(ip::from_groups(g) == n);
    let a = number::decimal(m / 16777216);
    let b = number::decimal(m / 65536 % 256);
    let c = number::decimal(m / 256 % 256);
    let d = number::decimal(m % 256);
    let x = "::ffff:"@ + a;
    assert(s =~= dotted(x, b, c, d));
    lemma_decimal_has_no(m / 16777216, '.');
    lemma_decimal_has_no(m / 65536 % 256, '.');
    lemma_decimal_has_no(m / 256 % 256, '.');
    lemma_decimal_has_no(m % 256, '.');
    lemma_not_in_both("::ffff:"@, a, '.');
    lemma_dotted_pieces(x, b, c, d);
}

proof fn lemma_mapped_sum(m: nat)
    requires
        m < 4294967296,
    ensures
        ip::from_groups(
            Seq::<nat>::empty() + ip::zeros(5) + seq![65535nat, m / 65536, m % 65536],
        ) == 65535 * 4294967296 + m,
{
    let z = ip::zeros(5);
    let g3 = Seq::<nat>::empty() + z + seq![65535nat, m / 65536, m % 65536];
    let g2 = z.push(65535).push(m / 65536);
    let g1 = z.push(65535);
    assert(g3.drop_last() =~= g2);
    assert(g2.drop_last() =~= g1);
    assert(g1.drop_last() =~= z);
    lemma_zeros(5);
    assert(ip::from_groups(g1) == 65535);
    assert(ip::from_groups(g2) == 65535 * 65536 + m / 65536);
    assert(ip::from_groups(g3) == (65535 * 65536 + m / 65536) * 65536 + m % 65536);
}

proof fn lemma_zeros(k: int)
    requires
        k >= 0,
    ensures
        ip::from_groups(ip::zeros(k)) == 0,
    decreases k,
{
    if k > 0 {
        lemma_zeros(k - 1);
        assert(ip::zeros(k).drop_last() =~= ip::zeros(k - 1));
    }
}

/// Reading what an address is written as gives the address back.
pub proof fn law_written_address_is_read_back(a: IpAddr)
    ensures
        ip::ip_of(ip::ip_text(a)) == Some(a),
{
    match a {
        IpAddr::V4(n) => {
            lemma_v4(n as nat);
        },
        IpAddr::V6(n) => {
            lemma_radix8();
            if n as nat / 4294967296 == 65535 {
                lemma_v6_mapped(n as nat);
            } else {
                lemma_v6_plain(n as nat);
            }
        },
    }
}

/// No two addresses are written alike.
pub proof fn law_addresses_are_written_apart(a: IpAddr, b: IpAddr)
    requires
        ip::ip_text(a) == ip::ip_text(b),
    ensures
        a == b,
{
    law_written_address_is_read_back(a);
    law_written_address_is_read_back(b);
}

/// A network contains its own address, and no address of the other family.
pub proof fn law_network_contains_its_address(net: IpNet, other: IpAddr)
    ensures
        match net {
            IpNet::V4(a, _) => ip::net_contains(net, IpAddr::V4(a)) && (other is V6
                ==> !ip::net_contains(net, other)),
            IpNet::V6(a, _) => ip::net_contains(net, IpAddr::V6(a)) && (other is V4
                ==> !ip::net_contains(net, other)),
        },
{
}

/// An address that a list names, or that belongs to a network that the list
/// names, matches the list.
pub proof fn law_listed_address_matches(l: Seq<IgnoreView>, i: int, a: IpAddr)
    requires
        0 <= i < l.len(),
        l[i] == IgnoreView::Ip(a) || (l[i] matches IgnoreView::Net(n) && ip::net_contains(n, a)),
    ensures
        ip::list_matches(l, a),
{
    assert(ip::entry_matches(l[i], a));
}

/// Four numbers with dots between them are an IPv4 address, the first number
/// the highest; and so the address is written.
pub proof fn law_dotted_address(a: nat, b: nat, c: nat, d: nat)
    requires
        a < 256,
        b < 256,
        c < 256,
        d < 256,
    ensures
        ({
            let s = number::decimal(a) + "."@ + number::decimal(b) + "."@ + number::decimal(c) + "."@
                + number::decimal(d);
            let n = (a * 16777216 + b * 65536 + c * 256 + d) as u32;
            ip::ip_of(s) == Some(IpAddr::V4(n)) && ip::ip_text(IpAddr::V4(n)) == s
        }),
{
    lemma_octet(a);
    lemma_octet(b);
    lemma_octet(c);
    lemma_octet(d);
    lemma_decimal_has_no(a, '.');
    lemma_decimal_has_no(b, '.');
    lemma_decimal_has_no(c, '.');
    lemma_decimal_has_no(d, '.');
    lemma_dotted_pieces(
        number::decimal(a),
        number::decimal(b),
        number::decimal(c),
        number::decimal(d),
    );
    let n = a * 16777216 + b * 65536 + c * 256 + d;
    assert(n / 16777216 == a);
    assert(n / 65536 == a * 256 + b);
    assert(n / 65536 % 256 == b);
    assert(n / 256 == a * 65536 + b * 256 + c);
    assert(n / 256 % 256 == c);
    assert(n % 256 == d);
}

/// Eight groups of hexadecimal digits with colons between them are an IPv6
/// address, the first group the highest.
pub proof fn law_eight_groups(g: Seq<nat>)
    requires
        g.len() == 8,
        are_groups(g),
    ensures
        ip::ip_of(text::joined(g.map_values(|x: nat| ip::hexadecimal(x)), ":"@)) == Some(
            IpAddr::V6(
                (((((((g[0] * 65536 + g[1]) * 65536 + g[2]) * 65536 + g[3]) * 65536 + g[4]) * 65536
                    + g[5]) * 65536 + g[6]) * 65536 + g[7]) as u128,
            ),
        ),
{
    let s = ip::groups_text(g);
    lemma_side(g, true);
    lemma_no_double(s);
    lemma_no_dots(s);
    ip::lemma_eight(g);
}

/// Two colons stand for as many groups of zero as are missing.
pub proof fn law_double_colon(head: Seq<nat>, tail: Seq<nat>)
    requires
        are_groups(head),
        are_groups(tail),
        head.len() + tail.len() <= 7,
    ensures
        ({
            let whole = head + Seq::new((8 - head.len() - tail.len()) as nat, |i: int| 0nat) + tail;
            let left = text::joined(head.map_values(|x: nat| ip::hexadecimal(x)), ":"@);
            let right = text::joined(tail.map_values(|x: nat| ip::hexadecimal(x)), ":"@);
            ip::ip_of(left + "::"@ + right) == ip::ip_of(
                text::joined(whole.map_values(|x: nat| ip::hexadecimal(x)), ":"@),
            )
        }),
{
    reveal_strlit("::");
    let whole = head + ip::zeros(8 - head.len() - tail.len()) + tail;
    assert(whole =~= head + Seq::new((8 - head.len() - tail.len()) as nat, |i: int| 0nat) + tail);
    let left = ip::groups_text(head);
    let right = ip::groups_text(tail);
    let s = left + "::"@ + right;
    assert(are_groups(whole));
    law_eight_groups(whole);
    lemma_side(head, false);
    lemma_side(tail, true);
    lemma_double_at(left, right);
    assert(s.take(left.len() as int) =~= left);
    assert(s.skip(left.len() as int + 2) =~= right);
    assert(!s.contains('.')) by {
        if s.contains('.') {
            let i = choose|i: int| 0 <= i < s.len() && s[i] == '.';
            if i < left.len() {
                assert(left.contains(left[i]));
            } else if i >= left.len() + 2 {
                assert(right.contains(right[i - left.len() - 2]));
            }
        }
    }
    lemma_no_dots(s);
    ip::lemma_eight(whole);
}

/// A hexadecimal number is written with the digits from `0` to `f`, and is
/// read in upper and lower case.
pub proof fn law_hexadecimal(n: nat, d: nat)
    requires
        n > 0,
        d < 16,
    ensures
        ip::hexadecimal(d) == seq!["0123456789abcdef"@[d as int]],
        ip::hexadecimal(n * 16 + d) == ip::hexadecimal(n).push("0123456789abcdef"@[d as int]),
        ip::hex_of(ip::hexadecimal(n)) == Some(n),
        ip::hex_value("0123456789abcdef"@[d as int]) == Some(d),
        ip::hex_value("0123456789ABCDEF"@[d as int]) == Some(d),
{
    reveal_strlit("0123456789abcdef");
    reveal_strlit("0123456789ABCDEF");
    let s = "0123456789abcdef"@;
    let t = "0123456789ABCDEF"@;
    assert(s[0] == '0' && s[1] == '1' && s[2] == '2' && s[3] == '3' && s[4] == '4' && s[5] == '5'
        && s[6] == '6' && s[7] == '7' && s[8] == '8' && s[9] == '9' && s[10] == 'a' && s[11] == 'b'
        && s[12] == 'c' && s[13] == 'd' && s[14] == 'e' && s[15] == 'f');
    assert(t[0] == '0' && t[1] == '1' && t[2] == '2' && t[3] == '3' && t[4] == '4' && t[5] == '5'
        && t[6] == '6' && t[7] == '7' && t[8] == '8' && t[9] == '9' && t[10] == 'A' && t[11] == 'B'
        && t[12] == 'C' && t[13] == 'D' && t[14] == 'E' && t[15] == 'F');
    assert((n * 16 + d) / 16 == n);
    assert((n * 16 + d) % 16 == d);
    lemma_hexadecimal(n);
}

} // verus!
