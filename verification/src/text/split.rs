//! Taking texts apart: at a character, into items, into lines.

use crate::text;
use crate::text::find;
use crate::text::trim;
use crate::text::Text;
use vstd::prelude::*;

verus! {

/// The pieces between the characters `c`; always at least one.
pub open spec fn pieces(s: Text, c: char) -> Seq<Text>
    decreases s.len(),
    via pieces_shrink
{
    let i = find::find(s, c);
    if i < s.len() {
        seq![s.take(i)] + pieces(s.skip(i + 1), c)
    } else {
        seq![s]
    }
}

#[via_fn]
proof fn pieces_shrink(s: Text, c: char) {
    find::lemma_find(s, c);
}

/// Whether a character stands between two items: white space, and where
/// `comma` holds a comma too.
pub open spec fn is_break(c: char, comma: bool) -> bool {
    trim::is_space(c) || (comma && c == ',')
}

/// How many characters the text starts with before the first break.
pub open spec fn item_len(s: Text, comma: bool) -> nat
    decreases s.len(),
{
    if s.len() == 0 || is_break(s[0], comma) {
        0
    } else {
        1 + item_len(s.drop_first(), comma)
    }
}

/// The items of a text: its longest runs of characters without a break.
pub open spec fn items(s: Text, comma: bool) -> Seq<Text>
    decreases s.len(),
    via items_shrink
{
    if s.len() == 0 {
        Seq::empty()
    } else if is_break(s[0], comma) {
        items(s.drop_first(), comma)
    } else {
        let n = item_len(s, comma) as int;
        seq![s.take(n)] + items(s.skip(n), comma)
    }
}

#[via_fn]
proof fn items_shrink(s: Text, comma: bool) {
    lemma_item_len(s, comma);
}

/// The text without one character `c` at its end.
pub open spec fn chopped(s: Text, c: char) -> Text {
    if s.len() > 0 && s.last() == c {
        s.drop_last()
    } else {
        s
    }
}

/// The lines of a text, without the line breaks (`\n` or `\r\n`) that end
/// them. No empty line follows a line break at the very end.
pub open spec fn lines_of(s: Text) -> Seq<Text>
    decreases s.len(),
    via lines_shrink
{
    let i = find::find(s, '\n');
    if s.len() == 0 {
        Seq::empty()
    } else if i < s.len() {
        seq![chopped(s.take(i), '\r')] + lines_of(s.skip(i + 1))
    } else {
        seq![s]
    }
}

#[via_fn]
proof fn lines_shrink(s: Text) {
    find::lemma_find(s, '\n');
}

/// The texts without white space at their ends, and without those that are
/// then empty.
pub open spec fn tidied(parts: Seq<Text>) -> Seq<Text>
    decreases parts.len(),
{
    if parts.len() == 0 {
        Seq::empty()
    } else {
        let t = trim::trimmed(parts.last());
        if t.len() == 0 {
            tidied(parts.drop_last())
        } else {
            tidied(parts.drop_last()).push(t)
        }
    }
}

pub proof fn lemma_item_len(s: Text, comma: bool)
    ensures
        item_len(s, comma) <= s.len(),
        s.len() > 0 && !is_break(s[0], comma) ==> item_len(s, comma) > 0,
        forall|i: int| 0 <= i < item_len(s, comma) ==> !is_break(s[i], comma),
        item_len(s, comma) < s.len() ==> is_break(s[item_len(s, comma) as int], comma),
    decreases s.len(),
{
    if s.len() > 0 && !is_break(s[0], comma) {
        let t = s.drop_first();
        lemma_item_len(t, comma);
        assert forall|i: int| 0 <= i < item_len(s, comma) implies !is_break(s[i], comma) by {
            if i > 0 {
                assert(s[i] == t[i - 1]);
            }
        }
    }
}

/// Whether a text is one item: not empty, and without a break.
pub open spec fn is_item(s: Text, comma: bool) -> bool {
    s.len() > 0 && forall|i: int| 0 <= i < s.len() ==> !is_break(#[trigger] s[i], comma)
}

/// An item that a break follows, or nothing, is the first item of a text; the
/// others are those of what comes after it.
pub proof fn law_item_comes_first(w: Text, rest: Text, comma: bool)
    requires
        is_item(w, comma),
        rest.len() > 0 ==> is_break(rest[0], comma),
    ensures
        items(w + rest, comma) == seq![w] + items(rest, comma),
{
    let s = w + rest;
    lemma_item_len(s, comma);
    let n = item_len(s, comma) as int;
    if n < w.len() {
        assert(s[n] == w[n]);
    }
    if n > w.len() {
        assert(s[w.len() as int] == rest[0]);
    }
    assert(s[0] == w[0]);
    assert(s.take(n) =~= w);
    assert(s.skip(n) =~= rest);
}

/// A break at the start of a text makes no item.
pub proof fn law_break_makes_no_item(c: char, rest: Text, comma: bool)
    requires
        is_break(c, comma),
    ensures
        items(seq![c] + rest, comma) == items(rest, comma),
{
    assert((seq![c] + rest).drop_first() =~= rest);
}

/// Every item of a text is not empty and without a break.
pub proof fn law_items_are_items(s: Text, comma: bool)
    ensures
        forall|i: int|
            0 <= i < items(s, comma).len() ==> is_item(#[trigger] items(s, comma)[i], comma),
    decreases s.len(),
{
    if s.len() == 0 {
        assert(items(s, comma).len() == 0);
    } else {
        lemma_item_len(s, comma);
        if is_break(s[0], comma) {
            law_items_are_items(s.drop_first(), comma);
            assert(items(s, comma) == items(s.drop_first(), comma));
        } else {
            let n = item_len(s, comma) as int;
            law_items_are_items(s.skip(n), comma);
            let r = items(s, comma);
            let t = items(s.skip(n), comma);
            assert forall|i: int| 0 <= i < r.len() implies is_item(#[trigger] r[i], comma) by {
                if i > 0 {
                    assert(r[i] == t[i - 1]);
                } else {
                    let w = s.take(n);
                    assert(r[0] == w);
                    assert forall|j: int| 0 <= j < w.len() implies !is_break(
                        #[trigger] w[j],
                        comma,
                    ) by {
                        assert(!is_break(s[j], comma));
                    }
                }
            }
        }
    }
}

/// The string's pieces between the characters `c`.
pub fn split(s: &str, c: char) -> (r: Vec<String>)
    ensures
        text::texts(r@) == pieces(s@, c),
        r@.len() > 0,
{
    let v = text::chars_of(s);
    let mut out: Vec<String> = Vec::new();
    let mut i: usize = 0;
    proof {
        assert(v@.skip(0) =~= v@);
        assert(text::texts(out@) + pieces(s@, c) =~= pieces(s@, c));
    }
    loop
        invariant
            i <= v.len(),
            v@ == s@,
            text::texts(out@) + pieces(v@.skip(i as int), c) == pieces(s@, c),
        decreases v.len() - i,
    {
        let j = find::find_from(&v, i, c);
        let ghost t = v@.skip(i as int);
        let ghost before = out@;
        let piece = text::string_of(&v, i, j);
        out.push(piece);
        proof {
            text::lemma_texts_push(before, piece);
            assert(t.take(j - i) =~= piece@);
        }
        if j == v.len() {
            proof {
                assert(t =~= piece@);
                assert(text::texts(out@) =~= text::texts(before) + seq![piece@]);
            }
            return out;
        }
        proof {
            assert(t.skip(j - i + 1) =~= v@.skip(j + 1));
            assert(text::texts(out@) + pieces(v@.skip(j + 1), c) =~= text::texts(before) + pieces(
                t,
                c,
            ));
        }
        i = j + 1;
    }
}

fn breaks(c: char, comma: bool) -> (r: bool)
    ensures
        r == is_break(c, comma),
{
    trim::space(c) || (comma && c == ',')
}

/// The string's items, separated by white space, and where `comma` holds by
/// commas too.
pub fn split_items(s: &str, comma: bool) -> (r: Vec<String>)
    ensures
        text::texts(r@) == items(s@, comma),
{
    let v = text::chars_of(s);
    let mut out: Vec<String> = Vec::new();
    let mut i: usize = 0;
    proof {
        assert(v@.skip(0) =~= v@);
        assert(text::texts(out@) + items(s@, comma) =~= items(s@, comma));
    }
    while i < v.len()
        invariant
            i <= v.len(),
            v@ == s@,
            text::texts(out@) + items(v@.skip(i as int), comma) == items(s@, comma),
        decreases v.len() - i,
    {
        let ghost t = v@.skip(i as int);
        proof {
            text::lemma_skip_step(v@, i as int);
            lemma_item_len(t, comma);
        }
        if breaks(v[i], comma) {
            i += 1;
        } else {
            let ghost before = out@;
            let mut j: usize = i;
            proof {
                assert(v@.skip(j as int) == t);
            }
            while j < v.len() && !breaks(v[j], comma)
                invariant
                    i <= j <= v.len(),
                    t == v@.skip(i as int),
                    item_len(t, comma) == j - i + item_len(v@.skip(j as int), comma),
                decreases v.len() - j,
            {
                proof {
                    text::lemma_skip_step(v@, j as int);
                }
                j += 1;
            }
            let item = text::string_of(&v, i, j);
            out.push(item);
            proof {
                text::lemma_texts_push(before, item);
                assert(t.take(j - i) =~= item@);
                assert(t.skip(j - i) =~= v@.skip(j as int));
                assert(text::texts(out@) + items(v@.skip(j as int), comma) =~= text::texts(before)
                    + items(t, comma));
            }
            i = j;
        }
    }
    proof {
        assert(v@.skip(i as int) =~= Seq::<char>::empty());
        assert(text::texts(out@) + Seq::<Text>::empty() =~= text::texts(out@));
    }
    out
}

/// The string's lines.
pub fn lines(s: &str) -> (r: Vec<String>)
    ensures
        text::texts(r@) == lines_of(s@),
{
    let v = text::chars_of(s);
    let mut out: Vec<String> = Vec::new();
    let mut i: usize = 0;
    proof {
        assert(v@.skip(0) =~= v@);
        assert(text::texts(out@) + lines_of(s@) =~= lines_of(s@));
    }
    while i < v.len()
        invariant
            i <= v.len(),
            v@ == s@,
            text::texts(out@) + lines_of(v@.skip(i as int)) == lines_of(s@),
        decreases v.len() - i,
    {
        let j = find::find_from(&v, i, '\n');
        let ghost t = v@.skip(i as int);
        let ghost before = out@;
        let mut e: usize = j;
        if j < v.len() && j > i && v[j - 1] == '\r' {
            e = j - 1;
        }
        let line = text::string_of(&v, i, e);
        out.push(line);
        proof {
            text::lemma_texts_push(before, line);
            if j < v.len() {
                let u = t.take(j - i);
                if j > i {
                    assert(u.last() == v@[j - 1]);
                }
                assert(chopped(u, '\r') =~= line@);
                assert(t.skip(j - i + 1) =~= v@.skip(j + 1));
                assert(text::texts(out@) + lines_of(v@.skip(j + 1)) =~= text::texts(before)
                    + lines_of(t));
            } else {
                assert(t =~= line@);
                assert(v@.skip(v.len() as int) =~= Seq::<char>::empty());
                assert(text::texts(out@) + Seq::<Text>::empty() =~= text::texts(before) + seq![
                    line@,
                ]);
            }
        }
        i = if j < v.len() {
            j + 1
        } else {
            j
        };
    }
    proof {
        assert(v@.skip(i as int) =~= Seq::<char>::empty());
        assert(text::texts(out@) + Seq::<Text>::empty() =~= text::texts(out@));
    }
    out
}

/// The strings without white space at their ends, and without those that are
/// then empty.
pub fn tidy(parts: &Vec<String>) -> (r: Vec<String>)
    ensures
        text::texts(r@) == tidied(text::texts(parts@)),
{
    let mut out: Vec<String> = Vec::new();
    let mut i: usize = 0;
    proof {
        assert(text::texts(parts@).take(0) =~= Seq::empty());
        assert(text::texts(out@) =~= Seq::empty());
    }
    while i < parts.len()
        invariant
            i <= parts.len(),
            text::texts(out@) == tidied(text::texts(parts@).take(i as int)),
        decreases parts.len() - i,
    {
        proof {
            let t = text::texts(parts@);
            assert(t.take(i + 1).drop_last() =~= t.take(i as int));
            assert(t.take(i + 1).last() == parts@[i as int]@);
        }
        let t = trim::trim(parts[i].as_str());
        if !t.is_empty() {
            let ghost before = out@;
            let item = t.to_owned();
            out.push(item);
            proof {
                text::lemma_texts_push(before, item);
            }
        }
        i += 1;
    }
    assert(text::texts(parts@).take(i as int) =~= text::texts(parts@));
    out
}

/// A separator ends a piece.
pub proof fn law_pieces(a: Text, c: char, b: Text)
    requires
        !a.contains(c),
    ensures
        pieces(a.push(c) + b, c) == seq![a] + pieces(b, c),
        pieces(a, c) == seq![a],
{
    let s = a.push(c) + b;
    find::law_cut(a, c, b);
    find::lemma_find(s, c);
    find::lemma_find(a, c);
    let n = find::find(s, c);
    assert(s.take(n) == a);
    assert(s.skip(n + 1) == b);
}

/// A line break ends a line, and a carriage return before it belongs to it.
pub proof fn law_lines(a: Text, b: Text)
    requires
        !a.contains('\n'),
    ensures
        a.len() == 0 || a.last() != '\r' ==> lines_of(a.push('\n') + b) == seq![a] + lines_of(b),
        lines_of(a.push('\r').push('\n') + b) == seq![a] + lines_of(b),
        a.len() > 0 ==> lines_of(a) == seq![a],
        lines_of(Seq::empty()) == Seq::<Text>::empty(),
{
    find::law_cut(a, '\n', b);
    let s = a.push('\n') + b;
    find::lemma_find(s, '\n');
    find::lemma_find(a, '\n');
    let n = find::find(s, '\n');
    assert(s.take(n) == a);
    assert(s.skip(n + 1) == b);
    let w = a.push('\r');
    assert(!w.contains('\n')) by {
        if w.contains('\n') {
            let i = choose|i: int| 0 <= i < w.len() && w[i] == '\n';
            if i < a.len() {
                assert(a[i] == '\n');
                assert(a.contains('\n'));
            }
        }
    }
    find::law_cut(w, '\n', b);
    let t = w.push('\n') + b;
    find::lemma_find(t, '\n');
    let m = find::find(t, '\n');
    assert(t.take(m) == w);
    assert(t.skip(m + 1) == b);
    assert(w.drop_last() =~= a);
}

/// Tidying takes the white space off every part, drops the empty ones, and
/// keeps the order.
pub proof fn law_tidied(parts: Seq<Text>, t: Text)
    ensures
        tidied(Seq::empty()) == Seq::<Text>::empty(),
        trim::trimmed(t).len() == 0 ==> tidied(parts.push(t)) == tidied(parts),
        trim::trimmed(t).len() > 0 ==> tidied(parts.push(t)) == tidied(parts).push(
            trim::trimmed(t),
        ),
{
    assert(parts.push(t).drop_last() =~= parts);
}

} // verus!
