//! White space, and texts without it at their ends.

use crate::text;
use crate::text::Text;
use vstd::prelude::*;

verus! {

/// Whether a character is white space: one with Unicode's `White_Space`
/// property.
pub open spec fn is_space(c: char) -> bool {
    ||| '\u{9}' <= c && c <= '\u{d}'
    ||| c == ' '
    ||| c == '\u{85}'
    ||| c == '\u{a0}'
    ||| c == '\u{1680}'
    ||| '\u{2000}' <= c && c <= '\u{200a}'
    ||| c == '\u{2028}'
    ||| c == '\u{2029}'
    ||| c == '\u{202f}'
    ||| c == '\u{205f}'
    ||| c == '\u{3000}'
}

/// The text without the white space at its start.
pub open spec fn start_trimmed(s: Text) -> Text
    decreases s.len(),
{
    if s.len() > 0 && is_space(s[0]) {
        start_trimmed(s.drop_first())
    } else {
        s
    }
}

/// The text without the white space at its end.
pub open spec fn end_trimmed(s: Text) -> Text
    decreases s.len(),
{
    if s.len() > 0 && is_space(s.last()) {
        end_trimmed(s.drop_last())
    } else {
        s
    }
}

/// The text without the white space at either end.
pub open spec fn trimmed(s: Text) -> Text {
    end_trimmed(start_trimmed(s))
}

/// The text without the characters `c` at its end.
pub open spec fn end_stripped(s: Text, c: char) -> Text
    decreases s.len(),
{
    if s.len() > 0 && s.last() == c {
        end_stripped(s.drop_last(), c)
    } else {
        s
    }
}

pub fn space(c: char) -> (r: bool)
    ensures
        r == is_space(c),
{
    ('\u{9}' <= c && c <= '\u{d}') || c == ' ' || c == '\u{85}' || c == '\u{a0}' || c == '\u{1680}'
        || ('\u{2000}' <= c && c <= '\u{200a}') || c == '\u{2028}' || c == '\u{2029}' || c
        == '\u{202f}' || c == '\u{205f}' || c == '\u{3000}'
}

/// Where the text that follows the leading white space starts.
fn start_of(v: &Vec<char>) -> (i: usize)
    ensures
        i <= v.len(),
        start_trimmed(v@) == v@.skip(i as int),
{
    let mut i: usize = 0;
    assert(v@.skip(0) =~= v@);
    while i < v.len() && space(v[i])
        invariant
            i <= v.len(),
            start_trimmed(v@) == start_trimmed(v@.skip(i as int)),
        decreases v.len() - i,
    {
        proof {
            text::lemma_skip_step(v@, i as int);
        }
        i += 1;
    }
    i
}

/// Where the text from `from` on ends, up to the trailing white space.
fn end_of(v: &Vec<char>, from: usize) -> (j: usize)
    requires
        from <= v.len(),
    ensures
        from <= j <= v.len(),
        end_trimmed(v@.skip(from as int)) == v@.subrange(from as int, j as int),
{
    let mut j: usize = v.len();
    while j > from && space(v[j - 1])
        invariant
            from <= j <= v.len(),
            end_trimmed(v@.skip(from as int)) == end_trimmed(v@.subrange(from as int, j as int)),
        decreases j,
    {
        assert(v@.subrange(from as int, j as int).drop_last() =~= v@.subrange(
            from as int,
            j - 1,
        ));
        j -= 1;
    }
    j
}

/// The string without the white space at either end.
pub fn trim(s: &str) -> (r: &str)
    ensures
        r@ == trimmed(s@),
{
    let v = text::chars_of(s);
    let i = start_of(&v);
    let j = end_of(&v, i);
    s.substring_char(i, j)
}

/// The string without the white space at its start.
pub fn trim_start(s: &str) -> (r: &str)
    ensures
        r@ == start_trimmed(s@),
{
    let v = text::chars_of(s);
    let i = start_of(&v);
    s.substring_char(i, v.len())
}

/// The string without the white space at its end.
pub fn trim_end(s: &str) -> (r: &str)
    ensures
        r@ == end_trimmed(s@),
{
    let v = text::chars_of(s);
    assert(v@.skip(0) =~= v@);
    let j = end_of(&v, 0);
    s.substring_char(0, j)
}

/// The string without the characters `c` at its end.
pub fn strip_end(s: &str, c: char) -> (r: &str)
    ensures
        r@ == end_stripped(s@, c),
{
    let v = text::chars_of(s);
    let mut j: usize = v.len();
    assert(v@.take(v.len() as int) =~= v@);
    while j > 0 && v[j - 1] == c
        invariant
            j <= v.len(),
            v@ == s@,
            end_stripped(s@, c) == end_stripped(v@.take(j as int), c),
        decreases j,
    {
        assert(v@.take(j as int).drop_last() =~= v@.take(j - 1));
        j -= 1;
    }
    s.substring_char(0, j)
}

/// White space at the ends of a text comes off, and nothing else.
pub proof fn law_trimmed(a: Text, s: Text, b: Text)
    requires
        forall|i: int| 0 <= i < a.len() ==> is_space(#[trigger] a[i]),
        forall|i: int| 0 <= i < b.len() ==> is_space(#[trigger] b[i]),
        s.len() > 0 ==> !is_space(s[0]) && !is_space(s.last()),
    ensures
        trimmed(a + s + b) == s,
        s.len() > 0 ==> start_trimmed(a + s) == s,
        s.len() > 0 ==> end_trimmed(s + b) == s,
    decreases a.len() + b.len(),
{
    let w = a + s + b;
    if a.len() > 0 {
        let t = a.drop_first();
        assert(is_space(a[0]));
        assert forall|i: int| 0 <= i < t.len() implies is_space(#[trigger] t[i]) by {
            assert(t[i] == a[i + 1]);
        }
        law_trimmed(t, s, b);
        assert(w.drop_first() =~= t + s + b);
        assert(w[0] == a[0]);
        assert((a + s).drop_first() =~= t + s);
        assert((a + s)[0] == a[0]);
    } else if b.len() > 0 {
        let t = b.drop_last();
        assert(is_space(b[b.len() - 1]));
        assert forall|i: int| 0 <= i < t.len() implies is_space(#[trigger] t[i]) by {
            assert(t[i] == b[i]);
        }
        law_trimmed(a, s, t);
        assert(a + s =~= s);
        assert(w =~= s + b);
        assert(a + s + t =~= s + t);
        if s.len() > 0 {
            assert(w[0] == s[0]);
            assert((s + t)[0] == s[0]);
            assert((s + b).drop_last() =~= s + t);
        } else {
            lemma_all_space(w);
        }
    } else {
        assert(w =~= s);
        assert(a + s =~= s);
        assert(s + b =~= s);
    }
}

proof fn lemma_all_space(s: Text)
    requires
        forall|i: int| 0 <= i < s.len() ==> is_space(#[trigger] s[i]),
    ensures
        trimmed(s) == Seq::<char>::empty(),
    decreases s.len(),
{
    if s.len() > 0 {
        assert(is_space(s[0]));
        let t = s.drop_first();
        assert forall|i: int| 0 <= i < t.len() implies is_space(#[trigger] t[i]) by {
            assert(t[i] == s[i + 1]);
        }
        lemma_all_space(t);
    }
}

/// The characters that are white space: blank, tab, the line breaks and the
/// others of Unicode; letters, digits and signs of ASCII are none.
pub proof fn law_white_space(c: char)
    ensures
        is_space(' ') && is_space('\t') && is_space('\n') && is_space('\r'),
        '!' <= c && c <= '~' ==> !is_space(c),
{
}

} // verus!
