//! Looking for characters and pieces of text.

use crate::text;
use crate::text::Text;
use vstd::prelude::*;

verus! {

/// The first position of `c` in the text, or the text's length where it does
/// not occur.
pub open spec fn find(s: Text, c: char) -> int
    decreases s.len(),
{
    if s.len() == 0 || s[0] == c {
        0
    } else {
        1 + find(s.drop_first(), c)
    }
}

/// The last position of `c` in the text, or -1 where it does not occur.
pub open spec fn rfind(s: Text, c: char) -> int
    decreases s.len(),
{
    if s.len() == 0 {
        -1
    } else if s.last() == c {
        s.len() - 1
    } else {
        rfind(s.drop_last(), c)
    }
}

/// Whether the text starts with `p`.
pub open spec fn starts(s: Text, p: Text) -> bool {
    p.len() <= s.len() && s.take(p.len() as int) == p
}

/// Whether the text ends with `p`.
pub open spec fn ends(s: Text, p: Text) -> bool {
    p.len() <= s.len() && s.skip(s.len() - p.len()) == p
}

/// What follows the prefix `p`, where the text starts with it.
pub open spec fn after_prefix(s: Text, p: Text) -> Option<Text> {
    if starts(s, p) {
        Some(s.skip(p.len() as int))
    } else {
        None
    }
}

/// What stands before the suffix `p`, where the text ends with it.
pub open spec fn before_suffix(s: Text, p: Text) -> Option<Text> {
    if ends(s, p) {
        Some(s.take(s.len() - p.len()))
    } else {
        None
    }
}

/// What stands before and after the first `c`.
pub open spec fn cut(s: Text, c: char) -> Option<(Text, Text)> {
    let i = find(s, c);
    if i < s.len() {
        Some((s.take(i), s.skip(i + 1)))
    } else {
        None
    }
}

/// The first position at which `p` occurs in the text, or -1 where it does
/// not occur.
pub open spec fn find_text(s: Text, p: Text) -> int
    decreases s.len(),
{
    if starts(s, p) {
        0
    } else if s.len() == 0 || find_text(s.drop_first(), p) < 0 {
        -1
    } else {
        1 + find_text(s.drop_first(), p)
    }
}

/// The text with every occurrence of `p`, taken from left to right, replaced
/// by `w`. With an empty `p` there is nothing to take out, and the text stays
/// as it is.
pub open spec fn replaced(s: Text, p: Text, w: Text) -> Text
    decreases s.len(),
{
    if s.len() == 0 || p.len() == 0 {
        s
    } else if starts(s, p) {
        w + replaced(s.skip(p.len() as int), p, w)
    } else {
        seq![s[0]] + replaced(s.drop_first(), p, w)
    }
}

/// What `find` gives is the first position of the character.
pub proof fn lemma_find(s: Text, c: char)
    ensures
        0 <= find(s, c) <= s.len(),
        find(s, c) < s.len() ==> s[find(s, c)] == c,
        forall|i: int| 0 <= i < find(s, c) ==> s[i] != c,
        s.contains(c) <==> find(s, c) < s.len(),
    decreases s.len(),
{
    if s.len() > 0 && s[0] != c {
        let t = s.drop_first();
        lemma_find(t, c);
        assert forall|i: int| 0 <= i < find(s, c) implies s[i] != c by {
            if i > 0 {
                assert(s[i] == t[i - 1]);
            }
        }
    }
}

/// A position with the character, and none before it, is what `find` gives.
pub proof fn lemma_find_at(s: Text, c: char, i: int)
    requires
        0 <= i <= s.len(),
        forall|k: int| 0 <= k < i ==> s[k] != c,
        i < s.len() ==> s[i] == c,
    ensures
        find(s, c) == i,
{
    lemma_find(s, c);
    if find(s, c) < i {
        assert(s[find(s, c)] != c);
    }
}

/// The first position of `c` at or after `from`, or the end.
pub fn find_from(v: &Vec<char>, from: usize, c: char) -> (r: usize)
    requires
        from <= v.len(),
    ensures
        from <= r <= v.len(),
        r == from + find(v@.skip(from as int), c),
        r < v.len() ==> v@[r as int] == c,
        forall|i: int| from <= i < r ==> v@[i] != c,
{
    let mut r: usize = from;
    while r < v.len() && v[r] != c
        invariant
            from <= r <= v.len(),
            forall|i: int| from <= i < r ==> v@[i] != c,
        decreases v.len() - r,
    {
        r += 1;
    }
    proof {
        let t = v@.skip(from as int);
        assert forall|k: int| 0 <= k < r - from implies t[k] != c by {
            assert(t[k] == v@[from + k]);
        }
        lemma_find_at(t, c, r - from);
    }
    r
}

/// Whether the string holds the character.
pub fn has(s: &str, c: char) -> (r: bool)
    ensures
        r == s@.contains(c),
{
    let v = text::chars_of(s);
    assert(v@.skip(0) =~= v@);
    let i = find_from(&v, 0, c);
    proof {
        lemma_find(s@, c);
    }
    i < v.len()
}

/// The first position of the character, where the string holds it.
pub fn position(s: &str, c: char) -> (r: Option<usize>)
    ensures
        r matches Some(i) ==> i < s@.len() && i == find(s@, c),
        r is None ==> find(s@, c) == s@.len(),
{
    let v = text::chars_of(s);
    assert(v@.skip(0) =~= v@);
    let i = find_from(&v, 0, c);
    if i < v.len() {
        Some(i)
    } else {
        None
    }
}

/// The last position of the character, where the string holds it.
pub fn last_position(s: &str, c: char) -> (r: Option<usize>)
    ensures
        r matches Some(i) ==> i < s@.len() && i == rfind(s@, c),
        r is None ==> rfind(s@, c) == -1,
{
    let v = text::chars_of(s);
    let mut j: usize = v.len();
    assert(s@.take(j as int) =~= s@);
    while j > 0
        invariant
            j <= v.len(),
            v@ == s@,
            rfind(s@, c) == rfind(s@.take(j as int), c),
        decreases j,
    {
        assert(s@.take(j as int).drop_last() =~= s@.take(j - 1));
        if v[j - 1] == c {
            return Some(j - 1);
        }
        j -= 1;
    }
    None
}

/// Whether the characters from `from` on start with `p`.
pub fn starts_at(v: &Vec<char>, from: usize, p: &Vec<char>) -> (r: bool)
    requires
        from <= v.len(),
    ensures
        r == starts(v@.skip(from as int), p@),
{
    let ghost t = v@.skip(from as int);
    if p.len() > v.len() - from {
        return false;
    }
    let mut i: usize = 0;
    while i < p.len()
        invariant
            i <= p.len() <= v.len() - from,
            t == v@.skip(from as int),
            forall|k: int| 0 <= k < i ==> t[k] == p@[k],
        decreases p.len() - i,
    {
        if v[from + i] != p[i] {
            assert(t.take(p.len() as int)[i as int] != p@[i as int]);
            return false;
        }
        i += 1;
    }
    assert(t.take(p.len() as int) =~= p@);
    true
}

/// Whether the string starts with `p`.
pub fn starts_with(s: &str, p: &str) -> (r: bool)
    ensures
        r == starts(s@, p@),
{
    let v = text::chars_of(s);
    let w = text::chars_of(p);
    assert(v@.skip(0) =~= v@);
    starts_at(&v, 0, &w)
}

/// Whether the string ends with `p`.
pub fn ends_with(s: &str, p: &str) -> (r: bool)
    ensures
        r == ends(s@, p@),
{
    let v = text::chars_of(s);
    let w = text::chars_of(p);
    if w.len() > v.len() {
        return false;
    }
    let from = v.len() - w.len();
    let ghost t = v@.skip(from as int);
    assert(t.take(t.len() as int) =~= t);
    starts_at(&v, from, &w)
}

/// What follows the prefix `p`, where the string starts with it.
pub fn strip_prefix<'a>(s: &'a str, p: &str) -> (r: Option<&'a str>)
    ensures
        text::opt_str(r) == after_prefix(s@, p@),
{
    if starts_with(s, p) {
        let n = s.unicode_len();
        let m = p.unicode_len();
        Some(s.substring_char(m, n))
    } else {
        None
    }
}

/// What stands before the suffix `p`, where the string ends with it.
pub fn strip_suffix<'a>(s: &'a str, p: &str) -> (r: Option<&'a str>)
    ensures
        text::opt_str(r) == before_suffix(s@, p@),
{
    if ends_with(s, p) {
        let n = s.unicode_len();
        let m = p.unicode_len();
        Some(s.substring_char(0, n - m))
    } else {
        None
    }
}

/// What stands before and after the first `c`.
pub fn split_once<'a>(s: &'a str, c: char) -> (r: Option<(&'a str, &'a str)>)
    ensures
        r matches Some(p) ==> cut(s@, c) == Some((p.0@, p.1@)),
        r is None ==> cut(s@, c) is None,
{
    match position(s, c) {
        Some(i) => {
            let n = s.unicode_len();
            Some((s.substring_char(0, i), s.substring_char(i + 1, n)))
        },
        None => None,
    }
}

/// The string with every occurrence of `p` replaced by `w`.
pub fn replace(s: &str, p: &str, w: &str) -> (r: String)
    requires
        p@.len() > 0 || w@.len() == 0,
    ensures
        r@ == replaced(s@, p@, w@),
{
    if p.is_empty() {
        return s.to_owned();
    }
    let v = text::chars_of(s);
    let q = text::chars_of(p);
    let mut out = String::new();
    let mut i: usize = 0;
    proof {
        assert(v@.skip(0) =~= v@);
        assert(out@ + replaced(s@, p@, w@) =~= replaced(s@, p@, w@));
    }
    while i < v.len()
        invariant
            i <= v.len(),
            v@ == s@,
            q@ == p@,
            p@.len() > 0,
            out@ + replaced(v@.skip(i as int), p@, w@) == replaced(s@, p@, w@),
        decreases v.len() - i,
    {
        let ghost t = v@.skip(i as int);
        let ghost before = out@;
        if starts_at(&v, i, &q) {
            out.append(w);
            proof {
                assert(t.skip(p@.len() as int) =~= v@.skip(i + p@.len()));
                assert(out@ + replaced(v@.skip(i + p@.len()), p@, w@) =~= before + replaced(
                    t,
                    p@,
                    w@,
                ));
            }
            i += q.len();
        } else {
            out.push(v[i]);
            proof {
                text::lemma_skip_step(v@, i as int);
                assert(out@ + replaced(v@.skip(i + 1), p@, w@) =~= before + replaced(t, p@, w@));
            }
            i += 1;
        }
    }
    proof {
        assert(v@.skip(i as int) =~= Seq::<char>::empty());
        assert(out@ + Seq::<char>::empty() =~= out@);
    }
    out
}

/// The first position at which `p` occurs in the string.
pub fn position_of(s: &str, p: &str) -> (r: Option<usize>)
    ensures
        match r {
            Some(i) => i + p@.len() <= s@.len() && find_text(s@, p@) == i,
            None => find_text(s@, p@) == -1,
        },
{
    let v = text::chars_of(s);
    let q = text::chars_of(p);
    let mut i: usize = 0;
    assert(v@.skip(0) =~= v@);
    loop
        invariant
            i <= v.len(),
            v@ == s@,
            q@ == p@,
            find_text(s@, p@) == (if find_text(v@.skip(i as int), p@) < 0 {
                -1
            } else {
                i + find_text(v@.skip(i as int), p@)
            }),
        decreases v.len() - i,
    {
        if starts_at(&v, i, &q) {
            return Some(i);
        }
        if i == v.len() {
            return None;
        }
        proof {
            text::lemma_skip_step(v@, i as int);
        }
        i += 1;
    }
}

/// Whether a piece of text occurs nowhere in the text.
pub open spec fn occurs_nowhere(s: Text, p: Text) -> bool {
    forall|i: int| 0 <= i <= s.len() ==> !#[trigger] starts(s.skip(i), p)
}

/// The first occurrence of a piece of text is found, and replaced, and what
/// follows it is replaced in turn.
pub proof fn law_first_occurrence(a: Text, p: Text, b: Text, w: Text)
    requires
        p.len() > 0,
        forall|i: int| 0 <= i < a.len() ==> !#[trigger] starts((a + p + b).skip(i), p),
    ensures
        find_text(a + p + b, p) == a.len(),
        replaced(a + p + b, p, w) == a + w + replaced(b, p, w),
    decreases a.len(),
{
    let s = a + p + b;
    if a.len() == 0 {
        assert(s.take(p.len() as int) =~= p);
        assert(s.skip(p.len() as int) =~= b);
        assert(a + w =~= w);
    } else {
        let t = a.drop_first();
        assert(s.skip(0) =~= s);
        assert(!starts(s.skip(0), p));
        assert(s.drop_first() =~= t + p + b);
        assert forall|i: int| 0 <= i < t.len() implies !#[trigger] starts(
            (t + p + b).skip(i),
            p,
        ) by {
            assert((t + p + b).skip(i) =~= s.skip(i + 1));
            assert(!starts(s.skip(i + 1), p));
        }
        law_first_occurrence(t, p, b, w);
        assert(s[0] == a[0]);
        assert(seq![a[0]] + (t + w + replaced(b, p, w)) =~= a + w + replaced(b, p, w));
    }
}

/// A piece of text that does not occur is not found, and nothing is replaced.
pub proof fn law_no_occurrence(s: Text, p: Text, w: Text)
    requires
        occurs_nowhere(s, p),
    ensures
        find_text(s, p) == -1,
        replaced(s, p, w) == s,
    decreases s.len(),
{
    assert(s.skip(0) =~= s);
    assert(!starts(s.skip(0), p));
    if s.len() > 0 {
        let t = s.drop_first();
        assert forall|i: int| 0 <= i <= t.len() implies !#[trigger] starts(t.skip(i), p) by {
            assert(t.skip(i) =~= s.skip(i + 1));
            assert(!starts(s.skip(i + 1), p));
        }
        law_no_occurrence(t, p, w);
        assert(seq![s[0]] + t =~= s);
    }
}

/// A text is cut at the first of the characters.
pub proof fn law_cut(a: Text, c: char, b: Text)
    requires
        !a.contains(c),
    ensures
        cut(a.push(c) + b, c) == Some((a, b)),
        cut(a, c) is None,
{
    let s = a.push(c) + b;
    let n = a.len() as int;
    assert forall|k: int| 0 <= k < n implies s[k] != c by {
        assert(s[k] == a[k]);
        assert(a.contains(a[k]));
    }
    assert(s[n] == c);
    lemma_find_at(s, c, n);
    assert(s.take(n) =~= a);
    assert(s.skip(n + 1) =~= b);
    lemma_find(a, c);
}

/// What follows a prefix, and what stands before a suffix.
pub proof fn law_prefix_and_suffix(a: Text, b: Text)
    ensures
        starts(a + b, a),
        ends(a + b, b),
        after_prefix(a + b, a) == Some(b),
        before_suffix(a + b, b) == Some(a),
{
    let s = a + b;
    assert(s.take(a.len() as int) =~= a);
    assert(s.skip(a.len() as int) =~= b);
    assert(s.len() - b.len() == a.len());
}

/// The last of the characters is found.
pub proof fn law_last_character(a: Text, c: char, b: Text)
    requires
        !b.contains(c),
    ensures
        rfind(a.push(c) + b, c) == a.len(),
        rfind(b, c) == -1,
    decreases b.len(),
{
    let s = a.push(c) + b;
    if b.len() > 0 {
        let d = b.drop_last();
        assert(b.contains(b.last()));
        assert(!d.contains(c)) by {
            if d.contains(c) {
                let i = choose|i: int| 0 <= i < d.len() && d[i] == c;
                assert(b[i] == c);
            }
        }
        law_last_character(a, c, d);
        assert(s.drop_last() =~= a.push(c) + d);
        assert(s.last() == b.last());
    } else {
        assert(s =~= a.push(c));
    }
}

} // verus!
