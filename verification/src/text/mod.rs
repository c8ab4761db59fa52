//! Text: strings modelled as sequences of characters, and the operations on
//! them that the configuration, filter and protocol layers are written with.

use vstd::prelude::*;

pub mod find;
pub mod number;
pub mod sort;
pub mod split;
pub mod trim;

verus! {

/// The mathematical model of a string.
pub type Text = Seq<char>;

/// `String::push` of std: the character goes to the end of the string.
pub assume_specification[ String::push ](s: &mut String, c: char)
    ensures
        final(s)@ == old(s)@.push(c),
;

/// `==` on string slices of std: two slices are equal when they hold the same
/// characters.
pub assume_specification[ <str as PartialEq>::eq ](a: &str, b: &str) -> (r: bool)
    ensures
        r == (a@ == b@),
;

/// The text that Rust's debug formatting gives for a string: the string in
/// double quotes, with special characters escaped.
pub uninterp spec fn debug_text(s: Text) -> Text;

/// std's debug formatting of a string slice. What comes out is a function of
/// the characters alone, named `debug_text`; nothing more is claimed of it.
#[verifier::external_body]
pub(crate) fn quoted(s: &str) -> (r: String)
    ensures
        r@ == debug_text(s@),
{
    format!("{s:?}")
}

/// A list of texts as Rust's debug formatting shows it.
pub open spec fn list_text(v: Seq<Text>) -> Text {
    "["@ + joined(v.map_values(|s: Text| debug_text(s)), ", "@) + "]"@
}

/// The models of a sequence of strings.
pub open spec fn texts(v: Seq<String>) -> Seq<Text> {
    v.map_values(|s: String| s@)
}

/// The model of an optional string.
pub open spec fn opt_text(o: Option<String>) -> Option<Text> {
    match o {
        Some(s) => Some(s@),
        None => None,
    }
}

/// The model of an optional string slice.
pub open spec fn opt_str(o: Option<&str>) -> Option<Text> {
    match o {
        Some(s) => Some(s@),
        None => None,
    }
}

/// The lines a text is joined from, put together with `sep` between them.
pub open spec fn joined(parts: Seq<Text>, sep: Text) -> Text
    decreases parts.len(),
{
    if parts.len() == 0 {
        Seq::empty()
    } else if parts.len() == 1 {
        parts[0]
    } else {
        joined(parts.drop_last(), sep) + sep + parts.last()
    }
}

/// An ASCII upper-case letter turned into lower case; any other character as
/// it is.
pub open spec fn lower_char(c: char) -> char {
    if 'A' <= c && c <= 'Z' {
        ((c as u8 + 32) as u8) as char
    } else {
        c
    }
}

/// A text with its ASCII letters in lower case.
pub open spec fn lowered(s: Text) -> Text {
    s.map_values(|c: char| lower_char(c))
}

pub open spec fn is_digit(c: char) -> bool {
    '0' <= c && c <= '9'
}

pub open spec fn is_letter(c: char) -> bool {
    ('a' <= c && c <= 'z') || ('A' <= c && c <= 'Z')
}

/// Dropping the first character of what follows position `i` is what follows
/// position `i + 1`.
pub proof fn lemma_skip_step<A>(s: Seq<A>, i: int)
    requires
        0 <= i < s.len(),
    ensures
        s.skip(i).len() == s.len() - i,
        s.skip(i)[0] == s[i],
        s.skip(i).drop_first() == s.skip(i + 1),
{
    assert(s.skip(i).drop_first() =~= s.skip(i + 1));
}

pub proof fn lemma_texts_push(v: Seq<String>, s: String)
    ensures
        texts(v.push(s)) == texts(v).push(s@),
{
    assert(texts(v.push(s)) =~= texts(v).push(s@));
}

/// Whether two strings hold the same characters.
pub fn same(a: &str, b: &str) -> (r: bool)
    ensures
        r == (a@ == b@),
{
    *a == *b
}

/// Copies the characters of a string.
pub fn chars_of(s: &str) -> (v: Vec<char>)
    ensures
        v@ == s@,
{
    let mut v: Vec<char> = Vec::new();
    for c in it: s.chars()
        invariant
            v@ == it.seq().take(it.index() as int),
            it.seq() == s@,
    {
        v.push(c);
    }
    v
}

/// The string that holds the characters from `from` up to `to`.
pub fn string_of(v: &Vec<char>, from: usize, to: usize) -> (r: String)
    requires
        from <= to <= v.len(),
    ensures
        r@ == v@.subrange(from as int, to as int),
{
    let mut r = String::new();
    let mut i: usize = from;
    while i < to
        invariant
            from <= i <= to <= v.len(),
            r@ == v@.subrange(from as int, i as int),
        decreases to - i,
    {
        r.push(v[i]);
        i += 1;
        assert(r@ =~= v@.subrange(from as int, i as int));
    }
    r
}

/// Two strings put together.
pub fn cat2(a: &str, b: &str) -> (r: String)
    ensures
        r@ == a@ + b@,
{
    let mut r = a.to_owned();
    r.append(b);
    r
}

/// Three strings put together.
pub fn cat3(a: &str, b: &str, c: &str) -> (r: String)
    ensures
        r@ == a@ + b@ + c@,
{
    let mut r = a.to_owned();
    r.append(b);
    r.append(c);
    r
}

/// Four strings put together.
pub fn cat4(a: &str, b: &str, c: &str, d: &str) -> (r: String)
    ensures
        r@ == a@ + b@ + c@ + d@,
{
    let mut r = a.to_owned();
    r.append(b);
    r.append(c);
    r.append(d);
    r
}

/// Five strings put together.
pub fn cat5(a: &str, b: &str, c: &str, d: &str, e: &str) -> (r: String)
    ensures
        r@ == a@ + b@ + c@ + d@ + e@,
{
    let mut r = a.to_owned();
    r.append(b);
    r.append(c);
    r.append(d);
    r.append(e);
    r
}

/// Strings put together with a separator between them.
pub fn join(parts: &Vec<String>, sep: &str) -> (r: String)
    ensures
        r@ == joined(texts(parts@), sep@),
{
    let mut r = String::new();
    let mut i: usize = 0;
    proof {
        assert(texts(parts@).take(0).len() == 0);
    }
    while i < parts.len()
        invariant
            i <= parts.len(),
            r@ == joined(texts(parts@).take(i as int), sep@),
        decreases parts.len() - i,
    {
        proof {
            let t = texts(parts@);
            assert(t.take(i + 1).drop_last() =~= t.take(i as int));
            assert(t.take(i + 1).last() == parts@[i as int]@);
            if i == 0 {
                assert(r@ =~= Seq::<char>::empty());
                assert(r@ + parts@[0]@ =~= parts@[0]@);
            }
        }
        if i > 0 {
            r.append(sep);
        }
        r.append(parts[i].as_str());
        i += 1;
    }
    assert(texts(parts@).take(i as int) =~= texts(parts@));
    r
}

/// A copy of an optional string.
pub fn copy_opt(o: &Option<String>) -> (r: Option<String>)
    ensures
        opt_text(r) == opt_text(*o),
{
    match o {
        Some(s) => Some(s.clone()),
        None => None,
    }
}

/// A list of strings as Rust's debug formatting shows it.
pub fn show_list(v: &Vec<String>) -> (r: String)
    ensures
        r@ == list_text(texts(v@)),
{
    let mut shown: Vec<String> = Vec::new();
    let mut i: usize = 0;
    while i < v.len()
        invariant
            i <= v.len(),
            shown@.len() == i,
            forall|k: int| 0 <= k < i ==> (#[trigger] shown@[k])@ == debug_text(v@[k]@),
        decreases v.len() - i,
    {
        shown.push(quoted(v[i].as_str()));
        i += 1;
    }
    assert(texts(shown@) =~= texts(v@).map_values(|s: Text| debug_text(s)));
    let list = join(&shown, ", ");
    cat3("[", list.as_str(), "]")
}

/// A copy of a list of strings.
pub fn copy_strings(v: &Vec<String>) -> (r: Vec<String>)
    ensures
        texts(r@) == texts(v@),
{
    let mut out: Vec<String> = Vec::new();
    let mut i: usize = 0;
    while i < v.len()
        invariant
            i <= v.len(),
            texts(out@) == texts(v@).take(i as int),
        decreases v.len() - i,
    {
        let ghost before = out@;
        let s = v[i].clone();
        out.push(s);
        proof {
            lemma_texts_push(before, s);
        }
        i += 1;
        assert(texts(out@) =~= texts(v@).take(i as int));
    }
    assert(texts(v@).take(i as int) =~= texts(v@));
    out
}

pub fn digit(c: char) -> (r: bool)
    ensures
        r == is_digit(c),
{
    '0' <= c && c <= '9'
}

pub fn letter(c: char) -> (r: bool)
    ensures
        r == is_letter(c),
{
    ('a' <= c && c <= 'z') || ('A' <= c && c <= 'Z')
}

fn to_lower_char(c: char) -> (r: char)
    ensures
        r == lower_char(c),
{
    if 'A' <= c && c <= 'Z' {
        (c as u8 + 32) as char
    } else {
        c
    }
}

/// The string with its ASCII letters in lower case.
pub fn to_lower(s: &str) -> (r: String)
    ensures
        r@ == lowered(s@),
{
    let mut r = String::new();
    for c in it: s.chars()
        invariant
            r@ == lowered(it.seq().take(it.index() as int)),
            it.seq() == s@,
    {
        let ghost i = it.index() as int;
        r.push(to_lower_char(c));
        assert(r@ =~= lowered(it.seq().take(i + 1)));
    }
    assert(s@.take(s@.len() as int) =~= s@);
    r
}

/// Texts are joined in their order, with the separator between two of them.
pub proof fn law_joined(parts: Seq<Text>, p: Text, sep: Text)
    ensures
        joined(Seq::empty(), sep) == Seq::<char>::empty(),
        joined(seq![p], sep) == p,
        parts.len() > 0 ==> joined(parts.push(p), sep) == joined(parts, sep) + sep + p,
{
    assert(parts.push(p).drop_last() =~= parts);
}

/// The letters of ASCII become lower-case letters; nothing else changes.
pub proof fn law_lower_case(i: int, c: char)
    requires
        0 <= i < 26,
    ensures
        lower_char("ABCDEFGHIJKLMNOPQRSTUVWXYZ"@[i]) == "abcdefghijklmnopqrstuvwxyz"@[i],
        is_letter("ABCDEFGHIJKLMNOPQRSTUVWXYZ"@[i]),
        is_letter("abcdefghijklmnopqrstuvwxyz"@[i]),
        !is_letter(c) ==> lower_char(c) == c,
        lower_char("abcdefghijklmnopqrstuvwxyz"@[i]) == "abcdefghijklmnopqrstuvwxyz"@[i],
{
    reveal_strlit("ABCDEFGHIJKLMNOPQRSTUVWXYZ");
    reveal_strlit("abcdefghijklmnopqrstuvwxyz");
    let u = "ABCDEFGHIJKLMNOPQRSTUVWXYZ"@;
    let l = "abcdefghijklmnopqrstuvwxyz"@;
    assert(u[0] == 'A' && l[0] == 'a');
    assert(u[1] == 'B' && l[1] == 'b');
    assert(u[2] == 'C' && l[2] == 'c');
    assert(u[3] == 'D' && l[3] == 'd');
    assert(u[4] == 'E' && l[4] == 'e');
    assert(u[5] == 'F' && l[5] == 'f');
    assert(u[6] == 'G' && l[6] == 'g');
    assert(u[7] == 'H' && l[7] == 'h');
    assert(u[8] == 'I' && l[8] == 'i');
    assert(u[9] == 'J' && l[9] == 'j');
    assert(u[10] == 'K' && l[10] == 'k');
    assert(u[11] == 'L' && l[11] == 'l');
    assert(u[12] == 'M' && l[12] == 'm');
    assert(u[13] == 'N' && l[13] == 'n');
    assert(u[14] == 'O' && l[14] == 'o');
    assert(u[15] == 'P' && l[15] == 'p');
    assert(u[16] == 'Q' && l[16] == 'q');
    assert(u[17] == 'R' && l[17] == 'r');
    assert(u[18] == 'S' && l[18] == 's');
    assert(u[19] == 'T' && l[19] == 't');
    assert(u[20] == 'U' && l[20] == 'u');
    assert(u[21] == 'V' && l[21] == 'v');
    assert(u[22] == 'W' && l[22] == 'w');
    assert(u[23] == 'X' && l[23] == 'x');
    assert(u[24] == 'Y' && l[24] == 'y');
    assert(u[25] == 'Z' && l[25] == 'z');
}

} // verus!
