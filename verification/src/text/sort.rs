//! Texts in the order of their characters.

use crate::text;
use crate::text::Text;
use vstd::prelude::*;

verus! {

/// Whether `a` comes before `b` or is equal to it: the first character in
/// which they differ decides, and a text comes before those that it starts.
pub open spec fn leq(a: Text, b: Text) -> bool
    decreases a.len(),
{
    if a.len() == 0 {
        true
    } else if b.len() == 0 {
        false
    } else if a[0] == b[0] {
        leq(a.drop_first(), b.drop_first())
    } else {
        a[0] < b[0]
    }
}

/// An ordered sequence with `x` put into it, behind what is equal to it.
pub open spec fn placed(s: Seq<Text>, x: Text) -> Seq<Text>
    decreases s.len(),
{
    if s.len() == 0 || leq(s.last(), x) {
        s.push(x)
    } else {
        placed(s.drop_last(), x).push(s.last())
    }
}

/// The texts in their order.
pub open spec fn sorted(s: Seq<Text>) -> Seq<Text>
    decreases s.len(),
{
    if s.len() == 0 {
        s
    } else {
        placed(sorted(s.drop_last()), s.last())
    }
}

/// Whether each text comes before those that follow it.
pub open spec fn ordered(s: Seq<Text>) -> bool {
    forall|i: int, j: int| 0 <= i <= j < s.len() ==> leq(#[trigger] s[i], #[trigger] s[j])
}

proof fn lemma_leq_reflexive(a: Text)
    ensures
        leq(a, a),
    decreases a.len(),
{
    if a.len() > 0 {
        lemma_leq_reflexive(a.drop_first());
    }
}

proof fn lemma_leq_total(a: Text, b: Text)
    ensures
        leq(a, b) || leq(b, a),
    decreases a.len(),
{
    if a.len() > 0 && b.len() > 0 && a[0] == b[0] {
        lemma_leq_total(a.drop_first(), b.drop_first());
    }
}

proof fn lemma_leq_transitive(a: Text, b: Text, c: Text)
    requires
        leq(a, b),
        leq(b, c),
    ensures
        leq(a, c),
    decreases a.len(),
{
    if a.len() > 0 && b.len() > 0 && c.len() > 0 && a[0] == b[0] && b[0] == c[0] {
        lemma_leq_transitive(a.drop_first(), b.drop_first(), c.drop_first());
    }
}

proof fn lemma_placed(s: Seq<Text>, x: Text)
    requires
        ordered(s),
    ensures
        ordered(placed(s, x)),
        placed(s, x).to_multiset() == s.to_multiset().insert(x),
        placed(s, x).len() == s.len() + 1,
        forall|y: Text|
            leq(x, y) && (forall|i: int| 0 <= i < s.len() ==> leq(#[trigger] s[i], y)) ==> (
            forall|i: int| 0 <= i < placed(s, x).len() ==> leq(#[trigger] placed(s, x)[i], y)),
    decreases s.len(),
{
    broadcast use vstd::seq_lib::group_to_multiset_ensures;

    lemma_leq_reflexive(x);
    if s.len() == 0 {
        assert(s.push(x).to_multiset() =~= s.to_multiset().insert(x));
    } else if leq(s.last(), x) {
        let p = s.push(x);
        assert forall|i: int, j: int| 0 <= i <= j < p.len() implies leq(
            #[trigger] p[i],
            #[trigger] p[j],
        ) by {
            if j < s.len() {
                assert(leq(s[i], s[j]));
            } else if i < s.len() {
                assert(leq(s[i], s[s.len() - 1]));
                lemma_leq_transitive(s[i], s.last(), x);
            }
        }
        assert(s.push(x).to_multiset() =~= s.to_multiset().insert(x));
    } else {
        let d = s.drop_last();
        let last = s.last();
        assert forall|i: int, j: int| 0 <= i <= j < d.len() implies leq(
            #[trigger] d[i],
            #[trigger] d[j],
        ) by {
            assert(leq(s[i], s[j]));
        }
        lemma_placed(d, x);
        lemma_leq_total(last, x);
        assert(leq(x, last));
        let q = placed(d, x);
        assert forall|i: int| 0 <= i < d.len() implies leq(#[trigger] d[i], last) by {
            assert(leq(s[i], s[s.len() - 1]));
        }
        lemma_leq_reflexive(last);
        let p = q.push(last);
        assert forall|i: int, j: int| 0 <= i <= j < p.len() implies leq(
            #[trigger] p[i],
            #[trigger] p[j],
        ) by {
            if j < q.len() {
                assert(leq(q[i], q[j]));
            } else if i < q.len() {
                assert(leq(q[i], last));
            }
        }
        assert(d.push(last) =~= s);
        assert(d.push(last).to_multiset() =~= d.to_multiset().insert(last));
        assert(p.to_multiset() =~= s.to_multiset().insert(x));
        assert forall|y: Text|
            leq(x, y) && (forall|i: int| 0 <= i < s.len() ==> leq(#[trigger] s[i], y)) implies (
        forall|i: int| 0 <= i < p.len() ==> leq(#[trigger] p[i], y)) by {
            assert forall|i: int| 0 <= i < d.len() implies leq(#[trigger] d[i], y) by {
                assert(leq(s[i], y));
            }
            assert(leq(s[s.len() - 1], y));
            assert forall|i: int| 0 <= i < p.len() implies leq(#[trigger] p[i], y) by {
                if i < q.len() {
                    assert(leq(q[i], y));
                }
            }
        }
    }
}

/// Sorting keeps every text, as often as it occurs, and puts each before those
/// that are not smaller.
pub proof fn law_sorted(s: Seq<Text>)
    ensures
        ordered(sorted(s)),
        sorted(s).to_multiset() == s.to_multiset(),
        sorted(s).len() == s.len(),
    decreases s.len(),
{
    broadcast use vstd::seq_lib::group_to_multiset_ensures;

    if s.len() > 0 {
        law_sorted(s.drop_last());
        lemma_placed(sorted(s.drop_last()), s.last());
        assert(s.drop_last().push(s.last()) =~= s);
        assert(s.drop_last().push(s.last()).to_multiset() =~= s.drop_last().to_multiset().insert(
            s.last(),
        ));
    }
}

/// Whether `a` comes before `b` or is equal to it.
pub fn not_after(a: &str, b: &str) -> (r: bool)
    ensures
        r == leq(a@, b@),
{
    let v = text::chars_of(a);
    let w = text::chars_of(b);
    let mut i: usize = 0;
    proof {
        assert(v@.skip(0) =~= v@);
        assert(w@.skip(0) =~= w@);
    }
    loop
        invariant
            i <= v.len(),
            i <= w.len(),
            leq(a@, b@) == leq(v@.skip(i as int), w@.skip(i as int)),
        decreases v.len() - i,
    {
        if i == v.len() {
            return true;
        }
        if i == w.len() {
            return false;
        }
        proof {
            text::lemma_skip_step(v@, i as int);
            text::lemma_skip_step(w@, i as int);
        }
        if v[i] != w[i] {
            return v[i] < w[i];
        }
        i += 1;
    }
}

/// The place of `x` cuts the sequence in two.
proof fn lemma_place(s: Seq<Text>, x: Text, j: int)
    requires
        0 <= j <= s.len(),
        j > 0 ==> leq(s[j - 1], x),
        forall|k: int| j <= k < s.len() ==> !leq(#[trigger] s[k], x),
    ensures
        placed(s, x) == s.insert(j, x),
    decreases s.len() - j,
{
    if j == s.len() {
        assert(s.insert(j, x) =~= s.push(x));
    } else {
        assert(!leq(s[s.len() - 1], x));
        let d = s.drop_last();
        assert forall|k: int| j <= k < d.len() implies !leq(#[trigger] d[k], x) by {
            assert(!leq(s[k], x));
        }
        lemma_place(d, x, j);
        assert(d.insert(j, x).push(s.last()) =~= s.insert(j, x));
    }
}

/// The strings in their order.
pub fn sort(items: &Vec<String>) -> (r: Vec<String>)
    ensures
        text::texts(r@) == sorted(text::texts(items@)),
{
    let ghost all = text::texts(items@);
    let mut out: Vec<String> = Vec::new();
    let mut i: usize = 0;
    proof {
        assert(all.take(0) =~= Seq::empty());
        assert(text::texts(out@) =~= Seq::empty());
    }
    while i < items.len()
        invariant
            i <= items.len(),
            all == text::texts(items@),
            out@.len() == i,
            text::texts(out@) == sorted(all.take(i as int)),
        decreases items.len() - i,
    {
        let ghost s = text::texts(out@);
        let x = items[i].clone();
        proof {
            assert(all.take(i + 1).drop_last() =~= all.take(i as int));
            assert(all.take(i + 1).last() == x@);
        }
        let mut j: usize = out.len();
        while j > 0 && !not_after(out[j - 1].as_str(), x.as_str())
            invariant
                j <= out.len(),
                s == text::texts(out@),
                forall|k: int| j <= k < s.len() ==> !leq(#[trigger] s[k], x@),
            decreases j,
        {
            assert(s[j - 1] == out@[j - 1]@);
            j -= 1;
        }
        proof {
            if j > 0 {
                assert(s[j - 1] == out@[j - 1]@);
            }
            lemma_place(s, x@, j as int);
        }
        let ghost before = out@;
        out.insert(j, x);
        assert(text::texts(out@) =~= s.insert(j as int, x@));
        i += 1;
    }
    assert(all.take(i as int) =~= all);
    out
}

/// Texts are ordered by the first character in which they differ, and a text
/// comes before those that go on after it.
pub proof fn law_first_difference_decides(p: Text, x: char, y: char, a: Text, b: Text)
    ensures
        leq(p, p + a),
        a.len() > 0 ==> !leq(p + a, p),
        x < y ==> leq(p + seq![x] + a, p + seq![y] + b),
        x > y ==> !leq(p + seq![x] + a, p + seq![y] + b),
    decreases p.len(),
{
    let s = p + seq![x] + a;
    let t = p + seq![y] + b;
    if p.len() == 0 {
        assert(p + a =~= a);
        assert(s[0] == x && t[0] == y);
    } else {
        let q = p.drop_first();
        law_first_difference_decides(q, x, y, a, b);
        assert((p + a).drop_first() =~= q + a);
        assert(s.drop_first() =~= q + seq![x] + a);
        assert(t.drop_first() =~= q + seq![y] + b);
        assert(s[0] == p[0] && t[0] == p[0] && (p + a)[0] == p[0]);
    }
}

} // verus!
