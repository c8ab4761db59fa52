//! Tables: maps from names to values that keep the order in which the names
//! first came in.

use crate::text;
use crate::text::Text;
use indexmap::IndexMap;
use vstd::prelude::*;

verus! {

/// `indexmap::IndexMap`, a hash map that remembers insertion order.
#[verifier::external_type_specification]
#[verifier::external_body]
#[verifier::reject_recursive_types(K)]
#[verifier::reject_recursive_types(V)]
#[verifier::reject_recursive_types(S)]
pub struct ExIndexMap<K, V, S>(IndexMap<K, V, S>);

/// A table of strings.
pub type Table = IndexMap<String, String>;

/// The entries of a table of strings, in its order.
pub uninterp spec fn entries(t: IndexMap<String, String>) -> Seq<(Text, Text)>;

/// The entries of a table of positions, in its order.
pub uninterp spec fn places(t: IndexMap<String, usize>) -> Seq<(Text, usize)>;

/// The first position at which a key stands, or the number of entries where it
/// does not occur.
pub open spec fn slot<V>(e: Seq<(Text, V)>, k: Text) -> int
    decreases e.len(),
{
    if e.len() == 0 || e[0].0 == k {
        0
    } else {
        1 + slot(e.drop_first(), k)
    }
}

/// The value of a key.
pub open spec fn lookup<V>(e: Seq<(Text, V)>, k: Text) -> Option<V> {
    if slot(e, k) < e.len() {
        Some(e[slot(e, k)].1)
    } else {
        None
    }
}

/// The entries after a key is given a value: a key that is there keeps its
/// place, a new one comes last.
pub open spec fn put<V>(e: Seq<(Text, V)>, k: Text, v: V) -> Seq<(Text, V)> {
    if slot(e, k) < e.len() {
        e.update(slot(e, k), (k, v))
    } else {
        e.push((k, v))
    }
}

/// The entries after all of `more` are put, in their order.
pub open spec fn put_all<V>(e: Seq<(Text, V)>, more: Seq<(Text, V)>) -> Seq<(Text, V)>
    decreases more.len(),
{
    if more.len() == 0 {
        e
    } else {
        let last = more.last();
        put(put_all(e, more.drop_last()), last.0, last.1)
    }
}

/// What `slot` gives is the first position of the key.
pub proof fn lemma_slot<V>(e: Seq<(Text, V)>, k: Text)
    ensures
        0 <= slot(e, k) <= e.len(),
        slot(e, k) < e.len() ==> e[slot(e, k)].0 == k,
        forall|i: int| 0 <= i < slot(e, k) ==> (#[trigger] e[i]).0 != k,
    decreases e.len(),
{
    if e.len() > 0 && e[0].0 != k {
        let t = e.drop_first();
        lemma_slot(t, k);
        assert forall|i: int| 0 <= i < slot(e, k) implies (#[trigger] e[i]).0 != k by {
            if i > 0 {
                assert(e[i] == t[i - 1]);
            }
        }
    }
}

/// A position with the key, and none before it, is what `slot` gives.
pub proof fn lemma_slot_at<V>(e: Seq<(Text, V)>, k: Text, i: int)
    requires
        0 <= i <= e.len(),
        forall|j: int| 0 <= j < i ==> (#[trigger] e[j]).0 != k,
        i < e.len() ==> e[i].0 == k,
    ensures
        slot(e, k) == i,
{
    lemma_slot(e, k);
    if slot(e, k) < i {
        assert(e[slot(e, k)].0 != k);
    }
}

/// After a key is given a value, looking the key up gives that value, and
/// every other key is as it was.
pub proof fn law_put_lookup<V>(e: Seq<(Text, V)>, k: Text, v: V, other: Text)
    ensures
        lookup(put(e, k, v), k) == Some(v),
        other != k ==> lookup(put(e, k, v), other) == lookup(e, other),
{
    lemma_slot(e, k);
    lemma_slot(e, other);
    let p = put(e, k, v);
    lemma_slot_at(p, k, slot(e, k));
    if other != k {
        let i = slot(e, other);
        if i < e.len() || slot(e, k) < e.len() {
            lemma_slot_at(p, other, i);
        } else {
            lemma_slot_at(p, other, i + 1);
        }
    }
}

/// The value that a key is given last.
pub open spec fn last_value<V>(e: Seq<(Text, V)>, k: Text) -> Option<V>
    decreases e.len(),
{
    if e.len() == 0 {
        None
    } else if e.last().0 == k {
        Some(e.last().1)
    } else {
        last_value(e.drop_last(), k)
    }
}

/// After `more` is put, a key has the last value that `more` gives it, and
/// where `more` gives it none, the value it had.
pub proof fn law_put_all_lookup<V>(e: Seq<(Text, V)>, more: Seq<(Text, V)>, k: Text)
    ensures
        lookup(put_all(e, more), k) == (match last_value(more, k) {
            Some(v) => Some(v),
            None => lookup(e, k),
        }),
    decreases more.len(),
{
    if more.len() > 0 {
        let last = more.last();
        law_put_all_lookup(e, more.drop_last(), k);
        law_put_lookup(put_all(e, more.drop_last()), last.0, last.1, k);
    }
}

/// `IndexMap::new`: a map without entries.
#[verifier::external_body]
pub(crate) fn new_table() -> (t: IndexMap<String, String>)
    ensures
        entries(t) == Seq::<(Text, Text)>::empty(),
{
    IndexMap::new()
}

/// `IndexMap::len`: the number of entries.
#[verifier::external_body]
pub(crate) fn size(t: &IndexMap<String, String>) -> (n: usize)
    ensures
        n == entries(*t).len(),
{
    t.len()
}

/// `IndexMap::get`: the value of a key.
#[verifier::external_body]
pub(crate) fn get<'a>(t: &'a IndexMap<String, String>, key: &str) -> (r: Option<&'a str>)
    ensures
        text::opt_str(r) == lookup(entries(*t), key@),
{
    t.get(key).map(|s| s.as_str())
}

/// `IndexMap::get_index`: the key and the value of the entry at a position.
#[verifier::external_body]
pub(crate) fn at<'a>(t: &'a IndexMap<String, String>, i: usize) -> (r: Option<
    (&'a String, &'a String),
>)
    ensures
        r is Some <==> i < entries(*t).len(),
        r matches Some(p) ==> entries(*t)[i as int] == (p.0@, p.1@),
{
    t.get_index(i)
}

/// `IndexMap::insert`: the value of a key that is there is replaced in its
/// place; a new key comes last.
#[verifier::external_body]
pub(crate) fn insert(t: &mut IndexMap<String, String>, key: String, value: String)
    ensures
        entries(*final(t)) == put(entries(*old(t)), key@, value@),
{
    t.insert(key, value);
}

/// `Clone::clone` of an `IndexMap`: a map with the same entries in the same
/// order.
#[verifier::external_body]
pub(crate) fn copy(t: &IndexMap<String, String>) -> (r: IndexMap<String, String>)
    ensures
        entries(r) == entries(*t),
{
    t.clone()
}

/// Puts every entry of `more` into the table.
pub fn insert_all(t: &mut IndexMap<String, String>, more: &IndexMap<String, String>)
    ensures
        entries(*final(t)) == put_all(entries(*old(t)), entries(*more)),
{
    let ghost e = entries(*t);
    let ghost m = entries(*more);
    let n = size(more);
    let mut i: usize = 0;
    assert(m.take(0) =~= Seq::empty());
    while i < n
        invariant
            i <= n == m.len(),
            m == entries(*more),
            entries(*t) == put_all(e, m.take(i as int)),
        decreases n - i,
    {
        proof {
            assert(m.take(i + 1).drop_last() =~= m.take(i as int));
            assert(m.take(i + 1).last() == m[i as int]);
        }
        if let Some((k, v)) = at(more, i) {
            insert(t, k.clone(), v.clone());
        }
        i += 1;
    }
    assert(m.take(i as int) =~= m);
}

/// `IndexMap::new`: a map without entries.
#[verifier::external_body]
pub(crate) fn new_places() -> (t: IndexMap<String, usize>)
    ensures
        places(t) == Seq::<(Text, usize)>::empty(),
{
    IndexMap::new()
}

/// `IndexMap::get`: the value of a key.
#[verifier::external_body]
pub(crate) fn place_of(t: &IndexMap<String, usize>, key: &str) -> (r: Option<usize>)
    ensures
        r == lookup(places(*t), key@),
{
    t.get(key).copied()
}

/// `IndexMap::get_index`: the key of the entry at a position.
#[verifier::external_body]
pub(crate) fn place_at(t: &IndexMap<String, usize>, i: usize) -> (r: Option<&String>)
    ensures
        r is Some <==> i < places(*t).len(),
        r matches Some(k) ==> places(*t)[i as int].0 == k@,
{
    t.get_index(i).map(|p| p.0)
}

/// `IndexMap::insert`: the value of a key that is there is replaced in its
/// place; a new key comes last.
#[verifier::external_body]
pub(crate) fn set_place(t: &mut IndexMap<String, usize>, key: String, i: usize)
    ensures
        places(*final(t)) == put(places(*old(t)), key@, i),
{
    t.insert(key, i);
}

/// Values of any type under distinct names, in the order in which the names
/// first came in.
pub struct Registry<T> {
    index: IndexMap<String, usize>,
    items: Vec<T>,
}

impl<T> View for Registry<T> {
    type V = Seq<(Text, T)>;

    closed spec fn view(&self) -> Seq<(Text, T)> {
        Seq::new(self.items@.len(), |i: int| (places(self.index)[i].0, self.items@[i]))
    }
}

/// Whether no name occurs twice.
pub open spec fn distinct<V>(e: Seq<(Text, V)>) -> bool {
    forall|i: int, j: int| 0 <= i < j < e.len() ==> (#[trigger] e[i]).0 != (#[trigger] e[j]).0
}

impl<T> Registry<T> {
    /// Each name has one value, and its place is where the index says.
    pub closed spec fn wf(self) -> bool {
        let p = places(self.index);
        &&& p.len() == self.items@.len()
        &&& forall|i: int| 0 <= i < p.len() ==> (#[trigger] p[i]).1 == i
        &&& distinct(p)
    }

    proof fn lemma_slots_agree(self, name: Text)
        requires
            self.wf(),
        ensures
            slot(self@, name) == slot(places(self.index), name),
    {
        let p = places(self.index);
        lemma_slot(p, name);
        assert forall|j: int| 0 <= j < slot(p, name) implies (#[trigger] self@[j]).0 != name by {
            assert(p[j].0 != name);
        }
        lemma_slot_at(self@, name, slot(p, name));
    }

    /// A registry without entries.
    pub fn new() -> (r: Registry<T>)
        ensures
            r.wf(),
            r@ == Seq::<(Text, T)>::empty(),
    {
        let r = Registry { index: new_places(), items: Vec::new() };
        assert(r@ =~= Seq::<(Text, T)>::empty());
        r
    }

    /// The number of entries.
    pub fn len(&self) -> (n: usize)
        ensures
            n == self@.len(),
    {
        self.items.len()
    }

    /// Whether there are no entries.
    pub fn is_empty(&self) -> (r: bool)
        ensures
            r == (self@.len() == 0),
    {
        self.items.len() == 0
    }

    /// The value under a name.
    pub fn get(&self, name: &str) -> (r: Option<&T>)
        requires
            self.wf(),
        ensures
            match r {
                Some(v) => lookup(self@, name@) == Some(*v),
                None => lookup(self@, name@) is None,
            },
    {
        proof {
            self.lemma_slots_agree(name@);
            lemma_slot(places(self.index), name@);
        }
        match place_of(&self.index, name) {
            Some(i) => Some(&self.items[i]),
            None => None,
        }
    }

    /// The name at a position.
    pub fn name_at(&self, i: usize) -> (r: &str)
        requires
            self.wf(),
            i < self@.len(),
        ensures
            r@ == self@[i as int].0,
    {
        match place_at(&self.index, i) {
            Some(k) => k.as_str(),
            None => "",
        }
    }

    /// The value at a position.
    pub fn item_at(&self, i: usize) -> (r: &T)
        requires
            i < self@.len(),
        ensures
            *r == self@[i as int].1,
    {
        &self.items[i]
    }

    /// Gives a name a value.
    pub fn insert(&mut self, name: String, value: T)
        requires
            old(self).wf(),
        ensures
            final(self).wf(),
            final(self)@ == put(old(self)@, name@, value),
    {
        let ghost p = places(self.index);
        let ghost e = self@;
        proof {
            self.lemma_slots_agree(name@);
            lemma_slot(p, name@);
        }
        match place_of(&self.index, name.as_str()) {
            Some(i) => {
                self.items.set(i, value);
                assert(self@ =~= put(e, name@, value));
            },
            None => {
                let n = self.items.len();
                set_place(&mut self.index, name, n);
                self.items.push(value);
                assert(self@ =~= put(e, name@, value));
            },
        }
    }
}

/// The entries with a function applied to their values.
pub open spec fn mapped<V, W>(e: Seq<(Text, V)>, f: spec_fn(V) -> W) -> Seq<(Text, W)> {
    e.map_values(|p: (Text, V)| (p.0, f(p.1)))
}

/// Looking up and putting work the same way on the values of a function.
pub proof fn lemma_mapped<V, W>(e: Seq<(Text, V)>, f: spec_fn(V) -> W, k: Text, v: V)
    ensures
        slot(mapped(e, f), k) == slot(e, k),
        lookup(mapped(e, f), k) == (match lookup(e, k) {
            Some(x) => Some(f(x)),
            None => None,
        }),
        put(mapped(e, f), k, f(v)) == mapped(put(e, k, v), f),
{
    let m = mapped(e, f);
    lemma_slot(e, k);
    assert forall|j: int| 0 <= j < slot(e, k) implies (#[trigger] m[j]).0 != k by {
        assert(e[j].0 != k);
    }
    lemma_slot_at(m, k, slot(e, k));
    assert(put(m, k, f(v)) =~= mapped(put(e, k, v), f));
}

/// The entries after those of `more` are put whose keys are not there yet.
pub open spec fn put_missing<V>(e: Seq<(Text, V)>, more: Seq<(Text, V)>) -> Seq<(Text, V)>
    decreases more.len(),
{
    if more.len() == 0 {
        e
    } else {
        let front = put_missing(e, more.drop_last());
        if lookup(front, more.last().0) is Some {
            front
        } else {
            put(front, more.last().0, more.last().1)
        }
    }
}

/// Puts those entries of `more` into the table whose keys are not there yet.
pub fn insert_missing(t: &mut IndexMap<String, String>, more: &IndexMap<String, String>)
    ensures
        entries(*final(t)) == put_missing(entries(*old(t)), entries(*more)),
{
    let ghost e = entries(*t);
    let ghost m = entries(*more);
    let n = size(more);
    let mut i: usize = 0;
    assert(m.take(0) =~= Seq::empty());
    while i < n
        invariant
            i <= n == m.len(),
            m == entries(*more),
            entries(*t) == put_missing(e, m.take(i as int)),
        decreases n - i,
    {
        proof {
            assert(m.take(i + 1).drop_last() =~= m.take(i as int));
            assert(m.take(i + 1).last() == m[i as int]);
        }
        if let Some((k, v)) = at(more, i) {
            if get(t, k.as_str()).is_none() {
                insert(t, k.clone(), v.clone());
            }
        }
        i += 1;
    }
    assert(m.take(i as int) =~= m);
}

/// The entries without a key.
pub open spec fn removed<V>(e: Seq<(Text, V)>, k: Text) -> Seq<(Text, V)> {
    if slot(e, k) < e.len() {
        e.remove(slot(e, k))
    } else {
        e
    }
}

/// After a key is removed it has no value, and every other key is as it was.
pub proof fn law_removed_lookup<V>(e: Seq<(Text, V)>, k: Text, other: Text)
    requires
        distinct(e),
    ensures
        lookup(removed(e, k), k) is None,
        other != k ==> lookup(removed(e, k), other) == lookup(e, other),
        distinct(removed(e, k)),
{
    let r = removed(e, k);
    let i = slot(e, k);
    lemma_slot(e, k);
    lemma_slot(e, other);
    assert forall|a: int, b: int| 0 <= a < b < r.len() implies (#[trigger] r[a]).0 != (
    #[trigger] r[b]).0 by {
        if i < e.len() {
            let x = if a < i {
                a
            } else {
                a + 1
            };
            let y = if b < i {
                b
            } else {
                b + 1
            };
            assert(r[a] == e[x] && r[b] == e[y]);
            assert(e[x].0 != e[y].0);
        }
    }
    if i < e.len() {
        assert forall|j: int| 0 <= j < r.len() implies (#[trigger] r[j]).0 != k by {
            let x = if j < i {
                j
            } else {
                j + 1
            };
            assert(r[j] == e[x]);
            assert(e[x].0 != e[i].0) by {
                if x < i {
                } else {
                    assert(e[i].0 != e[x].0);
                }
            }
        }
    }
    lemma_slot_at(r, k, r.len() as int);
    if other != k {
        let j = slot(e, other);
        let x = if i < e.len() && j > i {
            j - 1
        } else {
            j
        };
        assert forall|y: int| 0 <= y < x implies (#[trigger] r[y]).0 != other by {
            if i < e.len() && y >= i {
                assert(r[y] == e[y + 1]);
            } else {
                assert(r[y] == e[y]);
            }
        }
        lemma_slot_at(r, other, x);
    }
}

/// Putting keeps the keys distinct.
pub proof fn lemma_put_distinct<V>(e: Seq<(Text, V)>, k: Text, v: V)
    requires
        distinct(e),
    ensures
        distinct(put(e, k, v)),
{
    lemma_slot(e, k);
    let p = put(e, k, v);
    assert forall|a: int, b: int| 0 <= a < b < p.len() implies (#[trigger] p[a]).0 != (
    #[trigger] p[b]).0 by {
        if b < e.len() {
            assert(p[a].0 == e[a].0 && p[b].0 == e[b].0);
            assert(e[a].0 != e[b].0);
        } else {
            assert(p[a] == e[a]);
        }
    }
}

/// Removing works the same way on the values of a function.
pub proof fn lemma_mapped_removed<V, W>(e: Seq<(Text, V)>, f: spec_fn(V) -> W, k: Text)
    ensures
        removed(mapped(e, f), k) == mapped(removed(e, k), f),
        distinct(mapped(e, f)) == distinct(e),
{
    let m = mapped(e, f);
    lemma_slot(e, k);
    assert forall|j: int| 0 <= j < slot(e, k) implies (#[trigger] m[j]).0 != k by {
        assert(e[j].0 != k);
    }
    lemma_slot_at(m, k, slot(e, k));
    assert(removed(m, k) =~= mapped(removed(e, k), f));
    if distinct(e) {
        assert forall|a: int, b: int| 0 <= a < b < m.len() implies (#[trigger] m[a]).0 != (
        #[trigger] m[b]).0 by {
            assert(e[a].0 != e[b].0);
        }
    }
    if distinct(m) {
        assert forall|a: int, b: int| 0 <= a < b < e.len() implies (#[trigger] e[a]).0 != (
        #[trigger] e[b]).0 by {
            assert(m[a].0 != m[b].0);
        }
    }
}

/// Values of any type under distinct keys, in the order in which the keys came
/// in.
#[derive(Debug)]
pub struct Assoc<V> {
    pub items: Vec<(String, V)>,
}

impl<V> View for Assoc<V> {
    type V = Seq<(Text, V)>;

    open spec fn view(&self) -> Seq<(Text, V)> {
        self.items@.map_values(|p: (String, V)| (p.0@, p.1))
    }
}

impl<V> Assoc<V> {
    /// No key occurs twice.
    pub open spec fn wf(&self) -> bool {
        distinct(self@)
    }

    /// Without entries.
    pub fn new() -> (r: Assoc<V>)
        ensures
            r.wf(),
            r@ == Seq::<(Text, V)>::empty(),
    {
        let r = Assoc { items: Vec::new() };
        assert(r@ =~= Seq::<(Text, V)>::empty());
        r
    }

    /// The number of entries.
    pub fn len(&self) -> (n: usize)
        ensures
            n == self@.len(),
    {
        self.items.len()
    }

    /// The position of a key, or the number of entries where it does not
    /// occur.
    pub fn position(&self, key: &str) -> (i: usize)
        ensures
            i == slot(self@, key@),
            i <= self@.len(),
    {
        let mut i: usize = 0;
        while i < self.items.len() && !text::same(self.items[i].0.as_str(), key)
            invariant
                i <= self.items.len(),
                forall|j: int| 0 <= j < i ==> (#[trigger] self@[j]).0 != key@,
            decreases self.items.len() - i,
        {
            assert(self@[i as int].0 == self.items@[i as int].0@);
            i += 1;
        }
        proof {
            if i < self.items.len() {
                assert(self@[i as int].0 == self.items@[i as int].0@);
            }
            lemma_slot_at(self@, key@, i as int);
        }
        i
    }

    /// The value of a key.
    pub fn get(&self, key: &str) -> (r: Option<&V>)
        ensures
            match r {
                Some(v) => lookup(self@, key@) == Some(*v),
                None => lookup(self@, key@) is None,
            },
    {
        let i = self.position(key);
        if i < self.items.len() {
            Some(&self.items[i].1)
        } else {
            None
        }
    }

    /// Gives a key a value.
    pub fn insert(&mut self, key: String, value: V)
        requires
            old(self).wf(),
        ensures
            final(self).wf(),
            final(self)@ == put(old(self)@, key@, value),
    {
        let i = self.position(key.as_str());
        let ghost e = self@;
        proof {
            lemma_slot(e, key@);
            lemma_put_distinct(e, key@, value);
        }
        if i < self.items.len() {
            self.items.set(i, (key, value));
        } else {
            self.items.push((key, value));
        }
        assert(self@ =~= put(e, key@, value));
    }

    /// Removes a key; its value comes back.
    pub fn remove(&mut self, key: &str) -> (r: Option<V>)
        requires
            old(self).wf(),
        ensures
            final(self).wf(),
            r == lookup(old(self)@, key@),
            final(self)@ == removed(old(self)@, key@),
    {
        let i = self.position(key);
        let ghost e = self@;
        proof {
            lemma_slot(e, key@);
            law_removed_lookup(e, key@, key@);
        }
        if i < self.items.len() {
            let p = self.items.remove(i);
            assert(self@ =~= e.remove(i as int));
            Some(p.1)
        } else {
            None
        }
    }
}

/// The value of a key is that of the first entry with the key; a key of no
/// entry has none.
pub proof fn law_first_entry_counts<V>(e: Seq<(Text, V)>, k: Text, i: int)
    ensures
        0 <= i < e.len() && e[i].0 == k && (forall|j: int| 0 <= j < i ==> (#[trigger] e[j]).0 != k)
            ==> lookup(e, k) == Some(e[i].1),
        (forall|j: int| 0 <= j < e.len() ==> (#[trigger] e[j]).0 != k) ==> lookup(e, k) is None,
{
    lemma_slot(e, k);
    if 0 <= i < e.len() && e[i].0 == k && (forall|j: int| 0 <= j < i ==> (#[trigger] e[j]).0 != k) {
        assert(slot(e, k) >= i);
        assert(slot(e, k) <= i) by {
            if slot(e, k) > i {
                assert(e[i].0 != k);
            }
        }
    }
    if forall|j: int| 0 <= j < e.len() ==> (#[trigger] e[j]).0 != k {
        if slot(e, k) < e.len() {
            assert(e[slot(e, k)].0 == k);
        }
    }
}

/// A new key comes last; a key that is there keeps its place.
pub proof fn law_put_keeps_order<V>(e: Seq<(Text, V)>, k: Text, v: V, i: int)
    requires
        distinct(e),
    ensures
        lookup(e, k) is None ==> put(e, k, v) == e.push((k, v)),
        lookup(e, k) is Some ==> put(e, k, v).len() == e.len(),
        lookup(e, k) is Some && 0 <= i < e.len() && e[i].0 != k ==> put(e, k, v)[i] == e[i],
        lookup(e, k) is Some && 0 <= i < e.len() && e[i].0 == k ==> put(e, k, v)[i] == (k, v),
{
    lemma_slot(e, k);
    let s = slot(e, k);
    if s < e.len() && 0 <= i < e.len() && e[i].0 == k && i != s {
        if i < s {
            assert(e[i].0 != e[s].0);
        } else {
            assert(e[s].0 != e[i].0);
        }
    }
}

/// Values that are filled in stand only where there was none.
pub proof fn law_missing_values_fill_in<V>(e: Seq<(Text, V)>, more: Seq<(Text, V)>, k: Text)
    ensures
        lookup(e, k) is Some ==> lookup(put_missing(e, more), k) == lookup(e, k),
        lookup(e, k) is None && lookup(more, k) is None ==> lookup(put_missing(e, more), k) is None,
        lookup(e, k) is None && lookup(more, k) is Some ==> lookup(put_missing(e, more), k)
            == lookup(more, k),
    decreases more.len(),
{
    if more.len() == 0 {
        lemma_slot(more, k);
    } else {
        let d = more.drop_last();
        let last = more.last();
        let front = put_missing(e, d);
        law_missing_values_fill_in(e, d, k);
        law_put_lookup(front, last.0, last.1, k);
        lemma_slot(d, k);
        lemma_slot(more, k);
        let s = slot(d, k);
        if s < d.len() {
            assert(more[s] == d[s]);
            law_first_entry_counts(more, k, s);
            assert(forall|j: int| 0 <= j < s ==> (#[trigger] more[j]).0 != k) by {
                assert forall|j: int| 0 <= j < s implies (#[trigger] more[j]).0 != k by {
                    assert(more[j] == d[j]);
                }
            }
            assert(lookup(more, k) == lookup(d, k));
        } else {
            assert forall|j: int| 0 <= j < d.len() implies (#[trigger] more[j]).0 != k by {
                assert(more[j] == d[j]);
            }
            law_first_entry_counts(more, k, more.len() - 1);
        }
    }
}

} // verus!
