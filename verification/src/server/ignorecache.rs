//! Remembering which hosts a jail's `ignorecommand` said to ignore.

use crate::error::ErrorView;
use crate::table;
use crate::text;
use crate::text::find;
use crate::text::number;
use crate::text::split;
use crate::text::trim;
use crate::text::Text;
use crate::time;
use crate::time::TimeValue;
use indexmap::IndexMap;
use vstd::prelude::*;

verus! {

/// The entries of a map of answers, in its own order: the key, the answer, and
/// when it was given.
pub uninterp spec fn answers(t: IndexMap<String, (bool, u64)>) -> Seq<(Text, (bool, u64))>;

/// `IndexMap::new`: a map without entries.
#[verifier::external_body]
fn new_answers() -> (t: IndexMap<String, (bool, u64)>)
    ensures
        answers(t) == Seq::<(Text, (bool, u64))>::empty(),
{
    IndexMap::new()
}

/// `IndexMap::len`: the number of entries.
#[verifier::external_body]
fn answer_count(t: &IndexMap<String, (bool, u64)>) -> (n: usize)
    ensures
        n == answers(*t).len(),
{
    t.len()
}

/// `IndexMap::get`: the value of a key.
#[verifier::external_body]
fn answer_of(t: &IndexMap<String, (bool, u64)>, key: &str) -> (r: Option<(bool, u64)>)
    ensures
        r == table::lookup(answers(*t), key@),
{
    t.get(key).copied()
}

/// `IndexMap::get_index`: the key and the value of the entry at a position.
#[verifier::external_body]
fn answer_at(t: &IndexMap<String, (bool, u64)>, i: usize) -> (r: Option<(&String, &(bool, u64))>)
    ensures
        r is Some <==> i < answers(*t).len(),
        r matches Some(p) ==> answers(*t)[i as int] == (p.0@, *p.1),
{
    t.get_index(i)
}

/// `IndexMap::insert`: the value of a key that is there is replaced in its
/// place; a new key comes last.
#[verifier::external_body]
fn set_answer(t: &mut IndexMap<String, (bool, u64)>, key: String, value: (bool, u64))
    ensures
        answers(*final(t)) == table::put(answers(*old(t)), key@, value),
{
    t.insert(key, value);
}

/// `IndexMap::shift_remove`: the entry of a key is taken out, and the entries
/// behind it move up.
#[verifier::external_body]
fn drop_answer(t: &mut IndexMap<String, (bool, u64)>, key: &str)
    ensures
        answers(*final(t)) == table::removed(answers(*old(t)), key@),
{
    t.shift_remove(key);
}

/// Answers of an `ignorecommand`, each of which holds for a while. Times are
/// nanoseconds on a clock that does not run backwards.
#[derive(Debug)]
pub struct IgnoreCache {
    /// How many answers are kept at most.
    pub max_count: usize,
    /// How long an answer holds, in seconds.
    pub max_time: u64,
    /// The answers, in the order in which their keys came in.
    pub entries: IndexMap<String, (bool, u64)>,
}

/// The model of a cache.
#[verifier::ext_equal]
pub struct CacheView {
    pub max_count: usize,
    pub max_time: u64,
    pub entries: Seq<(Text, (bool, u64))>,
}

impl View for IgnoreCache {
    type V = CacheView;

    open spec fn view(&self) -> CacheView {
        CacheView {
            max_count: self.max_count,
            max_time: self.max_time,
            entries: answers(self.entries),
        }
    }
}

/// The model of an optional cache.
pub open spec fn opt_cache(c: Option<IgnoreCache>) -> Option<CacheView> {
    match c {
        Some(c) => Some(c@),
        None => None,
    }
}

/// The nanoseconds in a second.
pub const SECOND: u64 = 1_000_000_000;

/// Whether an answer that was given at `t` no longer holds.
pub open spec fn is_stale(t: u64, now: u64, max_time: u64) -> bool {
    now - t > max_time * SECOND
}

/// What the parts of a specification say of the count and the time.
pub open spec fn settings(parts: Seq<Text>) -> (usize, u64)
    decreases parts.len(),
{
    if parts.len() == 0 {
        (100, 3600)
    } else {
        let front = settings(parts.drop_last());
        let part = trim::trimmed(parts.last());
        match find::after_prefix(part, "max-count="@) {
            Some(v) => match number::unsigned_of(trim::trimmed(v), usize::MAX as nat) {
                Ok(n) => (n as usize, front.1),
                Err(_) => front,
            },
            None => match find::after_prefix(part, "max-time="@) {
                Some(v) => match time::time_of(trim::trimmed(v)) {
                    Ok(tv) => (front.0, time::seconds_or_max(tv)),
                    Err(_) => front,
                },
                None => front,
            },
        }
    }
}

/// The cache that a specification such as `key="ip", max-count=100,
/// max-time=1h` describes. There is none for an empty specification, nor for
/// a count of zero.
pub open spec fn cache_of(spec_text: Text) -> Option<CacheView> {
    let s = trim::trimmed(spec_text);
    let set = settings(split::pieces(s, ','));
    if s.len() == 0 || set.0 == 0 {
        None
    } else {
        Some(CacheView { max_count: set.0, max_time: set.1, entries: Seq::empty() })
    }
}

/// The answer that the cache gives for a key at a time.
pub open spec fn cached(c: CacheView, key: Text, now: u64) -> Option<bool> {
    match table::lookup(c.entries, key) {
        Some(v) => if is_stale(v.1, now, c.max_time) {
            None
        } else {
            Some(v.0)
        },
        None => None,
    }
}

/// The position of the first answer that no longer holds, or the number of
/// answers.
pub open spec fn first_stale(e: Seq<(Text, (bool, u64))>, now: u64, max_time: u64) -> int
    decreases e.len(),
{
    if e.len() == 0 || is_stale(e[0].1.1, now, max_time) {
        0
    } else {
        1 + first_stale(e.drop_first(), now, max_time)
    }
}

/// The answers with room made for one more: where there are `max_count`, the
/// first that no longer holds goes, or else the oldest.
pub open spec fn with_room(c: CacheView, now: u64) -> Seq<(Text, (bool, u64))> {
    let i = first_stale(c.entries, now, c.max_time);
    if c.entries.len() < c.max_count {
        c.entries
    } else if i < c.entries.len() {
        table::removed(c.entries, c.entries[i].0)
    } else if c.entries.len() > 0 {
        table::removed(c.entries, c.entries[0].0)
    } else {
        c.entries
    }
}

/// The answers that stay when an answer for a key comes in: all of them where
/// the key has one already, which the new one replaces.
pub open spec fn staying(c: CacheView, key: Text, now: u64) -> Seq<(Text, (bool, u64))> {
    if table::lookup(c.entries, key) is Some {
        c.entries
    } else {
        with_room(c, now)
    }
}

/// The cache after an answer for a key.
pub open spec fn with_answer(c: CacheView, key: Text, answer: bool, now: u64) -> CacheView {
    CacheView { entries: table::put(staying(c, key, now), key, (answer, now)), ..c }
}

fn stale(t: u64, now: u64, max_time: u64) -> (r: bool)
    ensures
        r == is_stale(t, now, max_time),
{
    assert(max_time as int * 1_000_000_000 <= u128::MAX);
    let limit: u128 = max_time as u128 * SECOND as u128;
    now >= t && (now - t) as u128 > limit
}

proof fn lemma_first_stale(e: Seq<(Text, (bool, u64))>, now: u64, max_time: u64, i: int)
    requires
        0 <= i <= e.len(),
        forall|k: int| 0 <= k < i ==> !is_stale((#[trigger] e[k]).1.1, now, max_time),
        i < e.len() ==> is_stale(e[i].1.1, now, max_time),
    ensures
        first_stale(e, now, max_time) == i,
    decreases i,
{
    if i > 0 {
        assert(!is_stale(e[0].1.1, now, max_time));
        let t = e.drop_first();
        assert forall|k: int| 0 <= k < i - 1 implies !is_stale((#[trigger] t[k]).1.1, now, max_time) by {
            assert(t[k] == e[k + 1]);
        }
        lemma_first_stale(t, now, max_time, i - 1);
    }
}

fn read_settings(parts: &Vec<String>) -> (r: (usize, u64))
    ensures
        r == settings(text::texts(parts@)),
{
    let ghost all = text::texts(parts@);
    let mut max_count: usize = 100;
    let mut max_time: u64 = 3600;
    let mut i: usize = 0;
    assert(all.take(0) =~= Seq::empty());
    while i < parts.len()
        invariant
            i <= parts.len() == all.len(),
            all == text::texts(parts@),
            (max_count, max_time) == settings(all.take(i as int)),
        decreases parts.len() - i,
    {
        proof {
            assert(all.take(i + 1).drop_last() =~= all.take(i as int));
            assert(all.take(i + 1).last() == parts@[i as int]@);
        }
        let part = trim::trim(parts[i].as_str());
        if let Some(v) = find::strip_prefix(part, "max-count=") {
            if let Ok(n) = number::parse_unsigned(trim::trim(v), usize::MAX as u64) {
                max_count = n as usize;
            }
        } else if let Some(v) = find::strip_prefix(part, "max-time=") {
            if let Ok(tv) = TimeValue::parse(trim::trim(v)) {
                max_time = tv.to_seconds_or_max();
            }
        }
        i += 1;
    }
    assert(all.take(i as int) =~= all);
    (max_count, max_time)
}

impl IgnoreCache {
    /// The cache that a specification describes, with no answers in it.
    pub fn parse(spec_text: &str) -> (r: Option<IgnoreCache>)
        ensures
            opt_cache(r) == cache_of(spec_text@),
    {
        let s = trim::trim(spec_text);
        if s.is_empty() {
            return None;
        }
        let parts = split::split(s, ',');
        let (max_count, max_time) = read_settings(&parts);
        if max_count == 0 {
            return None;
        }
        Some(IgnoreCache { max_count, max_time, entries: new_answers() })
    }

    /// The answer for a key, where there is one that still holds.
    pub fn get(&self, key: &str, now: u64) -> (r: Option<bool>)
        ensures
            r == cached(self@, key@, now),
    {
        match answer_of(&self.entries, key) {
            Some((answer, t)) => if stale(t, now, self.max_time) {
                None
            } else {
                Some(answer)
            },
            None => None,
        }
    }

    fn make_room(&mut self, now: u64)
        ensures
            final(self)@ == (CacheView { entries: with_room(old(self)@, now), ..old(self)@ }),
    {
        let n = answer_count(&self.entries);
        if n < self.max_count {
            return;
        }
        let ghost e = answers(self.entries);
        let mut i: usize = 0;
        while i < n
            invariant
                i <= n == e.len(),
                e == answers(self.entries),
                self@ == old(self)@,
                n >= self.max_count,
                forall|k: int| 0 <= k < i ==> !is_stale((#[trigger] e[k]).1.1, now, self.max_time),
            decreases n - i,
        {
            if let Some((key, value)) = answer_at(&self.entries, i) {
                if stale(value.1, now, self.max_time) {
                    let k = key.clone();
                    proof {
                        lemma_first_stale(e, now, self.max_time, i as int);
                    }
                    drop_answer(&mut self.entries, k.as_str());
                    return;
                }
            }
            i += 1;
        }
        proof {
            lemma_first_stale(e, now, self.max_time, n as int);
        }
        let first = match answer_at(&self.entries, 0) {
            Some((key, _)) => key.clone(),
            None => {
                return;
            },
        };
        drop_answer(&mut self.entries, first.as_str());
    }

    /// Remembers an answer. Where the cache is full and the key is new, the
    /// first answer that no longer holds goes, or else the oldest.
    pub fn insert(&mut self, key: String, answer: bool, now: u64)
        ensures
            final(self)@ == with_answer(old(self)@, key@, answer, now),
    {
        if answer_of(&self.entries, key.as_str()).is_none() {
            self.make_room(now);
        }
        set_answer(&mut self.entries, key, (answer, now));
    }
}

/// An answer is given back until it no longer holds.
pub proof fn law_answer_is_remembered(c: CacheView, key: Text, answer: bool, now: u64, later: u64)
    requires
        now <= later,
    ensures
        cached(with_answer(c, key, answer, now), key, later) == (if later - now <= c.max_time
            * SECOND {
            Some(answer)
        } else {
            None
        }),
{
    table::law_put_lookup(staying(c, key, now), key, (answer, now), key);
}

/// A new answer for a key that has one takes nothing from the other keys.
pub proof fn law_new_answer_keeps_the_others(
    c: CacheView,
    key: Text,
    answer: bool,
    now: u64,
    other: Text,
    later: u64,
)
    requires
        table::lookup(c.entries, key) is Some,
        other != key,
    ensures
        cached(with_answer(c, key, answer, now), other, later) == cached(c, other, later),
        with_answer(c, key, answer, now).entries.len() == c.entries.len(),
{
    table::law_put_lookup(c.entries, key, (answer, now), other);
    table::lemma_slot(c.entries, key);
}

/// A cache never holds more answers than its count allows.
pub proof fn law_cache_is_bounded(c: CacheView, key: Text, answer: bool, now: u64)
    requires
        c.max_count > 0,
        c.entries.len() <= c.max_count,
    ensures
        with_answer(c, key, answer, now).entries.len() <= c.max_count,
{
    let e = c.entries;
    let i = first_stale(e, now, c.max_time);
    lemma_first_stale_range(e, now, c.max_time);
    if e.len() >= c.max_count {
        let k = if i < e.len() {
            e[i].0
        } else {
            e[0].0
        };
        table::lemma_slot(e, k);
        if i < e.len() {
            assert(e[i].0 == k);
        } else {
            assert(e[0].0 == k);
        }
    }
    table::lemma_slot(e, key);
    table::lemma_slot(with_room(c, now), key);
}

proof fn lemma_first_stale_range(e: Seq<(Text, (bool, u64))>, now: u64, max_time: u64)
    ensures
        0 <= first_stale(e, now, max_time) <= e.len(),
    decreases e.len(),
{
    if e.len() > 0 && !is_stale(e[0].1.1, now, max_time) {
        lemma_first_stale_range(e.drop_first(), now, max_time);
    }
}

/// A cache holds a hundred answers for an hour, unless it is told otherwise:
/// what is told last counts.
pub proof fn law_cache_settings(parts: Seq<Text>, n: usize, other: Text)
    requires
        !find::starts(trim::trimmed(other), "max-"@),
    ensures
        settings(Seq::empty()) == (100usize, 3600u64),
        settings(parts.push("max-count="@ + number::decimal(n as nat))) == (n, settings(parts).1),
        settings(parts.push(other)) == settings(parts),
{
    reveal_strlit("max-count=");
    reveal_strlit("max-time=");
    reveal_strlit("max-");
    let d = number::decimal(n as nat);
    let p = "max-count="@ + d;
    let e = Seq::<char>::empty();
    number::lemma_decimal_digits(n as nat);
    assert(d.len() > 0 && text::is_digit(d[0]) && text::is_digit(d.last()));
    trim::law_white_space(d[0]);
    trim::law_white_space(d.last());
    trim::law_white_space('m');
    assert(p[0] == 'm' && p.last() == d.last());
    trim::law_trimmed(e, p, e);
    assert(e + p + e =~= p);
    trim::law_trimmed(e, d, e);
    assert(e + d + e =~= d);
    find::law_prefix_and_suffix("max-count="@, d);
    number::lemma_decimal_read(n as nat, usize::MAX as nat);
    assert(parts.push(p).drop_last() =~= parts);
    assert(parts.push(other).drop_last() =~= parts);
    let t = trim::trimmed(other);
    if find::starts(t, "max-count="@) {
        assert(t.take(4) =~= t.take(10).take(4));
        assert("max-count="@.take(4) =~= "max-"@);
    }
    if find::starts(t, "max-time="@) {
        assert(t.take(4) =~= t.take(9).take(4));
        assert("max-time="@.take(4) =~= "max-"@);
    }
}

/// The time that answers are kept is read as any time is.
pub proof fn law_cache_time(parts: Seq<Text>, v: Text, t: TimeValue)
    requires
        v.len() > 0,
        !trim::is_space(v[0]),
        !trim::is_space(v.last()),
        time::time_of(v) == Ok::<TimeValue, ErrorView>(t),
    ensures
        settings(parts.push("max-time="@ + v)) == (settings(parts).0, time::seconds_or_max(t)),
{
    reveal_strlit("max-count=");
    reveal_strlit("max-time=");
    let p = "max-time="@ + v;
    let e = Seq::<char>::empty();
    trim::law_white_space('m');
    assert(p[0] == 'm' && p.last() == v.last());
    trim::law_trimmed(e, p, e);
    assert(e + p + e =~= p);
    trim::law_trimmed(e, v, e);
    assert(e + v + e =~= v);
    find::law_prefix_and_suffix("max-time="@, v);
    assert(!find::starts(p, "max-count="@)) by {
        if find::starts(p, "max-count="@) {
            assert(p.take(10)[4] == 'c');
            assert(p[4] == 't');
        }
    }
    assert(parts.push(p).drop_last() =~= parts);
}

/// A full cache makes room for a new answer: the first stale answer goes, or
/// else the oldest.
pub proof fn law_room_is_made(c: CacheView, key: Text, answer: bool, now: u64, i: int)
    requires
        table::lookup(c.entries, key) is None,
        c.entries.len() >= c.max_count,
        0 <= i < c.entries.len(),
        forall|k: int|
            0 <= k < i ==> now - (#[trigger] c.entries[k]).1.1 <= c.max_time * 1_000_000_000,
    ensures
        now - c.entries[i].1.1 > c.max_time * 1_000_000_000 ==> with_answer(c, key, answer, now)
            == (CacheView {
            entries: table::put(
                table::removed(c.entries, c.entries[i].0),
                key,
                (answer, now),
            ),
            ..c
        }),
        i == c.entries.len() - 1 && now - c.entries[i].1.1 <= c.max_time * 1_000_000_000
            ==> with_answer(c, key, answer, now) == (CacheView {
            entries: table::put(
                table::removed(c.entries, c.entries[0].0),
                key,
                (answer, now),
            ),
            ..c
        }),
{
    if now - c.entries[i].1.1 > c.max_time * 1_000_000_000 {
        lemma_first_stale(c.entries, now, c.max_time, i);
    } else if i == c.entries.len() - 1 {
        lemma_first_stale(c.entries, now, c.max_time, i + 1);
    }
}

/// A cache that is not full keeps what it has; and no cache is made that could
/// hold nothing.
pub proof fn law_cache_keeps(c: CacheView, key: Text, answer: bool, now: u64, s: Text)
    requires
        c.entries.len() < c.max_count,
    ensures
        with_answer(c, key, answer, now).entries == table::put(c.entries, key, (answer, now)),
        trim::trimmed(s).len() == 0 ==> cache_of(s) is None,
        settings(split::pieces(trim::trimmed(s), ',')).0 == 0 ==> cache_of(s) is None,
        trim::trimmed(s).len() > 0 && settings(split::pieces(trim::trimmed(s), ',')).0 > 0 ==> {
            &&& cache_of(s) matches Some(k)
            &&& k.max_count == settings(split::pieces(trim::trimmed(s), ',')).0
            &&& k.max_time == settings(split::pieces(trim::trimmed(s), ',')).1
            &&& k.entries.len() == 0
        },
{
}

} // verus!
