//! The bans that are in force, and when they end.

use crate::filter::{MatchResult, MatchView};
use crate::ip::IpAddr;
use crate::server::failmanager;
use crate::server::failmanager::{FailTicket, FailView};
use crate::table;
use crate::table::Assoc;
use crate::text;
use crate::text::Text;
use crate::time;
use crate::time::Timestamp;
use vstd::prelude::*;

verus! {

/// A ban.
#[derive(Debug)]
pub struct BanTicket {
    /// The failure ID that is banned.
    pub host: String,
    /// The IP address that it stands for.
    pub ip: Option<IpAddr>,
    /// The user.
    pub user: Option<String>,
    /// The other user.
    pub alt_user: Option<String>,
    /// The ID of a failure over several lines.
    pub mlfid: Option<String>,
    /// When the ban started.
    pub time_of_ban: Timestamp,
    /// How many seconds the ban lasts; `None` for one without an end. A
    /// negative number lets it end before its start.
    pub bantime: Option<i128>,
    /// The lines that led to the ban.
    pub matches: Vec<String>,
    /// How many failures led to the ban.
    pub failures: u32,
}

/// The model of a ban.
#[verifier::ext_equal]
pub struct BanView {
    pub host: Text,
    pub ip: Option<IpAddr>,
    pub user: Option<Text>,
    pub alt_user: Option<Text>,
    pub mlfid: Option<Text>,
    pub time_of_ban: Timestamp,
    pub bantime: Option<i128>,
    pub matches: Seq<Text>,
    pub failures: u32,
}

impl View for BanTicket {
    type V = BanView;

    open spec fn view(&self) -> BanView {
        BanView {
            host: self.host@,
            ip: self.ip,
            user: text::opt_text(self.user),
            alt_user: text::opt_text(self.alt_user),
            mlfid: text::opt_text(self.mlfid),
            time_of_ban: self.time_of_ban,
            bantime: self.bantime,
            matches: text::texts(self.matches@),
            failures: self.failures,
        }
    }
}

/// When a ban ends: its start and its length, cut off at the first and the
/// last moment that can be represented. One without an end never does.
pub open spec fn end_of(b: BanView) -> Option<Timestamp> {
    match b.bantime {
        None => None,
        Some(n) => {
            let e = time::shifted(b.time_of_ban, n as int);
            if e.0 > i64::MAX {
                Some(Timestamp { secs: i64::MAX, nanos: 999999999 })
            } else if e.0 < i64::MIN {
                Some(Timestamp { secs: i64::MIN, nanos: 0 })
            } else {
                Some(Timestamp { secs: e.0 as i64, nanos: e.1 as u32 })
            }
        },
    }
}

/// Whether a ban is over at a moment.
pub open spec fn is_over(b: BanView, now: Timestamp) -> bool {
    match b.bantime {
        None => false,
        Some(n) => time::not_before(now, b.time_of_ban, n as int),
    }
}

impl Clone for BanTicket {
    fn clone(&self) -> (r: BanTicket)
        ensures
            r@ == self@,
    {
        BanTicket {
            host: self.host.clone(),
            ip: self.ip,
            user: text::copy_opt(&self.user),
            alt_user: text::copy_opt(&self.alt_user),
            mlfid: text::copy_opt(&self.mlfid),
            time_of_ban: self.time_of_ban,
            bantime: self.bantime,
            matches: text::copy_strings(&self.matches),
            failures: self.failures,
        }
    }
}

impl BanTicket {
    /// When the ban ends; `None` for one without an end.
    pub fn expires(&self) -> (r: Option<Timestamp>)
        ensures
            r == end_of(self@),
    {
        match self.bantime {
            None => None,
            Some(n) => {
                if n > time::MOST_SECONDS {
                    return Some(Timestamp { secs: i64::MAX, nanos: 999999999 });
                }
                if n < -time::MOST_SECONDS {
                    return Some(Timestamp { secs: i64::MIN, nanos: 0 });
                }
                let mut secs: i128 = self.time_of_ban.secs as i128 + n;
                let mut nanos: u32 = self.time_of_ban.nanos;
                if nanos >= 1000000000 && n != 0 {
                    nanos = nanos - 1000000000;
                    if n < 0 {
                        secs = secs + 1;
                    }
                }
                if secs > i64::MAX as i128 {
                    Some(Timestamp { secs: i64::MAX, nanos: 999999999 })
                } else if secs < i64::MIN as i128 {
                    Some(Timestamp { secs: i64::MIN, nanos: 0 })
                } else {
                    Some(Timestamp { secs: secs as i64, nanos })
                }
            },
        }
    }

    /// Whether the ban is over.
    pub fn is_expired(&self, now: Timestamp) -> (r: bool)
        ensures
            r == is_over(self@, now),
    {
        match self.bantime {
            None => false,
            Some(n) => now.reaches(self.time_of_ban, n),
        }
    }
}

/// The bans in force by host, and how many bans there have been.
pub struct BanState {
    pub bans: Seq<(Text, BanView)>,
    pub total: u64,
}

/// The state after a ban is added. A host that is banned already gets the new
/// ban in place of the old one, and the count stays.
pub open spec fn with_ban(st: BanState, b: BanView) -> BanState {
    BanState {
        bans: table::put(st.bans, b.host, b),
        total: if table::lookup(st.bans, b.host) is Some || st.total == u64::MAX {
            st.total
        } else {
            (st.total + 1) as u64
        },
    }
}

/// The bans that are over, or that are not, in their order.
pub open spec fn over(e: Seq<(Text, BanView)>, now: Timestamp, wanted: bool) -> Seq<
    (Text, BanView),
>
    decreases e.len(),
{
    if e.len() == 0 {
        Seq::empty()
    } else if is_over(e.last().1, now) == wanted {
        over(e.drop_last(), now, wanted).push(e.last())
    } else {
        over(e.drop_last(), now, wanted)
    }
}

/// The bans without the hosts under which they stand.
pub open spec fn tickets(e: Seq<(Text, BanView)>) -> Seq<BanView> {
    e.map_values(|p: (Text, BanView)| p.1)
}

/// The models of bans.
pub open spec fn ban_list(v: Seq<BanTicket>) -> Seq<BanView> {
    v.map_values(|b: BanTicket| b@)
}

/// Keeps the bans that are in force.
pub struct BanManager {
    pub bans: Assoc<BanTicket>,
    pub total_banned: u64,
}

/// The models of bans under their hosts.
pub open spec fn ban_views(e: Seq<(Text, BanTicket)>) -> Seq<(Text, BanView)> {
    table::mapped(e, |b: BanTicket| b@)
}

impl View for BanManager {
    type V = BanState;

    open spec fn view(&self) -> BanState {
        BanState { bans: ban_views(self.bans@), total: self.total_banned }
    }
}

/// The models of bans under their hosts.
pub open spec fn pair_views(v: Seq<(String, BanTicket)>) -> Seq<(Text, BanView)> {
    v.map_values(|p: (String, BanTicket)| (p.0@, p.1@))
}

impl BanManager {
    /// Each host has at most one ban, which is its own.
    pub open spec fn wf(&self) -> bool {
        &&& self.bans.wf()
        &&& own_hosts(self@.bans)
    }

    /// Without bans.
    pub fn new() -> (r: BanManager)
        ensures
            r.wf(),
            r@.bans == Seq::<(Text, BanView)>::empty(),
            r@.total == 0,
    {
        let r = BanManager { bans: Assoc::new(), total_banned: 0 };
        assert(r@.bans =~= Seq::<(Text, BanView)>::empty());
        r
    }

    /// Adds a ban; tells whether the host was not banned before.
    pub fn add_ban(&mut self, ticket: BanTicket) -> (r: bool)
        requires
            old(self).wf(),
        ensures
            final(self).wf(),
            final(self)@ == with_ban(old(self)@, ticket@),
            r == (table::lookup(old(self)@.bans, ticket@.host) is None),
    {
        let ghost e = self.bans@;
        let host = ticket.host.clone();
        let is_new = self.bans.get(host.as_str()).is_none();
        proof {
            let f = |b: BanTicket| b@;
            table::lemma_mapped(e, f, host@, ticket);
            assert(ban_views(e) =~= table::mapped(e, f));
            let after = table::put(e, host@, ticket);
            assert(ban_views(after) =~= table::mapped(after, f));
            lemma_own_put(self@.bans, ticket@);
        }
        self.bans.insert(host, ticket);
        if is_new {
            self.total_banned = self.total_banned.saturating_add(1);
        }
        is_new
    }

    /// Removes the ban of a host.
    pub fn remove_ban(&mut self, host: &str) -> (r: Option<BanTicket>)
        requires
            old(self).wf(),
        ensures
            final(self).wf(),
            final(self)@ == (BanState {
                bans: table::removed(old(self)@.bans, host@),
                total: old(self)@.total,
            }),
            match r {
                Some(b) => table::lookup(old(self)@.bans, host@) == Some(b@),
                None => table::lookup(old(self)@.bans, host@) is None,
            },
    {
        let ghost e = self.bans@;
        proof {
            let f = |b: BanTicket| b@;
            table::lemma_mapped(e, f, host@, arbitrary());
            table::lemma_mapped_removed(e, f, host@);
            assert(ban_views(e) =~= table::mapped(e, f));
            let after = table::removed(e, host@);
            assert(ban_views(after) =~= table::mapped(after, f));
            lemma_own_removed(self@.bans, host@);
        }
        self.bans.remove(host)
    }

    /// Whether a host is banned.
    pub fn is_banned(&self, host: &str) -> (r: bool)
        ensures
            r == (table::lookup(self@.bans, host@) is Some),
    {
        proof {
            let f = |b: BanTicket| b@;
            table::lemma_mapped(self.bans@, f, host@, arbitrary());
            assert(ban_views(self.bans@) =~= table::mapped(self.bans@, f));
        }
        self.bans.get(host).is_some()
    }

    /// A copy of all bans.
    pub fn snapshot(&self) -> (r: Vec<BanTicket>)
        ensures
            ban_list(r@) == tickets(self@.bans),
    {
        let mut out: Vec<BanTicket> = Vec::new();
        let mut i: usize = 0;
        while i < self.bans.items.len()
            invariant
                i <= self.bans.items.len(),
                out@.len() == i,
                forall|k: int| 0 <= k < i ==> (#[trigger] out@[k])@ == self.bans.items@[k].1@,
            decreases self.bans.items.len() - i,
        {
            out.push(self.bans.items[i].1.clone());
            i += 1;
        }
        assert(ban_list(out@) =~= tickets(self@.bans));
        out
    }

    /// The number of bans in force.
    pub fn current_banned(&self) -> (n: usize)
        ensures
            n == self@.bans.len(),
    {
        self.bans.len()
    }

    /// The number of bans that there have been.
    pub fn total_banned(&self) -> (n: u64)
        ensures
            n == self@.total,
    {
        self.total_banned
    }

    /// Removes the bans that are over; they come back.
    pub fn expired(&mut self, now: Timestamp) -> (r: Vec<BanTicket>)
        requires
            old(self).wf(),
        ensures
            final(self).wf(),
            final(self)@ == (BanState {
                bans: over(old(self)@.bans, now, false),
                total: old(self)@.total,
            }),
            ban_list(r@) == tickets(over(old(self)@.bans, now, true)),
    {
        let ghost e = self@.bans;
        let ghost total = self.total_banned;
        let mut kept: Vec<(String, BanTicket)> = Vec::new();
        let mut gone: Vec<BanTicket> = Vec::new();
        let mut i: usize = 0;
        proof {
            assert(e.take(0) =~= Seq::empty());
            assert(pair_views(kept@) =~= Seq::empty());
            assert(ban_list(gone@) =~= tickets(Seq::empty()));
            let f = |b: BanTicket| b@;
            table::lemma_mapped_removed(self.bans@, f, Seq::empty());
            assert(e =~= table::mapped(self.bans@, f));
        }
        while i < self.bans.items.len()
            invariant
                i <= self.bans.items.len(),
                e == self@.bans,
                total == self.total_banned,
                pair_views(kept@) == over(e.take(i as int), now, false),
                ban_list(gone@) == tickets(over(e.take(i as int), now, true)),
            decreases self.bans.items.len() - i,
        {
            let b = &self.bans.items[i].1;
            let ghost was_kept = kept@;
            let ghost was_gone = gone@;
            let ghost was_over = over(e.take(i as int), now, true);
            proof {
                assert(e.take(i + 1).drop_last() =~= e.take(i as int));
                assert(e.take(i + 1).last() == (self.bans.items@[i as int].0@, b@));
            }
            if b.is_expired(now) {
                let c = b.clone();
                gone.push(c);
                assert(ban_list(gone@) =~= ban_list(was_gone).push(c@));
                assert(tickets(was_over.push(e[i as int])) =~= tickets(was_over).push(
                    e[i as int].1,
                ));
            } else {
                let p = (self.bans.items[i].0.clone(), b.clone());
                kept.push(p);
                assert(pair_views(kept@) =~= pair_views(was_kept).push((p.0@, p.1@)));
            }
            i += 1;
        }
        proof {
            assert(e.take(i as int) =~= e);
            lemma_over(e, now, false);
        }
        self.bans = Assoc { items: kept };
        proof {
            let f = |b: BanTicket| b@;
            assert(self@.bans =~= pair_views(kept@));
            table::lemma_mapped_removed(self.bans@, f, Seq::empty());
            assert(self@.bans =~= table::mapped(self.bans@, f));
        }
        gone
    }

    /// Removes all bans; they come back.
    pub fn clear(&mut self) -> (r: Vec<BanTicket>)
        requires
            old(self).wf(),
        ensures
            final(self).wf(),
            final(self)@ == (BanState {
                bans: Seq::<(Text, BanView)>::empty(),
                total: old(self)@.total,
            }),
            ban_list(r@) == tickets(old(self)@.bans),
    {
        let all = self.snapshot();
        self.bans = Assoc::new();
        assert(self@.bans =~= Seq::<(Text, BanView)>::empty());
        all
    }
}

impl Default for BanManager {
    fn default() -> (r: BanManager)
        ensures
            r.wf(),
            r@.bans == Seq::<(Text, BanView)>::empty(),
            r@.total == 0,
    {
        BanManager::new()
    }
}

/// Whether each ban stands under its own host.
pub open spec fn own_hosts(e: Seq<(Text, BanView)>) -> bool {
    forall|i: int| 0 <= i < e.len() ==> (#[trigger] e[i]).0 == e[i].1.host
}

proof fn lemma_own_put(e: Seq<(Text, BanView)>, b: BanView)
    requires
        own_hosts(e),
    ensures
        own_hosts(table::put(e, b.host, b)),
{
    table::lemma_slot(e, b.host);
    let p = table::put(e, b.host, b);
    assert forall|i: int| 0 <= i < p.len() implies (#[trigger] p[i]).0 == p[i].1.host by {
        if i < e.len() && i != table::slot(e, b.host) {
            assert(p[i] == e[i]);
        }
    }
}

proof fn lemma_own_removed(e: Seq<(Text, BanView)>, host: Text)
    requires
        own_hosts(e),
    ensures
        own_hosts(table::removed(e, host)),
{
    let r = table::removed(e, host);
    let s = table::slot(e, host);
    table::lemma_slot(e, host);
    assert forall|i: int| 0 <= i < r.len() implies (#[trigger] r[i]).0 == r[i].1.host by {
        if s < e.len() {
            assert(r[i] == if i < s {
                e[i]
            } else {
                e[i + 1]
            });
        }
    }
}

proof fn lemma_over(e: Seq<(Text, BanView)>, now: Timestamp, wanted: bool)
    requires
        table::distinct(e),
        own_hosts(e),
    ensures
        table::distinct(over(e, now, wanted)),
        own_hosts(over(e, now, wanted)),
        forall|i: int|
            0 <= i < over(e, now, wanted).len() ==> e.contains(#[trigger] over(e, now, wanted)[i])
                && is_over(over(e, now, wanted)[i].1, now) == wanted,
        forall|i: int|
            0 <= i < e.len() && is_over((#[trigger] e[i]).1, now) == wanted ==> over(
                e,
                now,
                wanted,
            ).contains(e[i]),
    decreases e.len(),
{
    if e.len() > 0 {
        let d = e.drop_last();
        let last = e[e.len() - 1];
        assert forall|a: int, b: int| 0 <= a < b < d.len() implies (#[trigger] d[a]).0 != (
        #[trigger] d[b]).0 by {
            assert(e[a].0 != e[b].0);
        }
        assert forall|i: int| 0 <= i < d.len() implies (#[trigger] d[i]).0 == d[i].1.host by {
            assert(e[i].0 == e[i].1.host);
        }
        lemma_over(d, now, wanted);
        let l = over(e, now, wanted);
        let m = over(d, now, wanted);
        assert(last.0 == last.1.host);
        assert forall|i: int| 0 <= i < l.len() implies e.contains(#[trigger] l[i]) && is_over(
            l[i].1,
            now,
        ) == wanted && l[i].0 == l[i].1.host by {
            if i < m.len() {
                assert(l[i] == m[i]);
                let k = choose|k: int| 0 <= k < d.len() && d[k] == m[i];
                assert(e[k] == l[i]);
            }
        }
        assert forall|a: int, b: int| 0 <= a < b < l.len() implies (#[trigger] l[a]).0 != (
        #[trigger] l[b]).0 by {
            if b < m.len() {
                assert(m[a].0 != m[b].0);
            } else {
                assert(l[a] == m[a]);
                let k = choose|k: int| 0 <= k < d.len() && d[k] == m[a];
                assert(e[k].0 != e[e.len() - 1].0);
            }
        }
        assert forall|i: int| 0 <= i < e.len() && is_over((#[trigger] e[i]).1, now) == wanted implies
        l.contains(e[i]) by {
            if i < d.len() {
                assert(d[i] == e[i]);
                assert(m.contains(d[i]));
                let k = choose|k: int| 0 <= k < m.len() && m[k] == d[i];
                assert(l[k] == e[i]);
            } else {
                assert(l[m.len() as int] == last);
            }
        }
    }
}

/// A length in seconds, as a ban has it.
pub open spec fn length_of(n: Option<u64>) -> Option<i128> {
    match n {
        Some(n) => Some(n as i128),
        None => None,
    }
}

/// The length in seconds, as a ban has it.
pub fn wide_length(n: Option<u64>) -> (r: Option<i128>)
    ensures
        r == length_of(n),
{
    match n {
        Some(n) => Some(n as i128),
        None => None,
    }
}

/// The ban that failures lead to.
pub open spec fn ban_of(
    fail: FailView,
    m: MatchView,
    bantime: Option<u64>,
    now: Timestamp,
) -> BanView {
    BanView {
        host: fail.host,
        ip: failmanager::or_else(fail.ip, m.ip),
        user: failmanager::or_else(fail.user, m.user),
        alt_user: failmanager::or_else(fail.alt_user, m.alt_user),
        mlfid: failmanager::or_else(fail.mlfid, m.mlfid),
        time_of_ban: now,
        bantime: length_of(bantime),
        matches: fail.matches,
        failures: if fail.times.len() > u32::MAX {
            u32::MAX
        } else {
            fail.times.len() as u32
        },
    }
}

fn first_opt(a: &Option<String>, b: &Option<String>) -> (r: Option<String>)
    ensures
        text::opt_text(r) == failmanager::or_else(text::opt_text(*a), text::opt_text(*b)),
{
    match a {
        Some(s) => Some(s.clone()),
        None => text::copy_opt(b),
    }
}

/// Builds the ban that failures lead to, starting now.
pub fn ticket_from_fail(
    fail: &FailTicket,
    matches: &MatchResult,
    bantime_secs: Option<u64>,
    now: Timestamp,
) -> (r: BanTicket)
    ensures
        r@ == ban_of(fail@, matches@, bantime_secs, now),
{
    let n = fail.times.len();
    BanTicket {
        host: fail.host.clone(),
        ip: match fail.ip {
            Some(ip) => Some(ip),
            None => matches.ip,
        },
        user: first_opt(&fail.user, &matches.user),
        alt_user: first_opt(&fail.alt_user, &matches.alt_user),
        mlfid: first_opt(&fail.mlfid, &matches.mlfid),
        time_of_ban: now,
        bantime: wide_length(bantime_secs),
        matches: text::copy_strings(&fail.matches),
        failures: if n > u32::MAX as usize {
            u32::MAX
        } else {
            n as u32
        },
    }
}

/// Whether a host is banned.
pub open spec fn banned(st: BanState, host: Text) -> bool {
    table::lookup(st.bans, host) is Some
}

/// A host is banned once a ban is added, and other hosts are as they were.
pub proof fn law_added_ban_holds(st: BanState, b: BanView, other: Text)
    ensures
        banned(with_ban(st, b), b.host),
        other != b.host ==> banned(with_ban(st, b), other) == banned(st, other),
{
    table::law_put_lookup(st.bans, b.host, b, other);
}

/// Banning a host that is banned already does not count as a ban.
pub proof fn law_second_ban_not_counted(st: BanState, b: BanView, c: BanView)
    requires
        b.host == c.host,
    ensures
        with_ban(with_ban(st, b), c).total == with_ban(st, b).total,
        with_ban(with_ban(st, b), c).bans.len() == with_ban(st, b).bans.len(),
{
    table::law_put_lookup(st.bans, b.host, b, b.host);
    let e = table::put(st.bans, b.host, b);
    table::lemma_slot(e, b.host);
}

/// A removed ban is gone, and other hosts are as they were.
pub proof fn law_removed_ban_is_gone(st: BanState, host: Text, other: Text)
    requires
        table::distinct(st.bans),
    ensures
        table::lookup(table::removed(st.bans, host), host) is None,
        other != host ==> table::lookup(table::removed(st.bans, host), other) == table::lookup(
            st.bans,
            other,
        ),
{
    table::law_removed_lookup(st.bans, host, other);
}

/// What is taken out as over is over, what stays is not, and every ban is in
/// one of the two.
pub proof fn law_expiry_splits_bans(e: Seq<(Text, BanView)>, now: Timestamp, i: int)
    requires
        table::distinct(e),
        own_hosts(e),
        0 <= i < e.len(),
    ensures
        is_over(e[i].1, now) <==> over(e, now, true).contains(e[i]),
        !is_over(e[i].1, now) <==> over(e, now, false).contains(e[i]),
{
    lemma_over(e, now, true);
    lemma_over(e, now, false);
    if over(e, now, true).contains(e[i]) {
        let k = choose|k: int|
            0 <= k < over(e, now, true).len() && over(e, now, true)[k] == e[i];
        assert(is_over(over(e, now, true)[k].1, now));
    }
    if over(e, now, false).contains(e[i]) {
        let k = choose|k: int|
            0 <= k < over(e, now, false).len() && over(e, now, false)[k] == e[i];
        assert(!is_over(over(e, now, false)[k].1, now));
    }
}

/// A ban without an end is never over.
pub proof fn law_permanent_ban_never_over(b: BanView, now: Timestamp)
    requires
        b.bantime is None,
    ensures
        !is_over(b, now),
        end_of(b) is None,
{
}

/// Once over, a ban stays over.
pub proof fn law_over_stays_over(b: BanView, now: Timestamp, later: Timestamp)
    requires
        is_over(b, now),
        !time::earlier(later, now),
    ensures
        is_over(b, later),
{
}

/// A ban of `n` seconds is over once `n` seconds have passed since it began,
/// and not before; its end is `n` seconds after its beginning.
pub proof fn law_ban_lasts_its_length(b: BanView, n: int, now: Timestamp)
    requires
        b.bantime matches Some(x) && x == n,
        b.time_of_ban.nanos < 1000000000,
        now.nanos < 1000000000,
    ensures
        is_over(b, now) <==> now.secs * 1000000000 + now.nanos >= (b.time_of_ban.secs + n)
            * 1000000000 + b.time_of_ban.nanos,
        i64::MIN <= b.time_of_ban.secs + n <= i64::MAX ==> end_of(b) == Some(
            Timestamp {
                secs: (b.time_of_ban.secs + n) as i64,
                nanos: b.time_of_ban.nanos,
            },
        ) && is_over(b, end_of(b)->0),
{
    time::law_moments(now, b.time_of_ban, n);
}

/// A ban that is added is the one that holds, and counts where the host was
/// not banned.
pub proof fn law_added_ban_counts(st: BanState, b: BanView)
    requires
        st.total < u64::MAX,
    ensures
        table::lookup(with_ban(st, b).bans, b.host) == Some(b),
        table::lookup(st.bans, b.host) is None ==> with_ban(st, b).total == st.total + 1
            && with_ban(st, b).bans == st.bans.push((b.host, b)),
        table::lookup(st.bans, b.host) is Some ==> with_ban(st, b).total == st.total
            && with_ban(st, b).bans.len() == st.bans.len(),
{
    table::law_put_lookup(st.bans, b.host, b, b.host);
    table::lemma_slot(st.bans, b.host);
}

/// Bans are told apart one by one, in their order: those that are over go,
/// the others stay.
pub proof fn law_expiry_one_by_one(e: Seq<(Text, BanView)>, p: (Text, BanView), now: Timestamp)
    ensures
        over(Seq::empty(), now, true) == Seq::<(Text, BanView)>::empty(),
        over(Seq::empty(), now, false) == Seq::<(Text, BanView)>::empty(),
        is_over(p.1, now) ==> over(e.push(p), now, true) == over(e, now, true).push(p) && over(
            e.push(p),
            now,
            false,
        ) == over(e, now, false),
        !is_over(p.1, now) ==> over(e.push(p), now, false) == over(e, now, false).push(p) && over(
            e.push(p),
            now,
            true,
        ) == over(e, now, true),
{
    assert(e.push(p).drop_last() =~= e);
}

/// A ban is that of the host whose failures made it, begins now, lasts as long
/// as it was given, and tells of the failures: what they told first, and what
/// the last match tells where they told nothing.
pub proof fn law_ban_tells_of_failures(
    f: FailView,
    m: MatchView,
    bantime: Option<u64>,
    now: Timestamp,
)
    requires
        f.times.len() <= u32::MAX,
    ensures
        ({
            let b = ban_of(f, m, bantime, now);
            &&& b.host == f.host
            &&& b.time_of_ban == now
            &&& bantime is None <==> b.bantime is None
            &&& bantime matches Some(n) ==> (b.bantime matches Some(k) && k == n)
            &&& b.failures == f.times.len()
            &&& b.matches == f.matches
            &&& b.ip == (if f.ip is Some { f.ip } else { m.ip })
            &&& b.user == (if f.user is Some { f.user } else { m.user })
            &&& b.alt_user == (if f.alt_user is Some { f.alt_user } else { m.alt_user })
            &&& b.mlfid == (if f.mlfid is Some { f.mlfid } else { m.mlfid })
        }),
{
}

} // verus!
