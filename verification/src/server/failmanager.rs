//! Counting failures within a sliding window.

use crate::filter::{MatchResult, MatchView};
use crate::ip::IpAddr;
use crate::table;
use crate::table::Assoc;
use crate::text;
use crate::text::Text;
use crate::time;
use crate::time::Timestamp;
use vstd::prelude::*;

verus! {

/// The failures of one host.
#[derive(Debug)]
pub struct FailTicket {
    /// The failure ID.
    pub host: String,
    /// The IP address that it stands for.
    pub ip: Option<IpAddr>,
    /// The user.
    pub user: Option<String>,
    /// The other user.
    pub alt_user: Option<String>,
    /// The ID of a failure over several lines.
    pub mlfid: Option<String>,
    /// When the failures within the window happened.
    pub times: Vec<Timestamp>,
    /// The lines that matched.
    pub matches: Vec<String>,
    /// Whether the last match was no failure.
    pub nofail: bool,
}

/// The model of the failures of one host.
#[verifier::ext_equal]
pub struct FailView {
    pub host: Text,
    pub ip: Option<IpAddr>,
    pub user: Option<Text>,
    pub alt_user: Option<Text>,
    pub mlfid: Option<Text>,
    pub times: Seq<Timestamp>,
    pub matches: Seq<Text>,
    pub nofail: bool,
}

impl View for FailTicket {
    type V = FailView;

    open spec fn view(&self) -> FailView {
        FailView {
            host: self.host@,
            ip: self.ip,
            user: text::opt_text(self.user),
            alt_user: text::opt_text(self.alt_user),
            mlfid: text::opt_text(self.mlfid),
            times: self.times@,
            matches: text::texts(self.matches@),
            nofail: self.nofail,
        }
    }
}

/// What decides when failures lead to a ban.
pub struct FailRules {
    pub maxretry: nat,
    pub findtime: int,
    pub maxmatches: nat,
}

/// The failures of all hosts, and which host a failure over several lines
/// belongs to.
pub struct FailState {
    pub tickets: Seq<(Text, FailView)>,
    pub mlfids: Seq<(Text, Text)>,
}

/// Whether a moment lies within the window that ends now.
pub open spec fn in_window(t: Timestamp, now: Timestamp, findtime: int) -> bool {
    time::not_before(t, now, -findtime)
}

/// The moments that lie within the window, in their order.
pub open spec fn recent(times: Seq<Timestamp>, now: Timestamp, findtime: int) -> Seq<Timestamp>
    decreases times.len(),
{
    if times.len() == 0 {
        Seq::empty()
    } else if in_window(times.last(), now, findtime) {
        recent(times.drop_last(), now, findtime).push(times.last())
    } else {
        recent(times.drop_last(), now, findtime)
    }
}

/// A ticket without failures, for what a match tells.
pub open spec fn fresh_ticket(host: Text, m: MatchView) -> FailView {
    FailView {
        host,
        ip: m.ip,
        user: m.user,
        alt_user: m.alt_user,
        mlfid: m.mlfid,
        times: Seq::empty(),
        matches: Seq::empty(),
        nofail: m.nofail,
    }
}

/// The first of two that is there.
pub open spec fn or_else<A>(a: Option<A>, b: Option<A>) -> Option<A> {
    match a {
        Some(x) => Some(x),
        None => b,
    }
}

/// A ticket after a match at the moment `now`. Failures outside the window are
/// dropped. A success drops all of them. A match that is no failure leaves a
/// line and nothing else.
pub open spec fn noted(t: FailView, m: MatchView, now: Timestamp, rules: FailRules) -> FailView {
    let times = recent(t.times, now, rules.findtime);
    let base = FailView {
        host: t.host,
        ip: or_else(t.ip, m.ip),
        user: or_else(t.user, m.user),
        alt_user: or_else(t.alt_user, m.alt_user),
        mlfid: t.mlfid,
        times,
        matches: t.matches,
        nofail: t.nofail,
    };
    if m.mlfgained {
        FailView { times: Seq::empty(), ..base }
    } else {
        FailView {
            times: if m.nofail {
                times
            } else {
                times.push(now)
            },
            matches: if t.matches.len() < rules.maxmatches {
                t.matches.push(m.line)
            } else {
                t.matches
            },
            nofail: m.nofail,
            ..base
        }
    }
}

/// Whether a match turns a ticket into a ban: it is a failure, and there are
/// enough of them within the window.
pub open spec fn is_due(t: FailView, m: MatchView, rules: FailRules) -> bool {
    !m.mlfgained && !m.nofail && t.times.len() >= rules.maxretry
}

/// The host that a match belongs to.
pub open spec fn host_of(st: FailState, m: MatchView) -> Text {
    match m.mlfid {
        Some(id) => match table::lookup(st.mlfids, id) {
            Some(h) => h,
            None => m.host,
        },
        None => m.host,
    }
}

/// The ticket of the host that a match belongs to, after the match.
pub open spec fn ticket_after(
    st: FailState,
    m: MatchView,
    now: Timestamp,
    rules: FailRules,
) -> FailView {
    let host = host_of(st, m);
    let before = match table::lookup(st.tickets, host) {
        Some(t) => t,
        None => fresh_ticket(host, m),
    };
    noted(before, m, now, rules)
}

/// The failures after a match.
pub open spec fn after_match(
    st: FailState,
    m: MatchView,
    now: Timestamp,
    rules: FailRules,
) -> FailState {
    let host = host_of(st, m);
    FailState {
        tickets: table::put(st.tickets, host, ticket_after(st, m, now, rules)),
        mlfids: match m.mlfid {
            Some(id) => table::put(st.mlfids, id, host),
            None => st.mlfids,
        },
    }
}

/// The ticket that a match turns into a ban.
pub open spec fn ban_due(
    st: FailState,
    m: MatchView,
    now: Timestamp,
    rules: FailRules,
) -> Option<FailView> {
    let t = ticket_after(st, m, now, rules);
    if is_due(t, m, rules) {
        Some(t)
    } else {
        None
    }
}

/// Whether a ticket has a failure within the window.
pub open spec fn is_live(t: FailView, now: Timestamp, findtime: int) -> bool {
    exists|i: int| 0 <= i < t.times.len() && in_window(#[trigger] t.times[i], now, findtime)
}

/// The tickets that have a failure within the window, in their order.
pub open spec fn live(e: Seq<(Text, FailView)>, now: Timestamp, findtime: int) -> Seq<
    (Text, FailView),
>
    decreases e.len(),
{
    if e.len() == 0 {
        Seq::empty()
    } else if is_live(e.last().1, now, findtime) {
        live(e.drop_last(), now, findtime).push(e.last())
    } else {
        live(e.drop_last(), now, findtime)
    }
}

/// The number of failures of all tickets.
pub open spec fn failure_count(e: Seq<(Text, FailView)>) -> nat
    decreases e.len(),
{
    if e.len() == 0 {
        0
    } else {
        failure_count(e.drop_last()) + e.last().1.times.len()
    }
}

fn copy_times(v: &Vec<Timestamp>) -> (r: Vec<Timestamp>)
    ensures
        r@ == v@,
{
    let mut out: Vec<Timestamp> = Vec::new();
    let mut i: usize = 0;
    while i < v.len()
        invariant
            i <= v.len(),
            out@ == v@.take(i as int),
        decreases v.len() - i,
    {
        out.push(v[i]);
        i += 1;
        assert(out@ =~= v@.take(i as int));
    }
    assert(v@.take(i as int) =~= v@);
    out
}

fn keep_recent(v: &Vec<Timestamp>, now: Timestamp, findtime: i64) -> (r: Vec<Timestamp>)
    ensures
        r@ == recent(v@, now, findtime as int),
{
    let mut out: Vec<Timestamp> = Vec::new();
    let mut i: usize = 0;
    assert(v@.take(0) =~= Seq::empty());
    while i < v.len()
        invariant
            i <= v.len(),
            out@ == recent(v@.take(i as int), now, findtime as int),
        decreases v.len() - i,
    {
        proof {
            assert(v@.take(i + 1).drop_last() =~= v@.take(i as int));
            assert(v@.take(i + 1).last() == v@[i as int]);
        }
        let t = v[i];
        if t.reaches(now, -(findtime as i128)) {
            out.push(t);
        }
        i += 1;
    }
    assert(v@.take(i as int) =~= v@);
    out
}

impl Clone for FailTicket {
    fn clone(&self) -> (r: FailTicket)
        ensures
            r@ == self@,
    {
        FailTicket {
            host: self.host.clone(),
            ip: self.ip,
            user: text::copy_opt(&self.user),
            alt_user: text::copy_opt(&self.alt_user),
            mlfid: text::copy_opt(&self.mlfid),
            times: copy_times(&self.times),
            matches: text::copy_strings(&self.matches),
            nofail: self.nofail,
        }
    }
}

impl FailTicket {
    /// The number of failures.
    pub fn count(&self) -> (n: usize)
        ensures
            n == self@.times.len(),
    {
        self.times.len()
    }

    /// When the last failure happened.
    pub fn last_seen(&self) -> (r: Option<Timestamp>)
        ensures
            r == (if self@.times.len() > 0 {
                Some(self@.times.last())
            } else {
                None
            }),
    {
        let n = self.times.len();
        if n > 0 {
            Some(self.times[n - 1])
        } else {
            None
        }
    }

    fn fresh(host: &str, m: &MatchResult) -> (r: FailTicket)
        ensures
            r@ == fresh_ticket(host@, m@),
    {
        let r = FailTicket {
            host: host.to_owned(),
            ip: m.ip,
            user: text::copy_opt(&m.user),
            alt_user: text::copy_opt(&m.alt_user),
            mlfid: text::copy_opt(&m.mlfid),
            times: Vec::new(),
            matches: Vec::new(),
            nofail: m.nofail,
        };
        assert(r@ =~= fresh_ticket(host@, m@));
        r
    }

    fn note(&mut self, m: &MatchResult, now: Timestamp, findtime: i64, maxmatches: usize)
        ensures
            final(self)@ == noted(
                old(self)@,
                m@,
                now,
                (FailRules { maxretry: 0, findtime: findtime as int, maxmatches: maxmatches as nat }),
            ),
    {
        self.times = keep_recent(&self.times, now, findtime);
        if self.ip.is_none() {
            self.ip = m.ip;
        }
        if self.user.is_none() {
            self.user = text::copy_opt(&m.user);
        }
        if self.alt_user.is_none() {
            self.alt_user = text::copy_opt(&m.alt_user);
        }
        if m.mlfgained {
            self.times = Vec::new();
            return;
        }
        if !m.nofail {
            self.times.push(now);
        }
        if self.matches.len() < maxmatches {
            let line = m.line.clone();
            proof {
                text::lemma_texts_push(self.matches@, line);
            }
            self.matches.push(line);
        }
        self.nofail = m.nofail;
    }
}

/// Counts failures per host within a sliding window.
pub struct FailManager {
    pub tickets: Assoc<FailTicket>,
    pub mlfids: Assoc<String>,
    pub maxretry: u32,
    pub findtime: i64,
    pub maxmatches: u32,
}

/// The models of tickets under their hosts.
pub open spec fn ticket_views(e: Seq<(Text, FailTicket)>) -> Seq<(Text, FailView)> {
    table::mapped(e, |t: FailTicket| t@)
}

/// The models of strings under their keys.
pub open spec fn string_views(e: Seq<(Text, String)>) -> Seq<(Text, Text)> {
    table::mapped(e, |s: String| s@)
}

impl View for FailManager {
    type V = FailState;

    open spec fn view(&self) -> FailState {
        FailState { tickets: ticket_views(self.tickets@), mlfids: string_views(self.mlfids@) }
    }
}

impl FailManager {
    /// Each host has one ticket, and each ID one host.
    pub open spec fn wf(&self) -> bool {
        self.tickets.wf() && self.mlfids.wf()
    }

    /// What decides when failures lead to a ban.
    pub open spec fn rules(&self) -> FailRules {
        FailRules {
            maxretry: self.maxretry as nat,
            findtime: self.findtime as int,
            maxmatches: self.maxmatches as nat,
        }
    }

    /// Without failures.
    pub fn new(maxretry: u32, findtime_secs: i64, maxmatches: u32) -> (r: FailManager)
        ensures
            r.wf(),
            r@.tickets == Seq::<(Text, FailView)>::empty(),
            r@.mlfids == Seq::<(Text, Text)>::empty(),
            r.rules() == (FailRules {
                maxretry: maxretry as nat,
                findtime: findtime_secs as int,
                maxmatches: maxmatches as nat,
            }),
    {
        let r = FailManager {
            tickets: Assoc::new(),
            mlfids: Assoc::new(),
            maxretry,
            findtime: findtime_secs,
            maxmatches,
        };
        assert(r@.tickets =~= Seq::<(Text, FailView)>::empty());
        assert(r@.mlfids =~= Seq::<(Text, Text)>::empty());
        r
    }

    /// Takes in a match. `clock` is the current moment, for matches without a
    /// date. Where the failures are enough for a ban, the ticket comes back.
    pub fn add_failure(&mut self, m: &MatchResult, clock: Timestamp) -> (r: Option<FailTicket>)
        requires
            old(self).wf(),
        ensures
            final(self).wf(),
            final(self).rules() == old(self).rules(),
            ({
                let now = match m@.timestamp {
                    Some(t) => t,
                    None => clock,
                };
                &&& final(self)@ == after_match(old(self)@, m@, now, old(self).rules())
                &&& match r {
                    Some(t) => ban_due(old(self)@, m@, now, old(self).rules()) == Some(t@),
                    None => ban_due(old(self)@, m@, now, old(self).rules()) is None,
                }
            }),
    {
        let ghost st = self@;
        let ghost tf = |t: FailTicket| t@;
        let ghost sf = |s: String| s@;
        let ghost tickets = self.tickets@;
        let ghost mlfids = self.mlfids@;
        proof {
            assert(st.tickets =~= table::mapped(tickets, tf));
            assert(st.mlfids =~= table::mapped(mlfids, sf));
        }
        let mut host: String = m.host.clone();
        if let Some(id) = &m.mlfid {
            if let Some(h) = self.mlfids.get(id.as_str()) {
                host = h.clone();
            }
            proof {
                table::lemma_mapped(mlfids, sf, id@, host);
                let after = table::put(mlfids, id@, host);
                assert(string_views(after) =~= table::mapped(after, sf));
            }
            self.mlfids.insert(id.clone(), host.clone());
        }
        assert(host@ == host_of(st, m@));
        let now = match m.timestamp {
            Some(t) => t,
            None => clock,
        };
        let mut ticket = match self.tickets.get(host.as_str()) {
            Some(t) => t.clone(),
            None => FailTicket::fresh(host.as_str(), m),
        };
        proof {
            table::lemma_mapped(tickets, tf, host@, ticket);
        }
        ticket.note(m, now, self.findtime, self.maxmatches as usize);
        proof {
            table::lemma_mapped(tickets, tf, host@, ticket);
            let after = table::put(tickets, host@, ticket);
            assert(ticket_views(after) =~= table::mapped(after, tf));
            assert(ticket@ == ticket_after(st, m@, now, self.rules()));
        }
        let due = !m.mlfgained && !m.nofail && ticket.times.len() >= self.maxretry as usize;
        let result = if due {
            Some(ticket.clone())
        } else {
            None
        };
        self.tickets.insert(host, ticket);
        result
    }

    /// Forgets which host a failure over several lines belongs to.
    pub fn forget_mlfid(&mut self, mlfid: &str)
        requires
            old(self).wf(),
        ensures
            final(self).wf(),
            final(self).rules() == old(self).rules(),
            final(self)@ == (FailState {
                tickets: old(self)@.tickets,
                mlfids: table::removed(old(self)@.mlfids, mlfid@),
            }),
    {
        proof {
            let sf = |s: String| s@;
            let before = self.mlfids@;
            table::lemma_mapped_removed(before, sf, mlfid@);
            assert(string_views(before) =~= table::mapped(before, sf));
            let after = table::removed(before, mlfid@);
            assert(string_views(after) =~= table::mapped(after, sf));
        }
        let _ = self.mlfids.remove(mlfid);
    }

    /// Removes the ticket of a host.
    pub fn remove(&mut self, host: &str) -> (r: Option<FailTicket>)
        requires
            old(self).wf(),
        ensures
            final(self).wf(),
            final(self).rules() == old(self).rules(),
            final(self)@ == (FailState {
                tickets: table::removed(old(self)@.tickets, host@),
                mlfids: old(self)@.mlfids,
            }),
            match r {
                Some(t) => table::lookup(old(self)@.tickets, host@) == Some(t@),
                None => table::lookup(old(self)@.tickets, host@) is None,
            },
    {
        proof {
            let tf = |t: FailTicket| t@;
            let before = self.tickets@;
            table::lemma_mapped(before, tf, host@, arbitrary());
            table::lemma_mapped_removed(before, tf, host@);
            assert(ticket_views(before) =~= table::mapped(before, tf));
            let after = table::removed(before, host@);
            assert(ticket_views(after) =~= table::mapped(after, tf));
        }
        self.tickets.remove(host)
    }

    /// A copy of all tickets.
    pub fn snapshot(&self) -> (r: Vec<FailTicket>)
        ensures
            r@.map_values(|t: FailTicket| t@) == self@.tickets.map_values(
                |p: (Text, FailView)| p.1,
            ),
    {
        let mut out: Vec<FailTicket> = Vec::new();
        let mut i: usize = 0;
        while i < self.tickets.items.len()
            invariant
                i <= self.tickets.items.len(),
                out@.len() == i,
                forall|k: int| 0 <= k < i ==> (#[trigger] out@[k])@ == self.tickets.items@[k].1@,
            decreases self.tickets.items.len() - i,
        {
            out.push(self.tickets.items[i].1.clone());
            i += 1;
        }
        assert(out@.map_values(|t: FailTicket| t@) =~= self@.tickets.map_values(
            |p: (Text, FailView)| p.1,
        ));
        out
    }

    /// The number of hosts with a ticket.
    pub fn current_failed(&self) -> (n: usize)
        ensures
            n == self@.tickets.len(),
    {
        self.tickets.len()
    }

    /// The number of failures of all hosts, where it fits the machine's
    /// integers, and otherwise the largest of them.
    pub fn total_failed(&self) -> (n: usize)
        ensures
            n == (if failure_count(self@.tickets) > usize::MAX {
                usize::MAX as nat
            } else {
                failure_count(self@.tickets)
            }),
    {
        let ghost e = self@.tickets;
        let mut n: usize = 0;
        let mut i: usize = 0;
        assert(e.take(0) =~= Seq::empty());
        while i < self.tickets.items.len()
            invariant
                i <= self.tickets.items.len(),
                e == self@.tickets,
                n == (if failure_count(e.take(i as int)) > usize::MAX {
                    usize::MAX as nat
                } else {
                    failure_count(e.take(i as int))
                }),
            decreases self.tickets.items.len() - i,
        {
            let k = self.tickets.items[i].1.times.len();
            proof {
                assert(e.take(i + 1).drop_last() =~= e.take(i as int));
                assert(e.take(i + 1).last().1 == self.tickets.items@[i as int].1@);
            }
            n = n.saturating_add(k);
            i += 1;
        }
        assert(e.take(i as int) =~= e);
        n
    }

    /// Drops the tickets without a failure within the window.
    pub fn purge(&mut self, now: Timestamp)
        requires
            old(self).wf(),
        ensures
            final(self).wf(),
            final(self).rules() == old(self).rules(),
            final(self)@ == (FailState {
                tickets: live(old(self)@.tickets, now, old(self).rules().findtime),
                mlfids: old(self)@.mlfids,
            }),
    {
        let ghost e = self@.tickets;
        let ghost f = self.findtime as int;
        let ghost ids = self.mlfids;
        let mut kept: Vec<(String, FailTicket)> = Vec::new();
        let mut i: usize = 0;
        proof {
            assert(e.take(0) =~= Seq::empty());
            assert(pair_views(kept@) =~= Seq::empty());
            let tf = |t: FailTicket| t@;
            table::lemma_mapped_removed(self.tickets@, tf, Seq::empty());
            assert(e =~= table::mapped(self.tickets@, tf));
        }
        while i < self.tickets.items.len()
            invariant
                i <= self.tickets.items.len(),
                e == self@.tickets,
                f == self.findtime,
                pair_views(kept@) == live(e.take(i as int), now, f),
            decreases self.tickets.items.len() - i,
        {
            let t = &self.tickets.items[i].1;
            proof {
                assert(e.take(i + 1).drop_last() =~= e.take(i as int));
                assert(e.take(i + 1).last().1 == t@);
                assert(e.take(i + 1).last().0 == self.tickets.items@[i as int].0@);
            }
            if has_recent(t, now, self.findtime) {
                let ghost before = kept@;
                let p = (self.tickets.items[i].0.clone(), t.clone());
                kept.push(p);
                assert(pair_views(kept@) =~= pair_views(before).push((p.0@, p.1@)));
            }
            i += 1;
        }
        proof {
            assert(e.take(i as int) =~= e);
            lemma_live_distinct(e, now, f);
        }
        self.tickets = Assoc { items: kept };
        proof {
            let tf = |t: FailTicket| t@;
            assert(self@.tickets =~= pair_views(kept@));
            table::lemma_mapped_removed(self.tickets@, tf, Seq::empty());
            assert(self@.tickets =~= table::mapped(self.tickets@, tf));
        }
    }
}

/// The models of tickets under their hosts.
pub open spec fn pair_views(v: Seq<(String, FailTicket)>) -> Seq<(Text, FailView)> {
    v.map_values(|p: (String, FailTicket)| (p.0@, p.1@))
}

fn has_recent(t: &FailTicket, now: Timestamp, findtime: i64) -> (r: bool)
    ensures
        r == is_live(t@, now, findtime as int),
{
    let mut i: usize = 0;
    while i < t.times.len()
        invariant
            i <= t.times.len(),
            forall|k: int|
                0 <= k < i ==> !in_window(#[trigger] t@.times[k], now, findtime as int),
        decreases t.times.len() - i,
    {
        if t.times[i].reaches(now, -(findtime as i128)) {
            assert(in_window(t@.times[i as int], now, findtime as int));
            return true;
        }
        i += 1;
    }
    false
}

proof fn lemma_live_distinct(e: Seq<(Text, FailView)>, now: Timestamp, f: int)
    requires
        table::distinct(e),
    ensures
        table::distinct(live(e, now, f)),
        forall|i: int|
            0 <= i < live(e, now, f).len() ==> e.contains(#[trigger] live(e, now, f)[i]),
    decreases e.len(),
{
    if e.len() > 0 {
        let d = e.drop_last();
        assert forall|a: int, b: int| 0 <= a < b < d.len() implies (#[trigger] d[a]).0 != (
        #[trigger] d[b]).0 by {
            assert(e[a].0 != e[b].0);
        }
        lemma_live_distinct(d, now, f);
        let l = live(e, now, f);
        let m = live(d, now, f);
        assert forall|i: int| 0 <= i < l.len() implies e.contains(#[trigger] l[i]) by {
            if i < m.len() {
                assert(l[i] == m[i]);
                let k = choose|k: int| 0 <= k < d.len() && d[k] == m[i];
                assert(e[k] == l[i]);
            } else {
                assert(e[e.len() - 1] == l[i]);
            }
        }
        assert forall|a: int, b: int| 0 <= a < b < l.len() implies (#[trigger] l[a]).0 != (
        #[trigger] l[b]).0 by {
            if b < m.len() {
                assert(m[a].0 != m[b].0);
            } else {
                assert(l[a] == m[a]);
                let k = choose|k: int| 0 <= k < d.len() && d[k] == m[a];
                assert(e[k].0 != e[e.len() - 1].0);
            }
        }
    }
}

/// The failures of a host that lie within the window.
pub open spec fn failures_within(
    st: FailState,
    host: Text,
    now: Timestamp,
    findtime: int,
) -> Seq<Timestamp> {
    match table::lookup(st.tickets, host) {
        Some(t) => recent(t.times, now, findtime),
        None => Seq::empty(),
    }
}

/// A ban is due exactly when a match is a failure and makes the failures of
/// its host within the window at least as many as are allowed.
pub proof fn law_ban_iff_enough_failures(
    st: FailState,
    m: MatchView,
    now: Timestamp,
    rules: FailRules,
)
    ensures
        ban_due(st, m, now, rules) is Some <==> !m.mlfgained && !m.nofail && failures_within(
            st,
            host_of(st, m),
            now,
            rules.findtime,
        ).len() + 1 >= rules.maxretry,
{
}

/// A match that is no failure never leads to a ban, and neither does a success.
pub proof fn law_no_failure_no_ban(st: FailState, m: MatchView, now: Timestamp, rules: FailRules)
    requires
        m.nofail || m.mlfgained,
    ensures
        ban_due(st, m, now, rules) is None,
{
}

/// A success leaves a host without failures.
pub proof fn law_success_clears_failures(
    st: FailState,
    m: MatchView,
    now: Timestamp,
    rules: FailRules,
)
    requires
        m.mlfgained,
    ensures
        table::lookup(after_match(st, m, now, rules).tickets, host_of(st, m)) matches Some(t)
            && t.times.len() == 0,
{
    let host = host_of(st, m);
    table::law_put_lookup(st.tickets, host, ticket_after(st, m, now, rules), host);
}

/// A match concerns one host: the failures of all others stay as they are.
pub proof fn law_other_hosts_untouched(
    st: FailState,
    m: MatchView,
    now: Timestamp,
    rules: FailRules,
    other: Text,
)
    requires
        other != host_of(st, m),
    ensures
        table::lookup(after_match(st, m, now, rules).tickets, other) == table::lookup(
            st.tickets,
            other,
        ),
{
    let host = host_of(st, m);
    table::law_put_lookup(st.tickets, host, ticket_after(st, m, now, rules), other);
}

/// Whatever came before, the failures that count after a match all lie within
/// the window, or happened just now.
pub proof fn law_counted_failures_are_recent(
    st: FailState,
    m: MatchView,
    now: Timestamp,
    rules: FailRules,
)
    ensures
        forall|i: int|
            0 <= i < ticket_after(st, m, now, rules).times.len() ==> in_window(
                #[trigger] ticket_after(st, m, now, rules).times[i],
                now,
                rules.findtime,
            ) || ticket_after(st, m, now, rules).times[i] == now,
{
    let before = match table::lookup(st.tickets, host_of(st, m)) {
        Some(t) => t,
        None => fresh_ticket(host_of(st, m), m),
    };
    lemma_recent(before.times, now, rules.findtime);
}

proof fn lemma_recent(times: Seq<Timestamp>, now: Timestamp, findtime: int)
    ensures
        forall|i: int|
            0 <= i < recent(times, now, findtime).len() ==> in_window(
                #[trigger] recent(times, now, findtime)[i],
                now,
                findtime,
            ),
    decreases times.len(),
{
    if times.len() > 0 {
        lemma_recent(times.drop_last(), now, findtime);
        let r = recent(times, now, findtime);
        let d = recent(times.drop_last(), now, findtime);
        assert forall|i: int| 0 <= i < r.len() implies in_window(#[trigger] r[i], now, findtime) by {
            if i < d.len() {
                assert(r[i] == d[i]);
            }
        }
    }
}

/// A failure over several lines is counted for the host that it was first
/// seen with.
pub proof fn law_mlfid_keeps_its_host(
    st: FailState,
    m: MatchView,
    now: Timestamp,
    rules: FailRules,
    next: MatchView,
)
    requires
        m.mlfid is Some,
        next.mlfid == m.mlfid,
    ensures
        host_of(after_match(st, m, now, rules), next) == host_of(st, m),
{
    table::law_put_lookup(st.mlfids, m.mlfid->0, host_of(st, m), m.mlfid->0);
}

/// The failures after a run of matches, each with its moment, from none on.
pub open spec fn after_run(calls: Seq<(MatchView, Timestamp)>, rules: FailRules) -> FailState
    decreases calls.len(),
{
    if calls.len() == 0 {
        FailState { tickets: Seq::empty(), mlfids: Seq::empty() }
    } else {
        after_match(after_run(calls.drop_last(), rules), calls.last().0, calls.last().1, rules)
    }
}

/// How many matches of a run count against a host: its failures after its last
/// success that lie within the window.
pub open spec fn counted(
    calls: Seq<(MatchView, Timestamp)>,
    host: Text,
    now: Timestamp,
    findtime: int,
) -> nat
    decreases calls.len(),
{
    if calls.len() == 0 {
        0
    } else {
        let (m, t) = calls.last();
        let before = counted(calls.drop_last(), host, now, findtime);
        if m.host != host {
            before
        } else if m.mlfgained {
            0
        } else if !m.nofail && in_window(t, now, findtime) {
            before + 1
        } else {
            before
        }
    }
}

/// Whether the match at `i` is a failure of a host, with no success of the
/// host after it.
pub open spec fn open_failure(calls: Seq<(MatchView, Timestamp)>, host: Text, i: int) -> bool {
    &&& 0 <= i < calls.len()
    &&& calls[i].0.host == host
    &&& !calls[i].0.nofail
    &&& forall|k: int|
        i <= k < calls.len() && (#[trigger] calls[k]).0.host == host ==> !calls[k].0.mlfgained
}

/// Whether no failure of a host left the window on the way and lies within it
/// now.
pub open spec fn steady(
    calls: Seq<(MatchView, Timestamp)>,
    host: Text,
    now: Timestamp,
    findtime: int,
) -> bool {
    forall|i: int, j: int|
        open_failure(calls, host, i) && i < j < calls.len() && calls[j].0.host == host && in_window(
            calls[i].1,
            now,
            findtime,
        ) ==> in_window((#[trigger] calls[i]).1, (#[trigger] calls[j]).1, findtime)
}

/// Whether no match of a run belongs to a failure over several lines.
pub open spec fn single_lines(calls: Seq<(MatchView, Timestamp)>) -> bool {
    forall|i: int| 0 <= i < calls.len() ==> (#[trigger] calls[i]).0.mlfid is None
}

/// Whether the moments of a run never go back, none comes after `now`, and
/// none is in a leap second.
pub open spec fn in_order(calls: Seq<(MatchView, Timestamp)>, now: Timestamp) -> bool {
    &&& now.nanos < 1000000000
    &&& forall|i: int|
        0 <= i < calls.len() ==> (#[trigger] calls[i]).1.nanos < 1000000000 && !time::earlier(
            now,
            calls[i].1,
        )
    &&& forall|i: int, j: int|
        0 <= i < j < calls.len() ==> !time::earlier((#[trigger] calls[j]).1, (
        #[trigger] calls[i]).1)
}

proof fn lemma_recent_from(times: Seq<Timestamp>, now: Timestamp, findtime: int)
    ensures
        forall|i: int|
            0 <= i < recent(times, now, findtime).len() ==> times.contains(
                #[trigger] recent(times, now, findtime)[i],
            ),
    decreases times.len(),
{
    if times.len() > 0 {
        let f = times.drop_last();
        lemma_recent_from(f, now, findtime);
        let r = recent(times, now, findtime);
        let d = recent(f, now, findtime);
        assert forall|i: int| 0 <= i < r.len() implies times.contains(#[trigger] r[i]) by {
            if i < d.len() {
                assert(f.contains(d[i]));
                let k = choose|k: int| 0 <= k < f.len() && f[k] == d[i];
                assert(times[k] == r[i]);
            } else {
                assert(times[times.len() - 1] == r[i]);
            }
        }
    }
}

proof fn lemma_recent_twice(
    times: Seq<Timestamp>,
    mid: Timestamp,
    now: Timestamp,
    findtime: int,
)
    requires
        forall|i: int|
            0 <= i < times.len() && in_window(#[trigger] times[i], now, findtime) ==> in_window(
                times[i],
                mid,
                findtime,
            ),
    ensures
        recent(recent(times, mid, findtime), now, findtime) == recent(times, now, findtime),
    decreases times.len(),
{
    if times.len() > 0 {
        let f = times.drop_last();
        assert forall|i: int|
            0 <= i < f.len() && in_window(#[trigger] f[i], now, findtime) implies in_window(
            f[i],
            mid,
            findtime,
        ) by {
            assert(f[i] == times[i]);
        }
        lemma_recent_twice(f, mid, now, findtime);
        let x = times.last();
        assert(x == times[times.len() - 1]);
        let r = recent(f, mid, findtime);
        if in_window(x, mid, findtime) {
            assert(r.push(x).drop_last() =~= r);
        }
    }
}

proof fn lemma_open_shorter(calls: Seq<(MatchView, Timestamp)>, host: Text, i: int)
    requires
        calls.len() > 0,
        0 <= i < calls.len() - 1,
        calls.last().0.host == host ==> !calls.last().0.mlfgained,
    ensures
        open_failure(calls.drop_last(), host, i) == open_failure(calls, host, i),
{
    let d = calls.drop_last();
    if open_failure(d, host, i) {
        assert forall|k: int|
            i <= k < calls.len() && (#[trigger] calls[k]).0.host
                == host implies !calls[k].0.mlfgained by {
            if k < d.len() {
                assert(d[k] == calls[k]);
            }
        }
    }
    if open_failure(calls, host, i) {
        assert forall|k: int|
            i <= k < d.len() && (#[trigger] d[k]).0.host == host implies !d[k].0.mlfgained by {
            assert(d[k] == calls[k]);
        }
    }
}

/// What a ticket holds after a run: its host, no more lines than are kept, and
/// failures of the run.
spec fn from_run(
    t: FailView,
    calls: Seq<(MatchView, Timestamp)>,
    host: Text,
    rules: FailRules,
) -> bool {
    &&& t.host == host
    &&& t.matches.len() <= rules.maxmatches
    &&& forall|k: int|
        0 <= k < t.times.len() ==> exists|i: int|
            open_failure(calls, host, i) && (#[trigger] calls[i]).1 == #[trigger] t.times[k]
}

proof fn lemma_run_ticket(calls: Seq<(MatchView, Timestamp)>, rules: FailRules, host: Text)
    requires
        single_lines(calls),
    ensures
        match table::lookup(after_run(calls, rules).tickets, host) {
            Some(t) => from_run(t, calls, host, rules),
            None => true,
        },
    decreases calls.len(),
{
    let st = after_run(calls, rules);
    if calls.len() == 0 {
        table::lemma_slot(st.tickets, host);
    } else {
        let d = calls.drop_last();
        let (m, at) = calls.last();
        assert(calls[calls.len() - 1] == (m, at));
        assert forall|i: int| 0 <= i < d.len() implies (#[trigger] d[i]).0.mlfid is None by {
            assert(d[i] == calls[i]);
        }
        lemma_run_ticket(d, rules, host);
        let before = after_run(d, rules);
        let new = ticket_after(before, m, at, rules);
        table::law_put_lookup(before.tickets, m.host, new, host);
        if m.host != host {
            if let Some(t) = table::lookup(before.tickets, host) {
                assert forall|k: int| 0 <= k < t.times.len() implies exists|i: int|
                    open_failure(calls, host, i) && (#[trigger] calls[i]).1
                        == #[trigger] t.times[k] by {
                    let i = choose|i: int|
                        open_failure(d, host, i) && (#[trigger] d[i]).1 == t.times[k];
                    lemma_open_shorter(calls, host, i);
                    assert(calls[i] == d[i]);
                }
            }
        } else if !m.mlfgained {
            let old_times = match table::lookup(before.tickets, host) {
                Some(t) => t.times,
                None => Seq::empty(),
            };
            let kept = recent(old_times, at, rules.findtime);
            lemma_recent_from(old_times, at, rules.findtime);
            assert forall|k: int| 0 <= k < new.times.len() implies exists|i: int|
                open_failure(calls, host, i) && (#[trigger] calls[i]).1
                    == #[trigger] new.times[k] by {
                if k < kept.len() {
                    assert(new.times[k] == kept[k]);
                    assert(old_times.contains(kept[k]));
                    let q = choose|q: int| 0 <= q < old_times.len() && old_times[q] == kept[k];
                    let i = choose|i: int|
                        open_failure(d, host, i) && (#[trigger] d[i]).1 == old_times[q];
                    lemma_open_shorter(calls, host, i);
                    assert(calls[i] == d[i]);
                } else {
                    assert(open_failure(calls, host, calls.len() - 1));
                    assert(calls[calls.len() - 1].1 == new.times[k]);
                }
            }
        }
        if m.host == host {
            assert(from_run(new, calls, host, rules));
        }
    }
}

proof fn lemma_run_count(
    calls: Seq<(MatchView, Timestamp)>,
    rules: FailRules,
    host: Text,
    now: Timestamp,
)
    requires
        single_lines(calls),
        steady(calls, host, now, rules.findtime),
    ensures
        failures_within(after_run(calls, rules), host, now, rules.findtime).len() == counted(
            calls,
            host,
            now,
            rules.findtime,
        ),
    decreases calls.len(),
{
    let f = rules.findtime;
    let st = after_run(calls, rules);
    if calls.len() == 0 {
        table::lemma_slot(st.tickets, host);
    } else {
        let d = calls.drop_last();
        let (m, at) = calls.last();
        assert(calls[calls.len() - 1] == (m, at));
        assert forall|i: int| 0 <= i < d.len() implies (#[trigger] d[i]).0.mlfid is None by {
            assert(d[i] == calls[i]);
        }
        let before = after_run(d, rules);
        let new = ticket_after(before, m, at, rules);
        table::law_put_lookup(before.tickets, m.host, new, host);
        if m.host != host || !m.mlfgained {
            assert forall|i: int, j: int|
                open_failure(d, host, i) && i < j < d.len() && d[j].0.host == host && in_window(
                    d[i].1,
                    now,
                    f,
                ) implies in_window((#[trigger] d[i]).1, (#[trigger] d[j]).1, f) by {
                lemma_open_shorter(calls, host, i);
                assert(d[i] == calls[i] && d[j] == calls[j]);
            }
            lemma_run_count(d, rules, host, now);
        }
        if m.host == host && !m.mlfgained {
            lemma_run_ticket(d, rules, host);
            let old_times = match table::lookup(before.tickets, host) {
                Some(t) => t.times,
                None => Seq::empty(),
            };
            assert forall|k: int|
                0 <= k < old_times.len() && in_window(
                    #[trigger] old_times[k],
                    now,
                    f,
                ) implies in_window(old_times[k], at, f) by {
                let i = choose|i: int|
                    open_failure(d, host, i) && (#[trigger] d[i]).1 == old_times[k];
                lemma_open_shorter(calls, host, i);
                assert(d[i] == calls[i]);
                assert(in_window(calls[i].1, calls[calls.len() - 1].1, f));
            }
            lemma_recent_twice(old_times, at, now, f);
            let kept = recent(old_times, at, f);
            if !m.nofail {
                assert(kept.push(at).drop_last() =~= kept);
            }
        }
    }
}

/// What a match means after a run: a ban comes exactly when the match is a
/// failure and makes the failures that count against its host at least as many
/// as are allowed. The ticket is then that of the host, with these failures and
/// no more lines than are kept.
pub open spec fn ban_rule(
    calls: Seq<(MatchView, Timestamp)>,
    m: MatchView,
    now: Timestamp,
    rules: FailRules,
) -> bool {
    let n = counted(calls, m.host, now, rules.findtime);
    let due = ban_due(after_run(calls, rules), m, now, rules);
    &&& due is Some <==> !m.nofail && !m.mlfgained && n + 1 >= rules.maxretry
    &&& due matches Some(t) ==> t.host == m.host && t.times.len() == n + 1 && t.matches.len()
        <= rules.maxmatches
}

/// Over a run of matches without IDs, bans come by the failures of a host
/// within the window since its last success. A failure that left the window
/// must not come back into it.
pub proof fn law_ban_after_run(
    calls: Seq<(MatchView, Timestamp)>,
    m: MatchView,
    now: Timestamp,
    rules: FailRules,
)
    requires
        single_lines(calls),
        m.mlfid is None,
        steady(calls, m.host, now, rules.findtime),
    ensures
        ban_rule(calls, m, now, rules),
{
    lemma_run_count(calls, rules, m.host, now);
    lemma_run_ticket(calls, rules, m.host);
}

/// A failure that left the window does not come back into it where moments
/// never go back and none is in a leap second: the window that ends in a leap
/// second can begin after one that ends later.
pub proof fn law_order_is_steady(
    calls: Seq<(MatchView, Timestamp)>,
    host: Text,
    now: Timestamp,
    findtime: int,
)
    requires
        in_order(calls, now),
    ensures
        steady(calls, host, now, findtime),
{
}

/// Over a run of matches without IDs whose moments never go back, bans come by
/// the failures of a host within the window since its last success.
pub proof fn law_ban_after_ordered_run(
    calls: Seq<(MatchView, Timestamp)>,
    m: MatchView,
    now: Timestamp,
    rules: FailRules,
)
    requires
        single_lines(calls),
        m.mlfid is None,
        in_order(calls, now),
    ensures
        ban_rule(calls, m, now, rules),
{
    law_order_is_steady(calls, m.host, now, rules.findtime);
    law_ban_after_run(calls, m, now, rules);
}

/// A failure counts for `findtime` seconds.
pub proof fn law_window_is_findtime(t: Timestamp, now: Timestamp, findtime: int)
    requires
        t.nanos < 1000000000,
        now.nanos < 1000000000,
    ensures
        in_window(t, now, findtime) <==> (now.secs * 1000000000 + now.nanos) - (t.secs * 1000000000
            + t.nanos) <= findtime * 1000000000,
{
    time::law_moments(t, now, -findtime);
}

/// The failures that count are those within the window, in their order.
pub proof fn law_recent_one_by_one(
    times: Seq<Timestamp>,
    t: Timestamp,
    now: Timestamp,
    findtime: int,
)
    ensures
        recent(Seq::empty(), now, findtime) == Seq::<Timestamp>::empty(),
        in_window(t, now, findtime) ==> recent(times.push(t), now, findtime) == recent(
            times,
            now,
            findtime,
        ).push(t),
        !in_window(t, now, findtime) ==> recent(times.push(t), now, findtime) == recent(
            times,
            now,
            findtime,
        ),
{
    assert(times.push(t).drop_last() =~= times);
}

/// What a match adds to the failures of its host: the moment, where it is a
/// failure; the line, while there is room; and what was not known before.
pub proof fn law_match_is_noted(st: FailState, m: MatchView, now: Timestamp, rules: FailRules)
    ensures
        ({
            let host = host_of(st, m);
            let before = failures_within(st, host, now, rules.findtime);
            let t = ticket_after(st, m, now, rules);
            let known = table::lookup(st.tickets, host);
            &&& table::lookup(after_match(st, m, now, rules).tickets, host) == Some(t)
            &&& t.host == (match known {
                Some(k) => k.host,
                None => host,
            })
            &&& !m.mlfgained && !m.nofail ==> t.times == before.push(now)
            &&& !m.mlfgained && m.nofail ==> t.times == before
            &&& m.mlfgained ==> t.times == Seq::<Timestamp>::empty()
            &&& known is None ==> t.ip == m.ip && t.user == m.user && t.alt_user == m.alt_user
                && t.mlfid == m.mlfid
            &&& known matches Some(k) ==> {
                &&& t.ip == (if k.ip is Some { k.ip } else { m.ip })
                &&& t.user == (if k.user is Some { k.user } else { m.user })
                &&& t.alt_user == (if k.alt_user is Some { k.alt_user } else { m.alt_user })
                &&& t.mlfid == k.mlfid
                &&& !m.mlfgained && k.matches.len() < rules.maxmatches ==> t.matches
                    == k.matches.push(m.line)
                &&& k.matches.len() >= rules.maxmatches ==> t.matches == k.matches
                &&& m.mlfgained ==> t.matches == k.matches
            }
            &&& known is None && !m.mlfgained && rules.maxmatches > 0 ==> t.matches == seq![m.line]
            &&& ban_due(st, m, now, rules) matches Some(d) ==> d == t
        }),
{
    let host = host_of(st, m);
    table::law_put_lookup(st.tickets, host, ticket_after(st, m, now, rules), host);
    assert(Seq::<Text>::empty().push(m.line) =~= seq![m.line]);
}

/// A session is that of the host of its first match, and a match of no known
/// session is of the host that it names.
pub proof fn law_host_of_match(st: FailState, m: MatchView)
    ensures
        m.mlfid is None ==> host_of(st, m) == m.host,
        m.mlfid matches Some(id) ==> (table::lookup(st.mlfids, id) is None ==> host_of(st, m)
            == m.host),
        m.mlfid matches Some(id) ==> (table::lookup(st.mlfids, id) matches Some(h) ==> host_of(st, m)
            == h),
{
}

/// Old failures go one by one: a host stays while one of its failures counts.
pub proof fn law_purge_one_by_one(
    e: Seq<(Text, FailView)>,
    p: (Text, FailView),
    now: Timestamp,
    findtime: int,
    i: int,
)
    ensures
        live(Seq::empty(), now, findtime) == Seq::<(Text, FailView)>::empty(),
        0 <= i < p.1.times.len() && in_window(p.1.times[i], now, findtime) ==> live(
            e.push(p),
            now,
            findtime,
        ) == live(e, now, findtime).push(p),
        recent(p.1.times, now, findtime).len() == 0 ==> live(e.push(p), now, findtime) == live(
            e,
            now,
            findtime,
        ),
{
    assert(e.push(p).drop_last() =~= e);
    lemma_none_recent(p.1.times, now, findtime);
}

proof fn lemma_none_recent(times: Seq<Timestamp>, now: Timestamp, findtime: int)
    ensures
        recent(times, now, findtime).len() == 0 ==> forall|i: int|
            0 <= i < times.len() ==> !in_window(#[trigger] times[i], now, findtime),
    decreases times.len(),
{
    if times.len() > 0 && recent(times, now, findtime).len() == 0 {
        let d = times.drop_last();
        lemma_none_recent(d, now, findtime);
        assert forall|i: int| 0 <= i < times.len() implies !in_window(
            #[trigger] times[i],
            now,
            findtime,
        ) by {
            if i < d.len() {
                assert(d[i] == times[i]);
            }
        }
    }
}

/// All failures of all hosts are counted.
pub proof fn law_failures_add_up(e: Seq<(Text, FailView)>, p: (Text, FailView))
    ensures
        failure_count(Seq::empty()) == 0,
        failure_count(e.push(p)) == failure_count(e) + p.1.times.len(),
{
    assert(e.push(p).drop_last() =~= e);
}

} // verus!
