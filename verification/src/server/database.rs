//! The record of bans: their history, and which of them are current.
//!
//! The record has two tables. `bans` is the history, with one row for a jail,
//! an IP and a time; `bips` says which ban of a jail and an IP is current,
//! with one row for each.

use crate::text;
use crate::text::Text;
use vstd::prelude::*;

verus! {

/// A row of the history.
#[derive(Debug)]
pub struct DbBan {
    /// The jail.
    pub jail: String,
    /// The failure ID.
    pub ip: String,
    /// When the ban started, in seconds since 1970.
    pub time_of_ban: i64,
    /// How many seconds the ban lasts; `None` for one without an end.
    pub bantime: Option<i64>,
    /// What else is known of the ban, as JSON.
    pub data: String,
}

/// The model of a row of the history.
#[verifier::ext_equal]
pub struct RowView {
    pub jail: Text,
    pub ip: Text,
    pub time: i64,
    pub bantime: Option<i64>,
    pub data: Text,
}

impl View for DbBan {
    type V = RowView;

    open spec fn view(&self) -> RowView {
        RowView {
            jail: self.jail@,
            ip: self.ip@,
            time: self.time_of_ban,
            bantime: self.bantime,
            data: self.data@,
        }
    }
}

impl Clone for DbBan {
    fn clone(&self) -> (r: DbBan)
        ensures
            r@ == self@,
    {
        DbBan {
            jail: self.jail.clone(),
            ip: self.ip.clone(),
            time_of_ban: self.time_of_ban,
            bantime: self.bantime,
            data: self.data.clone(),
        }
    }
}

/// Which ban of a jail and an IP is current.
#[derive(Debug)]
pub struct DbCurrent {
    /// The jail.
    pub jail: String,
    /// The failure ID.
    pub ip: String,
    /// When the ban started.
    pub time_of_ban: i64,
}

/// The model of a row that says which ban is current.
#[verifier::ext_equal]
pub struct CurrentView {
    pub jail: Text,
    pub ip: Text,
    pub time: i64,
}

impl View for DbCurrent {
    type V = CurrentView;

    open spec fn view(&self) -> CurrentView {
        CurrentView { jail: self.jail@, ip: self.ip@, time: self.time_of_ban }
    }
}

impl Clone for DbCurrent {
    fn clone(&self) -> (r: DbCurrent)
        ensures
            r@ == self@,
    {
        DbCurrent {
            jail: self.jail.clone(),
            ip: self.ip.clone(),
            time_of_ban: self.time_of_ban,
        }
    }
}

/// The model of the record.
#[verifier::ext_equal]
pub struct DbState {
    pub bans: Seq<RowView>,
    pub bips: Seq<CurrentView>,
}

/// Whether two rows of the history are of the same ban.
pub open spec fn same_ban(a: RowView, b: RowView) -> bool {
    a.jail == b.jail && a.ip == b.ip && a.time == b.time
}

/// Whether a row of the history is of the jail and the IP.
pub open spec fn of_host(r: RowView, jail: Text, ip: Text) -> bool {
    r.jail == jail && r.ip == ip
}

/// Whether a row of the history is the current ban of its jail and IP.
pub open spec fn is_current(r: RowView, bips: Seq<CurrentView>) -> bool {
    bips.contains(CurrentView { jail: r.jail, ip: r.ip, time: r.time })
}

/// The record after a ban is added: the history has it in place of one of the
/// same jail, IP and time, and it is the current one of its jail and IP.
pub open spec fn with_ban(st: DbState, row: RowView) -> DbState {
    DbState {
        bans: st.bans.filter(|r: RowView| !same_ban(r, row)).push(row),
        bips: st.bips.filter(|c: CurrentView| !(c.jail == row.jail && c.ip == row.ip)).push(
            CurrentView { jail: row.jail, ip: row.ip, time: row.time },
        ),
    }
}

/// Whether a row is the newest ban of a jail and an IP.
pub open spec fn is_newest(r: RowView, bans: Seq<RowView>, jail: Text, ip: Text) -> bool {
    &&& of_host(r, jail, ip)
    &&& forall|i: int| 0 <= i < bans.len() && of_host(#[trigger] bans[i], jail, ip) ==> bans[i].time
        <= r.time
}

/// The record after the ban of a jail and an IP is lifted: the newest one
/// leaves the history, and none is current.
pub open spec fn without_ban(st: DbState, jail: Text, ip: Text) -> DbState {
    DbState {
        bans: st.bans.filter(|r: RowView| !is_newest(r, st.bans, jail, ip)),
        bips: st.bips.filter(|c: CurrentView| !(c.jail == jail && c.ip == ip)),
    }
}

/// The record without an IP.
pub open spec fn without_ip(st: DbState, ip: Text) -> DbState {
    DbState {
        bans: st.bans.filter(|r: RowView| r.ip != ip),
        bips: st.bips.filter(|c: CurrentView| c.ip != ip),
    }
}

/// How many bans of a jail and an IP the history holds.
pub open spec fn count_of(bans: Seq<RowView>, jail: Text, ip: Text) -> nat {
    bans.filter(|r: RowView| of_host(r, jail, ip)).len()
}

/// Whether a ban ended before a moment.
pub open spec fn has_ended(r: RowView, now: int) -> bool {
    r.bantime matches Some(n) && r.time + n < now
}

/// Whether the ban that a row says is current has ended.
pub open spec fn current_ended(c: CurrentView, bans: Seq<RowView>, now: int) -> bool {
    exists|i: int|
        0 <= i < bans.len() && has_ended(#[trigger] bans[i], now) && bans[i].jail == c.jail
            && bans[i].ip == c.ip && bans[i].time == c.time
}

/// The record after a clean-up: bans that have ended are no longer current,
/// and bans from before the cutoff that are not current leave the history.
pub open spec fn purged(st: DbState, now: int, max_age: int) -> DbState {
    let bips = st.bips.filter(|c: CurrentView| !current_ended(c, st.bans, now));
    DbState {
        bans: st.bans.filter(|r: RowView| !(r.time < now - max_age && !is_current(r, bips))),
        bips,
    }
}

/// Rows with one more put among them, behind those that are not older.
pub open spec fn placed(s: Seq<RowView>, r: RowView) -> Seq<RowView>
    decreases s.len(),
{
    if s.len() == 0 || s.last().time >= r.time {
        s.push(r)
    } else {
        placed(s.drop_last(), r).push(s.last())
    }
}

/// The rows from the newest to the oldest.
pub open spec fn newest_first(s: Seq<RowView>) -> Seq<RowView>
    decreases s.len(),
{
    if s.len() == 0 {
        s
    } else {
        placed(newest_first(s.drop_last()), s.last())
    }
}

/// The current bans, from the newest to the oldest.
pub open spec fn current_bans(st: DbState) -> Seq<RowView> {
    newest_first(st.bans.filter(|r: RowView| is_current(r, st.bips)))
}

/// The record of bans.
#[derive(Debug)]
pub struct Database {
    pub bans: Vec<DbBan>,
    pub bips: Vec<DbCurrent>,
}

/// The models of rows.
pub open spec fn row_views(v: Seq<DbBan>) -> Seq<RowView> {
    v.map_values(|r: DbBan| r@)
}

/// The models of rows.
pub open spec fn current_views(v: Seq<DbCurrent>) -> Seq<CurrentView> {
    v.map_values(|c: DbCurrent| c@)
}

impl View for Database {
    type V = DbState;

    open spec fn view(&self) -> DbState {
        DbState { bans: row_views(self.bans@), bips: current_views(self.bips@) }
    }
}

/// Filtering one element more.
proof fn lemma_filter_step<A>(s: Seq<A>, i: int, p: spec_fn(A) -> bool)
    requires
        0 <= i < s.len(),
    ensures
        s.take(i + 1).filter(p) == (if p(s[i]) {
            s.take(i).filter(p).push(s[i])
        } else {
            s.take(i).filter(p)
        }),
{
    assert(s.take(i + 1) =~= s.take(i).push(s[i]));
    s.take(i).lemma_filter_push(s[i], p);
}

fn keep_bans<F: Fn(&DbBan) -> bool>(
    rows: &Vec<DbBan>,
    f: F,
    Ghost(p): Ghost<spec_fn(RowView) -> bool>,
) -> (r: Vec<DbBan>)
    requires
        forall|x: &DbBan| #[trigger] f.requires((x,)),
        forall|x: &DbBan, b: bool| f.ensures((x,), b) ==> b == p(x@),
    ensures
        row_views(r@) == row_views(rows@).filter(p),
{
    let ghost all = row_views(rows@);
    let mut out: Vec<DbBan> = Vec::new();
    let mut i: usize = 0;
    proof {
        assert(all.take(0) =~= Seq::empty());
        assert(row_views(out@) =~= all.take(0).filter(p)) by {
            reveal(Seq::filter);
        }
    }
    while i < rows.len()
        invariant
            i <= rows.len(),
            all == row_views(rows@),
            forall|x: &DbBan| #[trigger] f.requires((x,)),
            forall|x: &DbBan, b: bool| f.ensures((x,), b) ==> b == p(x@),
            row_views(out@) == all.take(i as int).filter(p),
        decreases rows.len() - i,
    {
        proof {
            lemma_filter_step(all, i as int, p);
            assert(all[i as int] == rows@[i as int]@);
        }
        if f(&rows[i]) {
            let ghost before = out@;
            let c = rows[i].clone();
            out.push(c);
            assert(row_views(out@) =~= row_views(before).push(c@));
        }
        i += 1;
    }
    assert(all.take(i as int) =~= all);
    out
}

fn keep_bips<F: Fn(&DbCurrent) -> bool>(
    rows: &Vec<DbCurrent>,
    f: F,
    Ghost(p): Ghost<spec_fn(CurrentView) -> bool>,
) -> (r: Vec<DbCurrent>)
    requires
        forall|x: &DbCurrent| #[trigger] f.requires((x,)),
        forall|x: &DbCurrent, b: bool| f.ensures((x,), b) ==> b == p(x@),
    ensures
        current_views(r@) == current_views(rows@).filter(p),
{
    let ghost all = current_views(rows@);
    let mut out: Vec<DbCurrent> = Vec::new();
    let mut i: usize = 0;
    proof {
        assert(all.take(0) =~= Seq::empty());
        assert(current_views(out@) =~= all.take(0).filter(p)) by {
            reveal(Seq::filter);
        }
    }
    while i < rows.len()
        invariant
            i <= rows.len(),
            all == current_views(rows@),
            forall|x: &DbCurrent| #[trigger] f.requires((x,)),
            forall|x: &DbCurrent, b: bool| f.ensures((x,), b) ==> b == p(x@),
            current_views(out@) == all.take(i as int).filter(p),
        decreases rows.len() - i,
    {
        proof {
            lemma_filter_step(all, i as int, p);
            assert(all[i as int] == rows@[i as int]@);
        }
        if f(&rows[i]) {
            let ghost before = out@;
            let c = rows[i].clone();
            out.push(c);
            assert(current_views(out@) =~= current_views(before).push(c@));
        }
        i += 1;
    }
    assert(all.take(i as int) =~= all);
    out
}

fn is_in(bips: &Vec<DbCurrent>, r: &DbBan) -> (b: bool)
    ensures
        b == is_current(r@, current_views(bips@)),
{
    let ghost all = current_views(bips@);
    let ghost wanted = CurrentView { jail: r@.jail, ip: r@.ip, time: r@.time };
    let mut i: usize = 0;
    while i < bips.len()
        invariant
            i <= bips.len(),
            all == current_views(bips@),
            wanted == (CurrentView { jail: r@.jail, ip: r@.ip, time: r@.time }),
            forall|k: int| 0 <= k < i ==> #[trigger] all[k] != wanted,
        decreases bips.len() - i,
    {
        let c = &bips[i];
        assert(all[i as int] == c@);
        if text::same(c.jail.as_str(), r.jail.as_str()) && text::same(
            c.ip.as_str(),
            r.ip.as_str(),
        ) && c.time_of_ban == r.time_of_ban {
            assert(all[i as int] == wanted);
            return true;
        }
        i += 1;
    }
    false
}

fn ended_in(bans: &Vec<DbBan>, c: &DbCurrent, now: i64) -> (b: bool)
    ensures
        b == current_ended(c@, row_views(bans@), now as int),
{
    let ghost all = row_views(bans@);
    let mut i: usize = 0;
    while i < bans.len()
        invariant
            i <= bans.len(),
            all == row_views(bans@),
            forall|k: int|
                0 <= k < i ==> !(has_ended(#[trigger] all[k], now as int) && all[k].jail == c@.jail
                    && all[k].ip == c@.ip && all[k].time == c@.time),
        decreases bans.len() - i,
    {
        let r = &bans[i];
        assert(all[i as int] == r@);
        let ended = match r.bantime {
            Some(n) => (r.time_of_ban as i128 + n as i128) < now as i128,
            None => false,
        };
        if ended && text::same(r.jail.as_str(), c.jail.as_str()) && text::same(
            r.ip.as_str(),
            c.ip.as_str(),
        ) && r.time_of_ban == c.time_of_ban {
            assert(has_ended(all[i as int], now as int));
            return true;
        }
        i += 1;
    }
    false
}

fn newest_in(bans: &Vec<DbBan>, r: &DbBan, jail: &str, ip: &str) -> (b: bool)
    ensures
        b == is_newest(r@, row_views(bans@), jail@, ip@),
{
    if !text::same(r.jail.as_str(), jail) || !text::same(r.ip.as_str(), ip) {
        return false;
    }
    let ghost all = row_views(bans@);
    let mut i: usize = 0;
    while i < bans.len()
        invariant
            i <= bans.len(),
            all == row_views(bans@),
            forall|k: int|
                0 <= k < i && of_host(#[trigger] all[k], jail@, ip@) ==> all[k].time <= r@.time,
        decreases bans.len() - i,
    {
        let x = &bans[i];
        assert(all[i as int] == x@);
        if text::same(x.jail.as_str(), jail) && text::same(x.ip.as_str(), ip) && x.time_of_ban
            > r.time_of_ban {
            assert(of_host(all[i as int], jail@, ip@));
            return false;
        }
        i += 1;
    }
    true
}

impl Database {
    /// A record without bans.
    pub fn open() -> (r: Database)
        ensures
            r@.bans == Seq::<RowView>::empty(),
            r@.bips == Seq::<CurrentView>::empty(),
    {
        let r = Database { bans: Vec::new(), bips: Vec::new() };
        assert(r@.bans =~= Seq::<RowView>::empty());
        assert(r@.bips =~= Seq::<CurrentView>::empty());
        r
    }

    /// Adds a ban, which becomes the current one of its jail and IP.
    pub fn add_ban(
        &mut self,
        jail: &str,
        ip: &str,
        time_of_ban: i64,
        bantime: Option<i64>,
        data: &str,
    )
        ensures
            final(self)@ == with_ban(
                old(self)@,
                (RowView { jail: jail@, ip: ip@, time: time_of_ban, bantime, data: data@ }),
            ),
    {
        let ghost row = RowView { jail: jail@, ip: ip@, time: time_of_ban, bantime, data: data@ };
        let ghost p = |r: RowView| !same_ban(r, row);
        let ghost q = |c: CurrentView| !(c.jail == row.jail && c.ip == row.ip);
        let chosen_bans = |r: &DbBan| -> (b: bool)
            ensures
                b == !(r@.jail == jail@ && r@.ip == ip@ && r@.time == time_of_ban),
        {
            !(text::same(r.jail.as_str(), jail) && text::same(r.ip.as_str(), ip)
                        && r.time_of_ban == time_of_ban)
        };
        let mut bans = keep_bans(&self.bans, chosen_bans, Ghost(p));
        let chosen_bips = |c: &DbCurrent| -> (b: bool)
            ensures
                b == !(c@.jail == jail@ && c@.ip == ip@),
        {
            !(text::same(c.jail.as_str(), jail) && text::same(c.ip.as_str(), ip))
        };
        let mut bips = keep_bips(&self.bips, chosen_bips, Ghost(q));
        let ghost kept = bans@;
        let ghost left = bips@;
        let added = DbBan {
            jail: jail.to_owned(),
            ip: ip.to_owned(),
            time_of_ban,
            bantime,
            data: data.to_owned(),
        };
        let current = DbCurrent { jail: jail.to_owned(), ip: ip.to_owned(), time_of_ban };
        bans.push(added);
        bips.push(current);
        proof {
            assert(row_views(bans@) =~= row_views(kept).push(row));
            assert(current_views(bips@) =~= current_views(left).push(current@));
            assert(self@.bans.filter(p) == self@.bans.filter(|r: RowView| !same_ban(r, row)));
            assert(self@.bips.filter(q) == self@.bips.filter(
                |c: CurrentView| !(c.jail == row.jail && c.ip == row.ip),
            ));
        }
        self.bans = bans;
        self.bips = bips;
    }

    /// Lifts the ban of a jail and an IP.
    pub fn remove_ban(&mut self, jail: &str, ip: &str)
        ensures
            final(self)@ == without_ban(old(self)@, jail@, ip@),
    {
        let ghost st = self@;
        let ghost p = |r: RowView| !is_newest(r, st.bans, jail@, ip@);
        let ghost q = |c: CurrentView| !(c.jail == jail@ && c.ip == ip@);
        let all = &self.bans;
        let chosen_bans = |r: &DbBan| -> (b: bool)
            ensures
                b == !is_newest(r@, row_views(all@), jail@, ip@),
        {
            !newest_in(all, r, jail, ip)
        };
        let bans = keep_bans(all, chosen_bans, Ghost(p));
        let chosen_bips = |c: &DbCurrent| -> (b: bool)
            ensures
                b == !(c@.jail == jail@ && c@.ip == ip@),
        {
            !(text::same(c.jail.as_str(), jail) && text::same(c.ip.as_str(), ip))
        };
        let bips = keep_bips(&self.bips, chosen_bips, Ghost(q));
        proof {
            assert(st.bans.filter(p) == st.bans.filter(
                |r: RowView| !is_newest(r, st.bans, jail@, ip@),
            ));
            assert(st.bips.filter(q) == st.bips.filter(
                |c: CurrentView| !(c.jail == jail@ && c.ip == ip@),
            ));
        }
        self.bans = bans;
        self.bips = bips;
    }

    /// Removes an IP from all jails.
    pub fn remove_ban_all_jails(&mut self, ip: &str)
        ensures
            final(self)@ == without_ip(old(self)@, ip@),
    {
        let ghost st = self@;
        let ghost p = |r: RowView| r.ip != ip@;
        let ghost q = |c: CurrentView| c.ip != ip@;
        let chosen_bans = |r: &DbBan| -> (b: bool)
            ensures
                b == (r@.ip != ip@),
        {
            !text::same(r.ip.as_str(), ip)
        };
        let bans = keep_bans(&self.bans, chosen_bans, Ghost(p));
        let chosen_bips = |c: &DbCurrent| -> (b: bool)
            ensures
                b == (c@.ip != ip@),
        {
            !text::same(c.ip.as_str(), ip)
        };
        let bips = keep_bips(&self.bips, chosen_bips, Ghost(q));
        proof {
            assert(st.bans.filter(p) == st.bans.filter(|r: RowView| r.ip != ip@));
            assert(st.bips.filter(q) == st.bips.filter(|c: CurrentView| c.ip != ip@));
        }
        self.bans = bans;
        self.bips = bips;
    }

    /// Removes everything.
    pub fn remove_all_bans(&mut self)
        ensures
            final(self)@.bans == Seq::<RowView>::empty(),
            final(self)@.bips == Seq::<CurrentView>::empty(),
    {
        *self = Database::open();
    }

    /// How many bans of a jail and an IP the history holds.
    pub fn ban_count(&self, jail: &str, ip: &str) -> (n: usize)
        ensures
            n == count_of(self@.bans, jail@, ip@),
    {
        let ghost all = self@.bans;
        let ghost p = |r: RowView| of_host(r, jail@, ip@);
        let mut n: usize = 0;
        let mut i: usize = 0;
        proof {
            assert(all.take(0) =~= Seq::empty());
            assert(all.take(0).filter(p).len() == 0) by {
                reveal(Seq::filter);
            }
        }
        while i < self.bans.len()
            invariant
                i <= self.bans.len(),
                all == row_views(self.bans@),
                p == (|r: RowView| of_host(r, jail@, ip@)),
                n <= i,
                n == all.take(i as int).filter(p).len(),
            decreases self.bans.len() - i,
        {
            let r = &self.bans[i];
            proof {
                lemma_filter_step(all, i as int, p);
                assert(all[i as int] == r@);
            }
            if text::same(r.jail.as_str(), jail) && text::same(r.ip.as_str(), ip) {
                n += 1;
            }
            i += 1;
        }
        assert(all.take(i as int) =~= all);
        n
    }

    /// Cleans up: bans that have ended are no longer current, and bans older
    /// than `max_age_secs` that are not current leave the history.
    pub fn purge(&mut self, max_age_secs: i64, now: i64)
        ensures
            final(self)@ == purged(old(self)@, now as int, max_age_secs as int),
    {
        let ghost st = self@;
        let ghost q = |c: CurrentView| !current_ended(c, st.bans, now as int);
        let rows = &self.bans;
        let chosen_bips = |c: &DbCurrent| -> (b: bool)
            ensures
                b == !current_ended(c@, row_views(rows@), now as int),
        {
            !ended_in(rows, c, now)
        };
        let bips = keep_bips(&self.bips, chosen_bips, Ghost(q));
        let ghost left = current_views(bips@);
        let ghost p = |r: RowView| !(r.time < now - max_age_secs && !is_current(r, left));
        let current = &bips;
        let chosen_bans = |r: &DbBan| -> (b: bool)
            ensures
                b == !(r@.time < now - max_age_secs && !is_current(
                    r@,
                    current_views(current@),
                )),
        {
            !((r.time_of_ban as i128) < now as i128 - max_age_secs as i128 && !is_in(
                        current,
                        r,
                    ))
        };
        let bans = keep_bans(&self.bans, chosen_bans, Ghost(p));
        proof {
            assert(st.bips.filter(q) == st.bips.filter(
                |c: CurrentView| !current_ended(c, st.bans, now as int),
            ));
            assert(st.bans.filter(p) == st.bans.filter(
                |r: RowView| !(r.time < now - max_age_secs && !is_current(r, left)),
            ));
        }
        self.bans = bans;
        self.bips = bips;
    }

    /// The current bans, from the newest to the oldest.
    pub fn list_bans(&self) -> (r: Vec<DbBan>)
        ensures
            row_views(r@) == current_bans(self@),
    {
        let ghost st = self@;
        let ghost p = |r: RowView| is_current(r, st.bips);
        let bips = &self.bips;
        let chosen_active = |r: &DbBan| -> (b: bool)
            ensures
                b == is_current(r@, current_views(bips@)),
        {
            is_in(bips, r)
        };
        let active = keep_bans(&self.bans, chosen_active, Ghost(p));
        assert(st.bans.filter(p) == st.bans.filter(|r: RowView| is_current(r, st.bips)));
        sort_newest_first(&active)
    }
}

/// The place of a row cuts the sequence in two.
proof fn lemma_place(s: Seq<RowView>, x: RowView, j: int)
    requires
        0 <= j <= s.len(),
        j > 0 ==> s[j - 1].time >= x.time,
        forall|k: int| j <= k < s.len() ==> (#[trigger] s[k]).time < x.time,
    ensures
        placed(s, x) == s.insert(j, x),
    decreases s.len() - j,
{
    if j == s.len() {
        assert(s.insert(j, x) =~= s.push(x));
    } else {
        assert(s[s.len() - 1].time < x.time);
        let d = s.drop_last();
        assert forall|k: int| j <= k < d.len() implies (#[trigger] d[k]).time < x.time by {
            assert(s[k].time < x.time);
        }
        lemma_place(d, x, j);
        assert(d.insert(j, x).push(s.last()) =~= s.insert(j, x));
    }
}

fn sort_newest_first(rows: &Vec<DbBan>) -> (r: Vec<DbBan>)
    ensures
        row_views(r@) == newest_first(row_views(rows@)),
{
    let ghost all = row_views(rows@);
    let mut out: Vec<DbBan> = Vec::new();
    let mut i: usize = 0;
    proof {
        assert(all.take(0) =~= Seq::empty());
        assert(row_views(out@) =~= Seq::empty());
    }
    while i < rows.len()
        invariant
            i <= rows.len(),
            all == row_views(rows@),
            row_views(out@) == newest_first(all.take(i as int)),
        decreases rows.len() - i,
    {
        let ghost s = row_views(out@);
        let x = rows[i].clone();
        proof {
            assert(all.take(i + 1).drop_last() =~= all.take(i as int));
            assert(all.take(i + 1).last() == x@);
        }
        let mut j: usize = out.len();
        while j > 0 && out[j - 1].time_of_ban < x.time_of_ban
            invariant
                j <= out.len(),
                s == row_views(out@),
                forall|k: int| j <= k < s.len() ==> (#[trigger] s[k]).time < x@.time,
            decreases j,
        {
            assert(s[j - 1] == out@[j - 1]@);
            j -= 1;
        }
        proof {
            if j > 0 {
                assert(s[j - 1] == out@[j - 1]@);
            }
            lemma_place(s, x@, j as int);
        }
        out.insert(j, x);
        assert(row_views(out@) =~= s.insert(j as int, x@));
        i += 1;
    }
    assert(all.take(i as int) =~= all);
    out
}

/// The tables keep to their keys: the history has one row for a jail, an IP
/// and a time, and one ban at most is current for a jail and an IP.
pub open spec fn keyed(st: DbState) -> bool {
    &&& forall|i: int, j: int|
        0 <= i < j < st.bans.len() ==> !same_ban(#[trigger] st.bans[i], #[trigger] st.bans[j])
    &&& forall|i: int, j: int|
        0 <= i < j < st.bips.len() ==> !((#[trigger] st.bips[i]).jail == (#[trigger] st.bips[j]).jail
            && st.bips[i].ip == st.bips[j].ip)
}

/// What a filter keeps is in order and from where it was.
proof fn lemma_filter_from<A>(s: Seq<A>, p: spec_fn(A) -> bool) -> (at: Seq<int>)
    ensures
        at.len() == s.filter(p).len(),
        forall|i: int|
            0 <= i < at.len() ==> 0 <= #[trigger] at[i] < s.len() && s[at[i]] == s.filter(p)[i]
                && p(s[at[i]]),
        forall|i: int, j: int| 0 <= i < j < at.len() ==> #[trigger] at[i] < #[trigger] at[j],
        forall|k: int| 0 <= k < s.len() && p(s[k]) ==> s.filter(p).contains(#[trigger] s[k]),
    decreases s.len(),
{
    reveal(Seq::filter);
    if s.len() == 0 {
        Seq::empty()
    } else {
        let d = s.drop_last();
        let front = lemma_filter_from(d, p);
        let f = s.filter(p);
        if p(s.last()) {
            let at = front.push(s.len() - 1);
            assert forall|i: int| 0 <= i < at.len() implies 0 <= #[trigger] at[i] < s.len()
                && s[at[i]] == f[i] && p(s[at[i]]) by {
                if i < front.len() {
                    assert(d[front[i]] == s[front[i]]);
                }
            }
            assert forall|k: int| 0 <= k < s.len() && p(s[k]) implies f.contains(
                #[trigger] s[k],
            ) by {
                if k < d.len() {
                    assert(d[k] == s[k]);
                    let x = choose|x: int| 0 <= x < d.filter(p).len() && d.filter(p)[x] == d[k];
                    assert(f[x] == s[k]);
                } else {
                    assert(f[f.len() - 1] == s[k]);
                }
            }
            at
        } else {
            assert forall|i: int| 0 <= i < front.len() implies 0 <= #[trigger] front[i] < s.len()
                && s[front[i]] == f[i] && p(s[front[i]]) by {
                assert(d[front[i]] == s[front[i]]);
            }
            assert forall|k: int| 0 <= k < s.len() && p(s[k]) implies f.contains(
                #[trigger] s[k],
            ) by {
                assert(d[k] == s[k]);
            }
            front
        }
    }
}

proof fn lemma_placed_at(s: Seq<RowView>, x: RowView) -> (j: int)
    ensures
        0 <= j <= s.len(),
        placed(s, x) == s.insert(j, x),
    decreases s.len(),
{
    if s.len() == 0 || s.last().time >= x.time {
        assert(s.push(x) =~= s.insert(s.len() as int, x));
        s.len() as int
    } else {
        let j = lemma_placed_at(s.drop_last(), x);
        assert(s.drop_last().insert(j, x).push(s.last()) =~= s.insert(j, x));
        j
    }
}

/// Ordering rows keeps each of them once, and keeps apart what was apart.
proof fn lemma_newest_first(s: Seq<RowView>)
    ensures
        newest_first(s).len() == s.len(),
        forall|r: RowView| newest_first(s).contains(r) <==> #[trigger] s.contains(r),
        (forall|i: int, j: int|
            0 <= i < j < s.len() ==> !of_host(#[trigger] s[i], (#[trigger] s[j]).jail, s[j].ip))
            ==> (forall|i: int, j: int|
            0 <= i < j < s.len() ==> !of_host(
                #[trigger] newest_first(s)[i],
                (#[trigger] newest_first(s)[j]).jail,
                newest_first(s)[j].ip,
            )),
    decreases s.len(),
{
    if s.len() > 0 {
        let d = s.drop_last();
        let x = s[s.len() - 1];
        lemma_newest_first(d);
        let n = newest_first(d);
        let j = lemma_placed_at(n, x);
        let r = newest_first(s);
        assert(r == n.insert(j, x));
        assert forall|y: RowView| r.contains(y) <==> #[trigger] s.contains(y) by {
            if r.contains(y) {
                let k = choose|k: int| 0 <= k < r.len() && r[k] == y;
                if k < j {
                    assert(n[k] == y);
                    assert(n.contains(y));
                    assert(d.contains(y));
                    let q = choose|q: int| 0 <= q < d.len() && d[q] == y;
                    assert(s[q] == y);
                } else if k > j {
                    assert(n[k - 1] == y);
                    assert(n.contains(y));
                    assert(d.contains(y));
                    let q = choose|q: int| 0 <= q < d.len() && d[q] == y;
                    assert(s[q] == y);
                } else {
                    assert(s[s.len() - 1] == y);
                }
            }
            if s.contains(y) {
                let k = choose|k: int| 0 <= k < s.len() && s[k] == y;
                if k < d.len() {
                    assert(d[k] == y);
                    assert(d.contains(y));
                    let q = choose|q: int| 0 <= q < n.len() && n[q] == y;
                    if q < j {
                        assert(r[q] == y);
                    } else {
                        assert(r[q + 1] == y);
                    }
                } else {
                    assert(r[j] == y);
                }
            }
        }
        if forall|a: int, b: int|
            0 <= a < b < s.len() ==> !of_host(#[trigger] s[a], (#[trigger] s[b]).jail, s[b].ip) {
            assert forall|a: int, b: int| 0 <= a < b < d.len() implies !of_host(
                #[trigger] d[a],
                (#[trigger] d[b]).jail,
                d[b].ip,
            ) by {
                assert(!of_host(s[a], s[b].jail, s[b].ip));
            }
            assert forall|k: int| 0 <= k < n.len() implies !of_host(
                #[trigger] n[k],
                x.jail,
                x.ip,
            ) by {
                assert(n.contains(n[k]));
                assert(d.contains(n[k]));
                let q = choose|q: int| 0 <= q < d.len() && d[q] == n[k];
                assert(!of_host(s[q], s[s.len() - 1].jail, s[s.len() - 1].ip));
            }
            assert forall|a: int, b: int| 0 <= a < b < s.len() implies !of_host(
                #[trigger] r[a],
                (#[trigger] r[b]).jail,
                r[b].ip,
            ) by {
                let u = if a < j {
                    a
                } else {
                    a - 1
                };
                let v = if b < j {
                    b
                } else {
                    b - 1
                };
                if a == j {
                    assert(r[b] == n[v]);
                    assert(!of_host(n[v], x.jail, x.ip));
                } else if b == j {
                    assert(r[a] == n[u]);
                    assert(!of_host(n[u], x.jail, x.ip));
                } else {
                    assert(r[a] == n[u] && r[b] == n[v]);
                    assert(!of_host(n[u], n[v].jail, n[v].ip));
                }
            }
        }
    }
}

/// Adding a ban keeps to the keys.
pub proof fn law_adding_keeps_keys(st: DbState, row: RowView)
    requires
        keyed(st),
    ensures
        keyed(with_ban(st, row)),
{
    let p = |r: RowView| !same_ban(r, row);
    let q = |c: CurrentView| !(c.jail == row.jail && c.ip == row.ip);
    let at = lemma_filter_from(st.bans, p);
    let bt = lemma_filter_from(st.bips, q);
    let w = with_ban(st, row);
    assert(w.bans == st.bans.filter(p).push(row));
    assert(w.bips == st.bips.filter(q).push(
        CurrentView { jail: row.jail, ip: row.ip, time: row.time },
    ));
    assert forall|i: int, j: int| 0 <= i < j < w.bans.len() implies !same_ban(
        #[trigger] w.bans[i],
        #[trigger] w.bans[j],
    ) by {
        assert(w.bans[i] == st.bans[at[i]]);
        if j < at.len() {
            assert(w.bans[j] == st.bans[at[j]]);
            assert(at[i] < at[j]);
        }
    }
    assert forall|i: int, j: int| 0 <= i < j < w.bips.len() implies !((#[trigger] w.bips[i]).jail
        == (#[trigger] w.bips[j]).jail && w.bips[i].ip == w.bips[j].ip) by {
        assert(w.bips[i] == st.bips[bt[i]]);
        if j < bt.len() {
            assert(w.bips[j] == st.bips[bt[j]]);
            assert(bt[i] < bt[j]);
        }
    }
}

/// A ban that was added is listed as current.
pub proof fn law_added_ban_is_listed(st: DbState, row: RowView)
    ensures
        current_bans(with_ban(st, row)).contains(row),
{
    let w = with_ban(st, row);
    let p = |r: RowView| is_current(r, w.bips);
    let _ = lemma_filter_from(w.bans, p);
    assert(w.bans[w.bans.len() - 1] == row);
    assert(w.bips[w.bips.len() - 1] == (CurrentView {
        jail: row.jail,
        ip: row.ip,
        time: row.time,
    }));
    assert(p(row));
    lemma_newest_first(w.bans.filter(p));
    assert(current_bans(w) == newest_first(w.bans.filter(p)));
}

/// No more than one ban of a jail and an IP is listed as current.
pub proof fn law_one_current_ban(st: DbState, i: int, j: int)
    requires
        keyed(st),
        0 <= i < j < current_bans(st).len(),
    ensures
        !of_host(current_bans(st)[i], current_bans(st)[j].jail, current_bans(st)[j].ip),
{
    let p = |r: RowView| is_current(r, st.bips);
    let at = lemma_filter_from(st.bans, p);
    let f = st.bans.filter(p);
    assert(current_bans(st) == newest_first(f));
    assert forall|a: int, b: int| 0 <= a < b < f.len() implies !of_host(
        #[trigger] f[a],
        (#[trigger] f[b]).jail,
        f[b].ip,
    ) by {
        let x = st.bans[at[a]];
        let y = st.bans[at[b]];
        assert(x == f[a] && y == f[b]);
        assert(p(x) && p(y));
        if of_host(x, y.jail, y.ip) {
            let cx = CurrentView { jail: x.jail, ip: x.ip, time: x.time };
            let cy = CurrentView { jail: y.jail, ip: y.ip, time: y.time };
            let u = choose|u: int| 0 <= u < st.bips.len() && st.bips[u] == cx;
            let v = choose|v: int| 0 <= v < st.bips.len() && st.bips[v] == cy;
            assert(u == v);
            assert(at[a] < at[b]);
            assert(same_ban(st.bans[at[a]], st.bans[at[b]]));
        }
    }
    lemma_newest_first(f);
}

/// A ban that was lifted is no longer listed.
pub proof fn law_lifted_ban_not_listed(st: DbState, jail: Text, ip: Text, r: RowView)
    requires
        of_host(r, jail, ip),
    ensures
        !current_bans(without_ban(st, jail, ip)).contains(r),
{
    let w = without_ban(st, jail, ip);
    let q = |c: CurrentView| !(c.jail == jail && c.ip == ip);
    let bt = lemma_filter_from(st.bips, q);
    assert(w.bips == st.bips.filter(q));
    let p = |r: RowView| is_current(r, w.bips);
    let at = lemma_filter_from(w.bans, p);
    lemma_newest_first(w.bans.filter(p));
    assert(current_bans(w) == newest_first(w.bans.filter(p)));
    if current_bans(w).contains(r) {
        assert(w.bans.filter(p).contains(r));
        let k = choose|k: int| 0 <= k < w.bans.filter(p).len() && w.bans.filter(p)[k] == r;
        assert(p(w.bans[at[k]]));
        let c = CurrentView { jail: r.jail, ip: r.ip, time: r.time };
        let u = choose|u: int| 0 <= u < w.bips.len() && w.bips[u] == c;
        assert(q(st.bips[bt[u]]));
    }
}

/// A clean-up keeps every current ban that has not ended, however old it is.
pub proof fn law_purge_keeps_active_bans(st: DbState, now: int, max_age: int, r: RowView)
    requires
        keyed(st),
        current_bans(st).contains(r),
        !has_ended(r, now),
    ensures
        current_bans(purged(st, now, max_age)).contains(r),
{
    let p = |x: RowView| is_current(x, st.bips);
    let at = lemma_filter_from(st.bans, p);
    lemma_newest_first(st.bans.filter(p));
    assert(current_bans(st) == newest_first(st.bans.filter(p)));
    assert(st.bans.filter(p).contains(r));
    let k = choose|k: int| 0 <= k < st.bans.filter(p).len() && st.bans.filter(p)[k] == r;
    let m = at[k];
    assert(st.bans[m] == r);
    let c = CurrentView { jail: r.jail, ip: r.ip, time: r.time };
    let u = choose|u: int| 0 <= u < st.bips.len() && st.bips[u] == c;
    assert(!current_ended(c, st.bans, now)) by {
        if current_ended(c, st.bans, now) {
            let i = choose|i: int|
                0 <= i < st.bans.len() && has_ended(#[trigger] st.bans[i], now) && st.bans[i].jail
                    == c.jail && st.bans[i].ip == c.ip && st.bans[i].time == c.time;
            if i < m {
                assert(same_ban(st.bans[i], st.bans[m]));
            } else if m < i {
                assert(same_ban(st.bans[m], st.bans[i]));
            }
        }
    }
    let w = purged(st, now, max_age);
    let q = |x: CurrentView| !current_ended(x, st.bans, now);
    let _ = lemma_filter_from(st.bips, q);
    assert(w.bips == st.bips.filter(q));
    assert(q(st.bips[u]));
    assert(w.bips.contains(c));
    let z = |x: RowView| !(x.time < now - max_age && !is_current(x, w.bips));
    let _ = lemma_filter_from(st.bans, z);
    assert(w.bans == st.bans.filter(z));
    assert(z(st.bans[m]));
    assert(w.bans.contains(r));
    let y = |x: RowView| is_current(x, w.bips);
    let _ = lemma_filter_from(w.bans, y);
    let n = choose|n: int| 0 <= n < w.bans.len() && w.bans[n] == r;
    assert(y(w.bans[n]));
    lemma_newest_first(w.bans.filter(y));
    assert(current_bans(w) == newest_first(w.bans.filter(y)));
}

/// A clean-up drops every ban of before the cutoff that has ended.
pub proof fn law_purge_drops_old_ended_bans(st: DbState, now: int, max_age: int, r: RowView)
    requires
        keyed(st),
        st.bans.contains(r),
        has_ended(r, now),
        r.time < now - max_age,
    ensures
        !purged(st, now, max_age).bans.contains(r),
{
    let w = purged(st, now, max_age);
    let q = |x: CurrentView| !current_ended(x, st.bans, now);
    let bt = lemma_filter_from(st.bips, q);
    assert(w.bips == st.bips.filter(q));
    let z = |x: RowView| !(x.time < now - max_age && !is_current(x, w.bips));
    let at = lemma_filter_from(st.bans, z);
    assert(w.bans == st.bans.filter(z));
    let c = CurrentView { jail: r.jail, ip: r.ip, time: r.time };
    let m = choose|m: int| 0 <= m < st.bans.len() && st.bans[m] == r;
    assert(has_ended(st.bans[m], now));
    assert(current_ended(c, st.bans, now));
    if w.bips.contains(c) {
        let u = choose|u: int| 0 <= u < w.bips.len() && w.bips[u] == c;
        assert(q(st.bips[bt[u]]));
    }
    if w.bans.contains(r) {
        let k = choose|k: int| 0 <= k < w.bans.len() && w.bans[k] == r;
        assert(z(st.bans[at[k]]));
    }
}

/// Every further ban of a jail and an IP makes their history longer by one.
pub proof fn law_history_counts_bans(st: DbState, row: RowView)
    requires
        forall|i: int| 0 <= i < st.bans.len() ==> !same_ban(#[trigger] st.bans[i], row),
    ensures
        count_of(with_ban(st, row).bans, row.jail, row.ip) == count_of(
            st.bans,
            row.jail,
            row.ip,
        ) + 1,
{
    let p = |r: RowView| !same_ban(r, row);
    let h = |r: RowView| of_host(r, row.jail, row.ip);
    lemma_filter_all(st.bans, p);
    assert(with_ban(st, row).bans == st.bans.filter(p).push(row));
    st.bans.lemma_filter_push(row, h);
    assert(h(row));
    assert(count_of(st.bans, row.jail, row.ip) == st.bans.filter(h).len());
    assert(count_of(with_ban(st, row).bans, row.jail, row.ip) == st.bans.push(row).filter(h).len());
}

proof fn lemma_filter_all<A>(s: Seq<A>, p: spec_fn(A) -> bool)
    requires
        forall|i: int| 0 <= i < s.len() ==> p(#[trigger] s[i]),
    ensures
        s.filter(p) == s,
    decreases s.len(),
{
    reveal(Seq::filter);
    if s.len() > 0 {
        let d = s.drop_last();
        assert forall|i: int| 0 <= i < d.len() implies p(#[trigger] d[i]) by {
            assert(d[i] == s[i]);
        }
        lemma_filter_all(d, p);
        assert(p(s[s.len() - 1]));
        assert(d.push(s.last()) =~= s);
    }
}

proof fn lemma_filtered_keyed(
    st: DbState,
    p: spec_fn(RowView) -> bool,
    q: spec_fn(CurrentView) -> bool,
)
    requires
        keyed(st),
    ensures
        keyed(DbState { bans: st.bans.filter(p), bips: st.bips.filter(q) }),
{
    let at = lemma_filter_from(st.bans, p);
    let bt = lemma_filter_from(st.bips, q);
    let f = st.bans.filter(p);
    let g = st.bips.filter(q);
    assert forall|i: int, j: int| 0 <= i < j < f.len() implies !same_ban(
        #[trigger] f[i],
        #[trigger] f[j],
    ) by {
        assert(f[i] == st.bans[at[i]] && f[j] == st.bans[at[j]]);
        assert(at[i] < at[j]);
    }
    assert forall|i: int, j: int| 0 <= i < j < g.len() implies !((#[trigger] g[i]).jail == (
    #[trigger] g[j]).jail && g[i].ip == g[j].ip) by {
        assert(g[i] == st.bips[bt[i]] && g[j] == st.bips[bt[j]]);
        assert(bt[i] < bt[j]);
    }
}

/// Lifting bans and cleaning up keep to the keys.
pub proof fn law_removing_keeps_keys(
    st: DbState,
    jail: Text,
    ip: Text,
    now: int,
    max_age: int,
)
    requires
        keyed(st),
    ensures
        keyed(without_ban(st, jail, ip)),
        keyed(without_ip(st, ip)),
        keyed(purged(st, now, max_age)),
{
    lemma_filtered_keyed(
        st,
        |r: RowView| !is_newest(r, st.bans, jail, ip),
        |c: CurrentView| !(c.jail == jail && c.ip == ip),
    );
    lemma_filtered_keyed(st, |r: RowView| r.ip != ip, |c: CurrentView| c.ip != ip);
    let bips = st.bips.filter(|c: CurrentView| !current_ended(c, st.bans, now));
    lemma_filtered_keyed(
        st,
        |r: RowView| !(r.time < now - max_age && !is_current(r, bips)),
        |c: CurrentView| !current_ended(c, st.bans, now),
    );
}

proof fn lemma_filter_has<A>(s: Seq<A>, p: spec_fn(A) -> bool, x: A)
    ensures
        s.filter(p).contains(x) <==> s.contains(x) && p(x),
{
    let at = lemma_filter_from(s, p);
    if s.filter(p).contains(x) {
        let i = choose|i: int| 0 <= i < s.filter(p).len() && s.filter(p)[i] == x;
        assert(s[at[i]] == x);
    }
    if s.contains(x) && p(x) {
        let k = choose|k: int| 0 <= k < s.len() && s[k] == x;
        assert(s.filter(p).contains(s[k]));
    }
}

proof fn lemma_in_order(s: Seq<RowView>)
    ensures
        forall|i: int, j: int|
            0 <= i < j < newest_first(s).len() ==> (#[trigger] newest_first(s)[i]).time >= (
            #[trigger] newest_first(s)[j]).time,
    decreases s.len(),
{
    if s.len() > 0 {
        lemma_in_order(s.drop_last());
        lemma_placed_in_order(newest_first(s.drop_last()), s.last());
    }
}

proof fn lemma_placed_in_order(s: Seq<RowView>, x: RowView)
    requires
        forall|i: int, j: int|
            0 <= i < j < s.len() ==> (#[trigger] s[i]).time >= (#[trigger] s[j]).time,
    ensures
        forall|i: int, j: int|
            0 <= i < j < placed(s, x).len() ==> (#[trigger] placed(s, x)[i]).time >= (
            #[trigger] placed(s, x)[j]).time,
        forall|i: int|
            0 <= i < placed(s, x).len() ==> (#[trigger] placed(s, x)[i]) == x || s.contains(
                placed(s, x)[i],
            ),
    decreases s.len(),
{
    let r = placed(s, x);
    if s.len() == 0 || s.last().time >= x.time {
        assert(r == s.push(x));
        assert forall|i: int, j: int| 0 <= i < j < r.len() implies (#[trigger] r[i]).time >= (
        #[trigger] r[j]).time by {
            if j == s.len() {
                assert(s[i].time >= s[s.len() - 1].time);
            }
        }
        assert forall|i: int| 0 <= i < r.len() implies (#[trigger] r[i]) == x || s.contains(r[i]) by {
            if i < s.len() {
                assert(s[i] == r[i]);
            }
        }
    } else {
        let d = s.drop_last();
        lemma_placed_in_order(d, x);
        let q = placed(d, x);
        assert(r == q.push(s.last()));
        assert forall|i: int| 0 <= i < q.len() implies (#[trigger] q[i]).time >= s.last().time
            && (q[i] == x || s.contains(q[i])) by {
            if q[i] != x {
                assert(d.contains(q[i]));
                let k = choose|k: int| 0 <= k < d.len() && d[k] == q[i];
                assert(s[k] == q[i]);
                assert(s[k].time >= s[s.len() - 1].time);
            }
        }
        assert forall|i: int| 0 <= i < r.len() implies (#[trigger] r[i]) == x || s.contains(r[i]) by {
            if i == q.len() {
                assert(s[s.len() - 1] == r[i]);
            } else {
                assert(r[i] == q[i]);
            }
        }
    }
}

/// The bans that are listed are those that are recorded and current, the
/// newest first.
pub proof fn law_current_bans_are_listed(st: DbState, r: RowView, i: int, j: int)
    ensures
        current_bans(st).contains(r) <==> st.bans.contains(r) && st.bips.contains(
            CurrentView { jail: r.jail, ip: r.ip, time: r.time },
        ),
        0 <= i < j < current_bans(st).len() ==> current_bans(st)[i].time >= current_bans(st)[j].time,
{
    let p = |r: RowView| is_current(r, st.bips);
    let s = st.bans.filter(p);
    lemma_newest_first(s);
    lemma_filter_has(st.bans, p, r);
    lemma_in_order(s);
    assert(current_bans(st) == newest_first(s));
    assert(s.contains(r) <==> newest_first(s).contains(r));
}

/// A ban replaces the record of a ban of the same jail, IP and moment, and is
/// the current one of its jail and IP; every other record stays.
pub proof fn law_ban_is_recorded(st: DbState, row: RowView, r: RowView, c: CurrentView)
    ensures
        with_ban(st, row).bans.contains(r) <==> r == row || (st.bans.contains(r) && !(r.jail
            == row.jail && r.ip == row.ip && r.time == row.time)),
        with_ban(st, row).bips.contains(c) <==> c == (CurrentView {
            jail: row.jail,
            ip: row.ip,
            time: row.time,
        }) || (st.bips.contains(c) && !(c.jail == row.jail && c.ip == row.ip)),
{
    let p = |r: RowView| !same_ban(r, row);
    let q = |c: CurrentView| !(c.jail == row.jail && c.ip == row.ip);
    lemma_filter_has(st.bans, p, r);
    lemma_filter_has(st.bips, q, c);
    lemma_push_has(st.bans.filter(p), row, r);
    lemma_push_has(
        st.bips.filter(q),
        CurrentView { jail: row.jail, ip: row.ip, time: row.time },
        c,
    );
}

proof fn lemma_push_has<A>(s: Seq<A>, a: A, x: A)
    ensures
        s.push(a).contains(x) <==> s.contains(x) || x == a,
{
    let t = s.push(a);
    assert(t[s.len() as int] == a);
    if s.contains(x) {
        let i = choose|i: int| 0 <= i < s.len() && s[i] == x;
        assert(t[i] == x);
    }
}

/// A ban that is lifted in one jail leaves the record with the newest ban of
/// that jail and IP; the earlier ones stay, and those of others.
pub proof fn law_lifting_takes_the_newest(
    st: DbState,
    jail: Text,
    ip: Text,
    r: RowView,
    newer: RowView,
    c: CurrentView,
)
    requires
        st.bans.contains(r),
    ensures
        r.jail != jail || r.ip != ip ==> without_ban(st, jail, ip).bans.contains(r),
        st.bans.contains(newer) && newer.jail == jail && newer.ip == ip && newer.time > r.time
            ==> without_ban(st, jail, ip).bans.contains(r),
        r.jail == jail && r.ip == ip && (forall|x: RowView|
            #[trigger] st.bans.contains(x) && x.jail == jail && x.ip == ip ==> x.time <= r.time)
            ==> !without_ban(st, jail, ip).bans.contains(r),
        without_ban(st, jail, ip).bips.contains(c) <==> st.bips.contains(c) && !(c.jail == jail
            && c.ip == ip),
{
    let p = |r: RowView| !is_newest(r, st.bans, jail, ip);
    let q = |c: CurrentView| !(c.jail == jail && c.ip == ip);
    lemma_filter_has(st.bans, p, r);
    lemma_filter_has(st.bips, q, c);
    if st.bans.contains(newer) && newer.jail == jail && newer.ip == ip && newer.time > r.time {
        let k = choose|k: int| 0 <= k < st.bans.len() && st.bans[k] == newer;
        assert(of_host(st.bans[k], jail, ip));
    }
    if forall|x: RowView|
        #[trigger] st.bans.contains(x) && x.jail == jail && x.ip == ip ==> x.time <= r.time {
        assert forall|i: int|
            0 <= i < st.bans.len() && of_host(
                #[trigger] st.bans[i],
                jail,
                ip,
            ) implies st.bans[i].time <= r.time by {
            assert(st.bans.contains(st.bans[i]));
        }
    }
}

/// An IP that is unbanned in all jails leaves the record altogether, and it
/// alone.
pub proof fn law_unbanned_ip_leaves(st: DbState, ip: Text, r: RowView, c: CurrentView)
    ensures
        without_ip(st, ip).bans.contains(r) <==> st.bans.contains(r) && r.ip != ip,
        without_ip(st, ip).bips.contains(c) <==> st.bips.contains(c) && c.ip != ip,
{
    lemma_filter_has(st.bans, |r: RowView| r.ip != ip, r);
    lemma_filter_has(st.bips, |c: CurrentView| c.ip != ip, c);
}

/// Bans of one jail and IP do not count for another.
pub proof fn law_history_of_others(st: DbState, row: RowView, jail: Text, ip: Text)
    requires
        row.jail != jail || row.ip != ip,
        forall|i: int| 0 <= i < st.bans.len() ==> !same_ban(#[trigger] st.bans[i], row),
    ensures
        count_of(with_ban(st, row).bans, jail, ip) == count_of(st.bans, jail, ip),
        count_of(Seq::empty(), jail, ip) == 0,
{
    let p = |r: RowView| !same_ban(r, row);
    let q = |r: RowView| of_host(r, jail, ip);
    lemma_filter_all(st.bans, p);
    let s = st.bans.push(row);
    assert(s.drop_last() =~= st.bans);
    reveal(Seq::filter);
    assert(s.filter(q) == st.bans.filter(q));
    assert(Seq::<RowView>::empty().filter(q).len() == 0);
}

/// A ban has ended when its seconds are over: what is current and has ended
/// is current no more, and what is older than the limit and not current goes.
pub proof fn law_purge(st: DbState, now: int, max_age: int, r: RowView, c: CurrentView, n: i64)
    ensures
        r.bantime is None ==> !has_ended(r, now),
        r.bantime == Some(n) ==> (has_ended(r, now) <==> r.time + n < now),
        purged(st, now, max_age).bips.contains(c) <==> st.bips.contains(c) && !(exists|x: RowView|
            #[trigger] st.bans.contains(x) && has_ended(x, now) && x.jail == c.jail && x.ip == c.ip
                && x.time == c.time),
        purged(st, now, max_age).bans.contains(r) <==> st.bans.contains(r) && (r.time >= now
            - max_age || purged(st, now, max_age).bips.contains(
            CurrentView { jail: r.jail, ip: r.ip, time: r.time },
        )),
{
    let q = |c: CurrentView| !current_ended(c, st.bans, now);
    let bips = st.bips.filter(q);
    let p = |r: RowView| !(r.time < now - max_age && !is_current(r, bips));
    lemma_filter_has(st.bips, q, c);
    lemma_filter_has(st.bans, p, r);
    if current_ended(c, st.bans, now) {
        let i = choose|i: int|
            0 <= i < st.bans.len() && has_ended(#[trigger] st.bans[i], now) && st.bans[i].jail
                == c.jail && st.bans[i].ip == c.ip && st.bans[i].time == c.time;
        assert(st.bans.contains(st.bans[i]));
    }
    if exists|x: RowView|
        #[trigger] st.bans.contains(x) && has_ended(x, now) && x.jail == c.jail && x.ip == c.ip
            && x.time == c.time {
        let x = choose|x: RowView|
            #[trigger] st.bans.contains(x) && has_ended(x, now) && x.jail == c.jail && x.ip == c.ip
                && x.time == c.time;
        let i = choose|i: int| 0 <= i < st.bans.len() && st.bans[i] == x;
        assert(has_ended(st.bans[i], now));
    }
}

} // verus!
