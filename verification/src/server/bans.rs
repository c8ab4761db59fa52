//! Bans that are issued and lifted by command.

use crate::action::run;
use crate::server::banmanager;
use crate::server::banmanager::{BanState, BanView};
use crate::server::bantime;
use crate::server::database;
use crate::server::database::{DbState, RowView};
use crate::server::failmanager;
use crate::server::jail;
use crate::server::jail::JailState;
use crate::server::jobs;
use crate::server::jobs::Which;
use crate::server::server;
use crate::server::server::{Server, ServerState, Work, WorkView};
use crate::table;
use crate::text;
use crate::text::Text;
use crate::time::Timestamp;
use vstd::prelude::*;

verus! {

/// A jail without the ban of a host.
pub open spec fn unbanned(j: JailState, host: Text) -> JailState {
    JailState {
        bans: BanState { bans: table::removed(j.bans.bans, host), total: j.bans.total },
        ..j
    }
}

/// What is to be run when the ban of a host is lifted by command.
pub open spec fn unban_work(j: JailState, host: Text) -> WorkView {
    WorkView::Run(
        j.config.name,
        jobs::jobs_for(j.actions, Which::All, run::Phase::Unban, Some(jail::info_by_hand(host))),
    )
}

/// What comes of jails, a record and work when the ban of a host is lifted in
/// every jail that has it.
pub struct Lifted {
    pub jails: Seq<JailState>,
    pub db: DbState,
    pub work: Seq<WorkView>,
}

/// Lifting the ban of a host in every jail that has it.
pub open spec fn lifted_everywhere(jails: Seq<JailState>, db: DbState, host: Text) -> Lifted
    decreases jails.len(),
{
    if jails.len() == 0 {
        Lifted { jails: Seq::empty(), db, work: Seq::empty() }
    } else {
        let front = lifted_everywhere(jails.drop_last(), db, host);
        let j = jails.last();
        if banmanager::banned(j.bans, host) {
            Lifted {
                jails: front.jails.push(unbanned(j, host)),
                db: database::without_ban(front.db, j.config.name, host),
                work: front.work.push(unban_work(j, host)),
            }
        } else {
            Lifted { jails: front.jails.push(j), db: front.db, work: front.work }
        }
    }
}

/// The server after the ban of a host is lifted everywhere. Where it was
/// banned anywhere, the record no longer knows the host.
pub open spec fn without_host(st: ServerState, host: Text) -> ServerState {
    let l = lifted_everywhere(st.jails, st.db, host);
    ServerState {
        jails: l.jails,
        db: if l.work.len() > 0 {
            database::without_ip(l.db, host)
        } else {
            l.db
        },
        ..st
    }
}

/// A jail without bans.
pub open spec fn flushed(j: JailState) -> JailState {
    JailState { bans: BanState { bans: Seq::empty(), total: j.bans.total }, ..j }
}

/// What is to be run when all bans of a jail are lifted.
pub open spec fn flush_work(j: JailState) -> WorkView {
    WorkView::Run(
        j.config.name,
        jobs::flush_jobs(j.actions, banmanager::tickets(j.bans.bans)),
    )
}

/// The server without bans, neither in force nor in the record.
pub open spec fn without_bans(st: ServerState) -> ServerState {
    ServerState {
        jails: st.jails.map_values(|j: JailState| flushed(j)),
        db: DbState { bans: Seq::empty(), bips: Seq::empty() },
        ..st
    }
}

/// The ban of a host by command in a jail.
pub open spec fn hand_ban(st: ServerState, i: int, host: Text, now: Timestamp) -> BanView {
    let j = st.jails[i];
    jail::ban_by_hand(
        j.config,
        host,
        database::count_of(st.db.bans, j.config.name, host),
        bantime::next_number(st.random),
        now,
    )
}

/// The server after a host is banned by command in a jail.
pub open spec fn with_hand_ban(st: ServerState, i: int, host: Text, now: Timestamp) -> ServerState {
    let j = st.jails[i];
    ServerState {
        jails: st.jails.update(
            i,
            JailState {
                bans: banmanager::with_ban(j.bans, hand_ban(st, i, host, now)),
                ..j
            },
        ),
        random: bantime::next_number(st.random),
        ..st
    }
}

/// What is to be run when a host is banned.
pub open spec fn ban_work(j: JailState, b: BanView) -> WorkView {
    WorkView::Run(
        j.config.name,
        jobs::jobs_for(j.actions, Which::All, run::Phase::Check, Some(jobs::info_of(b))),
    )
}

/// The server after hosts are banned by command in a jail, one by one, and
/// what is to be run.
pub open spec fn hand_bans(st: ServerState, i: int, hosts: Seq<Text>, now: Timestamp) -> (
    ServerState,
    Seq<WorkView>,
)
    decreases hosts.len(),
{
    if hosts.len() == 0 {
        (st, Seq::empty())
    } else {
        let front = hand_bans(st, i, hosts.drop_last(), now);
        (
            with_hand_ban(front.0, i, hosts.last(), now),
            front.1.push(ban_work(front.0.jails[i], hand_ban(front.0, i, hosts.last(), now))),
        )
    }
}

/// The server after the ban of a host is lifted by command in a jail.
pub open spec fn with_hand_unban(st: ServerState, i: int, host: Text) -> ServerState {
    let j = st.jails[i];
    if banmanager::banned(j.bans, host) {
        ServerState {
            jails: st.jails.update(i, unbanned(j, host)),
            db: database::without_ban(st.db, j.config.name, host),
            ..st
        }
    } else {
        st
    }
}

/// The server after bans are lifted by command in a jail, one by one, and what
/// is to be run.
pub open spec fn hand_unbans(st: ServerState, i: int, hosts: Seq<Text>) -> (
    ServerState,
    Seq<WorkView>,
)
    decreases hosts.len(),
{
    if hosts.len() == 0 {
        (st, Seq::empty())
    } else {
        let front = hand_unbans(st, i, hosts.drop_last());
        let j = front.0.jails[i];
        (
            with_hand_unban(front.0, i, hosts.last()),
            if banmanager::banned(j.bans, hosts.last()) {
                front.1.push(unban_work(j, hosts.last()))
            } else {
                front.1
            },
        )
    }
}

/// The ban that a failure by command leads to in a jail.
pub open spec fn attempt_ban(st: ServerState, i: int, host: Text, now: Timestamp) -> Option<BanView> {
    let j = st.jails[i];
    let m = jail::attempt_of(host, now);
    let past = database::count_of(st.db.bans, j.config.name, host);
    match failmanager::ban_due(j.fails, m, now, j.window) {
        Some(t) => Some(
            banmanager::ban_of(
                t,
                m,
                bantime::ban_seconds(j.config, past, bantime::next_number(st.random)),
                now,
            ),
        ),
        None => None,
    }
}

/// The server after a failure by command in a jail, and what is to be run.
pub open spec fn attempted(st: ServerState, i: int, host: Text, now: Timestamp) -> (
    ServerState,
    Seq<WorkView>,
) {
    let j = st.jails[i];
    let counted = JailState {
        fails: failmanager::after_match(j.fails, jail::attempt_of(host, now), now, j.window),
        ..j
    };
    let mid = ServerState {
        jails: st.jails.update(i, counted),
        random: bantime::next_number(st.random),
        ..st
    };
    match attempt_ban(st, i, host, now) {
        None => (mid, Seq::empty()),
        Some(b) => (
            ServerState {
                jails: st.jails.update(i, jail::with_issued(counted, b)),
                db: database::with_ban(
                    st.db,
                    jail::row_of(j.config.name, b, st.dbmaxmatches as nat),
                ),
                ..mid
            },
            seq![ban_work(j, b)],
        ),
    }
}

impl Server {
    /// Lifts the ban of a host in every jail that has it; tells whether any
    /// had it.
    pub fn unban_ip(&mut self, host: &str, work: &mut Vec<Work>) -> (found: bool)
        requires
            old(self).wf(),
        ensures
            final(self).wf(),
            final(self)@ == without_host(old(self)@, host@),
            ({
                let l = lifted_everywhere(old(self)@.jails, old(self)@.db, host@);
                &&& work_list_grew(old(work)@, final(work)@, l.work)
                &&& found == (l.work.len() > 0)
            }),
    {
        let ghost st = self@;
        let ghost all = self@.jails;
        let ghost first = server::work_list(work@);
        let mut found = false;
        let n = self.jails.len();
        let mut i: usize = 0;
        proof {
            assert(all.take(0) =~= Seq::empty());
            assert(self@.jails.take(0) =~= Seq::empty());
            assert(first + Seq::<WorkView>::empty() =~= first);
        }
        while i < n
            invariant
                i <= n == all.len() == self.jails@.len(),
                self.wf(),
                self@ == (ServerState { jails: self@.jails, db: self@.db, ..st }),
                self@.jails.take(i as int) == lifted_everywhere(
                    all.take(i as int),
                    st.db,
                    host@,
                ).jails,
                forall|k: int| i <= k < n ==> (#[trigger] self@.jails[k]) == all[k],
                self@.db == lifted_everywhere(all.take(i as int), st.db, host@).db,
                server::work_list(work@) == first + lifted_everywhere(
                    all.take(i as int),
                    st.db,
                    host@,
                ).work,
                found == (lifted_everywhere(all.take(i as int), st.db, host@).work.len() > 0),
            decreases n - i,
        {
            let ghost before = self.jails@;
            let ghost listed = work@;
            proof {
                assert(all.take(i + 1).drop_last() =~= all.take(i as int));
                assert(all.take(i + 1).last() == all[i as int]);
                assert(self@.jails[i as int] == all[i as int]);
            }
            if self.jails[i].ban_mgr.is_banned(host) {
                let jobs = self.jails[i].manual_unban(host, &mut self.db);
                let w = Work::Run { jail: self.jails[i].config.name.clone(), jobs };
                work.push(w);
                found = true;
                proof {
                    assert(server::work_list(work@) =~= server::work_list(listed).push(w@));
                    assert(server::jail_list(self.jails@) =~= server::jail_list(before).update(
                        i as int,
                        unbanned(all[i as int], host@),
                    ));
                    assert(server::work_list(work@) =~= first + lifted_everywhere(
                        all.take(i + 1),
                        st.db,
                        host@,
                    ).work);
                }
            }
            proof {
                assert(self@.jails.take(i + 1) =~= self@.jails.take(i as int).push(
                    self@.jails[i as int],
                ));
                assert(self@.jails.take(i as int) =~= server::jail_list(before).take(i as int));
            }
            i += 1;
        }
        proof {
            assert(all.take(i as int) =~= all);
            assert(self@.jails.take(i as int) =~= self@.jails);
        }
        if found {
            self.db.remove_ban_all_jails(host);
        }
        found
    }
}

/// Whether work was added at the end.
pub open spec fn work_list_grew(before: Seq<Work>, after: Seq<Work>, more: Seq<WorkView>) -> bool {
    server::work_list(after) == server::work_list(before) + more
}

impl Server {
    /// Lifts all bans of all jails, and empties the record.
    pub fn unban_all(&mut self, work: &mut Vec<Work>)
        requires
            old(self).wf(),
        ensures
            final(self).wf(),
            final(self)@ == without_bans(old(self)@),
            work_list_grew(
                old(work)@,
                final(work)@,
                old(self)@.jails.map_values(|j: JailState| flush_work(j)),
            ),
    {
        let ghost st = self@;
        let ghost all = self@.jails;
        let ghost first = server::work_list(work@);
        let ghost more = all.map_values(|j: JailState| flush_work(j));
        let n = self.jails.len();
        let mut i: usize = 0;
        proof {
            assert(first + more.take(0) =~= first);
        }
        while i < n
            invariant
                i <= n == all.len() == self.jails@.len(),
                self.wf(),
                more == all.map_values(|j: JailState| flush_work(j)),
                self@ == (ServerState { jails: self@.jails, db: self@.db, ..st }),
                forall|k: int| 0 <= k < i ==> (#[trigger] self@.jails[k]) == flushed(all[k]),
                forall|k: int| i <= k < n ==> (#[trigger] self@.jails[k]) == all[k],
                server::work_list(work@) == first + more.take(i as int),
            decreases n - i,
        {
            let ghost before = self.jails@;
            let ghost listed = work@;
            assert(self@.jails[i as int] == all[i as int]);
            let jobs = self.jails[i].flush_all_bans(&mut self.db);
            let w = Work::Run { jail: self.jails[i].config.name.clone(), jobs };
            work.push(w);
            proof {
                assert(server::jail_list(self.jails@) =~= server::jail_list(before).update(
                    i as int,
                    flushed(all[i as int]),
                ));
                assert(server::work_list(work@) =~= server::work_list(listed).push(w@));
                assert(more.take(i + 1) =~= more.take(i as int).push(more[i as int]));
                assert(server::work_list(work@) =~= first + more.take(i + 1));
            }
            i += 1;
        }
        self.db.remove_all_bans();
        proof {
            assert(more.take(i as int) =~= more);
            assert(self@.jails =~= all.map_values(|j: JailState| flushed(j)));
        }
    }

    fn ban_one(&mut self, i: usize, host: &str, now: Timestamp) -> (r: Work)
        requires
            old(self).wf(),
            i < old(self)@.jails.len(),
        ensures
            final(self).wf(),
            final(self)@ == with_hand_ban(old(self)@, i as int, host@, now),
            r@ == ban_work(
                old(self)@.jails[i as int],
                hand_ban(old(self)@, i as int, host@, now),
            ),
    {
        let ghost before = self.jails@;
        let draw = self.jitter.draw();
        let jobs = self.jails[i].manual_ban(host, &self.db, draw, now);
        assert(server::jail_list(self.jails@) =~= server::jail_list(before).update(
            i as int,
            self.jails@[i as int]@,
        ));
        Work::Run { jail: self.jails[i].config.name.clone(), jobs }
    }

    /// Bans hosts by command in the jail at a position: those from position
    /// `from` of the list on.
    pub fn ban_hosts(
        &mut self,
        i: usize,
        hosts: &Vec<String>,
        from: usize,
        work: &mut Vec<Work>,
        now: Timestamp,
    )
        requires
            old(self).wf(),
            i < old(self)@.jails.len(),
            from <= hosts@.len(),
        ensures
            final(self).wf(),
            ({
                let r = hand_bans(
                    old(self)@,
                    i as int,
                    text::texts(hosts@).skip(from as int),
                    now,
                );
                &&& final(self)@ == r.0
                &&& work_list_grew(old(work)@, final(work)@, r.1)
            }),
    {
        let ghost st = self@;
        let ghost all = text::texts(hosts@).skip(from as int);
        let ghost first = server::work_list(work@);
        let mut k: usize = from;
        proof {
            assert(all.take(0) =~= Seq::empty());
            assert(first + Seq::<WorkView>::empty() =~= first);
        }
        while k < hosts.len()
            invariant
                from <= k <= hosts.len(),
                all == text::texts(hosts@).skip(from as int),
                self.wf(),
                i < self@.jails.len(),
                self@ == hand_bans(st, i as int, all.take(k - from), now).0,
                server::work_list(work@) == first + hand_bans(
                    st,
                    i as int,
                    all.take(k - from),
                    now,
                ).1,
            decreases hosts.len() - k,
        {
            let ghost listed = work@;
            proof {
                assert(all.take(k - from + 1).drop_last() =~= all.take(k - from));
                assert(all.take(k - from + 1).last() == hosts@[k as int]@);
            }
            let w = self.ban_one(i, hosts[k].as_str(), now);
            work.push(w);
            proof {
                assert(server::work_list(work@) =~= server::work_list(listed).push(w@));
                assert(server::work_list(work@) =~= first + hand_bans(
                    st,
                    i as int,
                    all.take(k - from + 1),
                    now,
                ).1);
            }
            k += 1;
        }
        assert(all.take(k - from) =~= all);
    }

    /// Lifts the bans of hosts by command in the jail at a position: of those
    /// from position `from` of the list on.
    pub fn unban_hosts(&mut self, i: usize, hosts: &Vec<String>, from: usize, work: &mut Vec<Work>)
        requires
            old(self).wf(),
            i < old(self)@.jails.len(),
            from <= hosts@.len(),
        ensures
            final(self).wf(),
            ({
                let r = hand_unbans(old(self)@, i as int, text::texts(hosts@).skip(from as int));
                &&& final(self)@ == r.0
                &&& work_list_grew(old(work)@, final(work)@, r.1)
            }),
    {
        let ghost st = self@;
        let ghost all = text::texts(hosts@).skip(from as int);
        let ghost first = server::work_list(work@);
        let mut k: usize = from;
        proof {
            assert(all.take(0) =~= Seq::empty());
            assert(first + Seq::<WorkView>::empty() =~= first);
        }
        while k < hosts.len()
            invariant
                from <= k <= hosts.len(),
                all == text::texts(hosts@).skip(from as int),
                self.wf(),
                i < self@.jails.len(),
                self@ == hand_unbans(st, i as int, all.take(k - from)).0,
                server::work_list(work@) == first + hand_unbans(
                    st,
                    i as int,
                    all.take(k - from),
                ).1,
            decreases hosts.len() - k,
        {
            let ghost listed = work@;
            let ghost before = self.jails@;
            let ghost mid = self@;
            proof {
                assert(all.take(k - from + 1).drop_last() =~= all.take(k - from));
                assert(all.take(k - from + 1).last() == hosts@[k as int]@);
            }
            if self.jails[i].ban_mgr.is_banned(hosts[k].as_str()) {
                let jobs = self.jails[i].manual_unban(hosts[k].as_str(), &mut self.db);
                let w = Work::Run { jail: self.jails[i].config.name.clone(), jobs };
                work.push(w);
                proof {
                    assert(server::jail_list(self.jails@) =~= server::jail_list(before).update(
                        i as int,
                        unbanned(mid.jails[i as int], hosts@[k as int]@),
                    ));
                    assert(server::work_list(work@) =~= server::work_list(listed).push(w@));
                    assert(server::work_list(work@) =~= first + hand_unbans(
                        st,
                        i as int,
                        all.take(k - from + 1),
                    ).1);
                }
            }
            k += 1;
        }
        assert(all.take(k - from) =~= all);
    }

    /// Takes in a failure by command in the jail at a position.
    pub fn attempt(&mut self, i: usize, host: &str, work: &mut Vec<Work>, now: Timestamp)
        requires
            old(self).wf(),
            i < old(self)@.jails.len(),
        ensures
            final(self).wf(),
            ({
                let r = attempted(old(self)@, i as int, host@, now);
                &&& final(self)@ == r.0
                &&& work_list_grew(old(work)@, final(work)@, r.1)
            }),
    {
        let ghost st = self@;
        let ghost before = self.jails@;
        let ghost listed = work@;
        let draw = self.jitter.draw();
        let ban = self.jails[i].manual_attempt(host, &self.db, draw, now);
        let ghost counted = self.jails@[i as int]@;
        match ban {
            Some(b) => {
                let ghost v = b@;
                let jobs = self.jails[i].issue_ban(b, &mut self.db, self.dbmaxmatches);
                let w = Work::Run { jail: self.jails[i].config.name.clone(), jobs };
                work.push(w);
                proof {
                    assert(server::jail_list(self.jails@) =~= server::jail_list(before).update(
                        i as int,
                        jail::with_issued(counted, v),
                    ));
                    assert(server::work_list(work@) =~= server::work_list(listed) + seq![w@]);
                }
            },
            None => {
                proof {
                    assert(server::jail_list(self.jails@) =~= server::jail_list(before).update(
                        i as int,
                        counted,
                    ));
                    assert(server::work_list(work@) =~= server::work_list(listed)
                        + Seq::<WorkView>::empty());
                }
            },
        }
    }

    /// Removes from the record what is older than it is to keep.
    pub fn purge_record(&mut self, now: i64)
        requires
            old(self).wf(),
        ensures
            final(self).wf(),
            final(self)@ == (ServerState {
                db: database::purged(
                    old(self)@.db,
                    now as int,
                    if old(self)@.dbpurgeage > i64::MAX {
                        i64::MAX as int
                    } else {
                        old(self)@.dbpurgeage as int
                    },
                ),
                ..old(self)@
            }),
    {
        let age: i64 = if self.dbpurgeage > i64::MAX as u64 {
            i64::MAX
        } else {
            self.dbpurgeage as i64
        };
        self.db.purge(age, now);
    }
}

/// Once the ban of a host is lifted everywhere, no jail has it banned.
pub proof fn law_unbanned_everywhere(st: ServerState, host: Text, i: int)
    requires
        0 <= i < st.jails.len(),
        forall|k: int|
            0 <= k < st.jails.len() ==> table::distinct((#[trigger] st.jails[k]).bans.bans),
    ensures
        without_host(st, host).jails.len() == st.jails.len(),
        !banmanager::banned(without_host(st, host).jails[i].bans, host),
{
    lemma_lifted_jails(st.jails, st.db, host);
    let j = st.jails[i];
    table::law_removed_lookup(j.bans.bans, host, host);
}

proof fn lemma_lifted_jails(jails: Seq<JailState>, db: DbState, host: Text)
    ensures
        lifted_everywhere(jails, db, host).jails == jails.map_values(
            |j: JailState|
                if banmanager::banned(j.bans, host) {
                    unbanned(j, host)
                } else {
                    j
                },
        ),
    decreases jails.len(),
{
    let f = |j: JailState|
        if banmanager::banned(j.bans, host) {
            unbanned(j, host)
        } else {
            j
        };
    if jails.len() > 0 {
        lemma_lifted_jails(jails.drop_last(), db, host);
        assert(jails.map_values(f) =~= jails.drop_last().map_values(f).push(f(jails.last())));
    }
    assert(lifted_everywhere(jails, db, host).jails =~= jails.map_values(f));
}

/// Once all bans are lifted, no host is banned in any jail, and the record is
/// empty.
pub proof fn law_unban_all_leaves_none(st: ServerState, host: Text, i: int)
    requires
        0 <= i < st.jails.len(),
    ensures
        !banmanager::banned(without_bans(st).jails[i].bans, host),
        database::current_bans(without_bans(st).db).len() == 0,
{
    let db = without_bans(st).db;
    assert(db.bans.filter(|r: RowView| database::is_current(r, db.bips)).len() == 0) by {
        reveal(Seq::filter);
    }
}

/// A host that is banned by command in a jail is banned there.
pub proof fn law_hand_ban_holds(st: ServerState, i: int, host: Text, now: Timestamp)
    requires
        0 <= i < st.jails.len(),
    ensures
        banmanager::banned(with_hand_ban(st, i, host, now).jails[i].bans, host),
{
    banmanager::law_added_ban_holds(st.jails[i].bans, hand_ban(st, i, host, now), host);
}

/// A ban by hand is one more ban of the jail and of no other, is not recorded,
/// and has the jail's actions run.
pub proof fn law_ban_by_hand(st: ServerState, i: int, host: Text, now: Timestamp, k: int)
    requires
        0 <= i < st.jails.len(),
        0 <= k < st.jails.len(),
    ensures
        ({
            let after = with_hand_ban(st, i, host, now);
            let j = st.jails[i];
            let b = jail::ban_by_hand(
                j.config,
                host,
                database::count_of(st.db.bans, j.config.name, host),
                bantime::next_number(st.random),
                now,
            );
            &&& table::lookup(after.jails[i].bans.bans, host) == Some(b)
            &&& after.jails[i].fails == j.fails
            &&& after.jails.len() == st.jails.len()
            &&& k != i ==> after.jails[k] == st.jails[k]
            &&& after.db == st.db
            &&& after.config == st.config
        }),
{
    table::law_put_lookup(st.jails[i].bans.bans, host, hand_ban(st, i, host, now), host);
}

/// Hosts are banned and unbanned by hand one after the other.
pub proof fn law_hosts_one_by_one(
    st: ServerState,
    i: int,
    hosts: Seq<Text>,
    host: Text,
    now: Timestamp,
)
    ensures
        hand_bans(st, i, Seq::empty(), now) == (st, Seq::<WorkView>::empty()),
        ({
            let before = hand_bans(st, i, hosts, now);
            let after = hand_bans(st, i, hosts.push(host), now);
            &&& after.0 == with_hand_ban(before.0, i, host, now)
            &&& after.1 == before.1.push(
                WorkView::Run(
                    before.0.jails[i].config.name,
                    jobs::jobs_for(
                        before.0.jails[i].actions,
                        Which::All,
                        run::Phase::Check,
                        Some(jobs::info_of(hand_ban(before.0, i, host, now))),
                    ),
                ),
            )
        }),
        hand_unbans(st, i, Seq::empty()) == (st, Seq::<WorkView>::empty()),
        ({
            let before = hand_unbans(st, i, hosts);
            let after = hand_unbans(st, i, hosts.push(host));
            let j = before.0.jails[i];
            &&& after.0 == with_hand_unban(before.0, i, host)
            &&& banmanager::banned(j.bans, host) ==> after.1 == before.1.push(
                WorkView::Run(
                    j.config.name,
                    jobs::jobs_for(
                        j.actions,
                        Which::All,
                        run::Phase::Unban,
                        Some(jail::info_by_hand(host)),
                    ),
                ),
            )
            &&& !banmanager::banned(j.bans, host) ==> after.1 == before.1
        }),
{
    assert(hosts.push(host).drop_last() =~= hosts);
}

/// A host that is unbanned by hand in a jail is banned there no more, and the
/// record loses its newest ban; one that is not banned changes nothing.
pub proof fn law_unban_by_hand(st: ServerState, i: int, host: Text, k: int)
    requires
        0 <= i < st.jails.len(),
        0 <= k < st.jails.len(),
        table::distinct(st.jails[i].bans.bans),
    ensures
        ({
            let after = with_hand_unban(st, i, host);
            &&& !banmanager::banned(after.jails[i].bans, host)
            &&& k != i ==> after.jails[k] == st.jails[k]
            &&& banmanager::banned(st.jails[i].bans, host) ==> after.db == database::without_ban(
                st.db,
                st.jails[i].config.name,
                host,
            )
            &&& !banmanager::banned(st.jails[i].bans, host) ==> after == st
        }),
{
    table::law_removed_lookup(st.jails[i].bans.bans, host, host);
}

/// Lifting the bans of a host everywhere goes from jail to jail: where the
/// host is banned, the ban goes, the record loses it, and the actions undo it.
pub proof fn law_jails_one_by_one(
    jails: Seq<JailState>,
    db: DbState,
    host: Text,
    j: JailState,
)
    ensures
        ({
            let before = lifted_everywhere(jails, db, host);
            let after = lifted_everywhere(jails.push(j), db, host);
            &&& banmanager::banned(j.bans, host) ==> {
                &&& after.db == database::without_ban(before.db, j.config.name, host)
                &&& after.jails == before.jails.push(
                    JailState {
                        bans: BanState {
                            bans: table::removed(j.bans.bans, host),
                            total: j.bans.total,
                        },
                        ..j
                    },
                )
                &&& after.work == before.work.push(
                    WorkView::Run(
                        j.config.name,
                        jobs::jobs_for(
                            j.actions,
                            Which::All,
                            run::Phase::Unban,
                            Some(jail::info_by_hand(host)),
                        ),
                    ),
                )
            }
            &&& !banmanager::banned(j.bans, host) ==> {
                &&& after.db == before.db
                &&& after.jails == before.jails.push(j)
                &&& after.work == before.work
            }
        }),
        lifted_everywhere(Seq::empty(), db, host).db == db,
        lifted_everywhere(Seq::empty(), db, host).work.len() == 0,
{
    assert(jails.push(j).drop_last() =~= jails);
}

/// An attempt is a failure of the host now: it is noted in the jail, and makes
/// a ban that is recorded and run where it makes enough failures.
pub proof fn law_attempt_is_a_failure(st: ServerState, i: int, host: Text, now: Timestamp, k: int)
    requires
        0 <= i < st.jails.len(),
        0 <= k < st.jails.len(),
    ensures
        ({
            let (after, work) = attempted(st, i, host, now);
            let j = st.jails[i];
            let m = jail::attempt_of(host, now);
            let due = failmanager::ban_due(j.fails, m, now, j.window);
            &&& k != i ==> after.jails[k] == st.jails[k]
            &&& due is None ==> {
                &&& after.jails[i].fails == failmanager::after_match(j.fails, m, now, j.window)
                &&& after.jails[i].bans == j.bans
                &&& after.db == st.db
                &&& work.len() == 0
            }
            &&& due matches Some(t) ==> {
                let past = database::count_of(st.db.bans, j.config.name, host);
                let b = banmanager::ban_of(
                    t,
                    m,
                    bantime::ban_seconds(j.config, past, bantime::next_number(st.random)),
                    now,
                );
                &&& banmanager::banned(after.jails[i].bans, t.host)
                &&& after.db == database::with_ban(
                    st.db,
                    jail::row_of(j.config.name, b, st.dbmaxmatches as nat),
                )
                &&& work.len() == 1
            }
        }),
{
    let j = st.jails[i];
    if let Some(b) = attempt_ban(st, i, host, now) {
        table::law_put_lookup(j.bans.bans, b.host, b, b.host);
    }
}

} // verus!
