//! The commands that a jail takes.

use crate::action::run;
use crate::ip::IpAddr;
use crate::server::banmanager;
use crate::server::banmanager::BanState;
use crate::server::bantime;
use crate::server::database;
use crate::server::database::{Database, DbState};
use crate::server::failmanager;
use crate::server::jail;
use crate::server::jail::{Jail, JailState};
use crate::server::jobs;
use crate::server::jobs::{Job, JobView, Which};
use crate::table;
use crate::text::Text;
use crate::time::Timestamp;
use vstd::prelude::*;

verus! {

/// A command for a jail.
#[derive(Debug)]
pub enum JailCommand {
    /// Take in a failure of a host.
    Attempt {
        ip: String,
        failures: Vec<String>,
    },
    /// Ban a host.
    BanIp { ip: String },
    /// Lift the ban of a host.
    UnbanIp { ip: String },
    /// Lift all bans.
    FlushAll,
    /// Take up a ban from the record again, without running commands.
    RestoreBan {
        ip: String,
        ip_addr: Option<IpAddr>,
        time_of_ban: i64,
        bantime: Option<i64>,
    },
    /// Stop the jail.
    Stop,
}

/// What a command leaves behind: the jail, the record of bans, and the jobs
/// that are to be run.
pub struct Obeyed {
    pub jail: JailState,
    pub db: DbState,
    pub jobs: Seq<JobView>,
}

/// The jobs of a ban.
pub open spec fn ban_jobs(st: JailState, b: banmanager::BanView) -> Seq<JobView> {
    jobs::jobs_for(st.actions, Which::All, run::Phase::Check, Some(jobs::info_of(b)))
}

/// What a failure by command leaves behind.
pub open spec fn after_attempt(
    st: JailState,
    db: DbState,
    host: Text,
    max: nat,
    draw: u64,
    now: Timestamp,
) -> Obeyed {
    let m = jail::attempt_of(host, now);
    let past = database::count_of(db.bans, st.config.name, host);
    let counted = JailState {
        fails: failmanager::after_match(st.fails, m, now, st.window),
        ..st
    };
    match failmanager::ban_due(st.fails, m, now, st.window) {
        None => Obeyed { jail: counted, db, jobs: Seq::empty() },
        Some(t) => {
            let b = banmanager::ban_of(t, m, bantime::ban_seconds(st.config, past, draw), now);
            Obeyed {
                jail: jail::with_issued(counted, b),
                db: database::with_ban(db, jail::row_of(st.config.name, b, max)),
                jobs: ban_jobs(st, b),
            }
        },
    }
}

/// What a ban by command leaves behind.
pub open spec fn after_ban(st: JailState, db: DbState, host: Text, draw: u64, now: Timestamp) -> Obeyed {
    let past = database::count_of(db.bans, st.config.name, host);
    let b = jail::ban_by_hand(st.config, host, past, draw, now);
    Obeyed {
        jail: JailState { bans: banmanager::with_ban(st.bans, b), ..st },
        db,
        jobs: ban_jobs(st, b),
    }
}

/// What lifting a ban by command leaves behind.
pub open spec fn after_unban(st: JailState, db: DbState, host: Text) -> Obeyed {
    if banmanager::banned(st.bans, host) {
        Obeyed {
            jail: JailState {
                bans: BanState { bans: table::removed(st.bans.bans, host), total: st.bans.total },
                ..st
            },
            db: database::without_ban(db, st.config.name, host),
            jobs: jobs::jobs_for(
                st.actions,
                Which::All,
                run::Phase::Unban,
                Some(jail::info_by_hand(host)),
            ),
        }
    } else {
        Obeyed { jail: st, db, jobs: Seq::empty() }
    }
}

/// What lifting all bans leaves behind.
pub open spec fn after_flush(st: JailState, db: DbState) -> Obeyed {
    let bans = banmanager::tickets(st.bans.bans);
    Obeyed {
        jail: JailState { bans: BanState { bans: Seq::empty(), total: st.bans.total }, ..st },
        db: jail::lifting(db, st.config.name, bans),
        jobs: jobs::flush_jobs(st.actions, bans),
    }
}

/// What taking a ban up from the record leaves behind.
pub open spec fn after_restoring(
    st: JailState,
    db: DbState,
    host: Text,
    ip: Option<IpAddr>,
    time_of_ban: i64,
    bantime: Option<i64>,
    now: Timestamp,
) -> Obeyed {
    let start = jail::restored_start(time_of_ban, now);
    if jail::restored_over(start, bantime, now) {
        Obeyed {
            jail: st,
            db: database::without_ban(db, st.config.name, host),
            jobs: Seq::empty(),
        }
    } else {
        let b = jail::restored_ban(host, ip, start, bantime);
        Obeyed {
            jail: JailState { bans: banmanager::with_ban(st.bans, b), ..st },
            db,
            jobs: Seq::empty(),
        }
    }
}

/// What a command leaves behind. At most `max` of the lines that led to a ban
/// are recorded, and `draw` is a random number.
pub open spec fn obeyed(
    st: JailState,
    db: DbState,
    c: JailCommand,
    max: nat,
    draw: u64,
    now: Timestamp,
) -> Obeyed {
    match c {
        JailCommand::Attempt { ip, failures } => after_attempt(st, db, ip@, max, draw, now),
        JailCommand::BanIp { ip } => after_ban(st, db, ip@, draw, now),
        JailCommand::UnbanIp { ip } => after_unban(st, db, ip@),
        JailCommand::FlushAll => after_flush(st, db),
        JailCommand::RestoreBan { ip, ip_addr, time_of_ban, bantime } => after_restoring(
            st,
            db,
            ip@,
            ip_addr,
            time_of_ban,
            bantime,
            now,
        ),
        JailCommand::Stop => Obeyed { jail: st, db, jobs: Seq::empty() },
    }
}

fn no_jobs() -> (r: Vec<Job>)
    ensures
        jobs::job_list(r@) == Seq::<JobView>::empty(),
{
    let r: Vec<Job> = Vec::new();
    assert(jobs::job_list(r@) =~= Seq::<JobView>::empty());
    r
}

impl Jail {
    /// Does what a command says; the jobs that are to be run come back. With
    /// `Stop` nothing is left to do here.
    pub fn obey(
        &mut self,
        command: JailCommand,
        db: &mut Database,
        dbmaxmatches: u32,
        draw: u64,
        now: Timestamp,
    ) -> (r: Vec<Job>)
        requires
            old(self).wf(),
        ensures
            final(self).wf(),
            ({
                let o = obeyed(old(self)@, old(db)@, command, dbmaxmatches as nat, draw, now);
                &&& final(self)@ == o.jail
                &&& final(db)@ == o.db
                &&& jobs::job_list(r@) == o.jobs
            }),
    {
        match command {
            JailCommand::Attempt { ip, failures } => {
                match self.manual_attempt(ip.as_str(), db, draw, now) {
                    Some(ban) => self.issue_ban(ban, db, dbmaxmatches),
                    None => no_jobs(),
                }
            },
            JailCommand::BanIp { ip } => self.manual_ban(ip.as_str(), db, draw, now),
            JailCommand::UnbanIp { ip } => {
                let jobs = self.manual_unban(ip.as_str(), db);
                proof {
                    if !banmanager::banned(old(self)@.bans, ip@) {
                        assert(jobs::job_list(jobs@) =~= Seq::<JobView>::empty());
                    }
                }
                jobs
            },
            JailCommand::FlushAll => self.flush_all_bans(db),
            JailCommand::RestoreBan { ip, ip_addr, time_of_ban, bantime } => {
                self.restore_ban(ip.as_str(), ip_addr, time_of_ban, bantime, db, now);
                no_jobs()
            },
            JailCommand::Stop => no_jobs(),
        }
    }
}

/// A host that a jail is told to ban is banned, whatever it was before, and
/// one whose ban it is told to lift is not.
pub proof fn law_order_is_carried_out(
    st: JailState,
    db: DbState,
    host: Text,
    draw: u64,
    now: Timestamp,
)
    requires
        table::distinct(st.bans.bans),
    ensures
        banmanager::banned(after_ban(st, db, host, draw, now).jail.bans, host),
        !banmanager::banned(after_unban(st, db, host).jail.bans, host),
        !banmanager::banned(after_flush(st, db).jail.bans, host),
{
    let past = database::count_of(db.bans, st.config.name, host);
    banmanager::law_added_ban_holds(
        st.bans,
        jail::ban_by_hand(st.config, host, past, draw, now),
        host,
    );
    table::law_removed_lookup(st.bans.bans, host, host);
}

/// What each order does to the bans of the jail, to the record, and which
/// commands it has run.
pub proof fn law_orders(
    st: JailState,
    db: DbState,
    host: String,
    ip: Option<IpAddr>,
    time: i64,
    bantime: Option<i64>,
    max: nat,
    draw: u64,
    now: Timestamp,
)
    ensures
        ({
            let o = obeyed(st, db, JailCommand::BanIp { ip: host }, max, draw, now);
            let past = database::count_of(db.bans, st.config.name, host@);
            let b = jail::ban_by_hand(st.config, host@, past, draw, now);
            &&& table::lookup(o.jail.bans.bans, host@) == Some(b)
            &&& o.jail.fails == st.fails
            &&& o.db == db
            &&& o.jobs == jobs::jobs_for(
                st.actions,
                Which::All,
                run::Phase::Check,
                Some(jobs::info_of(b)),
            )
        }),
        banmanager::banned(st.bans, host@) ==> ({
            let o = obeyed(st, db, JailCommand::UnbanIp { ip: host }, max, draw, now);
            &&& o.db == database::without_ban(db, st.config.name, host@)
            &&& o.jail.bans.bans == table::removed(st.bans.bans, host@)
            &&& o.jobs == jobs::jobs_for(
                st.actions,
                Which::All,
                run::Phase::Unban,
                Some(jail::info_by_hand(host@)),
            )
        }),
        !banmanager::banned(st.bans, host@) ==> obeyed(
            st,
            db,
            JailCommand::UnbanIp { ip: host },
            max,
            draw,
            now,
        ) == (Obeyed { jail: st, db, jobs: Seq::empty() }),
        ({
            let o = obeyed(st, db, JailCommand::FlushAll, max, draw, now);
            let bans = banmanager::tickets(st.bans.bans);
            &&& o.jail.bans.bans.len() == 0
            &&& o.db == jail::lifting(db, st.config.name, bans)
            &&& o.jobs == jobs::flush_jobs(st.actions, bans)
        }),
        ({
            let o = obeyed(
                st,
                db,
                JailCommand::RestoreBan { ip: host, ip_addr: ip, time_of_ban: time, bantime },
                max,
                draw,
                now,
            );
            let start = jail::restored_start(time, now);
            &&& o.jobs.len() == 0
            &&& jail::restored_over(start, bantime, now) ==> o.jail == st && o.db
                == database::without_ban(db, st.config.name, host@)
            &&& !jail::restored_over(start, bantime, now) ==> o.db == db && table::lookup(
                o.jail.bans.bans,
                host@,
            ) == Some(jail::restored_ban(host@, ip, start, bantime))
        }),
        obeyed(st, db, JailCommand::Stop, max, draw, now) == (Obeyed {
            jail: st,
            db,
            jobs: Seq::empty(),
        }),
{
    let past = database::count_of(db.bans, st.config.name, host@);
    let b = jail::ban_by_hand(st.config, host@, past, draw, now);
    table::law_put_lookup(st.bans.bans, host@, b, host@);
    let start = jail::restored_start(time, now);
    let r = jail::restored_ban(host@, ip, start, bantime);
    table::law_put_lookup(st.bans.bans, host@, r, host@);
}

/// An attempt is a failure of the host now: it is noted, and where it makes
/// enough failures, it makes a ban that is recorded and run.
pub proof fn law_attempt_order(
    st: JailState,
    db: DbState,
    host: String,
    failures: Vec<String>,
    max: nat,
    draw: u64,
    now: Timestamp,
)
    ensures
        ({
            let o = obeyed(st, db, JailCommand::Attempt { ip: host, failures }, max, draw, now);
            let m = jail::attempt_of(host@, now);
            let due = failmanager::ban_due(st.fails, m, now, st.window);
            &&& due is None ==> {
                &&& o.jail == (JailState {
                    fails: failmanager::after_match(st.fails, m, now, st.window),
                    ..st
                })
                &&& o.db == db
                &&& o.jobs.len() == 0
            }
            &&& due matches Some(t) ==> {
                let past = database::count_of(db.bans, st.config.name, host@);
                let b = banmanager::ban_of(t, m, bantime::ban_seconds(st.config, past, draw), now);
                &&& table::lookup(o.jail.bans.bans, t.host) == Some(b)
                &&& o.db == database::with_ban(db, jail::row_of(st.config.name, b, max))
                &&& o.jobs == jobs::jobs_for(
                    st.actions,
                    Which::All,
                    run::Phase::Check,
                    Some(jobs::info_of(b)),
                )
            }
        }),
{
    let m = jail::attempt_of(host@, now);
    let past = database::count_of(db.bans, st.config.name, host@);
    if let Some(t) = failmanager::ban_due(st.fails, m, now, st.window) {
        let b = banmanager::ban_of(t, m, bantime::ban_seconds(st.config, past, draw), now);
        table::law_put_lookup(st.bans.bans, t.host, b, t.host);
    }
}

} // verus!
