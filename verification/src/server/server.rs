//! The server: the configuration, the jails that run, and the record of bans.
//!
//! Nothing here waits or runs a command. What is to be run comes back as work.

use crate::config::jail::{JailConfig, JailView};
use crate::config::loader;
use crate::config::loader::{ConfigView, LoadedConfig};
use crate::error;
use crate::error::{Error, ErrorView};
use crate::ip;
use crate::ip::IpAddr;
use crate::server::assembly;
use crate::server::banmanager;
use crate::server::banmanager::BanView;
use crate::server::bantime;
use crate::server::bantime::Jitter;
use crate::server::database;
use crate::server::database::{Database, DbState, RowView};
use crate::server::jail;
use crate::server::jail::{Jail, JailState};
use crate::server::jobs;
use crate::server::jobs::{Job, JobView, Which};
use crate::table;
use crate::text;
use crate::text::Text;
use crate::time;
use crate::time::Timestamp;
use vstd::prelude::*;

verus! {

/// The server.
pub struct Server {
    /// The configuration.
    pub config: LoadedConfig,
    /// The jails that run, in the order in which they were started.
    pub jails: Vec<Jail>,
    /// The record of bans.
    pub db: Database,
    /// The log level.
    pub loglevel: String,
    /// Where the log goes.
    pub logtarget: String,
    /// The path of the database.
    pub dbfile: String,
    /// How many matched lines the database keeps with a ban.
    pub dbmaxmatches: u32,
    /// For how many seconds the database keeps bans.
    pub dbpurgeage: u64,
    /// The directories that the configuration comes from.
    pub search_dirs: Vec<String>,
    /// Random numbers for the lengths of bans.
    pub jitter: Jitter,
}

/// The model of a server.
#[verifier::ext_equal]
pub struct ServerState {
    pub config: ConfigView,
    pub jails: Seq<JailState>,
    pub db: DbState,
    pub loglevel: Text,
    pub logtarget: Text,
    pub dbfile: Text,
    pub dbmaxmatches: u32,
    pub dbpurgeage: u64,
    pub dirs: Seq<Text>,
    pub random: u64,
}

/// The models of jails.
pub open spec fn jail_list(v: Seq<Jail>) -> Seq<JailState> {
    v.map_values(|j: Jail| j@)
}

impl View for Server {
    type V = ServerState;

    open spec fn view(&self) -> ServerState {
        ServerState {
            config: self.config@,
            jails: jail_list(self.jails@),
            db: self.db@,
            loglevel: self.loglevel@,
            logtarget: self.logtarget@,
            dbfile: self.dbfile@,
            dbmaxmatches: self.dbmaxmatches,
            dbpurgeage: self.dbpurgeage,
            dirs: text::texts(self.search_dirs@),
            random: self.jitter.state,
        }
    }
}

/// What is to be run for a jail.
pub enum Work {
    /// Jobs of a jail that runs.
    Run { jail: String, jobs: Vec<Job> },
    /// A jail was started: its first jobs.
    Started { jail: String, jobs: Vec<Job> },
    /// A jail was stopped: its last jobs.
    Stopped { stopped: Jail, jobs: Vec<Job> },
}

/// The model of what is to be run.
pub enum WorkView {
    Run(Text, Seq<JobView>),
    Started(Text, Seq<JobView>),
    Stopped(JailState, Seq<JobView>),
}

impl View for Work {
    type V = WorkView;

    open spec fn view(&self) -> WorkView {
        match *self {
            Work::Run { jail, jobs } => WorkView::Run(jail@, jobs::job_list(jobs@)),
            Work::Started { jail, jobs } => WorkView::Started(jail@, jobs::job_list(jobs@)),
            Work::Stopped { stopped, jobs } => WorkView::Stopped(stopped@, jobs::job_list(jobs@)),
        }
    }
}

/// The models of what is to be run.
pub open spec fn work_list(v: Seq<Work>) -> Seq<WorkView> {
    v.map_values(|w: Work| w@)
}

/// The position of the first jail of a name, or the number of jails.
pub open spec fn position_of(jails: Seq<JailState>, name: Text) -> int
    decreases jails.len(),
{
    if jails.len() == 0 || jails[0].config.name == name {
        0
    } else {
        1 + position_of(jails.drop_first(), name)
    }
}

pub proof fn lemma_position(jails: Seq<JailState>, name: Text, i: int)
    requires
        0 <= i <= jails.len(),
        forall|k: int| 0 <= k < i ==> (#[trigger] jails[k]).config.name != name,
        i < jails.len() ==> jails[i].config.name == name,
    ensures
        position_of(jails, name) == i,
    decreases i,
{
    if i > 0 {
        assert(jails[0].config.name != name);
        let t = jails.drop_first();
        assert forall|k: int| 0 <= k < i - 1 implies (#[trigger] t[k]).config.name != name by {
            assert(t[k] == jails[k + 1]);
        }
        lemma_position(t, name, i - 1);
    }
}

/// The server after a jail is started, and the jail.
pub open spec fn started(st: ServerState, name: Text) -> Result<JailState, ErrorView> {
    if position_of(st.jails, name) < st.jails.len() {
        Err(ErrorView::Jail(name + " already running"@))
    } else {
        assembly::built(st.config, name)
    }
}

/// The server with one more jail.
pub open spec fn with_jail(st: ServerState, j: JailState) -> ServerState {
    ServerState { jails: st.jails.push(j), ..st }
}

/// What is to be run when a jail is started.
pub open spec fn start_work(j: JailState) -> WorkView {
    WorkView::Started(j.config.name, jobs::start_jobs(j.actions))
}

/// The bans of a jail that are over.
pub open spec fn ended(j: JailState, now: Timestamp) -> Seq<BanView> {
    banmanager::tickets(banmanager::over(j.bans.bans, now, true))
}

/// The record after a jail is stopped: the bans that are over are lifted.
pub open spec fn db_after_stop(db: DbState, j: JailState, now: Timestamp) -> DbState {
    jail::lifting(db, j.config.name, ended(j, now))
}

/// What is to be run when a jail is stopped: the bans that are over are
/// lifted, and the actions are taken down.
pub open spec fn stop_work(j: JailState, now: Timestamp) -> WorkView {
    WorkView::Stopped(
        jail::purged(j, now),
        jobs::unban_jobs(j.actions, Which::All, ended(j, now)) + jobs::stop_jobs(j.actions),
    )
}

/// The server after the jail at a position is stopped.
pub open spec fn without_jail(st: ServerState, i: int, now: Timestamp) -> ServerState {
    ServerState {
        jails: st.jails.remove(i),
        db: db_after_stop(st.db, st.jails[i], now),
        ..st
    }
}

/// The record after several jails are stopped, and what is to be run.
pub open spec fn stopped_all(jails: Seq<JailState>, db: DbState, now: Timestamp) -> (
    DbState,
    Seq<WorkView>,
)
    decreases jails.len(),
{
    if jails.len() == 0 {
        (db, Seq::empty())
    } else {
        let front = stopped_all(jails.drop_last(), db, now);
        (
            db_after_stop(front.0, jails.last(), now),
            front.1.push(stop_work(jails.last(), now)),
        )
    }
}

/// The server without jails.
pub open spec fn all_stopped(st: ServerState, now: Timestamp) -> ServerState {
    ServerState {
        jails: Seq::empty(),
        db: stopped_all(st.jails, st.db, now).0,
        ..st
    }
}

fn stop_jobs_of(j: Jail, db: &mut Database, now: Timestamp) -> (r: Work)
    requires
        j.wf(),
    ensures
        final(db)@ == db_after_stop(old(db)@, j@, now),
        r@ == stop_work(j@, now),
        r matches Work::Stopped { stopped, .. } && stopped.wf(),
{
    let mut j = j;
    let ghost before = j@;
    let mut jobs = j.purge_expired_bans(db, now);
    let mut last = jobs::plan_stop(&j.actions);
    let ghost a = jobs@;
    let ghost b = last@;
    jobs.append(&mut last);
    assert(jobs::job_list(jobs@) =~= jobs::job_list(a) + jobs::job_list(b));
    Work::Stopped { stopped: j, jobs }
}

impl Server {
    /// The configuration and the jails are well formed.
    pub open spec fn wf(&self) -> bool {
        &&& self.config.wf()
        &&& forall|i: int| 0 <= i < self.jails@.len() ==> (#[trigger] self.jails@[i]).wf()
    }

    /// A server without jails and bans. `seed` is a moment in nanoseconds.
    pub fn new(config: LoadedConfig, seed: u64) -> (r: Server)
        requires
            config.wf(),
        ensures
            r.wf(),
            r.config == config,
            r@.jails == Seq::<JailState>::empty(),
            r@.db.bans == Seq::<RowView>::empty(),
            r@.db.bips == Seq::<database::CurrentView>::empty(),
            r@.loglevel == config@.global.loglevel,
            r@.logtarget == config@.global.logtarget,
            r@.dbfile == config@.global.dbfile,
            r@.dbmaxmatches == config@.global.dbmaxmatches,
            r@.dbpurgeage == config@.global.dbpurgeage,
            r@.dirs == Seq::<Text>::empty(),
            r@.random == bantime::first_number(seed),
    {
        let r = Server {
            loglevel: config.global.loglevel.clone(),
            logtarget: config.global.logtarget.clone(),
            dbfile: config.global.dbfile.clone(),
            dbmaxmatches: config.global.dbmaxmatches,
            dbpurgeage: config.global.dbpurgeage,
            config,
            jails: Vec::new(),
            db: Database::open(),
            search_dirs: Vec::new(),
            jitter: Jitter::new(seed),
        };
        assert(r@.jails =~= Seq::<JailState>::empty());
        assert(r@.dirs =~= Seq::<Text>::empty());
        r
    }

    /// Sets the directories that the configuration comes from.
    pub fn set_search_dirs(&mut self, dirs: Vec<String>)
        requires
            old(self).wf(),
        ensures
            final(self).wf(),
            final(self)@ == (ServerState { dirs: text::texts(dirs@), ..old(self)@ }),
    {
        self.search_dirs = dirs;
    }

    /// The directories that the configuration comes from, with commas between
    /// them.
    pub fn config_path(&self) -> (r: String)
        ensures
            r@ == text::joined(self@.dirs, ","@),
    {
        text::join(&self.search_dirs, ",")
    }

    /// The position of a jail that runs.
    pub fn find_jail(&self, name: &str) -> (r: Option<usize>)
        ensures
            match r {
                Some(i) => i < self.jails@.len() && position_of(self@.jails, name@) == i,
                None => position_of(self@.jails, name@) == self@.jails.len(),
            },
    {
        let ghost all = self@.jails;
        let mut i: usize = 0;
        while i < self.jails.len()
            invariant
                i <= self.jails.len() == all.len(),
                all == jail_list(self.jails@),
                forall|k: int| 0 <= k < i ==> (#[trigger] all[k]).config.name != name@,
            decreases self.jails.len() - i,
        {
            if text::same(self.jails[i].config.name.as_str(), name) {
                proof {
                    lemma_position(all, name@, i as int);
                }
                return Some(i);
            }
            i += 1;
        }
        proof {
            lemma_position(all, name@, all.len() as int);
        }
        None
    }

    /// Starts a jail.
    pub fn start_jail(&mut self, name: &str) -> (r: Result<Work, Error>)
        requires
            old(self).wf(),
        ensures
            final(self).wf(),
            match r {
                Ok(w) => started(old(self)@, name@) is Ok && final(self)@ == with_jail(
                    old(self)@,
                    started(old(self)@, name@)->Ok_0,
                ) && w@ == start_work(started(old(self)@, name@)->Ok_0),
                Err(e) => started(old(self)@, name@) == Err::<JailState, ErrorView>(e@)
                    && final(self)@ == old(self)@,
            },
    {
        if self.find_jail(name).is_some() {
            return Err(Error::Jail(text::cat2(name, " already running")));
        }
        match assembly::build_jail(&self.config, name) {
            Ok(j) => {
                let jobs = jobs::plan_start(&j.actions);
                let jail = j.config.name.clone();
                let ghost before = self.jails@;
                self.jails.push(j);
                assert(jail_list(self.jails@) =~= jail_list(before).push(j@));
                Ok(Work::Started { jail, jobs })
            },
            Err(e) => Err(e),
        }
    }

    /// Stops a jail.
    pub fn stop_jail(&mut self, name: &str, now: Timestamp) -> (r: Result<Work, Error>)
        requires
            old(self).wf(),
        ensures
            final(self).wf(),
            ({
                let i = position_of(old(self)@.jails, name@);
                match r {
                    Ok(w) => 0 <= i < old(self)@.jails.len() && final(self)@ == without_jail(
                        old(self)@,
                        i,
                        now,
                    ) && w@ == stop_work(old(self)@.jails[i], now),
                    Err(e) => i == old(self)@.jails.len() && final(self)@ == old(self)@ && e@
                        == ErrorView::Jail(name@ + " not running"@),
                }
            }),
    {
        match self.find_jail(name) {
            Some(i) => {
                let ghost before = self.jails@;
                let j = self.jails.remove(i);
                assert(jail_list(self.jails@) =~= jail_list(before).remove(i as int));
                Ok(stop_jobs_of(j, &mut self.db, now))
            },
            None => Err(Error::Jail(text::cat2(name, " not running"))),
        }
    }

    /// Stops all jails, in the order in which they were started.
    pub fn stop_all(&mut self, now: Timestamp) -> (r: Vec<Work>)
        requires
            old(self).wf(),
        ensures
            final(self).wf(),
            final(self)@ == all_stopped(old(self)@, now),
            work_list(r@) == stopped_all(old(self)@.jails, old(self)@.db, now).1,
    {
        let ghost st = self@;
        let ghost all = self@.jails;
        let ghost mut done: int = 0;
        let mut work: Vec<Work> = Vec::new();
        proof {
            assert(all.skip(0) =~= all);
            assert(all.take(0) =~= Seq::empty());
            assert(work_list(work@) =~= Seq::empty());
        }
        while self.jails.len() > 0
            invariant
                0 <= done <= all.len(),
                self.wf(),
                jail_list(self.jails@) == all.skip(done),
                self@ == (ServerState { jails: self@.jails, db: self@.db, ..st }),
                (self@.db, work_list(work@)) == stopped_all(all.take(done), st.db, now),
            decreases self.jails.len(),
        {
            let ghost before = self.jails@;
            let ghost listed = work@;
            let j = self.jails.remove(0);
            proof {
                assert(jail_list(self.jails@) =~= jail_list(before).remove(0));
                assert(all.skip(done).remove(0) =~= all.skip(done + 1));
                assert(all.take(done + 1).drop_last() =~= all.take(done));
                assert(jail_list(before)[0] == all.skip(done)[0]);
                assert(all.take(done + 1).last() == j@);
            }
            let w = stop_jobs_of(j, &mut self.db, now);
            work.push(w);
            proof {
                assert(work_list(work@) =~= work_list(listed).push(w@));
                done = done + 1;
            }
        }
        proof {
            assert(all.skip(done).len() == 0);
            assert(all.take(done) =~= all);
            assert(jail_list(self.jails@) =~= Seq::empty());
        }
        work
    }
}

/// The names of the jails that are to run, in their order.
pub open spec fn enabled_names(jails: Seq<(Text, JailView)>) -> Seq<Text>
    decreases jails.len(),
{
    if jails.len() == 0 {
        Seq::empty()
    } else if jails.last().1.enabled {
        enabled_names(jails.drop_last()).push(jails.last().0)
    } else {
        enabled_names(jails.drop_last())
    }
}

/// The server after jails are started one by one, and what is to be run. One
/// that cannot be started is passed over.
pub open spec fn starting(st: ServerState, names: Seq<Text>) -> (ServerState, Seq<WorkView>)
    decreases names.len(),
{
    if names.len() == 0 {
        (st, Seq::empty())
    } else {
        let front = starting(st, names.drop_last());
        match started(front.0, names.last()) {
            Ok(j) => (with_jail(front.0, j), front.1.push(start_work(j))),
            Err(_) => front,
        }
    }
}

/// The server after a row of the record is taken up in the jail that it names.
pub open spec fn restored_row(st: ServerState, row: RowView, now: Timestamp) -> ServerState {
    let i = position_of(st.jails, row.jail);
    if 0 <= i < st.jails.len() {
        let j = st.jails[i];
        let start = jail::restored_start(row.time, now);
        if jail::restored_over(start, row.bantime, now) {
            ServerState { db: database::without_ban(st.db, j.config.name, row.ip), ..st }
        } else {
            let ban = jail::restored_ban(row.ip, ip::ip_of(row.ip), start, row.bantime);
            ServerState {
                jails: st.jails.update(
                    i,
                    JailState { bans: banmanager::with_ban(j.bans, ban), ..j },
                ),
                ..st
            }
        }
    } else {
        st
    }
}

/// The server after rows of the record are taken up one by one.
pub open spec fn restored(st: ServerState, rows: Seq<RowView>, now: Timestamp) -> ServerState
    decreases rows.len(),
{
    if rows.len() == 0 {
        st
    } else {
        restored_row(restored(st, rows.drop_last(), now), rows.last(), now)
    }
}

/// The server after the current bans of the record are taken up.
pub open spec fn with_bans_restored(st: ServerState, now: Timestamp) -> ServerState {
    restored(st, database::current_bans(st.db), now)
}

/// The server after all jails that are to run are started.
pub open spec fn all_started(st: ServerState, now: Timestamp) -> (ServerState, Seq<WorkView>) {
    let r = starting(st, enabled_names(st.config.jails));
    (with_bans_restored(r.0, now), r.1)
}

/// The server with another configuration.
pub open spec fn reconfigured(st: ServerState, c: ConfigView) -> ServerState {
    ServerState {
        config: c,
        loglevel: c.global.loglevel,
        logtarget: c.global.logtarget,
        dbfile: c.global.dbfile,
        dbmaxmatches: c.global.dbmaxmatches,
        dbpurgeage: c.global.dbpurgeage,
        ..st
    }
}

fn names_to_start(config: &LoadedConfig) -> (r: Vec<String>)
    requires
        config.wf(),
    ensures
        text::texts(r@) == enabled_names(config@.jails),
{
    let ghost all = config@.jails;
    let mut out: Vec<String> = Vec::new();
    let n = config.jails.jails.len();
    let mut i: usize = 0;
    proof {
        assert(all.take(0) =~= Seq::empty());
        assert(text::texts(out@) =~= Seq::empty());
    }
    while i < n
        invariant
            i <= n == all.len(),
            n == config.jails.jails@.len(),
            all == config@.jails,
            config.wf(),
            text::texts(out@) == enabled_names(all.take(i as int)),
        decreases n - i,
    {
        proof {
            assert(all.take(i + 1).drop_last() =~= all.take(i as int));
            assert(all.take(i + 1).last() == all[i as int]);
        }
        if config.jails.jails.item_at(i).enabled {
            let ghost before = out@;
            let name = config.jails.jails.name_at(i).to_owned();
            out.push(name);
            proof {
                text::lemma_texts_push(before, name);
            }
        }
        i += 1;
    }
    assert(all.take(i as int) =~= all);
    out
}

impl Server {
    fn start_named(&mut self, names: &Vec<String>, work: &mut Vec<Work>) -> (count: usize)
        requires
            old(self).wf(),
        ensures
            final(self).wf(),
            final(self)@ == starting(old(self)@, text::texts(names@)).0,
            work_list(final(work)@) == work_list(old(work)@) + starting(
                old(self)@,
                text::texts(names@),
            ).1,
            count == starting(old(self)@, text::texts(names@)).1.len(),
    {
        let ghost st = self@;
        let ghost all = text::texts(names@);
        let ghost first = work_list(work@);
        let mut count: usize = 0;
        let mut i: usize = 0;
        proof {
            assert(all.take(0) =~= Seq::empty());
            assert(first + Seq::<WorkView>::empty() =~= first);
        }
        while i < names.len()
            invariant
                i <= names.len(),
                count <= i,
                all == text::texts(names@),
                self.wf(),
                self@ == starting(st, all.take(i as int)).0,
                work_list(work@) == first + starting(st, all.take(i as int)).1,
                count == starting(st, all.take(i as int)).1.len(),
            decreases names.len() - i,
        {
            proof {
                assert(all.take(i + 1).drop_last() =~= all.take(i as int));
                assert(all.take(i + 1).last() == names@[i as int]@);
            }
            let ghost listed = work@;
            if let Ok(w) = self.start_jail(names[i].as_str()) {
                work.push(w);
                count += 1;
                proof {
                    assert(work_list(work@) =~= work_list(listed).push(w@));
                    assert(work_list(work@) =~= first + starting(st, all.take(i + 1)).1);
                }
            }
            i += 1;
        }
        assert(all.take(i as int) =~= all);
        count
    }

    fn restore_row(&mut self, row: &database::DbBan, now: Timestamp)
        requires
            old(self).wf(),
        ensures
            final(self).wf(),
            final(self)@ == restored_row(old(self)@, row@, now),
    {
        if let Some(i) = self.find_jail(row.jail.as_str()) {
            let ghost before = self.jails@;
            let ip = IpAddr::parse(row.ip.as_str());
            self.jails[i].restore_ban(
                row.ip.as_str(),
                ip,
                row.time_of_ban,
                row.bantime,
                &mut self.db,
                now,
            );
            assert(jail_list(self.jails@) =~= jail_list(before).update(
                i as int,
                self.jails@[i as int]@,
            ));
        }
    }

    /// Takes up the current bans of the record in the jails that they name.
    pub fn restore_bans_from_db(&mut self, now: Timestamp)
        requires
            old(self).wf(),
        ensures
            final(self).wf(),
            final(self)@ == with_bans_restored(old(self)@, now),
    {
        let ghost st = self@;
        let rows = self.db.list_bans();
        let ghost all = database::row_views(rows@);
        let mut i: usize = 0;
        assert(all.take(0) =~= Seq::empty());
        while i < rows.len()
            invariant
                i <= rows.len(),
                all == database::row_views(rows@),
                self.wf(),
                self@ == restored(st, all.take(i as int), now),
            decreases rows.len() - i,
        {
            proof {
                assert(all.take(i + 1).drop_last() =~= all.take(i as int));
                assert(all.take(i + 1).last() == rows@[i as int]@);
            }
            self.restore_row(&rows[i], now);
            i += 1;
        }
        assert(all.take(i as int) =~= all);
    }

    /// Starts all jails that are to run, and takes up the bans of the record.
    /// The number of jails that were started comes back.
    pub fn start_all_enabled(&mut self, work: &mut Vec<Work>, now: Timestamp) -> (count: usize)
        requires
            old(self).wf(),
        ensures
            final(self).wf(),
            final(self)@ == all_started(old(self)@, now).0,
            work_list(final(work)@) == work_list(old(work)@) + all_started(old(self)@, now).1,
            count == all_started(old(self)@, now).1.len(),
    {
        let names = names_to_start(&self.config);
        let count = self.start_named(&names, work);
        self.restore_bans_from_db(now);
        count
    }

    /// Stops a jail, where it runs, and starts it.
    pub fn restart_jail(&mut self, name: &str, work: &mut Vec<Work>, now: Timestamp) -> (r: Result<
        (),
        Error,
    >)
        requires
            old(self).wf(),
        ensures
            final(self).wf(),
            ({
                let i = position_of(old(self)@.jails, name@);
                let mid = if i < old(self)@.jails.len() {
                    without_jail(old(self)@, i, now)
                } else {
                    old(self)@
                };
                let first = if i < old(self)@.jails.len() {
                    work_list(old(work)@).push(stop_work(old(self)@.jails[i], now))
                } else {
                    work_list(old(work)@)
                };
                match started(mid, name@) {
                    Ok(j) => r is Ok && final(self)@ == with_jail(mid, j) && work_list(
                        final(work)@,
                    ) == first.push(start_work(j)),
                    Err(e) => r is Err && r->Err_0@ == e && final(self)@ == mid && work_list(
                        final(work)@,
                    ) == first,
                }
            }),
    {
        let ghost listed = work@;
        if let Ok(w) = self.stop_jail(name, now) {
            work.push(w);
            assert(work_list(work@) =~= work_list(listed).push(w@));
        }
        let ghost stopped = work@;
        match self.start_jail(name) {
            Ok(w) => {
                work.push(w);
                assert(work_list(work@) =~= work_list(stopped).push(w@));
                Ok(())
            },
            Err(e) => Err(e),
        }
    }

    /// Takes another configuration. The jails that run are not touched.
    pub fn adopt(&mut self, config: LoadedConfig)
        requires
            old(self).wf(),
            config.wf(),
        ensures
            final(self).wf(),
            final(self)@ == reconfigured(old(self)@, config@),
    {
        self.loglevel = config.global.loglevel.clone();
        self.logtarget = config.global.logtarget.clone();
        self.dbfile = config.global.dbfile.clone();
        self.dbmaxmatches = config.global.dbmaxmatches;
        self.dbpurgeage = config.global.dbpurgeage;
        self.config = config;
    }

    /// Stops all jails, takes another configuration and another record, and
    /// starts all jails that are to run. The number of jails that were started
    /// comes back.
    pub fn reload_config(
        &mut self,
        config: LoadedConfig,
        db: Database,
        work: &mut Vec<Work>,
        now: Timestamp,
    ) -> (count: usize)
        requires
            old(self).wf(),
            config.wf(),
        ensures
            final(self).wf(),
            ({
                let mid = reconfigured(all_stopped(old(self)@, now), config@);
                let r = all_started((ServerState { db: db@, ..mid }), now);
                &&& final(self)@ == r.0
                &&& work_list(final(work)@) == work_list(old(work)@) + stopped_all(
                    old(self)@.jails,
                    old(self)@.db,
                    now,
                ).1 + r.1
                &&& count == r.1.len()
            }),
    {
        let ghost listed = work@;
        let mut stopped = self.stop_all(now);
        let ghost s = stopped@;
        work.append(&mut stopped);
        assert(work_list(work@) =~= work_list(listed) + work_list(s));
        self.adopt(config);
        self.db = db;
        self.start_all_enabled(work, now)
    }

    /// Starts a jail that the configuration describes.
    pub fn add_jail(&mut self, name: &str) -> (r: Result<Work, Error>)
        requires
            old(self).wf(),
        ensures
            final(self).wf(),
            match table::lookup(old(self)@.config.jails, name@) {
                None => r is Err && final(self)@ == old(self)@ && r->Err_0@ == ErrorView::Jail(
                    "unknown jail: "@ + name@,
                ),
                Some(j) => match started(old(self)@, j.name) {
                    Ok(s) => r is Ok && final(self)@ == with_jail(old(self)@, s) && r->Ok_0@
                        == start_work(s),
                    Err(e) => r is Err && r->Err_0@ == e && final(self)@ == old(self)@,
                },
            },
    {
        proof {
            let f = |j: JailConfig| j@;
            table::lemma_mapped(self.config.jails.jails@, f, name@, arbitrary());
            assert(loader::jail_views(self.config.jails.jails@) =~= table::mapped(
                self.config.jails.jails@,
                f,
            ));
        }
        let known = match self.config.jails.jails.get(name) {
            Some(j) => j.name.clone(),
            None => {
                return Err(Error::Jail(text::cat2("unknown jail: ", name)));
            },
        };
        self.start_jail(known.as_str())
    }
}

/// A jail is found by its name.
pub proof fn law_jail_is_found(jails: Seq<JailState>, name: Text, i: int)
    requires
        0 <= i < jails.len(),
        jails[i].config.name == name,
        forall|k: int| 0 <= k < i ==> (#[trigger] jails[k]).config.name != name,
    ensures
        position_of(jails, name) == i,
{
    lemma_position(jails, name, i);
}

/// A jail that runs is not started again; any other is built from the
/// configuration, runs from then on, and has its actions set up.
pub proof fn law_jail_is_started(st: ServerState, name: Text, j: JailState, i: int)
    ensures
        0 <= i < st.jails.len() && st.jails[i].config.name == name ==> started(st, name) == Err::<
            JailState,
            ErrorView,
        >(ErrorView::Jail(name + " already running"@)),
        (forall|k: int| 0 <= k < st.jails.len() ==> (#[trigger] st.jails[k]).config.name != name)
            ==> started(st, name) == assembly::built(st.config, name),
        with_jail(st, j) == (ServerState { jails: st.jails.push(j), ..st }),
        start_work(j) == WorkView::Started(j.config.name, jobs::start_jobs(j.actions)),
{
    if 0 <= i < st.jails.len() && st.jails[i].config.name == name {
        lemma_found_before(st.jails, name, i);
    }
    if forall|k: int| 0 <= k < st.jails.len() ==> (#[trigger] st.jails[k]).config.name != name {
        lemma_position(st.jails, name, st.jails.len() as int);
    }
}

proof fn lemma_found_before(jails: Seq<JailState>, name: Text, i: int)
    requires
        0 <= i < jails.len(),
        jails[i].config.name == name,
    ensures
        position_of(jails, name) <= i,
    decreases i,
{
    if jails[0].config.name != name {
        assert(jails.drop_first()[i - 1] == jails[i]);
        lemma_found_before(jails.drop_first(), name, i - 1);
    }
}

/// A jail that is stopped runs no more; its bans that are over are lifted, the
/// others stay recorded, and its actions are taken down after that.
pub proof fn law_jail_is_stopped(st: ServerState, i: int, now: Timestamp)
    requires
        0 <= i < st.jails.len(),
    ensures
        ({
            let j = st.jails[i];
            let over = banmanager::tickets(banmanager::over(j.bans.bans, now, true));
            &&& without_jail(st, i, now) == (ServerState {
                jails: st.jails.remove(i),
                db: jail::lifting(st.db, j.config.name, over),
                ..st
            })
            &&& stop_work(j, now) == WorkView::Stopped(
                jail::purged(j, now),
                jobs::unban_jobs(j.actions, Which::All, over) + jobs::stop_jobs(j.actions),
            )
        }),
{
}

/// All jails stop one after the other.
pub proof fn law_jails_stop_in_turn(
    jails: Seq<JailState>,
    db: DbState,
    j: JailState,
    now: Timestamp,
)
    ensures
        stopped_all(Seq::empty(), db, now) == (db, Seq::<WorkView>::empty()),
        ({
            let before = stopped_all(jails, db, now);
            stopped_all(jails.push(j), db, now) == (
                db_after_stop(before.0, j, now),
                before.1.push(stop_work(j, now)),
            )
        }),
{
    assert(jails.push(j).drop_last() =~= jails);
}

/// Every jail that is enabled is started, in the order of the configuration;
/// one that cannot be started is passed over.
pub proof fn law_enabled_jails_start(
    st: ServerState,
    jails: Seq<(Text, JailView)>,
    p: (Text, JailView),
    names: Seq<Text>,
    name: Text,
)
    ensures
        enabled_names(Seq::empty()) == Seq::<Text>::empty(),
        p.1.enabled ==> enabled_names(jails.push(p)) == enabled_names(jails).push(p.0),
        !p.1.enabled ==> enabled_names(jails.push(p)) == enabled_names(jails),
        starting(st, Seq::empty()) == (st, Seq::<WorkView>::empty()),
        ({
            let before = starting(st, names);
            let after = starting(st, names.push(name));
            match started(before.0, name) {
                Ok(j) => after == (with_jail(before.0, j), before.1.push(start_work(j))),
                Err(_) => after == before,
            }
        }),
{
    assert(jails.push(p).drop_last() =~= jails);
    assert(names.push(name).drop_last() =~= names);
}

/// A new configuration brings its own settings; the jails and the record stay.
pub proof fn law_new_settings_count(st: ServerState, c: ConfigView)
    ensures
        ({
            let r = reconfigured(st, c);
            &&& r.config == c
            &&& r.loglevel == c.global.loglevel
            &&& r.logtarget == c.global.logtarget
            &&& r.dbfile == c.global.dbfile
            &&& r.dbmaxmatches == c.global.dbmaxmatches
            &&& r.dbpurgeage == c.global.dbpurgeage
            &&& r.jails == st.jails
            &&& r.db == st.db
            &&& r.dirs == st.dirs
            &&& r.random == st.random
        }),
{
}

/// A recorded ban is restored in its jail as it was recorded; one that is over
/// leaves the record; one of no jail that runs stays.
pub proof fn law_recorded_ban(st: ServerState, row: RowView, i: int, now: Timestamp)
    requires
        0 <= i < st.jails.len(),
        st.jails[i].config.name == row.jail,
        forall|k: int| 0 <= k < i ==> (#[trigger] st.jails[k]).config.name != row.jail,
    ensures
        ({
            let start = jail::restored_start(row.time, now);
            let r = restored_row(st, row, now);
            &&& !jail::restored_over(start, row.bantime, now) ==> {
                &&& table::lookup(r.jails[i].bans.bans, row.ip) matches Some(b)
                &&& b.time_of_ban == start
                &&& b.ip == ip::ip_of(row.ip)
                &&& row.bantime is None <==> b.bantime is None
                &&& row.bantime matches Some(n) ==> (b.bantime matches Some(x) && x == n)
                &&& r.db == st.db
            }
            &&& jail::restored_over(start, row.bantime, now) ==> {
                &&& r.jails == st.jails
                &&& r.db == database::without_ban(st.db, row.jail, row.ip)
            }
        }),
{
    lemma_position(st.jails, row.jail, i);
    let start = jail::restored_start(row.time, now);
    let b = jail::restored_ban(row.ip, ip::ip_of(row.ip), start, row.bantime);
    table::law_put_lookup(st.jails[i].bans.bans, row.ip, b, row.ip);
}

} // verus!
