//! The commands that clients give to the server.

use crate::config;
use crate::config::loader::LoadedConfig;
use crate::error;
use crate::error::{Error, ErrorView};
use crate::protocol;
use crate::protocol::{Answer, Payload, PayloadView, Request, Response};
use crate::server::bans;
use crate::server::database::{Database, DbState};
use crate::server::jail::JailState;
use crate::server::server;
use crate::server::server::{Server, ServerState, Work, WorkView};
use crate::server::status;
use crate::text;
use crate::text::number;
use crate::text::split;
use crate::text::Text;
use crate::time;
use crate::time::{TimeValue, Timestamp};
use vstd::prelude::*;

verus! {

/// What a command comes to.
pub enum Outcome {
    /// An answer.
    Reply(Answer),
    /// The configuration is to be read again from these directories; then all
    /// jails, or one of them, are started anew.
    Reload { dirs: Seq<Text>, jail: Option<Text> },
}

/// What a command leaves behind.
pub struct After {
    pub state: ServerState,
    pub work: Seq<WorkView>,
    pub outcome: Outcome,
}

/// A command that only answers.
pub open spec fn replying(st: ServerState, a: Answer) -> After {
    After { state: st, work: Seq::empty(), outcome: Outcome::Reply(a) }
}

/// A command that is refused.
pub open spec fn refusing(st: ServerState, m: Text) -> After {
    replying(st, Answer::Refused(m))
}

/// `status`: the names of the jails, or what is told of one of them.
pub open spec fn status_of(st: ServerState, args: Seq<Text>) -> After {
    if args.len() < 2 {
        replying(st, Answer::Told(PayloadView::Jails(status::names_of(st.jails))))
    } else {
        let i = server::position_of(st.jails, args[1]);
        if 0 <= i < st.jails.len() {
            replying(
                st,
                Answer::Told(PayloadView::Stats(status::stats_of(st.config, st.jails[i]))),
            )
        } else {
            refusing(st, "no such jail: "@ + args[1])
        }
    }
}

/// `start`: a jail, or all that are to run.
pub open spec fn start_of(st: ServerState, args: Seq<Text>, now: Timestamp) -> After {
    if args.len() < 2 {
        refusing(
            st,
            "start: missing jail name (or use 'start --all' to start all enabled jails)"@,
        )
    } else if args[1] == "--all"@ {
        let r = server::all_started(st, now);
        After {
            state: r.0,
            work: r.1,
            outcome: Outcome::Reply(
                Answer::Said("started "@ + number::decimal(r.1.len()) + " jails"@),
            ),
        }
    } else {
        match server::started(st, args[1]) {
            Ok(j) => After {
                state: server::with_jail(st, j),
                work: seq![server::start_work(j)],
                outcome: Outcome::Reply(Answer::Said("started jail "@ + args[1])),
            },
            Err(e) => refusing(st, error::error_text(e)),
        }
    }
}

/// `stop`: a jail, or all of them.
pub open spec fn stop_of(st: ServerState, args: Seq<Text>, now: Timestamp) -> After {
    if args.len() < 2 {
        After {
            state: server::all_stopped(st, now),
            work: server::stopped_all(st.jails, st.db, now).1,
            outcome: Outcome::Reply(Answer::Said("stopping all jails"@)),
        }
    } else {
        let i = server::position_of(st.jails, args[1]);
        if 0 <= i < st.jails.len() {
            After {
                state: server::without_jail(st, i, now),
                work: seq![server::stop_work(st.jails[i], now)],
                outcome: Outcome::Reply(Answer::Said("stopped jail "@ + args[1])),
            }
        } else {
            refusing(st, error::error_text(ErrorView::Jail(args[1] + " not running"@)))
        }
    }
}

/// Starting a jail anew: the server in between, what is to be run, and how it
/// ends.
pub open spec fn restarted(st: ServerState, name: Text, now: Timestamp) -> (
    ServerState,
    Seq<WorkView>,
    Option<ErrorView>,
) {
    let i = server::position_of(st.jails, name);
    let mid = if i < st.jails.len() {
        server::without_jail(st, i, now)
    } else {
        st
    };
    let first = if i < st.jails.len() {
        seq![server::stop_work(st.jails[i], now)]
    } else {
        Seq::empty()
    };
    match server::started(mid, name) {
        Ok(j) => (server::with_jail(mid, j), first.push(server::start_work(j)), None),
        Err(e) => (mid, first, Some(e)),
    }
}

/// The answer to starting a jail anew.
pub open spec fn restart_answer(name: Text, e: Option<ErrorView>) -> Answer {
    match e {
        None => Answer::Said("restarted jail "@ + name),
        Some(e) => Answer::Refused(error::error_text(e)),
    }
}

/// `restart`: a jail.
pub open spec fn restart_of(st: ServerState, args: Seq<Text>, now: Timestamp) -> After {
    if args.len() < 2 {
        refusing(st, "restart: missing jail name"@)
    } else {
        let r = restarted(st, args[1], now);
        After {
            state: r.0,
            work: r.1,
            outcome: Outcome::Reply(restart_answer(args[1], r.2)),
        }
    }
}

/// Lifting the bans of hosts everywhere, one by one, and in how many cases
/// there was a ban.
pub open spec fn unbanned_each(st: ServerState, hosts: Seq<Text>) -> (
    ServerState,
    Seq<WorkView>,
    nat,
)
    decreases hosts.len(),
{
    if hosts.len() == 0 {
        (st, Seq::empty(), 0)
    } else {
        let front = unbanned_each(st, hosts.drop_last());
        let l = bans::lifted_everywhere(front.0.jails, front.0.db, hosts.last());
        (
            bans::without_host(front.0, hosts.last()),
            front.1 + l.work,
            if l.work.len() > 0 {
                front.2 + 1
            } else {
                front.2
            },
        )
    }
}

/// `unban`: hosts, or all of them.
pub open spec fn unban_of(st: ServerState, args: Seq<Text>) -> After {
    if args.len() < 2 {
        refusing(st, "unban: missing IP or --all"@)
    } else if args[1] == "--all"@ {
        After {
            state: bans::without_bans(st),
            work: st.jails.map_values(|j: JailState| bans::flush_work(j)),
            outcome: Outcome::Reply(Answer::Said("unbanned all"@)),
        }
    } else {
        let r = unbanned_each(st, args.skip(1));
        After {
            state: r.0,
            work: r.1,
            outcome: Outcome::Reply(Answer::Said(number::decimal(r.2))),
        }
    }
}

/// `banned`: the banned hosts by jail, or the jails by host.
pub open spec fn banned_of(st: ServerState, args: Seq<Text>) -> After {
    if args.len() < 2 {
        replying(st, Answer::Told(PayloadView::Listings(status::banned_by_jail(st.jails))))
    } else {
        replying(
            st,
            Answer::Told(
                PayloadView::Listings(
                    args.skip(1).map_values(|h: Text| (h, status::banning(st.jails, h))),
                ),
            ),
        )
    }
}

/// `get`: a setting of the server, or of a jail.
pub open spec fn get_of(st: ServerState, args: Seq<Text>) -> After {
    if args.len() < 2 {
        refusing(st, "get: missing arguments"@)
    } else if args[1] == "loglevel"@ {
        replying(st, Answer::Said(st.loglevel))
    } else if args[1] == "logtarget"@ {
        replying(st, Answer::Said(st.logtarget))
    } else if args[1] == "dbfile"@ {
        replying(st, Answer::Said(st.dbfile))
    } else if args[1] == "dbmaxmatches"@ {
        replying(st, Answer::Said(number::decimal(st.dbmaxmatches as nat)))
    } else if args[1] == "dbpurgeage"@ {
        replying(st, Answer::Said(number::decimal(st.dbpurgeage as nat)))
    } else if args.len() >= 3 {
        let i = server::position_of(st.jails, args[1]);
        if 0 <= i < st.jails.len() {
            replying(st, Answer::Said(status::jail_attr(st.config, st.jails[i], args[2])))
        } else {
            refusing(st, "no such jail: "@ + args[1])
        }
    } else {
        refusing(st, "get: unknown "@ + text::list_text(args.skip(1)))
    }
}

/// `set` of a setting of the server.
pub open spec fn set_global(st: ServerState, key: Text, value: Text) -> After {
    if key == "loglevel"@ {
        replying((ServerState { loglevel: value, ..st }), Answer::Said("OK"@))
    } else if key == "logtarget"@ {
        replying((ServerState { logtarget: value, ..st }), Answer::Said("OK"@))
    } else if key == "dbfile"@ {
        replying((ServerState { dbfile: value, ..st }), Answer::Said("OK"@))
    } else if key == "dbmaxmatches"@ {
        match number::unsigned_of(value, u32::MAX as nat) {
            Ok(n) => replying(
                (ServerState { dbmaxmatches: n as u32, ..st }),
                Answer::Said("OK"@),
            ),
            Err(_) => refusing(st, "invalid integer: "@ + value),
        }
    } else {
        match time::time_of(value) {
            Ok(t) => replying(
                (ServerState { dbpurgeage: time::seconds_or_max(t), ..st }),
                Answer::Said("OK"@),
            ),
            Err(e) => refusing(st, error::error_text(e)),
        }
    }
}

/// Whether a word names a setting of the server.
pub open spec fn is_global(key: Text) -> bool {
    key == "loglevel"@ || key == "logtarget"@ || key == "dbfile"@ || key == "dbmaxmatches"@ || key
        == "dbpurgeage"@
}

/// `set` of something of the jail at a position: `rest` follows what is to be
/// done.
pub open spec fn set_jail(
    st: ServerState,
    i: int,
    action: Text,
    rest: Seq<Text>,
    now: Timestamp,
) -> After {
    if action == "banip"@ {
        let r = bans::hand_bans(st, i, rest, now);
        After {
            state: r.0,
            work: r.1,
            outcome: Outcome::Reply(Answer::Said(number::decimal(rest.len()))),
        }
    } else if action == "unbanip"@ {
        let r = bans::hand_unbans(st, i, rest);
        After {
            state: r.0,
            work: r.1,
            outcome: Outcome::Reply(Answer::Said(number::decimal(rest.len()))),
        }
    } else if action == "attempt"@ {
        let r = bans::attempted(st, i, rest[0], now);
        After { state: r.0, work: r.1, outcome: Outcome::Reply(Answer::Said("OK"@)) }
    } else {
        refusing(st, "set <jail> "@ + action + ": not implemented"@)
    }
}

/// `set`: a setting of the server, or something of a jail.
pub open spec fn set_of(st: ServerState, args: Seq<Text>, now: Timestamp) -> After {
    if args.len() < 2 {
        refusing(st, "set: missing arguments"@)
    } else if is_global(args[1]) {
        if args.len() < 3 {
            refusing(st, "set "@ + args[1] + ": missing value"@)
        } else {
            set_global(st, args[1], args[2])
        }
    } else if args.len() >= 4 {
        let i = server::position_of(st.jails, args[1]);
        if 0 <= i < st.jails.len() {
            set_jail(st, i, args[2], args.skip(3), now)
        } else {
            refusing(st, "no such jail: "@ + args[1])
        }
    } else {
        refusing(st, "set: unknown "@ + text::list_text(args.skip(1)))
    }
}

/// `add`: a jail that the configuration describes.
pub open spec fn add_of(st: ServerState, args: Seq<Text>) -> After {
    if args.len() < 3 {
        refusing(st, "add: usage: add <JAIL> <BACKEND>"@)
    } else {
        match crate::table::lookup(st.config.jails, args[1]) {
            None => refusing(
                st,
                error::error_text(ErrorView::Jail("unknown jail: "@ + args[1])),
            ),
            Some(c) => match server::started(st, c.name) {
                Ok(j) => After {
                    state: server::with_jail(st, j),
                    work: seq![server::start_work(j)],
                    outcome: Outcome::Reply(Answer::Said("added jail "@ + args[1])),
                },
                Err(e) => refusing(st, error::error_text(e)),
            },
        }
    }
}

/// The texts that are not empty, in their order.
pub open spec fn not_empty(v: Seq<Text>) -> Seq<Text>
    decreases v.len(),
{
    if v.len() == 0 {
        Seq::empty()
    } else if v.last().len() > 0 {
        not_empty(v.drop_last()).push(v.last())
    } else {
        not_empty(v.drop_last())
    }
}

/// The directories that the configuration is read from again.
pub open spec fn reload_dirs(st: ServerState) -> Seq<Text> {
    not_empty(split::pieces(text::joined(st.dirs, ","@), ','))
}

/// `reload`: the configuration of all jails, or a jail.
pub open spec fn reload_of(st: ServerState, args: Seq<Text>) -> After {
    if reload_dirs(st).len() == 0 {
        refusing(st, "reload: no config search dirs available"@)
    } else {
        After {
            state: st,
            work: Seq::empty(),
            outcome: Outcome::Reload {
                dirs: reload_dirs(st),
                jail: if args.len() < 2 || args[1] == "--all"@ {
                    None
                } else {
                    Some(args[1])
                },
            },
        }
    }
}

/// What a command leaves behind.
pub open spec fn handled(st: ServerState, args: Seq<Text>, now: Timestamp) -> After {
    if args.len() == 0 {
        refusing(st, "empty command"@)
    } else if args[0] == "ping"@ {
        replying(st, Answer::Said("pong"@))
    } else if args[0] == "echo"@ {
        replying(
            st,
            Answer::Said(
                if args.len() > 1 {
                    args[1]
                } else {
                    Seq::empty()
                },
            ),
        )
    } else if args[0] == "version"@ {
        replying(st, Answer::Said(config::VERSION@))
    } else if args[0] == "status"@ {
        status_of(st, args)
    } else if args[0] == "start"@ {
        start_of(st, args, now)
    } else if args[0] == "stop"@ {
        stop_of(st, args, now)
    } else if args[0] == "reload"@ {
        reload_of(st, args)
    } else if args[0] == "restart"@ {
        restart_of(st, args, now)
    } else if args[0] == "unban"@ {
        unban_of(st, args)
    } else if args[0] == "banned"@ {
        banned_of(st, args)
    } else if args[0] == "stat"@ || args[0] == "statistics"@ {
        replying(
            st,
            Answer::Told(
                PayloadView::AllStats(
                    st.jails.map_values(|j: JailState| status::stats_of(st.config, j)),
                ),
            ),
        )
    } else if args[0] == "get"@ {
        get_of(st, args)
    } else if args[0] == "set"@ {
        set_of(st, args, now)
    } else if args[0] == "add"@ {
        add_of(st, args)
    } else if args[0] == "flushlogs"@ {
        replying(st, Answer::Said(""@))
    } else {
        refusing(st, "unknown command: "@ + args[0])
    }
}

/// What a command comes to.
#[derive(Debug)]
pub enum Dispatched {
    /// A response.
    Done(Response),
    /// The configuration is to be read again from these directories; then all
    /// jails, or one of them, are started anew.
    Reload {
        dirs: Vec<String>,
        jail: Option<String>,
    },
}

/// Whether a command came to what the model says.
pub open spec fn shows(d: Dispatched, o: Outcome) -> bool {
    match o {
        Outcome::Reply(a) => d matches Dispatched::Done(r) && protocol::conveys(r, a),
        Outcome::Reload { dirs, jail } => d matches Dispatched::Reload { dirs: ds, jail: j }
            && text::texts(ds@) == dirs && text::opt_text(j) == jail,
    }
}

/// Whether a command left behind what the model says.
pub open spec fn leaves(
    st: ServerState,
    before: Seq<Work>,
    work: Seq<Work>,
    d: Dispatched,
    a: After,
) -> bool {
    st == a.state && bans::work_list_grew(before, work, a.work) && shows(d, a.outcome)
}

proof fn lemma_no_work(w: Seq<Work>)
    ensures
        bans::work_list_grew(w, w, Seq::empty()),
{
    assert(server::work_list(w) + Seq::<WorkView>::empty() =~= server::work_list(w));
}

proof fn lemma_one_work(before: Seq<Work>, w: Work)
    ensures
        bans::work_list_grew(before, before.push(w), seq![w@]),
{
    assert(server::work_list(before.push(w)) =~= server::work_list(before) + seq![w@]);
}

fn status(server: &Server, args: &Vec<String>) -> (r: Response)
    requires
        server.wf(),
    ensures
        shows(Dispatched::Done(r), status_of(server@, text::texts(args@)).outcome),
        status_of(server@, text::texts(args@)).state == server@,
        status_of(server@, text::texts(args@)).work.len() == 0,
{
    if args.len() < 2 {
        return Response::ok_data(Payload::Jails(server.list_jails()));
    }
    match server.find_jail(args[1].as_str()) {
        Some(i) => Response::ok_data(Payload::Stats(server.jail_stats(i))),
        None => {
            let m = text::cat2("no such jail: ", args[1].as_str());
            Response::err(m.as_str())
        },
    }
}

fn start(server: &mut Server, args: &Vec<String>, work: &mut Vec<Work>, now: Timestamp) -> (r:
    Response)
    requires
        old(server).wf(),
    ensures
        final(server).wf(),
        leaves(
            final(server)@,
            old(work)@,
            final(work)@,
            Dispatched::Done(r),
            start_of(old(server)@, text::texts(args@), now),
        ),
{
    proof {
        lemma_no_work(work@);
    }
    if args.len() < 2 {
        return Response::err(
            "start: missing jail name (or use 'start --all' to start all enabled jails)",
        );
    }
    if text::same(args[1].as_str(), "--all") {
        let n = server.start_all_enabled(work, now);
        let d = number::to_decimal(n as u64);
        let m = text::cat3("started ", d.as_str(), " jails");
        return Response::ok(m.as_str());
    }
    match server.start_jail(args[1].as_str()) {
        Ok(w) => {
            proof {
                lemma_one_work(work@, w);
            }
            work.push(w);
            let m = text::cat2("started jail ", args[1].as_str());
            Response::ok(m.as_str())
        },
        Err(e) => {
            let m = e.message();
            Response::err(m.as_str())
        },
    }
}

fn stop(server: &mut Server, args: &Vec<String>, work: &mut Vec<Work>, now: Timestamp) -> (r:
    Response)
    requires
        old(server).wf(),
    ensures
        final(server).wf(),
        leaves(
            final(server)@,
            old(work)@,
            final(work)@,
            Dispatched::Done(r),
            stop_of(old(server)@, text::texts(args@), now),
        ),
{
    proof {
        lemma_no_work(work@);
    }
    if args.len() < 2 {
        let ghost listed = work@;
        let mut stopped = server.stop_all(now);
        let ghost more = stopped@;
        work.append(&mut stopped);
        assert(server::work_list(work@) =~= server::work_list(listed) + server::work_list(more));
        return Response::ok("stopping all jails");
    }
    match server.stop_jail(args[1].as_str(), now) {
        Ok(w) => {
            proof {
                lemma_one_work(work@, w);
            }
            work.push(w);
            let m = text::cat2("stopped jail ", args[1].as_str());
            Response::ok(m.as_str())
        },
        Err(e) => {
            let m = e.message();
            Response::err(m.as_str())
        },
    }
}

/// Starts a jail anew; what went wrong comes back.
pub fn restart_one(server: &mut Server, name: &str, work: &mut Vec<Work>, now: Timestamp) -> (r:
    Option<Error>)
    requires
        old(server).wf(),
    ensures
        final(server).wf(),
        final(server)@ == restarted(old(server)@, name@, now).0,
        bans::work_list_grew(
            old(work)@,
            final(work)@,
            restarted(old(server)@, name@, now).1,
        ),
        match r {
            Some(e) => restarted(old(server)@, name@, now).2 == Some(e@),
            None => restarted(old(server)@, name@, now).2 is None,
        },
{
    let ghost st = server@;
    let ghost before = server::work_list(work@);
    let done = server.restart_jail(name, work, now);
    proof {
        let i = server::position_of(st.jails, name@);
        let first: Seq<WorkView> = if i < st.jails.len() {
            seq![server::stop_work(st.jails[i], now)]
        } else {
            Seq::empty()
        };
        let listed = if i < st.jails.len() {
            before.push(server::stop_work(st.jails[i], now))
        } else {
            before
        };
        assert(listed =~= before + first);
        assert(server::work_list(work@) =~= before + restarted(st, name@, now).1);
    }
    match done {
        Ok(_) => None,
        Err(e) => Some(e),
    }
}

fn restart_named(server: &mut Server, name: &str, work: &mut Vec<Work>, now: Timestamp) -> (r:
    Response)
    requires
        old(server).wf(),
    ensures
        final(server).wf(),
        final(server)@ == restarted(old(server)@, name@, now).0,
        bans::work_list_grew(
            old(work)@,
            final(work)@,
            restarted(old(server)@, name@, now).1,
        ),
        protocol::conveys(r, restart_answer(name@, restarted(old(server)@, name@, now).2)),
{
    match restart_one(server, name, work, now) {
        None => {
            let m = text::cat2("restarted jail ", name);
            Response::ok(m.as_str())
        },
        Some(e) => {
            let m = e.message();
            Response::err(m.as_str())
        },
    }
}

fn restart(server: &mut Server, args: &Vec<String>, work: &mut Vec<Work>, now: Timestamp) -> (r:
    Response)
    requires
        old(server).wf(),
    ensures
        final(server).wf(),
        leaves(
            final(server)@,
            old(work)@,
            final(work)@,
            Dispatched::Done(r),
            restart_of(old(server)@, text::texts(args@), now),
        ),
{
    proof {
        lemma_no_work(work@);
    }
    if args.len() < 2 {
        return Response::err("restart: missing jail name");
    }
    restart_named(server, args[1].as_str(), work, now)
}

fn unban_each(server: &mut Server, args: &Vec<String>, work: &mut Vec<Work>) -> (n: usize)
    requires
        old(server).wf(),
        args@.len() >= 1,
    ensures
        final(server).wf(),
        ({
            let u = unbanned_each(old(server)@, text::texts(args@).skip(1));
            &&& final(server)@ == u.0
            &&& bans::work_list_grew(old(work)@, final(work)@, u.1)
            &&& n == u.2
        }),
{
    let ghost st = server@;
    let ghost all = text::texts(args@).skip(1);
    let ghost first = server::work_list(work@);
    let mut n: usize = 0;
    let mut k: usize = 1;
    proof {
        assert(all.take(0) =~= Seq::empty());
        assert(first + Seq::<WorkView>::empty() =~= first);
    }
    while k < args.len()
        invariant
            1 <= k <= args.len(),
            n < k,
            all == text::texts(args@).skip(1),
            server.wf(),
            server@ == unbanned_each(st, all.take(k - 1)).0,
            server::work_list(work@) == first + unbanned_each(st, all.take(k - 1)).1,
            n == unbanned_each(st, all.take(k - 1)).2,
        decreases args.len() - k,
    {
        proof {
            assert(all.take(k as int).drop_last() =~= all.take(k - 1));
            assert(all.take(k as int).last() == args@[k as int]@);
        }
        let ghost mid = server@;
        let ghost listed = server::work_list(work@);
        if server.unban_ip(args[k].as_str(), work) {
            n += 1;
        }
        proof {
            let l = bans::lifted_everywhere(mid.jails, mid.db, args@[k as int]@);
            assert(listed + l.work =~= first + (unbanned_each(st, all.take(k - 1)).1 + l.work));
        }
        k += 1;
    }
    assert(all.take(k - 1) =~= all);
    n
}

fn unban(server: &mut Server, args: &Vec<String>, work: &mut Vec<Work>) -> (r: Response)
    requires
        old(server).wf(),
    ensures
        final(server).wf(),
        leaves(
            final(server)@,
            old(work)@,
            final(work)@,
            Dispatched::Done(r),
            unban_of(old(server)@, text::texts(args@)),
        ),
{
    proof {
        lemma_no_work(work@);
    }
    if args.len() < 2 {
        return Response::err("unban: missing IP or --all");
    }
    if text::same(args[1].as_str(), "--all") {
        server.unban_all(work);
        return Response::ok("unbanned all");
    }
    let n = unban_each(server, args, work);
    let d = number::to_decimal(n as u64);
    Response::ok(d.as_str())
}

fn banned(server: &Server, args: &Vec<String>) -> (r: Response)
    ensures
        shows(Dispatched::Done(r), banned_of(server@, text::texts(args@)).outcome),
        banned_of(server@, text::texts(args@)).state == server@,
        banned_of(server@, text::texts(args@)).work.len() == 0,
{
    if args.len() < 2 {
        return Response::ok_data(Payload::Listings(server.banned_map()));
    }
    Response::ok_data(Payload::Listings(server.banning_of(args, 1)))
}

fn rest_of(args: &Vec<String>, from: usize) -> (r: Vec<String>)
    requires
        from <= args@.len(),
    ensures
        text::texts(r@) == text::texts(args@).skip(from as int),
{
    let mut out: Vec<String> = Vec::new();
    let mut i: usize = from;
    while i < args.len()
        invariant
            from <= i <= args.len(),
            out@.len() == i - from,
            forall|k: int| 0 <= k < out@.len() ==> (#[trigger] out@[k])@ == args@[from + k]@,
        decreases args.len() - i,
    {
        out.push(args[i].clone());
        i += 1;
    }
    assert(text::texts(out@) =~= text::texts(args@).skip(from as int));
    out
}

fn get(server: &Server, args: &Vec<String>) -> (r: Response)
    requires
        server.wf(),
    ensures
        shows(Dispatched::Done(r), get_of(server@, text::texts(args@)).outcome),
        get_of(server@, text::texts(args@)).state == server@,
        get_of(server@, text::texts(args@)).work.len() == 0,
{
    if args.len() < 2 {
        return Response::err("get: missing arguments");
    }
    let key = args[1].as_str();
    if text::same(key, "loglevel") {
        Response::ok(server.loglevel.as_str())
    } else if text::same(key, "logtarget") {
        Response::ok(server.logtarget.as_str())
    } else if text::same(key, "dbfile") {
        Response::ok(server.dbfile.as_str())
    } else if text::same(key, "dbmaxmatches") {
        let d = number::to_decimal(server.dbmaxmatches as u64);
        Response::ok(d.as_str())
    } else if text::same(key, "dbpurgeage") {
        let d = number::to_decimal(server.dbpurgeage);
        Response::ok(d.as_str())
    } else if args.len() >= 3 {
        match server.find_jail(key) {
            Some(i) => {
                let v = server.get_jail_attr(i, args[2].as_str());
                Response::ok(v.as_str())
            },
            None => {
                let m = text::cat2("no such jail: ", key);
                Response::err(m.as_str())
            },
        }
    } else {
        let rest = rest_of(args, 1);
        let list = text::show_list(&rest);
        let m = text::cat2("get: unknown ", list.as_str());
        Response::err(m.as_str())
    }
}

fn change_setting(server: &mut Server, key: &str, value: &str) -> (r: Response)
    requires
        old(server).wf(),
        is_global(key@),
    ensures
        final(server).wf(),
        shows(Dispatched::Done(r), set_global(old(server)@, key@, value@).outcome),
        final(server)@ == set_global(old(server)@, key@, value@).state,
        set_global(old(server)@, key@, value@).work.len() == 0,
{
    if text::same(key, "loglevel") {
        server.loglevel = value.to_owned();
    } else if text::same(key, "logtarget") {
        server.logtarget = value.to_owned();
    } else if text::same(key, "dbfile") {
        server.dbfile = value.to_owned();
    } else if text::same(key, "dbmaxmatches") {
        match number::parse_unsigned(value, u32::MAX as u64) {
            Ok(n) => {
                server.dbmaxmatches = n as u32;
            },
            Err(_) => {
                let m = text::cat2("invalid integer: ", value);
                return Response::err(m.as_str());
            },
        }
    } else {
        match TimeValue::parse(value) {
            Ok(t) => {
                server.dbpurgeage = t.to_seconds_or_max();
            },
            Err(e) => {
                let m = e.message();
                return Response::err(m.as_str());
            },
        }
    }
    Response::ok("OK")
}

fn set_jail_attr(
    server: &mut Server,
    i: usize,
    args: &Vec<String>,
    work: &mut Vec<Work>,
    now: Timestamp,
) -> (r: Response)
    requires
        old(server).wf(),
        i < old(server)@.jails.len(),
        args@.len() >= 4,
    ensures
        final(server).wf(),
        leaves(
            final(server)@,
            old(work)@,
            final(work)@,
            Dispatched::Done(r),
            set_jail(
                old(server)@,
                i as int,
                args@[2]@,
                text::texts(args@).skip(3),
                now,
            ),
        ),
{
    let action = args[2].as_str();
    proof {
        lemma_no_work(work@);
        assert(text::texts(args@).skip(3)[0] == args@[3]@);
    }
    if text::same(action, "banip") {
        server.ban_hosts(i, args, 3, work, now);
        let d = number::to_decimal((args.len() - 3) as u64);
        Response::ok(d.as_str())
    } else if text::same(action, "unbanip") {
        server.unban_hosts(i, args, 3, work);
        let d = number::to_decimal((args.len() - 3) as u64);
        Response::ok(d.as_str())
    } else if text::same(action, "attempt") {
        server.attempt(i, args[3].as_str(), work, now);
        Response::ok("OK")
    } else {
        let m = text::cat3("set <jail> ", action, ": not implemented");
        Response::err(m.as_str())
    }
}

fn set(server: &mut Server, args: &Vec<String>, work: &mut Vec<Work>, now: Timestamp) -> (r:
    Response)
    requires
        old(server).wf(),
    ensures
        final(server).wf(),
        leaves(
            final(server)@,
            old(work)@,
            final(work)@,
            Dispatched::Done(r),
            set_of(old(server)@, text::texts(args@), now),
        ),
{
    proof {
        lemma_no_work(work@);
    }
    if args.len() < 2 {
        return Response::err("set: missing arguments");
    }
    let key = args[1].as_str();
    if text::same(key, "loglevel") || text::same(key, "logtarget") || text::same(key, "dbfile")
        || text::same(key, "dbmaxmatches") || text::same(key, "dbpurgeage") {
        if args.len() < 3 {
            let m = text::cat3("set ", key, ": missing value");
            return Response::err(m.as_str());
        }
        let ghost a = set_global(server@, key@, args@[2]@);
        let r = change_setting(server, key, args[2].as_str());
        assert(a.work =~= Seq::empty());
        return r;
    }
    if args.len() >= 4 {
        match server.find_jail(key) {
            Some(i) => set_jail_attr(server, i, args, work, now),
            None => {
                let m = text::cat2("no such jail: ", key);
                Response::err(m.as_str())
            },
        }
    } else {
        let rest = rest_of(args, 1);
        let list = text::show_list(&rest);
        let m = text::cat2("set: unknown ", list.as_str());
        Response::err(m.as_str())
    }
}

fn add_named(server: &mut Server, args: &Vec<String>, work: &mut Vec<Work>) -> (r: Response)
    requires
        old(server).wf(),
    ensures
        final(server).wf(),
        leaves(
            final(server)@,
            old(work)@,
            final(work)@,
            Dispatched::Done(r),
            add_of(old(server)@, text::texts(args@)),
        ),
{
    proof {
        lemma_no_work(work@);
    }
    if args.len() < 3 {
        return Response::err("add: usage: add <JAIL> <BACKEND>");
    }
    match server.add_jail(args[1].as_str()) {
        Ok(w) => {
            proof {
                lemma_one_work(work@, w);
            }
            work.push(w);
            let m = text::cat2("added jail ", args[1].as_str());
            Response::ok(m.as_str())
        },
        Err(e) => {
            let m = e.message();
            Response::err(m.as_str())
        },
    }
}

fn drop_empty(v: &Vec<String>) -> (r: Vec<String>)
    ensures
        text::texts(r@) == not_empty(text::texts(v@)),
{
    let ghost all = text::texts(v@);
    let mut out: Vec<String> = Vec::new();
    let mut i: usize = 0;
    proof {
        assert(all.take(0) =~= Seq::empty());
        assert(text::texts(out@) =~= Seq::empty());
    }
    while i < v.len()
        invariant
            i <= v.len(),
            all == text::texts(v@),
            text::texts(out@) == not_empty(all.take(i as int)),
        decreases v.len() - i,
    {
        proof {
            assert(all.take(i + 1).drop_last() =~= all.take(i as int));
            assert(all.take(i + 1).last() == v@[i as int]@);
        }
        if !v[i].as_str().is_empty() {
            let ghost before = out@;
            let s = v[i].clone();
            out.push(s);
            proof {
                text::lemma_texts_push(before, s);
            }
        }
        i += 1;
    }
    assert(all.take(i as int) =~= all);
    out
}

/// The directories that the configuration is read from again.
pub fn list_reload_dirs(server: &Server) -> (r: Vec<String>)
    ensures
        text::texts(r@) == reload_dirs(server@),
{
    let path = server.config_path();
    let parts = split::split(path.as_str(), ',');
    drop_empty(&parts)
}

fn reload(server: &Server, args: &Vec<String>) -> (r: Dispatched)
    ensures
        shows(r, reload_of(server@, text::texts(args@)).outcome),
        reload_of(server@, text::texts(args@)).state == server@,
        reload_of(server@, text::texts(args@)).work.len() == 0,
{
    let dirs = list_reload_dirs(server);
    assert(text::texts(dirs@).len() == dirs@.len());
    if dirs.len() == 0 {
        return Dispatched::Done(Response::err("reload: no config search dirs available"));
    }
    let jail = if args.len() < 2 || text::same(args[1].as_str(), "--all") {
        None
    } else {
        Some(args[1].clone())
    };
    Dispatched::Reload { dirs, jail }
}

/// Carries out a command. `now` is the current moment; what is to be run is
/// added to `work`.
pub fn dispatch(server: &mut Server, req: &Request, work: &mut Vec<Work>, now: Timestamp) -> (r:
    Dispatched)
    requires
        old(server).wf(),
    ensures
        final(server).wf(),
        leaves(
            final(server)@,
            old(work)@,
            final(work)@,
            r,
            handled(old(server)@, text::texts(req.args@), now),
        ),
{
    let args = &req.args;
    let ghost a = handled(server@, text::texts(args@), now);
    proof {
        lemma_no_work(work@);
    }
    if args.len() == 0 {
        return Dispatched::Done(Response::err("empty command"));
    }
    let cmd = args[0].as_str();
    if text::same(cmd, "ping") {
        Dispatched::Done(Response::ok("pong"))
    } else if text::same(cmd, "echo") {
        if args.len() > 1 {
            Dispatched::Done(Response::ok(args[1].as_str()))
        } else {
            proof {
                reveal_strlit("");
                assert(""@ =~= Seq::<char>::empty());
            }
            Dispatched::Done(Response::ok(""))
        }
    } else if text::same(cmd, "version") {
        Dispatched::Done(Response::ok(config::VERSION))
    } else if text::same(cmd, "status") {
        assert(a.work =~= Seq::empty());
        Dispatched::Done(status(server, args))
    } else if text::same(cmd, "start") {
        Dispatched::Done(start(server, args, work, now))
    } else if text::same(cmd, "stop") {
        Dispatched::Done(stop(server, args, work, now))
    } else if text::same(cmd, "reload") {
        let r = reload(server, args);
        assert(a.work =~= Seq::empty());
        r
    } else if text::same(cmd, "restart") {
        Dispatched::Done(restart(server, args, work, now))
    } else if text::same(cmd, "unban") {
        Dispatched::Done(unban(server, args, work))
    } else if text::same(cmd, "banned") {
        Dispatched::Done(banned(server, args))
    } else if text::same(cmd, "stat") || text::same(cmd, "statistics") {
        Dispatched::Done(Response::ok_data(Payload::AllStats(server.all_stats())))
    } else if text::same(cmd, "get") {
        Dispatched::Done(get(server, args))
    } else if text::same(cmd, "set") {
        Dispatched::Done(set(server, args, work, now))
    } else if text::same(cmd, "add") {
        Dispatched::Done(add_named(server, args, work))
    } else if text::same(cmd, "flushlogs") {
        Dispatched::Done(Response::ok(""))
    } else {
        let m = text::cat2("unknown command: ", cmd);
        Dispatched::Done(Response::err(m.as_str()))
    }
}

/// What reading the configuration again leaves behind. `parsed` is the
/// configuration, or what was wrong with it; `opened` is the record that goes
/// with it, or why it could not be opened.
pub open spec fn reloaded(
    st: ServerState,
    jail: Option<Text>,
    parsed: Result<config::loader::ConfigView, ErrorView>,
    opened: Result<DbState, ErrorView>,
    now: Timestamp,
) -> (ServerState, Seq<WorkView>, Answer) {
    match parsed {
        Err(e) => (
            st,
            Seq::empty(),
            Answer::Refused("reload: failed to parse config: "@ + error::error_text(e)),
        ),
        Ok(c) => match jail {
            Some(name) => {
                let r = restarted(st, name, now);
                (r.0, r.1, restart_answer(name, r.2))
            },
            None => {
                let mid = server::reconfigured(server::all_stopped(st, now), c);
                let stopped = server::stopped_all(st.jails, st.db, now).1;
                match opened {
                    Err(e) => (
                        mid,
                        stopped,
                        Answer::Refused("reload failed: "@ + error::error_text(e)),
                    ),
                    Ok(db) => {
                        let r = server::all_started((ServerState { db, ..mid }), now);
                        (
                            r.0,
                            stopped + r.1,
                            Answer::Said(
                                "reloaded, started "@ + number::decimal(r.1.len()) + " jails"@,
                            ),
                        )
                    },
                }
            },
        },
    }
}

/// Goes on with `reload` once the configuration was read again. A reload of
/// one jail starts it anew with the configuration that the server has.
pub fn finish_reload(
    server: &mut Server,
    jail: Option<&str>,
    parsed: Result<LoadedConfig, Error>,
    opened: Result<Database, Error>,
    work: &mut Vec<Work>,
    now: Timestamp,
) -> (r: Response)
    requires
        old(server).wf(),
        parsed matches Ok(c) ==> c.wf(),
    ensures
        final(server).wf(),
        ({
            let a = reloaded(
                old(server)@,
                text::opt_str(jail),
                error::outcome(parsed),
                error::outcome(opened),
                now,
            );
            &&& final(server)@ == a.0
            &&& bans::work_list_grew(old(work)@, final(work)@, a.1)
            &&& protocol::conveys(r, a.2)
        }),
{
    proof {
        lemma_no_work(work@);
    }
    let config = match parsed {
        Ok(c) => c,
        Err(e) => {
            let cause = e.message();
            let m = text::cat2("reload: failed to parse config: ", cause.as_str());
            return Response::err(m.as_str());
        },
    };
    if let Some(name) = jail {
        return restart_named(server, name, work, now);
    }
    let ghost listed = work@;
    match opened {
        Ok(db) => {
            let n = server.reload_config(config, db, work, now);
            let d = number::to_decimal(n as u64);
            let m = text::cat3("reloaded, started ", d.as_str(), " jails");
            proof {
                let a = reloaded(
                    old(server)@,
                    None,
                    error::outcome(parsed),
                    error::outcome(opened),
                    now,
                );
                assert(server::work_list(work@) =~= server::work_list(listed) + a.1);
            }
            Response::ok(m.as_str())
        },
        Err(e) => {
            let mut stopped = server.stop_all(now);
            let ghost more = stopped@;
            work.append(&mut stopped);
            assert(server::work_list(work@) =~= server::work_list(listed) + server::work_list(
                more,
            ));
            server.adopt(config);
            let cause = e.message();
            let m = text::cat2("reload failed: ", cause.as_str());
            Response::err(m.as_str())
        },
    }
}

/// Whether a word is a command.
pub open spec fn is_command(w: Text) -> bool {
    ||| w == "ping"@
    ||| w == "echo"@
    ||| w == "version"@
    ||| w == "status"@
    ||| w == "start"@
    ||| w == "stop"@
    ||| w == "reload"@
    ||| w == "restart"@
    ||| w == "unban"@
    ||| w == "banned"@
    ||| w == "stat"@
    ||| w == "statistics"@
    ||| w == "get"@
    ||| w == "set"@
    ||| w == "add"@
    ||| w == "flushlogs"@
}

/// A word that is no command is refused, and nothing changes.
pub proof fn law_unknown_command_is_refused(st: ServerState, args: Seq<Text>, now: Timestamp)
    requires
        args.len() > 0,
        !is_command(args[0]),
    ensures
        handled(st, args, now) == refusing(st, "unknown command: "@ + args[0]),
{
}

/// A command that is refused at once changes nothing and has nothing run,
/// unless it is `restart`.
pub proof fn law_refusal_changes_nothing(st: ServerState, args: Seq<Text>, now: Timestamp)
    requires
        args.len() > 0 ==> args[0] != "restart"@,
        handled(st, args, now).outcome matches Outcome::Reply(a) && a is Refused,
    ensures
        handled(st, args, now).state == st,
        handled(st, args, now).work.len() == 0,
{
}

/// Whether a command only answers.
pub open spec fn only_answers(a: After, st: ServerState) -> bool {
    a.state == st && a.work.len() == 0 && a.outcome is Reply
}

/// Whether a word is a question.
pub open spec fn is_question(w: Text) -> bool {
    w == "ping"@ || w == "echo"@ || w == "version"@ || w == "status"@ || w == "banned"@ || w
        == "stat"@ || w == "statistics"@ || w == "get"@
}

proof fn lemma_get_only_answers(st: ServerState, args: Seq<Text>)
    ensures
        only_answers(get_of(st, args), st),
{
}

proof fn lemma_status_only_answers(st: ServerState, args: Seq<Text>)
    ensures
        only_answers(status_of(st, args), st),
        only_answers(banned_of(st, args), st),
{
}

/// A question changes nothing and has nothing run.
pub proof fn law_questions_change_nothing(st: ServerState, args: Seq<Text>, now: Timestamp)
    requires
        args.len() > 0,
        is_question(args[0]),
    ensures
        only_answers(handled(st, args, now), st),
{
    lemma_words_apart(args[0]);
    let a = handled(st, args, now);
    if args[0] == "get"@ {
        lemma_get_only_answers(st, args);
        assert(a == get_of(st, args) || only_answers(a, st));
    } else {
        lemma_status_only_answers(st, args);
        assert(a == status_of(st, args) || a == banned_of(st, args) || only_answers(a, st));
    }
}

/// The words of questions are not those of commands that change something.
proof fn lemma_words_apart(w: Text)
    requires
        is_question(w),
    ensures
        w != "start"@,
        w != "stop"@,
        w != "reload"@,
        w != "restart"@,
        w != "unban"@,
{
    reveal_strlit("ping");
    reveal_strlit("echo");
    reveal_strlit("version");
    reveal_strlit("status");
    reveal_strlit("banned");
    reveal_strlit("stat");
    reveal_strlit("statistics");
    reveal_strlit("get");
    reveal_strlit("start");
    reveal_strlit("stop");
    reveal_strlit("reload");
    reveal_strlit("restart");
    reveal_strlit("unban");
    assert("start"@.len() == 5 && "stop"@[2] == 'o' && "reload"@[0] == 'r' && "restart"@[0] == 'r'
        && "unban"@[0] == 'u');
    if w == "banned"@ {
        assert(w[0] == 'b' && "start"@[0] == 's' && "stop"@[0] == 's');
    } else if w == "stat"@ {
        assert(w.len() == 4 && w[2] == 'a' && w[0] == 's');
    } else if w == "statistics"@ {
        assert(w.len() == 10 && w[0] == 's' && "stop"@.len() == 4);
    } else if w == "get"@ {
        assert(w[0] == 'g' && w.len() == 3 && "stop"@.len() == 4);
    } else if w == "status"@ {
        assert(w.len() == 6 && w[0] == 's' && "stop"@.len() == 4);
    } else if w == "ping"@ {
        assert(w[0] == 'p' && "start"@[0] == 's' && "stop"@[0] == 's');
    } else if w == "echo"@ {
        assert(w[0] == 'e' && "start"@[0] == 's' && "stop"@[0] == 's');
    } else {
        assert(w[0] == 'v' && "start"@[0] == 's' && "stop"@[0] == 's');
    }
}

proof fn lemma_command_words()
    ensures
        "ping"@.len() == 4 && "ping"@[0] == 'p',
        "echo"@.len() == 4 && "echo"@[0] == 'e',
        "version"@.len() == 7 && "version"@[0] == 'v',
        "status"@.len() == 6 && "status"@[0] == 's',
        "start"@.len() == 5 && "start"@[0] == 's',
        "stop"@.len() == 4 && "stop"@[0] == 's' && "stop"@[2] == 'o',
        "reload"@.len() == 6 && "reload"@[0] == 'r',
        "restart"@.len() == 7 && "restart"@[0] == 'r',
        "unban"@.len() == 5 && "unban"@[0] == 'u',
        "banned"@.len() == 6 && "banned"@[0] == 'b',
        "stat"@.len() == 4 && "stat"@[0] == 's' && "stat"@[2] == 'a',
        "statistics"@.len() == 10,
        "get"@.len() == 3 && "get"@[0] == 'g',
        "set"@.len() == 3 && "set"@[0] == 's',
        "add"@.len() == 3 && "add"@[0] == 'a',
        "flushlogs"@.len() == 9,
{
    reveal_strlit("ping");
    reveal_strlit("echo");
    reveal_strlit("version");
    reveal_strlit("status");
    reveal_strlit("start");
    reveal_strlit("stop");
    reveal_strlit("reload");
    reveal_strlit("restart");
    reveal_strlit("unban");
    reveal_strlit("banned");
    reveal_strlit("stat");
    reveal_strlit("statistics");
    reveal_strlit("get");
    reveal_strlit("set");
    reveal_strlit("add");
    reveal_strlit("flushlogs");
}

proof fn lemma_setting_words()
    ensures
        "loglevel"@.len() == 8,
        "logtarget"@.len() == 9,
        "dbfile"@.len() == 6,
        "dbmaxmatches"@.len() == 12,
        "dbpurgeage"@.len() == 10,
        "banip"@.len() == 5 && "banip"@[0] == 'b',
        "unbanip"@.len() == 7 && "unbanip"@[0] == 'u',
        "attempt"@.len() == 7 && "attempt"@[0] == 'a',
        "--all"@.len() == 5 && "--all"@[0] == '-',
{
    reveal_strlit("loglevel");
    reveal_strlit("logtarget");
    reveal_strlit("dbfile");
    reveal_strlit("dbmaxmatches");
    reveal_strlit("dbpurgeage");
    reveal_strlit("banip");
    reveal_strlit("unbanip");
    reveal_strlit("attempt");
    reveal_strlit("--all");
}

/// The commands that need nothing of the server.
pub proof fn law_plain_commands(st: ServerState, args: Seq<Text>, now: Timestamp)
    requires
        args.len() > 0,
    ensures
        args[0] == "ping"@ ==> handled(st, args, now).outcome == Outcome::Reply(
            Answer::Said("pong"@),
        ),
        args[0] == "echo"@ && args.len() > 1 ==> handled(st, args, now).outcome == Outcome::Reply(
            Answer::Said(args[1]),
        ),
        args[0] == "echo"@ && args.len() == 1 ==> handled(st, args, now).outcome == Outcome::Reply(
            Answer::Said(Seq::empty()),
        ),
        args[0] == "version"@ ==> handled(st, args, now).outcome == Outcome::Reply(
            Answer::Said(config::VERSION@),
        ),
        args[0] == "flushlogs"@ ==> handled(st, args, now).outcome == Outcome::Reply(
            Answer::Said(""@),
        ),
{
    lemma_command_words();
}

/// `status` tells the names of the jails that run, and of one jail how it
/// fares; `statistics` tells it of all, in their order.
#[verifier::spinoff_prover]
#[verifier::rlimit(60)]
pub proof fn law_status_command(st: ServerState, args: Seq<Text>, now: Timestamp, i: int)
    requires
        args.len() > 0,
        0 <= i < st.jails.len(),
    ensures
        args[0] == "status"@ && args.len() == 1 ==> {
            &&& handled(st, args, now).outcome matches Outcome::Reply(
                Answer::Told(PayloadView::Jails(names)),
            )
            &&& names.len() == st.jails.len()
            &&& names[i] == st.jails[i].config.name
        },
        args[0] == "status"@ && args.len() > 1 && args[1] == st.jails[i].config.name && (forall|k:
            int| 0 <= k < i ==> (#[trigger] st.jails[k]).config.name != args[1]) ==> handled(
            st,
            args,
            now,
        ).outcome == Outcome::Reply(
            Answer::Told(PayloadView::Stats(status::stats_of(st.config, st.jails[i]))),
        ),
        args[0] == "status"@ && args.len() > 1 && (forall|k: int|
            0 <= k < st.jails.len() ==> (#[trigger] st.jails[k]).config.name != args[1]) ==> handled(
            st,
            args,
            now,
        ).outcome == Outcome::Reply(Answer::Refused("no such jail: "@ + args[1])),
        args[0] == "stat"@ || args[0] == "statistics"@ ==> {
            &&& handled(st, args, now).outcome matches Outcome::Reply(
                Answer::Told(PayloadView::AllStats(all)),
            )
            &&& all.len() == st.jails.len()
            &&& all[i] == status::stats_of(st.config, st.jails[i])
        },
{
    lemma_command_words();
    if args.len() > 1 {
        if args[1] == st.jails[i].config.name && (forall|k: int|
            0 <= k < i ==> (#[trigger] st.jails[k]).config.name != args[1]) {
            server::lemma_position(st.jails, args[1], i);
        }
        if forall|k: int|
            0 <= k < st.jails.len() ==> (#[trigger] st.jails[k]).config.name != args[1] {
            server::lemma_position(st.jails, args[1], st.jails.len() as int);
        }
    }
}

/// `get` tells a setting of the server, or of a jail.
#[verifier::spinoff_prover]
#[verifier::rlimit(60)]
pub proof fn law_get_command(st: ServerState, args: Seq<Text>, now: Timestamp, i: int)
    requires
        args.len() >= 2,
        args[0] == "get"@,
    ensures
        args[1] == "loglevel"@ ==> handled(st, args, now) == replying(
            st,
            Answer::Said(st.loglevel),
        ),
        args[1] == "logtarget"@ ==> handled(st, args, now) == replying(
            st,
            Answer::Said(st.logtarget),
        ),
        args[1] == "dbfile"@ ==> handled(st, args, now) == replying(st, Answer::Said(st.dbfile)),
        args[1] == "dbmaxmatches"@ ==> handled(st, args, now) == replying(
            st,
            Answer::Said(number::decimal(st.dbmaxmatches as nat)),
        ),
        args[1] == "dbpurgeage"@ ==> handled(st, args, now) == replying(
            st,
            Answer::Said(number::decimal(st.dbpurgeage as nat)),
        ),
        !is_global(args[1]) && args.len() >= 3 && 0 <= i < st.jails.len() && args[1]
            == st.jails[i].config.name && (forall|k: int|
            0 <= k < i ==> (#[trigger] st.jails[k]).config.name != args[1]) ==> handled(
            st,
            args,
            now,
        ) == replying(st, Answer::Said(status::jail_attr(st.config, st.jails[i], args[2]))),
{
    lemma_command_words();
    lemma_setting_words();
    if 0 <= i < st.jails.len() && args[1] == st.jails[i].config.name && (forall|k: int|
        0 <= k < i ==> (#[trigger] st.jails[k]).config.name != args[1]) {
        server::lemma_position(st.jails, args[1], i);
    }
}

proof fn lemma_set_word(st: ServerState, args: Seq<Text>, now: Timestamp)
    requires
        args.len() > 0,
        args[0] == "set"@,
    ensures
        handled(st, args, now) == set_of(st, args, now),
{
    lemma_command_words();
}

proof fn lemma_restart_word(st: ServerState, args: Seq<Text>, now: Timestamp)
    requires
        args.len() > 0,
        args[0] == "restart"@,
    ensures
        handled(st, args, now) == restart_of(st, args, now),
{
    lemma_command_words();
}

proof fn lemma_set_global(st: ServerState, key: Text, value: Text, n: u32, secs: u64)
    ensures
        key == "loglevel"@ ==> set_global(st, key, value).state == (ServerState {
            loglevel: value,
            ..st
        }),
        key == "logtarget"@ ==> set_global(st, key, value).state == (ServerState {
            logtarget: value,
            ..st
        }),
        key == "dbfile"@ ==> set_global(st, key, value).state == (ServerState {
            dbfile: value,
            ..st
        }),
        key == "dbmaxmatches"@ && value == number::decimal(n as nat) ==> set_global(
            st,
            key,
            value,
        ).state == (ServerState { dbmaxmatches: n, ..st }),
        key == "dbpurgeage"@ && value == number::decimal(secs as nat) ==> set_global(
            st,
            key,
            value,
        ).state == (ServerState { dbpurgeage: secs, ..st }),
{
    lemma_setting_words();
    number::lemma_decimal_read(n as nat, u32::MAX as nat);
    assert(time::time_of(number::decimal(secs as nat)) == Ok::<TimeValue, ErrorView>(
        TimeValue { seconds: Some(secs), permanent: false },
    )) by {
        time::law_number_is_its_seconds(secs, 0);
    }
    assert(time::seconds_or_max(TimeValue { seconds: Some(secs), permanent: false }) == secs);
}

proof fn lemma_restarted(
    st: ServerState,
    name: Text,
    j: JailState,
    e: ErrorView,
    now: Timestamp,
    i: int,
)
    requires
        0 <= i < st.jails.len(),
        st.jails[i].config.name == name,
        forall|k: int|
            0 <= k < st.jails.len() && k != i ==> (#[trigger] st.jails[k]).config.name != name,
    ensures
        ({
            let r = restarted(st, name, now);
            &&& crate::server::assembly::built(st.config, name) == Ok::<JailState, ErrorView>(j)
                ==> r.0.jails == st.jails.remove(i).push(j) && r.2 is None && r.1 == seq![
                server::stop_work(st.jails[i], now),
                server::start_work(j),
            ]
            &&& crate::server::assembly::built(st.config, name) == Err::<JailState, ErrorView>(e)
                ==> r.0.jails == st.jails.remove(i) && r.2 == Some(e)
        }),
{
    server::lemma_position(st.jails, name, i);
    let left = st.jails.remove(i);
    assert forall|k: int| 0 <= k < left.len() implies (#[trigger] left[k]).config.name != name by {
        if k < i {
            assert(left[k] == st.jails[k]);
        } else {
            assert(left[k] == st.jails[k + 1]);
        }
    }
    server::lemma_position(left, name, left.len() as int);
    assert(seq![server::stop_work(st.jails[i], now)].push(server::start_work(j)) =~= seq![
        server::stop_work(st.jails[i], now),
        server::start_work(j),
    ]);
}

/// `set` sets the setting of its name, and nothing else changes.
#[verifier::spinoff_prover]
#[verifier::rlimit(60)]
pub proof fn law_set_command(
    st: ServerState,
    args: Seq<Text>,
    n: u32,
    secs: u64,
    now: Timestamp,
)
    requires
        args.len() >= 3,
        args[0] == "set"@,
    ensures
        args[1] == "loglevel"@ ==> handled(st, args, now).state == (ServerState {
            loglevel: args[2],
            ..st
        }),
        args[1] == "logtarget"@ ==> handled(st, args, now).state == (ServerState {
            logtarget: args[2],
            ..st
        }),
        args[1] == "dbfile"@ ==> handled(st, args, now).state == (ServerState {
            dbfile: args[2],
            ..st
        }),
        args[1] == "dbmaxmatches"@ && args[2] == number::decimal(n as nat) ==> handled(
            st,
            args,
            now,
        ).state == (ServerState { dbmaxmatches: n, ..st }),
        args[1] == "dbpurgeage"@ && args[2] == number::decimal(secs as nat) ==> handled(
            st,
            args,
            now,
        ).state == (ServerState { dbpurgeage: secs, ..st }),
{
    lemma_set_word(st, args, now);
    lemma_set_global(st, args[1], args[2], n, secs);
    if is_global(args[1]) {
        assert(set_of(st, args, now) == set_global(st, args[1], args[2]));
    }
}

/// `set` on a jail bans and unbans hosts by hand, one after the other, says
/// how many, and notes an attempt of a host.
#[verifier::spinoff_prover]
#[verifier::rlimit(60)]
pub proof fn law_set_jail(st: ServerState, args: Seq<Text>, now: Timestamp, i: int)
    requires
        args.len() >= 4,
        args[0] == "set"@,
        0 <= i < st.jails.len(),
        args[1] == st.jails[i].config.name,
        !is_global(args[1]),
        forall|k: int| 0 <= k < i ==> (#[trigger] st.jails[k]).config.name != args[1],
    ensures
        ({
            let hosts = args.skip(3);
            let r = handled(st, args, now);
            &&& args[2] == "banip"@ ==> r == (After {
                state: bans::hand_bans(st, i, hosts, now).0,
                work: bans::hand_bans(st, i, hosts, now).1,
                outcome: Outcome::Reply(Answer::Said(number::decimal((args.len() - 3) as nat))),
            })
            &&& args[2] == "unbanip"@ ==> r == (After {
                state: bans::hand_unbans(st, i, hosts).0,
                work: bans::hand_unbans(st, i, hosts).1,
                outcome: Outcome::Reply(Answer::Said(number::decimal((args.len() - 3) as nat))),
            })
            &&& args[2] == "attempt"@ ==> r == (After {
                state: bans::attempted(st, i, args[3], now).0,
                work: bans::attempted(st, i, args[3], now).1,
                outcome: Outcome::Reply(Answer::Said("OK"@)),
            })
        }),
{
    lemma_set_word(st, args, now);
    lemma_setting_words();
    server::lemma_position(st.jails, args[1], i);
}

/// `start` and `add` have a jail run that did not; `stop` has it run no more.
#[verifier::spinoff_prover]
#[verifier::rlimit(60)]
pub proof fn law_start_and_stop_commands(
    st: ServerState,
    name: Text,
    j: JailState,
    now: Timestamp,
    i: int,
)
    requires
        name != "--all"@,
    ensures
        (forall|k: int| 0 <= k < st.jails.len() ==> (#[trigger] st.jails[k]).config.name != name)
            && crate::server::assembly::built(st.config, name) == Ok::<JailState, ErrorView>(j) ==> {
            let r = handled(st, seq!["start"@, name], now);
            &&& r.state == (ServerState { jails: st.jails.push(j), ..st })
            &&& r.work == seq![server::start_work(j)]
            &&& r.outcome == Outcome::Reply(Answer::Said("started jail "@ + name))
        },
        0 <= i < st.jails.len() && st.jails[i].config.name == name && (forall|k: int|
            0 <= k < i ==> (#[trigger] st.jails[k]).config.name != name) ==> {
            let r = handled(st, seq!["stop"@, name], now);
            &&& r.state.jails == st.jails.remove(i)
            &&& r.work == seq![server::stop_work(st.jails[i], now)]
            &&& r.outcome == Outcome::Reply(Answer::Said("stopped jail "@ + name))
            &&& handled(st, seq!["start"@, name], now).state == st
            &&& handled(st, seq!["start"@, name], now).outcome matches Outcome::Reply(a)
            &&& a is Refused
        },
        handled(st, seq!["stop"@], now).state.jails == Seq::<JailState>::empty(),
{
    lemma_command_words();
    if forall|k: int| 0 <= k < st.jails.len() ==> (#[trigger] st.jails[k]).config.name != name {
        server::lemma_position(st.jails, name, st.jails.len() as int);
    }
    if 0 <= i < st.jails.len() && st.jails[i].config.name == name && (forall|k: int|
        0 <= k < i ==> (#[trigger] st.jails[k]).config.name != name) {
        server::lemma_position(st.jails, name, i);
    }
}

/// `restart` stops a jail and starts it again; where it cannot be started
/// again, it stays stopped.
#[verifier::spinoff_prover]
#[verifier::rlimit(60)]
pub proof fn law_restart_command(
    st: ServerState,
    name: Text,
    j: JailState,
    e: ErrorView,
    now: Timestamp,
    i: int,
)
    requires
        0 <= i < st.jails.len(),
        st.jails[i].config.name == name,
        forall|k: int|
            0 <= k < st.jails.len() && k != i ==> (#[trigger] st.jails[k]).config.name != name,
    ensures
        ({
            let r = handled(st, seq!["restart"@, name], now);
            &&& crate::server::assembly::built(st.config, name) == Ok::<JailState, ErrorView>(j) ==> {
                &&& r.state.jails == st.jails.remove(i).push(j)
                &&& r.work == seq![server::stop_work(st.jails[i], now), server::start_work(j)]
                &&& r.outcome == Outcome::Reply(Answer::Said("restarted jail "@ + name))
            }
            &&& crate::server::assembly::built(st.config, name) == Err::<JailState, ErrorView>(e) ==> {
                &&& r.state.jails == st.jails.remove(i)
                &&& r.outcome == Outcome::Reply(Answer::Refused(error::error_text(e)))
            }
        }),
{
    lemma_restart_word(st, seq!["restart"@, name], now);
    lemma_restarted(st, name, j, e, now, i);
    assert(restart_of(st, seq!["restart"@, name], now).outcome == Outcome::Reply(
        restart_answer(name, restarted(st, name, now).2),
    ));
}

/// `unban` lifts the bans of hosts in all jails, one host after the other, and
/// says for how many hosts there was one; with `--all` it lifts every ban.
#[verifier::spinoff_prover]
#[verifier::rlimit(60)]
pub proof fn law_unban_command(st: ServerState, hosts: Seq<Text>, host: Text, now: Timestamp)
    requires
        hosts.len() > 0 ==> hosts[0] != "--all"@,
    ensures
        handled(st, seq!["unban"@, "--all"@], now).state == bans::without_bans(st),
        hosts.len() > 0 ==> ({
            let r = handled(st, seq!["unban"@] + hosts, now);
            let more = handled(st, seq!["unban"@] + hosts.push(host), now);
            let l = bans::lifted_everywhere(r.state.jails, r.state.db, host);
            &&& more.state == bans::without_host(r.state, host)
            &&& more.work == r.work + l.work
        }),
        host != "--all"@ ==> ({
            let r = handled(st, seq!["unban"@, host], now);
            let l = bans::lifted_everywhere(st.jails, st.db, host);
            &&& r.state == bans::without_host(st, host)
            &&& r.work == l.work
            &&& l.work.len() > 0 ==> r.outcome == Outcome::Reply(Answer::Said(number::decimal(1)))
            &&& l.work.len() == 0 ==> r.outcome == Outcome::Reply(Answer::Said(number::decimal(0)))
        }),
{
    lemma_command_words();
    lemma_setting_words();
    assert((seq!["unban"@] + hosts).skip(1) =~= hosts);
    assert((seq!["unban"@] + hosts.push(host)).skip(1) =~= hosts.push(host));
    assert(hosts.push(host).drop_last() =~= hosts);
    assert(seq!["unban"@, host].skip(1) =~= seq![host]);
    assert(seq![host].drop_last() =~= Seq::empty());
    reveal_with_fuel(unbanned_each, 2);
    let l = bans::lifted_everywhere(st.jails, st.db, host);
    assert(Seq::<WorkView>::empty() + l.work =~= l.work);
}

/// `banned` tells the hosts that each jail bans, or the jails that ban a host.
pub proof fn law_banned_command(st: ServerState, host: Text, now: Timestamp)
    ensures
        handled(st, seq!["banned"@], now).outcome == Outcome::Reply(
            Answer::Told(PayloadView::Listings(status::banned_by_jail(st.jails))),
        ),
        handled(st, seq!["banned"@, host], now).outcome == Outcome::Reply(
            Answer::Told(PayloadView::Listings(seq![(host, status::banning(st.jails, host))])),
        ),
{
    lemma_command_words();
    let f = |h: Text| (h, status::banning(st.jails, h));
    assert(seq!["banned"@, host].skip(1) =~= seq![host]);
    assert(seq![host].map_values(f) =~= seq![(host, status::banning(st.jails, host))]);
}

/// `reload` asks for the configuration directories again: for one jail where
/// it is named, else for all.
pub proof fn law_reload_command(st: ServerState, name: Text, now: Timestamp)
    requires
        reload_dirs(st).len() > 0,
    ensures
        handled(st, seq!["reload"@], now).outcome == (Outcome::Reload {
            dirs: reload_dirs(st),
            jail: None,
        }),
        handled(st, seq!["reload"@, "--all"@], now).outcome == (Outcome::Reload {
            dirs: reload_dirs(st),
            jail: None,
        }),
        name != "--all"@ ==> handled(st, seq!["reload"@, name], now).outcome == (Outcome::Reload {
            dirs: reload_dirs(st),
            jail: Some(name),
        }),
{
    lemma_command_words();
}

/// A reload stops all jails and starts those that the new configuration
/// enables, with the record that goes with it; a configuration that cannot be
/// read changes nothing; a reload of one jail restarts it.
pub proof fn law_reload(
    st: ServerState,
    name: Text,
    c: config::loader::ConfigView,
    db: DbState,
    e: ErrorView,
    opened: Result<DbState, ErrorView>,
    now: Timestamp,
)
    ensures
        reloaded(st, None, Err(e), opened, now).0 == st,
        reloaded(st, None, Err(e), opened, now).2 is Refused,
        ({
            let r = reloaded(st, None, Ok(c), Ok(db), now);
            let mid = ServerState {
                db,
                ..server::reconfigured(server::all_stopped(st, now), c)
            };
            &&& r.0 == server::all_started(mid, now).0
            &&& r.1 == server::stopped_all(st.jails, st.db, now).1 + server::all_started(
                mid,
                now,
            ).1
            &&& r.2 == Answer::Said(
                "reloaded, started "@ + number::decimal(server::all_started(mid, now).1.len())
                    + " jails"@,
            )
        }),
        reloaded(st, None, Ok(c), Err(e), now).0.jails.len() == 0,
        reloaded(st, None, Ok(c), Err(e), now).2 is Refused,
        reloaded(st, Some(name), Ok(c), opened, now).0 == restarted(st, name, now).0,
        reloaded(st, Some(name), Ok(c), opened, now).1 == restarted(st, name, now).1,
{
}

/// The directories to read again are those that the server was given, without
/// empty ones.
pub proof fn law_reload_dirs(v: Seq<Text>, d: Text, st: ServerState)
    ensures
        not_empty(Seq::empty()) == Seq::<Text>::empty(),
        d.len() > 0 ==> not_empty(v.push(d)) == not_empty(v).push(d),
        d.len() == 0 ==> not_empty(v.push(d)) == not_empty(v),
        reload_dirs(st) == not_empty(split::pieces(text::joined(st.dirs, ","@), ',')),
{
    assert(v.push(d).drop_last() =~= v);
}

/// `start --all` starts what is enabled and says how many jails it started;
/// `add` starts a jail that is configured, and no other.
#[verifier::spinoff_prover]
#[verifier::rlimit(60)]
pub proof fn law_start_all_and_add(
    st: ServerState,
    name: Text,
    backend: Text,
    c: crate::config::jail::JailView,
    j: JailState,
    now: Timestamp,
)
    ensures
        ({
            let r = handled(st, seq!["start"@, "--all"@], now);
            let all = server::all_started(st, now);
            &&& r.state == all.0
            &&& r.work == all.1
            &&& r.outcome == Outcome::Reply(
                Answer::Said("started "@ + number::decimal(all.1.len()) + " jails"@),
            )
        }),
        crate::table::lookup(st.config.jails, name) is None ==> handled(
            st,
            seq!["add"@, name, backend],
            now,
        ) == refusing(st, "jail error: "@ + ("unknown jail: "@ + name)),
        crate::table::lookup(st.config.jails, name) == Some(c) && server::started(st, c.name)
            == Ok::<JailState, ErrorView>(j) ==> {
            let r = handled(st, seq!["add"@, name, backend], now);
            &&& r.state == (ServerState { jails: st.jails.push(j), ..st })
            &&& r.outcome == Outcome::Reply(Answer::Said("added jail "@ + name))
        },
{
    lemma_command_words();
}

} // verus!
