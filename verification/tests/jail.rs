use rail2ban::action::run::Phase;
use rail2ban::config::files::{FileSet, SourceFile, Stop};
use rail2ban::config::loader::{ConfigLoader, DirListing, DirSet, LoadedConfig};
use rail2ban::ip::IpAddr;
use rail2ban::protocol::{Payload, Request, Response};
use rail2ban::server::assembly::build_jail;
use rail2ban::server::bantime::{compute_bantime, Jitter};
use rail2ban::server::commands::{dispatch, finish_reload, list_reload_dirs, Dispatched};
use rail2ban::server::database::Database;
use rail2ban::server::jail::{
    choose_backend, is_own_ip, resolved, BackendPlan, Jail, LineStep, MatchStep,
};
use rail2ban::server::jobs::Job;
use rail2ban::server::orders::JailCommand;
use rail2ban::server::server::{Server, Work};
use rail2ban::time::{TimeValue, Timestamp};
use rail2ban::web::api::{ApiData, ApiResponse, Value};
use rail2ban::web::auth::AuthDb;
use rail2ban::web::handlers;
use rail2ban::web::manager::AuthManager;

const NOW: i64 = 1_784_000_000;
const YEAR: i32 = 2026;

const FILTER: &str = "[Definition]\nfailregex = ^Failed password for <F-USER>\\w+</F-USER> from <HOST>$\n            ^Bad <HOST>$\n";
const LONG_FILTER: &str = "[Definition]\nfailregex = ^Bad <HOST>$\nmaxlines = 5\n";
const ACTION: &str = "[Definition]\nactionstart = fw new <name>\nactionstop = fw drop <name>\nactionban = fw add <ip>\nactionunban = fw del <ip>\n";
const FLUSHING: &str = "[Definition]\nactionban = set add <ip>\nactionunban = set del <ip>\nactionflush = set clear\n";

fn now() -> Timestamp {
    Timestamp::at(NOW)
}

fn later(secs: i64) -> Timestamp {
    Timestamp::at(NOW + secs)
}

/// The configuration that these jails make up.
fn config(jails: &str) -> LoadedConfig {
    let disk = [
        ("/etc/r/jail.conf", jails),
        ("/etc/r/filter.d/sshd.conf", FILTER),
        ("/etc/r/filter.d/long.conf", LONG_FILTER),
        ("/etc/r/action.d/ban.conf", ACTION),
        ("/etc/r/action.d/flushing.conf", FLUSHING),
    ];
    let loader = ConfigLoader::new(vec!["/etc/r".to_string()]);
    let mut files = FileSet::new();
    let mut lists = DirSet::new();
    let builtins = rail2ban::config::builtin_defaults(Some("host"));
    loop {
        match loader.load(&builtins, &files, &lists) {
            Ok(c) => return c,
            Err(Stop::Failed(e)) => panic!("{}", e.message()),
            Err(Stop::Need(p)) => {
                let found = disk.iter().find(|f| f.0 == p);
                files.add_file(SourceFile {
                    path: p.clone(),
                    canonical: p.clone(),
                    parent: p.rsplit_once('/').map(|x| x.0.to_string()),
                    exists: found.is_some(),
                    content: match found {
                        Some(f) => Ok(f.1.to_string()),
                        None => Err("no such file".to_string()),
                    },
                });
            }
            Err(Stop::NeedDir(p)) => lists.add_dir(DirListing { path: p, names: None }),
        }
    }
}

fn jail_with(more: &str) -> Jail {
    let c = config(&format!(
        "[sshd]\nenabled = true\nfilter = sshd\nlogpath = /var/log/auth.log\naction = ban\nmaxretry = 3\nfindtime = 600\nbantime = 60\n{more}"
    ));
    match build_jail(&c, "sshd") {
        Ok(j) => j,
        Err(e) => panic!("{}", e.message()),
    }
}

fn jail() -> Jail {
    jail_with("")
}

fn server() -> Server {
    let c = config(
        "[DEFAULT]\nfilter = sshd\nbantime = 60\nmaxretry = 2\n[sshd]\nenabled = true\nlogpath = /var/log/auth.log\naction = ban\n[web]\nenabled = true\nlogpath = /var/log/web.log\naction = flushing\n[off]\nenabled = false\nlogpath = /var/log/off.log\naction = ban\n",
    );
    let mut s = Server::new(c, 7);
    s.set_search_dirs(vec!["/etc/r".to_string()]);
    s
}

/// A server that runs its enabled jails.
fn running() -> Server {
    let mut s = server();
    let mut work = Vec::new();
    assert_eq!(s.start_all_enabled(&mut work, now()), 2);
    s
}

fn ask(s: &mut Server, words: &[&str]) -> (Response, Vec<Work>) {
    let mut work = Vec::new();
    let req = Request::new(words.iter().map(|w| w.to_string()).collect());
    match dispatch(s, &req, &mut work, now()) {
        Dispatched::Done(r) => (r, work),
        Dispatched::Reload { .. } => panic!("unexpected reload"),
    }
}

fn said(s: &mut Server, words: &[&str]) -> String {
    let (r, _) = ask(s, words);
    assert!(r.ok, "{:?}", r.message);
    r.message.unwrap()
}

fn refused(s: &mut Server, words: &[&str]) -> String {
    let (r, work) = ask(s, words);
    assert!(!r.ok);
    assert!(work.is_empty());
    r.message.unwrap()
}

fn jobs_of(w: &Work) -> &Vec<Job> {
    match w {
        Work::Run { jobs, .. } => jobs,
        Work::Started { jobs, .. } => jobs,
        Work::Stopped { jobs, .. } => jobs,
    }
}

fn banned(s: &Server, host: &str) -> Vec<String> {
    s.jails_banning(host)
}

#[test]
fn a_jail_bans_after_its_failures() {
    let mut j = jail();
    let mut db = Database::open();
    let line = "Failed password for root from 192.0.2.10";
    for i in 0..3 {
        let m = match j.read_line(line, YEAR) {
            LineStep::Match(m) => m,
            other => panic!("{:?}", other),
        };
        assert_eq!(m.host, "192.0.2.10");
        match j.take_match(&m, now(), 0, &db, 0) {
            MatchStep::Nothing => assert!(i < 2),
            MatchStep::Ban(b) => {
                assert_eq!(i, 2);
                assert_eq!(b.host, "192.0.2.10");
                assert_eq!(b.bantime, Some(60));
                assert_eq!(b.failures, 3);
                let jobs = j.issue_ban(b, &mut db, 10);
                assert_eq!(jobs.len(), 1);
                assert_eq!(jobs[0].phase, Phase::Check);
                assert_eq!(jobs[0].ctx.as_ref().unwrap().ip, "192.0.2.10");
                assert_eq!(jobs[0].ctx.as_ref().unwrap().user.as_deref(), Some("root"));
            }
            MatchStep::Command { .. } => panic!("no command was configured"),
        }
    }
    assert!(j.ban_mgr.is_banned("192.0.2.10"));
    assert_eq!(j.fail_mgr.current_failed(), 0);
    let rows = db.list_bans();
    assert_eq!(rows.len(), 1);
    assert_eq!(rows[0].bantime, Some(60));
    assert_eq!(rows[0].time_of_ban, NOW);
    assert_eq!(
        rows[0].data,
        "{\"matches\":[\"Failed password for root from 192.0.2.10\",\"Failed password for root from 192.0.2.10\",\"Failed password for root from 192.0.2.10\"],\"user\":\"root\"}"
    );
    assert_eq!(j.purge_expired_bans(&mut db, later(59)).len(), 0);
    let jobs = j.purge_expired_bans(&mut db, later(60));
    assert_eq!(jobs.len(), 1);
    assert_eq!(jobs[0].phase, Phase::Unban);
    assert!(!j.ban_mgr.is_banned("192.0.2.10"));
    assert_eq!(db.list_bans().len(), 0);
}

#[test]
fn the_record_keeps_so_many_lines() {
    let mut j = jail();
    let mut db = Database::open();
    let line = "Bad 192.0.2.10";
    for _ in 0..3 {
        if let LineStep::Match(m) = j.read_line(line, YEAR) {
            if let MatchStep::Ban(b) = j.take_match(&m, now(), 0, &db, 0) {
                j.issue_ban(b, &mut db, 1);
            }
        }
    }
    assert_eq!(db.list_bans()[0].data, "{\"matches\":[\"Bad 192.0.2.10\"],\"user\":null}");
}

#[test]
fn a_line_that_says_nothing_asks_for_nothing() {
    let mut j = jail();
    assert!(matches!(j.read_line("all is well", YEAR), LineStep::Nothing));
}

#[test]
fn an_ignored_host_is_not_banned() {
    let mut j = jail_with("ignoreip = 192.0.2.0/24\n");
    let db = Database::open();
    for _ in 0..9 {
        if let LineStep::Match(m) = j.read_line("Bad 192.0.2.10", YEAR) {
            assert!(matches!(j.take_match(&m, now(), 0, &db, 0), MatchStep::Nothing));
        }
    }
}

#[test]
fn a_jail_does_not_ban_its_own_host() {
    assert!(is_own_ip(IpAddr::parse("127.0.0.1").unwrap()));
    assert!(is_own_ip(IpAddr::parse("::1").unwrap()));
    assert!(!is_own_ip(IpAddr::parse("192.0.2.10").unwrap()));
    let mut j = jail();
    let db = Database::open();
    for _ in 0..9 {
        if let LineStep::Match(m) = j.read_line("Bad 127.0.0.1", YEAR) {
            assert!(matches!(j.take_match(&m, now(), 0, &db, 0), MatchStep::Nothing));
        }
    }
}

#[test]
fn a_command_can_ask_for_mercy() {
    let mut j = jail_with(
        "maxretry = 1\nignorecommand = check '<ip>' now\nignorecache = max-count=2, max-time=10\n",
    );
    let db = Database::open();
    let m = match j.read_line("Bad 192.0.2.10", YEAR) {
        LineStep::Match(m) => m,
        other => panic!("{:?}", other),
    };
    let (key, ban) = match j.take_match(&m, now(), 0, &db, 0) {
        MatchStep::Command { key, words, ban } => {
            assert_eq!(words, vec!["check", "192.0.2.10", "now"]);
            (key, ban)
        }
        other => panic!("{:?}", other),
    };
    assert_eq!(key, "192.0.2.10");
    assert!(j.take_answer(&key, true, ban, now(), 0).is_none());
    assert_eq!(j.fail_mgr.current_failed(), 0);
    // The answer holds for ten seconds.
    assert!(matches!(j.take_match(&m, now(), 5_000_000_000, &db, 0), MatchStep::Nothing));
    match j.take_match(&m, later(11), 11_000_000_000, &db, 0) {
        MatchStep::Command { key, ban, .. } => {
            let b = j.take_answer(&key, false, ban, later(12), 12_000_000_000).unwrap();
            assert_eq!(b.time_of_ban, later(12));
        }
        other => panic!("{:?}", other),
    }
    assert!(matches!(j.take_match(&m, later(13), 13_000_000_000, &db, 0), MatchStep::Ban(_)));
}

#[test]
fn a_command_without_words_is_not_run() {
    let mut j = jail_with("maxretry = 1\nignorecommand = '\n");
    let db = Database::open();
    if let LineStep::Match(m) = j.read_line("Bad 192.0.2.10", YEAR) {
        assert!(matches!(j.take_match(&m, now(), 0, &db, 0), MatchStep::Ban(_)));
    }
}

#[test]
fn a_host_name_is_looked_up() {
    let mut j = jail();
    match j.read_line("Bad host.example", YEAR) {
        LineStep::Lookup(m) => {
            assert_eq!(m.host, "host.example");
            let m = resolved(m, IpAddr::parse("192.0.2.7"));
            assert_eq!(m.ip, IpAddr::parse("192.0.2.7"));
        }
        other => panic!("{:?}", other),
    }
    let mut j = jail_with("usedns = no\n");
    assert!(matches!(j.read_line("Bad host.example", YEAR), LineStep::Nothing));
    let mut j = jail_with("usedns = raw\n");
    assert!(matches!(j.read_line("Bad host.example", YEAR), LineStep::Match(_)));
}

#[test]
fn bans_grow_with_each_offence() {
    let c = config(
        "[sshd]\nenabled = true\nfilter = sshd\nlogpath = /l\nbantime = 100\nbantime_increment = true\nbantime_factor = 2\nbantime_maxtime = 500\nbantime_rndtime = 10\n",
    );
    let j = c.jails.jails.get("sshd").unwrap();
    assert_eq!(compute_bantime(j, 0, 0), Some(100));
    assert_eq!(compute_bantime(j, 1, 0), Some(200));
    assert_eq!(compute_bantime(j, 2, 0), Some(400));
    assert_eq!(compute_bantime(j, 3, 0), Some(500));
    assert_eq!(compute_bantime(j, 3, 27), Some(507));
    assert_eq!(compute_bantime(j, 1000, 10), Some(500));
}

#[test]
fn bans_keep_their_length() {
    let c = config("[sshd]\nenabled = true\nfilter = sshd\nlogpath = /l\nbantime = 100\n");
    let j = c.jails.jails.get("sshd").unwrap();
    assert_eq!(compute_bantime(j, 9, 77), Some(100));
    let c = config(
        "[sshd]\nenabled = true\nfilter = sshd\nlogpath = /l\nbantime = -1\nbantime_increment = true\n",
    );
    let j = c.jails.jails.get("sshd").unwrap();
    assert_eq!(compute_bantime(j, 9, 77), None);
}

#[test]
fn random_numbers_follow_each_other() {
    let mut j = Jitter::new(1);
    assert_eq!(j.state, 0x9E37_79B9_7F4A_7C15);
    let x: u64 = j.state;
    let a = x ^ (x << 13);
    let b = a ^ (a >> 7);
    let n = j.draw();
    assert_eq!(n, b ^ (b << 17));
    assert_ne!(j.draw(), n);
}

#[test]
fn lines_come_from_somewhere() {
    let paths = || vec!["/var/log/auth.log".to_string()];
    let plan = |more: &str, paths: Vec<String>| choose_backend(&jail_with(more).config, paths);
    assert!(matches!(plan("", paths()), Ok(BackendPlan::Files(_))));
    assert!(matches!(plan("backend = polling\n", paths()), Ok(BackendPlan::Polling(_))));
    assert!(matches!(plan("backend = systemd\n", paths()), Ok(BackendPlan::Journal)));
    assert!(matches!(plan("skip_if_nologs = true\n", vec![]), Ok(BackendPlan::Skip)));
    assert!(matches!(plan("systemd_if_nologs = true\n", vec![]), Ok(BackendPlan::Journal)));
    assert_eq!(
        plan("", vec![]).unwrap_err().message(),
        "config error: jail sshd: no log files found for [\"/var/log/auth.log\"]"
    );
}

#[test]
fn a_jail_needs_its_filter() {
    let c = config("[sshd]\nenabled = false\nfilter =\nlogpath = /l\n");
    let told = |r: Result<Jail, rail2ban::error::Error>| match r {
        Ok(_) => panic!("there is no such jail"),
        Err(e) => e.message(),
    };
    assert_eq!(told(build_jail(&c, "nope")), "jail error: unknown jail: nope");
    assert_eq!(told(build_jail(&c, "sshd")), "jail error: filter  not loaded");
}

#[test]
fn the_enabled_jails_are_started() {
    let mut s = server();
    let mut work = Vec::new();
    assert_eq!(s.start_all_enabled(&mut work, now()), 2);
    assert_eq!(s.list_jails(), vec!["sshd", "web"]);
    assert_eq!(work.len(), 2);
    match &work[0] {
        Work::Started { jail, jobs } => {
            assert_eq!(jail, "sshd");
            assert_eq!(jobs.len(), 1);
            assert_eq!(jobs[0].phase, Phase::Start);
        }
        _ => panic!("a jail was started"),
    }
    let e = match s.start_jail("sshd") {
        Ok(_) => panic!("it runs already"),
        Err(e) => e.message(),
    };
    assert_eq!(e, "jail error: sshd already running");
}

#[test]
fn bans_survive_a_restart() {
    let mut s = running();
    s.db.add_ban("sshd", "192.0.2.10", NOW - 10, Some(60), "{}");
    s.db.add_ban("sshd", "192.0.2.11", NOW - 100, Some(60), "{}");
    s.db.add_ban("web", "192.0.2.12", NOW - 100, None, "{}");
    s.db.add_ban("gone", "192.0.2.13", NOW - 10, Some(60), "{}");
    s.restore_bans_from_db(now());
    assert_eq!(banned(&s, "192.0.2.10"), vec!["sshd"]);
    assert!(banned(&s, "192.0.2.11").is_empty());
    assert_eq!(banned(&s, "192.0.2.12"), vec!["web"]);
    assert_eq!(s.db.list_bans().len(), 3);
}

#[test]
fn old_rows_leave_the_record() {
    let mut s = running();
    s.dbpurgeage = 50;
    s.db.add_ban("sshd", "192.0.2.10", NOW - 100, Some(10), "{}");
    s.db.add_ban("sshd", "192.0.2.11", NOW - 10, Some(5), "{}");
    s.purge_record(NOW);
    assert!(s.db.list_bans().is_empty());
    assert_eq!(s.db.ban_count("sshd", "192.0.2.10"), 0);
    assert_eq!(s.db.ban_count("sshd", "192.0.2.11"), 1);
}

#[test]
fn a_host_is_banned_by_hand() {
    let mut s = running();
    let (r, work) = ask(&mut s, &["set", "sshd", "banip", "192.0.2.10", "192.0.2.11"]);
    assert_eq!(r.message.as_deref(), Some("2"));
    assert_eq!(work.len(), 2);
    assert_eq!(jobs_of(&work[0])[0].phase, Phase::Check);
    assert_eq!(banned(&s, "192.0.2.10"), vec!["sshd"]);
    assert_eq!(s.db.list_bans().len(), 0);
    let (r, work) = ask(&mut s, &["set", "sshd", "unbanip", "192.0.2.10"]);
    assert_eq!(r.message.as_deref(), Some("1"));
    assert_eq!(jobs_of(&work[0])[0].phase, Phase::Unban);
    assert!(banned(&s, "192.0.2.10").is_empty());
    assert_eq!(said(&mut s, &["unban", "192.0.2.11", "192.0.2.99"]), "1");
    assert!(banned(&s, "192.0.2.11").is_empty());
}

#[test]
fn all_bans_are_lifted() {
    let mut s = running();
    for jail in ["sshd", "web"] {
        said(&mut s, &["set", jail, "banip", "192.0.2.10", "192.0.2.11"]);
    }
    let (r, work) = ask(&mut s, &["unban", "--all"]);
    assert_eq!(r.message.as_deref(), Some("unbanned all"));
    assert!(banned(&s, "192.0.2.10").is_empty());
    let phases = |w: &Work| -> Vec<Phase> { jobs_of(w).iter().map(|j| j.phase).collect() };
    assert_eq!(phases(&work[0]), vec![Phase::Unban, Phase::Unban]);
    assert_eq!(phases(&work[1]), vec![Phase::Flush]);
}

#[test]
fn attempts_by_hand_count() {
    let mut s = running();
    assert_eq!(said(&mut s, &["set", "sshd", "attempt", "192.0.2.10"]), "OK");
    assert!(banned(&s, "192.0.2.10").is_empty());
    let (_, work) = ask(&mut s, &["set", "sshd", "attempt", "192.0.2.10"]);
    assert_eq!(banned(&s, "192.0.2.10"), vec!["sshd"]);
    assert_eq!(work.len(), 1);
}

#[test]
fn jails_tell_of_themselves() {
    let mut s = running();
    said(&mut s, &["set", "sshd", "banip", "192.0.2.10"]);
    let (r, _) = ask(&mut s, &["status"]);
    match r.data {
        Some(Payload::Jails(names)) => assert_eq!(names, vec!["sshd", "web"]),
        other => panic!("{:?}", other),
    }
    let (r, _) = ask(&mut s, &["status", "sshd"]);
    match r.data {
        Some(Payload::Stats(st)) => {
            assert_eq!(st.jail, "sshd");
            assert_eq!(st.currently_banned, 1);
            assert_eq!(st.total_banned, 1);
            assert_eq!(st.maxretry, 2);
            assert_eq!(st.bantime, 60);
            assert_eq!(st.banned_ips, vec!["192.0.2.10"]);
            assert_eq!(st.banned_list[0].time_of_ban, NOW);
            assert_eq!(st.banned_list[0].bantime, Some(60));
        }
        other => panic!("{:?}", other),
    }
    let (r, _) = ask(&mut s, &["statistics"]);
    match r.data {
        Some(Payload::AllStats(v)) => assert_eq!(v.len(), 2),
        other => panic!("{:?}", other),
    }
    let (r, _) = ask(&mut s, &["banned"]);
    match r.data {
        Some(Payload::Listings(v)) => {
            assert_eq!(v[0].key, "sshd");
            assert_eq!(v[0].names, vec!["192.0.2.10"]);
        }
        other => panic!("{:?}", other),
    }
    let (r, _) = ask(&mut s, &["banned", "192.0.2.10", "192.0.2.11"]);
    match r.data {
        Some(Payload::Listings(v)) => {
            assert_eq!(v[0].key, "192.0.2.10");
            assert_eq!(v[0].names, vec!["sshd"]);
            assert!(v[1].names.is_empty());
        }
        other => panic!("{:?}", other),
    }
}

#[test]
fn settings_are_read_and_written() {
    let mut s = running();
    assert_eq!(said(&mut s, &["set", "loglevel", "DEBUG"]), "OK");
    assert_eq!(said(&mut s, &["get", "loglevel"]), "DEBUG");
    assert_eq!(said(&mut s, &["set", "logtarget", "STDOUT"]), "OK");
    assert_eq!(said(&mut s, &["get", "logtarget"]), "STDOUT");
    assert_eq!(said(&mut s, &["set", "dbmaxmatches", "3"]), "OK");
    assert_eq!(said(&mut s, &["get", "dbmaxmatches"]), "3");
    assert_eq!(said(&mut s, &["set", "dbpurgeage", "1h"]), "OK");
    assert_eq!(said(&mut s, &["get", "dbpurgeage"]), "3600");
    assert_eq!(said(&mut s, &["set", "dbfile", "none"]), "OK");
    assert_eq!(said(&mut s, &["get", "dbfile"]), "none");
    assert_eq!(refused(&mut s, &["set", "dbmaxmatches", "many"]), "invalid integer: many");
    assert!(refused(&mut s, &["set", "dbpurgeage", "soon"]).contains("soon"));
    assert_eq!(said(&mut s, &["get", "dbmaxmatches"]), "3");
    assert_eq!(said(&mut s, &["get", "sshd", "maxretry"]), "2");
    assert_eq!(said(&mut s, &["get", "sshd", "nothing"]), "");
    assert!(said(&mut s, &["get", "sshd", "failregex"]).contains("Bad"));
}

#[test]
fn small_commands_are_answered() {
    let mut s = running();
    assert_eq!(said(&mut s, &["ping"]), "pong");
    assert_eq!(said(&mut s, &["echo", "hello", "you"]), "hello");
    assert_eq!(said(&mut s, &["echo"]), "");
    assert_eq!(said(&mut s, &["version"]), "0.1.0");
    assert_eq!(said(&mut s, &["flushlogs"]), "");
}

#[test]
fn commands_are_refused() {
    let mut s = running();
    assert_eq!(refused(&mut s, &[]), "empty command");
    assert_eq!(refused(&mut s, &["dance"]), "unknown command: dance");
    assert_eq!(refused(&mut s, &["status", "nope"]), "no such jail: nope");
    assert_eq!(refused(&mut s, &["stop", "nope"]), "jail error: nope not running");
    assert_eq!(refused(&mut s, &["start", "nope"]), "jail error: unknown jail: nope");
    assert_eq!(refused(&mut s, &["restart"]), "restart: missing jail name");
    assert_eq!(refused(&mut s, &["unban"]), "unban: missing IP or --all");
    assert_eq!(refused(&mut s, &["get"]), "get: missing arguments");
    assert_eq!(refused(&mut s, &["get", "x"]), "get: unknown [\"x\"]");
    assert_eq!(refused(&mut s, &["get", "x", "y"]), "no such jail: x");
    assert_eq!(refused(&mut s, &["set"]), "set: missing arguments");
    assert_eq!(refused(&mut s, &["set", "loglevel"]), "set loglevel: missing value");
    assert_eq!(refused(&mut s, &["set", "x", "y"]), "set: unknown [\"x\", \"y\"]");
    assert_eq!(refused(&mut s, &["set", "x", "banip", "h"]), "no such jail: x");
    assert_eq!(
        refused(&mut s, &["set", "sshd", "fly", "h"]),
        "set <jail> fly: not implemented"
    );
    assert_eq!(refused(&mut s, &["add"]), "add: usage: add <JAIL> <BACKEND>");
    assert_eq!(refused(&mut s, &["add", "nope", "auto"]), "jail error: unknown jail: nope");
    assert_eq!(refused(&mut s, &["add", "web", "auto"]), "jail error: web already running");
}

#[test]
fn jails_are_started_and_stopped() {
    let mut s = running();
    s.jails[0].actions[0].started = true;
    said(&mut s, &["set", "sshd", "banip", "192.0.2.10"]);
    let (r, work) = ask(&mut s, &["stop", "sshd"]);
    assert_eq!(r.message.as_deref(), Some("stopped jail sshd"));
    match &work[0] {
        Work::Stopped { stopped, jobs } => {
            assert_eq!(stopped.config.name, "sshd");
            assert_eq!(jobs.last().unwrap().phase, Phase::Stop);
        }
        _ => panic!("a jail was stopped"),
    }
    assert_eq!(s.list_jails(), vec!["web"]);
    assert_eq!(said(&mut s, &["start", "sshd"]), "started jail sshd");
    assert_eq!(said(&mut s, &["add", "off", "auto"]), "added jail off");
    assert_eq!(said(&mut s, &["restart", "web"]), "restarted jail web");
    assert_eq!(s.list_jails(), vec!["sshd", "off", "web"]);
    let (r, work) = ask(&mut s, &["stop"]);
    assert_eq!(r.message.as_deref(), Some("stopping all jails"));
    assert_eq!(work.len(), 3);
    assert!(s.list_jails().is_empty());
    assert_eq!(said(&mut s, &["start", "--all"]), "started 2 jails");
}

#[test]
fn the_configuration_is_read_again() {
    let mut s = running();
    let mut work = Vec::new();
    let req = Request::new(vec!["reload".to_string()]);
    match dispatch(&mut s, &req, &mut work, now()) {
        Dispatched::Reload { dirs, jail } => {
            assert_eq!(dirs, vec!["/etc/r"]);
            assert_eq!(jail, None);
        }
        Dispatched::Done(r) => panic!("{:?}", r),
    }
    let c = config("[other]\nenabled = true\nfilter = sshd\nlogpath = /l\naction = ban\n");
    let r = finish_reload(&mut s, None, Ok(c), Ok(Database::open()), &mut work, now());
    assert!(r.ok, "{:?}", r.message);
    assert_eq!(s.list_jails(), vec!["other"]);
}

#[test]
fn a_configuration_that_cannot_be_read_changes_nothing() {
    let mut s = running();
    let mut work = Vec::new();
    let bad = Err(rail2ban::error::Error::config("broken"));
    let r = finish_reload(&mut s, None, bad, Ok(Database::open()), &mut work, now());
    assert!(!r.ok);
    assert_eq!(s.list_jails(), vec!["sshd", "web"]);
}

#[test]
fn nothing_is_read_again_without_directories() {
    let mut s = running();
    s.set_search_dirs(vec![]);
    assert!(list_reload_dirs(&s).is_empty());
    assert_eq!(refused(&mut s, &["reload"]), "reload: no config search dirs available");
    s.set_search_dirs(vec!["/a".to_string(), "".to_string(), "/b".to_string()]);
    assert_eq!(list_reload_dirs(&s), vec!["/a", "/b"]);
    assert_eq!(s.config_path(), "/a,,/b");
}

#[test]
fn a_ban_in_force_is_not_issued_twice() {
    let mut s = running();
    said(&mut s, &["set", "sshd", "banip", "192.0.2.10"]);
    said(&mut s, &["set", "sshd", "banip", "192.0.2.10"]);
    let i = s.find_jail("sshd").unwrap();
    assert_eq!(s.jail_stats(i).currently_banned, 1);
    assert_eq!(TimeValue::parse("60").unwrap().seconds, Some(60));
}

#[test]
fn a_jail_does_what_it_is_told() {
    let mut j = jail_with("maxretry = 1\n");
    let mut db = Database::open();
    let host = "192.0.2.10".to_string();
    let jobs = j.obey(JailCommand::BanIp { ip: host.clone() }, &mut db, 10, 0, now());
    assert_eq!(jobs.len(), 1);
    assert!(j.ban_mgr.is_banned(&host));
    assert!(db.list_bans().is_empty());
    let jobs = j.obey(JailCommand::UnbanIp { ip: host.clone() }, &mut db, 10, 0, now());
    assert_eq!(jobs[0].phase, Phase::Unban);
    assert!(!j.ban_mgr.is_banned(&host));
    assert!(j.obey(JailCommand::UnbanIp { ip: host.clone() }, &mut db, 10, 0, now()).is_empty());
    let attempt = JailCommand::Attempt { ip: host.clone(), failures: vec![] };
    assert_eq!(j.obey(attempt, &mut db, 10, 0, now()).len(), 1);
    assert_eq!(db.list_bans().len(), 1);
    assert_eq!(j.obey(JailCommand::FlushAll, &mut db, 10, 0, now()).len(), 1);
    assert!(!j.ban_mgr.is_banned(&host));
    let restore = |time_of_ban: i64, bantime: Option<i64>| JailCommand::RestoreBan {
        ip: "192.0.2.10".to_string(),
        ip_addr: IpAddr::parse("192.0.2.10"),
        time_of_ban,
        bantime,
    };
    assert!(j.obey(restore(NOW - 100, Some(60)), &mut db, 10, 0, now()).is_empty());
    assert!(!j.ban_mgr.is_banned(&host));
    assert!(j.obey(restore(NOW - 100, None), &mut db, 10, 0, now()).is_empty());
    assert!(j.ban_mgr.is_banned(&host));
    assert!(j.obey(JailCommand::Stop, &mut db, 10, 0, now()).is_empty());
}

#[test]
fn a_recorded_ban_comes_back_until_it_is_lifted() {
    let mut s = running();
    said(&mut s, &["set", "sshd", "attempt", "192.0.2.10"]);
    said(&mut s, &["set", "sshd", "attempt", "192.0.2.10"]);
    assert_eq!(s.db.list_bans().len(), 1);
    let mut fresh = server();
    fresh.db = s.db;
    let mut work = Vec::new();
    fresh.start_all_enabled(&mut work, later(30));
    assert_eq!(banned(&fresh, "192.0.2.10"), vec!["sshd"]);
    assert_eq!(said(&mut fresh, &["unban", "192.0.2.10"]), "1");
    assert!(fresh.db.list_bans().is_empty());
    assert!(fresh.db.bans.is_empty());
}

fn field<'a>(r: &'a ApiResponse, key: &str) -> &'a Value {
    match &r.data {
        Some(ApiData::Fields(v)) => &v.iter().find(|f| f.key == key).unwrap().value,
        other => panic!("{:?}", other),
    }
}

#[test]
fn the_interface_bans_and_lifts() {
    let mut s = running();
    let mut work = Vec::new();
    let r = handlers::ban_ip(&mut s, None, "192.0.2.10", &mut work, now());
    assert_eq!(r.message.as_deref(), Some("jail field is required"));
    let r = handlers::ban_ip(&mut s, Some("nope"), "192.0.2.10", &mut work, now());
    assert_eq!(r.message.as_deref(), Some("jail not found: nope"));
    assert!(work.is_empty());
    let r = handlers::ban_ip(&mut s, Some("sshd"), "192.0.2.10", &mut work, now());
    assert!(r.ok);
    assert_eq!(work.len(), 1);
    let r = handlers::check_banned(&s, "192.0.2.10");
    assert!(matches!(field(&r, "is_banned"), Value::Flag(true)));
    assert!(matches!(field(&r, "banned_in"), Value::Names(v) if v == &vec!["sshd".to_string()]));
    match handlers::list_banned(&s).data {
        Some(ApiData::Listings(v)) => assert_eq!(v[0].names, vec!["192.0.2.10"]),
        other => panic!("{:?}", other),
    }
    let r = handlers::unban_ip(&mut s, "192.0.2.10", &mut work);
    assert!(matches!(field(&r, "was_banned"), Value::Flag(true)));
    let r = handlers::unban_ip(&mut s, "192.0.2.10", &mut work);
    assert!(matches!(field(&r, "was_banned"), Value::Flag(false)));
    let r = handlers::unban_all(&mut s, &mut work);
    assert!(matches!(field(&r, "action"), Value::Word(w) if w == "unbanned all"));
}

#[test]
fn the_interface_tells_of_jails() {
    let mut s = running();
    let auth = AuthManager::new(AuthDb::open());
    let mut work = Vec::new();
    let r = handlers::get_status(&s, &auth);
    assert!(matches!(field(&r, "jails_count"), Value::Count(2)));
    assert!(matches!(field(&r, "setup_required"), Value::Flag(true)));
    match handlers::list_jails(&s).data {
        Some(ApiData::Briefs(v)) => assert_eq!(v[1].name, "web"),
        other => panic!("{:?}", other),
    }
    assert!(matches!(handlers::get_stats(&s).data, Some(ApiData::AllStats(v)) if v.len() == 2));
    assert!(matches!(
        handlers::get_jail(&s, "sshd").data,
        Some(ApiData::Stats(st)) if st.jail == "sshd"
    ));
    let r = handlers::get_jail(&s, "nope");
    assert_eq!(r.message.as_deref(), Some("jail not found: nope"));
    let r = handlers::stop_jail(&mut s, "web", &mut work, now());
    assert!(matches!(field(&r, "stopped"), Value::Word(w) if w == "web"));
    assert!(!handlers::stop_jail(&mut s, "web", &mut work, now()).ok);
    assert!(handlers::start_jail(&mut s, "web", &mut work).ok);
    assert!(!handlers::start_jail(&mut s, "web", &mut work).ok);
    assert!(handlers::restart_jail(&mut s, "web", &mut work, now()).ok);
    assert!(!handlers::restart_jail(&mut s, "nope", &mut work, now()).ok);
}

#[test]
fn the_interface_reads_and_writes_settings() {
    let mut s = running();
    let r = handlers::set_loglevel(&mut s, "DEBUG");
    assert!(matches!(field(&r, "loglevel"), Value::Word(w) if w == "DEBUG"));
    let r = handlers::get_loglevel(&s);
    assert!(matches!(field(&r, "loglevel"), Value::Word(w) if w == "DEBUG"));
    let r = handlers::get_config(&s, Some("dbmaxmatches"));
    assert!(matches!(field(&r, "dbmaxmatches"), Value::Count(10)));
    let r = handlers::get_config(&s, Some("socket"));
    assert!(
        matches!(field(&r, "socket"), Value::Word(w) if w == "/var/run/rail2ban/rail2ban.sock")
    );
    let r = handlers::get_config(&s, Some("colour"));
    assert_eq!(r.message.as_deref(), Some("unknown config key: colour"));
    let r = handlers::get_config(&s, None);
    assert!(matches!(field(&r, "dbpurgeage"), Value::Count(86400)));
    assert!(
        matches!(field(&r, "socket"), Value::Word(w) if w == "/var/run/rail2ban/rail2ban.sock")
    );
    assert_eq!(handlers::reload_dirs(&s).unwrap(), vec!["/etc/r"]);
    let mut work = Vec::new();
    let c = config("[other]\nenabled = true\nfilter = sshd\nlogpath = /l\naction = ban\n");
    let r = handlers::reload_config(&mut s, Ok(c), Ok(Database::open()), &mut work, now());
    assert!(matches!(field(&r, "jails_started"), Value::Count(1)));
    let bad = Err(rail2ban::error::Error::config("broken"));
    let r = handlers::reload_config(&mut s, bad, Ok(Database::open()), &mut work, now());
    assert_eq!(r.message.as_deref(), Some("config parse error: config error: broken"));
    s.set_search_dirs(vec![]);
    assert!(handlers::reload_dirs(&s).is_err());
}

#[test]
fn a_jail_overrides_the_lines_of_its_filter() {
    assert_eq!(jail().line_buffer.maxlines, 1);
    assert_eq!(jail_with("maxlines = 2\n").line_buffer.maxlines, 2);
    let long = |more: &str| {
        let c = config(&format!(
            "[l]\nenabled = true\nfilter = long\nlogpath = /l\naction = ban\n{more}"
        ));
        match build_jail(&c, "l") {
            Ok(j) => j.line_buffer.maxlines,
            Err(e) => panic!("{}", e.message()),
        }
    };
    assert_eq!(long(""), 5);
    assert_eq!(long("maxlines = 2\n"), 2);
    assert_eq!(long("maxlines = 9\n"), 9);
}

#[test]
fn a_restored_ban_keeps_its_recorded_length() {
    let mut j = jail();
    let mut db = Database::open();
    let ip = IpAddr::parse("192.0.2.10");
    j.restore_ban("192.0.2.10", ip, NOW + 100, Some(-30), &mut db, now());
    assert!(j.ban_mgr.is_banned("192.0.2.10"));
    assert!(j.purge_expired_bans(&mut db, later(69)).is_empty());
    assert!(j.ban_mgr.is_banned("192.0.2.10"));
    let jobs = j.purge_expired_bans(&mut db, later(70));
    assert_eq!(jobs.len(), 1);
    assert_eq!(jobs[0].ctx.as_ref().unwrap().bantime, Some(0));
    assert!(!j.ban_mgr.is_banned("192.0.2.10"));
    j.restore_ban("192.0.2.10", ip, NOW + 20, Some(-30), &mut db, now());
    assert!(!j.ban_mgr.is_banned("192.0.2.10"));
}
