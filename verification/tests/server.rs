use rail2ban::filter::MatchResult;
use rail2ban::ip::IpAddr;
use rail2ban::server::banmanager::{ticket_from_fail, BanManager, BanTicket};
use rail2ban::server::database::Database;
use rail2ban::server::failmanager::FailManager;
use rail2ban::server::ignorecache::IgnoreCache;
use rail2ban::time::Timestamp;

const NOW: i64 = 1_784_000_000;

fn make_match(host: &str, ts: Timestamp) -> MatchResult {
    MatchResult {
        host: host.to_string(),
        ip: IpAddr::parse(host),
        user: None,
        alt_user: None,
        mlfid: None,
        timestamp: Some(ts),
        nofail: false,
        mlfforget: false,
        mlfgained: false,
        line: format!("failed from {host}"),
        regex_index: 0,
    }
}

fn ban(host: &str, at: i64, bantime: Option<i128>) -> BanTicket {
    BanTicket {
        host: host.to_string(),
        ip: IpAddr::parse(host),
        user: None,
        alt_user: None,
        mlfid: None,
        time_of_ban: Timestamp::at(at),
        bantime,
        matches: vec![],
        failures: 1,
    }
}

#[test]
fn opens_in_memory() {
    let mut db = Database::open();
    db.add_ban("sshd", "1.2.3.4", 1000, Some(3600), "{}");
    assert_eq!(db.ban_count("sshd", "1.2.3.4"), 1);
    db.remove_ban("sshd", "1.2.3.4");
    assert_eq!(db.ban_count("sshd", "1.2.3.4"), 0);
}

#[test]
fn purge_removes_old() {
    let mut db = Database::open();
    let now = NOW;
    db.add_ban("sshd", "1.2.3.4", now - 100_000, Some(3600), "{}");
    db.add_ban("sshd", "5.6.7.8", now, Some(3600), "{}");
    db.purge(60, now);
    let bans = db.list_bans();
    assert_eq!(bans.len(), 1);
    assert_eq!(bans[0].ip, "5.6.7.8");
}

#[test]
fn list_bans_returns_only_current_via_bips() {
    let mut db = Database::open();
    db.add_ban("sshd", "1.2.3.4", 1000, Some(3600), "{}");
    db.add_ban("sshd", "1.2.3.4", 2000, Some(3600), "{}");
    db.add_ban("sshd", "1.2.3.4", 3000, Some(3600), "{}");
    assert_eq!(db.ban_count("sshd", "1.2.3.4"), 3);
    let bans = db.list_bans();
    assert_eq!(bans.len(), 1);
    assert_eq!(bans[0].ip, "1.2.3.4");
    assert_eq!(bans[0].time_of_ban, 3000);
}

#[test]
fn remove_ban_clears_bips() {
    let mut db = Database::open();
    db.add_ban("sshd", "1.2.3.4", 1000, Some(3600), "{}");
    assert_eq!(db.list_bans().len(), 1);
    db.remove_ban("sshd", "1.2.3.4");
    assert_eq!(db.list_bans().len(), 0);
}

#[test]
fn purge_keeps_active_bans() {
    let mut db = Database::open();
    let now = NOW;
    db.add_ban("sshd", "1.2.3.4", now - 100_000, Some(999_999), "{}");
    db.purge(60, now);
    let bans = db.list_bans();
    assert_eq!(bans.len(), 1);
    assert_eq!(bans[0].ip, "1.2.3.4");
}

#[test]
fn current_bans_are_listed_newest_first() {
    let mut db = Database::open();
    db.add_ban("a", "1.1.1.1", 10, None, "{}");
    db.add_ban("b", "2.2.2.2", 30, None, "{}");
    db.add_ban("c", "3.3.3.3", 20, Some(5), "{}");
    let ips: Vec<String> = db.list_bans().into_iter().map(|b| b.ip).collect();
    assert_eq!(ips, vec!["2.2.2.2", "3.3.3.3", "1.1.1.1"]);
    db.remove_ban_all_jails("2.2.2.2");
    assert_eq!(db.list_bans().len(), 2);
    db.remove_all_bans();
    assert_eq!(db.list_bans().len(), 0);
}

#[test]
fn a_ban_without_an_end_is_never_purged() {
    let mut db = Database::open();
    db.add_ban("a", "1.1.1.1", 10, None, "{}");
    db.purge(1, NOW);
    assert_eq!(db.list_bans().len(), 1);
}

#[test]
fn triggers_ban_after_maxretry() {
    let mut mgr = FailManager::new(3, 600, 10);
    let t0 = NOW;
    let m1 = make_match("1.2.3.4", Timestamp::at(t0));
    let m2 = make_match("1.2.3.4", Timestamp::at(t0 + 1));
    let m3 = make_match("1.2.3.4", Timestamp::at(t0 + 2));
    let clock = Timestamp::at(t0);
    assert!(mgr.add_failure(&m1, clock).is_none());
    assert!(mgr.add_failure(&m2, clock).is_none());
    assert!(mgr.add_failure(&m3, clock).is_some());
}

#[test]
fn expires_old_failures() {
    let mut mgr = FailManager::new(2, 10, 10);
    let clock = Timestamp::at(NOW);
    let m1 = make_match("1.2.3.4", Timestamp::at(NOW - 60));
    let m2 = make_match("1.2.3.4", clock);
    assert!(mgr.add_failure(&m1, clock).is_none());
    assert!(mgr.add_failure(&m2, clock).is_none());
}

#[test]
fn a_match_that_is_no_failure_does_not_ban() {
    let mut mgr = FailManager::new(1, 600, 10);
    let clock = Timestamp::at(NOW);
    let mut m = make_match("1.2.3.4", clock);
    m.nofail = true;
    assert!(mgr.add_failure(&m, clock).is_none());
    assert_eq!(mgr.current_failed(), 1);
    assert_eq!(mgr.total_failed(), 0);
}

#[test]
fn a_success_clears_failures() {
    let mut mgr = FailManager::new(2, 600, 10);
    let clock = Timestamp::at(NOW);
    let m = make_match("1.2.3.4", clock);
    assert!(mgr.add_failure(&m, clock).is_none());
    let mut gained = make_match("1.2.3.4", clock);
    gained.mlfgained = true;
    assert!(mgr.add_failure(&gained, clock).is_none());
    assert!(mgr.add_failure(&m, clock).is_none());
    assert!(mgr.add_failure(&m, clock).is_some());
}

#[test]
fn failures_over_several_lines_belong_together() {
    let mut mgr = FailManager::new(2, 600, 10);
    let clock = Timestamp::at(NOW);
    let mut first = make_match("1.2.3.4", clock);
    first.mlfid = Some("s1".to_string());
    let mut second = make_match("unknown", clock);
    second.mlfid = Some("s1".to_string());
    assert!(mgr.add_failure(&first, clock).is_none());
    assert_eq!(mgr.add_failure(&second, clock).unwrap().host, "1.2.3.4");
    mgr.forget_mlfid("s1");
    assert!(mgr.add_failure(&second, clock).is_none());
    assert_eq!(mgr.current_failed(), 2);
    assert!(mgr.remove("unknown").is_some());
    assert!(mgr.remove("unknown").is_none());
    mgr.purge(Timestamp::at(NOW + 10_000));
    assert_eq!(mgr.current_failed(), 0);
}

#[test]
fn a_ticket_keeps_so_many_lines() {
    let mut mgr = FailManager::new(4, 600, 2);
    let clock = Timestamp::at(NOW);
    let m = make_match("1.2.3.4", clock);
    for _ in 0..3 {
        assert!(mgr.add_failure(&m, clock).is_none());
    }
    let t = mgr.add_failure(&m, clock).unwrap();
    assert_eq!(t.count(), 4);
    assert_eq!(t.matches.len(), 2);
    assert_eq!(t.last_seen(), Some(clock));
    let b = ticket_from_fail(&t, &m, Some(60), clock);
    assert_eq!(b.failures, 4);
    assert_eq!(b.expires(), Some(Timestamp::at(NOW + 60)));
}

#[test]
fn bans_come_and_go() {
    let mut mgr = BanManager::new();
    assert!(mgr.add_ban(ban("1.1.1.1", 100, Some(10))));
    assert!(mgr.add_ban(ban("2.2.2.2", 100, None)));
    assert!(!mgr.add_ban(ban("1.1.1.1", 105, Some(10))));
    assert_eq!(mgr.current_banned(), 2);
    assert_eq!(mgr.total_banned(), 2);
    assert!(mgr.is_banned("1.1.1.1"));
    assert_eq!(mgr.expired(Timestamp::at(114)).len(), 0);
    let gone = mgr.expired(Timestamp::at(115));
    assert_eq!(gone.len(), 1);
    assert_eq!(gone[0].host, "1.1.1.1");
    assert!(!mgr.is_banned("1.1.1.1"));
    assert!(mgr.remove_ban("1.1.1.1").is_none());
    assert_eq!(mgr.snapshot().len(), 1);
    assert_eq!(mgr.clear().len(), 1);
    assert_eq!(mgr.current_banned(), 0);
    assert_eq!(mgr.total_banned(), 2);
}

#[test]
fn ignore_cache_parse_and_lookup() {
    let mut c = IgnoreCache::parse(r#"key="ip", max-count=2, max-time=1h"#).unwrap();
    assert_eq!(c.max_count, 2);
    assert!(c.get("1.2.3.4", 0).is_none());
    c.insert("1.2.3.4".to_string(), true, 0);
    assert_eq!(c.get("1.2.3.4", 0), Some(true));
    c.insert("5.6.7.8".to_string(), false, 0);
    assert_eq!(c.get("5.6.7.8", 0), Some(false));
    c.insert("9.10.11.12".to_string(), true, 0);
    assert!(c.get("1.2.3.4", 0).is_none(), "oldest should be evicted");
    assert_eq!(c.get("9.10.11.12", 0), Some(true));
}

#[test]
fn ignore_cache_empty_spec() {
    assert!(IgnoreCache::parse("", ).is_none());
    assert!(IgnoreCache::parse("   ").is_none());
}

#[test]
fn answers_do_not_hold_for_ever() {
    let mut c = IgnoreCache::parse("max-count=2, max-time=10").unwrap();
    c.insert("a".to_string(), true, 0);
    c.insert("b".to_string(), true, 5_000_000_000);
    assert_eq!(c.get("a", 10_000_000_000), Some(true));
    assert_eq!(c.get("a", 10_000_000_001), None);
    c.insert("c".to_string(), false, 11_000_000_000);
    assert_eq!(c.get("b", 11_000_000_000), Some(true));
    assert_eq!(c.get("c", 11_000_000_000), Some(false));
    assert_eq!(c.get("a", 0), None);
}

#[test]
fn a_cache_for_nothing_is_none() {
    assert!(IgnoreCache::parse("max-count=0").is_none());
    let c = IgnoreCache::parse("max-count=many, max-time=soon").unwrap();
    assert_eq!(c.max_count, 100);
    assert_eq!(c.max_time, 3600);
}

#[test]
fn a_new_answer_for_a_held_key_evicts_nothing() {
    let mut c = IgnoreCache::parse("max-count=2, max-time=1h").unwrap();
    c.insert("a".to_string(), true, 0);
    c.insert("b".to_string(), false, 1);
    c.insert("b".to_string(), true, 2);
    assert_eq!(c.get("a", 3), Some(true));
    assert_eq!(c.get("b", 3), Some(true));
    c.insert("c".to_string(), true, 4);
    assert_eq!(c.get("a", 5), None);
    assert_eq!(c.get("b", 5), Some(true));
}

#[test]
fn bans_follow_the_failures_of_a_run() {
    let mut mgr = FailManager::new(3, 10, 2);
    let clock = Timestamp::at(0);
    let mut call = |host: &str, at: i64, nofail: bool, gained: bool| {
        let mut m = make_match(host, Timestamp::at(NOW + at));
        m.nofail = nofail;
        m.mlfgained = gained;
        mgr.add_failure(&m, clock)
    };
    assert!(call("a", 0, false, false).is_none());
    assert!(call("a", 1, false, false).is_none());
    assert!(call("b", 2, false, false).is_none());
    assert!(call("a", 3, false, true).is_none());
    assert!(call("a", 4, false, false).is_none());
    assert!(call("a", 5, true, false).is_none());
    assert!(call("a", 6, false, false).is_none());
    assert!(call("a", 15, false, false).is_none());
    let t = call("a", 16, false, false).unwrap();
    assert_eq!(t.host, "a");
    assert_eq!(t.count(), 3);
    assert_eq!(t.matches.len(), 2);
    let t = call("a", 16, false, false).unwrap();
    assert_eq!(t.count(), 4);
    assert!(call("a", 40, false, false).is_none());
}

#[test]
fn a_ban_may_end_before_its_start() {
    let b = ban("1.2.3.4", NOW, Some(-10));
    assert_eq!(b.expires(), Some(Timestamp::at(NOW - 10)));
    assert!(b.is_expired(Timestamp::at(NOW - 10)));
    assert!(!b.is_expired(Timestamp::at(NOW - 11)));
    let b = ban("1.2.3.4", NOW, Some(i128::MAX));
    assert_eq!(b.expires().unwrap().secs, i64::MAX);
    assert!(!b.is_expired(Timestamp::at(i64::MAX)));
    let b = ban("1.2.3.4", NOW, Some(i128::MIN));
    assert_eq!(b.expires(), Some(Timestamp::at(i64::MIN)));
    assert!(b.is_expired(Timestamp::at(i64::MIN)));
}
