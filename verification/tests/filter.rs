use indexmap::IndexMap;
use rail2ban::config::filter::FilterConfig;
use rail2ban::filter::datepattern::{auto_detect, compile, convert, DateDetector, DateKind};
use rail2ban::filter::pattern::{group_at, group_named};
use rail2ban::filter::tags::{compile_tags, referenced_tags, FTag};
use rail2ban::filter::tally::Tally;
use rail2ban::filter::{compile_pattern, parse_ip, CompiledFilter, LineBuffer};
use rail2ban::ip::IpAddr;
use rail2ban::time::Timestamp;
use regex::Regex;

fn filter(failregex: &[&str], ignoreregex: &[&str], prefregex: Option<&str>) -> CompiledFilter {
    let cfg = FilterConfig {
        name: "test".to_string(),
        prefregex: prefregex.map(|s| s.to_string()),
        failregex: failregex.iter().map(|s| s.to_string()).collect(),
        ignoreregex: ignoreregex.iter().map(|s| s.to_string()).collect(),
        datepattern: None,
        maxlines: 1,
        logtype: "file".to_string(),
        journalmatch: vec![],
        init: IndexMap::new(),
    };
    CompiledFilter::compile(cfg).unwrap()
}

/// The moment of a date in the notation of RFC 3339.
fn moment(s: &str) -> Timestamp {
    let t = chrono::DateTime::parse_from_rfc3339(s).unwrap();
    Timestamp::at(t.timestamp())
}

#[test]
fn detects_iso8601() {
    let line = "2026-07-21T12:34:56Z Failed password from 1.2.3.4";
    let d = DateDetector::new().unwrap();
    let (_, ts, _) = auto_detect(line, &d, 2026).unwrap();
    assert_eq!(ts, moment("2026-07-21T12:34:56+00:00"));
}

#[test]
fn detects_epoch() {
    let line = "1753108496 something happened";
    let d = DateDetector::new().unwrap();
    let (_, ts, _) = auto_detect(line, &d, 2026).unwrap();
    assert_eq!(ts.secs, 1753108496);
}

#[test]
fn detects_syslog() {
    let line = "Jul 21 12:34:56 server sshd[123]: Failed password";
    let d = DateDetector::new().unwrap();
    let r = auto_detect(line, &d, 2026);
    assert!(r.is_some(), "should detect syslog date");
}

#[test]
fn compiles_strftime() {
    let m = compile("%Y-%m-%d %H:%M:%S").unwrap();
    let caps = m.regex.captures("2026-07-21 12:34:56 hello").unwrap();
    let raw = group_at(&caps, 1).unwrap();
    assert_eq!(raw, "2026-07-21 12:34:56");
    let ts = convert(raw, m.kind, 2026).unwrap();
    assert_eq!(ts, moment("2026-07-21T12:34:56+00:00"));
}

#[test]
fn compiles_epoch() {
    let m = compile("Epoch").unwrap();
    let caps = m.regex.captures("1753108496 hi").unwrap();
    assert_eq!(group_at(&caps, 1).unwrap(), "1753108496");
}

#[test]
fn line_buffer_evicts_oldest() {
    let mut b = LineBuffer::new(2);
    b.push("a".to_string());
    b.push("b".to_string());
    b.push("c".to_string());
    assert_eq!(b.joined(), "b\nc");
    assert_eq!(b.len(), 2);
}

#[test]
fn line_buffer_clear() {
    let mut b = LineBuffer::new(3);
    b.push("a".to_string());
    b.clear();
    assert!(b.is_empty());
}

#[test]
fn process_buffered_multiline_match() {
    let cfg = FilterConfig {
        name: "test".to_string(),
        prefregex: None,
        failregex: vec!["connection from <HOST> failed\n.*again".to_string()],
        ignoreregex: vec![],
        datepattern: None,
        maxlines: 2,
        logtype: "file".to_string(),
        journalmatch: vec![],
        init: IndexMap::new(),
    };
    let f = CompiledFilter::compile(cfg).unwrap();
    let mut buf = LineBuffer::new(2);
    assert!(f
        .process_buffered(&mut buf, "connection from 1.2.3.4 failed", 2026)
        .unwrap()
        .is_none());
    let r = f.process_buffered(&mut buf, "again", 2026).unwrap().expect("should match");
    assert_eq!(r.host, "1.2.3.4");
    assert!(buf.is_empty(), "buffer cleared after match");
}

#[test]
fn expands_host() {
    let c = compile_tags("Failed password from <HOST>").unwrap();
    assert!(c.pattern.contains("(?P<host>"));
    assert!(c.tags.contains(&FTag::Host));
}

#[test]
fn expands_fuser() {
    let c = compile_tags(r"user <F-USER>\w+</F-USER>").unwrap();
    assert!(c.pattern.contains("(?P<user>\\w+)"));
    assert!(c.tags.contains(&FTag::FUser));
}

#[test]
fn expands_nested_tags() {
    let c =
        compile_tags("<F-NOFAIL><F-MLFFORGET>Disconnected</F-MLFFORGET></F-NOFAIL>").unwrap();
    assert!(c.pattern.contains("(?P<nofail>"));
    assert!(c.pattern.contains("(?P<mlfforget>"));
}

#[test]
fn compiles_to_valid_regex() {
    let c = compile_tags(r"^Failed \S+ for invalid user \S+ from <HOST> port \d+").unwrap();
    Regex::new(&c.pattern).unwrap();
}

#[test]
fn matches_real_line() {
    let c =
        compile_tags(r"^Failed password for invalid user admin from <HOST> port 12345").unwrap();
    let r = Regex::new(&c.pattern).unwrap();
    let caps = r
        .captures("Failed password for invalid user admin from 192.0.2.10 port 12345")
        .unwrap();
    assert_eq!(caps.name("host").unwrap().as_str(), "192.0.2.10");
}

#[test]
fn handles_ipv6_mapped_ipv4() {
    let c = compile_tags(r"from <HOST>").unwrap();
    let r = Regex::new(&c.pattern).unwrap();
    let caps = r.captures("from ::ffff:192.0.2.10").unwrap();
    assert_eq!(caps.name("host").unwrap().as_str(), "::ffff:192.0.2.10");
}

#[test]
fn tags_have_to_be_closed() {
    assert_eq!(
        compile_tags("<F-USER>x").unwrap_err().message(),
        "regex error: missing closing </F-USER>"
    );
    assert_eq!(compile_tags("a < b").unwrap_err().message(), "regex error: unterminated tag");
    assert_eq!(compile_tags("<other>").unwrap().pattern, "<other>");
    assert_eq!(compile_tags("plain").unwrap().pattern, "plain");
    assert_eq!(FTag::FMlfid.name(), "MLFID");
}

#[test]
fn a_pattern_finds_named_groups() {
    let p = compile_pattern("from <HOST> as <F-USER>\\w+</F-USER>").unwrap();
    let g = p.captures("login from 10.0.0.1 as root").unwrap();
    assert_eq!(group_named(&g, "host"), Some("10.0.0.1"));
    assert_eq!(group_named(&g, "user"), Some("root"));
    assert_eq!(group_named(&g, "alt_user"), None);
    assert!(p.captures("nothing").is_none());
    assert!(compile_pattern("(").is_err());
}

#[test]
fn a_line_tells_who_failed() {
    let f = filter(&["^Failed password for <F-USER>\\w+</F-USER> from <HOST>$"], &[], None);
    let m = f
        .process_line("2026-07-21T12:34:56Z Failed password for root from 192.0.2.10", 2026)
        .unwrap()
        .unwrap();
    assert_eq!(m.host, "192.0.2.10");
    assert_eq!(m.ip, IpAddr::parse("192.0.2.10"));
    assert_eq!(m.user.as_deref(), Some("root"));
    assert_eq!(m.timestamp, Some(moment("2026-07-21T12:34:56+00:00")));
    assert!(!m.nofail);
    assert_eq!(m.regex_index, 0);
}

#[test]
fn an_ignored_line_tells_nothing() {
    let f = filter(&["from <HOST>"], &["from 10\\."], None);
    assert!(f.process_line("from 10.0.0.1", 2026).unwrap().is_none());
    assert!(f.process_line("from 11.0.0.1", 2026).unwrap().is_some());
}

#[test]
fn a_line_has_to_match_first() {
    let f = filter(&["from <HOST>"], &[], Some("^sshd: <F-CONTENT>.+</F-CONTENT>$"));
    assert!(f.process_line("ftpd: from 10.0.0.1", 2026).unwrap().is_none());
    assert_eq!(f.process_line("sshd: from 10.0.0.1", 2026).unwrap().unwrap().host, "10.0.0.1");
}

#[test]
fn the_second_pattern_can_match() {
    let f = filter(&["never <HOST>", "from <HOST>"], &[], None);
    let m = f.process_line("from 10.0.0.1", 2026).unwrap().unwrap();
    assert_eq!(m.regex_index, 1);
}

#[test]
fn a_mapped_address_is_an_ipv4_address() {
    assert_eq!(parse_ip("::ffff:192.0.2.10"), IpAddr::parse("192.0.2.10"));
    assert_eq!(parse_ip("2001:db8::1"), IpAddr::parse("2001:db8::1"));
    assert_eq!(parse_ip("host.example"), None);
}

#[test]
fn a_doubled_percent_is_one() {
    let m = compile("%%Y-%%m-%%d").unwrap();
    let caps = m.regex.captures("on 2026-07-21 it rained").unwrap();
    assert_eq!(group_at(&caps, 1), Some("2026-07-21"));
    assert_eq!(convert("2026-07-21", m.kind, 2026), None, "a day is no moment");
}

#[test]
fn a_date_without_a_year_is_of_this_year() {
    let d = DateDetector::new().unwrap();
    let (raw, ts, _) = auto_detect("Jul 21 12:34:56 server", &d, 2025).unwrap();
    assert_eq!(raw, "Jul 21 12:34:56");
    assert_eq!(ts, moment("2025-07-21T12:34:56Z"));
    assert!(auto_detect("no date here", &d, 2025).is_none());
}

#[test]
fn a_tally_counts_lines_and_hosts() {
    let mut t = Tally::new();
    t.note("", Some("x"));
    t.note("a", None);
    t.note("b", Some("10.0.0.2"));
    t.note("c", Some("10.0.0.1"));
    t.note("d", Some("10.0.0.2"));
    assert_eq!(
        t.report(),
        vec!["", "Lines: total=4, matched=3", "Unique hosts: 2", "  10.0.0.1", "  10.0.0.2"]
    );
    assert_eq!(Tally::show_line("b", Some("h")), "[OK] host=h line=b");
    assert_eq!(Tally::show_line("b", None), "[--] b");
}

#[test]
fn moments_have_bounds() {
    let at = |raw: &str| convert(raw, DateKind::EpochSecs, 2026);
    assert_eq!(at("8210266876799"), Some(Timestamp::at(8210266876799)));
    assert_eq!(at("8210266876800"), None);
    assert_eq!(at("-8334601228800"), Some(Timestamp::at(-8334601228800)));
    assert_eq!(at("-8334601228801"), None);
    assert_eq!(at("soon"), None);
    let ms = convert("-1500", DateKind::EpochMillis, 2026).unwrap();
    assert_eq!((ms.secs, ms.nanos), (-2, 500_000_000));
    let us = convert("1500000", DateKind::EpochMicros, 2026).unwrap();
    assert_eq!((us.secs, us.nanos), (1, 500_000_000));
    assert_eq!(convert("-1", DateKind::EpochMicros, 2026), None);
    assert_eq!(convert("x", DateKind::Tai64n, 2026), None);
}

#[test]
fn tags_are_listed() {
    let tags = referenced_tags("<F-USER>\\w+</F-USER> from <HOST>");
    assert!(tags.contains(&FTag::Host));
    assert!(tags.contains(&FTag::FUser));
    assert!(referenced_tags("plain").is_empty());
}

#[test]
fn a_host_is_an_address_or_a_name() {
    let c = compile_tags(r"from <HOST>(?: port \d+)?$").unwrap();
    let r = Regex::new(&c.pattern).unwrap();
    for host in [
        "192.0.2.10",
        "2001:db8::1",
        "2001:db8:0:0:0:0:2:1",
        "::1",
        "fe80::",
        "64:ff9b::192.0.2.33",
        "::ffff:192.0.2.10",
        "host-1.example.org",
    ] {
        for line in [format!("from {host}"), format!("from {host} port 22")] {
            let caps = r.captures(&line).unwrap();
            assert_eq!(caps.name("host").unwrap().as_str(), host);
        }
    }
    let c = compile_tags(r"from <HOST>:\d+$").unwrap();
    let r = Regex::new(&c.pattern).unwrap();
    assert_eq!(r.captures("from 10.0.0.1:22").unwrap().name("host").unwrap().as_str(), "10.0.0.1");
    let f = filter(&["from <HOST>$"], &[], None);
    let m = f.process_line("from 2001:db8::1", 2026).unwrap().unwrap();
    assert_eq!(m.ip, IpAddr::parse("2001:db8::1"));
}

#[test]
fn groups_that_make_no_address_are_no_host() {
    let c = compile_tags("from <HOST>").unwrap();
    let r = Regex::new(&c.pattern).unwrap();
    let host = |s: &str| {
        r.captures(&format!("from {s}")).map(|c| c.name("host").unwrap().as_str().to_string())
    };
    for (given, found) in [
        ("12:34:56", "12"),
        ("00:11:22:33:44:55", "00"),
        ("1:2:3:4:5:6:7", "1"),
        ("1:2:3:4:5:6:7::8", "1"),
        ("dead:beef", "dead"),
        ("12::xyz", "12"),
        ("12::1xyz", "12"),
        ("192.0.2.10:22", "192.0.2.10"),
        ("host.example:22", "host.example"),
        ("2001:db8::1: closed", "2001:db8::1"),
        ("1:2:3:4:5:6:7:8 port", "1:2:3:4:5:6:7:8"),
        ("1:2:3:4:5:6:7:: port", "1:2:3:4:5:6:7::"),
        ("1:2:3:4:5:6:192.0.2.33", "1:2:3:4:5:6:192.0.2.33"),
        ("1:2::3:4:5:192.0.2.33", "1:2::3:4:5:192.0.2.33"),
        ("::192.0.2.33", "::192.0.2.33"),
        ("::2:3:4:5:6:7:8", "::2:3:4:5:6:7:8"),
        ("1::3:4:5:6:7:8", "1::3:4:5:6:7:8"),
        ("fe80::", "fe80::"),
        ("::", "::"),
    ] {
        assert_eq!(host(given).as_deref(), Some(found), "{given}");
    }
    assert_eq!(host(":1"), None);
}
