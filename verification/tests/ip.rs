use rail2ban::config::files::{FileSet, SourceFile, Stop};
use rail2ban::ip::{family_of, family_of_or_default, IgnoreEntry, IgnoreList, IpAddr, IpFamily, IpNet};

fn addr(s: &str) -> IpAddr {
    IpAddr::parse(s).unwrap()
}

#[test]
fn parses_ipv4_cidr() {
    let e = IgnoreEntry::parse("192.0.2.0/24").unwrap();
    assert!(matches!(e, IgnoreEntry::Net(_)));
    assert!(e.matches(&addr("192.0.2.10")));
    assert!(!e.matches(&addr("192.0.3.10")));
}

#[test]
fn parses_ipv6() {
    let e = IgnoreEntry::parse("::1").unwrap();
    assert!(matches!(e, IgnoreEntry::Ip(_)));
    assert!(e.matches(&addr("::1")));
}

#[test]
fn parses_raw() {
    let e = IgnoreEntry::parse("publickey:abc").unwrap();
    assert!(matches!(e, IgnoreEntry::Raw(_)));
}

#[test]
fn parses_list() {
    let l = match IgnoreList::parse("127.0.0.1/8 192.0.2.1", &FileSet::new()) {
        Ok(l) => l,
        Err(_) => panic!("the list is valid"),
    };
    assert_eq!(l.len(), 2);
    assert!(l.matches_ip(&addr("127.0.0.1")));
    assert!(l.matches_ip(&addr("192.0.2.1")));
}

#[test]
fn addresses_are_read_as_std_reads_them() {
    let texts = [
        "0.0.0.0", "255.255.255.255", "192.0.2.10", "256.0.0.1", "01.2.3.4", "1.2.3", "1.2.3.4.5",
        "", "::", "::1", "1::", "2001:db8::1", "2001:db8:0:0:1:0:0:1", "::ffff:192.0.2.128",
        "1:2:3:4:5:6:7:8", "1:2:3:4:5:6:7::", "::2:3:4:5:6:7:8", "1:2:3:4:5:6:7:8:9", "12345::",
        "g::", "1::2::3", ":::", "1:2:3:4:5:6:1.2.3.4", "fe80::1", "::1.2.3.4", "1.2.3.4::",
    ];
    for s in texts {
        let ours = IpAddr::parse(s);
        let theirs = s.parse::<core::net::IpAddr>();
        match (ours, theirs) {
            (Some(IpAddr::V4(n)), Ok(core::net::IpAddr::V4(a))) => assert_eq!(n, u32::from(a)),
            (Some(IpAddr::V6(n)), Ok(core::net::IpAddr::V6(a))) => assert_eq!(n, u128::from(a)),
            (None, Err(_)) => {}
            _ => panic!("{s}"),
        }
    }
}

#[test]
fn addresses_are_written_as_std_writes_them() {
    let texts = [
        "192.0.2.10", "::", "::1", "1::", "2001:db8::1", "2001:db8:0:0:1:0:0:1",
        "::ffff:192.0.2.128", "1:2:3:4:5:6:7:8", "1:0:0:2:0:0:0:3", "fe80::1:0", "1:0:2:0:3:0:4:0",
    ];
    for s in texts {
        let theirs = s.parse::<core::net::IpAddr>().unwrap().to_string();
        assert_eq!(addr(s).show(), theirs);
        assert_eq!(addr(&theirs), addr(s));
    }
}

#[test]
fn a_network_contains_its_address() {
    let n = IpNet::parse("10.1.2.3/8").unwrap();
    assert!(n.contains(&addr("10.1.2.3")));
    assert!(n.contains(&addr("10.255.0.1")));
    assert!(!n.contains(&addr("11.1.2.3")));
    assert!(!n.contains(&addr("::1")));
    let m = IpNet::parse("2001:db8::/32").unwrap();
    assert!(m.contains(&addr("2001:db8:1::5")));
    assert!(!m.contains(&addr("2001:db9::5")));
    assert!(!m.contains(&addr("10.1.2.3")));
    assert!(IpNet::parse("0.0.0.0/0").unwrap().contains(&addr("8.8.8.8")));
    assert!(IpNet::parse("10.0.0.0/33").is_none());
}

#[test]
fn entries_are_shown() {
    assert_eq!(IgnoreEntry::parse("10.1.2.3/8").unwrap().show(), "10.1.2.3/8");
    assert_eq!(IgnoreEntry::parse("2001:db8::/32").unwrap().show(), "2001:db8::/32");
    assert_eq!(IgnoreEntry::parse("0:0:0:0:0:0:0:1").unwrap().show(), "::1");
    assert_eq!(IgnoreEntry::parse("key").unwrap().show(), "key");
}

#[test]
fn an_empty_entry_is_an_error() {
    let e = IgnoreEntry::parse("   ").unwrap_err();
    assert!(e.message().starts_with("ip parse error: "));
}

#[test]
fn raw_entries_match_raw_only() {
    let e = IgnoreEntry::parse("publickey:abc").unwrap();
    assert!(e.matches_raw("publickey:abc"));
    assert!(!e.matches_raw("publickey:abd"));
    assert!(!e.matches(&addr("1.2.3.4")));
}

#[test]
fn a_list_asks_for_the_file_it_names() {
    let mut files = FileSet::new();
    match IgnoreList::parse("file:/etc/ignore.txt", &files) {
        Err(Stop::Need(p)) => assert_eq!(p, "/etc/ignore.txt"),
        _ => panic!("the file has to be read first"),
    }
    files.add_file(SourceFile {
        path: "/etc/ignore.txt".to_string(),
        canonical: "/etc/ignore.txt".to_string(),
        parent: Some("/etc".to_string()),
        exists: true,
        content: Ok("# comment\n10.0.0.0/8\n\n192.0.2.1\n".to_string()),
    });
    let l = match IgnoreList::parse("file:/etc/ignore.txt", &files) {
        Ok(l) => l,
        Err(_) => panic!("the file is there"),
    };
    assert_eq!(l.len(), 2);
    assert!(l.matches_ip(&addr("10.9.8.7")));
    assert!(l.matches_ip(&addr("192.0.2.1")));
    assert!(!l.is_empty());
}

#[test]
fn families_have_names() {
    assert_eq!(family_of(addr("1.2.3.4")), IpFamily::Inet4);
    assert_eq!(family_of(addr("::1")), IpFamily::Inet6);
    assert_eq!(family_of_or_default("no address"), IpFamily::Inet4);
    assert_eq!(family_of_or_default("::1").as_str(), "inet6");
    assert_eq!(IpFamily::Inet4.as_str(), "inet4");
}
