use indexmap::IndexMap;
use rail2ban::config::action::ActionDefinition;
use rail2ban::config::dump::dump;
use rail2ban::config::files::{FileSet, SourceFile, Stop};
use rail2ban::config::filter::FilterDefinition;
use rail2ban::config::interpolator::{interpolate, InterpolationContext};
use rail2ban::config::jail::{parse_bool, parse_filter_spec, JailConfig};
use rail2ban::config::loader::{
    action_name, action_params, ConfigLoader, DirListing, DirSet, LoadedConfig,
};
use rail2ban::config::parser::{parse_ini, strip_inline_comment, IniDocument, IniSection};
use rail2ban::error::Error;

fn table() -> IndexMap<String, String> {
    IndexMap::new()
}

fn make_ctx<'a>(
    doc: &'a IniDocument,
    defaults: &'a IndexMap<String, String>,
    builtins: &'a IndexMap<String, String>,
    current_section: Option<&'a str>,
    init: &'a IndexMap<String, String>,
    known: &'a IndexMap<String, String>,
) -> InterpolationContext<'a> {
    InterpolationContext {
        doc,
        defaults,
        builtins,
        current_section: current_section.map(|s| s.to_string()),
        init,
        known,
    }
}

fn file(path: &str, content: &str) -> SourceFile {
    let parent = path.rsplit_once('/').map(|p| p.0.to_string());
    SourceFile {
        path: path.to_string(),
        canonical: path.to_string(),
        parent,
        exists: true,
        content: Ok(content.to_string()),
    }
}

fn missing(path: &str) -> SourceFile {
    let parent = path.rsplit_once('/').map(|p| p.0.to_string());
    SourceFile {
        path: path.to_string(),
        canonical: path.to_string(),
        parent,
        exists: false,
        content: Err("no such file".to_string()),
    }
}

/// Asks again until nothing is missing any more: what is not in `disk` is not
/// there.
fn load_all(dirs: &[&str], disk: &[(&str, &str)]) -> Result<LoadedConfig, Error> {
    let loader = ConfigLoader::new(dirs.iter().map(|d| d.to_string()).collect());
    let mut files = FileSet::new();
    let mut lists = DirSet::new();
    let builtins = rail2ban::config::builtin_defaults(Some("host"));
    loop {
        match loader.load(&builtins, &files, &lists) {
            Ok(c) => return Ok(c),
            Err(Stop::Failed(e)) => return Err(e),
            Err(Stop::Need(p)) => match disk.iter().find(|f| f.0 == p) {
                Some(f) => files.add_file(file(&p, f.1)),
                None => files.add_file(missing(&p)),
            },
            Err(Stop::NeedDir(p)) => {
                let start = format!("{p}/");
                let names: Vec<String> = disk
                    .iter()
                    .filter_map(|f| f.0.strip_prefix(&start))
                    .filter(|n| !n.contains('/'))
                    .map(|n| n.to_string())
                    .collect();
                lists.add_dir(DirListing {
                    path: p,
                    names: if names.is_empty() { None } else { Some(names) },
                });
            }
        }
    }
}

#[test]
fn rejects_missing_filter() {
    let r = FilterDefinition::load("does-not-exist", &vec![], &FileSet::new());
    assert!(r.is_err());
}

#[test]
fn interpolates_simple() {
    let mut doc = IniDocument::new();
    let mut sec = IniSection::default();
    sec.name = "s".to_string();
    sec.set("name", "world");
    sec.set("greeting", "hello %(name)s");
    doc.sections.push(sec);

    let defaults = table();
    let builtins = table();
    let init = table();
    let known = table();
    let ctx = make_ctx(&doc, &defaults, &builtins, Some("s"), &init, &known);

    let r = interpolate("greeting=%(name)s", &ctx).unwrap();
    assert_eq!(r, "greeting=world");
}

#[test]
fn interpolates_default() {
    let doc = IniDocument::new();
    let mut defaults = table();
    defaults.insert("port".to_string(), "ssh".to_string());
    let builtins = table();
    let init = table();
    let known = table();
    let ctx = make_ctx(&doc, &defaults, &builtins, None, &init, &known);

    let r = interpolate("port=%(default/port)s", &ctx).unwrap();
    assert_eq!(r, "port=ssh");
}

#[test]
fn interpolates_cross_section() {
    let mut doc = IniDocument::new();
    let mut sec_a = IniSection::default();
    sec_a.name = "a".to_string();
    sec_a.set("v", "from-a");
    doc.sections.push(sec_a);
    let mut sec_b = IniSection::default();
    sec_b.name = "b".to_string();
    sec_b.set("ref", "%(a/v)s");
    doc.sections.push(sec_b);

    let defaults = table();
    let builtins = table();
    let init = table();
    let known = table();
    let ctx = make_ctx(&doc, &defaults, &builtins, Some("b"), &init, &known);

    let r = interpolate("%(a/v)s", &ctx).unwrap();
    assert_eq!(r, "from-a");
}

#[test]
fn interpolates_known_tag() {
    let doc = IniDocument::new();
    let defaults = table();
    let builtins = table();
    let mut init = table();
    init.insert("agent".to_string(), "IE|wget".to_string());
    let known = table();
    let ctx = make_ctx(&doc, &defaults, &builtins, None, &init, &known);

    let r = interpolate("agents=<known/agent>", &ctx).unwrap();
    assert_eq!(r, "agents=IE|wget");
}

#[test]
fn interpolates_dynamic_logtype() {
    let mut doc = IniDocument::new();
    let mut lt_file = IniSection::default();
    lt_file.name = "lt_file".to_string();
    lt_file.set("__prefix_line", "FILE_PREFIX");
    doc.sections.push(lt_file);
    let mut lt_journal = IniSection::default();
    lt_journal.name = "lt_journal".to_string();
    lt_journal.set("__prefix_line", "JOURNAL_PREFIX");
    doc.sections.push(lt_journal);

    let defaults = table();
    let builtins = table();
    let mut init = table();
    init.insert("logtype".to_string(), "journal".to_string());
    let known = table();
    let ctx = make_ctx(&doc, &defaults, &builtins, None, &init, &known);

    let r = interpolate("<lt_<logtype>/__prefix_line>", &ctx).unwrap();
    assert_eq!(r, "JOURNAL_PREFIX");
}

#[test]
fn escapes_percent() {
    let doc = IniDocument::new();
    let defaults = table();
    let builtins = table();
    let init = table();
    let known = table();
    let ctx = make_ctx(&doc, &defaults, &builtins, None, &init, &known);

    let r = interpolate("100%% done", &ctx).unwrap();
    assert_eq!(r, "100% done");
}

#[test]
fn detects_recursion() {
    let mut doc = IniDocument::new();
    let mut sec = IniSection::default();
    sec.name = "s".to_string();
    sec.set("a", "%(b)s");
    sec.set("b", "%(a)s");
    doc.sections.push(sec);

    let defaults = table();
    let builtins = table();
    let init = table();
    let known = table();
    let ctx = make_ctx(&doc, &defaults, &builtins, Some("s"), &init, &known);

    assert!(interpolate("%(a)s", &ctx).is_err());
}

#[test]
fn parses_filter_spec_simple() {
    let (n, p) = parse_filter_spec("sshd").unwrap();
    assert_eq!(n, "sshd");
    assert!(p.is_empty());
}

#[test]
fn parses_filter_spec_params() {
    let (n, p) = parse_filter_spec("sshd[mode=normal, sig=\"6\"]").unwrap();
    assert_eq!(n, "sshd");
    assert_eq!(p.get("mode").unwrap(), "normal");
    assert_eq!(p.get("sig").unwrap(), "6");
}

#[test]
fn builds_from_section() {
    let mut sec = IniSection::default();
    sec.name = "sshd".to_string();
    sec.set("enabled", "true");
    sec.set("filter", "sshd");
    sec.set("logpath", "/var/log/auth.log");
    sec.set("maxretry", "3");
    sec.set("bantime", "1h");
    sec.set("findtime", "10m");

    let defaults = table();
    let j = match JailConfig::from_section("sshd", &sec, &defaults, &FileSet::new()) {
        Ok(j) => j,
        Err(_) => panic!("the section is valid"),
    };
    assert!(j.enabled);
    assert_eq!(j.filter, "sshd");
    assert_eq!(j.logpath, vec!["/var/log/auth.log"]);
    assert_eq!(j.maxretry, 3);
    assert_eq!(j.bantime.seconds, Some(3600));
    assert_eq!(j.findtime.seconds, Some(600));
}

#[test]
fn parses_bool() {
    assert!(parse_bool("yes").unwrap());
    assert!(parse_bool("on").unwrap());
    assert!(parse_bool("1").unwrap());
    assert!(!parse_bool("no").unwrap());
    assert!(parse_bool("invalid").is_err());
}

#[test]
fn action_name_simple() {
    assert_eq!(action_name("iptables-multiport"), "iptables-multiport");
}

#[test]
fn action_name_with_params() {
    assert_eq!(action_name("iptables-multiport[name=sshd]"), "iptables-multiport");
}

#[test]
fn action_params_parse() {
    let p = action_params("foo[a=1, b=\"x,y\", c=2]").unwrap();
    assert_eq!(p.get("a").unwrap(), "1");
    assert_eq!(p.get("b").unwrap(), "x,y");
    assert_eq!(p.get("c").unwrap(), "2");
}

#[test]
fn parses_simple() {
    let s = "[sshd]\nenabled = true\nport = ssh\nlogpath = /var/log/auth.log\n";
    let doc = parse_ini(s).unwrap();
    let sec = doc.section("sshd").unwrap();
    assert_eq!(sec.get("enabled"), Some("true"));
    assert_eq!(sec.get("port"), Some("ssh"));
    assert_eq!(sec.get("logpath"), Some("/var/log/auth.log"));
}

#[test]
fn parses_multiline() {
    let s = "[d]\nfailregex = ^Failed\n            ^Invalid\n";
    let doc = parse_ini(s).unwrap();
    let sec = doc.section("d").unwrap();
    assert_eq!(sec.get("failregex"), Some("^Failed\n^Invalid"));
}

#[test]
fn strips_inline_comment() {
    assert_eq!(strip_inline_comment("a = b ; c"), "a = b");
    assert_eq!(strip_inline_comment("a = b;c"), "a = b;c");
    assert_eq!(strip_inline_comment("a = b"), "a = b");
}

#[test]
fn merges_docs() {
    let mut a = parse_ini("[s]\nk1 = v1\nk2 = v2\n").unwrap();
    let b = parse_ini("[s]\nk2 = override\nk3 = v3\n").unwrap();
    a.merge(b);
    let s = a.section("s").unwrap();
    assert_eq!(s.get("k1"), Some("v1"));
    assert_eq!(s.get("k2"), Some("override"));
    assert_eq!(s.get("k3"), Some("v3"));
}

#[test]
fn rejects_entry_before_section() {
    let s = "key = value\n[sec]\n";
    assert!(parse_ini(s).is_err());
}

#[test]
fn displays_nicely() {
    let e = Error::config("missing bracket");
    assert_eq!(e.message(), "config error: missing bracket");
}

#[test]
fn every_error_says_what_it_is_about() {
    assert_eq!(Error::regex("r").message(), "regex error: r");
    assert_eq!(Error::other("o").message(), "o");
    assert_eq!(Error::Io("i".to_string()).message(), "io error: i");
    assert_eq!(Error::Database("d".to_string()).message(), "database error: d");
    assert_eq!(Error::Json("j".to_string()).message(), "json error: j");
    assert_eq!(Error::TimeParse("t".to_string()).message(), "time parse error: t");
    assert_eq!(Error::IpParse("p".to_string()).message(), "ip parse error: p");
    assert_eq!(Error::Protocol("p".to_string()).message(), "protocol error: p");
    assert_eq!(Error::Action("a".to_string()).message(), "action error: a");
    assert_eq!(Error::Jail("j".to_string()).message(), "jail error: j");
}

#[test]
fn a_value_that_is_set_is_found() {
    let mut s = IniSection::named("s");
    assert!(s.is_empty());
    s.set("k", "v");
    assert_eq!(s.get("k"), Some("v"));
    assert_eq!(s.get_or("l", "d"), "d");
    s.append("k", "w");
    assert_eq!(s.get("k"), Some("v\nw"));
}

#[test]
fn documented_defaults_of_a_jail() {
    let mut sec = IniSection::named("x");
    sec.set("filter", "x");
    let j = match JailConfig::from_section("x", &sec, &table(), &FileSet::new()) {
        Ok(j) => j,
        Err(_) => panic!("the section is valid"),
    };
    assert!(!j.enabled);
    assert_eq!(j.maxretry, 3);
    assert_eq!(j.findtime.seconds, Some(600));
    assert_eq!(j.bantime.seconds, Some(600));
    assert_eq!(j.usedns, "warn");
    assert!(j.ignoreself);
    assert_eq!(j.maxlines, 1);
    assert_eq!(j.maxmatches, 10);
    assert!(!j.skip_if_nologs);
    assert!(!j.systemd_if_nologs);
    assert_eq!(j.backend, "auto");
}

const SERVER: &str = "[Definition]\nloglevel = DEBUG\ndbmaxmatches = 7\ndbpurgeage = 2h\n";
const JAIL: &str = "[DEFAULT]\nbantime = 1h\nport = ssh\n\n[sshd]\nenabled = true\nfilter = sshd\nlogpath = /var/log/auth.log\naction = ban[port=%(port)s]\n";
const FILTER: &str = "[Definition]\nfailregex = ^Failed password from <HOST>$\n";
const ACTION: &str = "[Definition]\nactionban = fw add <ip> <port>\nactionunban = fw del <ip>\n\n[Init]\nport = any\n";

#[test]
fn a_whole_configuration_is_loaded() {
    let c = load_all(
        &["/etc/r"],
        &[
            ("/etc/r/rail2ban.conf", SERVER),
            ("/etc/r/jail.conf", JAIL),
            ("/etc/r/filter.d/sshd.conf", FILTER),
            ("/etc/r/action.d/ban.conf", ACTION),
        ],
    );
    let c = match c {
        Ok(c) => c,
        Err(e) => panic!("{}", e.message()),
    };
    assert_eq!(c.global.loglevel, "DEBUG");
    assert_eq!(c.global.dbmaxmatches, 7);
    assert_eq!(c.global.dbpurgeage, 7200);
    let j = c.jails.jails.get("sshd").unwrap();
    assert!(j.enabled);
    assert_eq!(j.bantime.seconds, Some(3600));
    assert_eq!(j.actions, vec!["ban[port=ssh]"]);
    assert!(c.filters.get("sshd").is_some());
    assert!(c.actions.get("ban").is_some());
}

#[test]
fn a_configuration_is_shown() {
    let c = load_all(
        &["/etc/r"],
        &[
            ("/etc/r/fail2ban.conf", SERVER),
            ("/etc/r/jail.conf", JAIL),
            ("/etc/r/filter.d/sshd.conf", FILTER),
            ("/etc/r/action.d/ban.conf", ACTION),
        ],
    );
    let c = match c {
        Ok(c) => c,
        Err(e) => panic!("{}", e.message()),
    };
    let lines = dump(&c);
    assert_eq!(lines[0], "[global]");
    assert_eq!(lines[1], "loglevel = DEBUG");
    assert_eq!(lines[6], "[sshd]");
    assert_eq!(lines[7], "enabled = true");
    assert_eq!(lines[12], "bantime = 3600s");
    assert_eq!(lines.len(), 14);
}

#[test]
fn a_local_file_wins_over_a_conf_file() {
    let c = load_all(
        &["/etc/r"],
        &[
            ("/etc/r/jail.conf", JAIL),
            ("/etc/r/jail.local", "[sshd]\nbantime = 2h\n"),
            ("/etc/r/filter.d/sshd.conf", FILTER),
            ("/etc/r/action.d/ban.conf", ACTION),
        ],
    );
    let c = match c {
        Ok(c) => c,
        Err(e) => panic!("{}", e.message()),
    };
    assert_eq!(c.jails.jails.get("sshd").unwrap().bantime.seconds, Some(7200));
}

#[test]
fn a_filter_takes_in_other_files() {
    let mut files = FileSet::new();
    let dirs = vec!["/etc/r".to_string()];
    let disk = [
        ("/etc/r/filter.d/f.conf", "[INCLUDES]\nbefore = common.conf\n\n[Definition]\nfailregex = %(start)s<HOST>\n"),
        ("/etc/r/filter.d/common.conf", "[Definition]\nstart = bad \n[DEFAULT]\nstart = worse\n"),
    ];
    loop {
        match FilterDefinition::load("f", &dirs, &files) {
            Ok(f) => {
                let cfg = f.materialize(&table(), &table(), &table()).unwrap();
                assert_eq!(cfg.failregex, vec!["bad<HOST>"]);
                break;
            }
            Err(Stop::Need(p)) => match disk.iter().find(|f| f.0 == p) {
                Some(f) => files.add_file(file(&p, f.1)),
                None => files.add_file(missing(&p)),
            },
            Err(Stop::NeedDir(_)) => panic!("no directory is needed"),
            Err(Stop::Failed(e)) => panic!("{}", e.message()),
        }
    }
}

#[test]
fn files_that_take_in_each_other_are_an_error() {
    let mut files = FileSet::new();
    let dirs = vec!["/etc/r".to_string()];
    let disk = [
        ("/etc/r/filter.d/f.conf", "[INCLUDES]\nbefore = g.conf\n"),
        ("/etc/r/filter.d/g.conf", "[INCLUDES]\nbefore = f.conf\n"),
    ];
    loop {
        match FilterDefinition::load("f", &dirs, &files) {
            Ok(_) => panic!("there is a cycle"),
            Err(Stop::Need(p)) => match disk.iter().find(|f| f.0 == p) {
                Some(f) => files.add_file(file(&p, f.1)),
                None => files.add_file(missing(&p)),
            },
            Err(Stop::NeedDir(_)) => panic!("no directory is needed"),
            Err(Stop::Failed(e)) => {
                assert!(e.message().starts_with("config error: "));
                break;
            }
        }
    }
}

#[test]
fn an_action_depends_on_the_family() {
    let mut files = FileSet::new();
    let dirs = vec!["/etc/r".to_string()];
    files.add_file(file(
        "/etc/r/action.d/a.conf",
        "[Definition]\nactionban = <tool> <ip>\n\n[Init]\ntool = ipt\ntimeout = 5\n\n[Init?family=inet6]\ntool = ip6t\n",
    ));
    files.add_file(missing("/etc/r/action.d/a.local"));
    let def = match ActionDefinition::load("a", &dirs, &files) {
        Ok(d) => d,
        Err(Stop::Need(p)) => panic!("{p}"),
        Err(_) => panic!("the action is valid"),
    };
    let four = def.materialize(&table(), &table(), &table(), Some("inet4")).unwrap();
    let six = def.materialize(&table(), &table(), &table(), Some("inet6")).unwrap();
    assert_eq!(four.init.get("tool").unwrap(), "ipt");
    assert_eq!(six.init.get("tool").unwrap(), "ip6t");
    assert_eq!(four.timeout, 5);
}

#[test]
fn a_filter_without_a_definition_is_an_error() {
    let mut files = FileSet::new();
    let dirs = vec!["/etc/r".to_string()];
    files.add_file(file("/etc/r/filter.d/f.conf", "[Init]\na = b\n"));
    files.add_file(missing("/etc/r/filter.d/f.local"));
    let def = match FilterDefinition::load("f", &dirs, &files) {
        Ok(d) => d,
        Err(Stop::Need(p)) => panic!("{p}"),
        Err(_) => panic!("the file is there"),
    };
    let e = def.materialize(&table(), &table(), &table()).unwrap_err();
    assert_eq!(e.message(), "config error: filter f missing [Definition]");
}

#[test]
fn a_bad_time_in_a_jail_is_an_error() {
    let e = load_all(
        &["/etc/r"],
        &[("/etc/r/jail.conf", "[x]\nenabled = true\nfilter = x\nbantime = soon\n")],
    );
    assert!(e.is_err());
}

#[test]
fn a_jail_inherits_what_it_does_not_set() {
    let c = load_all(
        &["/etc/r"],
        &[
            ("/etc/r/jail.conf", "[DEFAULT]\nbantime = 1h\nmaxretry = 9\nport = ssh\n[a]\nbantime = %(bantime)s\nmaxretry = 4\nlogpath = /var/%(port)s.log\n"),
        ],
    );
    let c = match c {
        Ok(c) => c,
        Err(e) => panic!("{}", e.message()),
    };
    let j = c.jails.jails.get("a").unwrap();
    assert_eq!(j.name, "a");
    assert_eq!(j.bantime.seconds, Some(3600));
    assert_eq!(j.maxretry, 4);
    assert_eq!(j.logpath, vec!["/var/ssh.log"]);
    assert_eq!(j.findtime.seconds, Some(600));
}

#[test]
fn a_section_can_be_changed_in_place() {
    let mut doc = parse_ini("[a]\nk = v\n").unwrap();
    doc.section_mut("a").unwrap().set("k", "w");
    assert_eq!(doc.section("a").unwrap().get("k"), Some("w"));
    assert!(doc.section_mut("b").is_none());
}

#[test]
fn an_indented_line_with_a_key_of_its_own_is_no_continuation() {
    let doc = parse_ini("[d]\na = 1\n  b = 2\n").unwrap();
    let d = doc.section("d").unwrap();
    assert_eq!(d.get("a"), Some("1"));
    assert_eq!(d.get("b"), Some("2"));
    let doc = parse_ini("[d]\na = 1\n\tbantime.factor=2\n  more\n").unwrap();
    let d = doc.section("d").unwrap();
    assert_eq!(d.get("a"), Some("1"));
    assert_eq!(d.get("bantime.factor"), Some("2\nmore"));
}

#[test]
fn an_equals_sign_alone_makes_no_key() {
    let s = "[d]\naction = a[x=y]\n         b[z=w]\nfailregex = ^one <HOST>$\n            ^pam: rhost=<HOST>$\n            = odd\n";
    let doc = parse_ini(s).unwrap();
    let d = doc.section("d").unwrap();
    assert_eq!(d.get("action"), Some("a[x=y]\nb[z=w]"));
    assert_eq!(d.get("failregex"), Some("^one <HOST>$\n^pam: rhost=<HOST>$\n= odd"));
}

#[test]
fn journal_matches_are_separated_by_plus() {
    let mut sec = IniSection::named("x");
    sec.set("filter", "x");
    sec.set("journalmatch", "_SYSTEMD_UNIT=sshd.service _COMM=sshd + _COMM=login +");
    let j = match JailConfig::from_section("x", &sec, &table(), &FileSet::new()) {
        Ok(j) => j,
        Err(_) => panic!("the section is valid"),
    };
    assert_eq!(j.journalmatch, vec!["_SYSTEMD_UNIT=sshd.service _COMM=sshd", "_COMM=login"]);
}

#[test]
fn a_bad_factor_is_reported_under_its_key() {
    for key in ["bantime_factor", "bantime.factor"] {
        let mut sec = IniSection::named("x");
        sec.set("filter", "x");
        sec.set(key, "many");
        match JailConfig::from_section("x", &sec, &table(), &FileSet::new()) {
            Err(Stop::Failed(e)) => {
                let m = format!("config error: {key}: invalid digit found in string");
                assert_eq!(e.message(), m);
            }
            _ => panic!("the factor is no number"),
        }
    }
    let mut sec = IniSection::named("x");
    sec.set("filter", "x");
    sec.set("bantime.factor", "4");
    match JailConfig::from_section("x", &sec, &table(), &FileSet::new()) {
        Ok(j) => assert_eq!(j.bantime_factor, 4),
        Err(_) => panic!("the section is valid"),
    }
}

#[test]
fn a_default_counts_when_the_section_lacks_the_key() {
    let mut sec = IniSection::named("x");
    sec.set("filter", "x");
    sec.set("bantime", "1h");
    sec.set("protocol", "tcp");
    let mut defaults = table();
    defaults.insert("bantime".to_string(), "2h".to_string());
    defaults.insert("findtime".to_string(), "5m".to_string());
    defaults.insert("protocol".to_string(), "any".to_string());
    defaults.insert("chain".to_string(), "INPUT".to_string());
    let mut filled = IniSection::named("x");
    for (k, v) in [
        ("filter", "x"),
        ("bantime", "1h"),
        ("protocol", "tcp"),
        ("findtime", "5m"),
        ("chain", "INPUT"),
    ] {
        filled.set(k, v);
    }
    let files = FileSet::new();
    let a = JailConfig::from_section("x", &sec, &defaults, &files).ok().unwrap();
    let b = JailConfig::from_section("x", &filled, &table(), &files).ok().unwrap();
    assert_eq!(format!("{a:?}"), format!("{b:?}"));
    assert_eq!(a.bantime.seconds, Some(3600));
    assert_eq!(a.findtime.seconds, Some(300));
    let extra: Vec<(&str, &str)> = a.extra.iter().map(|(k, v)| (k.as_str(), v.as_str())).collect();
    assert_eq!(extra, vec![("protocol", "tcp"), ("chain", "INPUT")]);
}
