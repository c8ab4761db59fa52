use rail2ban::backend::file::{FileBackend, Watched};
use rail2ban::backend::journal::JournalBackend;
use rail2ban::backend::log_line;
use rail2ban::backend::poll::{FileState, PollBackend};
use rail2ban::protocol::{
    invalid_request, request_line, response_line, Payload, Request, Response, DEFAULT_SOCKET,
    DEFAULT_TIMEOUT_SECS,
};

#[test]
fn requests_hold_their_words() {
    let r = Request::new(vec!["status".to_string(), "sshd".to_string()]);
    assert_eq!(r.args, vec!["status", "sshd"]);
    assert_eq!(DEFAULT_SOCKET, "/var/run/rail2ban/rail2ban.sock");
    assert_eq!(DEFAULT_TIMEOUT_SECS, 30);
}

#[test]
fn responses_say_how_it_went() {
    let r = Response::ok("pong");
    assert!(r.ok);
    assert_eq!(r.message.as_deref(), Some("pong"));
    assert!(r.data.is_none());
    let r = Response::err("no");
    assert!(!r.ok);
    assert_eq!(r.message.as_deref(), Some("no"));
    let r = Response::ok_data(Payload::Jails(vec!["sshd".to_string()]));
    assert!(r.ok && r.message.is_none() && r.data.is_some());
}

#[test]
fn lines_are_framed() {
    assert_eq!(request_line("{}\n"), Some("{}"));
    assert_eq!(request_line(" \n"), None);
    assert_eq!(response_line("{}\n").unwrap(), "{}");
    assert!(response_line("").is_err());
    assert!(!invalid_request("bad").ok);
    assert!(invalid_request("bad").message.unwrap().contains("bad"));
}

#[test]
fn log_lines_have_no_end() {
    let l = log_line("hello\r\n", "/var/log/x").unwrap();
    assert_eq!(l.text, "hello");
    assert_eq!(l.source, "/var/log/x");
    assert!(log_line("\n", "x").is_none());
}

#[test]
fn a_polled_file_is_read_on() {
    let mut f = FileState::new(true);
    assert_eq!(f.opened(Some(1), 100), 100);
    f.read_to(150);
    assert!(!f.looked_at(Some(1), 150));
    assert!(!f.looked_at(Some(1), 200));
    assert!(f.looked_at(Some(2), 200), "another file");
    let mut f = FileState::new(false);
    assert_eq!(f.opened(Some(1), 100), 0);
    f.read_to(100);
    assert!(f.looked_at(Some(1), 10), "a shorter file");
}

#[test]
fn a_watched_file_is_read_on() {
    let (w, at) = Watched::new(1, 100, true);
    assert_eq!(at, 100);
    assert!(!w.rotated(1, 120));
    assert!(w.rotated(2, 120));
    assert!(w.rotated(1, 50));
    let (mut w, at) = Watched::new(1, 100, false);
    assert_eq!(at, 0);
    w.read_to(100);
    assert!(w.rotated(1, 50));
    w.reopened(2);
    assert!(!w.rotated(2, 50));
}

#[test]
fn backends_have_names() {
    let paths = || vec!["/var/log/x".to_string()];
    assert_eq!(PollBackend::new(paths(), 1000, true).name(), "poll");
    let f = FileBackend::new(paths(), true).with_interval(250);
    assert_eq!(f.name(), "file");
    let p = f.fallback();
    assert_eq!(p.paths, paths());
    assert_eq!(p.interval, 250);
    assert!(p.from_tail);
    let j = JournalBackend::new(vec!["_SYSTEMD_UNIT=sshd".to_string()]);
    assert_eq!(j.name(), "journal");
    assert_eq!(j.arguments(), vec!["-f", "-o", "cat", "--no-pager", "_SYSTEMD_UNIT=sshd"]);
    let j = JournalBackend::new(vec!["A=1".to_string(), "B=2".to_string(), "C=3".to_string()]);
    assert_eq!(j.arguments()[4..], ["A=1", "+", "B=2", "+", "C=3"]);
    let j = JournalBackend::new(vec!["A=1 B=2".to_string(), "C=3".to_string()]);
    assert_eq!(j.arguments()[4..], ["A=1", "B=2", "+", "C=3"]);
    assert_eq!(JournalBackend::new(vec![]).arguments().len(), 4);
}
