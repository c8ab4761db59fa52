use rail2ban::ip::IpAddr;
use rail2ban::web::api::{ApiData, ApiResponse, Value};
use rail2ban::web::auth::{
    encode, validate_password, validate_username, AuthDb, AuthError, LOGIN_WINDOW_SECS,
    MAX_LOGIN_ATTEMPTS, NANOS, SESSION_ABSOLUTE_SECS, SESSION_IDLE_SECS,
};
use rail2ban::web::handlers;
use rail2ban::web::manager::AuthManager;
use rail2ban::web::middleware::{
    build_session_cookie, clear_session_cookie, extract_client_ip, extract_session_token,
    limited_path, public_path, rate_limit_sensitive, require_auth, security_headers, RateLimiter,
};

const NOW: i64 = 1_784_000_000;

fn mgr() -> AuthManager {
    AuthManager::new(AuthDb::open())
}

/// A manager with an administrator.
fn ready() -> AuthManager {
    let mut m = mgr();
    m.setup("admin", "Passw0rd", NOW).unwrap();
    m
}

fn login(m: &mut AuthManager, password: &str, ip: &str) -> Result<String, AuthError> {
    m.login("admin", password, ip, NOW, 0)
}

fn field<'a>(r: &'a ApiResponse, key: &str) -> &'a Value {
    match &r.data {
        Some(ApiData::Fields(v)) => &v.iter().find(|f| f.key == key).unwrap().value,
        other => panic!("{:?}", other),
    }
}

#[test]
fn setup_and_login_flow() {
    let mut m = mgr();
    assert!(m.is_setup_required());
    m.setup("admin", "Passw0rd", NOW).unwrap();
    assert!(!m.is_setup_required());
    assert!(matches!(m.setup("admin2", "Passw0rd", NOW), Err(AuthError::AlreadyExists)));
    let token = login(&mut m, "Passw0rd", "127.0.0.1").unwrap();
    assert!(m.validate_session(&token, 0).is_some());
    assert!(matches!(
        login(&mut m, "wrong", "127.0.0.1"),
        Err(AuthError::InvalidCredentials)
    ));
}

#[test]
fn weak_password_rejected() {
    let mut m = mgr();
    assert!(m.setup("admin", "short", NOW).is_err());
    assert!(m.setup("admin", "alllowercase", NOW).is_err());
    assert!(m.setup("admin", "ALLUPPER1", NOW).is_err());
    assert!(m.setup("admin", "NoDigitsHere", NOW).is_err());
    assert!(m.setup("admin", "Passw0rd", NOW).is_ok());
}

#[test]
fn change_password_invalidates_sessions() {
    let mut m = ready();
    let token = login(&mut m, "Passw0rd", "127.0.0.1").unwrap();
    assert!(m.validate_session(&token, 0).is_some());
    m.change_password("admin", "Passw0rd", "NewPass1", NOW).unwrap();
    assert!(m.validate_session(&token, 0).is_none());
    assert!(login(&mut m, "Passw0rd", "127.0.0.1").is_err());
    let token2 = login(&mut m, "NewPass1", "127.0.0.1").unwrap();
    assert!(m.validate_session(&token2, 0).is_some());
}

#[test]
fn brute_force_lockout() {
    let mut m = ready();
    for _ in 0..5 {
        let _ = login(&mut m, "wrong", "10.0.0.1");
    }
    let result = login(&mut m, "Passw0rd", "10.0.0.1");
    assert!(matches!(result, Err(AuthError::LockedOut { .. })));
    let result = login(&mut m, "Passw0rd", "10.0.0.2");
    assert!(result.is_ok());
}

#[test]
fn logout_destroys_session() {
    let mut m = ready();
    let token = login(&mut m, "Passw0rd", "127.0.0.1").unwrap();
    assert!(m.validate_session(&token, 0).is_some());
    m.logout(&token);
    assert!(m.validate_session(&token, 0).is_none());
}

#[test]
fn invalid_username_rejected() {
    let mut m = mgr();
    assert!(m.setup("ab", "Passw0rd", NOW).is_err());
    assert!(m.setup("admin space", "Passw0rd", NOW).is_err());
    assert!(m.setup("valid_admin-1", "Passw0rd", NOW).is_ok());
}

#[test]
fn names_and_passwords_are_judged() {
    let told = |e: Option<AuthError>| e.unwrap().message();
    let front = "password does not meet complexity requirements: ";
    assert_eq!(told(validate_username("ab")), format!("{front}username must be 3-32 characters"));
    assert!(validate_username(&"a".repeat(32)).is_none());
    assert!(validate_username(&"a".repeat(33)).is_some());
    assert_eq!(
        told(validate_username("a b")),
        format!("{front}username may only contain letters, digits, underscore, hyphen")
    );
    assert_eq!(
        told(validate_password("Aa1")),
        format!("{front}password must be at least 8 characters")
    );
    assert_eq!(
        told(validate_password("aaaaaaa1")),
        format!("{front}password must contain at least one uppercase letter")
    );
    assert_eq!(
        told(validate_password("AAAAAAA1")),
        format!("{front}password must contain at least one lowercase letter")
    );
    assert_eq!(
        told(validate_password("Aaaaaaaa")),
        format!("{front}password must contain at least one digit")
    );
    assert!(validate_password("Aaaaaaa1").is_none());
}

#[test]
fn errors_are_put_into_words() {
    let front = |e: AuthError| e.message();
    assert_eq!(front(AuthError::InvalidCredentials), "invalid username or password");
    assert_eq!(
        front(AuthError::LockedOut { secs_remaining: 900 }),
        "too many failed attempts, try again in 900 seconds"
    );
    assert_eq!(front(AuthError::AlreadyExists), "admin user already exists");
    assert_eq!(front(AuthError::SetupRequired), "setup required");
    assert_eq!(front(AuthError::IncorrectOldPassword), "current password is incorrect");
    assert_eq!(front(AuthError::UserNotFound), "user not found");
    assert_eq!(front(AuthError::Database("x".to_string())), "database error: x");
    assert_eq!(front(AuthError::Hash("x".to_string())), "hash error: x");
    assert_eq!(front(AuthError::Io("x".to_string())), "io error: x");
}

#[test]
fn bytes_are_written_as_hex() {
    assert_eq!(encode(&vec![0, 15, 16, 255]), "000f10ff");
    assert_eq!(encode(&vec![]), "");
}

#[test]
fn tokens_are_long_and_differ() {
    let mut m = ready();
    let a = login(&mut m, "Passw0rd", "127.0.0.1").unwrap();
    let b = login(&mut m, "Passw0rd", "127.0.0.1").unwrap();
    assert_eq!(a.len(), 64);
    assert_ne!(a, b);
}

#[test]
fn failures_are_forgotten_in_time() {
    let mut m = ready();
    for _ in 0..MAX_LOGIN_ATTEMPTS {
        assert!(m.login("admin", "wrong", "10.0.0.1", NOW, 0).is_err());
    }
    let then = NOW + LOGIN_WINDOW_SECS as i64 + 1;
    assert!(m.login("admin", "Passw0rd", "10.0.0.1", then, 0).is_ok());
}

#[test]
fn nobody_can_log_in_without_an_administrator() {
    let mut m = mgr();
    assert!(matches!(
        login(&mut m, "Passw0rd", "127.0.0.1"),
        Err(AuthError::InvalidCredentials)
    ));
}

#[test]
fn sessions_end() {
    let mut m = ready();
    let token = login(&mut m, "Passw0rd", "127.0.0.1").unwrap();
    let idle = SESSION_IDLE_SECS as u64 * NANOS;
    let whole = SESSION_ABSOLUTE_SECS as u64 * NANOS;
    let mut at = 0;
    while at + idle - 1 < whole {
        at += idle - 1;
        assert_eq!(m.validate_session(&token, at).as_deref(), Some("admin"));
    }
    assert_eq!(m.validate_session(&token, whole), None);
    let token = login(&mut m, "Passw0rd", "127.0.0.1").unwrap();
    assert_eq!(m.validate_session(&token, idle), None);
    let token = login(&mut m, "Passw0rd", "127.0.0.1").unwrap();
    m.cleanup_expired_sessions(idle);
    assert_eq!(m.validate_session(&token, 0), None);
}

#[test]
fn the_old_password_is_needed() {
    let mut m = ready();
    assert!(matches!(
        m.change_password("admin", "wrong", "NewPass1", NOW),
        Err(AuthError::IncorrectOldPassword)
    ));
    assert!(m.change_password("admin", "Passw0rd", "weak", NOW).is_err());
    assert!(login(&mut m, "Passw0rd", "127.0.0.1").is_ok());
}

#[test]
fn an_administrator_is_told_of() {
    let mut m = ready();
    assert_eq!(m.get_admin_info("admin").unwrap().last_login, None);
    login(&mut m, "Passw0rd", "127.0.0.1").unwrap();
    let i = m.get_admin_info("admin").unwrap();
    assert_eq!(i.username, "admin");
    assert_eq!(i.created_at, NOW);
    assert_eq!(i.last_login, Some(NOW));
    assert!(matches!(m.get_admin_info("nobody"), Err(AuthError::Database(_))));
}

#[test]
fn cookies_come_back() {
    let c = build_session_cookie("abc", 60);
    assert_eq!(
        c,
        "rail2ban_session=abc; HttpOnly; SameSite=Strict; Path=/emc; Max-Age=60"
    );
    assert_eq!(extract_session_token(Some(&c)).as_deref(), Some("abc"));
    assert_eq!(
        extract_session_token(Some("a=b;  rail2ban_session=t0; c=d")).as_deref(),
        Some("t0")
    );
    assert_eq!(extract_session_token(Some("a=b")), None);
    assert_eq!(extract_session_token(None), None);
    assert_eq!(
        clear_session_cookie(),
        "rail2ban_session=; HttpOnly; SameSite=Strict; Path=/emc; Max-Age=0"
    );
}

#[test]
fn a_client_is_known_by_its_address() {
    let peer = IpAddr::parse("192.0.2.1");
    let ip = |r, f, t| extract_client_ip(r, f, peer, t);
    assert_eq!(ip(Some(" 10.0.0.1 "), Some("10.0.0.2"), true), "10.0.0.1");
    assert_eq!(ip(Some("bad"), Some("10.0.0.2, 10.0.0.3"), true), "10.0.0.2");
    assert_eq!(ip(None, None, true), "192.0.2.1");
    assert_eq!(ip(Some("10.0.0.1"), Some("10.0.0.2"), false), "192.0.2.1");
    assert_eq!(extract_client_ip(None, None, None, false), "0.0.0.0");
}

#[test]
fn every_answer_has_its_headers() {
    let h = security_headers();
    assert_eq!(h.len(), 5);
    assert!(h.contains(&("x-frame-options", "DENY")));
}

#[test]
fn a_session_opens_the_door() {
    let mut m = ready();
    let token = login(&mut m, "Passw0rd", "127.0.0.1").unwrap();
    let cookie = format!("rail2ban_session={token}");
    assert!(public_path("/emc/api/login"));
    assert!(!public_path("/emc/api/jails"));
    assert_eq!(require_auth(&mut m, "/emc/api/login", None, 0), None);
    assert_eq!(require_auth(&mut m, "/other", None, 0), None);
    assert_eq!(require_auth(&mut m, "/emc/api/jails", None, 0), Some("not authenticated"));
    assert_eq!(
        require_auth(&mut m, "/emc/api/jails", Some("rail2ban_session=nope"), 0),
        Some("session expired or invalid")
    );
    assert_eq!(require_auth(&mut m, "/emc/api/jails", Some(&cookie), 0), None);
}

#[test]
fn requests_are_limited() {
    let mut l = RateLimiter::new(2, 100);
    assert!(l.check("a", 0));
    assert!(l.check("a", 50));
    assert!(!l.check("a", 60));
    assert!(l.check("b", 60));
    assert!(l.check("a", 101));
    assert!(!l.check("a", 102));
    l.cleanup(1000);
    assert!(l.check("a", 1000));
    assert!(limited_path("/emc/api/setup"));
    let mut l = RateLimiter::new(1, 100);
    assert!(rate_limit_sensitive(&mut l, "/emc/api/login", "ip", 0));
    assert!(!rate_limit_sensitive(&mut l, "/emc/api/login", "ip", 1));
    assert!(rate_limit_sensitive(&mut l, "/emc/api/jails", "ip", 1));
}

#[test]
fn the_interface_logs_in_and_out() {
    let mut m = mgr();
    let r = handlers::setup(&mut m, "admin", "weak", NOW);
    assert_eq!(r.status, 400);
    assert!(!r.body.ok);
    let r = handlers::setup(&mut m, "admin", "Passw0rd", NOW);
    assert_eq!(r.status, 201);
    let r = handlers::setup(&mut m, "admin", "Passw0rd", NOW);
    assert_eq!(r.body.message.as_deref(), Some("setup already completed"));
    let r = handlers::login(&mut m, "admin", "wrong", "127.0.0.1", NOW, 0);
    assert_eq!(r.status, 401);
    assert!(r.cookie.is_none());
    let r = handlers::login(&mut m, "admin", "Passw0rd", "127.0.0.1", NOW, 0);
    assert_eq!(r.status, 200);
    let cookie = r.cookie.unwrap();
    let r = handlers::check_session(&mut m, Some(&cookie), 0);
    assert!(matches!(field(&r, "authenticated"), Value::Flag(true)));
    let r = handlers::get_admin_info(&mut m, Some(&cookie), 0);
    assert_eq!(r.status, 200);
    assert!(matches!(field(&r.body, "username"), Value::Word(w) if w == "admin"));
    let r = handlers::change_password(&mut m, Some(&cookie), "wrong", "NewPass1", NOW, 0);
    assert!(!r.body.ok);
    let r = handlers::change_password(&mut m, None, "Passw0rd", "NewPass1", NOW, 0);
    assert_eq!(r.status, 401);
    let r = handlers::logout_clear(&mut m, Some(&cookie));
    assert!(r.cookie.unwrap().contains("Max-Age=0"));
    let r = handlers::check_session(&mut m, Some(&cookie), 0);
    assert!(matches!(field(&r, "authenticated"), Value::Flag(false)));
}

#[test]
fn the_interface_says_what_it_is() {
    let r = handlers::get_version();
    assert!(matches!(field(&r, "version"), Value::Word(w) if w == "0.1.0"));
    assert!(matches!(field(&r, "name"), Value::Word(w) if w == "rail2ban"));
    assert!(handlers::get_log().ok);
}

#[test]
fn there_is_one_first_administrator() {
    let mut db = AuthDb::open();
    assert!(db.create_admin("admin", "Passw0rd", NOW).is_ok());
    assert!(matches!(
        db.create_admin("other", "Passw0rd", NOW),
        Err(AuthError::AlreadyExists)
    ));
    assert!(matches!(
        db.create_admin("admin", "Passw0rd", NOW),
        Err(AuthError::AlreadyExists)
    ));
    assert!(db.verify("admin", "Passw0rd").unwrap());
    assert!(!db.verify("other", "Passw0rd").unwrap());
}
