//! What the web interface does and answers.

use crate::config;
use crate::config::loader;
use crate::config::loader::LoadedConfig;
use crate::error;
use crate::error::{Error, ErrorView};
use crate::server::bans;
use crate::server::commands;
use crate::server::database::{Database, DbState};
use crate::server::jail::JailState;
use crate::server::server;
use crate::server::server::{Server, ServerState, Work, WorkView};
use crate::server::status;
use crate::table;
use crate::text;
use crate::text::Text;
use crate::time;
use crate::time::Timestamp;
use crate::web::api;
use crate::web::api::{
    ApiData, ApiReply, ApiResponse, Body, BriefView, DataView, Field, JailBrief, Value, ValueView,
};
use crate::web::auth;
use crate::web::auth::{AdminView, AuthError, AuthFault};
use crate::web::manager;
use crate::web::manager::{AuthManager, AuthState};
use crate::web::middleware;
use vstd::prelude::*;

verus! {

/// The status of a login that is refused.
pub open spec fn login_status(e: AuthFault) -> u16 {
    if e is LockedOut {
        429
    } else {
        401
    }
}

/// The status of a change of password that is refused.
pub open spec fn change_status(e: AuthFault) -> u16 {
    match e {
        AuthFault::IncorrectOldPassword => 401,
        AuthFault::WeakPassword(_) => 400,
        _ => 500,
    }
}

/// What the answer to a login tells.
pub open spec fn login_data(name: Text) -> Body {
    Body::Data(
        DataView::Fields(
            seq![
                ("username"@, ValueView::Word(name)),
                ("message"@, ValueView::Word("login successful"@)),
            ],
        ),
    )
}

/// `POST /login`: logs in and sets the cookie of the session.
pub fn login(auth: &mut AuthManager, name: &str, password: &str, ip: &str, now: i64, clock: u64)
    -> (r: ApiReply)
    requires
        old(auth).wf(),
    ensures
        final(auth).wf(),
        match manager::login_fault(old(auth)@, name@, password@, ip@, now) {
            Some(e) => {
                &&& api::answers(r, login_status(e), None, Body::Failure(auth::fault_text(e)))
                &&& final(auth)@ == manager::after_refusal(
                    old(auth)@,
                    name@,
                    password@,
                    ip@,
                    now,
                )
            },
            None => exists|token: Text|
                {
                    &&& manager::is_token(token)
                    &&& final(auth)@ == #[trigger] manager::after_login(
                        old(auth)@,
                        name@,
                        ip@,
                        token,
                        now,
                        clock,
                    )
                    &&& api::answers(
                        r,
                        200,
                        Some(middleware::session_cookie(token, 28800)),
                        login_data(name@),
                    )
                },
        },
{
    match auth.login(name, password, ip, now, clock) {
        Ok(token) => {
            let cookie = middleware::build_session_cookie(token.as_str(), 28800);
            let body = api::two(
                "username",
                Value::Word(name.to_owned()),
                "message",
                Value::Word("login successful".to_owned()),
            );
            let r = ApiReply { status: 200, cookie: Some(cookie), body };
            proof {
                assert(auth@ == manager::after_login(
                    old(auth)@,
                    name@,
                    ip@,
                    token@,
                    now,
                    clock,
                ));
            }
            r
        },
        Err(e) => {
            let m = e.message();
            let status: u16 = match e {
                AuthError::LockedOut { .. } => 429,
                _ => 401,
            };
            ApiReply { status, cookie: None, body: ApiResponse::err(m.as_str()) }
        },
    }
}

/// The state after the session in a cookie header ends.
pub open spec fn after_logout(st: AuthState, cookie: Option<Text>) -> AuthState {
    match middleware::token_in(cookie) {
        Some(t) => AuthState { sessions: crate::table::removed(st.sessions, t), ..st },
        None => st,
    }
}

/// `POST /logout`: ends the session and clears its cookie.
pub fn logout_clear(auth: &mut AuthManager, cookie: Option<&str>) -> (r: ApiReply)
    requires
        old(auth).wf(),
    ensures
        final(auth).wf(),
        final(auth)@ == after_logout(old(auth)@, text::opt_str(cookie)),
        api::answers(
            r,
            200,
            Some(auth::SESSION_COOKIE_NAME@ + "=; HttpOnly; SameSite=Strict; Path=/emc; Max-Age=0"@),
            Body::Data(DataView::Fields(seq![("message"@, ValueView::Word("logged out"@))])),
        ),
{
    if let Some(t) = middleware::extract_session_token(cookie) {
        auth.logout(t.as_str());
    }
    ApiReply {
        status: 200,
        cookie: Some(middleware::clear_session_cookie()),
        body: api::one("message", Value::Word("logged out".to_owned())),
    }
}

/// Whose session is in a cookie header, where it holds.
pub open spec fn cookie_user(st: AuthState, cookie: Option<Text>, clock: u64) -> Option<Text> {
    match middleware::token_in(cookie) {
        Some(t) => manager::session_user(st, t, clock),
        None => None,
    }
}

/// The state after the session in a cookie header is used.
pub open spec fn after_cookie(st: AuthState, cookie: Option<Text>, clock: u64) -> AuthState {
    match middleware::token_in(cookie) {
        Some(t) => manager::after_use(st, t, clock),
        None => st,
    }
}

fn user_of(auth: &mut AuthManager, cookie: Option<&str>, clock: u64) -> (r: Option<String>)
    requires
        old(auth).wf(),
    ensures
        final(auth).wf(),
        final(auth)@ == after_cookie(old(auth)@, text::opt_str(cookie), clock),
        text::opt_text(r) == cookie_user(old(auth)@, text::opt_str(cookie), clock),
{
    match middleware::extract_session_token(cookie) {
        Some(t) => auth.validate_session(t.as_str(), clock),
        None => None,
    }
}

/// `GET /session`: whether the session holds.
pub fn check_session(auth: &mut AuthManager, cookie: Option<&str>, clock: u64) -> (r: ApiResponse)
    requires
        old(auth).wf(),
    ensures
        final(auth).wf(),
        final(auth)@ == after_cookie(old(auth)@, text::opt_str(cookie), clock),
        ({
            let needed = ValueView::Flag(old(auth)@.users.len() == 0);
            match cookie_user(old(auth)@, text::opt_str(cookie), clock) {
                Some(u) => api::carries(
                    r,
                    Body::Data(
                        DataView::Fields(
                            seq![
                                ("authenticated"@, ValueView::Flag(true)),
                                ("username"@, ValueView::Word(u)),
                                ("setup_required"@, needed),
                            ],
                        ),
                    ),
                ),
                None => api::carries(
                    r,
                    Body::Data(
                        DataView::Fields(
                            seq![
                                ("authenticated"@, ValueView::Flag(false)),
                                ("setup_required"@, needed),
                            ],
                        ),
                    ),
                ),
            }
        }),
{
    match user_of(auth, cookie, clock) {
        Some(u) => api::three(
            "authenticated",
            Value::Flag(true),
            "username",
            Value::Word(u),
            "setup_required",
            Value::Flag(auth.is_setup_required()),
        ),
        None => api::two(
            "authenticated",
            Value::Flag(false),
            "setup_required",
            Value::Flag(auth.is_setup_required()),
        ),
    }
}

/// `POST /setup`: creates the first administrator.
pub fn setup(auth: &mut AuthManager, name: &str, password: &str, now: i64) -> (r: ApiReply)
    requires
        old(auth).wf(),
    ensures
        final(auth).wf(),
        old(auth)@.users.len() > 0 ==> final(auth)@ == old(auth)@ && api::answers(
            r,
            400,
            None,
            Body::Failure("setup already completed"@),
        ),
        old(auth)@.users.len() == 0 ==> match manager::setup_fault(old(auth)@, name@, password@) {
            Some(e) => final(auth)@ == old(auth)@ && api::answers(
                r,
                400,
                None,
                Body::Failure(auth::fault_text(e)),
            ),
            None => {
                ||| (exists|h: Text|
                    auth::goes_with(h, password@) && final(auth)@ == #[trigger] manager::with_admin(
                        old(auth)@,
                        name@,
                        h,
                        now,
                    )) && api::answers(
                    r,
                    201,
                    None,
                    Body::Data(
                        DataView::Fields(
                            seq![
                                (
                                    "message"@,
                                    ValueView::Word("admin user created, please log in"@),
                                ),
                                ("username"@, ValueView::Word(name@)),
                            ],
                        ),
                    ),
                )
                ||| final(auth)@ == old(auth)@ && (exists|m: Text|
                    api::answers(r, 400, None, Body::Failure(#[trigger] auth::fault_text(
                        AuthFault::Hash(m),
                    ))))
            },
        },
{
    if !auth.is_setup_required() {
        return ApiReply {
            status: 400,
            cookie: None,
            body: ApiResponse::err("setup already completed"),
        };
    }
    match auth.setup(name, password, now) {
        Ok(_) => ApiReply {
            status: 201,
            cookie: None,
            body: api::two(
                "message",
                Value::Word("admin user created, please log in".to_owned()),
                "username",
                Value::Word(name.to_owned()),
            ),
        },
        Err(e) => {
            let m = e.message();
            proof {
                if let AuthFault::Hash(h) = e@ {
                    assert(m@ == auth::fault_text(AuthFault::Hash(h)));
                }
            }
            ApiReply { status: 400, cookie: None, body: ApiResponse::err(m.as_str()) }
        },
    }
}

/// The answer to a request that needs a session and has none.
pub open spec fn session_fault(cookie: Option<Text>) -> Text {
    match middleware::token_in(cookie) {
        Some(_) => "session expired"@,
        None => "not authenticated"@,
    }
}

fn refuse_session(cookie: Option<&str>) -> (r: ApiReply)
    ensures
        api::answers(r, 401, None, Body::Failure(session_fault(text::opt_str(cookie)))),
{
    let m = match middleware::extract_session_token(cookie) {
        Some(_) => "session expired",
        None => "not authenticated",
    };
    ApiReply { status: 401, cookie: None, body: ApiResponse::err(m) }
}

/// `POST /change-password`: changes the password of the administrator whose
/// session it is, and clears the cookie.
pub fn change_password(
    auth: &mut AuthManager,
    cookie: Option<&str>,
    old_password: &str,
    new_password: &str,
    now: i64,
    clock: u64,
) -> (r: ApiReply)
    requires
        old(auth).wf(),
    ensures
        final(auth).wf(),
        ({
            let mid = after_cookie(old(auth)@, text::opt_str(cookie), clock);
            match cookie_user(old(auth)@, text::opt_str(cookie), clock) {
                None => final(auth)@ == mid && api::answers(
                    r,
                    401,
                    None,
                    Body::Failure(session_fault(text::opt_str(cookie))),
                ),
                Some(u) => match manager::change_fault(mid, u, old_password@, new_password@) {
                    Some(e) => final(auth)@ == mid && api::answers(
                        r,
                        change_status(e),
                        None,
                        Body::Failure(auth::fault_text(e)),
                    ),
                    None => {
                        ||| (exists|h: Text|
                            auth::goes_with(h, new_password@) && final(auth)@
                                == #[trigger] manager::with_new_password(mid, u, h, now))
                            && api::answers(
                            r,
                            200,
                            Some(
                                auth::SESSION_COOKIE_NAME@
                                    + "=; HttpOnly; SameSite=Strict; Path=/emc; Max-Age=0"@,
                            ),
                            Body::Data(
                                DataView::Fields(
                                    seq![
                                        (
                                            "message"@,
                                            ValueView::Word(
                                                "password changed, please log in again"@,
                                            ),
                                        ),
                                    ],
                                ),
                            ),
                        )
                        ||| final(auth)@ == mid && (exists|m: Text|
                            api::answers(r, 500, None, Body::Failure(#[trigger] auth::fault_text(
                                AuthFault::Hash(m),
                            ))))
                    },
                },
            }
        }),
{
    let name = match user_of(auth, cookie, clock) {
        Some(u) => u,
        None => {
            return refuse_session(cookie);
        },
    };
    match auth.change_password(name.as_str(), old_password, new_password, now) {
        Ok(_) => ApiReply {
            status: 200,
            cookie: Some(middleware::clear_session_cookie()),
            body: api::one(
                "message",
                Value::Word("password changed, please log in again".to_owned()),
            ),
        },
        Err(e) => {
            let m = e.message();
            proof {
                if let AuthFault::Hash(h) = e@ {
                    assert(m@ == auth::fault_text(AuthFault::Hash(h)));
                }
            }
            let status: u16 = match e {
                AuthError::IncorrectOldPassword => 401,
                AuthError::WeakPassword(_) => 400,
                _ => 500,
            };
            ApiReply { status, cookie: None, body: ApiResponse::err(m.as_str()) }
        },
    }
}

/// A moment that need not be there.
pub open spec fn opt_number(t: Option<i64>) -> ValueView {
    match t {
        Some(n) => ValueView::Number(n),
        None => ValueView::Nothing,
    }
}

/// What is told of an administrator.
pub open spec fn admin_data(u: AdminView) -> Body {
    Body::Data(
        DataView::Fields(
            seq![
                ("username"@, ValueView::Word(u.username)),
                ("created_at"@, ValueView::Number(u.created_at)),
                ("last_login"@, opt_number(u.last_login)),
            ],
        ),
    )
}

/// `GET /admin/info`: what is told of the administrator whose session it is.
pub fn get_admin_info(auth: &mut AuthManager, cookie: Option<&str>, clock: u64) -> (r: ApiReply)
    requires
        old(auth).wf(),
    ensures
        final(auth).wf(),
        final(auth)@ == after_cookie(old(auth)@, text::opt_str(cookie), clock),
        match cookie_user(old(auth)@, text::opt_str(cookie), clock) {
            None => api::answers(
                r,
                401,
                None,
                Body::Failure(session_fault(text::opt_str(cookie))),
            ),
            Some(u) => {
                let users = old(auth)@.users;
                let i = auth::find_admin(users, u);
                if 0 <= i < users.len() {
                    api::answers(
                        r,
                        200,
                        None,
                        admin_data(users[i]),
                    )
                } else {
                    api::answers(
                        r,
                        500,
                        None,
                        Body::Failure(
                            auth::fault_text(AuthFault::Database("Query returned no rows"@)),
                        ),
                    )
                }
            },
        },
{
    let name = match user_of(auth, cookie, clock) {
        Some(u) => u,
        None => {
            return refuse_session(cookie);
        },
    };
    assert(auth@.users == old(auth)@.users);
    match auth.get_admin_info(name.as_str()) {
        Ok(a) => {
            let last = match a.last_login {
                Some(t) => Value::Number(t),
                None => Value::Nothing,
            };
            assert(last@ == opt_number(a.last_login));
            let body = api::three(
                "username",
                Value::Word(a.username),
                "created_at",
                Value::Number(a.created_at),
                "last_login",
                last,
            );
            ApiReply { status: 200, cookie: None, body }
        },
        Err(e) => {
            let m = e.message();
            ApiReply { status: 500, cookie: None, body: ApiResponse::err(m.as_str()) }
        },
    }
}

/// How many hosts are banned in all jails together.
pub open spec fn sum_banned(jails: Seq<JailState>) -> nat
    decreases jails.len(),
{
    if jails.len() == 0 {
        0
    } else {
        sum_banned(jails.drop_last()) + jails.last().bans.bans.len()
    }
}

/// How many hosts have failures in all jails together.
pub open spec fn sum_failed(jails: Seq<JailState>) -> nat
    decreases jails.len(),
{
    if jails.len() == 0 {
        0
    } else {
        sum_failed(jails.drop_last()) + jails.last().fails.tickets.len()
    }
}

/// The state of the whole, in short. Sums are cut off at the largest 64-bit
/// number.
pub open spec fn status_data(st: ServerState, setup_required: bool) -> Body {
    Body::Data(
        DataView::Fields(
            seq![
                ("jails_count"@, ValueView::Count(st.jails.len() as u64)),
                ("jail_names"@, ValueView::Names(status::names_of(st.jails))),
                (
                    "total_currently_banned"@,
                    ValueView::Count(time::capped(sum_banned(st.jails))),
                ),
                (
                    "total_currently_failed"@,
                    ValueView::Count(time::capped(sum_failed(st.jails))),
                ),
                ("setup_required"@, ValueView::Flag(setup_required)),
            ],
        ),
    )
}

fn count_all(server: &Server) -> (r: (u64, u64))
    ensures
        r.0 == time::capped(sum_banned(server@.jails)),
        r.1 == time::capped(sum_failed(server@.jails)),
{
    let ghost all = server@.jails;
    let mut banned: u64 = 0;
    let mut failed: u64 = 0;
    let mut i: usize = 0;
    assert(all.take(0) =~= Seq::empty());
    while i < server.jails.len()
        invariant
            i <= server.jails.len() == all.len(),
            all == server@.jails,
            banned == time::capped(sum_banned(all.take(i as int))),
            failed == time::capped(sum_failed(all.take(i as int))),
        decreases server.jails.len() - i,
    {
        let j = &server.jails[i];
        proof {
            assert(all.take(i + 1).drop_last() =~= all.take(i as int));
            assert(all.take(i + 1).last() == j@);
        }
        banned = banned.saturating_add(j.ban_mgr.current_banned() as u64);
        failed = failed.saturating_add(j.fail_mgr.current_failed() as u64);
        i += 1;
    }
    assert(all.take(i as int) =~= all);
    (banned, failed)
}

/// `GET /status`: the state of the whole, in short.
pub fn get_status(server: &Server, auth: &AuthManager) -> (r: ApiResponse)
    ensures
        api::carries(r, status_data(server@, auth@.users.len() == 0)),
{
    let names = server.list_jails();
    let (banned, failed) = count_all(server);
    let mut fields: Vec<Field> = Vec::new();
    fields.push(Field { key: "jails_count", value: Value::Count(server.jails.len() as u64) });
    fields.push(Field { key: "jail_names", value: Value::Names(names) });
    fields.push(Field { key: "total_currently_banned", value: Value::Count(banned) });
    fields.push(Field { key: "total_currently_failed", value: Value::Count(failed) });
    fields.push(
        Field { key: "setup_required", value: Value::Flag(auth.is_setup_required()) },
    );
    assert(Body::Data(DataView::Fields(api::field_list(fields@))) == status_data(
        server@,
        auth@.users.len() == 0,
    )) by {
        assert(api::field_list(fields@) =~= seq![
            ("jails_count"@, ValueView::Count(server@.jails.len() as u64)),
            ("jail_names"@, ValueView::Names(status::names_of(server@.jails))),
            (
                "total_currently_banned"@,
                ValueView::Count(time::capped(sum_banned(server@.jails))),
            ),
            (
                "total_currently_failed"@,
                ValueView::Count(time::capped(sum_failed(server@.jails))),
            ),
            ("setup_required"@, ValueView::Flag(auth@.users.len() == 0)),
        ]);
    }
    ApiResponse::ok(ApiData::Fields(fields))
}

/// `GET /stats`: what is told of all jails.
pub fn get_stats(server: &Server) -> (r: ApiResponse)
    requires
        server.wf(),
    ensures
        api::carries(
            r,
            Body::Data(
                DataView::AllStats(
                    server@.jails.map_values(
                        |j: JailState| status::stats_of(server@.config, j),
                    ),
                ),
            ),
        ),
{
    ApiResponse::ok(ApiData::AllStats(server.all_stats()))
}

/// `GET /version`: the version and the name.
pub fn get_version() -> (r: ApiResponse)
    ensures
        api::carries(
            r,
            Body::Data(
                DataView::Fields(
                    seq![
                        ("version"@, ValueView::Word(config::VERSION@)),
                        ("name"@, ValueView::Word(config::NAME@)),
                    ],
                ),
            ),
        ),
{
    api::two(
        "version",
        Value::Word(config::VERSION.to_owned()),
        "name",
        Value::Word(config::NAME.to_owned()),
    )
}

/// `GET /loglevel`: the log level.
pub fn get_loglevel(server: &Server) -> (r: ApiResponse)
    ensures
        api::carries(
            r,
            Body::Data(
                DataView::Fields(seq![("loglevel"@, ValueView::Word(server@.loglevel))]),
            ),
        ),
{
    api::one("loglevel", Value::Word(server.loglevel.clone()))
}

/// `POST /loglevel`: sets the log level.
pub fn set_loglevel(server: &mut Server, level: &str) -> (r: ApiResponse)
    requires
        old(server).wf(),
    ensures
        final(server).wf(),
        final(server)@ == (ServerState { loglevel: level@, ..old(server)@ }),
        api::carries(
            r,
            Body::Data(DataView::Fields(seq![("loglevel"@, ValueView::Word(level@))])),
        ),
{
    server.loglevel = level.to_owned();
    api::one("loglevel", Value::Word(level.to_owned()))
}

/// A jail in short.
pub open spec fn brief_of(j: JailState) -> BriefView {
    BriefView {
        name: j.config.name,
        currently_banned: j.bans.bans.len(),
        total_banned: j.bans.total,
        currently_failed: j.fails.tickets.len(),
        total_failed: status::told_failures(j),
    }
}

/// `GET /jails`: the jails in short.
pub fn list_jails(server: &Server) -> (r: ApiResponse)
    ensures
        api::carries(
            r,
            Body::Data(DataView::Briefs(server@.jails.map_values(|j: JailState| brief_of(j)))),
        ),
{
    let mut out: Vec<JailBrief> = Vec::new();
    let mut i: usize = 0;
    while i < server.jails.len()
        invariant
            i <= server.jails.len(),
            out@.len() == i,
            forall|k: int| 0 <= k < i ==> (#[trigger] out@[k])@ == brief_of(server@.jails[k]),
        decreases server.jails.len() - i,
    {
        let j = &server.jails[i];
        let b = JailBrief {
            name: j.config.name.clone(),
            currently_banned: j.ban_mgr.current_banned(),
            total_banned: j.ban_mgr.total_banned(),
            currently_failed: j.fail_mgr.current_failed(),
            total_failed: j.fail_mgr.total_failed(),
        };
        assert(b@ == brief_of(server@.jails[i as int]));
        out.push(b);
        i += 1;
    }
    assert(api::brief_list(out@) =~= server@.jails.map_values(|j: JailState| brief_of(j)));
    ApiResponse::ok(ApiData::Briefs(out))
}

/// `GET /jails/:name`: what is told of a jail.
pub fn get_jail(server: &Server, name: &str) -> (r: ApiResponse)
    requires
        server.wf(),
    ensures
        ({
            let i = server::position_of(server@.jails, name@);
            if 0 <= i < server@.jails.len() {
                api::carries(
                    r,
                    Body::Data(
                        DataView::Stats(status::stats_of(server@.config, server@.jails[i])),
                    ),
                )
            } else {
                api::carries(r, Body::Failure("jail not found: "@ + name@))
            }
        }),
{
    match server.find_jail(name) {
        Some(i) => ApiResponse::ok(ApiData::Stats(server.jail_stats(i))),
        None => {
            let m = text::cat2("jail not found: ", name);
            ApiResponse::err(m.as_str())
        },
    }
}

/// `POST /jails/:name/start`: starts a jail.
pub fn start_jail(server: &mut Server, name: &str, work: &mut Vec<Work>) -> (r: ApiResponse)
    requires
        old(server).wf(),
    ensures
        final(server).wf(),
        match server::started(old(server)@, name@) {
            Ok(j) => {
                &&& final(server)@ == server::with_jail(old(server)@, j)
                &&& bans::work_list_grew(old(work)@, final(work)@, seq![server::start_work(j)])
                &&& api::carries(
                    r,
                    Body::Data(DataView::Fields(seq![("started"@, ValueView::Word(name@))])),
                )
            },
            Err(e) => final(server)@ == old(server)@ && final(work)@ == old(work)@
                && api::carries(r, Body::Failure(error::error_text(e))),
        },
{
    let ghost before = work@;
    match server.start_jail(name) {
        Ok(w) => {
            work.push(w);
            assert(server::work_list(work@) =~= server::work_list(before) + seq![w@]);
            api::one("started", Value::Word(name.to_owned()))
        },
        Err(e) => {
            let m = e.message();
            ApiResponse::err(m.as_str())
        },
    }
}

/// `POST /jails/:name/stop`: stops a jail.
pub fn stop_jail(server: &mut Server, name: &str, work: &mut Vec<Work>, now: Timestamp) -> (r:
    ApiResponse)
    requires
        old(server).wf(),
    ensures
        final(server).wf(),
        ({
            let i = server::position_of(old(server)@.jails, name@);
            if 0 <= i < old(server)@.jails.len() {
                &&& final(server)@ == server::without_jail(old(server)@, i, now)
                &&& bans::work_list_grew(
                    old(work)@,
                    final(work)@,
                    seq![server::stop_work(old(server)@.jails[i], now)],
                )
                &&& api::carries(
                    r,
                    Body::Data(DataView::Fields(seq![("stopped"@, ValueView::Word(name@))])),
                )
            } else {
                &&& final(server)@ == old(server)@
                &&& final(work)@ == old(work)@
                &&& api::carries(
                    r,
                    Body::Failure(error::error_text(ErrorView::Jail(name@ + " not running"@))),
                )
            }
        }),
{
    let ghost before = work@;
    match server.stop_jail(name, now) {
        Ok(w) => {
            work.push(w);
            assert(server::work_list(work@) =~= server::work_list(before) + seq![w@]);
            api::one("stopped", Value::Word(name.to_owned()))
        },
        Err(e) => {
            let m = e.message();
            ApiResponse::err(m.as_str())
        },
    }
}

/// `POST /jails/:name/restart`: stops a jail, where it runs, and starts it.
pub fn restart_jail(server: &mut Server, name: &str, work: &mut Vec<Work>, now: Timestamp) -> (r:
    ApiResponse)
    requires
        old(server).wf(),
    ensures
        final(server).wf(),
        ({
            let a = commands::restarted(old(server)@, name@, now);
            &&& final(server)@ == a.0
            &&& bans::work_list_grew(old(work)@, final(work)@, a.1)
            &&& match a.2 {
                None => api::carries(
                    r,
                    Body::Data(DataView::Fields(seq![("restarted"@, ValueView::Word(name@))])),
                ),
                Some(e) => api::carries(r, Body::Failure(error::error_text(e))),
            }
        }),
{
    match commands::restart_one(server, name, work, now) {
        None => api::one("restarted", Value::Word(name.to_owned())),
        Some(e) => {
            let m = e.message();
            ApiResponse::err(m.as_str())
        },
    }
}

/// `GET /banned`: the banned hosts by jail.
pub fn list_banned(server: &Server) -> (r: ApiResponse)
    ensures
        api::carries(
            r,
            Body::Data(DataView::Listings(status::banned_by_jail(server@.jails))),
        ),
{
    ApiResponse::ok(ApiData::Listings(server.banned_map()))
}

/// `GET /banned/:ip`: in which jails a host is banned.
pub fn check_banned(server: &Server, ip: &str) -> (r: ApiResponse)
    ensures
        ({
            let jails = status::banning(server@.jails, ip@);
            api::carries(
                r,
                Body::Data(
                    DataView::Fields(
                        seq![
                            ("ip"@, ValueView::Word(ip@)),
                            ("banned_in"@, ValueView::Names(jails)),
                            ("is_banned"@, ValueView::Flag(jails.len() > 0)),
                        ],
                    ),
                ),
            )
        }),
{
    let jails = server.jails_banning(ip);
    let any = jails.len() > 0;
    assert(text::texts(jails@).len() == jails@.len());
    api::three(
        "ip",
        Value::Word(ip.to_owned()),
        "banned_in",
        Value::Names(jails),
        "is_banned",
        Value::Flag(any),
    )
}

/// `POST /ban`: bans a host in a jail.
pub fn ban_ip(
    server: &mut Server,
    jail: Option<&str>,
    ip: &str,
    work: &mut Vec<Work>,
    now: Timestamp,
) -> (r: ApiResponse)
    requires
        old(server).wf(),
    ensures
        final(server).wf(),
        match jail {
            None => final(server)@ == old(server)@ && final(work)@ == old(work)@ && api::carries(
                r,
                Body::Failure("jail field is required"@),
            ),
            Some(name) => {
                let i = server::position_of(old(server)@.jails, name@);
                if 0 <= i < old(server)@.jails.len() {
                    let a = bans::hand_bans(old(server)@, i, seq![ip@], now);
                    &&& final(server)@ == a.0
                    &&& bans::work_list_grew(old(work)@, final(work)@, a.1)
                    &&& api::carries(
                        r,
                        Body::Data(
                            DataView::Fields(
                                seq![
                                    ("banned"@, ValueView::Word(ip@)),
                                    ("jail"@, ValueView::Word(name@)),
                                ],
                            ),
                        ),
                    )
                } else {
                    &&& final(server)@ == old(server)@
                    &&& final(work)@ == old(work)@
                    &&& api::carries(r, Body::Failure("jail not found: "@ + name@))
                }
            },
        },
{
    let name = match jail {
        Some(j) => j,
        None => {
            return ApiResponse::err("jail field is required");
        },
    };
    match server.find_jail(name) {
        Some(i) => {
            let mut hosts: Vec<String> = Vec::new();
            hosts.push(ip.to_owned());
            assert(text::texts(hosts@).skip(0) =~= seq![ip@]);
            server.ban_hosts(i, &hosts, 0, work, now);
            api::two(
                "banned",
                Value::Word(ip.to_owned()),
                "jail",
                Value::Word(name.to_owned()),
            )
        },
        None => {
            let m = text::cat2("jail not found: ", name);
            ApiResponse::err(m.as_str())
        },
    }
}

/// `POST /unban`: lifts the ban of a host in all jails.
pub fn unban_ip(server: &mut Server, ip: &str, work: &mut Vec<Work>) -> (r: ApiResponse)
    requires
        old(server).wf(),
    ensures
        final(server).wf(),
        final(server)@ == bans::without_host(old(server)@, ip@),
        ({
            let l = bans::lifted_everywhere(old(server)@.jails, old(server)@.db, ip@);
            &&& bans::work_list_grew(old(work)@, final(work)@, l.work)
            &&& api::carries(
                r,
                Body::Data(
                    DataView::Fields(
                        seq![
                            ("unbanned"@, ValueView::Word(ip@)),
                            ("was_banned"@, ValueView::Flag(l.work.len() > 0)),
                        ],
                    ),
                ),
            )
        }),
{
    let found = server.unban_ip(ip, work);
    api::two("unbanned", Value::Word(ip.to_owned()), "was_banned", Value::Flag(found))
}

/// `POST /unban-all`: lifts all bans.
pub fn unban_all(server: &mut Server, work: &mut Vec<Work>) -> (r: ApiResponse)
    requires
        old(server).wf(),
    ensures
        final(server).wf(),
        final(server)@ == bans::without_bans(old(server)@),
        bans::work_list_grew(
            old(work)@,
            final(work)@,
            old(server)@.jails.map_values(|j: JailState| bans::flush_work(j)),
        ),
        api::carries(
            r,
            Body::Data(
                DataView::Fields(seq![("action"@, ValueView::Word("unbanned all"@))]),
            ),
        ),
{
    server.unban_all(work);
    api::one("action", Value::Word("unbanned all".to_owned()))
}

/// The value of a setting, where there is such a setting.
pub open spec fn setting_of(st: ServerState, key: Text) -> Option<ValueView> {
    if key == "loglevel"@ {
        Some(ValueView::Word(st.loglevel))
    } else if key == "logtarget"@ {
        Some(ValueView::Word(st.logtarget))
    } else if key == "dbfile"@ {
        Some(ValueView::Word(st.dbfile))
    } else if key == "dbmaxmatches"@ {
        Some(ValueView::Count(st.dbmaxmatches as u64))
    } else if key == "dbpurgeage"@ {
        Some(ValueView::Count(st.dbpurgeage))
    } else if key == "socket"@ {
        Some(ValueView::Word(st.config.global.socket))
    } else {
        None
    }
}

/// The settings.
pub open spec fn all_settings(st: ServerState) -> Seq<(Text, ValueView)> {
    seq![
        ("loglevel"@, ValueView::Word(st.loglevel)),
        ("logtarget"@, ValueView::Word(st.logtarget)),
        ("dbfile"@, ValueView::Word(st.dbfile)),
        ("dbmaxmatches"@, ValueView::Count(st.dbmaxmatches as u64)),
        ("dbpurgeage"@, ValueView::Count(st.dbpurgeage)),
        ("socket"@, ValueView::Word(st.config.global.socket)),
    ]
}

/// `GET /config`: a setting, or all of them.
pub fn get_config(server: &Server, key: Option<&str>) -> (r: ApiResponse)
    ensures
        match key {
            None => api::carries(r, Body::Data(DataView::Fields(all_settings(server@)))),
            Some(k) => match setting_of(server@, k@) {
                Some(v) => api::carries(r, Body::Data(DataView::Fields(seq![(k@, v)]))),
                None => api::carries(r, Body::Failure("unknown config key: "@ + k@)),
            },
        },
{
    match key {
        Some(k) => {
            if text::same(k, "loglevel") {
                api::one("loglevel", Value::Word(server.loglevel.clone()))
            } else if text::same(k, "logtarget") {
                api::one("logtarget", Value::Word(server.logtarget.clone()))
            } else if text::same(k, "dbfile") {
                api::one("dbfile", Value::Word(server.dbfile.clone()))
            } else if text::same(k, "dbmaxmatches") {
                api::one("dbmaxmatches", Value::Count(server.dbmaxmatches as u64))
            } else if text::same(k, "dbpurgeage") {
                api::one("dbpurgeage", Value::Count(server.dbpurgeage))
            } else if text::same(k, "socket") {
                api::one("socket", Value::Word(server.config.global.socket.clone()))
            } else {
                let m = text::cat2("unknown config key: ", k);
                ApiResponse::err(m.as_str())
            }
        },
        None => {
            let mut fields: Vec<Field> = Vec::new();
            fields.push(Field { key: "loglevel", value: Value::Word(server.loglevel.clone()) });
            fields.push(Field { key: "logtarget", value: Value::Word(server.logtarget.clone()) });
            fields.push(Field { key: "dbfile", value: Value::Word(server.dbfile.clone()) });
            fields.push(
                Field { key: "dbmaxmatches", value: Value::Count(server.dbmaxmatches as u64) },
            );
            fields.push(Field { key: "dbpurgeage", value: Value::Count(server.dbpurgeage) });
            fields.push(Field { key: "socket", value: Value::Word(server.config.global.socket.clone()) });
            assert(api::field_list(fields@) =~= all_settings(server@));
            ApiResponse::ok(ApiData::Fields(fields))
        },
    }
}

/// The directories from which `POST /reload` reads the configuration again.
pub fn reload_dirs(server: &Server) -> (r: Result<Vec<String>, ApiResponse>)
    ensures
        match r {
            Ok(v) => v@.len() > 0 && text::texts(v@) == commands::reload_dirs(server@),
            Err(a) => commands::reload_dirs(server@).len() == 0 && api::carries(
                a,
                Body::Failure("no config search dirs available"@),
            ),
        },
{
    let dirs = commands::list_reload_dirs(server);
    assert(text::texts(dirs@).len() == dirs@.len());
    if dirs.len() == 0 {
        Err(ApiResponse::err("no config search dirs available"))
    } else {
        Ok(dirs)
    }
}

/// What reading the configuration again leaves behind.
pub open spec fn reloaded(
    st: ServerState,
    parsed: Result<loader::ConfigView, ErrorView>,
    opened: Result<DbState, ErrorView>,
    now: Timestamp,
) -> (ServerState, Seq<WorkView>, Body) {
    match parsed {
        Err(e) => (
            st,
            Seq::empty(),
            Body::Failure("config parse error: "@ + error::error_text(e)),
        ),
        Ok(c) => {
            let mid = server::reconfigured(server::all_stopped(st, now), c);
            let stopped = server::stopped_all(st.jails, st.db, now).1;
            match opened {
                Err(e) => (mid, stopped, Body::Failure("reload failed: "@ + error::error_text(e))),
                Ok(db) => {
                    let r = server::all_started((ServerState { db, ..mid }), now);
                    (
                        r.0,
                        stopped + r.1,
                        Body::Data(
                            DataView::Fields(
                                seq![
                                    ("reloaded"@, ValueView::Flag(true)),
                                    ("jails_started"@, ValueView::Count(r.1.len() as u64)),
                                ],
                            ),
                        ),
                    )
                },
            }
        },
    }
}

/// `POST /reload`: goes on once the configuration was read again.
pub fn reload_config(
    server: &mut Server,
    parsed: Result<LoadedConfig, Error>,
    opened: Result<Database, Error>,
    work: &mut Vec<Work>,
    now: Timestamp,
) -> (r: ApiResponse)
    requires
        old(server).wf(),
        parsed matches Ok(c) ==> c.wf(),
    ensures
        final(server).wf(),
        ({
            let a = reloaded(
                old(server)@,
                error::outcome(parsed),
                error::outcome(opened),
                now,
            );
            &&& final(server)@ == a.0
            &&& bans::work_list_grew(old(work)@, final(work)@, a.1)
            &&& api::carries(r, a.2)
        }),
{
    let ghost a = reloaded(server@, error::outcome(parsed), error::outcome(opened), now);
    let ghost before = work@;
    let config = match parsed {
        Ok(c) => c,
        Err(e) => {
            let cause = e.message();
            let m = text::cat2("config parse error: ", cause.as_str());
            assert(server::work_list(work@) =~= server::work_list(before) + a.1);
            return ApiResponse::err(m.as_str());
        },
    };
    match opened {
        Ok(db) => {
            let n = server.reload_config(config, db, work, now);
            assert(server::work_list(work@) =~= server::work_list(before) + a.1);
            api::two("reloaded", Value::Flag(true), "jails_started", Value::Count(n as u64))
        },
        Err(e) => {
            let mut stopped = server.stop_all(now);
            let ghost more = stopped@;
            work.append(&mut stopped);
            assert(server::work_list(work@) =~= server::work_list(before) + server::work_list(
                more,
            ));
            server.adopt(config);
            let cause = e.message();
            let m = text::cat2("reload failed: ", cause.as_str());
            ApiResponse::err(m.as_str())
        },
    }
}

/// `GET /log`: there is nothing to tell yet.
pub fn get_log() -> (r: ApiResponse)
    ensures
        api::carries(
            r,
            Body::Data(
                DataView::Fields(
                    seq![
                        ("lines"@, ValueView::Names(Seq::<Text>::empty())),
                        (
                            "note"@,
                            ValueView::Word(
                                "log streaming not yet implemented; use journalctl or log file directly"@,
                            ),
                        ),
                    ],
                ),
            ),
        ),
{
    let lines: Vec<String> = Vec::new();
    assert(text::texts(lines@) =~= Seq::<Text>::empty());
    api::two(
        "lines",
        Value::Names(lines),
        "note",
        Value::Word(
            "log streaming not yet implemented; use journalctl or log file directly".to_owned(),
        ),
    )
}

/// The codes of refusals: who is locked out is told to wait; a wrong password
/// is no entry; a weak one is a bad request.
pub proof fn law_codes(m: Text, n: u64)
    ensures
        login_status(AuthFault::LockedOut(n)) == 429,
        login_status(AuthFault::InvalidCredentials) == 401,
        login_status(AuthFault::Hash(m)) == 401,
        change_status(AuthFault::IncorrectOldPassword) == 401,
        change_status(AuthFault::WeakPassword(m)) == 400,
        change_status(AuthFault::Hash(m)) == 500,
        change_status(AuthFault::UserNotFound) == 500,
{
}

/// Who a cookie stands for: the user of its session, where that holds.
pub proof fn law_cookie_user(st: AuthState, cookie: Option<Text>, t: Text, clock: u64)
    ensures
        middleware::token_in(cookie) is None ==> {
            &&& cookie_user(st, cookie, clock) is None
            &&& after_cookie(st, cookie, clock) == st
            &&& after_logout(st, cookie) == st
            &&& session_fault(cookie) == "not authenticated"@
        },
        middleware::token_in(cookie) == Some(t) ==> {
            &&& cookie_user(st, cookie, clock) == manager::session_user(st, t, clock)
            &&& after_cookie(st, cookie, clock) == manager::after_use(st, t, clock)
            &&& session_fault(cookie) == "session expired"@
            &&& crate::table::distinct(st.sessions) ==> manager::session_user(
                after_logout(st, cookie),
                t,
                clock,
            ) is None
        },
{
    if crate::table::distinct(st.sessions) {
        crate::table::law_removed_lookup(st.sessions, t, t);
    }
}

/// The settings of the server are told under their names, one or all.
pub proof fn law_settings_are_told(st: ServerState, key: Text, i: int)
    requires
        0 <= i < 6,
    ensures
        setting_of(st, "loglevel"@) == Some(ValueView::Word(st.loglevel)),
        setting_of(st, "logtarget"@) == Some(ValueView::Word(st.logtarget)),
        setting_of(st, "dbfile"@) == Some(ValueView::Word(st.dbfile)),
        setting_of(st, "dbmaxmatches"@) == Some(ValueView::Count(st.dbmaxmatches as u64)),
        setting_of(st, "dbpurgeage"@) == Some(ValueView::Count(st.dbpurgeage)),
        setting_of(st, "socket"@) == Some(ValueView::Word(st.config.global.socket)),
        all_settings(st).len() == 6,
        setting_of(st, all_settings(st)[i].0) == Some(all_settings(st)[i].1),
        (forall|k: int| 0 <= k < 6 ==> (#[trigger] all_settings(st)[k]).0 != key) ==> setting_of(
            st,
            key,
        ) is None,
{
    reveal_strlit("loglevel");
    reveal_strlit("logtarget");
    reveal_strlit("dbfile");
    reveal_strlit("dbmaxmatches");
    reveal_strlit("dbpurgeage");
    reveal_strlit("socket");
    assert("loglevel"@.len() == 8);
    assert("logtarget"@.len() == 9);
    assert("dbfile"@.len() == 6 && "dbfile"@[0] == 'd');
    assert("dbmaxmatches"@.len() == 12);
    assert("dbpurgeage"@.len() == 10);
    assert("socket"@.len() == 6 && "socket"@[0] == 's');
    let a = all_settings(st);
    assert(a[0].0 == "loglevel"@ && a[1].0 == "logtarget"@ && a[2].0 == "dbfile"@ && a[3].0
        == "dbmaxmatches"@ && a[4].0 == "dbpurgeage"@ && a[5].0 == "socket"@);
}

/// Bans and failures are summed over all jails.
pub proof fn law_sums(jails: Seq<JailState>, j: JailState)
    ensures
        sum_banned(Seq::empty()) == 0,
        sum_failed(Seq::empty()) == 0,
        sum_banned(jails.push(j)) == sum_banned(jails) + j.bans.bans.len(),
        sum_failed(jails.push(j)) == sum_failed(jails) + j.fails.tickets.len(),
        brief_of(j).name == j.config.name,
        brief_of(j).currently_banned == j.bans.bans.len(),
        brief_of(j).total_banned == j.bans.total,
        brief_of(j).currently_failed == j.fails.tickets.len(),
{
    assert(jails.push(j).drop_last() =~= jails);
}

/// What is told of the server.
pub proof fn law_status_is_told(st: ServerState, required: bool)
    requires
        sum_banned(st.jails) <= u64::MAX,
        sum_failed(st.jails) <= u64::MAX,
        st.jails.len() <= u64::MAX,
    ensures
        status_data(st, required) matches Body::Data(DataView::Fields(f)) && {
            &&& f.len() == 5
            &&& f[0] == ("jails_count"@, ValueView::Count(st.jails.len() as u64))
            &&& f[1] == (
                "jail_names"@,
                ValueView::Names(st.jails.map_values(|j: JailState| j.config.name)),
            )
            &&& f[2] == ("total_currently_banned"@, ValueView::Count(sum_banned(st.jails) as u64))
            &&& f[3] == ("total_currently_failed"@, ValueView::Count(sum_failed(st.jails) as u64))
            &&& f[4] == ("setup_required"@, ValueView::Flag(required))
        },
{
}

/// A reload over the web does what the command does.
pub proof fn law_reload_is_the_command(
    st: ServerState,
    parsed: Result<loader::ConfigView, ErrorView>,
    opened: Result<DbState, ErrorView>,
    now: Timestamp,
)
    ensures
        reloaded(st, parsed, opened, now).0 == commands::reloaded(st, None, parsed, opened, now).0,
        reloaded(st, parsed, opened, now).1 == commands::reloaded(st, None, parsed, opened, now).1,
        parsed is Err || opened is Err <==> reloaded(st, parsed, opened, now).2 is Failure,
{
}

/// What a login and a look at the user tell.
pub proof fn law_user_is_told(u: AdminView, name: Text)
    ensures
        login_data(name) == Body::Data(
            DataView::Fields(
                seq![
                    ("username"@, ValueView::Word(name)),
                    ("message"@, ValueView::Word("login successful"@)),
                ],
            ),
        ),
        admin_data(u) matches Body::Data(DataView::Fields(f)) && {
            &&& f.len() == 3
            &&& f[0] == ("username"@, ValueView::Word(u.username))
            &&& f[1] == ("created_at"@, ValueView::Number(u.created_at))
            &&& u.last_login matches Some(n) ==> f[2] == ("last_login"@, ValueView::Number(n))
            &&& u.last_login is None ==> f[2] == ("last_login"@, ValueView::Nothing)
        },
{
}

} // verus!
