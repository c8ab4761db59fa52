//! Logging in and out.

use crate::table;
use crate::table::Assoc;
use crate::text;
use crate::text::Text;
use crate::web::auth;
use crate::web::auth::{AdminInfo, AdminView, AuthDb, AuthError, AuthFault, LoginView};
use vstd::prelude::*;

verus! {

/// A session. Times are nanoseconds on a clock that does not run backwards.
#[derive(Debug)]
pub struct Session {
    /// The administrator.
    pub username: String,
    /// When it was opened.
    pub created_at: u64,
    /// When it was used last.
    pub last_access: u64,
}

/// The model of a session.
#[verifier::ext_equal]
pub struct SessionView {
    pub username: Text,
    pub created_at: u64,
    pub last_access: u64,
}

impl View for Session {
    type V = SessionView;

    open spec fn view(&self) -> SessionView {
        SessionView {
            username: self.username@,
            created_at: self.created_at,
            last_access: self.last_access,
        }
    }
}

impl Clone for Session {
    fn clone(&self) -> (r: Session)
        ensures
            r@ == self@,
    {
        Session {
            username: self.username.clone(),
            created_at: self.created_at,
            last_access: self.last_access,
        }
    }
}

/// The administrators and their sessions.
#[derive(Debug)]
pub struct AuthManager {
    pub db: AuthDb,
    pub sessions: Assoc<Session>,
}

/// The model of administrators and sessions.
#[verifier::ext_equal]
pub struct AuthState {
    pub users: Seq<AdminView>,
    pub log: Seq<LoginView>,
    pub sessions: Seq<(Text, SessionView)>,
}

/// The models of sessions under their tokens.
pub open spec fn session_views(e: Seq<(Text, Session)>) -> Seq<(Text, SessionView)> {
    table::mapped(e, |s: Session| s@)
}

impl View for AuthManager {
    type V = AuthState;

    open spec fn view(&self) -> AuthState {
        AuthState {
            users: auth::admin_list(self.db.users@),
            log: auth::login_list(self.db.log@),
            sessions: session_views(self.sessions@),
        }
    }
}

/// Whether a session still holds.
pub open spec fn holds(s: SessionView, clock: u64) -> bool {
    &&& clock - s.created_at < auth::SESSION_ABSOLUTE_SECS * auth::NANOS
    &&& clock - s.last_access < auth::SESSION_IDLE_SECS * auth::NANOS
}

/// The state after a login from an address was tried.
pub open spec fn tried(st: AuthState, name: Text, ip: Text, success: bool, now: i64) -> AuthState {
    AuthState {
        log: st.log.push(LoginView { username: Some(name), ip, success, at: now }),
        ..st
    }
}

/// Whether logins from an address are not accepted.
pub open spec fn is_locked(st: AuthState, ip: Text, now: i64) -> bool {
    auth::recent_failures(st.log, ip, now) >= auth::MAX_LOGIN_ATTEMPTS
}

/// Why a login is refused; `None` where it is accepted.
pub open spec fn login_fault(
    st: AuthState,
    name: Text,
    password: Text,
    ip: Text,
    now: i64,
) -> Option<AuthFault> {
    if is_locked(st, ip, now) {
        Some(AuthFault::LockedOut(auth::LOGIN_LOCKOUT_SECS))
    } else {
        match auth::is_valid(st.users, name, password) {
            Err(e) => Some(e),
            Ok(true) => None,
            Ok(false) => if is_locked(tried(st, name, ip, false, now), ip, now) {
                Some(AuthFault::LockedOut(auth::LOGIN_LOCKOUT_SECS))
            } else {
                Some(AuthFault::InvalidCredentials)
            },
        }
    }
}

/// The state after a login is refused: it is noted, unless logins from the
/// address are not accepted or the password cannot be checked.
pub open spec fn after_refusal(
    st: AuthState,
    name: Text,
    password: Text,
    ip: Text,
    now: i64,
) -> AuthState {
    if !is_locked(st, ip, now) && auth::is_valid(st.users, name, password) == Ok::<bool, AuthFault>(
        false,
    ) {
        tried(st, name, ip, false, now)
    } else {
        st
    }
}

/// The state after a login is accepted: it is noted, and there is a session
/// under the token.
pub open spec fn after_login(
    st: AuthState,
    name: Text,
    ip: Text,
    token: Text,
    now: i64,
    clock: u64,
) -> AuthState {
    AuthState {
        users: auth::with_login(st.users, name, now),
        sessions: table::put(
            st.sessions,
            token,
            SessionView { username: name, created_at: clock, last_access: clock },
        ),
        ..tried(st, name, ip, true, now)
    }
}

/// Whose session is under a token, where it holds.
pub open spec fn session_user(st: AuthState, token: Text, clock: u64) -> Option<Text> {
    match table::lookup(st.sessions, token) {
        Some(s) => if holds(s, clock) {
            Some(s.username)
        } else {
            None
        },
        None => None,
    }
}

/// The state after the session under a token is used: one that holds is used
/// now, and one that does not is gone.
pub open spec fn after_use(st: AuthState, token: Text, clock: u64) -> AuthState {
    match table::lookup(st.sessions, token) {
        Some(s) => if holds(s, clock) {
            AuthState {
                sessions: table::put(
                    st.sessions,
                    token,
                    SessionView { last_access: clock, ..s },
                ),
                ..st
            }
        } else {
            AuthState { sessions: table::removed(st.sessions, token), ..st }
        },
        None => st,
    }
}

/// The sessions that are not of an administrator, in their order.
pub open spec fn not_of(e: Seq<(Text, SessionView)>, name: Text) -> Seq<(Text, SessionView)>
    decreases e.len(),
{
    if e.len() == 0 {
        Seq::empty()
    } else if e.last().1.username != name {
        not_of(e.drop_last(), name).push(e.last())
    } else {
        not_of(e.drop_last(), name)
    }
}

/// The sessions that hold, in their order.
pub open spec fn holding(e: Seq<(Text, SessionView)>, clock: u64) -> Seq<(Text, SessionView)>
    decreases e.len(),
{
    if e.len() == 0 {
        Seq::empty()
    } else if holds(e.last().1, clock) {
        holding(e.drop_last(), clock).push(e.last())
    } else {
        holding(e.drop_last(), clock)
    }
}

/// Why setting up the first administrator is refused before the password is
/// hashed.
pub open spec fn setup_fault(st: AuthState, name: Text, password: Text) -> Option<AuthFault> {
    if st.users.len() > 0 {
        Some(AuthFault::AlreadyExists)
    } else {
        match auth::name_fault(name) {
            Some(e) => Some(e),
            None => auth::password_fault(password),
        }
    }
}

/// The state with an administrator added.
pub open spec fn with_admin(st: AuthState, name: Text, hash: Text, now: i64) -> AuthState {
    AuthState { users: st.users.push(auth::new_admin(name, hash, now)), ..st }
}

/// The state after an administrator got another password: all sessions of the
/// administrator are gone.
pub open spec fn with_new_password(st: AuthState, name: Text, hash: Text, now: i64) -> AuthState {
    AuthState {
        users: auth::with_password(st.users, name, hash, now),
        sessions: not_of(st.sessions, name),
        ..st
    }
}

fn in_force(s: &Session, clock: u64) -> (r: bool)
    ensures
        r == holds(s@, clock),
{
    let most: u128 = auth::SESSION_ABSOLUTE_SECS as u128 * auth::NANOS as u128;
    let idle: u128 = auth::SESSION_IDLE_SECS as u128 * auth::NANOS as u128;
    (clock < s.created_at || ((clock - s.created_at) as u128) < most) && (clock < s.last_access
        || ((clock - s.last_access) as u128) < idle)
}

/// The models of sessions under their tokens.
pub open spec fn pair_views(v: Seq<(String, Session)>) -> Seq<(Text, SessionView)> {
    v.map_values(|p: (String, Session)| (p.0@, p.1@))
}

proof fn lemma_not_of(e: Seq<(Text, SessionView)>, name: Text)
    requires
        table::distinct(e),
    ensures
        table::distinct(not_of(e, name)),
        forall|k: int|
            0 <= k < not_of(e, name).len() ==> (#[trigger] not_of(e, name)[k]).1.username != name
                && e.contains(not_of(e, name)[k]),
    decreases e.len(),
{
    if e.len() > 0 {
        let d = e.drop_last();
        assert forall|a: int, b: int| 0 <= a < b < d.len() implies (#[trigger] d[a]).0 != (
        #[trigger] d[b]).0 by {
            assert(e[a].0 != e[b].0);
        }
        lemma_not_of(d, name);
        let f = not_of(d, name);
        let r = not_of(e, name);
        assert forall|k: int| 0 <= k < r.len() implies (#[trigger] r[k]).1.username != name
            && e.contains(r[k]) by {
            if k < f.len() {
                assert(r[k] == f[k]);
                let j = choose|j: int| 0 <= j < d.len() && d[j] == f[k];
                assert(e[j] == r[k]);
            } else {
                assert(e[e.len() - 1] == r[k]);
            }
        }
        assert forall|a: int, b: int| 0 <= a < b < r.len() implies (#[trigger] r[a]).0 != (
        #[trigger] r[b]).0 by {
            assert(r[a] == f[a]);
            if b < f.len() {
                assert(r[b] == f[b]);
            } else {
                let j = choose|j: int| 0 <= j < d.len() && d[j] == f[a];
                assert(e[j].0 != e[e.len() - 1].0);
            }
        }
    }
}

proof fn lemma_holding(e: Seq<(Text, SessionView)>, clock: u64)
    requires
        table::distinct(e),
    ensures
        table::distinct(holding(e, clock)),
        forall|k: int|
            0 <= k < holding(e, clock).len() ==> holds((#[trigger] holding(e, clock)[k]).1, clock)
                && e.contains(holding(e, clock)[k]),
    decreases e.len(),
{
    if e.len() > 0 {
        let d = e.drop_last();
        assert forall|a: int, b: int| 0 <= a < b < d.len() implies (#[trigger] d[a]).0 != (
        #[trigger] d[b]).0 by {
            assert(e[a].0 != e[b].0);
        }
        lemma_holding(d, clock);
        let f = holding(d, clock);
        let r = holding(e, clock);
        assert forall|k: int| 0 <= k < r.len() implies holds((#[trigger] r[k]).1, clock)
            && e.contains(r[k]) by {
            if k < f.len() {
                assert(r[k] == f[k]);
                let j = choose|j: int| 0 <= j < d.len() && d[j] == f[k];
                assert(e[j] == r[k]);
            } else {
                assert(e[e.len() - 1] == r[k]);
            }
        }
        assert forall|a: int, b: int| 0 <= a < b < r.len() implies (#[trigger] r[a]).0 != (
        #[trigger] r[b]).0 by {
            assert(r[a] == f[a]);
            if b < f.len() {
                assert(r[b] == f[b]);
            } else {
                let j = choose|j: int| 0 <= j < d.len() && d[j] == f[a];
                assert(e[j].0 != e[e.len() - 1].0);
            }
        }
    }
}

impl AuthManager {
    /// Each token has one session.
    pub open spec fn wf(&self) -> bool {
        self.sessions.wf()
    }

    /// Without sessions.
    pub fn new(db: AuthDb) -> (r: AuthManager)
        ensures
            r.wf(),
            r.db == db,
            r@.sessions == Seq::<(Text, SessionView)>::empty(),
    {
        let r = AuthManager { db, sessions: Assoc::new() };
        assert(r@.sessions =~= Seq::<(Text, SessionView)>::empty());
        r
    }

    /// Whether there is no administrator yet.
    pub fn is_setup_required(&self) -> (r: bool)
        ensures
            r == (self@.users.len() == 0),
    {
        !self.db.admin_exists()
    }

    /// Sets up the first administrator. Hashing the password can fail.
    pub fn setup(&mut self, name: &str, password: &str, now: i64) -> (r: Result<(), AuthError>)
        requires
            old(self).wf(),
        ensures
            final(self).wf(),
            match setup_fault(old(self)@, name@, password@) {
                Some(e) => r is Err && r->Err_0@ == e && final(self)@ == old(self)@,
                None => match r {
                    Ok(_) => exists|h: Text|
                        auth::goes_with(h, password@) && final(self)@ == #[trigger] with_admin(
                            old(self)@,
                            name@,
                            h,
                            now,
                        ),
                    Err(e) => e@ is Hash && final(self)@ == old(self)@,
                },
            },
    {
        if self.db.admin_exists() {
            return Err(AuthError::AlreadyExists);
        }
        if let Some(e) = auth::validate_username(name) {
            return Err(e);
        }
        if let Some(e) = auth::validate_password(password) {
            return Err(e);
        }
        let ghost st = self@;
        let r = self.db.create_admin(name, password, now);
        proof {
            if r is Ok {
                let h = choose|h: Text|
                    auth::goes_with(h, password@) && auth::admin_list(self.db.users@)
                        == st.users.push(#[trigger] auth::new_admin(name@, h, now));
                assert(self@ =~= with_admin(st, name@, h, now));
            }
        }
        r
    }

    /// Opens a session under a token for an administrator whose login was
    /// accepted.
    pub fn open_session(&mut self, name: &str, ip: &str, token: String, now: i64, clock: u64)
        requires
            old(self).wf(),
        ensures
            final(self).wf(),
            final(self)@ == after_login(old(self)@, name@, ip@, token@, now, clock),
    {
        self.db.log_attempt(Some(name), ip, true, now);
        self.db.update_last_login(name, now);
        let session = Session { username: name.to_owned(), created_at: clock, last_access: clock };
        proof {
            let f = |s: Session| s@;
            let e = self.sessions@;
            table::lemma_mapped(e, f, token@, session);
            assert(session_views(e) =~= table::mapped(e, f));
            let after = table::put(e, token@, session);
            assert(session_views(after) =~= table::mapped(after, f));
        }
        self.sessions.insert(token, session);
    }

    /// Logs in. The token of the session comes back.
    pub fn login(&mut self, name: &str, password: &str, ip: &str, now: i64, clock: u64) -> (r: Result<
        String,
        AuthError,
    >)
        requires
            old(self).wf(),
        ensures
            final(self).wf(),
            match login_fault(old(self)@, name@, password@, ip@, now) {
                Some(e) => r is Err && r->Err_0@ == e && final(self)@ == after_refusal(
                    old(self)@,
                    name@,
                    password@,
                    ip@,
                    now,
                ),
                None => r is Ok && is_token(r->Ok_0@) && final(self)@ == after_login(
                    old(self)@,
                    name@,
                    ip@,
                    r->Ok_0@,
                    now,
                    clock,
                ),
            },
    {
        if self.db.count_recent_failures(ip, now) >= auth::MAX_LOGIN_ATTEMPTS {
            return Err(AuthError::LockedOut { secs_remaining: auth::LOGIN_LOCKOUT_SECS });
        }
        let valid = match self.db.verify(name, password) {
            Ok(b) => b,
            Err(e) => {
                return Err(e);
            },
        };
        if !valid {
            self.db.log_attempt(Some(name), ip, false, now);
            if self.db.count_recent_failures(ip, now) >= auth::MAX_LOGIN_ATTEMPTS {
                return Err(AuthError::LockedOut { secs_remaining: auth::LOGIN_LOCKOUT_SECS });
            }
            return Err(AuthError::InvalidCredentials);
        }
        let token = generate_session_token();
        self.open_session(name, ip, token.clone(), now, clock);
        Ok(token)
    }

    /// Logs out: the session under a token is gone.
    pub fn logout(&mut self, token: &str)
        requires
            old(self).wf(),
        ensures
            final(self).wf(),
            final(self)@ == (AuthState {
                sessions: table::removed(old(self)@.sessions, token@),
                ..old(self)@
            }),
    {
        proof {
            let f = |s: Session| s@;
            let e = self.sessions@;
            table::lemma_mapped_removed(e, f, token@);
            assert(session_views(e) =~= table::mapped(e, f));
            let after = table::removed(e, token@);
            assert(session_views(after) =~= table::mapped(after, f));
        }
        let _ = self.sessions.remove(token);
    }

    /// Uses the session under a token; its administrator comes back, where it
    /// still holds.
    pub fn validate_session(&mut self, token: &str, clock: u64) -> (r: Option<String>)
        requires
            old(self).wf(),
        ensures
            final(self).wf(),
            text::opt_text(r) == session_user(old(self)@, token@, clock),
            final(self)@ == after_use(old(self)@, token@, clock),
    {
        let ghost e = self.sessions@;
        let ghost f = |s: Session| s@;
        proof {
            table::lemma_mapped(e, f, token@, arbitrary());
            assert(session_views(e) =~= table::mapped(e, f));
        }
        let mut s = match self.sessions.get(token) {
            Some(s) => s.clone(),
            None => {
                return None;
            },
        };
        if !in_force(&s, clock) {
            self.logout(token);
            return None;
        }
        s.last_access = clock;
        let name = s.username.clone();
        proof {
            table::lemma_mapped(e, f, token@, s);
            let after = table::put(e, token@, s);
            assert(session_views(after) =~= table::mapped(after, f));
        }
        self.sessions.insert(token.to_owned(), s);
        Some(name)
    }

    fn drop_sessions_of(&mut self, name: &str)
        requires
            old(self).wf(),
        ensures
            final(self).wf(),
            final(self)@ == (AuthState {
                sessions: not_of(old(self)@.sessions, name@),
                ..old(self)@
            }),
    {
        let ghost e = self@.sessions;
        let mut kept: Vec<(String, Session)> = Vec::new();
        let mut i: usize = 0;
        proof {
            assert(e.take(0) =~= Seq::empty());
            assert(pair_views(kept@) =~= Seq::empty());
            let f = |s: Session| s@;
            table::lemma_mapped_removed(self.sessions@, f, Seq::empty());
            assert(e =~= table::mapped(self.sessions@, f));
        }
        while i < self.sessions.items.len()
            invariant
                i <= self.sessions.items.len(),
                e == self@.sessions,
                pair_views(kept@) == not_of(e.take(i as int), name@),
            decreases self.sessions.items.len() - i,
        {
            let s = &self.sessions.items[i].1;
            proof {
                assert(e.take(i + 1).drop_last() =~= e.take(i as int));
                assert(e.take(i + 1).last() == (self.sessions.items@[i as int].0@, s@));
            }
            if !text::same(s.username.as_str(), name) {
                let ghost before = kept@;
                let p = (self.sessions.items[i].0.clone(), s.clone());
                kept.push(p);
                assert(pair_views(kept@) =~= pair_views(before).push((p.0@, p.1@)));
            }
            i += 1;
        }
        proof {
            assert(e.take(i as int) =~= e);
            lemma_not_of(e, name@);
        }
        self.sessions = Assoc { items: kept };
        proof {
            let f = |s: Session| s@;
            assert(self@.sessions =~= pair_views(kept@));
            table::lemma_mapped_removed(self.sessions@, f, Seq::empty());
            assert(self@.sessions =~= table::mapped(self.sessions@, f));
        }
    }

    /// Gives an administrator another password, where the old one is right.
    /// All sessions of the administrator end. Hashing the password can fail.
    pub fn change_password(&mut self, name: &str, old_password: &str, new_password: &str, now: i64)
        -> (r: Result<(), AuthError>)
        requires
            old(self).wf(),
        ensures
            final(self).wf(),
            match change_fault(old(self)@, name@, old_password@, new_password@) {
                Some(e) => r is Err && r->Err_0@ == e && final(self)@ == old(self)@,
                None => match r {
                    Ok(_) => exists|h: Text|
                        auth::goes_with(h, new_password@) && final(self)@
                            == #[trigger] with_new_password(old(self)@, name@, h, now),
                    Err(e) => e@ is Hash && final(self)@ == old(self)@,
                },
            },
    {
        if let Some(e) = auth::validate_password(new_password) {
            return Err(e);
        }
        let ghost st = self@;
        let r = self.db.change_password(name, old_password, new_password, now);
        if r.is_err() {
            assert(self@ =~= st);
            return r;
        }
        let ghost h = choose|h: Text|
            auth::goes_with(h, new_password@) && auth::admin_list(self.db.users@)
                == #[trigger] auth::with_password(st.users, name@, h, now);
        self.drop_sessions_of(name);
        assert(self@ =~= with_new_password(st, name@, h, now));
        Ok(())
    }

    /// What is told of an administrator.
    pub fn get_admin_info(&self, name: &str) -> (r: Result<AdminInfo, AuthError>)
        ensures
            ({
                let users = self@.users;
                let i = auth::find_admin(users, name@);
                match r {
                    Ok(a) => 0 <= i < users.len() && a.username@ == users[i].username
                        && a.created_at == users[i].created_at && a.last_login
                        == users[i].last_login,
                    Err(e) => i == users.len() && e@ == AuthFault::Database(
                        "Query returned no rows"@,
                    ),
                }
            }),
    {
        self.db.get_admin_info(name)
    }

    /// Drops the sessions that no longer hold.
    pub fn cleanup_expired_sessions(&mut self, clock: u64)
        requires
            old(self).wf(),
        ensures
            final(self).wf(),
            final(self)@ == (AuthState {
                sessions: holding(old(self)@.sessions, clock),
                ..old(self)@
            }),
    {
        let ghost e = self@.sessions;
        let mut kept: Vec<(String, Session)> = Vec::new();
        let mut i: usize = 0;
        proof {
            assert(e.take(0) =~= Seq::empty());
            assert(pair_views(kept@) =~= Seq::empty());
            let f = |s: Session| s@;
            table::lemma_mapped_removed(self.sessions@, f, Seq::empty());
            assert(e =~= table::mapped(self.sessions@, f));
        }
        while i < self.sessions.items.len()
            invariant
                i <= self.sessions.items.len(),
                e == self@.sessions,
                pair_views(kept@) == holding(e.take(i as int), clock),
            decreases self.sessions.items.len() - i,
        {
            let s = &self.sessions.items[i].1;
            proof {
                assert(e.take(i + 1).drop_last() =~= e.take(i as int));
                assert(e.take(i + 1).last() == (self.sessions.items@[i as int].0@, s@));
            }
            if in_force(s, clock) {
                let ghost before = kept@;
                let p = (self.sessions.items[i].0.clone(), s.clone());
                kept.push(p);
                assert(pair_views(kept@) =~= pair_views(before).push((p.0@, p.1@)));
            }
            i += 1;
        }
        proof {
            assert(e.take(i as int) =~= e);
            lemma_holding(e, clock);
        }
        self.sessions = Assoc { items: kept };
        proof {
            let f = |s: Session| s@;
            assert(self@.sessions =~= pair_views(kept@));
            table::lemma_mapped_removed(self.sessions@, f, Seq::empty());
            assert(self@.sessions =~= table::mapped(self.sessions@, f));
        }
    }
}

/// Why changing a password is refused before the new one is hashed.
pub open spec fn change_fault(
    st: AuthState,
    name: Text,
    old_password: Text,
    new_password: Text,
) -> Option<AuthFault> {
    match auth::password_fault(new_password) {
        Some(e) => Some(e),
        None => match auth::is_valid(st.users, name, old_password) {
            Err(e) => Some(e),
            Ok(true) => None,
            Ok(false) => Some(AuthFault::IncorrectOldPassword),
        },
    }
}

/// Whether a text has the form of a token: 64 hexadecimal digits.
pub open spec fn is_token(t: Text) -> bool {
    exists|b: Seq<u8>| b.len() == 32 && t == #[trigger] auth::hex_text(b)
}

/// A new token: 32 random bytes in hexadecimal digits.
fn generate_session_token() -> (r: String)
    ensures
        is_token(r@),
{
    let bytes = auth::random_bytes(32);
    let r = auth::encode(&bytes);
    assert(r@ == auth::hex_text(bytes@));
    r
}

/// Once there is an administrator, setting up is refused.
pub proof fn law_setup_only_once(
    st: AuthState,
    name: Text,
    hash: Text,
    now: i64,
    other: Text,
    password: Text,
)
    ensures
        setup_fault(with_admin(st, name, hash, now), other, password) == Some(
            AuthFault::AlreadyExists,
        ),
{
}

/// After setting up, the administrator can log in with the password, from any
/// address that is not locked out.
pub proof fn law_setup_then_login(
    st: AuthState,
    name: Text,
    hash: Text,
    password: Text,
    ip: Text,
    now: i64,
    later: i64,
)
    requires
        setup_fault(st, name, password) is None,
        auth::goes_with(hash, password),
        !is_locked(st, ip, later),
    ensures
        login_fault(with_admin(st, name, hash, now), name, password, ip, later) is None,
{
    let users = with_admin(st, name, hash, now).users;
    assert(users[0].username == name);
    assert(auth::find_admin(users, name) == 0);
}

/// From an address that is locked out, no login is accepted, not even with the
/// right password.
pub proof fn law_locked_out(st: AuthState, name: Text, password: Text, ip: Text, now: i64)
    requires
        is_locked(st, ip, now),
    ensures
        login_fault(st, name, password, ip, now) == Some(
            AuthFault::LockedOut(auth::LOGIN_LOCKOUT_SECS),
        ),
        after_refusal(st, name, password, ip, now) == st,
{
}

/// A failed login counts against its own address and against no other; a login
/// that succeeded counts against none.
pub proof fn law_failures_count_by_address(
    st: AuthState,
    name: Text,
    ip: Text,
    other: Text,
    success: bool,
    now: i64,
)
    requires
        other != ip,
    ensures
        auth::recent_failures(tried(st, name, ip, success, now).log, ip, now)
            == auth::recent_failures(st.log, ip, now) + (if success {
            0nat
        } else {
            1nat
        }),
        auth::recent_failures(tried(st, name, ip, success, now).log, other, now)
            == auth::recent_failures(st.log, other, now),
{
    let log = tried(st, name, ip, success, now).log;
    assert(log.drop_last() =~= st.log);
}

/// A login opens a session that holds for its administrator until it has been
/// idle for too long or is too old.
pub proof fn law_login_opens_session(
    st: AuthState,
    name: Text,
    ip: Text,
    token: Text,
    now: i64,
    clock: u64,
    later: u64,
)
    requires
        clock <= later,
    ensures
        session_user(after_login(st, name, ip, token, now, clock), token, later) == (if later
            - clock < auth::SESSION_IDLE_SECS * auth::NANOS {
            Some(name)
        } else {
            None
        }),
{
    let s = SessionView { username: name, created_at: clock, last_access: clock };
    table::law_put_lookup(st.sessions, token, s, token);
    assert(auth::SESSION_IDLE_SECS * auth::NANOS <= auth::SESSION_ABSOLUTE_SECS * auth::NANOS);
}

/// Using a session keeps it from becoming idle, but not from becoming too old.
pub proof fn law_use_keeps_session(st: AuthState, token: Text, clock: u64, later: u64)
    requires
        session_user(st, token, clock) is Some,
        clock <= later,
    ensures
        ({
            let s = table::lookup(st.sessions, token)->0;
            session_user(after_use(st, token, clock), token, later) == (if later - clock
                < auth::SESSION_IDLE_SECS * auth::NANOS && later - s.created_at
                < auth::SESSION_ABSOLUTE_SECS * auth::NANOS {
                Some(s.username)
            } else {
                None
            })
        }),
{
    let s = table::lookup(st.sessions, token)->0;
    table::law_put_lookup(
        st.sessions,
        token,
        SessionView { last_access: clock, ..s },
        token,
    );
}

/// After logging out, the token opens nothing, and other sessions are as they
/// were.
pub proof fn law_logout_ends_session(st: AuthState, token: Text, other: Text, clock: u64)
    requires
        table::distinct(st.sessions),
    ensures
        ({
            let after = AuthState { sessions: table::removed(st.sessions, token), ..st };
            &&& session_user(after, token, clock) is None
            &&& other != token ==> session_user(after, other, clock) == session_user(
                st,
                other,
                clock,
            )
        }),
{
    table::law_removed_lookup(st.sessions, token, other);
}

/// After a change of password, no session of the administrator is left, the
/// new password goes with the account, and sessions of others are as they
/// were.
pub proof fn law_new_password_ends_sessions(
    st: AuthState,
    name: Text,
    hash: Text,
    password: Text,
    now: i64,
    token: Text,
    clock: u64,
)
    requires
        table::distinct(st.sessions),
        0 <= auth::find_admin(st.users, name) < st.users.len(),
        auth::goes_with(hash, password),
    ensures
        ({
            let after = with_new_password(st, name, hash, now);
            &&& session_user(after, token, clock) != Some(name)
            &&& session_user(st, token, clock) != Some(name) ==> session_user(after, token, clock)
                == session_user(st, token, clock)
            &&& auth::is_valid(after.users, name, password) == Ok::<bool, AuthFault>(true)
        }),
{
    let after = with_new_password(st, name, hash, now);
    lemma_not_of(st.sessions, name);
    table::lemma_slot(after.sessions, token);
    table::lemma_slot(st.sessions, token);
    lemma_not_of_lookup(st.sessions, name, token);
    let i = auth::find_admin(st.users, name);
    auth::lemma_admin_found(st.users, name);
    assert forall|k: int| 0 <= k < i implies (#[trigger] after.users[k]).username != name by {
        assert(after.users[k] == st.users[k]);
    }
    auth::lemma_find_admin(after.users, name, i);
}

/// Dropping the sessions of an administrator leaves the others where they
/// were.
proof fn lemma_not_of_lookup(e: Seq<(Text, SessionView)>, name: Text, token: Text)
    requires
        table::distinct(e),
    ensures
        table::lookup(not_of(e, name), token) == (match table::lookup(e, token) {
            Some(s) => if s.username != name {
                Some(s)
            } else {
                None
            },
            None => None,
        }),
    decreases e.len(),
{
    let r = not_of(e, name);
    lemma_not_of(e, name);
    table::lemma_slot(e, token);
    table::lemma_slot(r, token);
    let i = table::slot(e, token);
    let j = table::slot(r, token);
    if j < r.len() {
        let k = choose|k: int| 0 <= k < e.len() && e[k] == r[j];
        assert(e[k].0 == token);
        if k < i {
            assert(e[k].0 != token);
        } else if i < k {
            assert(e[i].0 != e[k].0);
        }
    } else if i < e.len() && e[i].1.username != name {
        lemma_kept(e, name, i);
        let k = choose|k: int| 0 <= k < r.len() && r[k] == e[i];
        assert(r[k].0 == token);
    }
}

proof fn lemma_kept(e: Seq<(Text, SessionView)>, name: Text, i: int)
    requires
        0 <= i < e.len(),
        e[i].1.username != name,
    ensures
        not_of(e, name).contains(e[i]),
    decreases e.len(),
{
    let f = not_of(e.drop_last(), name);
    let r = not_of(e, name);
    if i == e.len() - 1 {
        assert(r[f.len() as int] == e[i]);
    } else {
        assert(e.drop_last()[i] == e[i]);
        lemma_kept(e.drop_last(), name, i);
        let k = choose|k: int| 0 <= k < f.len() && f[k] == e[i];
        assert(r[k] == e[i]);
    }
}

/// A session holds for a day, and for eight hours after it was used last.
pub proof fn law_session_limits(s: SessionView, clock: u64)
    ensures
        holds(s, clock) <==> clock - s.created_at < 86400 * 1_000_000_000 && clock - s.last_access
            < 28800 * 1_000_000_000,
{
}

/// An address with five failed logins that count is locked out for fifteen
/// minutes.
pub proof fn law_lockout(st: AuthState, name: Text, password: Text, ip: Text, now: i64)
    ensures
        is_locked(st, ip, now) <==> auth::recent_failures(st.log, ip, now) >= 5,
        auth::recent_failures(st.log, ip, now) >= 5 ==> login_fault(st, name, password, ip, now)
            == Some(AuthFault::LockedOut(900)),
{
}

/// A login succeeds with the right password; with a wrong one it is refused
/// and noted, and the fifth time in a row the address is locked out.
pub proof fn law_login(st: AuthState, name: Text, password: Text, ip: Text, now: i64)
    requires
        auth::recent_failures(st.log, ip, now) < 5,
        now - 900 >= i64::MIN,
    ensures
        auth::is_valid(st.users, name, password) == Ok::<bool, AuthFault>(true) ==> login_fault(
            st,
            name,
            password,
            ip,
            now,
        ) is None,
        auth::is_valid(st.users, name, password) == Ok::<bool, AuthFault>(false) ==> {
            &&& auth::recent_failures(st.log, ip, now) == 4 ==> login_fault(
                st,
                name,
                password,
                ip,
                now,
            ) == Some(AuthFault::LockedOut(900))
            &&& auth::recent_failures(st.log, ip, now) < 4 ==> login_fault(
                st,
                name,
                password,
                ip,
                now,
            ) == Some(AuthFault::InvalidCredentials)
            &&& after_refusal(st, name, password, ip, now) == (AuthState {
                log: st.log.push(
                    LoginView { username: Some(name), ip, success: false, at: now },
                ),
                ..st
            })
        },
{
    let l = LoginView { username: Some(name), ip, success: false, at: now };
    auth::law_failed_logins_count(st.log, l, ip, now);
}

/// A login opens a session of the user under the token, and is noted.
pub proof fn law_login_is_noted(
    st: AuthState,
    name: Text,
    ip: Text,
    token: Text,
    now: i64,
    clock: u64,
)
    ensures
        ({
            let after = after_login(st, name, ip, token, now, clock);
            &&& table::lookup(after.sessions, token) == Some(
                SessionView { username: name, created_at: clock, last_access: clock },
            )
            &&& after.log == st.log.push(
                LoginView { username: Some(name), ip, success: true, at: now },
            )
            &&& after.users == auth::with_login(st.users, name, now)
        }),
{
    table::law_put_lookup(
        st.sessions,
        token,
        SessionView { username: name, created_at: clock, last_access: clock },
        token,
    );
}

/// A setup needs a name and a password that are taken, and that there is no
/// user yet.
pub proof fn law_setup(st: AuthState, name: Text, password: Text, hash: Text, now: i64)
    ensures
        setup_fault(st, name, password) is None <==> st.users.len() == 0 && auth::name_fault(
            name,
        ) is None && auth::password_fault(password) is None,
        st.users.len() == 0 && auth::name_fault(name) is Some ==> setup_fault(st, name, password)
            == auth::name_fault(name),
        st.users.len() == 0 && auth::name_fault(name) is None ==> setup_fault(st, name, password)
            == auth::password_fault(password),
        with_admin(st, name, hash, now) == (AuthState {
            users: st.users.push(
                AdminView {
                    username: name,
                    hash,
                    created_at: now,
                    updated_at: now,
                    last_login: None,
                },
            ),
            ..st
        }),
{
}

/// A password is changed to one that is taken, by who knows the one before.
pub proof fn law_password_change(st: AuthState, name: Text, before: Text, after: Text)
    ensures
        change_fault(st, name, before, after) is None <==> auth::password_fault(after) is None
            && auth::is_valid(st.users, name, before) == Ok::<bool, AuthFault>(true),
        auth::password_fault(after) is Some ==> change_fault(st, name, before, after)
            == auth::password_fault(after),
        auth::password_fault(after) is None && auth::is_valid(st.users, name, before) == Ok::<
            bool,
            AuthFault,
        >(false) ==> change_fault(st, name, before, after) == Some(AuthFault::IncorrectOldPassword),
{
}

/// Sessions that do not hold any more go, one by one; and so do those of a
/// user with a new password.
pub proof fn law_sessions_one_by_one(
    e: Seq<(Text, SessionView)>,
    p: (Text, SessionView),
    clock: u64,
    name: Text,
)
    ensures
        holding(Seq::empty(), clock) == Seq::<(Text, SessionView)>::empty(),
        holds(p.1, clock) ==> holding(e.push(p), clock) == holding(e, clock).push(p),
        !holds(p.1, clock) ==> holding(e.push(p), clock) == holding(e, clock),
        not_of(Seq::empty(), name) == Seq::<(Text, SessionView)>::empty(),
        p.1.username != name ==> not_of(e.push(p), name) == not_of(e, name).push(p),
        p.1.username == name ==> not_of(e.push(p), name) == not_of(e, name),
{
    assert(e.push(p).drop_last() =~= e);
}

} // verus!
