//! Administrators, their sessions, and who may log in.
//!
//! Passwords are kept as Argon2 hashes. A session ends after a time without use
//! and, in any case, after a longer time. After too many failed logins from an
//! address, no login from it is accepted for a while.

use crate::text;
use crate::text::number;
use crate::text::Text;
use argon2::password_hash::SaltString;
use argon2::{Argon2, PasswordHash, PasswordHasher, PasswordVerifier};
use rand::rngs::OsRng;
use rand::RngCore;
use vstd::prelude::*;

verus! {

/// How long a session holds without use, in seconds.
pub const SESSION_IDLE_SECS: u64 = 28800;

/// How long a session holds at most, in seconds.
pub const SESSION_ABSOLUTE_SECS: u64 = 86400;

/// How many failed logins are too many.
pub const MAX_LOGIN_ATTEMPTS: usize = 5;

/// How long no login is accepted after too many failed ones, in seconds.
pub const LOGIN_LOCKOUT_SECS: u64 = 900;

/// Within how many seconds failed logins count.
pub const LOGIN_WINDOW_SECS: i64 = 900;

/// The name of the cookie that carries a session.
pub const SESSION_COOKIE_NAME: &'static str = "rail2ban_session";

/// How many characters a password has at least.
pub const MIN_PASSWORD_LEN: usize = 8;

/// The nanoseconds in a second.
pub const NANOS: u64 = 1_000_000_000;

/// What can go wrong.
#[derive(Debug)]
pub enum AuthError {
    /// The user or the password is wrong.
    InvalidCredentials,
    /// There were too many failed logins.
    LockedOut { secs_remaining: u64 },
    /// There is an administrator already.
    AlreadyExists,
    /// There is no administrator yet.
    SetupRequired,
    /// The name or the password is not acceptable.
    WeakPassword(String),
    /// The old password is wrong.
    IncorrectOldPassword,
    /// There is no such user.
    UserNotFound,
    /// The database.
    Database(String),
    /// Hashing.
    Hash(String),
    /// Input or output.
    Io(String),
}

/// The model of what can go wrong.
pub enum AuthFault {
    InvalidCredentials,
    LockedOut(u64),
    AlreadyExists,
    SetupRequired,
    WeakPassword(Text),
    IncorrectOldPassword,
    UserNotFound,
    Database(Text),
    Hash(Text),
    Io(Text),
}

impl View for AuthError {
    type V = AuthFault;

    open spec fn view(&self) -> AuthFault {
        match *self {
            AuthError::InvalidCredentials => AuthFault::InvalidCredentials,
            AuthError::LockedOut { secs_remaining } => AuthFault::LockedOut(secs_remaining),
            AuthError::AlreadyExists => AuthFault::AlreadyExists,
            AuthError::SetupRequired => AuthFault::SetupRequired,
            AuthError::WeakPassword(m) => AuthFault::WeakPassword(m@),
            AuthError::IncorrectOldPassword => AuthFault::IncorrectOldPassword,
            AuthError::UserNotFound => AuthFault::UserNotFound,
            AuthError::Database(m) => AuthFault::Database(m@),
            AuthError::Hash(m) => AuthFault::Hash(m@),
            AuthError::Io(m) => AuthFault::Io(m@),
        }
    }
}

/// An error in words.
pub open spec fn fault_text(e: AuthFault) -> Text {
    match e {
        AuthFault::InvalidCredentials => "invalid username or password"@,
        AuthFault::LockedOut(n) => "too many failed attempts, try again in "@ + number::decimal(
            n as nat,
        ) + " seconds"@,
        AuthFault::AlreadyExists => "admin user already exists"@,
        AuthFault::SetupRequired => "setup required"@,
        AuthFault::WeakPassword(m) => "password does not meet complexity requirements: "@ + m,
        AuthFault::IncorrectOldPassword => "current password is incorrect"@,
        AuthFault::UserNotFound => "user not found"@,
        AuthFault::Database(m) => "database error: "@ + m,
        AuthFault::Hash(m) => "hash error: "@ + m,
        AuthFault::Io(m) => "io error: "@ + m,
    }
}

impl AuthError {
    /// The error in words.
    pub fn message(&self) -> (r: String)
        ensures
            r@ == fault_text(self@),
    {
        match self {
            AuthError::InvalidCredentials => "invalid username or password".to_owned(),
            AuthError::LockedOut { secs_remaining } => {
                let d = number::to_decimal(*secs_remaining);
                text::cat3("too many failed attempts, try again in ", d.as_str(), " seconds")
            },
            AuthError::AlreadyExists => "admin user already exists".to_owned(),
            AuthError::SetupRequired => "setup required".to_owned(),
            AuthError::WeakPassword(m) => text::cat2(
                "password does not meet complexity requirements: ",
                m.as_str(),
            ),
            AuthError::IncorrectOldPassword => "current password is incorrect".to_owned(),
            AuthError::UserNotFound => "user not found".to_owned(),
            AuthError::Database(m) => text::cat2("database error: ", m.as_str()),
            AuthError::Hash(m) => text::cat2("hash error: ", m.as_str()),
            AuthError::Io(m) => text::cat2("io error: ", m.as_str()),
        }
    }
}

/// Whether a password goes with a hash, or what is wrong with the hash.
pub uninterp spec fn password_check(hash: Text, password: Text) -> Result<bool, Text>;

/// Whether a password goes with a hash.
pub open spec fn goes_with(hash: Text, password: Text) -> bool {
    password_check(hash, password) == Ok::<bool, Text>(true)
}

/// The model of a result with an error message.
pub open spec fn told<T>(r: Result<T, String>) -> Result<T, Text> {
    match r {
        Ok(v) => Ok(v),
        Err(e) => Err(e@),
    }
}

/// `Argon2::verify_password`, with the hash read by `PasswordHash::new`. What
/// comes out is a function of the two strings alone, named `password_check`;
/// nothing more is claimed of it here.
#[verifier::external_body]
pub(crate) fn check_password(hash: &str, password: &str) -> (r: Result<bool, String>)
    ensures
        told(r) == password_check(hash@, password@),
{
    let parsed = PasswordHash::new(hash).map_err(|e| e.to_string())?;
    Ok(Argon2::default().verify_password(password.as_bytes(), &parsed).is_ok())
}

/// `Argon2::hash_password` with a salt from `SaltString::generate`. The salt is
/// random, so the hash is not the same each time; what is claimed is that the
/// password goes with the hash that is made of it.
#[verifier::external_body]
pub(crate) fn hash_password(password: &str) -> (r: Result<String, String>)
    ensures
        r matches Ok(h) ==> goes_with(h@, password@),
{
    let salt = SaltString::generate(&mut OsRng);
    let hash = Argon2::default().hash_password(password.as_bytes(), &salt);
    hash.map(|h| h.to_string()).map_err(|e| e.to_string())
}

/// `OsRng::fill_bytes`: as many random bytes as asked for. Nothing is claimed
/// of what they are.
#[verifier::external_body]
pub(crate) fn random_bytes(n: usize) -> (r: Vec<u8>)
    requires
        n <= 1024,
    ensures
        r@.len() == n,
{
    let mut bytes = vec![0u8; n];
    OsRng.fill_bytes(&mut bytes);
    bytes
}

/// The character of a hexadecimal digit.
pub open spec fn hex_digit(d: int) -> char {
    if d < 10 {
        ('0' as u8 + d) as char
    } else {
        ('a' as u8 + (d - 10)) as char
    }
}

/// Bytes as hexadecimal digits, two for each byte.
pub open spec fn hex_text(b: Seq<u8>) -> Text
    decreases b.len(),
{
    if b.len() == 0 {
        Seq::empty()
    } else {
        hex_text(b.drop_last()).push(hex_digit((b.last() / 16) as int)).push(
            hex_digit((b.last() % 16) as int),
        )
    }
}

fn to_hex_digit(d: u8) -> (c: char)
    requires
        d < 16,
    ensures
        c == hex_digit(d as int),
{
    if d < 10 {
        ('0' as u8 + d) as char
    } else {
        ('a' as u8 + (d - 10)) as char
    }
}

/// Bytes as hexadecimal digits, two for each byte.
pub fn encode(bytes: &Vec<u8>) -> (r: String)
    ensures
        r@ == hex_text(bytes@),
{
    let mut out = String::new();
    let mut i: usize = 0;
    assert(bytes@.take(0) =~= Seq::empty());
    while i < bytes.len()
        invariant
            i <= bytes.len(),
            out@ == hex_text(bytes@.take(i as int)),
        decreases bytes.len() - i,
    {
        proof {
            assert(bytes@.take(i + 1).drop_last() =~= bytes@.take(i as int));
            assert(bytes@.take(i + 1).last() == bytes@[i as int]);
        }
        let b = bytes[i];
        out.push(to_hex_digit(b / 16));
        out.push(to_hex_digit(b % 16));
        i += 1;
    }
    assert(bytes@.take(i as int) =~= bytes@);
    out
}

/// Whether a character may stand in the name of an administrator.
pub open spec fn is_name_char(c: char) -> bool {
    text::is_letter(c) || text::is_digit(c) || c == '_' || c == '-'
}

/// What is wrong with the name of an administrator.
pub open spec fn name_fault(name: Text) -> Option<AuthFault> {
    if name.len() < 3 || name.len() > 32 {
        Some(AuthFault::WeakPassword("username must be 3-32 characters"@))
    } else if !(forall|i: int| 0 <= i < name.len() ==> is_name_char(#[trigger] name[i])) {
        Some(
            AuthFault::WeakPassword(
                "username may only contain letters, digits, underscore, hyphen"@,
            ),
        )
    } else {
        None
    }
}

/// Whether a text holds a capital letter.
pub open spec fn has_upper(s: Text) -> bool {
    exists|i: int| 0 <= i < s.len() && 'A' <= #[trigger] s[i] && s[i] <= 'Z'
}

/// Whether a text holds a small letter.
pub open spec fn has_lower(s: Text) -> bool {
    exists|i: int| 0 <= i < s.len() && 'a' <= #[trigger] s[i] && s[i] <= 'z'
}

/// Whether a text holds a digit.
pub open spec fn has_digit(s: Text) -> bool {
    exists|i: int| 0 <= i < s.len() && '0' <= #[trigger] s[i] && s[i] <= '9'
}

/// What is wrong with a password.
pub open spec fn password_fault(p: Text) -> Option<AuthFault> {
    if p.len() < MIN_PASSWORD_LEN {
        Some(AuthFault::WeakPassword("password must be at least 8 characters"@))
    } else if !has_upper(p) {
        Some(AuthFault::WeakPassword("password must contain at least one uppercase letter"@))
    } else if !has_lower(p) {
        Some(AuthFault::WeakPassword("password must contain at least one lowercase letter"@))
    } else if !has_digit(p) {
        Some(AuthFault::WeakPassword("password must contain at least one digit"@))
    } else {
        None
    }
}

/// The model of an optional error.
pub open spec fn opt_fault(e: Option<AuthError>) -> Option<AuthFault> {
    match e {
        Some(e) => Some(e@),
        None => None,
    }
}

/// Says what is wrong with the name of an administrator: it has 3 to 32
/// characters, which are letters, digits, underscores and hyphens.
pub fn validate_username(name: &str) -> (r: Option<AuthError>)
    ensures
        opt_fault(r) == name_fault(name@),
{
    let v = text::chars_of(name);
    if v.len() < 3 || v.len() > 32 {
        return Some(AuthError::WeakPassword("username must be 3-32 characters".to_owned()));
    }
    let mut i: usize = 0;
    while i < v.len()
        invariant
            i <= v.len(),
            v@ == name@,
            3 <= v@.len() <= 32,
            forall|k: int| 0 <= k < i ==> is_name_char(#[trigger] v@[k]),
        decreases v.len() - i,
    {
        let c = v[i];
        if !(text::letter(c) || text::digit(c) || c == '_' || c == '-') {
            assert(!is_name_char(name@[i as int]));
            return Some(
                AuthError::WeakPassword(
                    "username may only contain letters, digits, underscore, hyphen".to_owned(),
                ),
            );
        }
        i += 1;
    }
    None
}

fn holds_between(v: &Vec<char>, low: char, high: char) -> (r: bool)
    ensures
        r == (exists|i: int| 0 <= i < v@.len() && low <= #[trigger] v@[i] && v@[i] <= high),
{
    let mut i: usize = 0;
    while i < v.len()
        invariant
            i <= v.len(),
            forall|k: int| 0 <= k < i ==> !(low <= #[trigger] v@[k] && v@[k] <= high),
        decreases v.len() - i,
    {
        if low <= v[i] && v[i] <= high {
            return true;
        }
        i += 1;
    }
    false
}

/// Says what is wrong with a password: it has at least eight characters, and
/// among them a capital letter, a small letter and a digit.
pub fn validate_password(p: &str) -> (r: Option<AuthError>)
    ensures
        opt_fault(r) == password_fault(p@),
{
    let v = text::chars_of(p);
    if v.len() < MIN_PASSWORD_LEN {
        return Some(AuthError::WeakPassword("password must be at least 8 characters".to_owned()));
    }
    if !holds_between(&v, 'A', 'Z') {
        return Some(
            AuthError::WeakPassword(
                "password must contain at least one uppercase letter".to_owned(),
            ),
        );
    }
    if !holds_between(&v, 'a', 'z') {
        return Some(
            AuthError::WeakPassword(
                "password must contain at least one lowercase letter".to_owned(),
            ),
        );
    }
    if !holds_between(&v, '0', '9') {
        return Some(
            AuthError::WeakPassword("password must contain at least one digit".to_owned()),
        );
    }
    None
}

/// An administrator.
#[derive(Debug)]
pub struct AdminRow {
    /// The name.
    pub username: String,
    /// The hash of the password.
    pub password_hash: String,
    /// When the account was created, in seconds since 1970.
    pub created_at: i64,
    /// When it was changed.
    pub updated_at: i64,
    /// When its user logged in last.
    pub last_login: Option<i64>,
}

/// The model of an administrator.
#[verifier::ext_equal]
pub struct AdminView {
    pub username: Text,
    pub hash: Text,
    pub created_at: i64,
    pub updated_at: i64,
    pub last_login: Option<i64>,
}

impl View for AdminRow {
    type V = AdminView;

    open spec fn view(&self) -> AdminView {
        AdminView {
            username: self.username@,
            hash: self.password_hash@,
            created_at: self.created_at,
            updated_at: self.updated_at,
            last_login: self.last_login,
        }
    }
}

/// A login that was tried.
#[derive(Debug)]
pub struct LoginRow {
    /// The name that was given.
    pub username: Option<String>,
    /// The address that it came from.
    pub ip: String,
    /// Whether it succeeded.
    pub success: bool,
    /// When, in seconds since 1970.
    pub attempted_at: i64,
}

/// The model of a login that was tried.
#[verifier::ext_equal]
pub struct LoginView {
    pub username: Option<Text>,
    pub ip: Text,
    pub success: bool,
    pub at: i64,
}

impl View for LoginRow {
    type V = LoginView;

    open spec fn view(&self) -> LoginView {
        LoginView {
            username: text::opt_text(self.username),
            ip: self.ip@,
            success: self.success,
            at: self.attempted_at,
        }
    }
}

/// What is told of an administrator.
#[derive(Debug)]
pub struct AdminInfo {
    /// The name.
    pub username: String,
    /// When the account was created, in seconds since 1970.
    pub created_at: i64,
    /// When its user logged in last.
    pub last_login: Option<i64>,
}

/// The administrators, and the logins that were tried.
#[derive(Debug)]
pub struct AuthDb {
    pub users: Vec<AdminRow>,
    pub log: Vec<LoginRow>,
    /// A hash to check passwords of unknown users against, so that they take
    /// as long as those of known ones.
    pub dummy: String,
}

/// The models of administrators.
pub open spec fn admin_list(v: Seq<AdminRow>) -> Seq<AdminView> {
    v.map_values(|u: AdminRow| u@)
}

/// The models of logins that were tried.
pub open spec fn login_list(v: Seq<LoginRow>) -> Seq<LoginView> {
    v.map_values(|l: LoginRow| l@)
}

/// The position of the first administrator of a name, or their number.
pub open spec fn find_admin(users: Seq<AdminView>, name: Text) -> int
    decreases users.len(),
{
    if users.len() == 0 || users[0].username == name {
        0
    } else {
        1 + find_admin(users.drop_first(), name)
    }
}

pub proof fn lemma_find_admin(users: Seq<AdminView>, name: Text, i: int)
    requires
        0 <= i <= users.len(),
        forall|k: int| 0 <= k < i ==> (#[trigger] users[k]).username != name,
        i < users.len() ==> users[i].username == name,
    ensures
        find_admin(users, name) == i,
    decreases i,
{
    if i > 0 {
        assert(users[0].username != name);
        let t = users.drop_first();
        assert forall|k: int| 0 <= k < i - 1 implies (#[trigger] t[k]).username != name by {
            assert(t[k] == users[k + 1]);
        }
        lemma_find_admin(t, name, i - 1);
    }
}

/// What `find_admin` gives is the first position of the name.
pub proof fn lemma_admin_found(users: Seq<AdminView>, name: Text)
    ensures
        0 <= find_admin(users, name) <= users.len(),
        find_admin(users, name) < users.len() ==> users[find_admin(users, name)].username == name,
        forall|k: int| 0 <= k < find_admin(users, name) ==> (#[trigger] users[k]).username != name,
    decreases users.len(),
{
    if users.len() > 0 && users[0].username != name {
        let t = users.drop_first();
        lemma_admin_found(t, name);
        assert forall|k: int| 0 <= k < find_admin(users, name) implies (
        #[trigger] users[k]).username != name by {
            if k > 0 {
                assert(users[k] == t[k - 1]);
            }
        }
    }
}

/// Whether a password is that of an administrator. A name that there is no
/// administrator of has none.
pub open spec fn is_valid(users: Seq<AdminView>, name: Text, password: Text) -> Result<
    bool,
    AuthFault,
> {
    let i = find_admin(users, name);
    if 0 <= i < users.len() {
        match password_check(users[i].hash, password) {
            Ok(b) => Ok(b),
            Err(e) => Err(AuthFault::Hash(e)),
        }
    } else {
        Ok(false)
    }
}

/// An administrator who has not logged in yet.
pub open spec fn new_admin(name: Text, hash: Text, now: i64) -> AdminView {
    AdminView { username: name, hash, created_at: now, updated_at: now, last_login: None }
}

/// The administrators after one of them gets another password.
pub open spec fn with_password(users: Seq<AdminView>, name: Text, hash: Text, now: i64) -> Seq<
    AdminView,
> {
    let i = find_admin(users, name);
    users.update(i, AdminView { hash, updated_at: now, ..users[i] })
}

/// The administrators after one of them logged in.
pub open spec fn with_login(users: Seq<AdminView>, name: Text, now: i64) -> Seq<AdminView> {
    let i = find_admin(users, name);
    if 0 <= i < users.len() {
        users.update(i, AdminView { last_login: Some(now), ..users[i] })
    } else {
        users
    }
}

/// Whether a login failed, came from an address, and counts.
pub open spec fn counts(l: LoginView, ip: Text, now: i64) -> bool {
    l.ip == ip && !l.success && l.at > now - LOGIN_WINDOW_SECS
}

/// How many logins from an address failed lately.
pub open spec fn recent_failures(log: Seq<LoginView>, ip: Text, now: i64) -> nat
    decreases log.len(),
{
    if log.len() == 0 {
        0
    } else if counts(log.last(), ip, now) {
        recent_failures(log.drop_last(), ip, now) + 1
    } else {
        recent_failures(log.drop_last(), ip, now)
    }
}

impl AuthDb {
    /// Without administrators and logins.
    pub fn open() -> (r: AuthDb)
        ensures
            admin_list(r.users@) == Seq::<AdminView>::empty(),
            login_list(r.log@) == Seq::<LoginView>::empty(),
    {
        let dummy = match hash_password("dummy_password_for_timing_protection") {
            Ok(h) => h,
            Err(_) => String::new(),
        };
        let r = AuthDb { users: Vec::new(), log: Vec::new(), dummy };
        assert(admin_list(r.users@) =~= Seq::<AdminView>::empty());
        assert(login_list(r.log@) =~= Seq::<LoginView>::empty());
        r
    }

    fn position(&self, name: &str) -> (r: Option<usize>)
        ensures
            match r {
                Some(i) => i < self.users@.len() && find_admin(admin_list(self.users@), name@) == i,
                None => find_admin(admin_list(self.users@), name@) == self.users@.len(),
            },
    {
        let ghost all = admin_list(self.users@);
        let mut i: usize = 0;
        while i < self.users.len()
            invariant
                i <= self.users.len() == all.len(),
                all == admin_list(self.users@),
                forall|k: int| 0 <= k < i ==> (#[trigger] all[k]).username != name@,
            decreases self.users.len() - i,
        {
            if text::same(self.users[i].username.as_str(), name) {
                proof {
                    lemma_find_admin(all, name@, i as int);
                }
                return Some(i);
            }
            i += 1;
        }
        proof {
            lemma_find_admin(all, name@, all.len() as int);
        }
        None
    }

    /// Whether there is an administrator.
    pub fn admin_exists(&self) -> (r: bool)
        ensures
            r == (self.users@.len() > 0),
    {
        self.users.len() > 0
    }

    /// Adds the first administrator, given the hash of the password. Fails
    /// where there is one already.
    pub fn add_admin(&mut self, name: &str, hash: String, now: i64) -> (r: Result<(), AuthError>)
        ensures
            login_list(final(self).log@) == login_list(old(self).log@),
            ({
                let users = admin_list(old(self).users@);
                if users.len() > 0 {
                    &&& r is Err
                    &&& r->Err_0@ == AuthFault::AlreadyExists
                    &&& admin_list(final(self).users@) == users
                } else {
                    &&& r is Ok
                    &&& admin_list(final(self).users@) == users.push(
                        new_admin(name@, hash@, now),
                    )
                }
            }),
    {
        if self.admin_exists() {
            return Err(AuthError::AlreadyExists);
        }
        let ghost before = self.users@;
        let row = AdminRow {
            username: name.to_owned(),
            password_hash: hash,
            created_at: now,
            updated_at: now,
            last_login: None,
        };
        self.users.push(row);
        assert(admin_list(self.users@) =~= admin_list(before).push(row@));
        Ok(())
    }

    /// Adds the first administrator. Fails where there is one already; hashing
    /// the password can fail too.
    pub fn create_admin(&mut self, name: &str, password: &str, now: i64) -> (r: Result<
        (),
        AuthError,
    >)
        ensures
            login_list(final(self).log@) == login_list(old(self).log@),
            old(self).users@.len() > 0 ==> (r matches Err(e) && e@ == AuthFault::AlreadyExists
                && admin_list(final(self).users@) == admin_list(old(self).users@)),
            old(self).users@.len() == 0 ==> match r {
                Ok(_) => exists|h: Text|
                    goes_with(h, password@) && admin_list(final(self).users@) == admin_list(
                        old(self).users@,
                    ).push(#[trigger] new_admin(name@, h, now)),
                Err(e) => e@ is Hash && admin_list(final(self).users@) == admin_list(
                    old(self).users@,
                ),
            },
    {
        if self.admin_exists() {
            return Err(AuthError::AlreadyExists);
        }
        match hash_password(password) {
            Ok(h) => {
                let ghost v = h@;
                let r = self.add_admin(name, h, now);
                assert(admin_list(self.users@) == admin_list(old(self).users@).push(
                    new_admin(name@, v, now),
                ));
                r
            },
            Err(e) => Err(AuthError::Hash(e)),
        }
    }

    /// Whether a password is that of an administrator. For a name that there
    /// is no administrator of, a password is checked all the same.
    pub fn verify(&self, name: &str, password: &str) -> (r: Result<bool, AuthError>)
        ensures
            match r {
                Ok(b) => is_valid(admin_list(self.users@), name@, password@) == Ok::<
                    bool,
                    AuthFault,
                >(b),
                Err(e) => is_valid(admin_list(self.users@), name@, password@) == Err::<
                    bool,
                    AuthFault,
                >(e@),
            },
    {
        match self.position(name) {
            Some(i) => match check_password(self.users[i].password_hash.as_str(), password) {
                Ok(b) => Ok(b),
                Err(e) => Err(AuthError::Hash(e)),
            },
            None => {
                let _ = check_password(self.dummy.as_str(), password);
                Ok(false)
            },
        }
    }

    /// Gives an administrator another password, given its hash.
    pub fn set_password(&mut self, name: &str, hash: String, now: i64) -> (r: Result<
        (),
        AuthError,
    >)
        ensures
            login_list(final(self).log@) == login_list(old(self).log@),
            ({
                let users = admin_list(old(self).users@);
                if find_admin(users, name@) < users.len() {
                    &&& r is Ok
                    &&& admin_list(final(self).users@) == with_password(users, name@, hash@, now)
                } else {
                    &&& r is Err
                    &&& r->Err_0@ == AuthFault::UserNotFound
                    &&& admin_list(final(self).users@) == users
                }
            }),
    {
        match self.position(name) {
            Some(i) => {
                let ghost before = self.users@;
                self.users[i].password_hash = hash;
                self.users[i].updated_at = now;
                assert(admin_list(self.users@) =~= with_password(
                    admin_list(before),
                    name@,
                    hash@,
                    now,
                ));
                Ok(())
            },
            None => Err(AuthError::UserNotFound),
        }
    }

    /// Gives an administrator another password, where the old one is right.
    /// Hashing the new one can fail.
    pub fn change_password(&mut self, name: &str, old_password: &str, new_password: &str, now: i64)
        -> (r: Result<(), AuthError>)
        ensures
            login_list(final(self).log@) == login_list(old(self).log@),
            ({
                let users = admin_list(old(self).users@);
                match is_valid(users, name@, old_password@) {
                    Err(e) => r is Err && r->Err_0@ == e && admin_list(final(self).users@)
                        == users,
                    Ok(false) => r is Err && r->Err_0@ == AuthFault::IncorrectOldPassword
                        && admin_list(final(self).users@) == users,
                    Ok(true) => match r {
                        Ok(_) => exists|h: Text|
                            goes_with(h, new_password@) && admin_list(final(self).users@)
                                == #[trigger] with_password(users, name@, h, now),
                        Err(e) => e@ is Hash && admin_list(final(self).users@) == users,
                    },
                }
            }),
    {
        match self.verify(name, old_password) {
            Err(e) => Err(e),
            Ok(false) => Err(AuthError::IncorrectOldPassword),
            Ok(true) => match hash_password(new_password) {
                Ok(h) => {
                    let ghost v = h@;
                    let r = self.set_password(name, h, now);
                    assert(admin_list(self.users@) == with_password(
                        admin_list(old(self).users@),
                        name@,
                        v,
                        now,
                    ));
                    r
                },
                Err(e) => Err(AuthError::Hash(e)),
            },
        }
    }

    /// Notes that a login was tried.
    pub fn log_attempt(&mut self, name: Option<&str>, ip: &str, success: bool, now: i64)
        ensures
            final(self).users == old(self).users,
            final(self).dummy == old(self).dummy,
            login_list(final(self).log@) == login_list(old(self).log@).push(
                (LoginView { username: text::opt_str(name), ip: ip@, success, at: now }),
            ),
    {
        let ghost before = self.log@;
        let row = LoginRow {
            username: match name {
                Some(n) => Some(n.to_owned()),
                None => None,
            },
            ip: ip.to_owned(),
            success,
            attempted_at: now,
        };
        self.log.push(row);
        assert(login_list(self.log@) =~= login_list(before).push(row@));
    }

    /// Notes when an administrator logged in last.
    pub fn update_last_login(&mut self, name: &str, now: i64)
        ensures
            login_list(final(self).log@) == login_list(old(self).log@),
            admin_list(final(self).users@) == with_login(admin_list(old(self).users@), name@, now),
    {
        if let Some(i) = self.position(name) {
            let ghost before = self.users@;
            self.users[i].last_login = Some(now);
            assert(admin_list(self.users@) =~= with_login(admin_list(before), name@, now));
        }
    }

    /// What is told of an administrator.
    pub fn get_admin_info(&self, name: &str) -> (r: Result<AdminInfo, AuthError>)
        ensures
            ({
                let users = admin_list(self.users@);
                let i = find_admin(users, name@);
                match r {
                    Ok(a) => 0 <= i < users.len() && a.username@ == users[i].username
                        && a.created_at == users[i].created_at && a.last_login
                        == users[i].last_login,
                    Err(e) => i == users.len() && e@ == AuthFault::Database(
                        "Query returned no rows"@,
                    ),
                }
            }),
    {
        match self.position(name) {
            Some(i) => {
                let u = &self.users[i];
                Ok(
                    AdminInfo {
                        username: u.username.clone(),
                        created_at: u.created_at,
                        last_login: u.last_login,
                    },
                )
            },
            None => Err(AuthError::Database("Query returned no rows".to_owned())),
        }
    }

    /// How many logins from an address failed lately.
    pub fn count_recent_failures(&self, ip: &str, now: i64) -> (n: usize)
        ensures
            n == recent_failures(login_list(self.log@), ip@, now),
    {
        let ghost all = login_list(self.log@);
        let mut n: usize = 0;
        let mut i: usize = 0;
        assert(all.take(0) =~= Seq::empty());
        while i < self.log.len()
            invariant
                i <= self.log.len() == all.len(),
                n <= i,
                all == login_list(self.log@),
                n == recent_failures(all.take(i as int), ip@, now),
            decreases self.log.len() - i,
        {
            let l = &self.log[i];
            proof {
                assert(all.take(i + 1).drop_last() =~= all.take(i as int));
                assert(all.take(i + 1).last() == l@);
            }
            if text::same(l.ip.as_str(), ip) && !l.success && (l.attempted_at as i128) > now as i128
                - LOGIN_WINDOW_SECS as i128 {
                n += 1;
            }
            i += 1;
        }
        assert(all.take(i as int) =~= all);
        n
    }
}

/// The names that are taken: 3 to 32 letters and digits of ASCII, underscores
/// and hyphens.
pub proof fn law_names_that_are_taken(name: Text)
    ensures
        name_fault(name) is None <==> 3 <= name.len() <= 32 && forall|i: int|
            0 <= i < name.len() ==> {
                ||| 'a' <= #[trigger] name[i] <= 'z'
                ||| 'A' <= name[i] <= 'Z'
                ||| '0' <= name[i] <= '9'
                ||| name[i] == '_'
                ||| name[i] == '-'
            },
        name_fault(name) matches Some(e) ==> e is WeakPassword,
{
    assert forall|i: int| 0 <= i < name.len() implies (is_name_char(#[trigger] name[i]) <==> {
        ||| 'a' <= name[i] <= 'z'
        ||| 'A' <= name[i] <= 'Z'
        ||| '0' <= name[i] <= '9'
        ||| name[i] == '_'
        ||| name[i] == '-'
    }) by {}
}

/// The passwords that are taken: 8 characters or more, among them an
/// upper-case letter, a lower-case letter and a digit.
pub proof fn law_passwords_that_are_taken(p: Text)
    ensures
        ({
            let upper = exists|i: int| 0 <= i < p.len() && 'A' <= #[trigger] p[i] <= 'Z';
            let lower = exists|i: int| 0 <= i < p.len() && 'a' <= #[trigger] p[i] <= 'z';
            let digit = exists|i: int| 0 <= i < p.len() && '0' <= #[trigger] p[i] <= '9';
            &&& password_fault(p) is None <==> p.len() >= 8 && upper && lower && digit
            &&& p.len() < 8 ==> password_fault(p) == Some(
                AuthFault::WeakPassword("password must be at least 8 characters"@),
            )
            &&& p.len() >= 8 && !upper ==> password_fault(p) == Some(
                AuthFault::WeakPassword("password must contain at least one uppercase letter"@),
            )
            &&& p.len() >= 8 && upper && !lower ==> password_fault(p) == Some(
                AuthFault::WeakPassword("password must contain at least one lowercase letter"@),
            )
            &&& p.len() >= 8 && upper && lower && !digit ==> password_fault(p) == Some(
                AuthFault::WeakPassword("password must contain at least one digit"@),
            )
        }),
{
}

/// A failed login counts against its address for fifteen minutes.
pub proof fn law_failed_logins_count(log: Seq<LoginView>, l: LoginView, ip: Text, now: i64)
    ensures
        recent_failures(Seq::empty(), ip, now) == 0,
        l.ip == ip && !l.success && l.at > now - 900 ==> recent_failures(log.push(l), ip, now)
            == recent_failures(log, ip, now) + 1,
        l.ip != ip || l.success || l.at <= now - 900 ==> recent_failures(log.push(l), ip, now)
            == recent_failures(log, ip, now),
{
    assert(log.push(l).drop_last() =~= log);
}

/// A password is checked against the hash of the user with the name; a name
/// that no user has goes with no password.
pub proof fn law_password_is_that_of_the_user(
    users: Seq<AdminView>,
    name: Text,
    password: Text,
    i: int,
)
    ensures
        (forall|k: int| 0 <= k < users.len() ==> (#[trigger] users[k]).username != name)
            ==> is_valid(users, name, password) == Ok::<bool, AuthFault>(false),
        0 <= i < users.len() && users[i].username == name && (forall|k: int|
            0 <= k < i ==> (#[trigger] users[k]).username != name) ==> (match password_check(
            users[i].hash,
            password,
        ) {
            Ok(b) => is_valid(users, name, password) == Ok::<bool, AuthFault>(b),
            Err(e) => is_valid(users, name, password) == Err::<bool, AuthFault>(AuthFault::Hash(e)),
        }),
{
    if forall|k: int| 0 <= k < users.len() ==> (#[trigger] users[k]).username != name {
        lemma_find_admin(users, name, users.len() as int);
    }
    if 0 <= i < users.len() && users[i].username == name && (forall|k: int|
        0 <= k < i ==> (#[trigger] users[k]).username != name) {
        lemma_find_admin(users, name, i);
    }
}

/// A new password is a new hash and a new date of change of the user with the
/// name; a login is noted with that user; nothing else changes.
pub proof fn law_user_is_changed(
    users: Seq<AdminView>,
    name: Text,
    hash: Text,
    now: i64,
    i: int,
    k: int,
)
    requires
        0 <= i < users.len(),
        0 <= k < users.len(),
        users[i].username == name,
        forall|j: int| 0 <= j < i ==> (#[trigger] users[j]).username != name,
    ensures
        with_password(users, name, hash, now)[i] == (AdminView { hash, updated_at: now, ..users[i] }),
        with_login(users, name, now)[i] == (AdminView { last_login: Some(now), ..users[i] }),
        k != i ==> with_password(users, name, hash, now)[k] == users[k] && with_login(
            users,
            name,
            now,
        )[k] == users[k],
        with_password(users, name, hash, now).len() == users.len(),
        with_login(users, name, now).len() == users.len(),
{
    lemma_find_admin(users, name, i);
}

/// Every byte is written with two digits, the higher half first.
pub proof fn law_bytes_in_hex(b: Seq<u8>, x: u8)
    ensures
        hex_text(Seq::empty()) == Seq::<char>::empty(),
        hex_text(b.push(x)) == hex_text(b) + seq![
            "0123456789abcdef"@[x as int / 16],
            "0123456789abcdef"@[x as int % 16],
        ],
        hex_text(b).len() == 2 * b.len(),
    decreases b.len(),
{
    reveal_strlit("0123456789abcdef");
    assert(b.push(x).drop_last() =~= b);
    lemma_hex_digits(x as int / 16);
    lemma_hex_digits(x as int % 16);
    if b.len() > 0 {
        law_bytes_in_hex(b.drop_last(), b.last());
        assert(b.drop_last().push(b.last()) =~= b);
    }
}

proof fn lemma_hex_digits(d: int)
    requires
        0 <= d < 16,
    ensures
        hex_digit(d) == "0123456789abcdef"@[d],
{
    reveal_strlit("0123456789abcdef");
    let s = "0123456789abcdef"@;
    assert(s[0] == '0' && s[1] == '1' && s[2] == '2' && s[3] == '3' && s[4] == '4' && s[5] == '5'
        && s[6] == '6' && s[7] == '7' && s[8] == '8' && s[9] == '9' && s[10] == 'a' && s[11] == 'b'
        && s[12] == 'c' && s[13] == 'd' && s[14] == 'e' && s[15] == 'f');
}

/// What is said of what went wrong.
pub proof fn law_faults_are_said(m: Text, n: u64)
    ensures
        fault_text(AuthFault::InvalidCredentials) == "invalid username or password"@,
        fault_text(AuthFault::LockedOut(n)) == "too many failed attempts, try again in "@
            + number::decimal(n as nat) + " seconds"@,
        fault_text(AuthFault::AlreadyExists) == "admin user already exists"@,
        fault_text(AuthFault::SetupRequired) == "setup required"@,
        fault_text(AuthFault::WeakPassword(m))
            == "password does not meet complexity requirements: "@ + m,
        fault_text(AuthFault::IncorrectOldPassword) == "current password is incorrect"@,
        fault_text(AuthFault::UserNotFound) == "user not found"@,
        fault_text(AuthFault::Database(m)) == "database error: "@ + m,
        fault_text(AuthFault::Hash(m)) == "hash error: "@ + m,
        fault_text(AuthFault::Io(m)) == "io error: "@ + m,
{
}

} // verus!
