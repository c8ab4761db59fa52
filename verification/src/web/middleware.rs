//! What stands between a request and its handler: who asks, whether the
//! request may pass, and how often.

use crate::ip;
use crate::ip::IpAddr;
use crate::table;
use crate::table::Assoc;
use crate::text;
use crate::text::find;
use crate::text::number;
use crate::text::split;
use crate::text::trim;
use crate::text::Text;
use crate::web::auth;
use crate::web::manager;
use crate::web::manager::{AuthManager, AuthState};
use vstd::prelude::*;

verus! {

/// Whether a path can be used without a session.
pub open spec fn is_public(path: Text) -> bool {
    ||| path == "/emc/api/login"@
    ||| path == "/emc/api/logout"@
    ||| path == "/emc/api/session"@
    ||| path == "/emc/api/setup"@
    ||| path == "/emc/api/status"@
    ||| path == "/emc/api/version"@
    ||| path == "/emc"@
    ||| path == "/emc/"@
}

/// Whether a path is that of a request that may not come too often.
pub open spec fn is_limited(path: Text) -> bool {
    path == "/emc/api/login"@ || path == "/emc/api/setup"@
}

/// Whether a path needs a session: it belongs to the interface and is not
/// public.
pub open spec fn needs_session(path: Text) -> bool {
    find::starts(path, "/emc/api/"@) && !is_public(path)
}

/// The address that a header gives, where it is one.
pub open spec fn header_ip(h: Option<Text>) -> Option<IpAddr> {
    match h {
        Some(s) => ip::ip_of(trim::trimmed(s)),
        None => None,
    }
}

/// The first entry of a header with several.
pub open spec fn first_entry(h: Option<Text>) -> Option<Text> {
    match h {
        Some(s) => Some(split::pieces(s, ',')[0]),
        None => None,
    }
}

/// The address of a client. The headers of a proxy count only where it is
/// trusted.
pub open spec fn client_ip(
    real_ip: Option<Text>,
    forwarded: Option<Text>,
    peer: Option<IpAddr>,
    trust_proxy: bool,
) -> Text {
    if trust_proxy && header_ip(real_ip) is Some {
        ip::ip_text(header_ip(real_ip)->0)
    } else if trust_proxy && header_ip(first_entry(forwarded)) is Some {
        ip::ip_text(header_ip(first_entry(forwarded))->0)
    } else {
        match peer {
            Some(p) => ip::ip_text(p),
            None => "0.0.0.0"@,
        }
    }
}

fn address_in(h: Option<&str>) -> (r: Option<IpAddr>)
    ensures
        r == header_ip(text::opt_str(h)),
{
    match h {
        Some(s) => IpAddr::parse(trim::trim(s)),
        None => None,
    }
}

/// The address of a client, from the headers `X-Real-IP` and
/// `X-Forwarded-For` of a proxy that is trusted, or else of the connection.
pub fn extract_client_ip(
    real_ip: Option<&str>,
    forwarded: Option<&str>,
    peer: Option<IpAddr>,
    trust_proxy: bool,
) -> (r: String)
    ensures
        r@ == client_ip(text::opt_str(real_ip), text::opt_str(forwarded), peer, trust_proxy),
{
    if trust_proxy {
        if let Some(a) = address_in(real_ip) {
            return a.show();
        }
        if let Some(f) = forwarded {
            let parts = split::split(f, ',');
            assert(text::texts(parts@)[0] == parts@[0]@);
            if let Some(a) = address_in(Some(parts[0].as_str())) {
                return a.show();
            }
        }
    }
    match peer {
        Some(p) => p.show(),
        None => "0.0.0.0".to_owned(),
    }
}

/// What the pair of a session's cookie starts with.
pub open spec fn cookie_start() -> Text {
    auth::SESSION_COOKIE_NAME@ + "="@
}

/// The token in the parts of a cookie header from position `i` on.
pub open spec fn token_from(parts: Seq<Text>, i: int) -> Option<Text>
    decreases parts.len() - i,
{
    if i < 0 || i >= parts.len() {
        None
    } else {
        match find::after_prefix(trim::trimmed(parts[i]), cookie_start()) {
            Some(t) => Some(t),
            None => token_from(parts, i + 1),
        }
    }
}

/// The token in a cookie header.
pub open spec fn token_in(cookie: Option<Text>) -> Option<Text> {
    match cookie {
        Some(c) => token_from(split::pieces(c, ';'), 0),
        None => None,
    }
}

/// The token of a session in a cookie header.
pub fn extract_session_token(cookie: Option<&str>) -> (r: Option<String>)
    ensures
        text::opt_text(r) == token_in(text::opt_str(cookie)),
{
    let c = match cookie {
        Some(c) => c,
        None => {
            return None;
        },
    };
    let parts = split::split(c, ';');
    let start = text::cat2(auth::SESSION_COOKIE_NAME, "=");
    let ghost all = text::texts(parts@);
    let mut i: usize = 0;
    while i < parts.len()
        invariant
            i <= parts.len(),
            all == text::texts(parts@),
            all == split::pieces(c@, ';'),
            cookie == Some(c),
            start@ == cookie_start(),
            token_from(all, 0) == token_from(all, i as int),
        decreases parts.len() - i,
    {
        if let Some(t) = find::strip_prefix(trim::trim(parts[i].as_str()), start.as_str()) {
            return Some(t.to_owned());
        }
        i += 1;
    }
    None
}

/// The `Set-Cookie` value for a token.
pub open spec fn session_cookie(token: Text, max_age: int) -> Text {
    cookie_start() + token + "; HttpOnly; SameSite=Strict; Path=/emc; Max-Age="@
        + number::decimal_int(max_age)
}

/// The `Set-Cookie` value for a token: scripts do not see the cookie, and it is
/// sent to the interface only.
pub fn build_session_cookie(token: &str, max_age_secs: i64) -> (r: String)
    ensures
        r@ == session_cookie(token@, max_age_secs as int),
{
    let age = number::to_decimal_int(max_age_secs);
    text::cat5(
        auth::SESSION_COOKIE_NAME,
        "=",
        token,
        "; HttpOnly; SameSite=Strict; Path=/emc; Max-Age=",
        age.as_str(),
    )
}

/// The `Set-Cookie` value that clears the cookie.
pub fn clear_session_cookie() -> (r: String)
    ensures
        r@ == auth::SESSION_COOKIE_NAME@ + "=; HttpOnly; SameSite=Strict; Path=/emc; Max-Age=0"@,
{
    text::cat2(
        auth::SESSION_COOKIE_NAME,
        "=; HttpOnly; SameSite=Strict; Path=/emc; Max-Age=0",
    )
}

/// The headers that every response gets.
pub fn security_headers() -> (r: Vec<(&'static str, &'static str)>)
    ensures
        r@.map_values(|p: (&'static str, &'static str)| (p.0@, p.1@)) == seq![
            ("x-content-type-options"@, "nosniff"@),
            ("x-frame-options"@, "DENY"@),
            ("x-xss-protection"@, "1; mode=block"@),
            ("referrer-policy"@, "strict-origin-when-cross-origin"@),
            ("cache-control"@, "no-store, no-cache, must-revalidate, private"@),
        ],
{
    let mut r: Vec<(&'static str, &'static str)> = Vec::new();
    r.push(("x-content-type-options", "nosniff"));
    r.push(("x-frame-options", "DENY"));
    r.push(("x-xss-protection", "1; mode=block"));
    r.push(("referrer-policy", "strict-origin-when-cross-origin"));
    r.push(("cache-control", "no-store, no-cache, must-revalidate, private"));
    assert(r@.map_values(|p: (&'static str, &'static str)| (p.0@, p.1@)) =~= seq![
        ("x-content-type-options"@, "nosniff"@),
        ("x-frame-options"@, "DENY"@),
        ("x-xss-protection"@, "1; mode=block"@),
        ("referrer-policy"@, "strict-origin-when-cross-origin"@),
        ("cache-control"@, "no-store, no-cache, must-revalidate, private"@),
    ]);
    r
}

/// Whether a request may pass, or why not.
pub open spec fn access_fault(st: AuthState, path: Text, cookie: Option<Text>, clock: u64) -> Option<
    Text,
> {
    if !needs_session(path) {
        None
    } else {
        match token_in(cookie) {
            None => Some("not authenticated"@),
            Some(t) => match manager::session_user(st, t, clock) {
                Some(_) => None,
                None => Some("session expired or invalid"@),
            },
        }
    }
}

/// The state after a request asked to pass: the session that it names is used.
pub open spec fn after_access(
    st: AuthState,
    path: Text,
    cookie: Option<Text>,
    clock: u64,
) -> AuthState {
    if !needs_session(path) {
        st
    } else {
        match token_in(cookie) {
            None => st,
            Some(t) => manager::after_use(st, t, clock),
        }
    }
}

/// Whether a path can be used without a session.
pub fn public_path(path: &str) -> (r: bool)
    ensures
        r == is_public(path@),
{
    text::same(path, "/emc/api/login") || text::same(path, "/emc/api/logout") || text::same(
        path,
        "/emc/api/session",
    ) || text::same(path, "/emc/api/setup") || text::same(path, "/emc/api/status") || text::same(
        path,
        "/emc/api/version",
    ) || text::same(path, "/emc") || text::same(path, "/emc/")
}

/// Whether a path is that of a request that may not come too often.
pub fn limited_path(path: &str) -> (r: bool)
    ensures
        r == is_limited(path@),
{
    text::same(path, "/emc/api/login") || text::same(path, "/emc/api/setup")
}

/// Whether a request for a path may pass; `Some` says why not.
pub fn require_auth(auth: &mut AuthManager, path: &str, cookie: Option<&str>, clock: u64) -> (r:
    Option<&'static str>)
    requires
        old(auth).wf(),
    ensures
        final(auth).wf(),
        text::opt_str(r) == access_fault(old(auth)@, path@, text::opt_str(cookie), clock),
        final(auth)@ == after_access(old(auth)@, path@, text::opt_str(cookie), clock),
{
    if public_path(path) || !find::starts_with(path, "/emc/api/") {
        return None;
    }
    match extract_session_token(cookie) {
        None => Some("not authenticated"),
        Some(t) => match auth.validate_session(t.as_str(), clock) {
            Some(_) => None,
            None => Some("session expired or invalid"),
        },
    }
}

/// Allows so many requests of a key within a sliding window. Times are
/// nanoseconds on a clock that does not run backwards.
#[derive(Debug)]
pub struct RateLimiter {
    /// When the requests of each key came.
    pub times: Assoc<Vec<u64>>,
    /// How many requests are allowed within the window.
    pub max_requests: usize,
    /// The length of the window, in nanoseconds.
    pub window: u64,
}

/// The models of times under their keys.
pub open spec fn time_views(e: Seq<(Text, Vec<u64>)>) -> Seq<(Text, Seq<u64>)> {
    table::mapped(e, |v: Vec<u64>| v@)
}

impl View for RateLimiter {
    type V = Seq<(Text, Seq<u64>)>;

    open spec fn view(&self) -> Seq<(Text, Seq<u64>)> {
        time_views(self.times@)
    }
}

/// The times within the window, in their order.
pub open spec fn within(times: Seq<u64>, now: u64, window: u64) -> Seq<u64>
    decreases times.len(),
{
    if times.len() == 0 {
        Seq::empty()
    } else if now - times.last() < window {
        within(times.drop_last(), now, window).push(times.last())
    } else {
        within(times.drop_last(), now, window)
    }
}

/// The times of a key within the window.
pub open spec fn lately(e: Seq<(Text, Seq<u64>)>, key: Text, now: u64, window: u64) -> Seq<u64> {
    match table::lookup(e, key) {
        Some(t) => within(t, now, window),
        None => Seq::empty(),
    }
}

/// The keys with times within the window, with those times only.
pub open spec fn swept(e: Seq<(Text, Seq<u64>)>, now: u64, window: u64) -> Seq<(Text, Seq<u64>)>
    decreases e.len(),
{
    if e.len() == 0 {
        Seq::empty()
    } else {
        let t = within(e.last().1, now, window);
        if t.len() > 0 {
            swept(e.drop_last(), now, window).push((e.last().0, t))
        } else {
            swept(e.drop_last(), now, window)
        }
    }
}

fn keep_within(times: &Vec<u64>, now: u64, window: u64) -> (r: Vec<u64>)
    ensures
        r@ == within(times@, now, window),
{
    let mut out: Vec<u64> = Vec::new();
    let mut i: usize = 0;
    assert(times@.take(0) =~= Seq::empty());
    while i < times.len()
        invariant
            i <= times.len(),
            out@ == within(times@.take(i as int), now, window),
        decreases times.len() - i,
    {
        proof {
            assert(times@.take(i + 1).drop_last() =~= times@.take(i as int));
            assert(times@.take(i + 1).last() == times@[i as int]);
        }
        let t = times[i];
        if (now >= t && now - t < window) || (now < t) {
            out.push(t);
        }
        i += 1;
    }
    assert(times@.take(i as int) =~= times@);
    out
}

/// The models of times under their keys.
pub open spec fn pair_views(v: Seq<(String, Vec<u64>)>) -> Seq<(Text, Seq<u64>)> {
    v.map_values(|p: (String, Vec<u64>)| (p.0@, p.1@))
}

proof fn lemma_swept(e: Seq<(Text, Seq<u64>)>, now: u64, window: u64)
    requires
        table::distinct(e),
    ensures
        table::distinct(swept(e, now, window)),
        forall|k: int|
            0 <= k < swept(e, now, window).len() ==> exists|j: int|
                0 <= j < e.len() && (#[trigger] e[j]).0 == (
                #[trigger] swept(e, now, window)[k]).0,
    decreases e.len(),
{
    if e.len() > 0 {
        let d = e.drop_last();
        assert forall|a: int, b: int| 0 <= a < b < d.len() implies (#[trigger] d[a]).0 != (
        #[trigger] d[b]).0 by {
            assert(e[a].0 != e[b].0);
        }
        lemma_swept(d, now, window);
        let f = swept(d, now, window);
        let r = swept(e, now, window);
        assert forall|k: int| 0 <= k < r.len() implies exists|j: int|
            0 <= j < e.len() && (#[trigger] e[j]).0 == (#[trigger] r[k]).0 by {
            if k < f.len() {
                assert(r[k] == f[k]);
                let j = choose|j: int| 0 <= j < d.len() && (#[trigger] d[j]).0 == f[k].0;
                assert(e[j].0 == r[k].0);
            } else {
                assert(e[e.len() - 1].0 == r[k].0);
            }
        }
        assert forall|a: int, b: int| 0 <= a < b < r.len() implies (#[trigger] r[a]).0 != (
        #[trigger] r[b]).0 by {
            assert(r[a] == f[a]);
            if b < f.len() {
                assert(r[b] == f[b]);
            } else {
                let j = choose|j: int| 0 <= j < d.len() && (#[trigger] d[j]).0 == f[a].0;
                assert(e[j].0 != e[e.len() - 1].0);
            }
        }
    }
}

impl RateLimiter {
    /// Each key has its times once.
    pub open spec fn wf(&self) -> bool {
        self.times.wf()
    }

    /// Allows `max_requests` within `window` nanoseconds.
    pub fn new(max_requests: usize, window: u64) -> (r: RateLimiter)
        ensures
            r.wf(),
            r.max_requests == max_requests,
            r.window == window,
            r@ == Seq::<(Text, Seq<u64>)>::empty(),
    {
        let r = RateLimiter { times: Assoc::new(), max_requests, window };
        assert(r@ =~= Seq::<(Text, Seq<u64>)>::empty());
        r
    }

    /// Whether a request of a key is allowed now. One that is, counts.
    pub fn check(&mut self, key: &str, now: u64) -> (r: bool)
        requires
            old(self).wf(),
        ensures
            final(self).wf(),
            final(self).max_requests == old(self).max_requests,
            final(self).window == old(self).window,
            ({
                let t = lately(old(self)@, key@, now, old(self).window);
                &&& r == (t.len() < old(self).max_requests)
                &&& final(self)@ == table::put(
                    old(self)@,
                    key@,
                    if r {
                        t.push(now)
                    } else {
                        t
                    },
                )
            }),
    {
        let ghost e = self.times@;
        let ghost f = |v: Vec<u64>| v@;
        proof {
            table::lemma_mapped(e, f, key@, arbitrary());
            assert(time_views(e) =~= table::mapped(e, f));
        }
        let mut kept = match self.times.get(key) {
            Some(t) => keep_within(t, now, self.window),
            None => {
                let none: Vec<u64> = Vec::new();
                assert(none@ =~= Seq::empty());
                none
            },
        };
        let allowed = kept.len() < self.max_requests;
        if allowed {
            kept.push(now);
        }
        proof {
            table::lemma_mapped(e, f, key@, kept);
            let after = table::put(e, key@, kept);
            assert(time_views(after) =~= table::mapped(after, f));
        }
        self.times.insert(key.to_owned(), kept);
        allowed
    }

    /// Drops what lies outside the window.
    pub fn cleanup(&mut self, now: u64)
        requires
            old(self).wf(),
        ensures
            final(self).wf(),
            final(self).max_requests == old(self).max_requests,
            final(self).window == old(self).window,
            final(self)@ == swept(old(self)@, now, old(self).window),
    {
        let ghost e = self@;
        let mut kept: Vec<(String, Vec<u64>)> = Vec::new();
        let mut i: usize = 0;
        proof {
            assert(e.take(0) =~= Seq::empty());
            assert(pair_views(kept@) =~= Seq::empty());
            let f = |v: Vec<u64>| v@;
            table::lemma_mapped_removed(self.times@, f, Seq::empty());
            assert(e =~= table::mapped(self.times@, f));
        }
        while i < self.times.items.len()
            invariant
                i <= self.times.items.len(),
                e == self@,
                pair_views(kept@) == swept(e.take(i as int), now, self.window),
            decreases self.times.items.len() - i,
        {
            proof {
                assert(e.take(i + 1).drop_last() =~= e.take(i as int));
                assert(e.take(i + 1).last() == (
                    self.times.items@[i as int].0@,
                    self.times.items@[i as int].1@,
                ));
            }
            let t = keep_within(&self.times.items[i].1, now, self.window);
            if t.len() > 0 {
                let ghost before = kept@;
                let p = (self.times.items[i].0.clone(), t);
                kept.push(p);
                assert(pair_views(kept@) =~= pair_views(before).push((p.0@, p.1@)));
            }
            i += 1;
        }
        proof {
            assert(e.take(i as int) =~= e);
            lemma_swept(e, now, self.window);
        }
        self.times = Assoc { items: kept };
        proof {
            let f = |v: Vec<u64>| v@;
            assert(self@ =~= pair_views(kept@));
            table::lemma_mapped_removed(self.times@, f, Seq::empty());
            assert(self@ =~= table::mapped(self.times@, f));
        }
    }
}

/// Whether a request may pass the limiter: one whose path is not limited
/// always may.
pub fn rate_limit_sensitive(limiter: &mut RateLimiter, path: &str, ip: &str, now: u64) -> (r: bool)
    requires
        old(limiter).wf(),
    ensures
        final(limiter).wf(),
        final(limiter).max_requests == old(limiter).max_requests,
        final(limiter).window == old(limiter).window,
        !is_limited(path@) ==> r && final(limiter)@ == old(limiter)@,
        is_limited(path@) ==> {
            let t = lately(old(limiter)@, ip@, now, old(limiter).window);
            &&& r == (t.len() < old(limiter).max_requests)
            &&& final(limiter)@ == table::put(
                old(limiter)@,
                ip@,
                if r {
                    t.push(now)
                } else {
                    t
                },
            )
        },
{
    if !limited_path(path) {
        return true;
    }
    limiter.check(ip, now)
}

/// A path of the interface that is not public is closed to a request without
/// a session that holds.
pub proof fn law_no_entry_without_session(
    st: AuthState,
    path: Text,
    cookie: Option<Text>,
    clock: u64,
)
    requires
        find::starts(path, "/emc/api/"@),
        !is_public(path),
        token_in(cookie) matches Some(t) ==> manager::session_user(st, t, clock) is None,
    ensures
        access_fault(st, path, cookie, clock) is Some,
{
}

/// The token that a cookie was built with is the one that is found in it when
/// the browser sends it back.
pub proof fn law_cookie_comes_back(token: Text)
    requires
        !token.contains(';'),
        token.len() > 0 ==> !trim::is_space(token.last()),
    ensures
        token_in(Some(cookie_start() + token)) == Some(token),
{
    reveal_strlit("rail2ban_session");
    reveal_strlit("=");
    let start = cookie_start();
    let c = start + token;
    assert(start.len() == 17);
    assert forall|i: int| 0 <= i < c.len() implies c[i] != ';' by {
        if i < start.len() {
            assert(c[i] == start[i]);
        } else {
            assert(c[i] == token[i - 17]);
        }
    }
    find::lemma_find_at(c, ';', c.len() as int);
    assert(split::pieces(c, ';') =~= seq![c]);
    assert(c[0] == 'r');
    assert(!trim::is_space(c[0]));
    assert(!trim::is_space(c.last())) by {
        if token.len() == 0 {
            assert(c.last() == '=');
        } else {
            assert(c.last() == token.last());
        }
    }
    assert(trim::trimmed(c) == c);
    assert(c.take(17) =~= start);
    assert(c.skip(17) =~= token);
}

/// A key never has more requests allowed within a window than the limiter says.
pub proof fn law_rate_is_bounded(e: Seq<(Text, Seq<u64>)>, key: Text, now: u64, window: u64, max: nat)
    requires
        lately(e, key, now, window).len() <= max,
    ensures
        ({
            let t = lately(e, key, now, window);
            let after = table::put(
                e,
                key,
                if t.len() < max {
                    t.push(now)
                } else {
                    t
                },
            );
            lately(after, key, now, window).len() <= max
        }),
{
    let t = lately(e, key, now, window);
    let n = if t.len() < max {
        t.push(now)
    } else {
        t
    };
    table::law_put_lookup(e, key, n, key);
    lemma_within_len(n, now, window);
}

proof fn lemma_within_len(t: Seq<u64>, now: u64, window: u64)
    ensures
        within(t, now, window).len() <= t.len(),
    decreases t.len(),
{
    if t.len() > 0 {
        lemma_within_len(t.drop_last(), now, window);
    }
}

/// A request that is refused for now is allowed once the earlier ones have left
/// the window.
pub proof fn law_waiting_helps(
    e: Seq<(Text, Seq<u64>)>,
    key: Text,
    later: u64,
    window: u64,
    max: nat,
)
    requires
        max > 0,
        table::lookup(e, key) matches Some(t) ==> forall|i: int|
            0 <= i < t.len() ==> later - #[trigger] t[i] >= window,
    ensures
        lately(e, key, later, window).len() < max,
{
    if let Some(t) = table::lookup(e, key) {
        lemma_all_outside(t, later, window);
    }
}

proof fn lemma_all_outside(t: Seq<u64>, now: u64, window: u64)
    requires
        forall|i: int| 0 <= i < t.len() ==> now - #[trigger] t[i] >= window,
    ensures
        within(t, now, window).len() == 0,
    decreases t.len(),
{
    if t.len() > 0 {
        assert(now - t[t.len() - 1] >= window);
        let d = t.drop_last();
        assert forall|i: int| 0 <= i < d.len() implies now - #[trigger] d[i] >= window by {
            assert(d[i] == t[i]);
        }
        lemma_all_outside(d, now, window);
    }
}

/// Everything under `/emc/api/` needs a session, but for logging in and out,
/// asking for the session, setting up, and asking for the status and the
/// version; logging in and setting up are limited.
pub proof fn law_paths(path: Text)
    ensures
        needs_session(path) <==> find::starts(path, "/emc/api/"@) && path != "/emc/api/login"@
            && path != "/emc/api/logout"@ && path != "/emc/api/session"@ && path
            != "/emc/api/setup"@ && path != "/emc/api/status"@ && path != "/emc/api/version"@,
        is_limited(path) <==> path == "/emc/api/login"@ || path == "/emc/api/setup"@,
{
    reveal_strlit("/emc/api/");
    reveal_strlit("/emc");
    reveal_strlit("/emc/");
}

/// A session lets its user in; without a cookie, or with one of no session
/// that holds, entry is refused, and each is said.
pub proof fn law_entry(st: AuthState, path: Text, cookie: Option<Text>, clock: u64, t: Text)
    requires
        needs_session(path),
    ensures
        token_in(cookie) is None ==> access_fault(st, path, cookie, clock) == Some(
            "not authenticated"@,
        ) && after_access(st, path, cookie, clock) == st,
        token_in(cookie) == Some(t) && manager::session_user(st, t, clock) is Some ==> access_fault(
            st,
            path,
            cookie,
            clock,
        ) is None,
        token_in(cookie) == Some(t) && manager::session_user(st, t, clock) is None ==> access_fault(
            st,
            path,
            cookie,
            clock,
        ) == Some("session expired or invalid"@),
        token_in(cookie) == Some(t) ==> after_access(st, path, cookie, clock) == manager::after_use(
            st,
            t,
            clock,
        ),
{
}

/// A path that needs no session is open to all.
pub proof fn law_open_path(st: AuthState, path: Text, cookie: Option<Text>, clock: u64)
    requires
        !needs_session(path),
    ensures
        access_fault(st, path, cookie, clock) is None,
        after_access(st, path, cookie, clock) == st,
{
}

/// Whose address counts: that of the peer, unless the proxy is trusted; then
/// the one that it says is real, or else the first that it forwards for.
pub proof fn law_client_address(
    told: Text,
    first: Text,
    rest: Text,
    headers: (Option<Text>, Option<Text>),
    peer: IpAddr,
    a: IpAddr,
    b: IpAddr,
)
    requires
        told.len() > 0 && !trim::is_space(told[0]) && !trim::is_space(told.last()),
        first.len() > 0 && !trim::is_space(first[0]) && !trim::is_space(first.last()),
        !first.contains(','),
        ip::ip_of(told) == Some(a),
        ip::ip_of(first) == Some(b),
    ensures
        client_ip(headers.0, headers.1, Some(peer), false) == ip::ip_text(peer),
        client_ip(None, None, Some(peer), true) == ip::ip_text(peer),
        client_ip(None, None, None, true) == "0.0.0.0"@,
        client_ip(headers.0, headers.1, None, false) == "0.0.0.0"@,
        client_ip(Some(told), headers.1, Some(peer), true) == ip::ip_text(a),
        client_ip(None, Some(first), Some(peer), true) == ip::ip_text(b),
        client_ip(None, Some(first.push(',') + rest), Some(peer), true) == ip::ip_text(b),
{
    let e = Seq::<char>::empty();
    trim::law_trimmed(e, told, e);
    assert(e + told + e =~= told);
    trim::law_trimmed(e, first, e);
    assert(e + first + e =~= first);
    split::law_pieces(first, ',', rest);
    assert((seq![first] + split::pieces(rest, ','))[0] == first);
}

/// The cookie of a session begins with `rail2ban_session=`, and is found after
/// other cookies; the whole cookie says where it counts and for how long.
pub proof fn law_session_cookie(token: Text, other: Text, n: int)
    requires
        !token.contains(';'),
        !other.contains(';'),
        token.len() > 0 ==> !trim::is_space(token.last()),
        !find::starts(trim::trimmed(other), "rail2ban_session="@),
    ensures
        token_in(Some(other.push(';') + " "@ + "rail2ban_session="@ + token)) == Some(token),
        token_in(Some(other)) is None,
        token_in(None) is None,
        session_cookie(token, n) == "rail2ban_session="@ + token
            + "; HttpOnly; SameSite=Strict; Path=/emc; Max-Age="@ + number::decimal_int(n),
{
    reveal_strlit("rail2ban_session=");
    reveal_strlit("rail2ban_session");
    reveal_strlit("=");
    reveal_strlit(" ");
    let start = "rail2ban_session="@;
    assert(cookie_start() =~= start);
    let own = start + token;
    let e = Seq::<char>::empty();
    let part = " "@ + own;
    trim::law_white_space('r');
    trim::law_white_space('=');
    assert(own[0] == 'r');
    assert(own.last() == (if token.len() > 0 {
        token.last()
    } else {
        '='
    }));
    trim::law_trimmed(" "@, own, e);
    assert(" "@ + own + e =~= part);
    find::law_prefix_and_suffix(start, token);
    assert(!part.contains(';')) by {
        assert forall|i: int| 0 <= i < part.len() implies part[i] != ';' by {
            if i > start.len() {
                assert(part[i] == token[i - 1 - start.len()]);
                assert(token.contains(token[i - 1 - start.len()]));
            } else if i > 0 {
                assert(part[i] == start[i - 1]);
            }
        }
    }
    let whole = other.push(';') + " "@ + start + token;
    assert(whole =~= other.push(';') + part);
    split::law_pieces(other, ';', part);
    split::law_pieces(part, ';', e);
    let parts = split::pieces(whole, ';');
    assert(parts =~= seq![other, part]);
    reveal_with_fuel(token_from, 3);
    assert(split::pieces(other, ';') == seq![other]);
}

/// A request counts while it lies within the window; requests are looked at
/// one by one, and keys without any go.
pub proof fn law_requests_one_by_one(
    times: Seq<u64>,
    t: u64,
    e: Seq<(Text, Seq<u64>)>,
    key: Text,
    now: u64,
    window: u64,
)
    ensures
        within(Seq::empty(), now, window) == Seq::<u64>::empty(),
        now - t < window ==> within(times.push(t), now, window) == within(times, now, window).push(
            t,
        ),
        now - t >= window ==> within(times.push(t), now, window) == within(times, now, window),
        swept(Seq::empty(), now, window) == Seq::<(Text, Seq<u64>)>::empty(),
        within(times, now, window).len() == 0 ==> swept(e.push((key, times)), now, window) == swept(
            e,
            now,
            window,
        ),
        within(times, now, window).len() > 0 ==> swept(e.push((key, times)), now, window) == swept(
            e,
            now,
            window,
        ).push((key, within(times, now, window))),
{
    assert(times.push(t).drop_last() =~= times);
    assert(e.push((key, times)).drop_last() =~= e);
}

} // verus!
