//! A jail at work: log lines and commands come in, and what comes out is what
//! is to be asked, recorded and run.
//!
//! A jail never waits for anything itself. Where it needs to know something
//! from outside (the address of a host name, the answer of the
//! `ignorecommand`), it says so and goes on when it is told.

use crate::action::run;
use crate::action::{Action, BanContext, BanInfo, BoundView};
use crate::config::filter::FilterView;
use crate::config::jail::{JailConfig, JailView};
use crate::error;
use crate::error::{Error, ErrorView};
use crate::filter;
use crate::filter::datepattern;
use crate::filter::{CompiledFilter, LineBuffer, MatchResult, MatchView, RulesView};
use crate::ip;
use crate::ip::IpAddr;
use crate::server::banmanager;
use crate::server::banmanager::{BanManager, BanState, BanTicket, BanView};
use crate::server::bantime;
use crate::server::database;
use crate::server::database::{Database, DbState, RowView};
use crate::server::failmanager;
use crate::server::failmanager::{FailManager, FailRules, FailState, FailTicket, FailView};
use crate::server::ignorecache;
use crate::server::ignorecache::{CacheView, IgnoreCache};
use crate::server::jobs;
use crate::server::jobs::{Job, Which};
use crate::table;
use crate::text;
use crate::text::find;
use crate::text::Text;
use crate::time;
use crate::time::{TimeValue, Timestamp};
use vstd::prelude::*;

verus! {

/// A jail with everything it works with.
pub struct Jail {
    /// The configuration.
    pub config: JailConfig,
    /// The filter.
    pub filter: CompiledFilter,
    /// The actions.
    pub actions: Vec<Action>,
    /// The failures.
    pub fail_mgr: FailManager,
    /// The bans in force.
    pub ban_mgr: BanManager,
    /// The newest lines.
    pub line_buffer: LineBuffer,
    /// The remembered answers of the `ignorecommand`.
    pub ignore_cache: Option<IgnoreCache>,
}

/// The model of a jail.
#[verifier::ext_equal]
pub struct JailState {
    pub config: JailView,
    pub filter: FilterView,
    pub rules: RulesView,
    pub maxlines: nat,
    pub actions: Seq<BoundView>,
    pub fails: FailState,
    pub window: FailRules,
    pub bans: BanState,
    pub lines: Seq<Text>,
    pub cache: Option<CacheView>,
}

impl View for Jail {
    type V = JailState;

    open spec fn view(&self) -> JailState {
        JailState {
            config: self.config@,
            filter: self.filter.config@,
            rules: self.filter@,
            maxlines: self.line_buffer.maxlines as nat,
            actions: jobs::action_list(self.actions@),
            fails: self.fail_mgr@,
            window: self.fail_mgr.rules(),
            bans: self.ban_mgr@,
            lines: self.line_buffer@,
            cache: ignorecache::opt_cache(self.ignore_cache),
        }
    }
}

/// The time within which failures count, in seconds. One without an end is
/// cut off at the largest number.
pub open spec fn window_of(t: TimeValue) -> i64 {
    if time::seconds_or_max(t) > i64::MAX {
        i64::MAX
    } else {
        time::seconds_or_max(t) as i64
    }
}

/// How many lines are matched together: as many as the jail says where it
/// says more than one, else as many as its filter says, and at least one.
pub open spec fn lines_together(of_jail: u32, of_filter: u32) -> nat {
    if of_jail > 1 {
        of_jail as nat
    } else if of_filter >= 1 {
        of_filter as nat
    } else {
        1
    }
}

/// The answers that a jail starts with.
pub open spec fn first_cache(c: JailView) -> Option<CacheView> {
    match c.ignorecache {
        Some(s) => ignorecache::cache_of(s),
        None => None,
    }
}

/// Whether a host is made up of digits and dots, so that it is no host name.
pub open spec fn is_numeric(host: Text) -> bool {
    forall|i: int| 0 <= i < host.len() ==> text::is_digit(#[trigger] host[i]) || host[i] == '.'
}

/// What a line asks for.
pub enum LineAsks {
    /// Nothing.
    Nothing,
    /// The address of the host name of a match.
    Lookup(MatchView),
    /// Taking in a match.
    Match(MatchView),
}

/// What is done with a match whose host is no address.
pub open spec fn without_address(usedns: Text, m: MatchView) -> LineAsks {
    if usedns == "no"@ {
        LineAsks::Nothing
    } else if usedns == "yes"@ || usedns == "warn"@ {
        if is_numeric(m.host) {
            LineAsks::Match(MatchView { ip: ip::ip_of(m.host), ..m })
        } else {
            LineAsks::Lookup(m)
        }
    } else {
        LineAsks::Match(m)
    }
}

/// What a match asks for.
pub open spec fn match_asks(usedns: Text, m: MatchView) -> LineAsks {
    if m.mlfforget {
        LineAsks::Nothing
    } else if m.ip is None && m.host.len() > 0 {
        without_address(usedns, m)
    } else {
        LineAsks::Match(m)
    }
}

/// The failures after an ID is forgotten, where a match says so.
pub open spec fn forgetting(f: FailState, m: MatchView) -> FailState {
    match m.mlfid {
        Some(id) => if m.mlfforget {
            FailState { tickets: f.tickets, mlfids: table::removed(f.mlfids, id) }
        } else {
            f
        },
        None => f,
    }
}

/// The jail after a line, and what the line asks for. The line is matched
/// together with those before it; a match empties the buffer.
pub open spec fn line_step(st: JailState, line: Text, year: i32) -> (JailState, LineAsks) {
    let lines = filter::newest(st.lines.push(line), st.maxlines);
    match filter::line_match(st.rules, text::joined(lines, "\n"@), year) {
        None => (JailState { lines, ..st }, LineAsks::Nothing),
        Some(m) => (
            JailState { lines: Seq::empty(), fails: forgetting(st.fails, m), ..st },
            match_asks(st.config.usedns, m),
        ),
    }
}

/// Whether an address is the machine's own: a loopback address.
pub open spec fn is_own(ip: IpAddr) -> bool {
    match ip {
        IpAddr::V4(n) => n / 0x100_0000 == 127,
        IpAddr::V6(n) => n == 1,
    }
}

/// Whether a host with enough failures is not to be banned after all.
pub open spec fn is_ignored(c: JailView, t: FailView) -> bool {
    match t.ip {
        Some(ip) => (c.ignoreself && is_own(ip)) || ip::list_matches(c.ignoreip, ip),
        None => ip::list_matches_raw(c.ignoreip, t.host),
    }
}

/// What the `ignorecommand` is asked about: the address, or else the host.
pub open spec fn question_of(t: FailView) -> Text {
    match t.ip {
        Some(ip) => ip::ip_text(ip),
        None => t.host,
    }
}

/// What a match that was taken in asks for.
pub enum MatchAsks {
    /// Nothing.
    Nothing,
    /// The answer of the `ignorecommand`, before a ban.
    Command { key: Text, words: Seq<Text>, ban: BanView },
    /// A ban.
    Ban(BanView),
}

/// The jail without the failures of a host.
pub open spec fn forgiven(st: JailState, host: Text) -> JailState {
    JailState {
        fails: FailState {
            tickets: table::removed(st.fails.tickets, host),
            mlfids: st.fails.mlfids,
        },
        ..st
    }
}

/// The jail with an answer of the `ignorecommand` remembered, where it
/// remembers answers.
pub open spec fn remembering(st: JailState, key: Text, answer: bool, nanos: u64) -> JailState {
    JailState {
        cache: match st.cache {
            Some(c) => Some(ignorecache::with_answer(c, key, answer, nanos)),
            None => None,
        },
        ..st
    }
}

/// The answer that is remembered.
pub open spec fn remembered(st: JailState, key: Text, nanos: u64) -> Option<bool> {
    match st.cache {
        Some(c) => ignorecache::cached(c, key, nanos),
        None => None,
    }
}

/// Asking the `ignorecommand` with the words of its command line. One without
/// words, or that is not valid, says not to ignore.
pub open spec fn asking(
    st: JailState,
    key: Text,
    words: Option<Seq<Text>>,
    ban: BanView,
    nanos: u64,
) -> (JailState, MatchAsks) {
    match words {
        Some(w) => if w.len() > 0 {
            (st, MatchAsks::Command { key, words: w, ban })
        } else {
            (remembering(st, key, false, nanos), MatchAsks::Ban(ban))
        },
        None => (remembering(st, key, false, nanos), MatchAsks::Ban(ban)),
    }
}

/// Asking the `ignorecommand` before a ban: a remembered answer counts.
pub open spec fn before_ban(st: JailState, key: Text, ban: BanView, nanos: u64) -> (
    JailState,
    MatchAsks,
) {
    match st.config.ignorecommand {
        None => (st, MatchAsks::Ban(ban)),
        Some(command) => match remembered(st, key, nanos) {
            Some(true) => (forgiven(st, ban.host), MatchAsks::Nothing),
            Some(false) => (st, MatchAsks::Ban(ban)),
            None => asking(
                st,
                key,
                run::shell_words(find::replaced(command, "<ip>"@, key)),
                ban,
                nanos,
            ),
        },
    }
}

/// The moment of a match: its date, or else the current moment.
pub open spec fn moment_of(m: MatchView, clock: Timestamp) -> Timestamp {
    match m.timestamp {
        Some(t) => t,
        None => clock,
    }
}

/// The jail after a match is taken in, and what that asks for. `past` is how
/// many bans of the host the record holds.
pub open spec fn match_step(
    st: JailState,
    m: MatchView,
    clock: Timestamp,
    nanos: u64,
    past: nat,
    draw: u64,
) -> (JailState, MatchAsks) {
    let now = moment_of(m, clock);
    let after = JailState {
        fails: failmanager::after_match(st.fails, m, now, st.window),
        ..st
    };
    match failmanager::ban_due(st.fails, m, now, st.window) {
        None => (after, MatchAsks::Nothing),
        Some(t) => if is_ignored(st.config, t) {
            (forgiven(after, t.host), MatchAsks::Nothing)
        } else {
            before_ban(
                after,
                question_of(t),
                banmanager::ban_of(t, m, bantime::ban_seconds(st.config, past, draw), clock),
                nanos,
            )
        },
    }
}

/// The jail after the `ignorecommand` answered, and the ban to be issued,
/// which starts now.
pub open spec fn answer_step(
    st: JailState,
    key: Text,
    ignore: bool,
    ban: BanView,
    clock: Timestamp,
    nanos: u64,
) -> (JailState, Option<BanView>) {
    let after = remembering(st, key, ignore, nanos);
    if ignore {
        (forgiven(after, ban.host), None)
    } else {
        (after, Some(BanView { time_of_ban: clock, ..ban }))
    }
}

/// What a line asks for.
#[derive(Debug)]
pub enum LineStep {
    /// Nothing.
    Nothing,
    /// The address of the host name of a match.
    Lookup(MatchResult),
    /// Taking in a match.
    Match(MatchResult),
}

impl View for LineStep {
    type V = LineAsks;

    open spec fn view(&self) -> LineAsks {
        match *self {
            LineStep::Nothing => LineAsks::Nothing,
            LineStep::Lookup(m) => LineAsks::Lookup(m@),
            LineStep::Match(m) => LineAsks::Match(m@),
        }
    }
}

/// What a match that was taken in asks for.
#[derive(Debug)]
pub enum MatchStep {
    /// Nothing.
    Nothing,
    /// The answer of the `ignorecommand`, before a ban.
    Command {
        key: String,
        words: Vec<String>,
        ban: BanTicket,
    },
    /// A ban.
    Ban(BanTicket),
}

impl View for MatchStep {
    type V = MatchAsks;

    open spec fn view(&self) -> MatchAsks {
        match *self {
            MatchStep::Nothing => MatchAsks::Nothing,
            MatchStep::Command { key, words, ban } => MatchAsks::Command {
                key: key@,
                words: text::texts(words@),
                ban: ban@,
            },
            MatchStep::Ban(ban) => MatchAsks::Ban(ban@),
        }
    }
}

fn numeric(host: &str) -> (r: bool)
    ensures
        r == is_numeric(host@),
{
    let v = text::chars_of(host);
    let mut i: usize = 0;
    while i < v.len()
        invariant
            i <= v.len(),
            v@ == host@,
            forall|k: int| 0 <= k < i ==> text::is_digit(#[trigger] v@[k]) || v@[k] == '.',
        decreases v.len() - i,
    {
        if !text::digit(v[i]) && v[i] != '.' {
            return false;
        }
        i += 1;
    }
    true
}

/// Whether an address is the machine's own: a loopback address.
pub fn is_own_ip(ip: IpAddr) -> (r: bool)
    ensures
        r == is_own(ip),
{
    match ip {
        IpAddr::V4(n) => n / 0x100_0000 == 127,
        IpAddr::V6(n) => n == 1,
    }
}

fn ask_of_match(usedns: &str, m: MatchResult) -> (r: LineStep)
    ensures
        r@ == match_asks(usedns@, m@),
{
    if m.mlfforget {
        return LineStep::Nothing;
    }
    if m.ip.is_some() || m.host.as_str().is_empty() {
        return LineStep::Match(m);
    }
    if text::same(usedns, "no") {
        LineStep::Nothing
    } else if text::same(usedns, "yes") || text::same(usedns, "warn") {
        if numeric(m.host.as_str()) {
            let mut m = m;
            m.ip = IpAddr::parse(m.host.as_str());
            LineStep::Match(m)
        } else {
            LineStep::Lookup(m)
        }
    } else {
        LineStep::Match(m)
    }
}

/// A match after the address of its host name was looked up.
pub fn resolved(m: MatchResult, ip: Option<IpAddr>) -> (r: MatchResult)
    ensures
        r@ == (MatchView { ip, ..m@ }),
{
    let mut m = m;
    m.ip = ip;
    m
}

impl Jail {
    /// What the parts of a jail hold to.
    pub open spec fn wf(&self) -> bool {
        &&& self.config.wf()
        &&& self.filter.wf()
        &&& self.fail_mgr.wf()
        &&& self.ban_mgr.wf()
    }

    /// A jail without failures and bans.
    pub fn new(config: JailConfig, filter: CompiledFilter, actions: Vec<Action>) -> (r: Jail)
        requires
            config.wf(),
            filter.wf(),
        ensures
            r.wf(),
            r.config == config,
            r.filter == filter,
            r.actions == actions,
            r@.fails.tickets == Seq::<(Text, FailView)>::empty(),
            r@.fails.mlfids == Seq::<(Text, Text)>::empty(),
            r@.window == (FailRules {
                maxretry: config.maxretry as nat,
                findtime: window_of(config.findtime) as int,
                maxmatches: config.maxmatches as nat,
            }),
            r@.bans.bans == Seq::<(Text, BanView)>::empty(),
            r@.bans.total == 0,
            r@.lines == Seq::<Text>::empty(),
            r@.maxlines == lines_together(config.maxlines, filter.maxlines),
            r@.cache == first_cache(config@),
    {
        let n = config.findtime.to_seconds_or_max();
        let findtime: i64 = if n > i64::MAX as u64 {
            i64::MAX
        } else {
            n as i64
        };
        let ignore_cache = match &config.ignorecache {
            Some(s) => IgnoreCache::parse(s.as_str()),
            None => None,
        };
        let fail_mgr = FailManager::new(config.maxretry, findtime, config.maxmatches);
        let line_buffer = LineBuffer::new(
            if config.maxlines > 1 {
                config.maxlines
            } else {
                filter.maxlines
            },
        );
        Jail {
            config,
            filter,
            actions,
            fail_mgr,
            ban_mgr: BanManager::new(),
            line_buffer,
            ignore_cache,
        }
    }

    /// Takes in a line of the log. `year` is the current year, for dates that
    /// hold none.
    pub fn read_line(&mut self, line: &str, year: i32) -> (r: LineStep)
        requires
            old(self).wf(),
        ensures
            final(self).wf(),
            (final(self)@, r@) == line_step(old(self)@, line@, year),
    {
        let found = self.filter.process_buffered(&mut self.line_buffer, line, year);
        match found {
            Ok(Some(m)) => {
                if m.mlfforget {
                    if let Some(id) = &m.mlfid {
                        self.fail_mgr.forget_mlfid(id.as_str());
                    }
                }
                ask_of_match(self.config.usedns.as_str(), m)
            },
            _ => LineStep::Nothing,
        }
    }

    fn ignored(&self, t: &FailTicket) -> (r: bool)
        requires
            self.config.wf(),
        ensures
            r == is_ignored(self.config@, t@),
    {
        match t.ip {
            Some(ip) => (self.config.ignoreself && is_own_ip(ip)) || self.config.ignoreip.matches_ip(
                &ip,
            ),
            None => self.config.ignoreip.matches_raw(t.host.as_str()),
        }
    }

    fn remember(&mut self, key: &str, answer: bool, nanos: u64)
        requires
            old(self).wf(),
        ensures
            final(self).wf(),
            final(self)@ == remembering(old(self)@, key@, answer, nanos),
    {
        if let Some(c) = &mut self.ignore_cache {
            c.insert(key.to_owned(), answer, nanos);
        }
    }

    fn recall(&self, key: &str, nanos: u64) -> (r: Option<bool>)
        ensures
            r == remembered(self@, key@, nanos),
    {
        match &self.ignore_cache {
            Some(c) => c.get(key, nanos),
            None => None,
        }
    }

    /// What the `ignorecommand` is asked with.
    fn question_words(&self, key: &str) -> (r: Option<Vec<String>>)
        requires
            self.config.ignorecommand is Some,
        ensures
            run::opt_texts(r) == run::shell_words(
                find::replaced(self@.config.ignorecommand->0, "<ip>"@, key@),
            ),
    {
        match &self.config.ignorecommand {
            Some(command) => {
                proof {
                    reveal_strlit("<ip>");
                }
                let line = find::replace(command.as_str(), "<ip>", key);
                run::split_words(line.as_str())
            },
            None => None,
        }
    }

    /// Asks the `ignorecommand` with the words of its command line, where it
    /// has any.
    pub fn ask_with(
        &mut self,
        key: String,
        words: Option<Vec<String>>,
        ban: BanTicket,
        nanos: u64,
    ) -> (r: MatchStep)
        requires
            old(self).wf(),
        ensures
            final(self).wf(),
            (final(self)@, r@) == asking(old(self)@, key@, run::opt_texts(words), ban@, nanos),
    {
        if let Some(w) = words {
            if w.len() > 0 {
                return MatchStep::Command { key, words: w, ban };
            }
        }
        self.remember(key.as_str(), false, nanos);
        MatchStep::Ban(ban)
    }

    /// What comes before a ban.
    fn ask_before_ban(&mut self, key: String, ban: BanTicket, nanos: u64) -> (r: MatchStep)
        requires
            old(self).wf(),
        ensures
            final(self).wf(),
            (final(self)@, r@) == before_ban(old(self)@, key@, ban@, nanos),
    {
        if self.config.ignorecommand.is_none() {
            return MatchStep::Ban(ban);
        }
        match self.recall(key.as_str(), nanos) {
            Some(true) => {
                let _ = self.fail_mgr.remove(ban.host.as_str());
                MatchStep::Nothing
            },
            Some(false) => MatchStep::Ban(ban),
            None => {
                let words = self.question_words(key.as_str());
                self.ask_with(key, words, ban, nanos)
            },
        }
    }

    /// Takes in a match. `clock` is the current moment, `nanos` the time on the
    /// clock of the remembered answers, `db` the record of bans, and `draw` a
    /// random number.
    pub fn take_match(
        &mut self,
        m: &MatchResult,
        clock: Timestamp,
        nanos: u64,
        db: &Database,
        draw: u64,
    ) -> (r: MatchStep)
        requires
            old(self).wf(),
        ensures
            final(self).wf(),
            (final(self)@, r@) == match_step(
                old(self)@,
                m@,
                clock,
                nanos,
                database::count_of(db@.bans, old(self)@.config.name, m@.host),
                draw,
            ),
    {
        let past = db.ban_count(self.config.name.as_str(), m.host.as_str());
        let seconds = bantime::compute_bantime(&self.config, past, draw);
        match self.fail_mgr.add_failure(m, clock) {
            None => MatchStep::Nothing,
            Some(t) => {
                if self.ignored(&t) {
                    let _ = self.fail_mgr.remove(t.host.as_str());
                    return MatchStep::Nothing;
                }
                let key = match t.ip {
                    Some(ip) => ip.show(),
                    None => t.host.clone(),
                };
                let ban = banmanager::ticket_from_fail(&t, m, seconds, clock);
                self.ask_before_ban(key, ban, nanos)
            },
        }
    }

    /// Takes in the answer of the `ignorecommand`: whether to ignore the host.
    pub fn take_answer(
        &mut self,
        key: &str,
        ignore: bool,
        ban: BanTicket,
        clock: Timestamp,
        nanos: u64,
    ) -> (r: Option<BanTicket>)
        requires
            old(self).wf(),
        ensures
            final(self).wf(),
            (final(self)@, opt_ban(r)) == answer_step(old(self)@, key@, ignore, ban@, clock, nanos),
    {
        self.remember(key, ignore, nanos);
        if ignore {
            let _ = self.fail_mgr.remove(ban.host.as_str());
            None
        } else {
            let mut ban = ban;
            ban.time_of_ban = clock;
            Some(ban)
        }
    }
}

/// The model of an optional ban.
pub open spec fn opt_ban(b: Option<BanTicket>) -> Option<BanView> {
    match b {
        Some(b) => Some(b@),
        None => None,
    }
}

/// A string as a JSON value: in double quotes, with special characters
/// escaped.
pub uninterp spec fn json_string(s: Text) -> Text;

/// `serde_json::Value`'s text of a string. It is a function of the characters
/// alone, named `json_string`; nothing more is claimed of it.
#[verifier::external_body]
fn to_json_string(s: &str) -> (r: String)
    ensures
        r@ == json_string(s@),
{
    serde_json::Value::from(s).to_string()
}

/// Strings as JSON values.
pub open spec fn json_strings(v: Seq<Text>) -> Seq<Text> {
    v.map_values(|s: Text| json_string(s))
}

/// The first `max` elements.
pub open spec fn at_most<A>(v: Seq<A>, max: nat) -> Seq<A> {
    if v.len() > max {
        v.take(max as int)
    } else {
        v
    }
}

/// What else the record keeps of a ban: at most `max` of the matched lines,
/// and the user.
pub open spec fn ban_data(b: BanView, max: nat) -> Text {
    "{\"matches\":["@ + text::joined(json_strings(at_most(b.matches, max)), ","@) + "],\"user\":"@ + (
    match b.user {
        Some(u) => json_string(u),
        None => "null"@,
    }) + "}"@
}

/// A length as the record keeps it.
pub open spec fn recorded_length(n: Option<i128>) -> Option<i64> {
    match n {
        Some(n) => Some(
            if n > i64::MAX {
                i64::MAX
            } else if n < i64::MIN {
                i64::MIN
            } else {
                n as i64
            },
        ),
        None => None,
    }
}

/// The row of the record for a ban.
pub open spec fn row_of(jail: Text, b: BanView, max: nat) -> RowView {
    RowView {
        jail,
        ip: b.host,
        time: b.time_of_ban.secs,
        bantime: recorded_length(b.bantime),
        data: ban_data(b, max),
    }
}

/// The jail after a ban is issued.
pub open spec fn with_issued(st: JailState, b: BanView) -> JailState {
    forgiven(JailState { bans: banmanager::with_ban(st.bans, b), ..st }, b.host)
}

/// The ban that is issued by hand.
pub open spec fn ban_by_hand(c: JailView, host: Text, past: nat, draw: u64, now: Timestamp) -> BanView {
    BanView {
        host,
        ip: ip::ip_of(host),
        user: None,
        alt_user: None,
        mlfid: None,
        time_of_ban: now,
        bantime: banmanager::length_of(bantime::ban_seconds(c, past, draw)),
        matches: Seq::empty(),
        failures: 0,
    }
}

/// What the commands are told of a ban that is lifted by hand.
pub open spec fn info_by_hand(host: Text) -> BanInfo {
    BanInfo {
        ip: host,
        ip_addr: ip::ip_of(host),
        family: ip::family_or_default(host),
        user: None,
        alt_user: None,
        fid: None,
        bantime: None,
        matches: Seq::empty(),
        failures: 0,
    }
}

/// The match that a failure by hand stands for.
pub open spec fn attempt_of(host: Text, now: Timestamp) -> MatchView {
    MatchView {
        host,
        ip: ip::ip_of(host),
        user: None,
        alt_user: None,
        mlfid: None,
        timestamp: Some(now),
        nofail: false,
        mlfforget: false,
        mlfgained: false,
        line: "manual attempt from "@ + host,
        regex_index: 0,
    }
}

/// The record after the bans of a jail are lifted one by one.
pub open spec fn lifting(st: DbState, jail: Text, bans: Seq<BanView>) -> DbState
    decreases bans.len(),
{
    if bans.len() == 0 {
        st
    } else {
        database::without_ban(lifting(st, jail, bans.drop_last()), jail, bans.last().host)
    }
}

/// The jail without the bans that are over, and without the failures that no
/// longer count.
pub open spec fn purged(st: JailState, now: Timestamp) -> JailState {
    JailState {
        bans: BanState { bans: banmanager::over(st.bans.bans, now, false), total: st.bans.total },
        fails: FailState {
            tickets: failmanager::live(st.fails.tickets, now, st.window.findtime),
            mlfids: st.fails.mlfids,
        },
        ..st
    }
}

/// When a ban from the record started: at the moment that the record gives,
/// where it is one that can be represented, or else now.
pub open spec fn restored_start(time: i64, now: Timestamp) -> Timestamp {
    if datepattern::representable(time, 0) {
        Timestamp { secs: time, nanos: 0 }
    } else {
        now
    }
}

/// Whether a ban from the record is over.
pub open spec fn restored_over(start: Timestamp, bantime: Option<i64>, now: Timestamp) -> bool {
    match bantime {
        Some(n) => time::not_before(now, start, n as int),
        None => false,
    }
}

/// The ban that is taken up from the record.
pub open spec fn restored_ban(
    host: Text,
    ip: Option<IpAddr>,
    start: Timestamp,
    bantime: Option<i64>,
) -> BanView {
    BanView {
        host,
        ip,
        user: None,
        alt_user: None,
        mlfid: None,
        time_of_ban: start,
        bantime: match bantime {
            Some(n) => Some(n as i128),
            None => None,
        },
        matches: Seq::empty(),
        failures: 0,
    }
}

fn list_json(v: &Vec<String>, max: usize) -> (r: Vec<String>)
    ensures
        text::texts(r@) == json_strings(at_most(text::texts(v@), max as nat)),
{
    let n: usize = if v.len() > max {
        max
    } else {
        v.len()
    };
    let mut out: Vec<String> = Vec::new();
    let mut i: usize = 0;
    while i < n
        invariant
            i <= n <= v.len(),
            out@.len() == i,
            forall|k: int| 0 <= k < i ==> (#[trigger] out@[k])@ == json_string(v@[k]@),
        decreases n - i,
    {
        out.push(to_json_string(v[i].as_str()));
        i += 1;
    }
    assert(text::texts(out@) =~= json_strings(at_most(text::texts(v@), max as nat)));
    out
}

fn data_of(b: &BanTicket, max: u32) -> (r: String)
    ensures
        r@ == ban_data(b@, max as nat),
{
    let list = list_json(&b.matches, max as usize);
    let matches = text::join(&list, ",");
    let user = match &b.user {
        Some(u) => to_json_string(u.as_str()),
        None => "null".to_owned(),
    };
    text::cat5("{\"matches\":[", matches.as_str(), "],\"user\":", user.as_str(), "}")
}

fn lift_all(db: &mut Database, jail: &str, bans: &Vec<BanTicket>)
    ensures
        final(db)@ == lifting(old(db)@, jail@, banmanager::ban_list(bans@)),
{
    let ghost start = db@;
    let ghost all = banmanager::ban_list(bans@);
    let mut i: usize = 0;
    assert(all.take(0) =~= Seq::empty());
    while i < bans.len()
        invariant
            i <= bans.len(),
            all == banmanager::ban_list(bans@),
            db@ == lifting(start, jail@, all.take(i as int)),
        decreases bans.len() - i,
    {
        proof {
            assert(all.take(i + 1).drop_last() =~= all.take(i as int));
            assert(all.take(i + 1).last() == bans@[i as int]@);
        }
        db.remove_ban(jail, bans[i].host.as_str());
        i += 1;
    }
    assert(all.take(i as int) =~= all);
}

impl Jail {
    /// Issues a ban: it is recorded, with at most `dbmaxmatches` of the lines
    /// that led to it, and in force; the failures of the host are dropped, and
    /// every action is to ban the host.
    pub fn issue_ban(&mut self, ban: BanTicket, db: &mut Database, dbmaxmatches: u32) -> (r: Vec<
        Job,
    >)
        requires
            old(self).wf(),
        ensures
            final(self).wf(),
            final(self)@ == with_issued(old(self)@, ban@),
            final(db)@ == database::with_ban(old(db)@, row_of(old(self)@.config.name, ban@, dbmaxmatches as nat)),
            jobs::job_list(r@) == jobs::jobs_for(
                old(self)@.actions,
                Which::All,
                run::Phase::Check,
                Some(jobs::info_of(ban@)),
            ),
    {
        let data = data_of(&ban, dbmaxmatches);
        let length: Option<i64> = match ban.bantime {
            Some(n) => Some(
                if n > i64::MAX as i128 {
                    i64::MAX
                } else if n < i64::MIN as i128 {
                    i64::MIN
                } else {
                    n as i64
                },
            ),
            None => None,
        };
        db.add_ban(
            self.config.name.as_str(),
            ban.host.as_str(),
            ban.time_of_ban.secs,
            length,
            data.as_str(),
        );
        let jobs = self.plan_ban(&ban);
        let _ = self.fail_mgr.remove(ban.host.as_str());
        let _ = self.ban_mgr.add_ban(ban);
        jobs
    }

    fn plan_ban(&self, ban: &BanTicket) -> (r: Vec<Job>)
        ensures
            jobs::job_list(r@) == jobs::jobs_for(
                self@.actions,
                Which::All,
                run::Phase::Check,
                Some(jobs::info_of(ban@)),
            ),
    {
        let mut jobs: Vec<Job> = Vec::new();
        let ctx = jobs::context_of(ban);
        assert(jobs::job_list(jobs@) =~= Seq::empty());
        jobs::add_jobs(
            &mut jobs,
            &self.actions,
            Which::All,
            run::ActionExecutor::check(),
            Some(&ctx),
        );
        assert(jobs::job_list(jobs@) =~= jobs::jobs_for(
            self@.actions,
            Which::All,
            run::Phase::Check,
            Some(jobs::info_of(ban@)),
        ));
        jobs
    }

    /// Bans a host by hand. Such a ban is not recorded.
    pub fn manual_ban(&mut self, host: &str, db: &Database, draw: u64, now: Timestamp) -> (r: Vec<Job>)
        requires
            old(self).wf(),
        ensures
            final(self).wf(),
            ({
                let ban = ban_by_hand(
                    old(self)@.config,
                    host@,
                    database::count_of(db@.bans, old(self)@.config.name, host@),
                    draw,
                    now,
                );
                &&& final(self)@ == (JailState {
                    bans: banmanager::with_ban(old(self)@.bans, ban),
                    ..old(self)@
                })
                &&& jobs::job_list(r@) == jobs::jobs_for(
                    old(self)@.actions,
                    Which::All,
                    run::Phase::Check,
                    Some(jobs::info_of(ban)),
                )
            }),
    {
        let past = db.ban_count(self.config.name.as_str(), host);
        let matches: Vec<String> = Vec::new();
        assert(text::texts(matches@) =~= Seq::empty());
        let ban = BanTicket {
            host: host.to_owned(),
            ip: IpAddr::parse(host),
            user: None,
            alt_user: None,
            mlfid: None,
            time_of_ban: now,
            bantime: banmanager::wide_length(
                bantime::compute_bantime(&self.config, past, draw),
            ),
            matches,
            failures: 0,
        };
        let jobs = self.plan_ban(&ban);
        let _ = self.ban_mgr.add_ban(ban);
        jobs
    }

    /// Lifts the ban of a host by hand, where it is banned.
    pub fn manual_unban(&mut self, host: &str, db: &mut Database) -> (r: Vec<Job>)
        requires
            old(self).wf(),
        ensures
            final(self).wf(),
            final(self)@ == (JailState {
                bans: BanState {
                    bans: table::removed(old(self)@.bans.bans, host@),
                    total: old(self)@.bans.total,
                },
                ..old(self)@
            }),
            banmanager::banned(old(self)@.bans, host@) ==> {
                &&& final(db)@ == database::without_ban(
                    old(db)@,
                    old(self)@.config.name,
                    host@,
                )
                &&& jobs::job_list(r@) == jobs::jobs_for(
                    old(self)@.actions,
                    Which::All,
                    run::Phase::Unban,
                    Some(info_by_hand(host@)),
                )
            },
            !banmanager::banned(old(self)@.bans, host@) ==> final(db)@ == old(db)@ && r@.len() == 0,
    {
        let mut jobs: Vec<Job> = Vec::new();
        if self.ban_mgr.remove_ban(host).is_none() {
            return jobs;
        }
        db.remove_ban(self.config.name.as_str(), host);
        let matches: Vec<String> = Vec::new();
        assert(text::texts(matches@) =~= Seq::empty());
        let ctx = BanContext {
            ip: host.to_owned(),
            ip_addr: IpAddr::parse(host),
            family: ip::family_of_or_default(host),
            user: None,
            alt_user: None,
            fid: None,
            bantime: None,
            matches,
            failures: 0,
        };
        assert(jobs::job_list(jobs@) =~= Seq::empty());
        jobs::add_jobs(
            &mut jobs,
            &self.actions,
            Which::All,
            run::ActionExecutor::unban(),
            Some(&ctx),
        );
        assert(jobs::job_list(jobs@) =~= jobs::jobs_for(
            self@.actions,
            Which::All,
            run::Phase::Unban,
            Some(info_by_hand(host@)),
        ));
        jobs
    }

    /// Lifts all bans: at once with the actions that can, and one by one with
    /// the others.
    pub fn flush_all_bans(&mut self, db: &mut Database) -> (r: Vec<Job>)
        requires
            old(self).wf(),
        ensures
            final(self).wf(),
            final(self)@ == (JailState {
                bans: BanState {
                    bans: Seq::<(Text, BanView)>::empty(),
                    total: old(self)@.bans.total,
                },
                ..old(self)@
            }),
            final(db)@ == lifting(
                old(db)@,
                old(self)@.config.name,
                banmanager::tickets(old(self)@.bans.bans),
            ),
            jobs::job_list(r@) == jobs::flush_jobs(
                old(self)@.actions,
                banmanager::tickets(old(self)@.bans.bans),
            ),
    {
        let bans = self.ban_mgr.clear();
        lift_all(db, self.config.name.as_str(), &bans);
        let mut jobs: Vec<Job> = Vec::new();
        assert(jobs::job_list(jobs@) =~= Seq::empty());
        jobs::add_jobs(
            &mut jobs,
            &self.actions,
            Which::Flushing,
            run::ActionExecutor::flush(),
            None,
        );
        assert(jobs::job_list(jobs@) =~= jobs::jobs_for(
            self@.actions,
            Which::Flushing,
            run::Phase::Flush,
            None,
        ));
        jobs::add_unban_jobs(&mut jobs, &self.actions, Which::Plain, &bans);
        jobs
    }

    /// Takes in a failure of a host by hand. What is never to be banned is not
    /// spared here.
    pub fn manual_attempt(&mut self, host: &str, db: &Database, draw: u64, now: Timestamp) -> (r:
        Option<BanTicket>)
        requires
            old(self).wf(),
        ensures
            final(self).wf(),
            ({
                let m = attempt_of(host@, now);
                let past = database::count_of(db@.bans, old(self)@.config.name, host@);
                &&& final(self)@ == (JailState {
                    fails: failmanager::after_match(old(self)@.fails, m, now, old(self)@.window),
                    ..old(self)@
                })
                &&& opt_ban(r) == match failmanager::ban_due(
                    old(self)@.fails,
                    m,
                    now,
                    old(self)@.window,
                ) {
                    Some(t) => Some(
                        banmanager::ban_of(
                            t,
                            m,
                            bantime::ban_seconds(old(self)@.config, past, draw),
                            now,
                        ),
                    ),
                    None => None,
                }
            }),
    {
        let m = MatchResult {
            host: host.to_owned(),
            ip: IpAddr::parse(host),
            user: None,
            alt_user: None,
            mlfid: None,
            timestamp: Some(now),
            nofail: false,
            mlfforget: false,
            mlfgained: false,
            line: text::cat2("manual attempt from ", host),
            regex_index: 0,
        };
        assert(m@ == attempt_of(host@, now));
        match self.fail_mgr.add_failure(&m, now) {
            Some(t) => {
                let past = db.ban_count(self.config.name.as_str(), host);
                let seconds = bantime::compute_bantime(&self.config, past, draw);
                Some(banmanager::ticket_from_fail(&t, &m, seconds, now))
            },
            None => None,
        }
    }

    /// Takes a ban up from the record again, without running commands. One
    /// that is over is taken out of the record.
    pub fn restore_ban(
        &mut self,
        host: &str,
        ip: Option<IpAddr>,
        time_of_ban: i64,
        bantime: Option<i64>,
        db: &mut Database,
        now: Timestamp,
    )
        requires
            old(self).wf(),
        ensures
            final(self).wf(),
            ({
                let start = restored_start(time_of_ban, now);
                if restored_over(start, bantime, now) {
                    &&& final(self)@ == old(self)@
                    &&& final(db)@ == database::without_ban(
                        old(db)@,
                        old(self)@.config.name,
                        host@,
                    )
                } else {
                    &&& final(self)@ == (JailState {
                        bans: banmanager::with_ban(
                            old(self)@.bans,
                            restored_ban(host@, ip, start, bantime),
                        ),
                        ..old(self)@
                    })
                    &&& final(db)@ == old(db)@
                }
            }),
    {
        let start = match datepattern::from_timestamp(time_of_ban, 0) {
            Some((secs, nanos)) => Timestamp { secs, nanos },
            None => now,
        };
        if let Some(n) = bantime {
            if now.reaches(start, n as i128) {
                db.remove_ban(self.config.name.as_str(), host);
                return;
            }
        }
        let matches: Vec<String> = Vec::new();
        assert(text::texts(matches@) =~= Seq::empty());
        let ban = BanTicket {
            host: host.to_owned(),
            ip,
            user: None,
            alt_user: None,
            mlfid: None,
            time_of_ban: start,
            bantime: match bantime {
                Some(n) => Some(n as i128),
                None => None,
            },
            matches,
            failures: 0,
        };
        let _ = self.ban_mgr.add_ban(ban);
    }

    /// Lifts the bans that are over, and drops the failures that no longer
    /// count.
    pub fn purge_expired_bans(&mut self, db: &mut Database, now: Timestamp) -> (r: Vec<Job>)
        requires
            old(self).wf(),
        ensures
            final(self).wf(),
            final(self)@ == purged(old(self)@, now),
            ({
                let ended = banmanager::tickets(banmanager::over(old(self)@.bans.bans, now, true));
                &&& final(db)@ == lifting(old(db)@, old(self)@.config.name, ended)
                &&& jobs::job_list(r@) == jobs::unban_jobs(old(self)@.actions, Which::All, ended)
            }),
    {
        let ended = self.ban_mgr.expired(now);
        let mut jobs: Vec<Job> = Vec::new();
        assert(jobs::job_list(jobs@) =~= Seq::empty());
        jobs::add_unban_jobs(&mut jobs, &self.actions, Which::All, &ended);
        assert(jobs::job_list(jobs@) =~= jobs::unban_jobs(
            self@.actions,
            Which::All,
            banmanager::ban_list(ended@),
        ));
        lift_all(db, self.config.name.as_str(), &ended);
        self.fail_mgr.purge(now);
        jobs
    }
}

/// What a jail's log lines come from.
#[derive(Debug)]
pub enum BackendPlan {
    /// The systemd journal.
    Journal,
    /// Files, watched through notifications.
    Files(Vec<String>),
    /// Files, looked at again and again.
    Polling(Vec<String>),
    /// Nothing: the jail is passed over.
    Skip,
}

/// The model of what a jail's log lines come from.
pub enum Source {
    Journal,
    Files(Seq<Text>),
    Polling(Seq<Text>),
    Skip,
}

impl View for BackendPlan {
    type V = Source;

    open spec fn view(&self) -> Source {
        match *self {
            BackendPlan::Journal => Source::Journal,
            BackendPlan::Files(v) => Source::Files(text::texts(v@)),
            BackendPlan::Polling(v) => Source::Polling(text::texts(v@)),
            BackendPlan::Skip => Source::Skip,
        }
    }
}

/// Whether a jail reads the journal whatever log files there are.
pub open spec fn reads_journal(c: JailView) -> bool {
    c.backend == "systemd"@ || (c.logpath.len() == 0 && c.backend == "auto"@
        && c.systemd_if_nologs)
}

/// What a jail's log lines come from, given the log files that were found.
pub open spec fn source_of(c: JailView, paths: Seq<Text>) -> Result<Source, ErrorView> {
    if reads_journal(c) {
        Ok(Source::Journal)
    } else if paths.len() > 0 {
        if c.backend == "polling"@ {
            Ok(Source::Polling(paths))
        } else {
            Ok(Source::Files(paths))
        }
    } else if c.skip_if_nologs {
        Ok(Source::Skip)
    } else if c.systemd_if_nologs && c.backend == "auto"@ {
        Ok(Source::Journal)
    } else {
        Err(
            ErrorView::Config(
                "jail "@ + c.name + ": no log files found for "@ + text::list_text(c.logpath),
            ),
        )
    }
}

/// What a jail's log lines come from, given the log files that were found.
pub fn choose_backend(config: &JailConfig, paths: Vec<String>) -> (r: Result<BackendPlan, Error>)
    ensures
        error::outcome(r) == source_of(config@, text::texts(paths@)),
{
    let auto = text::same(config.backend.as_str(), "auto");
    if text::same(config.backend.as_str(), "systemd") || (config.logpath.len() == 0 && auto
        && config.systemd_if_nologs) {
        Ok(BackendPlan::Journal)
    } else if paths.len() > 0 {
        if text::same(config.backend.as_str(), "polling") {
            Ok(BackendPlan::Polling(paths))
        } else {
            Ok(BackendPlan::Files(paths))
        }
    } else if config.skip_if_nologs {
        Ok(BackendPlan::Skip)
    } else if config.systemd_if_nologs && auto {
        Ok(BackendPlan::Journal)
    } else {
        let list = text::show_list(&config.logpath);
        Err(
            Error::Config(
                text::cat4(
                    "jail ",
                    config.name.as_str(),
                    ": no log files found for ",
                    list.as_str(),
                ),
            ),
        )
    }
}

/// A host that is never to be banned is not banned, whatever it does, and its
/// failures are dropped once there are enough of them.
pub proof fn law_ignored_host_is_never_banned(
    st: JailState,
    m: MatchView,
    clock: Timestamp,
    nanos: u64,
    past: nat,
    draw: u64,
)
    requires
        is_ignored(
            st.config,
            failmanager::ticket_after(st.fails, m, moment_of(m, clock), st.window),
        ),
    ensures
        match_step(st, m, clock, nanos, past, draw).1 == MatchAsks::Nothing,
        match_step(st, m, clock, nanos, past, draw).0.bans == st.bans,
        failmanager::ban_due(st.fails, m, moment_of(m, clock), st.window) is Some
            && table::distinct(st.fails.tickets) ==> table::lookup(
            match_step(st, m, clock, nanos, past, draw).0.fails.tickets,
            failmanager::ticket_after(st.fails, m, moment_of(m, clock), st.window).host,
        ) is None,
{
    let now = moment_of(m, clock);
    let t = failmanager::ticket_after(st.fails, m, now, st.window);
    let host = failmanager::host_of(st.fails, m);
    if table::distinct(st.fails.tickets) {
        table::lemma_put_distinct(st.fails.tickets, host, t);
        table::law_removed_lookup(
            failmanager::after_match(st.fails, m, now, st.window).tickets,
            t.host,
            t.host,
        );
    }
}

/// A host that the `ignorecommand` says to ignore is not banned; the next time
/// the same answer is remembered, so long as it holds, and nothing is asked.
pub proof fn law_answer_is_not_asked_twice(
    st: JailState,
    key: Text,
    ignore: bool,
    ban: BanView,
    other: BanView,
    clock: Timestamp,
    nanos: u64,
    later: u64,
)
    requires
        st.cache is Some,
        nanos <= later,
        later - nanos <= st.cache->0.max_time * ignorecache::SECOND,
    ensures
        ignore ==> answer_step(st, key, ignore, ban, clock, nanos).1 is None,
        !(before_ban(answer_step(st, key, ignore, ban, clock, nanos).0, key, other, later).1 is Command),
        st.config.ignorecommand is Some && ignore ==> before_ban(
            answer_step(st, key, ignore, ban, clock, nanos).0,
            key,
            other,
            later,
        ).1 == MatchAsks::Nothing,
{
    ignorecache::law_answer_is_remembered(st.cache->0, key, ignore, nanos, later);
}

/// A ban that is issued is in force, and the failures that led to it are
/// dropped.
pub proof fn law_issued_ban_is_in_force(st: JailState, b: BanView)
    requires
        table::distinct(st.fails.tickets),
    ensures
        banmanager::banned(with_issued(st, b).bans, b.host),
        table::lookup(with_issued(st, b).fails.tickets, b.host) is None,
{
    banmanager::law_added_ban_holds(st.bans, b, b.host);
    table::law_removed_lookup(st.fails.tickets, b.host, b.host);
}

/// A ban from the record is taken up exactly where it is not over, with the
/// length that was recorded, and one without an end always is.
pub proof fn law_restored_bans_hold(
    host: Text,
    ip: Option<IpAddr>,
    start: Timestamp,
    bantime: Option<i64>,
    now: Timestamp,
)
    ensures
        restored_over(start, bantime, now) == banmanager::is_over(
            restored_ban(host, ip, start, bantime),
            now,
        ),
        bantime is None ==> !restored_over(start, bantime, now),
{
}

/// What becomes of a match without an address: by `usedns`, the host is looked
/// up, taken for an address where it looks like one, passed over, or taken as
/// it is.
pub proof fn law_host_names(usedns: Text, m: MatchView)
    requires
        !m.mlfforget,
        m.ip is None,
        m.host.len() > 0,
    ensures
        match_asks("no"@, m) == LineAsks::Nothing,
        (exists|i: int|
            0 <= i < m.host.len() && !text::is_digit(#[trigger] m.host[i]) && m.host[i] != '.') ==> {
            &&& match_asks("yes"@, m) == LineAsks::Lookup(m)
            &&& match_asks("warn"@, m) == LineAsks::Lookup(m)
        },
        (forall|i: int|
            0 <= i < m.host.len() ==> text::is_digit(#[trigger] m.host[i]) || m.host[i] == '.') ==> {
            &&& match_asks("yes"@, m) == LineAsks::Match(MatchView { ip: ip::ip_of(m.host), ..m })
            &&& match_asks("warn"@, m) == LineAsks::Match(MatchView { ip: ip::ip_of(m.host), ..m })
        },
        usedns != "no"@ && usedns != "yes"@ && usedns != "warn"@ ==> match_asks(usedns, m)
            == LineAsks::Match(m),
{
    reveal_strlit("no");
    reveal_strlit("yes");
    reveal_strlit("warn");
    assert("no"@.len() == 2);
    assert("yes"@.len() == 3);
    assert("warn"@.len() == 4);
}

/// A match with an address, or of no host, is taken as it is; one that only
/// forgets a session asks for nothing.
pub proof fn law_addresses_need_no_lookup(usedns: Text, m: MatchView)
    ensures
        m.mlfforget ==> match_asks(usedns, m) == LineAsks::Nothing,
        !m.mlfforget && m.ip is Some ==> match_asks(usedns, m) == LineAsks::Match(m),
        !m.mlfforget && m.host.len() == 0 ==> match_asks(usedns, m) == LineAsks::Match(m),
{
}

/// A line is matched together with the newest before it; a match empties the
/// buffer, and where it says so, its session is forgotten.
pub proof fn law_lines_are_read(st: JailState, line: Text, year: i32)
    ensures
        ({
            let lines = filter::newest(st.lines.push(line), st.maxlines);
            let found = filter::line_match(st.rules, text::joined(lines, "\n"@), year);
            let (after, asks) = line_step(st, line, year);
            &&& found is None ==> asks == LineAsks::Nothing && after == (JailState { lines, ..st })
            &&& found matches Some(m) ==> {
                &&& asks == match_asks(st.config.usedns, m)
                &&& after.lines.len() == 0
                &&& after.bans == st.bans
                &&& after.fails.tickets == st.fails.tickets
                &&& !m.mlfforget ==> after.fails == st.fails
                &&& m.mlfforget && table::distinct(st.fails.mlfids) ==> (m.mlfid matches Some(id)
                    ==> table::lookup(after.fails.mlfids, id) is None)
            }
        }),
{
    let lines = filter::newest(st.lines.push(line), st.maxlines);
    if let Some(m) = filter::line_match(st.rules, text::joined(lines, "\n"@), year) {
        if let Some(id) = m.mlfid {
            if table::distinct(st.fails.mlfids) {
                table::law_removed_lookup(st.fails.mlfids, id, id);
            }
        }
    }
}

/// The addresses of the host itself: 127.0.0.0 to 127.255.255.255, and ::1.
pub proof fn law_own_addresses(n: u32, k: u128)
    ensures
        is_own(IpAddr::V4(n)) <==> 0x7f00_0000 <= n <= 0x7fff_ffff,
        is_own(IpAddr::V6(k)) <==> k == 1,
{
}

/// A host is ignored when its address, or its name where it has no address, is
/// on the list, and when it is the host itself, unless the jail says otherwise.
pub proof fn law_who_is_ignored(c: JailView, t: FailView)
    ensures
        t.ip matches Some(ip) ==> (is_ignored(c, t) <==> ip::list_matches(c.ignoreip, ip) || (
        c.ignoreself && is_own(ip))),
        t.ip is None ==> (is_ignored(c, t) <==> ip::list_matches_raw(c.ignoreip, t.host)),
{
}

/// A match that does not make enough failures is only noted.
pub proof fn law_match_is_only_noted(
    st: JailState,
    m: MatchView,
    clock: Timestamp,
    nanos: u64,
    past: nat,
    draw: u64,
)
    ensures
        ({
            let now = match m.timestamp {
                Some(t) => t,
                None => clock,
            };
            failmanager::ban_due(st.fails, m, now, st.window) is None ==> match_step(
                st,
                m,
                clock,
                nanos,
                past,
                draw,
            ) == (
                JailState { fails: failmanager::after_match(st.fails, m, now, st.window), ..st },
                MatchAsks::Nothing,
            )
        }),
{
}

/// Enough failures of a host that is not ignored make a ban, of the length
/// that the bans before it make, from the moment on the clock.
pub proof fn law_enough_failures_ban(
    st: JailState,
    m: MatchView,
    clock: Timestamp,
    nanos: u64,
    past: nat,
    draw: u64,
    t: FailView,
)
    requires
        st.config.ignorecommand is None,
        failmanager::ban_due(
            st.fails,
            m,
            (match m.timestamp {
                Some(x) => x,
                None => clock,
            }),
            st.window,
        ) == Some(t),
        !is_ignored(st.config, t),
    ensures
        match_step(st, m, clock, nanos, past, draw).1 matches MatchAsks::Ban(b) && {
            &&& b.host == t.host
            &&& b.time_of_ban == clock
            &&& b.bantime == banmanager::length_of(bantime::ban_seconds(st.config, past, draw))
            &&& b.matches == t.matches
            &&& t.times.len() <= u32::MAX ==> b.failures == t.times.len()
        },
{
}

/// Before a ban, the ignore command is asked about the address, or the host
/// where there is none, unless its answer is still known; a command that
/// cannot be run ignores nobody.
pub proof fn law_ignore_command_is_asked(
    st: JailState,
    command: Text,
    key: Text,
    ban: BanView,
    nanos: u64,
    t: FailView,
)
    requires
        st.config.ignorecommand == Some(command),
    ensures
        ({
            let r = before_ban(st, key, ban, nanos);
            let known = match st.cache {
                Some(c) => ignorecache::cached(c, key, nanos),
                None => None,
            };
            let words = run::shell_words(find::replaced(command, "<ip>"@, key));
            &&& known == Some(true) ==> r.1 == MatchAsks::Nothing && r.0.bans == st.bans
            &&& known == Some(false) ==> r == (st, MatchAsks::Ban(ban))
            &&& known is None ==> (words matches Some(w) ==> w.len() > 0 ==> r == (
                st,
                MatchAsks::Command { key, words: w, ban },
            ))
            &&& known is None && words is None ==> r.1 == MatchAsks::Ban(ban)
        }),
        t.ip matches Some(ip) ==> question_of(t) == ip::ip_text(ip),
        t.ip is None ==> question_of(t) == t.host,
{
}

/// The answer to the ignore command decides: a host that is ignored is not
/// banned and its failures go, any other is banned from now on.
pub proof fn law_answer_decides(
    st: JailState,
    key: Text,
    ban: BanView,
    clock: Timestamp,
    nanos: u64,
)
    requires
        table::distinct(st.fails.tickets),
    ensures
        answer_step(st, key, true, ban, clock, nanos).1 is None,
        table::lookup(
            answer_step(st, key, true, ban, clock, nanos).0.fails.tickets,
            ban.host,
        ) is None,
        answer_step(st, key, false, ban, clock, nanos).1 == Some(
            BanView { time_of_ban: clock, ..ban },
        ),
        answer_step(st, key, false, ban, clock, nanos).0.fails == st.fails,
{
    table::law_removed_lookup(st.fails.tickets, ban.host, ban.host);
}

/// What is recorded of a ban: the jail, the host, the second it began in, its
/// length, and no more lines than there is room for.
pub proof fn law_ban_is_written(jail: Text, b: BanView, max: nat, n: i64)
    ensures
        ({
            let r = row_of(jail, b, max);
            &&& r.jail == jail
            &&& r.ip == b.host
            &&& r.time == b.time_of_ban.secs
            &&& b.bantime is None <==> r.bantime is None
            &&& b.bantime == Some(n as i128) ==> r.bantime == Some(n)
        }),
        b.matches.len() > max ==> ban_data(b, max) == ban_data(
            BanView { matches: b.matches.take(max as int), ..b },
            max,
        ),
        b.matches.len() <= max && b.user is None ==> ban_data(b, max) == "{\"matches\":["@
            + text::joined(json_strings(b.matches), ","@) + "],\"user\":"@ + "null"@ + "}"@,
        b.user matches Some(u) ==> (b.matches.len() <= max ==> ban_data(b, max)
            == "{\"matches\":["@ + text::joined(json_strings(b.matches), ","@) + "],\"user\":"@
            + json_string(u) + "}"@),
{
}

/// A ban by hand is one of the host, from now on, of the length that a ban
/// after as many bans has.
pub proof fn law_ban_by_hand(c: JailView, host: Text, past: nat, draw: u64, now: Timestamp)
    ensures
        ({
            let b = ban_by_hand(c, host, past, draw, now);
            &&& b.host == host
            &&& b.ip == ip::ip_of(host)
            &&& b.time_of_ban == now
            &&& b.bantime == banmanager::length_of(bantime::ban_seconds(c, past, draw))
            &&& b.failures == 0
        }),
        ({
            let m = attempt_of(host, now);
            &&& m.host == host
            &&& m.ip == ip::ip_of(host)
            &&& m.timestamp == Some(now)
            &&& !m.nofail && !m.mlfgained && !m.mlfforget
        }),
        info_by_hand(host).ip == host,
        info_by_hand(host).ip_addr == ip::ip_of(host),
{
}

/// Bans are lifted from the record one after the other.
pub proof fn law_lifted_one_by_one(st: DbState, jail: Text, bans: Seq<BanView>, b: BanView)
    ensures
        lifting(st, jail, Seq::empty()) == st,
        lifting(st, jail, bans.push(b)) == database::without_ban(
            lifting(st, jail, bans),
            jail,
            b.host,
        ),
{
    assert(bans.push(b).drop_last() =~= bans);
}

/// Bans that are over go, and hosts without recent failures; nothing else
/// changes.
pub proof fn law_what_is_over_goes(st: JailState, now: Timestamp)
    ensures
        purged(st, now) == (JailState {
            bans: BanState {
                bans: banmanager::over(st.bans.bans, now, false),
                total: st.bans.total,
            },
            fails: FailState {
                tickets: failmanager::live(st.fails.tickets, now, st.window.findtime),
                mlfids: st.fails.mlfids,
            },
            ..st
        }),
{
}

/// A recorded ban is over once its seconds have passed since it began, and
/// begins when it was recorded.
pub proof fn law_recorded_ban_lasts(time: i64, n: i64, now: Timestamp)
    requires
        datepattern::representable(time, 0),
        now.nanos < 1000000000,
    ensures
        restored_start(time, now) == (Timestamp { secs: time, nanos: 0 }),
        restored_over(restored_start(time, now), Some(n), now) <==> now.secs >= time + n,
        !restored_over(restored_start(time, now), None, now),
{
    time::law_moments(now, Timestamp { secs: time, nanos: 0 }, n as int);
}

/// Where a jail reads from: the journal where its backend is `systemd`, else
/// the files that were found; without files it is passed over, or reads the
/// journal, where its settings say so, and otherwise that is an error.
pub proof fn law_where_a_jail_reads(c: JailView, paths: Seq<Text>)
    ensures
        c.backend == "systemd"@ ==> source_of(c, paths) == Ok::<Source, ErrorView>(Source::Journal),
        c.backend == "auto"@ && c.logpath.len() > 0 && paths.len() > 0 ==> source_of(c, paths)
            == Ok::<Source, ErrorView>(Source::Files(paths)),
        c.backend == "polling"@ && paths.len() > 0 ==> source_of(c, paths) == Ok::<
            Source,
            ErrorView,
        >(Source::Polling(paths)),
        c.backend == "auto"@ && c.logpath.len() == 0 && c.systemd_if_nologs ==> source_of(c, paths)
            == Ok::<Source, ErrorView>(Source::Journal),
        c.backend == "auto"@ && c.logpath.len() > 0 && paths.len() == 0 ==> {
            &&& c.skip_if_nologs ==> source_of(c, paths) == Ok::<Source, ErrorView>(Source::Skip)
            &&& !c.skip_if_nologs && c.systemd_if_nologs ==> source_of(c, paths) == Ok::<
                Source,
                ErrorView,
            >(Source::Journal)
            &&& !c.skip_if_nologs && !c.systemd_if_nologs ==> source_of(c, paths) is Err
        },
        c.backend == "polling"@ && paths.len() == 0 ==> {
            &&& c.skip_if_nologs ==> source_of(c, paths) == Ok::<Source, ErrorView>(Source::Skip)
            &&& !c.skip_if_nologs ==> source_of(c, paths) is Err
        },
{
    reveal_strlit("systemd");
    reveal_strlit("auto");
    reveal_strlit("polling");
    assert("systemd"@.len() == 7 && "systemd"@[0] == 's');
    assert("auto"@.len() == 4);
    assert("polling"@.len() == 7 && "polling"@[0] == 'p');
}

/// How many lines are matched together: as many as the jail says, where it
/// says more than one, else as many as the filter says; and failures count for
/// the jail's find time.
pub proof fn law_lines_together(of_jail: u32, of_filter: u32, n: u64)
    ensures
        of_jail > 1 ==> lines_together(of_jail, of_filter) == of_jail,
        of_jail <= 1 && of_filter >= 1 ==> lines_together(of_jail, of_filter) == of_filter,
        of_jail <= 1 && of_filter == 0 ==> lines_together(of_jail, of_filter) == 1,
        n <= i64::MAX ==> window_of(TimeValue { seconds: Some(n), permanent: false }) == n,
{
}

/// A host that the ignore command is known to ignore loses its failures, and a
/// new answer is kept for later where there is a cache.
pub proof fn law_ignored_host_is_forgiven(
    st: JailState,
    command: Text,
    key: Text,
    ban: BanView,
    nanos: u64,
    c: CacheView,
    answer: bool,
)
    requires
        table::distinct(st.fails.tickets),
        st.config.ignorecommand == Some(command),
        st.cache == Some(c),
    ensures
        ignorecache::cached(c, key, nanos) == Some(true) ==> table::lookup(
            before_ban(st, key, ban, nanos).0.fails.tickets,
            ban.host,
        ) is None,
        answer_step(st, key, answer, ban, ban.time_of_ban, nanos).0.cache == Some(
            ignorecache::with_answer(c, key, answer, nanos),
        ),
{
    table::law_removed_lookup(st.fails.tickets, ban.host, ban.host);
}

/// A length that does not fit in the record is recorded as the nearest that
/// does; a jail has the cache that it describes.
pub proof fn law_recorded_lengths(n: i128, c: JailView, s: Text)
    ensures
        i64::MIN <= n <= i64::MAX ==> (recorded_length(Some(n)) matches Some(k) && k == n),
        n > i64::MAX ==> recorded_length(Some(n)) == Some(i64::MAX),
        n < i64::MIN ==> recorded_length(Some(n)) == Some(i64::MIN),
        recorded_length(None) is None,
        c.ignorecache == Some(s) ==> first_cache(c) == ignorecache::cache_of(s),
        c.ignorecache is None ==> first_cache(c) is None,
{
}

} // verus!
