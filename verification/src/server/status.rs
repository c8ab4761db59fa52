//! What the server tells of its jails.

use crate::config::jail::{JailConfig, JailView};
use crate::config::loader;
use crate::config::loader::ConfigView;
use crate::ip;
use crate::protocol;
use crate::protocol::{BanDetail, DetailView, JailStats, Listing, StatsView};
use crate::server::banmanager;
use crate::server::banmanager::{BanTicket, BanView};
use crate::server::failmanager;
use crate::server::jail::{Jail, JailState};
use crate::server::server::Server;
use crate::table;
use crate::text;
use crate::text::number;
use crate::text::Text;
use crate::time;
use vstd::prelude::*;

verus! {

/// A ban as it is listed.
pub open spec fn detail_of(b: BanView) -> DetailView {
    DetailView {
        ip: b.host,
        time_of_ban: b.time_of_ban.secs,
        bantime: b.bantime,
        failures: b.failures,
        matches: b.matches,
    }
}

/// The hosts of bans.
pub open spec fn hosts_of(b: Seq<BanView>) -> Seq<Text> {
    b.map_values(|b: BanView| b.host)
}

/// A number of failures as it is told, cut off at the machine's largest
/// integer.
pub open spec fn told_failures(j: JailState) -> nat {
    if failmanager::failure_count(j.fails.tickets) > usize::MAX {
        usize::MAX as nat
    } else {
        failmanager::failure_count(j.fails.tickets)
    }
}

/// What is told of a jail that runs. Its settings are those of the
/// configuration, where it has them.
pub open spec fn stats_of(c: ConfigView, j: JailState) -> StatsView {
    let bans = banmanager::tickets(j.bans.bans);
    let base = StatsView {
        jail: j.config.name,
        enabled: false,
        filter: Seq::empty(),
        logpath: Seq::empty(),
        maxretry: 0,
        maxmatches: 0,
        findtime: 0,
        bantime: 0,
        usedns: Seq::empty(),
        currently_banned: j.bans.bans.len(),
        total_banned: j.bans.total,
        currently_failed: j.fails.tickets.len(),
        total_failed: told_failures(j),
        banned_ips: hosts_of(bans),
        banned_list: bans.map_values(|b: BanView| detail_of(b)),
    };
    match table::lookup(c.jails, j.config.name) {
        Some(s) => StatsView {
            enabled: s.enabled,
            filter: s.filter,
            logpath: s.logpath,
            maxretry: s.maxretry,
            maxmatches: s.maxmatches,
            findtime: time::seconds_or_max(s.findtime),
            bantime: time::seconds_or_max(s.bantime),
            usedns: s.usedns,
            ..base
        },
        None => base,
    }
}

/// The text of a truth value.
pub open spec fn flag_text(b: bool) -> Text {
    if b {
        "true"@
    } else {
        "false"@
    }
}

/// A text that need not be there.
pub open spec fn or_nothing(t: Option<Text>) -> Text {
    match t {
        Some(s) => s,
        None => Seq::empty(),
    }
}

/// The value of a setting of a jail. The patterns are those of the filter that
/// runs; all else is as the configuration has it.
pub open spec fn attr_of(c: JailView, j: JailState, key: Text) -> Text {
    if key == "logpath"@ {
        text::joined(c.logpath, " "@)
    } else if key == "logencoding"@ {
        c.logencoding
    } else if key == "journalmatch"@ {
        text::joined(c.journalmatch, " + "@)
    } else if key == "ignoreself"@ {
        flag_text(c.ignoreself)
    } else if key == "ignoreip"@ {
        text::joined(c.ignoreip.map_values(|e: ip::IgnoreView| ip::entry_text(e)), " "@)
    } else if key == "ignorecommand"@ {
        or_nothing(c.ignorecommand)
    } else if key == "ignorecache"@ {
        or_nothing(c.ignorecache)
    } else if key == "failregex"@ {
        text::joined(j.filter.failregex, "\n"@)
    } else if key == "ignoreregex"@ {
        text::joined(j.filter.ignoreregex, "\n"@)
    } else if key == "findtime"@ {
        number::decimal(time::seconds_or_max(c.findtime) as nat)
    } else if key == "bantime"@ {
        number::decimal(time::seconds_or_max(c.bantime) as nat)
    } else if key == "usedns"@ {
        c.usedns
    } else if key == "maxretry"@ {
        number::decimal(c.maxretry as nat)
    } else if key == "maxmatches"@ {
        number::decimal(c.maxmatches as nat)
    } else if key == "maxlines"@ {
        number::decimal(c.maxlines as nat)
    } else if key == "actions"@ {
        text::joined(c.actions, ", "@)
    } else {
        or_nothing(table::lookup(c.extra, key))
    }
}

/// The value of a setting of a jail that runs; nothing where the configuration
/// does not have the jail.
pub open spec fn jail_attr(c: ConfigView, j: JailState, key: Text) -> Text {
    match table::lookup(c.jails, j.config.name) {
        Some(s) => attr_of(s, j, key),
        None => Seq::empty(),
    }
}

fn copy_or_nothing(o: &Option<String>) -> (r: String)
    ensures
        r@ == or_nothing(text::opt_text(*o)),
{
    match o {
        Some(s) => s.clone(),
        None => {
            let r = String::new();
            assert(r@ =~= Seq::<char>::empty());
            r
        },
    }
}

fn show_ignored(c: &JailConfig) -> (r: String)
    ensures
        r@ == text::joined(c@.ignoreip.map_values(|e: ip::IgnoreView| ip::entry_text(e)), " "@),
{
    let list = c.ignoreip.iter();
    let mut shown: Vec<String> = Vec::new();
    let mut i: usize = 0;
    while i < list.len()
        invariant
            i <= list.len(),
            shown@.len() == i,
            forall|k: int| 0 <= k < i ==> (#[trigger] shown@[k])@ == ip::entry_text(list@[k]@),
        decreases list.len() - i,
    {
        shown.push(list[i].show());
        i += 1;
    }
    assert forall|k: int| 0 <= k < shown@.len() implies (#[trigger] shown@[k])@ == ip::entry_text(
        c@.ignoreip[k],
    ) by {
        assert(list@.map_values(|e: ip::IgnoreEntry| e@)[k] == list@[k]@);
    }
    assert(c@.ignoreip.len() == list@.map_values(|e: ip::IgnoreEntry| e@).len());
    assert(text::texts(shown@) =~= c@.ignoreip.map_values(
        |e: ip::IgnoreView| ip::entry_text(e),
    ));
    text::join(&shown, " ")
}

fn show_attr(c: &JailConfig, j: &Jail, key: &str) -> (r: String)
    ensures
        r@ == attr_of(c@, j@, key@),
{
    if text::same(key, "logpath") {
        text::join(&c.logpath, " ")
    } else if text::same(key, "logencoding") {
        c.logencoding.clone()
    } else if text::same(key, "journalmatch") {
        text::join(&c.journalmatch, " + ")
    } else if text::same(key, "ignoreself") {
        if c.ignoreself {
            "true".to_owned()
        } else {
            "false".to_owned()
        }
    } else if text::same(key, "ignoreip") {
        show_ignored(c)
    } else if text::same(key, "ignorecommand") {
        copy_or_nothing(&c.ignorecommand)
    } else if text::same(key, "ignorecache") {
        copy_or_nothing(&c.ignorecache)
    } else if text::same(key, "failregex") {
        text::join(&j.filter.config.failregex, "\n")
    } else if text::same(key, "ignoreregex") {
        text::join(&j.filter.config.ignoreregex, "\n")
    } else if text::same(key, "findtime") {
        number::to_decimal(c.findtime.to_seconds_or_max())
    } else if text::same(key, "bantime") {
        number::to_decimal(c.bantime.to_seconds_or_max())
    } else if text::same(key, "usedns") {
        c.usedns.clone()
    } else if text::same(key, "maxretry") {
        number::to_decimal(c.maxretry as u64)
    } else if text::same(key, "maxmatches") {
        number::to_decimal(c.maxmatches as u64)
    } else if text::same(key, "maxlines") {
        number::to_decimal(c.maxlines as u64)
    } else if text::same(key, "actions") {
        text::join(&c.actions, ", ")
    } else {
        match table::get(&c.extra, key) {
            Some(v) => v.to_owned(),
            None => {
                let r = String::new();
                assert(r@ =~= Seq::<char>::empty());
                r
            },
        }
    }
}

fn list_hosts(bans: &Vec<BanTicket>) -> (r: Vec<String>)
    ensures
        text::texts(r@) == hosts_of(banmanager::ban_list(bans@)),
{
    let mut out: Vec<String> = Vec::new();
    let mut i: usize = 0;
    while i < bans.len()
        invariant
            i <= bans.len(),
            out@.len() == i,
            forall|k: int| 0 <= k < i ==> (#[trigger] out@[k])@ == bans@[k]@.host,
        decreases bans.len() - i,
    {
        out.push(bans[i].host.clone());
        i += 1;
    }
    assert(text::texts(out@) =~= hosts_of(banmanager::ban_list(bans@)));
    out
}

fn list_details(bans: &Vec<BanTicket>) -> (r: Vec<BanDetail>)
    ensures
        protocol::detail_list(r@) == banmanager::ban_list(bans@).map_values(
            |b: BanView| detail_of(b),
        ),
{
    let mut out: Vec<BanDetail> = Vec::new();
    let mut i: usize = 0;
    while i < bans.len()
        invariant
            i <= bans.len(),
            out@.len() == i,
            forall|k: int| 0 <= k < i ==> (#[trigger] out@[k])@ == detail_of(bans@[k]@),
        decreases bans.len() - i,
    {
        let b = &bans[i];
        let d = BanDetail {
            ip: b.host.clone(),
            time_of_ban: b.time_of_ban.secs,
            bantime: b.bantime,
            failures: b.failures,
            matches: text::copy_strings(&b.matches),
        };
        out.push(d);
        i += 1;
    }
    assert(protocol::detail_list(out@) =~= banmanager::ban_list(bans@).map_values(
        |b: BanView| detail_of(b),
    ));
    out
}

impl Server {
    fn settings_of(&self, name: &str) -> (r: Option<&JailConfig>)
        requires
            self.wf(),
        ensures
            match r {
                Some(c) => table::lookup(self@.config.jails, name@) == Some(c@),
                None => table::lookup(self@.config.jails, name@) is None,
            },
    {
        proof {
            let f = |j: JailConfig| j@;
            table::lemma_mapped(self.config.jails.jails@, f, name@, arbitrary());
            assert(loader::jail_views(self.config.jails.jails@) =~= table::mapped(
                self.config.jails.jails@,
                f,
            ));
        }
        self.config.jails.jails.get(name)
    }

    /// What is told of the jail at a position.
    pub fn jail_stats(&self, i: usize) -> (r: JailStats)
        requires
            self.wf(),
            i < self@.jails.len(),
        ensures
            r@ == stats_of(self@.config, self@.jails[i as int]),
    {
        let j = &self.jails[i];
        let bans = j.ban_mgr.snapshot();
        let banned_ips = list_hosts(&bans);
        let banned_list = list_details(&bans);
        match self.settings_of(j.config.name.as_str()) {
            Some(c) => JailStats {
                jail: j.config.name.clone(),
                enabled: c.enabled,
                filter: c.filter.clone(),
                logpath: text::copy_strings(&c.logpath),
                maxretry: c.maxretry,
                maxmatches: c.maxmatches,
                findtime: c.findtime.to_seconds_or_max(),
                bantime: c.bantime.to_seconds_or_max(),
                usedns: c.usedns.clone(),
                currently_banned: j.ban_mgr.current_banned(),
                total_banned: j.ban_mgr.total_banned(),
                currently_failed: j.fail_mgr.current_failed(),
                total_failed: j.fail_mgr.total_failed(),
                banned_ips,
                banned_list,
            },
            None => {
                let nothing = String::new();
                let none = String::new();
                let logpath: Vec<String> = Vec::new();
                proof {
                    assert(nothing@ =~= Seq::<char>::empty());
                    assert(none@ =~= Seq::<char>::empty());
                    assert(text::texts(logpath@) =~= Seq::empty());
                }
                JailStats {
                    jail: j.config.name.clone(),
                    enabled: false,
                    filter: nothing,
                    logpath,
                    maxretry: 0,
                    maxmatches: 0,
                    findtime: 0,
                    bantime: 0,
                    usedns: none,
                    currently_banned: j.ban_mgr.current_banned(),
                    total_banned: j.ban_mgr.total_banned(),
                    currently_failed: j.fail_mgr.current_failed(),
                    total_failed: j.fail_mgr.total_failed(),
                    banned_ips,
                    banned_list,
                }
            },
        }
    }

    /// The value of a setting of the jail at a position.
    pub fn get_jail_attr(&self, i: usize, key: &str) -> (r: String)
        requires
            self.wf(),
            i < self@.jails.len(),
        ensures
            r@ == jail_attr(self@.config, self@.jails[i as int], key@),
    {
        let j = &self.jails[i];
        match self.settings_of(j.config.name.as_str()) {
            Some(c) => show_attr(c, j, key),
            None => {
                let r = String::new();
                assert(r@ =~= Seq::<char>::empty());
                r
            },
        }
    }
}

/// The names of jails.
pub open spec fn names_of(jails: Seq<JailState>) -> Seq<Text> {
    jails.map_values(|j: JailState| j.config.name)
}

/// The banned hosts of each jail that has any.
pub open spec fn banned_by_jail(jails: Seq<JailState>) -> Seq<(Text, Seq<Text>)>
    decreases jails.len(),
{
    if jails.len() == 0 {
        Seq::empty()
    } else {
        let j = jails.last();
        let front = banned_by_jail(jails.drop_last());
        if j.bans.bans.len() > 0 {
            front.push((j.config.name, hosts_of(banmanager::tickets(j.bans.bans))))
        } else {
            front
        }
    }
}

/// The names of the jails in which a host is banned.
pub open spec fn banning(jails: Seq<JailState>, host: Text) -> Seq<Text>
    decreases jails.len(),
{
    if jails.len() == 0 {
        Seq::empty()
    } else {
        let front = banning(jails.drop_last(), host);
        if banmanager::banned(jails.last().bans, host) {
            front.push(jails.last().config.name)
        } else {
            front
        }
    }
}

impl Server {
    /// The names of the jails that run.
    pub fn list_jails(&self) -> (r: Vec<String>)
        ensures
            text::texts(r@) == names_of(self@.jails),
    {
        let mut out: Vec<String> = Vec::new();
        let mut i: usize = 0;
        while i < self.jails.len()
            invariant
                i <= self.jails.len(),
                out@.len() == i,
                forall|k: int| 0 <= k < i ==> (#[trigger] out@[k])@ == self.jails@[k]@.config.name,
            decreases self.jails.len() - i,
        {
            out.push(self.jails[i].config.name.clone());
            i += 1;
        }
        assert(text::texts(out@) =~= names_of(self@.jails));
        out
    }

    /// What is told of all jails that run.
    pub fn all_stats(&self) -> (r: Vec<JailStats>)
        requires
            self.wf(),
        ensures
            protocol::stats_list(r@) == self@.jails.map_values(
                |j: JailState| stats_of(self@.config, j),
            ),
    {
        let mut out: Vec<JailStats> = Vec::new();
        let mut i: usize = 0;
        while i < self.jails.len()
            invariant
                i <= self.jails.len(),
                self.wf(),
                out@.len() == i,
                forall|k: int| 0 <= k < i ==> (#[trigger] out@[k])@ == stats_of(
                    self@.config,
                    self@.jails[k],
                ),
            decreases self.jails.len() - i,
        {
            out.push(self.jail_stats(i));
            i += 1;
        }
        assert(protocol::stats_list(out@) =~= self@.jails.map_values(
            |j: JailState| stats_of(self@.config, j),
        ));
        out
    }

    /// The banned hosts of each jail that has any.
    pub fn banned_map(&self) -> (r: Vec<Listing>)
        ensures
            protocol::listing_list(r@) == banned_by_jail(self@.jails),
    {
        let ghost all = self@.jails;
        let mut out: Vec<Listing> = Vec::new();
        let mut i: usize = 0;
        proof {
            assert(all.take(0) =~= Seq::empty());
            assert(protocol::listing_list(out@) =~= Seq::empty());
        }
        while i < self.jails.len()
            invariant
                i <= self.jails.len() == all.len(),
                all == self@.jails,
                protocol::listing_list(out@) == banned_by_jail(all.take(i as int)),
            decreases self.jails.len() - i,
        {
            let j = &self.jails[i];
            proof {
                assert(all.take(i + 1).drop_last() =~= all.take(i as int));
                assert(all.take(i + 1).last() == j@);
            }
            let bans = j.ban_mgr.snapshot();
            assert(banmanager::ban_list(bans@).len() == j@.bans.bans.len());
            if bans.len() > 0 {
                let ghost before = out@;
                let l = Listing { key: j.config.name.clone(), names: list_hosts(&bans) };
                out.push(l);
                assert(protocol::listing_list(out@) =~= protocol::listing_list(before).push(
                    (l.key@, text::texts(l.names@)),
                ));
            }
            i += 1;
        }
        assert(all.take(i as int) =~= all);
        out
    }

    /// The names of the jails in which a host is banned.
    pub fn jails_banning(&self, host: &str) -> (r: Vec<String>)
        ensures
            text::texts(r@) == banning(self@.jails, host@),
    {
        let ghost all = self@.jails;
        let mut out: Vec<String> = Vec::new();
        let mut i: usize = 0;
        proof {
            assert(all.take(0) =~= Seq::empty());
            assert(text::texts(out@) =~= Seq::empty());
        }
        while i < self.jails.len()
            invariant
                i <= self.jails.len() == all.len(),
                all == self@.jails,
                text::texts(out@) == banning(all.take(i as int), host@),
            decreases self.jails.len() - i,
        {
            let j = &self.jails[i];
            proof {
                assert(all.take(i + 1).drop_last() =~= all.take(i as int));
                assert(all.take(i + 1).last() == j@);
            }
            if j.ban_mgr.is_banned(host) {
                let ghost before = out@;
                let name = j.config.name.clone();
                out.push(name);
                proof {
                    text::lemma_texts_push(before, name);
                }
            }
            i += 1;
        }
        assert(all.take(i as int) =~= all);
        out
    }

    /// For each of some hosts, the names of the jails in which it is banned.
    pub fn banning_of(&self, hosts: &Vec<String>, from: usize) -> (r: Vec<Listing>)
        requires
            from <= hosts@.len(),
        ensures
            protocol::listing_list(r@) == text::texts(hosts@).skip(from as int).map_values(
                |h: Text| (h, banning(self@.jails, h)),
            ),
    {
        let mut out: Vec<Listing> = Vec::new();
        let mut i: usize = from;
        while i < hosts.len()
            invariant
                from <= i <= hosts.len(),
                out@.len() == i - from,
                forall|k: int|
                    0 <= k < out@.len() ==> (#[trigger] out@[k]).key@ == hosts@[from + k]@
                        && text::texts(out@[k].names@) == banning(
                        self@.jails,
                        hosts@[from + k]@,
                    ),
            decreases hosts.len() - i,
        {
            let l = Listing {
                key: hosts[i].clone(),
                names: self.jails_banning(hosts[i].as_str()),
            };
            out.push(l);
            i += 1;
        }
        assert(protocol::listing_list(out@) =~= text::texts(hosts@).skip(from as int).map_values(
            |h: Text| (h, banning(self@.jails, h)),
        ));
        out
    }
}

/// A host that is banned in a jail is listed with the name of that jail.
pub proof fn law_banned_host_is_listed(jails: Seq<JailState>, host: Text, i: int)
    requires
        0 <= i < jails.len(),
        banmanager::banned(jails[i].bans, host),
    ensures
        banning(jails, host).contains(jails[i].config.name),
    decreases jails.len(),
{
    let front = banning(jails.drop_last(), host);
    if i == jails.len() - 1 {
        let all = banning(jails, host);
        assert(all[front.len() as int] == jails[i].config.name);
    } else {
        assert(jails.drop_last()[i] == jails[i]);
        law_banned_host_is_listed(jails.drop_last(), host, i);
        let k = choose|k: int| 0 <= k < front.len() && front[k] == jails[i].config.name;
        assert(banning(jails, host)[k] == jails[i].config.name);
    }
}

/// What a jail is told to be: how many hosts are banned and failed, and how
/// many were; and its settings.
pub proof fn law_jail_is_told(c: ConfigView, j: JailState, s: JailView, i: int)
    requires
        table::lookup(c.jails, j.config.name) == Some(s),
    ensures
        ({
            let t = stats_of(c, j);
            &&& t.jail == j.config.name
            &&& t.currently_banned == j.bans.bans.len()
            &&& t.total_banned == j.bans.total
            &&& t.currently_failed == j.fails.tickets.len()
            &&& failmanager::failure_count(j.fails.tickets) <= usize::MAX ==> t.total_failed
                == failmanager::failure_count(j.fails.tickets)
            &&& t.enabled == s.enabled
            &&& t.filter == s.filter
            &&& t.logpath == s.logpath
            &&& t.maxretry == s.maxretry
            &&& t.maxmatches == s.maxmatches
            &&& t.findtime == time::seconds_or_max(s.findtime)
            &&& t.bantime == time::seconds_or_max(s.bantime)
            &&& t.usedns == s.usedns
            &&& t.banned_ips.len() == j.bans.bans.len()
            &&& t.banned_list.len() == j.bans.bans.len()
            &&& 0 <= i < j.bans.bans.len() ==> {
                let b = j.bans.bans[i].1;
                &&& t.banned_ips[i] == b.host
                &&& t.banned_list[i] == (DetailView {
                    ip: b.host,
                    time_of_ban: b.time_of_ban.secs,
                    bantime: b.bantime,
                    failures: b.failures,
                    matches: b.matches,
                })
            }
        }),
{
}

/// The settings of a jail are told under their names.
pub proof fn law_settings_are_told(c: ConfigView, j: JailState, s: JailView, key: Text)
    requires
        table::lookup(c.jails, j.config.name) == Some(s),
    ensures
        jail_attr(c, j, "logpath"@) == text::joined(s.logpath, " "@),
        jail_attr(c, j, "logencoding"@) == s.logencoding,
        jail_attr(c, j, "journalmatch"@) == text::joined(s.journalmatch, " + "@),
        s.ignoreself ==> jail_attr(c, j, "ignoreself"@) == "true"@,
        !s.ignoreself ==> jail_attr(c, j, "ignoreself"@) == "false"@,
        jail_attr(c, j, "ignoreip"@) == text::joined(
            s.ignoreip.map_values(|e: ip::IgnoreView| ip::entry_text(e)),
            " "@,
        ),
        s.ignorecommand matches Some(x) ==> jail_attr(c, j, "ignorecommand"@) == x,
        s.ignorecommand is None ==> jail_attr(c, j, "ignorecommand"@) == Seq::<char>::empty(),
        s.ignorecache matches Some(x) ==> jail_attr(c, j, "ignorecache"@) == x,
        s.ignorecache is None ==> jail_attr(c, j, "ignorecache"@) == Seq::<char>::empty(),
        jail_attr(c, j, "failregex"@) == text::joined(j.filter.failregex, "\n"@),
        jail_attr(c, j, "ignoreregex"@) == text::joined(j.filter.ignoreregex, "\n"@),
        jail_attr(c, j, "findtime"@) == number::decimal(time::seconds_or_max(s.findtime) as nat),
        jail_attr(c, j, "bantime"@) == number::decimal(time::seconds_or_max(s.bantime) as nat),
        jail_attr(c, j, "usedns"@) == s.usedns,
        jail_attr(c, j, "maxretry"@) == number::decimal(s.maxretry as nat),
        jail_attr(c, j, "maxmatches"@) == number::decimal(s.maxmatches as nat),
        jail_attr(c, j, "maxlines"@) == number::decimal(s.maxlines as nat),
        jail_attr(c, j, "actions"@) == text::joined(s.actions, ", "@),
{
    reveal_strlit("logpath");
    reveal_strlit("logencoding");
    reveal_strlit("journalmatch");
    reveal_strlit("ignoreself");
    reveal_strlit("ignoreip");
    reveal_strlit("ignorecommand");
    reveal_strlit("ignorecache");
    reveal_strlit("failregex");
    reveal_strlit("ignoreregex");
    reveal_strlit("findtime");
    reveal_strlit("bantime");
    reveal_strlit("usedns");
    reveal_strlit("maxretry");
    reveal_strlit("maxmatches");
    reveal_strlit("maxlines");
    reveal_strlit("actions");
    assert("logpath"@.len() == 7 && "logpath"@[0] == 'l');
    assert("logencoding"@.len() == 11 && "logencoding"@[0] == 'l');
    assert("journalmatch"@.len() == 12);
    assert("ignoreself"@.len() == 10 && "ignoreself"@[0] == 'i');
    assert("ignoreip"@.len() == 8 && "ignoreip"@[0] == 'i');
    assert("ignorecommand"@.len() == 13);
    assert("ignorecache"@.len() == 11 && "ignorecache"@[0] == 'i' && "ignorecache"@[6] == 'c');
    assert("failregex"@.len() == 9);
    assert("ignoreregex"@.len() == 11 && "ignoreregex"@[0] == 'i' && "ignoreregex"@[6] == 'r');
    assert("findtime"@.len() == 8 && "findtime"@[0] == 'f');
    assert("bantime"@.len() == 7 && "bantime"@[0] == 'b');
    assert("usedns"@.len() == 6);
    assert("maxretry"@.len() == 8 && "maxretry"@[0] == 'm' && "maxretry"@[3] == 'r');
    assert("maxmatches"@.len() == 10 && "maxmatches"@[0] == 'm');
    assert("maxlines"@.len() == 8 && "maxlines"@[0] == 'm' && "maxlines"@[3] == 'l');
    assert("actions"@.len() == 7 && "actions"@[0] == 'a');
}

/// Jails that ban are listed one by one, in their order, with their hosts; and
/// so are the jails that ban a host.
pub proof fn law_jails_are_listed(jails: Seq<JailState>, j: JailState, host: Text)
    ensures
        banned_by_jail(Seq::empty()) == Seq::<(Text, Seq<Text>)>::empty(),
        j.bans.bans.len() == 0 ==> banned_by_jail(jails.push(j)) == banned_by_jail(jails),
        j.bans.bans.len() > 0 ==> banned_by_jail(jails.push(j)) == banned_by_jail(jails).push(
            (j.config.name, j.bans.bans.map_values(|p: (Text, BanView)| p.1.host)),
        ),
        banning(Seq::empty(), host) == Seq::<Text>::empty(),
        banmanager::banned(j.bans, host) ==> banning(jails.push(j), host) == banning(
            jails,
            host,
        ).push(j.config.name),
        !banmanager::banned(j.bans, host) ==> banning(jails.push(j), host) == banning(jails, host),
{
    assert(jails.push(j).drop_last() =~= jails);
    assert(hosts_of(banmanager::tickets(j.bans.bans)) =~= j.bans.bans.map_values(
        |p: (Text, BanView)| p.1.host,
    ));
}

} // verus!
