//! Showing a configuration.

use crate::config::jail::{JailConfig, JailView};
use crate::config::loader::{ConfigView, GlobalView, LoadedConfig};
use crate::text;
use crate::text::number;
use crate::text::Text;
use crate::time;
use vstd::prelude::*;

verus! {

/// What is shown of the global settings.
pub open spec fn global_lines(g: GlobalView) -> Seq<Text> {
    seq![
        "[global]"@,
        "loglevel = "@ + g.loglevel,
        "logtarget = "@ + g.logtarget,
        "socket = "@ + g.socket,
        "dbfile = "@ + g.dbfile,
        ""@,
    ]
}

/// What is shown of a jail.
pub open spec fn jail_lines(name: Text, j: JailView) -> Seq<Text> {
    seq![
        "["@ + name + "]"@,
        "enabled = "@ + (if j.enabled {
            "true"@
        } else {
            "false"@
        }),
        "filter = "@ + j.filter,
        "logpath = "@ + text::joined(j.logpath, " "@),
        "maxretry = "@ + number::decimal(j.maxretry as nat),
        "findtime = "@ + number::decimal(time::seconds_or_max(j.findtime) as nat) + "s"@,
        "bantime = "@ + number::decimal(time::seconds_or_max(j.bantime) as nat) + "s"@,
        ""@,
    ]
}

/// What is shown of jails.
pub open spec fn jails_lines(jails: Seq<(Text, JailView)>) -> Seq<Text>
    decreases jails.len(),
{
    if jails.len() == 0 {
        Seq::empty()
    } else {
        jails_lines(jails.drop_last()) + jail_lines(jails.last().0, jails.last().1)
    }
}

/// What is shown of a configuration.
pub open spec fn dump_of(c: ConfigView) -> Seq<Text> {
    global_lines(c.global) + jails_lines(c.jails)
}

fn show_jail(out: &mut Vec<String>, name: &str, j: &JailConfig)
    ensures
        text::texts(final(out)@) == text::texts(old(out)@) + jail_lines(name@, j@),
{
    let ghost before = out@;
    let logpath = text::join(&j.logpath, " ");
    let maxretry = number::to_decimal(j.maxretry as u64);
    let findtime = number::to_decimal(j.findtime.to_seconds_or_max());
    let bantime = number::to_decimal(j.bantime.to_seconds_or_max());
    out.push(text::cat3("[", name, "]"));
    out.push(
        text::cat2(
            "enabled = ",
            if j.enabled {
                "true"
            } else {
                "false"
            },
        ),
    );
    out.push(text::cat2("filter = ", j.filter.as_str()));
    out.push(text::cat2("logpath = ", logpath.as_str()));
    out.push(text::cat2("maxretry = ", maxretry.as_str()));
    out.push(text::cat3("findtime = ", findtime.as_str(), "s"));
    out.push(text::cat3("bantime = ", bantime.as_str(), "s"));
    out.push("".to_owned());
    assert(text::texts(out@) =~= text::texts(before) + jail_lines(name@, j@));
}

/// The lines that show a configuration.
pub fn dump(config: &LoadedConfig) -> (r: Vec<String>)
    requires
        config.wf(),
    ensures
        text::texts(r@) == dump_of(config@),
{
    let g = &config.global;
    let mut out: Vec<String> = Vec::new();
    out.push("[global]".to_owned());
    out.push(text::cat2("loglevel = ", g.loglevel.as_str()));
    out.push(text::cat2("logtarget = ", g.logtarget.as_str()));
    out.push(text::cat2("socket = ", g.socket.as_str()));
    out.push(text::cat2("dbfile = ", g.dbfile.as_str()));
    out.push("".to_owned());
    let ghost head = global_lines(config@.global);
    let ghost all = config@.jails;
    proof {
        assert(text::texts(out@) =~= head);
        assert(all.take(0) =~= Seq::empty());
        assert(head + Seq::<Text>::empty() =~= head);
    }
    let n = config.jails.jails.len();
    let mut i: usize = 0;
    while i < n
        invariant
            i <= n == all.len(),
            n == config.jails.jails@.len(),
            all == config@.jails,
            config.wf(),
            text::texts(out@) == head + jails_lines(all.take(i as int)),
        decreases n - i,
    {
        proof {
            assert(all.take(i + 1).drop_last() =~= all.take(i as int));
            assert(all.take(i + 1).last() == all[i as int]);
        }
        show_jail(&mut out, config.jails.jails.name_at(i), config.jails.jails.item_at(i));
        assert(text::texts(out@) =~= head + jails_lines(all.take(i + 1)));
        i += 1;
    }
    assert(all.take(i as int) =~= all);
    out
}

/// Every jail is shown after those before it, and every setting under its
/// name.
pub proof fn law_settings_are_shown(
    g: GlobalView,
    jails: Seq<(Text, JailView)>,
    name: Text,
    j: JailView,
    c: ConfigView,
)
    requires
        c.global == g,
        c.jails == jails.push((name, j)),
    ensures
        ({
            let d = dump_of(c);
            let n = 6 + 8 * jails.len() as int;
            &&& d.len() == n + 8
            &&& d[1] == "loglevel = "@ + g.loglevel
            &&& d[2] == "logtarget = "@ + g.logtarget
            &&& d[3] == "socket = "@ + g.socket
            &&& d[4] == "dbfile = "@ + g.dbfile
            &&& d[n] == "["@ + name + "]"@
            &&& j.enabled ==> d[n + 1] == "enabled = "@ + "true"@
            &&& !j.enabled ==> d[n + 1] == "enabled = "@ + "false"@
            &&& d[n + 2] == "filter = "@ + j.filter
            &&& d[n + 3] == "logpath = "@ + text::joined(j.logpath, " "@)
            &&& d[n + 4] == "maxretry = "@ + number::decimal(j.maxretry as nat)
            &&& d[n + 5] == "findtime = "@ + number::decimal(
                time::seconds_or_max(j.findtime) as nat,
            ) + "s"@
            &&& d[n + 6] == "bantime = "@ + number::decimal(time::seconds_or_max(j.bantime) as nat)
                + "s"@
        }),
{
    lemma_eight_lines_each(jails);
    assert(jails.push((name, j)).drop_last() =~= jails);
}

proof fn lemma_eight_lines_each(jails: Seq<(Text, JailView)>)
    ensures
        jails_lines(jails).len() == 8 * jails.len(),
    decreases jails.len(),
{
    if jails.len() > 0 {
        lemma_eight_lines_each(jails.drop_last());
    }
}

} // verus!
