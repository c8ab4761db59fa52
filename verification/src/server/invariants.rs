//! What holds of a server whatever it is told.

use crate::config;
use crate::config::loader::ConfigView;
use crate::error::ErrorView;
use crate::ip;
use crate::server::assembly;
use crate::server::banmanager;
use crate::server::bans;
use crate::server::commands;
use crate::server::database;
use crate::server::database::{CurrentView, DbState, RowView};
use crate::server::jail;
use crate::server::jail::JailState;
use crate::server::server;
use crate::server::server::ServerState;
use crate::table;
use crate::text::Text;
use crate::time::Timestamp;
use vstd::prelude::*;

verus! {

/// Whether no two jails have the same name.
pub open spec fn distinct_jails(jails: Seq<JailState>) -> bool {
    forall|i: int, j: int|
        0 <= i < j < jails.len() ==> (#[trigger] jails[i]).config.name != (
        #[trigger] jails[j]).config.name
}

/// Whether every jail of a configuration stands under its own name.
pub open spec fn under_own_names(c: ConfigView) -> bool {
    forall|i: int| 0 <= i < c.jails.len() ==> (#[trigger] c.jails[i]).1.name == c.jails[i].0
}

/// Whether two lists of jails have the same names in the same order.
pub open spec fn same_names(a: Seq<JailState>, b: Seq<JailState>) -> bool {
    &&& a.len() == b.len()
    &&& forall|i: int|
        #![trigger a[i]]
        #![trigger b[i]]
        0 <= i < a.len() ==> a[i].config.name == b[i].config.name
}

proof fn lemma_names_distinct(a: Seq<JailState>, b: Seq<JailState>)
    requires
        same_names(a, b),
        distinct_jails(a),
    ensures
        distinct_jails(b),
{
    assert forall|i: int, j: int| 0 <= i < j < b.len() implies (#[trigger] b[i]).config.name != (
    #[trigger] b[j]).config.name by {
        assert(a[i].config.name != a[j].config.name);
    }
}

proof fn lemma_position_found(jails: Seq<JailState>, name: Text)
    ensures
        0 <= server::position_of(jails, name) <= jails.len(),
        server::position_of(jails, name) < jails.len() ==> jails[server::position_of(
            jails,
            name,
        )].config.name == name,
        forall|k: int|
            0 <= k < server::position_of(jails, name) ==> (#[trigger] jails[k]).config.name
                != name,
    decreases jails.len(),
{
    if jails.len() > 0 && jails[0].config.name != name {
        let t = jails.drop_first();
        lemma_position_found(t, name);
        assert forall|k: int| 0 <= k < server::position_of(jails, name) implies (
        #[trigger] jails[k]).config.name != name by {
            if k > 0 {
                assert(jails[k] == t[k - 1]);
            }
        }
    }
}

proof fn lemma_same_position(a: Seq<JailState>, b: Seq<JailState>, name: Text)
    requires
        same_names(a, b),
    ensures
        server::position_of(a, name) == server::position_of(b, name),
{
    lemma_position_found(a, name);
    let i = server::position_of(a, name);
    assert forall|k: int| 0 <= k < i implies (#[trigger] b[k]).config.name != name by {
        assert(a[k].config.name != name);
    }
    server::lemma_position(b, name, i);
}

proof fn lemma_started(st: ServerState, name: Text)
    requires
        distinct_jails(st.jails),
        under_own_names(st.config),
    ensures
        server::started(st, name) matches Ok(j) ==> j.config.name == name && distinct_jails(
            server::with_jail(st, j).jails,
        ),
{
    lemma_position_found(st.jails, name);
    table::lemma_slot(st.config.jails, name);
    if let Ok(j) = server::started(st, name) {
        assert(assembly::built(st.config, name) is Ok);
        assert(j.config.name == name);
        let w = server::with_jail(st, j).jails;
        assert forall|i: int, k: int| 0 <= i < k < w.len() implies (#[trigger] w[i]).config.name
            != (#[trigger] w[k]).config.name by {
            if k == st.jails.len() {
                assert(st.jails[i].config.name != name);
            }
        }
    }
}

proof fn lemma_starting(st: ServerState, names: Seq<Text>)
    requires
        distinct_jails(st.jails),
        under_own_names(st.config),
    ensures
        distinct_jails(server::starting(st, names).0.jails),
        server::starting(st, names).0.config == st.config,
    decreases names.len(),
{
    if names.len() > 0 {
        lemma_starting(st, names.drop_last());
        lemma_started(server::starting(st, names.drop_last()).0, names.last());
    }
}

proof fn lemma_restored_names(st: ServerState, rows: Seq<RowView>, now: Timestamp)
    ensures
        same_names(st.jails, server::restored(st, rows, now).jails),
        server::restored(st, rows, now).config == st.config,
    decreases rows.len(),
{
    if rows.len() > 0 {
        lemma_restored_names(st, rows.drop_last(), now);
        let mid = server::restored(st, rows.drop_last(), now);
        lemma_position_found(mid.jails, rows.last().jail);
    }
}

proof fn lemma_all_started(st: ServerState, now: Timestamp)
    requires
        distinct_jails(st.jails),
        under_own_names(st.config),
    ensures
        distinct_jails(server::all_started(st, now).0.jails),
{
    let r = server::starting(st, server::enabled_names(st.config.jails));
    lemma_starting(st, server::enabled_names(st.config.jails));
    let rows = database::current_bans(r.0.db);
    lemma_restored_names(r.0, rows, now);
    lemma_names_distinct(r.0.jails, server::restored(r.0, rows, now).jails);
}

proof fn lemma_stopped(st: ServerState, i: int, now: Timestamp)
    requires
        distinct_jails(st.jails),
        0 <= i < st.jails.len(),
    ensures
        distinct_jails(server::without_jail(st, i, now).jails),
{
    let w = server::without_jail(st, i, now).jails;
    assert forall|a: int, b: int| 0 <= a < b < w.len() implies (#[trigger] w[a]).config.name != (
    #[trigger] w[b]).config.name by {
        let x = if a < i {
            a
        } else {
            a + 1
        };
        let y = if b < i {
            b
        } else {
            b + 1
        };
        assert(w[a] == st.jails[x] && w[b] == st.jails[y]);
    }
}

proof fn lemma_restarted(st: ServerState, name: Text, now: Timestamp)
    requires
        distinct_jails(st.jails),
        under_own_names(st.config),
    ensures
        distinct_jails(commands::restarted(st, name, now).0.jails),
{
    let i = server::position_of(st.jails, name);
    lemma_position_found(st.jails, name);
    if i < st.jails.len() {
        lemma_stopped(st, i, now);
        lemma_started(server::without_jail(st, i, now), name);
    } else {
        lemma_started(st, name);
    }
}

proof fn lemma_lifted_names(jails: Seq<JailState>, db: DbState, host: Text)
    ensures
        same_names(jails, bans::lifted_everywhere(jails, db, host).jails),
    decreases jails.len(),
{
    if jails.len() > 0 {
        lemma_lifted_names(jails.drop_last(), db, host);
        let front = bans::lifted_everywhere(jails.drop_last(), db, host).jails;
        let all = bans::lifted_everywhere(jails, db, host).jails;
        assert forall|i: int| 0 <= i < jails.len() implies (#[trigger] jails[i]).config.name
            == all[i].config.name by {
            if i < jails.len() - 1 {
                assert(jails.drop_last()[i] == jails[i]);
                assert(all[i] == front[i]);
            }
        }
    }
}

proof fn lemma_unbanned_names(st: ServerState, hosts: Seq<Text>)
    ensures
        same_names(st.jails, commands::unbanned_each(st, hosts).0.jails),
    decreases hosts.len(),
{
    if hosts.len() > 0 {
        lemma_unbanned_names(st, hosts.drop_last());
        let front = commands::unbanned_each(st, hosts.drop_last()).0;
        lemma_lifted_names(front.jails, front.db, hosts.last());
        let all = commands::unbanned_each(st, hosts).0;
        assert(all.jails == bans::lifted_everywhere(front.jails, front.db, hosts.last()).jails);
        assert forall|i: int| 0 <= i < st.jails.len() implies (#[trigger] st.jails[i]).config.name
            == all.jails[i].config.name by {
            assert(st.jails[i].config.name == front.jails[i].config.name);
        }
    }
}

proof fn lemma_hand_names(st: ServerState, i: int, hosts: Seq<Text>, now: Timestamp)
    requires
        0 <= i < st.jails.len(),
    ensures
        same_names(st.jails, bans::hand_bans(st, i, hosts, now).0.jails),
        same_names(st.jails, bans::hand_unbans(st, i, hosts).0.jails),
    decreases hosts.len(),
{
    if hosts.len() > 0 {
        lemma_hand_names(st, i, hosts.drop_last(), now);
    }
}

/// No two jails of the same name ever run: not after any command, and not once
/// a configuration was read again.
pub proof fn law_jail_runs_once(
    st: ServerState,
    args: Seq<Text>,
    jail: Option<Text>,
    parsed: Result<ConfigView, ErrorView>,
    opened: Result<DbState, ErrorView>,
    now: Timestamp,
)
    requires
        distinct_jails(st.jails),
        under_own_names(st.config),
        parsed matches Ok(c) ==> under_own_names(c),
    ensures
        distinct_jails(commands::handled(st, args, now).state.jails),
        distinct_jails(commands::reloaded(st, jail, parsed, opened, now).0.jails),
{
    lemma_handled(st, args, now);
    if let Ok(c) = parsed {
        match jail {
            Some(name) => {
                lemma_restarted(st, name, now);
            },
            None => {
                let mid = server::reconfigured(server::all_stopped(st, now), c);
                if let Ok(db) = opened {
                    lemma_all_started((ServerState { db, ..mid }), now);
                }
            },
        }
    }
}

proof fn lemma_start(st: ServerState, args: Seq<Text>, now: Timestamp)
    requires
        distinct_jails(st.jails),
        under_own_names(st.config),
    ensures
        distinct_jails(commands::start_of(st, args, now).state.jails),
        distinct_jails(commands::add_of(st, args).state.jails),
{
    lemma_all_started(st, now);
    if args.len() >= 2 {
        lemma_started(st, args[1]);
        table::lemma_slot(st.config.jails, args[1]);
    }
}

proof fn lemma_stop(st: ServerState, args: Seq<Text>, now: Timestamp)
    requires
        distinct_jails(st.jails),
        under_own_names(st.config),
    ensures
        distinct_jails(commands::stop_of(st, args, now).state.jails),
        distinct_jails(commands::restart_of(st, args, now).state.jails),
{
    if args.len() >= 2 {
        lemma_restarted(st, args[1], now);
        lemma_position_found(st.jails, args[1]);
        let i = server::position_of(st.jails, args[1]);
        if i < st.jails.len() {
            lemma_stopped(st, i, now);
        }
    }
}

proof fn lemma_unban(st: ServerState, args: Seq<Text>)
    requires
        distinct_jails(st.jails),
    ensures
        distinct_jails(commands::unban_of(st, args).state.jails),
{
    if args.len() >= 2 {
        lemma_unbanned_names(st, args.skip(1));
        lemma_names_distinct(
            st.jails,
            commands::unbanned_each(st, args.skip(1)).0.jails,
        );
        lemma_names_distinct(st.jails, bans::without_bans(st).jails);
    }
}

proof fn lemma_set(st: ServerState, args: Seq<Text>, now: Timestamp)
    requires
        distinct_jails(st.jails),
    ensures
        distinct_jails(commands::set_of(st, args, now).state.jails),
{
    if args.len() >= 4 && !commands::is_global(args[1]) {
        lemma_position_found(st.jails, args[1]);
        let i = server::position_of(st.jails, args[1]);
        if i < st.jails.len() {
            let rest = args.skip(3);
            lemma_hand_names(st, i, rest, now);
            lemma_names_distinct(st.jails, bans::hand_bans(st, i, rest, now).0.jails);
            lemma_names_distinct(st.jails, bans::hand_unbans(st, i, rest).0.jails);
            lemma_names_distinct(st.jails, bans::attempted(st, i, rest[0], now).0.jails);
        }
    }
}

#[verifier::rlimit(40)]
proof fn lemma_handled(st: ServerState, args: Seq<Text>, now: Timestamp)
    requires
        distinct_jails(st.jails),
        under_own_names(st.config),
    ensures
        distinct_jails(commands::handled(st, args, now).state.jails),
{
    lemma_start(st, args, now);
    lemma_stop(st, args, now);
    lemma_unban(st, args);
    lemma_set(st, args, now);
}

proof fn lemma_loaded_names(
    doc: Seq<config::parser::SectionView>,
    i: int,
    defaults: Seq<(Text, Text)>,
    builtins: Seq<(Text, Text)>,
    files: Seq<config::files::SourceView>,
    acc: Seq<(Text, config::jail::JailView)>,
)
    requires
        0 <= i,
        forall|k: int| 0 <= k < acc.len() ==> (#[trigger] acc[k]).1.name == acc[k].0,
    ensures
        config::loader::jails_from(doc, i, defaults, builtins, files, acc) matches Ok(all) ==> (
        forall|k: int| 0 <= k < all.len() ==> (#[trigger] all[k]).1.name == all[k].0),
    decreases doc.len() - i,
{
    if 0 <= i < doc.len() {
        let s = doc[i];
        if !config::loader::is_jail_section(s) {
            lemma_loaded_names(doc, i + 1, defaults, builtins, files, acc);
        } else if let Ok(j) = config::jail::jail_of(
            s.name,
            config::loader::jail_entries(s.entries, doc, defaults, builtins, s.name),
            defaults,
            files,
        ) {
            reveal(config::jail::jail_of);
            assert(j.name == s.name);
            table::lemma_slot(acc, s.name);
            lemma_loaded_names(
                doc,
                i + 1,
                defaults,
                builtins,
                files,
                table::put(acc, s.name, j),
            );
        }
    }
}

/// The jails of a configuration that was loaded stand under their own names.
pub proof fn law_loaded_jails_have_own_names(
    doc: Seq<config::parser::SectionView>,
    defaults: Seq<(Text, Text)>,
    builtins: Seq<(Text, Text)>,
    files: Seq<config::files::SourceView>,
    c: ConfigView,
)
    requires
        config::loader::jails_from(doc, 0, defaults, builtins, files, Seq::empty()) == Ok::<
            Seq<(Text, config::jail::JailView)>,
            config::files::StopView,
        >(c.jails),
    ensures
        under_own_names(c),
{
    lemma_loaded_names(doc, 0, defaults, builtins, files, Seq::empty());
}

/// A jail that was started runs, and one that was stopped does not.
pub proof fn law_started_and_stopped(st: ServerState, name: Text, now: Timestamp)
    requires
        distinct_jails(st.jails),
        under_own_names(st.config),
    ensures
        server::started(st, name) matches Ok(j) ==> server::position_of(
            server::with_jail(st, j).jails,
            name,
        ) == st.jails.len(),
        server::position_of(st.jails, name) < st.jails.len() ==> ({
            let left = server::without_jail(st, server::position_of(st.jails, name), now).jails;
            server::position_of(left, name) == left.len()
        }),
{
    lemma_position_found(st.jails, name);
    lemma_started(st, name);
    if let Ok(j) = server::started(st, name) {
        server::lemma_position(
            server::with_jail(st, j).jails,
            name,
            st.jails.len() as int,
        );
    }
    let i = server::position_of(st.jails, name);
    if i < st.jails.len() {
        let left = server::without_jail(st, i, now).jails;
        assert forall|k: int| 0 <= k < left.len() implies (#[trigger] left[k]).config.name
            != name by {
            if k < i {
                assert(left[k] == st.jails[k]);
            } else {
                assert(left[k] == st.jails[k + 1]);
                assert(st.jails[i].config.name != st.jails[k + 1].config.name);
            }
        }
        server::lemma_position(left, name, left.len() as int);
    }
}

proof fn lemma_restoring_keeps(st: ServerState, row: RowView, now: Timestamp, i: int, host: Text)
    requires
        0 <= i < st.jails.len(),
        banmanager::banned(st.jails[i].bans, host),
    ensures
        banmanager::banned(server::restored_row(st, row, now).jails[i].bans, host),
{
    let start = jail::restored_start(row.time, now);
    let b = jail::restored_ban(row.ip, ip::ip_of(row.ip), start, row.bantime);
    banmanager::law_added_ban_holds(st.jails[i].bans, b, host);
}

/// A ban that the record lists as current, and that is not over, is in force
/// after a restart in the jail that it names, if that jail runs.
pub proof fn law_recorded_ban_is_restored(
    st: ServerState,
    rows: Seq<RowView>,
    k: int,
    now: Timestamp,
)
    requires
        0 <= k < rows.len(),
        server::position_of(st.jails, rows[k].jail) < st.jails.len(),
        !jail::restored_over(jail::restored_start(rows[k].time, now), rows[k].bantime, now),
    ensures
        banmanager::banned(
            server::restored(st, rows, now).jails[server::position_of(
                st.jails,
                rows[k].jail,
            )].bans,
            rows[k].ip,
        ),
    decreases rows.len(),
{
    let front = rows.drop_last();
    let mid = server::restored(st, front, now);
    let row = rows[k];
    let i = server::position_of(st.jails, row.jail);
    lemma_position_found(st.jails, row.jail);
    lemma_restored_names(st, front, now);
    if k == rows.len() - 1 {
        lemma_same_position(st.jails, mid.jails, row.jail);
        let start = jail::restored_start(row.time, now);
        let b = jail::restored_ban(row.ip, ip::ip_of(row.ip), start, row.bantime);
        banmanager::law_added_ban_holds(mid.jails[i].bans, b, row.ip);
    } else {
        assert(front[k] == row);
        law_recorded_ban_is_restored(st, front, k, now);
        lemma_restoring_keeps(mid, rows.last(), now, i, row.ip);
    }
}

/// A ban survives a restart: once it was recorded, a server that comes up with
/// that record has it in force in the jail of its name, unless it is over.
pub proof fn law_ban_survives_restart(
    db: DbState,
    row: RowView,
    fresh: ServerState,
    now: Timestamp,
)
    requires
        fresh.db == database::with_ban(db, row),
        server::position_of(fresh.jails, row.jail) < fresh.jails.len(),
        !jail::restored_over(jail::restored_start(row.time, now), row.bantime, now),
    ensures
        banmanager::banned(
            server::with_bans_restored(fresh, now).jails[server::position_of(
                fresh.jails,
                row.jail,
            )].bans,
            row.ip,
        ),
{
    database::law_added_ban_is_listed(db, row);
    let rows = database::current_bans(fresh.db);
    let k = choose|k: int| 0 <= k < rows.len() && rows[k] == row;
    law_recorded_ban_is_restored(fresh, rows, k, now);
}

/// Once the ban of a host is lifted everywhere, and there was one, the record
/// no longer knows the host, so that no restart brings the ban back.
pub proof fn law_lifted_ban_leaves_record(st: ServerState, host: Text, r: RowView)
    requires
        bans::lifted_everywhere(st.jails, st.db, host).work.len() > 0,
        r.ip == host,
    ensures
        !bans::without_host(st, host).db.bans.contains(r),
        !database::is_current(r, bans::without_host(st, host).db.bips),
{
    let l = bans::lifted_everywhere(st.jails, st.db, host).db;
    let p = |r: RowView| r.ip != host;
    let q = |c: CurrentView| c.ip != host;
    broadcast use vstd::seq_lib::group_filter_ensures;
    assert(bans::without_host(st, host).db == database::without_ip(l, host));
    let c = CurrentView { jail: r.jail, ip: r.ip, time: r.time };
    assert(!p(r));
    assert(!q(c));
}

} // verus!
