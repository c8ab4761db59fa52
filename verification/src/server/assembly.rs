//! Building a jail from the configuration.

use crate::action::{Action, BoundView};
use crate::config::action;
use crate::config::action::{ActionConfig, ActionDefinition, ActionView};
use crate::config::filter as filter_config;
use crate::config::filter::{FilterDefinition, FilterView};
use crate::config::jail;
use crate::config::jail::{JailConfig, JailView};
use crate::config::loader;
use crate::config::loader::{ConfigView, DefView, LoadedConfig};
use crate::error;
use crate::error::{Error, ErrorView};
use crate::filter;
use crate::filter::{CompiledFilter, RulesView};
use crate::server::banmanager::BanState;
use crate::server::failmanager::{FailRules, FailState};
use crate::server::jail as running;
use crate::server::jail::{Jail, JailState};
use crate::server::jobs;
use crate::table;
use crate::text;
use crate::text::Text;
use indexmap::IndexMap;
use vstd::prelude::*;

verus! {

/// An action that a jail names, with the parameters that it gives.
pub struct Planned<'a> {
    pub def: &'a ActionDefinition,
    pub params: IndexMap<String, String>,
}

/// The model of an action that a jail names.
#[verifier::ext_equal]
pub struct PlanView {
    pub def: DefView,
    pub params: Seq<(Text, Text)>,
}

/// The models of the actions that a jail names.
pub open spec fn plan_list(v: Seq<Planned<'_>>) -> Seq<PlanView> {
    v.map_values(|p: Planned<'_>| PlanView { def: p.def@, params: table::entries(p.params) })
}

/// The actions that the specifications from position `i` on name, after those
/// in `acc`. One without a name, or that is not known, is passed over.
pub open spec fn planned(
    specs: Seq<Text>,
    known: Seq<(Text, DefView)>,
    i: int,
    acc: Seq<PlanView>,
) -> Result<Seq<PlanView>, ErrorView>
    decreases specs.len() - i,
{
    if i < 0 || i >= specs.len() {
        Ok(acc)
    } else {
        let name = jail::spec_name(specs[i]);
        if name.len() == 0 {
            planned(specs, known, i + 1, acc)
        } else {
            match jail::spec_params(specs[i], "action"@, "]"@) {
                Err(e) => Err(e),
                Ok(params) => match table::lookup(known, name) {
                    Some(def) => planned(specs, known, i + 1, acc.push(PlanView { def, params })),
                    None => planned(specs, known, i + 1, acc),
                },
            }
        }
    }
}

/// An action of a jail. It is set up on demand where its own configuration or
/// that of its jail says so.
pub open spec fn bound(jail: Text, c: ActionView, on_demand: bool) -> BoundView {
    BoundView {
        name: c.name,
        jail,
        config: ActionView {
            actionstart_on_demand: c.actionstart_on_demand || on_demand,
            ..c
        },
        started: false,
    }
}

/// The actions of a jail from position `i` on, after those in `acc`.
pub open spec fn bound_actions(
    plan: Seq<PlanView>,
    c: ConfigView,
    jail: Text,
    on_demand: bool,
    i: int,
    acc: Seq<BoundView>,
) -> Result<Seq<BoundView>, ErrorView>
    decreases plan.len() - i,
{
    if i < 0 || i >= plan.len() {
        Ok(acc)
    } else {
        match action::action_of(
            plan[i].def.name,
            plan[i].def.doc,
            plan[i].params,
            c.inherited,
            c.defaults,
            None,
        ) {
            Err(e) => Err(e),
            Ok(a) => bound_actions(
                plan,
                c,
                jail,
                on_demand,
                i + 1,
                acc.push(bound(jail, a, on_demand)),
            ),
        }
    }
}

/// A jail without failures and bans.
pub open spec fn fresh_jail(
    c: JailView,
    f: FilterView,
    rules: RulesView,
    actions: Seq<BoundView>,
) -> JailState {
    JailState {
        config: c,
        filter: f,
        rules,
        maxlines: running::lines_together(
            c.maxlines,
            if f.maxlines < 1 {
                1
            } else {
                f.maxlines
            },
        ),
        actions,
        fails: FailState { tickets: Seq::empty(), mlfids: Seq::empty() },
        window: FailRules {
            maxretry: c.maxretry as nat,
            findtime: running::window_of(c.findtime) as int,
            maxmatches: c.maxmatches as nat,
        },
        bans: BanState { bans: Seq::empty(), total: 0 },
        lines: Seq::empty(),
        cache: running::first_cache(c),
    }
}

/// The filter of a jail, with the parameters that the jail gives.
pub open spec fn filter_of_jail(c: ConfigView, j: JailView) -> Result<FilterView, ErrorView> {
    match table::lookup(c.filters, j.filter) {
        None => Err(ErrorView::Jail("filter "@ + j.filter + " not loaded"@)),
        Some(def) => filter_config::filter_of(
            def.name,
            def.doc,
            j.filter_params,
            c.inherited,
            c.defaults,
        ),
    }
}

/// The jail of a name that the configuration describes.
pub open spec fn built(c: ConfigView, name: Text) -> Result<JailState, ErrorView> {
    match table::lookup(c.jails, name) {
        None => Err(ErrorView::Jail("unknown jail: "@ + name)),
        Some(j) => match filter_of_jail(c, j) {
            Err(e) => Err(e),
            Ok(f) => match planned(j.actions, c.actions, 0, Seq::empty()) {
                Err(e) => Err(e),
                Ok(plan) => match filter::rules_of(f) {
                    Err(e) => Err(e),
                    Ok(rules) => match bound_actions(
                        plan,
                        c,
                        name,
                        j.actionstart_on_demand,
                        0,
                        Seq::empty(),
                    ) {
                        Err(e) => Err(e),
                        Ok(actions) => Ok(fresh_jail(j, f, rules, actions)),
                    },
                },
            },
        },
    }
}

fn plan_actions<'a>(specs: &Vec<String>, config: &'a LoadedConfig) -> (r: Result<
    Vec<Planned<'a>>,
    Error,
>)
    requires
        config.wf(),
    ensures
        match r {
            Ok(v) => planned(text::texts(specs@), config@.actions, 0, Seq::empty()) == Ok::<
                Seq<PlanView>,
                ErrorView,
            >(plan_list(v@)),
            Err(e) => planned(text::texts(specs@), config@.actions, 0, Seq::empty()) == Err::<
                Seq<PlanView>,
                ErrorView,
            >(e@),
        },
{
    let ghost all = text::texts(specs@);
    let ghost known = config@.actions;
    let mut out: Vec<Planned<'a>> = Vec::new();
    let mut i: usize = 0;
    assert(plan_list(out@) =~= Seq::empty());
    while i < specs.len()
        invariant
            i <= specs.len(),
            all == text::texts(specs@),
            known == config@.actions,
            config.wf(),
            planned(all, known, 0, Seq::empty()) == planned(all, known, i as int, plan_list(out@)),
        decreases specs.len() - i,
    {
        let name = loader::action_name(specs[i].as_str());
        if !name.is_empty() {
            let params = match loader::action_params(specs[i].as_str()) {
                Ok(p) => p,
                Err(e) => {
                    return Err(e);
                },
            };
            proof {
                let f = |d: ActionDefinition| d@;
                table::lemma_mapped(config.actions@, f, name@, arbitrary());
                assert(loader::action_views(config.actions@) =~= table::mapped(
                    config.actions@,
                    f,
                ));
            }
            if let Some(def) = config.actions.get(name) {
                let ghost before = out@;
                let p = Planned { def, params };
                out.push(p);
                assert(plan_list(out@) =~= plan_list(before).push(
                    PlanView { def: def@, params: table::entries(params) },
                ));
            }
        }
        i += 1;
    }
    Ok(out)
}

fn bind(jail: &str, c: ActionConfig, on_demand: bool) -> (r: Action)
    ensures
        r@ == bound(jail@, c@, on_demand),
{
    let mut c = c;
    c.actionstart_on_demand = c.actionstart_on_demand || on_demand;
    Action::new(jail, c)
}

fn bind_actions(
    plan: &Vec<Planned<'_>>,
    config: &LoadedConfig,
    jail: &str,
    on_demand: bool,
) -> (r: Result<Vec<Action>, Error>)
    ensures
        match r {
            Ok(v) => bound_actions(plan_list(plan@), config@, jail@, on_demand, 0, Seq::empty())
                == Ok::<Seq<BoundView>, ErrorView>(jobs::action_list(v@)),
            Err(e) => bound_actions(plan_list(plan@), config@, jail@, on_demand, 0, Seq::empty())
                == Err::<Seq<BoundView>, ErrorView>(e@),
        },
{
    let ghost all = plan_list(plan@);
    let ghost c = config@;
    let mut out: Vec<Action> = Vec::new();
    let mut i: usize = 0;
    assert(jobs::action_list(out@) =~= Seq::empty());
    while i < plan.len()
        invariant
            i <= plan.len(),
            all == plan_list(plan@),
            c == config@,
            bound_actions(all, c, jail@, on_demand, 0, Seq::empty()) == bound_actions(
                all,
                c,
                jail@,
                on_demand,
                i as int,
                jobs::action_list(out@),
            ),
        decreases plan.len() - i,
    {
        let p = &plan[i];
        match p.def.materialize(&p.params, &config.jails.defaults, &config.defaults, None) {
            Ok(a) => {
                let ghost before = out@;
                let action = bind(jail, a, on_demand);
                out.push(action);
                assert(jobs::action_list(out@) =~= jobs::action_list(before).push(action@));
            },
            Err(e) => {
                return Err(e);
            },
        }
        i += 1;
    }
    Ok(out)
}

fn make_filter(config: &LoadedConfig, j: &JailConfig) -> (r: Result<
    filter_config::FilterConfig,
    Error,
>)
    requires
        config.wf(),
    ensures
        error::outcome(r) == filter_of_jail(config@, j@),
{
    proof {
        let f = |d: FilterDefinition| d@;
        table::lemma_mapped(config.filters@, f, j.filter@, arbitrary());
        assert(loader::filter_views(config.filters@) =~= table::mapped(config.filters@, f));
    }
    match config.filters.get(j.filter.as_str()) {
        None => Err(Error::Jail(text::cat3("filter ", j.filter.as_str(), " not loaded"))),
        Some(def) => def.materialize(&j.filter_params, &config.jails.defaults, &config.defaults),
    }
}

/// The jail of a name that the configuration describes.
pub fn build_jail(config: &LoadedConfig, name: &str) -> (r: Result<Jail, Error>)
    requires
        config.wf(),
    ensures
        error::outcome(r) == built(config@, name@),
        r matches Ok(j) ==> j.wf(),
{
    proof {
        let f = |j: JailConfig| j@;
        table::lemma_mapped(config.jails.jails@, f, name@, arbitrary());
        assert(loader::jail_views(config.jails.jails@) =~= table::mapped(config.jails.jails@, f));
        table::lemma_slot(config.jails.jails@, name@);
    }
    let j = match config.jails.jails.get(name) {
        Some(j) => j,
        None => {
            return Err(Error::Jail(text::cat2("unknown jail: ", name)));
        },
    };
    let f = match make_filter(config, j) {
        Ok(f) => f,
        Err(e) => {
            return Err(e);
        },
    };
    let plan = match plan_actions(&j.actions, config) {
        Ok(p) => p,
        Err(e) => {
            return Err(e);
        },
    };
    let filter = match CompiledFilter::compile(f) {
        Ok(f) => f,
        Err(e) => {
            return Err(e);
        },
    };
    let actions = match bind_actions(&plan, config, name, j.actionstart_on_demand) {
        Ok(a) => a,
        Err(e) => {
            return Err(e);
        },
    };
    let made = Jail::new(j.clone(), filter, actions);
    assert(made@ =~= fresh_jail(j@, filter.config@, filter@, jobs::action_list(actions@)));
    Ok(made)
}

/// A jail is built from its settings, its filter with the parameters that it
/// gives, and its actions; it begins without failures and without bans.
pub proof fn law_jail_is_built(
    c: ConfigView,
    name: Text,
    j: JailView,
    def: DefView,
    f: FilterView,
    s: JailState,
)
    requires
        table::lookup(c.jails, name) == Some(j),
        table::lookup(c.filters, j.filter) == Some(def),
        filter_config::filter_of(def.name, def.doc, j.filter_params, c.inherited, c.defaults)
            == Ok::<FilterView, ErrorView>(f),
        built(c, name) == Ok::<JailState, ErrorView>(s),
    ensures
        s.config == j,
        s.filter == f,
        filter::rules_of(f) == Ok::<RulesView, ErrorView>(s.rules),
        s.window.maxretry == j.maxretry,
        s.window.maxmatches == j.maxmatches,
        s.window.findtime == running::window_of(j.findtime),
        j.maxlines > 1 ==> s.maxlines == j.maxlines,
        j.maxlines <= 1 && f.maxlines >= 1 ==> s.maxlines == f.maxlines,
        s.bans.bans.len() == 0,
        s.bans.total == 0,
        s.fails.tickets.len() == 0,
        s.fails.mlfids.len() == 0,
        s.lines.len() == 0,
{
}

/// A jail that is not configured, or whose filter is not loaded, is an error.
pub proof fn law_what_cannot_be_built(c: ConfigView, name: Text, j: JailView)
    ensures
        table::lookup(c.jails, name) is None ==> built(c, name) == Err::<JailState, ErrorView>(
            ErrorView::Jail("unknown jail: "@ + name),
        ),
        table::lookup(c.jails, name) == Some(j) && table::lookup(c.filters, j.filter) is None
            ==> built(c, name) == Err::<JailState, ErrorView>(
            ErrorView::Jail("filter "@ + j.filter + " not loaded"@),
        ),
{
}

/// A jail with one action has it, with the parameters that the jail gives;
/// it waits for the first ban where the jail or the action says so.
pub proof fn law_action_of_jail(
    c: ConfigView,
    name: Text,
    j: JailView,
    spec_text: Text,
    def: DefView,
    params: Seq<(Text, Text)>,
    a: ActionView,
    s: JailState,
)
    requires
        table::lookup(c.jails, name) == Some(j),
        j.actions == seq![spec_text],
        jail::spec_name(spec_text).len() > 0,
        jail::spec_params(spec_text, "action"@, "]"@) == Ok::<Seq<(Text, Text)>, ErrorView>(params),
        table::lookup(c.actions, jail::spec_name(spec_text)) == Some(def),
        action::action_of(def.name, def.doc, params, c.inherited, c.defaults, None) == Ok::<
            ActionView,
            ErrorView,
        >(a),
        built(c, name) == Ok::<JailState, ErrorView>(s),
    ensures
        s.actions.len() == 1,
        s.actions[0].name == a.name,
        s.actions[0].jail == name,
        !s.actions[0].started,
        s.actions[0].config == (ActionView {
            actionstart_on_demand: a.actionstart_on_demand || j.actionstart_on_demand,
            ..a
        }),
{
    reveal_with_fuel(planned, 3);
    reveal_with_fuel(bound_actions, 3);
    let none = Seq::<PlanView>::empty();
    let plan = none.push(PlanView { def, params });
    assert(planned(j.actions, c.actions, 0, none) == Ok::<Seq<PlanView>, ErrorView>(plan));
    assert(plan[0] == PlanView { def, params });
}

/// Actions are planned in the order of the jail: each that is known, with its
/// parameters; a specification without a name, or of an action that is not
/// loaded, is passed over.
pub proof fn law_actions_are_planned_in_order(
    specs: Seq<Text>,
    known: Seq<(Text, DefView)>,
    i: int,
    acc: Seq<PlanView>,
    def: DefView,
    params: Seq<(Text, Text)>,
)
    requires
        0 <= i < specs.len(),
        jail::spec_params(specs[i], "action"@, "]"@) == Ok::<Seq<(Text, Text)>, ErrorView>(params),
    ensures
        jail::spec_name(specs[i]).len() == 0 ==> planned(specs, known, i, acc) == planned(
            specs,
            known,
            i + 1,
            acc,
        ),
        jail::spec_name(specs[i]).len() > 0 && table::lookup(
            known,
            jail::spec_name(specs[i]),
        ) is None ==> planned(specs, known, i, acc) == planned(specs, known, i + 1, acc),
        jail::spec_name(specs[i]).len() > 0 && table::lookup(known, jail::spec_name(specs[i]))
            == Some(def) ==> planned(specs, known, i, acc) == planned(
            specs,
            known,
            i + 1,
            acc.push(PlanView { def, params }),
        ),
{
}

/// Actions are bound in the order in which they are planned.
pub proof fn law_actions_are_bound_in_order(
    plan: Seq<PlanView>,
    c: ConfigView,
    name: Text,
    on_demand: bool,
    i: int,
    acc: Seq<BoundView>,
    a: ActionView,
)
    requires
        0 <= i < plan.len(),
        action::action_of(
            plan[i].def.name,
            plan[i].def.doc,
            plan[i].params,
            c.inherited,
            c.defaults,
            None,
        ) == Ok::<ActionView, ErrorView>(a),
    ensures
        bound_actions(plan, c, name, on_demand, i, acc) == bound_actions(
            plan,
            c,
            name,
            on_demand,
            i + 1,
            acc.push(
                BoundView {
                    name: a.name,
                    jail: name,
                    config: ActionView {
                        actionstart_on_demand: a.actionstart_on_demand || on_demand,
                        ..a
                    },
                    started: false,
                },
            ),
        ),
        bound_actions(plan, c, name, on_demand, plan.len() as int, acc) == Ok::<
            Seq<BoundView>,
            ErrorView,
        >(acc),
{
}

} // verus!
