//! What a jail has its actions do: a list of jobs, to be run in their order.

use crate::action;
use crate::action::run;
use crate::action::run::{ActionExecutor, Phase};
use crate::action::{Action, BanContext, BanInfo, BoundView};
use crate::ip;
use crate::ip::IpFamily;
use crate::server::banmanager;
use crate::server::banmanager::{BanTicket, BanView};
use crate::text;
use vstd::prelude::*;

verus! {

/// A job for one action of a jail.
#[derive(Debug)]
pub struct Job {
    /// The position of the action.
    pub action: usize,
    /// The phase in which the action begins.
    pub phase: Phase,
    /// What the action is told of a ban.
    pub ctx: Option<BanContext>,
}

/// The model of a job.
#[verifier::ext_equal]
pub struct JobView {
    pub action: nat,
    pub phase: Phase,
    pub ctx: Option<BanInfo>,
}

impl View for Job {
    type V = JobView;

    open spec fn view(&self) -> JobView {
        JobView {
            action: self.action as nat,
            phase: self.phase,
            ctx: match self.ctx {
                Some(c) => Some(c@),
                None => None,
            },
        }
    }
}

/// The models of jobs.
pub open spec fn job_list(v: Seq<Job>) -> Seq<JobView> {
    v.map_values(|j: Job| j@)
}

/// The models of actions.
pub open spec fn action_list(v: Seq<Action>) -> Seq<BoundView> {
    v.map_values(|a: Action| a@)
}

/// Which actions a job is for.
#[derive(Debug, Clone, Copy, PartialEq, Eq, Structural)]
pub enum Which {
    /// All of them.
    All,
    /// Those that can lift all bans at once.
    Flushing,
    /// Those that cannot.
    Plain,
}

/// Whether an action is among those meant.
pub open spec fn is_meant(a: BoundView, w: Which) -> bool {
    match w {
        Which::All => true,
        Which::Flushing => a.config.actionflush is Some,
        Which::Plain => a.config.actionflush is None,
    }
}

/// The same job for each of the actions meant, in their order.
pub open spec fn jobs_for(
    actions: Seq<BoundView>,
    w: Which,
    phase: Phase,
    ctx: Option<BanInfo>,
) -> Seq<JobView>
    decreases actions.len(),
{
    if actions.len() == 0 {
        Seq::empty()
    } else {
        let front = jobs_for(actions.drop_last(), w, phase, ctx);
        if is_meant(actions.last(), w) {
            front.push(JobView { action: (actions.len() - 1) as nat, phase, ctx })
        } else {
            front
        }
    }
}

/// The length of a ban as the commands are told it, cut off at the ends of
/// the integers for it.
pub open spec fn told_length(n: Option<i128>) -> Option<u64> {
    match n {
        Some(n) => Some(
            if n < 0 {
                0
            } else if n > u64::MAX {
                u64::MAX
            } else {
                n as u64
            },
        ),
        None => None,
    }
}

/// What the commands are told of a ban.
pub open spec fn info_of(b: BanView) -> BanInfo {
    BanInfo {
        ip: b.host,
        ip_addr: b.ip,
        family: match b.ip {
            Some(ip) => ip::family(ip),
            None => IpFamily::Inet4,
        },
        user: b.user,
        alt_user: b.alt_user,
        fid: match b.ip {
            Some(_) => None,
            None => Some(b.host),
        },
        bantime: told_length(b.bantime),
        matches: b.matches,
        failures: b.failures,
    }
}

/// Lifting bans one by one, each with all the actions meant.
pub open spec fn unban_jobs(actions: Seq<BoundView>, w: Which, bans: Seq<BanView>) -> Seq<JobView>
    decreases bans.len(),
{
    if bans.len() == 0 {
        Seq::empty()
    } else {
        unban_jobs(actions, w, bans.drop_last()) + jobs_for(
            actions,
            w,
            Phase::Unban,
            Some(info_of(bans.last())),
        )
    }
}

/// Lifting all bans: at once with the actions that can, and one by one with
/// the others.
pub open spec fn flush_jobs(actions: Seq<BoundView>, bans: Seq<BanView>) -> Seq<JobView> {
    jobs_for(actions, Which::Flushing, Phase::Flush, None) + unban_jobs(actions, Which::Plain, bans)
}

/// Setting all actions up.
pub open spec fn start_jobs(actions: Seq<BoundView>) -> Seq<JobView> {
    actions.map(
        |i: int, a: BoundView|
            JobView { action: i as nat, phase: run::start_phase(a, false), ctx: None },
    )
}

/// Taking all actions down.
pub open spec fn stop_jobs(actions: Seq<BoundView>) -> Seq<JobView> {
    actions.map(
        |i: int, a: BoundView| JobView { action: i as nat, phase: run::stop_phase(a), ctx: None },
    )
}

impl Clone for BanContext {
    fn clone(&self) -> (r: BanContext)
        ensures
            r@ == self@,
    {
        BanContext {
            ip: self.ip.clone(),
            ip_addr: self.ip_addr,
            family: self.family,
            user: text::copy_opt(&self.user),
            alt_user: text::copy_opt(&self.alt_user),
            fid: text::copy_opt(&self.fid),
            bantime: self.bantime,
            matches: text::copy_strings(&self.matches),
            failures: self.failures,
        }
    }
}

/// What the commands are told of a ban.
pub fn context_of(b: &BanTicket) -> (r: BanContext)
    ensures
        r@ == info_of(b@),
{
    BanContext {
        ip: b.host.clone(),
        ip_addr: b.ip,
        family: match b.ip {
            Some(ip) => ip::family_of(ip),
            None => IpFamily::Inet4,
        },
        user: text::copy_opt(&b.user),
        alt_user: text::copy_opt(&b.alt_user),
        fid: match b.ip {
            Some(_) => None,
            None => Some(b.host.clone()),
        },
        bantime: match b.bantime {
            Some(n) => Some(
                if n < 0 {
                    0
                } else if n > u64::MAX as i128 {
                    u64::MAX
                } else {
                    n as u64
                },
            ),
            None => None,
        },
        matches: text::copy_strings(&b.matches),
        failures: b.failures,
    }
}

fn meant(a: &Action, w: Which) -> (r: bool)
    ensures
        r == is_meant(a@, w),
{
    match w {
        Which::All => true,
        Which::Flushing => a.config.actionflush.is_some(),
        Which::Plain => a.config.actionflush.is_none(),
    }
}

fn copy_context(ctx: Option<&BanContext>) -> (r: Option<BanContext>)
    ensures
        (match r {
            Some(c) => Some(c@),
            None => None,
        }) == action::opt_info(ctx),
{
    match ctx {
        Some(c) => Some(c.clone()),
        None => None,
    }
}

/// Adds the same job for each of the actions meant.
pub fn add_jobs(
    jobs: &mut Vec<Job>,
    actions: &Vec<Action>,
    w: Which,
    phase: Phase,
    ctx: Option<&BanContext>,
)
    ensures
        job_list(final(jobs)@) == job_list(old(jobs)@) + jobs_for(
            action_list(actions@),
            w,
            phase,
            action::opt_info(ctx),
        ),
{
    let ghost start = job_list(jobs@);
    let ghost all = action_list(actions@);
    let ghost c = action::opt_info(ctx);
    let mut i: usize = 0;
    proof {
        assert(all.take(0) =~= Seq::empty());
        assert(start + Seq::<JobView>::empty() =~= start);
    }
    while i < actions.len()
        invariant
            i <= actions.len(),
            all == action_list(actions@),
            c == action::opt_info(ctx),
            job_list(jobs@) == start + jobs_for(all.take(i as int), w, phase, c),
        decreases actions.len() - i,
    {
        let ghost before = jobs@;
        proof {
            assert(all.take(i + 1).drop_last() =~= all.take(i as int));
            assert(all.take(i + 1).last() == actions@[i as int]@);
        }
        if meant(&actions[i], w) {
            let job = Job { action: i, phase, ctx: copy_context(ctx) };
            jobs.push(job);
            proof {
                assert(job@ == (JobView { action: i as nat, phase, ctx: c }));
                assert(job_list(jobs@) =~= job_list(before).push(job@));
                assert(job_list(before).push(job@) =~= start + jobs_for(
                    all.take(i as int),
                    w,
                    phase,
                    c,
                ).push(job@));
            }
        }
        i += 1;
    }
    assert(all.take(i as int) =~= all);
}

/// Adds lifting bans one by one.
pub fn add_unban_jobs(jobs: &mut Vec<Job>, actions: &Vec<Action>, w: Which, bans: &Vec<BanTicket>)
    ensures
        job_list(final(jobs)@) == job_list(old(jobs)@) + unban_jobs(
            action_list(actions@),
            w,
            banmanager::ban_list(bans@),
        ),
{
    let ghost start = job_list(jobs@);
    let ghost all = banmanager::ban_list(bans@);
    let ghost a = action_list(actions@);
    let mut i: usize = 0;
    proof {
        assert(all.take(0) =~= Seq::empty());
        assert(start + Seq::<JobView>::empty() =~= start);
    }
    while i < bans.len()
        invariant
            i <= bans.len(),
            all == banmanager::ban_list(bans@),
            a == action_list(actions@),
            job_list(jobs@) == start + unban_jobs(a, w, all.take(i as int)),
        decreases bans.len() - i,
    {
        proof {
            assert(all.take(i + 1).drop_last() =~= all.take(i as int));
            assert(all.take(i + 1).last() == bans@[i as int]@);
        }
        let ctx = context_of(&bans[i]);
        add_jobs(jobs, actions, w, Phase::Unban, Some(&ctx));
        assert(job_list(jobs@) =~= start + unban_jobs(a, w, all.take(i + 1)));
        i += 1;
    }
    assert(all.take(i as int) =~= all);
}

/// Setting all actions up.
pub fn plan_start(actions: &Vec<Action>) -> (r: Vec<Job>)
    ensures
        job_list(r@) == start_jobs(action_list(actions@)),
{
    let ghost all = start_jobs(action_list(actions@));
    let mut jobs: Vec<Job> = Vec::new();
    let mut i: usize = 0;
    while i < actions.len()
        invariant
            i <= actions.len() == all.len(),
            all == start_jobs(action_list(actions@)),
            job_list(jobs@) == all.take(i as int),
        decreases actions.len() - i,
    {
        let ghost before = jobs@;
        let job = Job { action: i, phase: ActionExecutor::start(&actions[i], false), ctx: None };
        jobs.push(job);
        i += 1;
        proof {
            assert(job_list(jobs@) =~= job_list(before).push(job@));
            assert(all.take(i as int) =~= all.take(i - 1).push(all[i - 1]));
        }
    }
    assert(all.take(i as int) =~= all);
    jobs
}

/// Taking all actions down.
pub fn plan_stop(actions: &Vec<Action>) -> (r: Vec<Job>)
    ensures
        job_list(r@) == stop_jobs(action_list(actions@)),
{
    let ghost all = stop_jobs(action_list(actions@));
    let mut jobs: Vec<Job> = Vec::new();
    let mut i: usize = 0;
    while i < actions.len()
        invariant
            i <= actions.len() == all.len(),
            all == stop_jobs(action_list(actions@)),
            job_list(jobs@) == all.take(i as int),
        decreases actions.len() - i,
    {
        let ghost before = jobs@;
        let job = Job { action: i, phase: ActionExecutor::stop(&actions[i]), ctx: None };
        jobs.push(job);
        i += 1;
        proof {
            assert(job_list(jobs@) =~= job_list(before).push(job@));
            assert(all.take(i as int) =~= all.take(i - 1).push(all[i - 1]));
        }
    }
    assert(all.take(i as int) =~= all);
    jobs
}

/// A job for all actions meets each of them once, in their order.
pub proof fn law_every_action_has_its_job(
    actions: Seq<BoundView>,
    phase: Phase,
    ctx: Option<BanInfo>,
)
    ensures
        jobs_for(actions, Which::All, phase, ctx) == actions.map(
            |i: int, a: BoundView| JobView { action: i as nat, phase, ctx },
        ),
    decreases actions.len(),
{
    if actions.len() > 0 {
        law_every_action_has_its_job(actions.drop_last(), phase, ctx);
    }
    assert(jobs_for(actions, Which::All, phase, ctx) =~= actions.map(
        |i: int, a: BoundView| JobView { action: i as nat, phase, ctx },
    ));
}

/// One action more: it has a job where the job is meant for it, about itself.
pub proof fn law_jobs_one_by_one(
    actions: Seq<BoundView>,
    a: BoundView,
    phase: Phase,
    ctx: Option<BanInfo>,
)
    ensures
        ({
            let job = JobView { action: actions.len(), phase, ctx };
            let all = jobs_for(actions, Which::All, phase, ctx);
            let flushing = jobs_for(actions, Which::Flushing, phase, ctx);
            let plain = jobs_for(actions, Which::Plain, phase, ctx);
            &&& jobs_for(actions.push(a), Which::All, phase, ctx) == all.push(job)
            &&& a.config.actionflush is Some ==> jobs_for(
                actions.push(a),
                Which::Flushing,
                phase,
                ctx,
            ) == flushing.push(job) && jobs_for(actions.push(a), Which::Plain, phase, ctx) == plain
            &&& a.config.actionflush is None ==> jobs_for(
                actions.push(a),
                Which::Flushing,
                phase,
                ctx,
            ) == flushing && jobs_for(actions.push(a), Which::Plain, phase, ctx) == plain.push(job)
        }),
{
    assert(actions.push(a).drop_last() =~= actions);
}

/// What the actions are told of a ban: a ban without an address is told by its
/// host, and taken for IPv4; a length is told in seconds.
pub proof fn law_ban_is_told(b: BanView, n: u64)
    ensures
        ({
            let c = info_of(b);
            &&& c.ip == b.host
            &&& c.ip_addr == b.ip
            &&& c.user == b.user
            &&& c.alt_user == b.alt_user
            &&& c.matches == b.matches
            &&& c.failures == b.failures
            &&& b.bantime is None <==> c.bantime is None
            &&& b.bantime == Some(n as i128) ==> c.bantime == Some(n)
            &&& b.ip is None ==> c.fid == Some(b.host) && c.family == IpFamily::Inet4
            &&& b.ip matches Some(ip) ==> c.fid is None && c.family == ip::family(ip)
        }),
{
}

/// Every ban that ends is undone in its turn.
pub proof fn law_unbans_one_by_one(
    actions: Seq<BoundView>,
    w: Which,
    bans: Seq<BanView>,
    b: BanView,
)
    ensures
        unban_jobs(actions, w, Seq::empty()) == Seq::<JobView>::empty(),
        unban_jobs(actions, w, bans.push(b)) == unban_jobs(actions, w, bans) + jobs_for(
            actions,
            w,
            Phase::Unban,
            Some(info_of(b)),
        ),
{
    assert(bans.push(b).drop_last() =~= bans);
}

/// To lift all bans, an action that can flush flushes, and any other undoes
/// each ban.
pub proof fn law_flush_or_unban(a: BoundView, b: BanView)
    ensures
        a.config.actionflush is Some ==> flush_jobs(seq![a], seq![b]) == seq![
            JobView { action: 0, phase: Phase::Flush, ctx: None },
        ],
        a.config.actionflush is None ==> flush_jobs(seq![a], seq![b]) == seq![
            JobView { action: 0, phase: Phase::Unban, ctx: Some(info_of(b)) },
        ],
{
    let none = Seq::<BoundView>::empty();
    let nobody = Seq::<BanView>::empty();
    assert(none.push(a) =~= seq![a]);
    assert(nobody.push(b) =~= seq![b]);
    law_jobs_one_by_one(none, a, Phase::Flush, None);
    law_jobs_one_by_one(none, a, Phase::Unban, Some(info_of(b)));
    law_unbans_one_by_one(seq![a], Which::Plain, nobody, b);
}

/// Every action has its job when a jail starts and when it stops: to be set up
/// or taken down, or nothing.
pub proof fn law_start_and_stop_jobs(actions: Seq<BoundView>, i: int)
    requires
        0 <= i < actions.len(),
    ensures
        start_jobs(actions).len() == actions.len(),
        stop_jobs(actions).len() == actions.len(),
        !actions[i].started && !actions[i].config.actionstart_on_demand ==> start_jobs(actions)[i]
            == (JobView { action: i as nat, phase: Phase::Start, ctx: None }),
        actions[i].started || actions[i].config.actionstart_on_demand ==> start_jobs(actions)[i]
            == (JobView { action: i as nat, phase: Phase::Done, ctx: None }),
        actions[i].started ==> stop_jobs(actions)[i] == (JobView {
            action: i as nat,
            phase: Phase::Stop,
            ctx: None,
        }),
        !actions[i].started ==> stop_jobs(actions)[i] == (JobView {
            action: i as nat,
            phase: Phase::Done,
            ctx: None,
        }),
{
}

} // verus!
