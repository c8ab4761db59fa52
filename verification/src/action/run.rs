//! Running the commands of an action: which command comes next, how it is
//! split into words, and what its outcome means.

use crate::action;
use crate::action::{Action, BanContext, BanInfo, BoundView};
use crate::config::action::ActionView;
use crate::error::{Error, ErrorView};
use crate::table;
use crate::text;
use crate::text::number;
use crate::text::trim;
use crate::text::Text;
use indexmap::IndexMap;
use vstd::prelude::*;

verus! {

/// The words into which a shell would split a command line; `None` where a
/// quotation is not closed or the line ends in a backslash.
pub uninterp spec fn shell_words(s: Text) -> Option<Seq<Text>>;

/// The model of an optional list of strings.
pub open spec fn opt_texts(o: Option<Vec<String>>) -> Option<Seq<Text>> {
    match o {
        Some(v) => Some(text::texts(v@)),
        None => None,
    }
}

/// `shlex::split`. The words are a function of the characters alone, named
/// `shell_words`; nothing more is claimed of them.
#[verifier::external_body]
pub(crate) fn split_words(s: &str) -> (r: Option<Vec<String>>)
    ensures
        opt_texts(r) == shell_words(s@),
{
    shlex::split(s)
}

/// The words of a command line, or the error that it has none.
pub open spec fn words_of(line: Text) -> Result<Seq<Text>, ErrorView> {
    match shell_words(line) {
        Some(w) => Ok(w),
        None => Err(ErrorView::Action("invalid command line: "@ + line)),
    }
}

/// The words of a command template with its tags filled in.
pub open spec fn command_of(
    template: Text,
    init: Seq<(Text, Text)>,
    jail: Text,
    ctx: Option<BanInfo>,
) -> Result<Seq<Text>, ErrorView> {
    words_of(action::filled(template, init, jail, ctx))
}

/// What is done with the words that a command line was split into.
pub fn command_words(line: &str, words: Option<Vec<String>>) -> (r: Result<Vec<String>, Error>)
    ensures
        match r {
            Ok(w) => opt_texts(words) == Some(text::texts(w@)),
            Err(e) => words is None && e@ == ErrorView::Action("invalid command line: "@ + line@),
        },
{
    match words {
        Some(w) => Ok(w),
        None => Err(Error::Action(text::cat2("invalid command line: ", line))),
    }
}

/// The program and the arguments that a command template stands for. Where
/// there are none there is nothing to run.
pub fn plan_command(
    template: &str,
    init: &IndexMap<String, String>,
    jail: &str,
    ctx: Option<&BanContext>,
) -> (r: Result<Vec<String>, Error>)
    ensures
        match r {
            Ok(w) => command_of(template@, table::entries(*init), jail@, action::opt_info(ctx))
                == Ok::<Seq<Text>, ErrorView>(text::texts(w@)),
            Err(e) => command_of(template@, table::entries(*init), jail@, action::opt_info(ctx))
                == Err::<Seq<Text>, ErrorView>(e@),
        },
{
    let line = action::expand_command(template, init, jail, ctx);
    let words = split_words(line.as_str());
    command_words(line.as_str(), words)
}

/// How a command ended.
#[derive(Debug)]
pub enum Ran {
    /// It could not be started.
    NotStarted(String),
    /// Waiting for it failed.
    NotAwaited(String),
    /// It took too long.
    TimedOut,
    /// It exited with a code, where it has one, and wrote this to its standard
    /// error.
    Exited {
        success: bool,
        code: Option<i32>,
        stderr: String,
    },
}

/// An exit code in words.
pub open spec fn code_text(code: Option<i32>) -> Text {
    match code {
        Some(n) => "Some("@ + number::decimal_int(n as int) + ")"@,
        None => "None"@,
    }
}

/// What the outcome of a command means: nothing, or an error.
pub open spec fn verdict(program: Text, ran: Ran, timeout: u64) -> Option<Text> {
    match ran {
        Ran::NotStarted(e) => Some("spawning "@ + text::debug_text(program) + ": "@ + e@),
        Ran::NotAwaited(e) => Some("waiting for "@ + text::debug_text(program) + ": "@ + e@),
        Ran::TimedOut => Some(
            "command "@ + text::debug_text(program) + " timed out after "@ + number::decimal(
                timeout as nat,
            ) + "s"@,
        ),
        Ran::Exited { success, code, stderr } => if success {
            None
        } else {
            Some(
                "command "@ + text::debug_text(program) + " exited with "@ + code_text(code) + ": "@
                    + trim::trimmed(stderr@),
            )
        },
    }
}

fn show_code(code: Option<i32>) -> (r: String)
    ensures
        r@ == code_text(code),
{
    match code {
        Some(n) => {
            let d = number::to_decimal_int(n as i64);
            text::cat3("Some(", d.as_str(), ")")
        },
        None => "None".to_owned(),
    }
}

/// What the outcome of a command means.
pub fn judge_command(program: &str, ran: Ran, timeout: u64) -> (r: Result<(), Error>)
    ensures
        match r {
            Ok(_) => verdict(program@, ran, timeout) is None,
            Err(e) => verdict(program@, ran, timeout) is Some && e@ == ErrorView::Action(
                verdict(program@, ran, timeout)->0,
            ),
        },
{
    let name = text::quoted(program);
    let m = match &ran {
        Ran::NotStarted(e) => text::cat4("spawning ", name.as_str(), ": ", e.as_str()),
        Ran::NotAwaited(e) => text::cat4("waiting for ", name.as_str(), ": ", e.as_str()),
        Ran::TimedOut => {
            let d = number::to_decimal(timeout);
            text::cat5("command ", name.as_str(), " timed out after ", d.as_str(), "s")
        },
        Ran::Exited { success, code, stderr } => {
            if *success {
                return Ok(());
            }
            let c = show_code(*code);
            let front = text::cat5("command ", name.as_str(), " exited with ", c.as_str(), ": ");
            text::cat2(front.as_str(), trim::trim(stderr.as_str()))
        },
    };
    assert(verdict(program@, ran, timeout) == Some(m@));
    Err(Error::Action(m))
}

/// Where an action is between its commands.
#[derive(Debug, Clone, Copy, PartialEq, Eq, Structural)]
pub enum Phase {
    /// Before a ban: is the action set up?
    Check,
    /// It is not: set it up again.
    Repair,
    /// After that: is it set up now?
    Recheck,
    /// Before the first ban of an action that is set up on demand.
    StartFirst,
    /// The ban itself.
    Ban,
    /// Setting up.
    Start,
    /// Taking down.
    Stop,
    /// Lifting all bans at once.
    Flush,
    /// Lifting a ban.
    Unban,
    /// Nothing is left to run.
    Done,
}

/// The command of a phase.
pub open spec fn template_of(c: ActionView, p: Phase) -> Option<Text> {
    match p {
        Phase::Check => c.actioncheck,
        Phase::Repair => c.actionrepair,
        Phase::Recheck => c.actioncheck,
        Phase::StartFirst => c.actionstart,
        Phase::Ban => c.actionban,
        Phase::Start => c.actionstart,
        Phase::Stop => c.actionstop,
        Phase::Flush => c.actionflush,
        Phase::Unban => c.actionunban,
        Phase::Done => None,
    }
}

/// Whether the command of a phase is told of the ban.
pub open spec fn speaks_of_ban(p: Phase) -> bool {
    p == Phase::Check || p == Phase::Repair || p == Phase::Recheck || p == Phase::Ban || p
        == Phase::Unban
}

/// The phase in which a ban begins once the action is known to be in order.
pub open spec fn ban_phase(a: BoundView) -> Phase {
    if a.config.actionstart_on_demand && !a.started {
        Phase::StartFirst
    } else {
        Phase::Ban
    }
}

/// The phase in which an action's start begins.
pub open spec fn start_phase(a: BoundView, force: bool) -> Phase {
    if (a.started || a.config.actionstart_on_demand) && !force {
        Phase::Done
    } else {
        Phase::Start
    }
}

/// The phase in which an action's stop begins.
pub open spec fn stop_phase(a: BoundView) -> Phase {
    if a.started {
        Phase::Stop
    } else {
        Phase::Done
    }
}

/// The action after the command of a phase succeeded or failed.
pub open spec fn action_after(a: BoundView, p: Phase, ok: bool) -> BoundView {
    if ok && (p == Phase::Start || p == Phase::StartFirst) {
        BoundView { started: true, ..a }
    } else if ok && p == Phase::Stop {
        BoundView { started: false, ..a }
    } else {
        a
    }
}

/// The phase that follows.
pub open spec fn phase_after(a: BoundView, p: Phase, ok: bool) -> Phase {
    match p {
        Phase::Check => if ok {
            ban_phase(a)
        } else {
            Phase::Repair
        },
        Phase::Repair => if ok {
            Phase::Recheck
        } else {
            Phase::Done
        },
        Phase::Recheck => if ok {
            ban_phase(a)
        } else {
            Phase::Done
        },
        Phase::StartFirst => if ok {
            Phase::Ban
        } else {
            Phase::Done
        },
        _ => Phase::Done,
    }
}

/// How many phases can follow at most.
pub open spec fn phases_left(p: Phase) -> nat {
    match p {
        Phase::Check => 5,
        Phase::Repair => 4,
        Phase::Recheck => 3,
        Phase::StartFirst => 2,
        Phase::Done => 0,
        _ => 1,
    }
}

/// The action and the phase from which the next command is to be run, and the
/// words of that command. A phase without a command, or with an empty one,
/// succeeds at once; one whose command line is not valid fails.
pub open spec fn settled(a: BoundView, p: Phase, ctx: Option<BanInfo>) -> (
    BoundView,
    Phase,
    Seq<Text>,
)
    decreases phases_left(p),
{
    if p == Phase::Done {
        (a, p, Seq::empty())
    } else {
        let words = match template_of(a.config, p) {
            None => Ok(Seq::empty()),
            Some(t) => command_of(
                t,
                a.config.init,
                a.jail,
                if speaks_of_ban(p) {
                    ctx
                } else {
                    None
                },
            ),
        };
        if words is Ok && (words->Ok_0).len() > 0 {
            (a, p, words->Ok_0)
        } else {
            settled(action_after(a, p, words is Ok), phase_after(a, p, words is Ok), ctx)
        }
    }
}

/// Deciding what an action runs.
#[derive(Debug)]
pub struct ActionExecutor;

fn template<'a>(a: &'a Action, p: Phase) -> (r: &'a Option<String>)
    requires
        p != Phase::Done,
    ensures
        text::opt_text(*r) == template_of(a.config@, p),
{
    match p {
        Phase::Check => &a.config.actioncheck,
        Phase::Repair => &a.config.actionrepair,
        Phase::Recheck => &a.config.actioncheck,
        Phase::StartFirst => &a.config.actionstart,
        Phase::Ban => &a.config.actionban,
        Phase::Start => &a.config.actionstart,
        Phase::Stop => &a.config.actionstop,
        Phase::Flush => &a.config.actionflush,
        Phase::Unban => &a.config.actionunban,
        Phase::Done => &a.config.actionban,
    }
}

fn plan_phase(a: &Action, p: Phase, ctx: Option<&BanContext>) -> (r: Result<Vec<String>, Error>)
    requires
        p != Phase::Done,
    ensures
        match template_of(a@.config, p) {
            None => r matches Ok(w) && w@.len() == 0,
            Some(t) => {
                let c = command_of(
                    t,
                    a@.config.init,
                    a@.jail,
                    if speaks_of_ban(p) {
                        action::opt_info(ctx)
                    } else {
                        None
                    },
                );
                match r {
                    Ok(w) => c == Ok::<Seq<Text>, ErrorView>(text::texts(w@)),
                    Err(e) => c == Err::<Seq<Text>, ErrorView>(e@),
                }
            },
        },
{
    let told = p == Phase::Check || p == Phase::Repair || p == Phase::Recheck || p == Phase::Ban
        || p == Phase::Unban;
    let own: Option<&BanContext> = if told {
        ctx
    } else {
        None
    };
    match template(a, p) {
        None => Ok(Vec::new()),
        Some(t) => plan_command(t.as_str(), &a.config.init, a.jail.as_str(), own),
    }
}

fn follow(a: &mut Action, p: Phase, ok: bool) -> (r: Phase)
    ensures
        final(a)@ == action_after(old(a)@, p, ok),
        r == phase_after(old(a)@, p, ok),
{
    match p {
        Phase::Check => if ok {
            ActionExecutor::ban(a)
        } else {
            Phase::Repair
        },
        Phase::Repair => if ok {
            Phase::Recheck
        } else {
            Phase::Done
        },
        Phase::Recheck => if ok {
            ActionExecutor::ban(a)
        } else {
            Phase::Done
        },
        Phase::StartFirst => if ok {
            a.started = true;
            Phase::Ban
        } else {
            Phase::Done
        },
        Phase::Start => {
            if ok {
                a.started = true;
            }
            Phase::Done
        },
        Phase::Stop => {
            if ok {
                a.started = false;
            }
            Phase::Done
        },
        _ => Phase::Done,
    }
}

impl ActionExecutor {
    /// Where setting an action up begins: nowhere, unless forced, where it is
    /// set up already or is set up on demand.
    pub fn start(action: &Action, force: bool) -> (r: Phase)
        ensures
            r == start_phase(action@, force),
    {
        if (action.started || action.config.actionstart_on_demand) && !force {
            Phase::Done
        } else {
            Phase::Start
        }
    }

    /// Where taking an action down begins: nowhere, where it is not set up.
    pub fn stop(action: &Action) -> (r: Phase)
        ensures
            r == stop_phase(action@),
    {
        if action.started {
            Phase::Stop
        } else {
            Phase::Done
        }
    }

    /// Where a ban begins that is preceded by a check and, should that fail,
    /// by a repair and another check.
    pub fn check() -> (r: Phase)
        ensures
            r == Phase::Check,
    {
        Phase::Check
    }

    /// Where the repair begins that a failed check asks for.
    pub fn repair() -> (r: Phase)
        ensures
            r == Phase::Repair,
    {
        Phase::Repair
    }

    /// Where lifting all bans at once begins.
    pub fn flush() -> (r: Phase)
        ensures
            r == Phase::Flush,
    {
        Phase::Flush
    }

    /// Where the ban itself begins: with setting the action up, where that is
    /// done on demand and has not been done yet.
    pub fn ban(action: &Action) -> (r: Phase)
        ensures
            r == ban_phase(action@),
    {
        if action.config.actionstart_on_demand && !action.started {
            Phase::StartFirst
        } else {
            Phase::Ban
        }
    }

    /// Where lifting a ban begins.
    pub fn unban() -> (r: Phase)
        ensures
            r == Phase::Unban,
    {
        Phase::Unban
    }

    /// The phase whose command is to be run next, and the words of that
    /// command; the last phase, and no words, where nothing is left to run.
    pub fn next(action: &mut Action, phase: Phase, ctx: Option<&BanContext>) -> (r: (
        Phase,
        Vec<String>,
    ))
        ensures
            (final(action)@, r.0, text::texts(r.1@)) == settled(
                old(action)@,
                phase,
                action::opt_info(ctx),
            ),
    {
        let ghost c = action::opt_info(ctx);
        let mut p: Phase = phase;
        loop
            invariant
                c == action::opt_info(ctx),
                settled(action@, p, c) == settled(old(action)@, phase, c),
            decreases phases_left(p),
        {
            if p == Phase::Done {
                let none: Vec<String> = Vec::new();
                assert(text::texts(none@) =~= Seq::empty());
                return (p, none);
            }
            let ok = match plan_phase(action, p, ctx) {
                Ok(words) => {
                    if words.len() > 0 {
                        return (p, words);
                    }
                    true
                },
                Err(_) => false,
            };
            p = follow(action, p, ok);
        }
    }

    /// What comes after the command of a phase succeeded or failed.
    pub fn report(action: &mut Action, phase: Phase, ok: bool) -> (r: Phase)
        ensures
            final(action)@ == action_after(old(action)@, phase, ok),
            r == phase_after(old(action)@, phase, ok),
    {
        follow(action, phase, ok)
    }
}

/// A ban that is preceded by a check goes through only after a check that
/// succeeded.
pub proof fn law_ban_needs_check(a: BoundView, p: Phase, ok: bool)
    requires
        p == Phase::Check || p == Phase::Repair || p == Phase::Recheck,
    ensures
        (phase_after(a, p, ok) == Phase::Ban || phase_after(a, p, ok) == Phase::StartFirst) <==> (
        ok && p != Phase::Repair),
{
}

/// A failed check is followed by a repair, and a repair that succeeded by
/// another check; there is no second repair.
pub proof fn law_repair_once(a: BoundView, p: Phase, ok: bool)
    ensures
        phase_after(a, p, ok) == Phase::Repair <==> p == Phase::Check && !ok,
        phase_after(a, p, ok) == Phase::Recheck <==> p == Phase::Repair && ok,
{
}

/// An action that is set up on demand is not set up with its jail, but before
/// its first ban; with the next ban it is not set up again.
pub proof fn law_on_demand_starts_once(a: BoundView)
    requires
        a.config.actionstart_on_demand,
        !a.started,
    ensures
        start_phase(a, false) == Phase::Done,
        ban_phase(a) == Phase::StartFirst,
        phase_after(a, Phase::StartFirst, true) == Phase::Ban,
        ban_phase(action_after(a, Phase::StartFirst, true)) == Phase::Ban,
{
}

/// An action is taken down only where it is set up, and then no more until it
/// is set up again.
pub proof fn law_stop_undoes_start(a: BoundView)
    ensures
        stop_phase(action_after(a, Phase::Start, true)) == Phase::Stop,
        stop_phase(action_after(a, Phase::Stop, true)) == Phase::Done,
{
}

/// The phases run their own commands: `actioncheck`, `actionrepair`,
/// `actionban` and `actionunban` about the ban, `actionstart`, `actionstop`
/// and `actionflush` about none.
pub proof fn law_phases_run_their_commands(
    a: BoundView,
    ctx: Option<BanInfo>,
    t: Text,
    ban: Seq<Text>,
    plain: Seq<Text>,
)
    requires
        shell_words(action::filled(t, a.config.init, a.jail, ctx)) == Some(ban),
        shell_words(action::filled(t, a.config.init, a.jail, None)) == Some(plain),
        ban.len() > 0,
        plain.len() > 0,
    ensures
        a.config.actioncheck == Some(t) ==> settled(a, Phase::Check, ctx) == (a, Phase::Check, ban),
        a.config.actionrepair == Some(t) ==> settled(a, Phase::Repair, ctx) == (
            a,
            Phase::Repair,
            ban,
        ),
        a.config.actioncheck == Some(t) ==> settled(a, Phase::Recheck, ctx) == (
            a,
            Phase::Recheck,
            ban,
        ),
        a.config.actionban == Some(t) ==> settled(a, Phase::Ban, ctx) == (a, Phase::Ban, ban),
        a.config.actionunban == Some(t) ==> settled(a, Phase::Unban, ctx) == (a, Phase::Unban, ban),
        a.config.actionstart == Some(t) ==> settled(a, Phase::StartFirst, ctx) == (
            a,
            Phase::StartFirst,
            plain,
        ),
        a.config.actionstart == Some(t) ==> settled(a, Phase::Start, ctx) == (
            a,
            Phase::Start,
            plain,
        ),
        a.config.actionstop == Some(t) ==> settled(a, Phase::Stop, ctx) == (a, Phase::Stop, plain),
        a.config.actionflush == Some(t) ==> settled(a, Phase::Flush, ctx) == (
            a,
            Phase::Flush,
            plain,
        ),
{
}

/// A phase without a command is over at once, as if its command had succeeded.
pub proof fn law_missing_commands_succeed(a: BoundView, ctx: Option<BanInfo>)
    ensures
        ({
            let none = Seq::<Text>::empty();
            let on = BoundView { started: true, ..a };
            let off = BoundView { started: false, ..a };
            &&& a.config.actioncheck is None && (a.started || !a.config.actionstart_on_demand)
                ==> settled(a, Phase::Check, ctx) == settled(a, Phase::Ban, ctx)
            &&& a.config.actioncheck is None && !a.started && a.config.actionstart_on_demand
                ==> settled(a, Phase::Check, ctx) == settled(a, Phase::StartFirst, ctx)
            &&& a.config.actionrepair is None ==> settled(a, Phase::Repair, ctx) == settled(
                a,
                Phase::Recheck,
                ctx,
            )
            &&& a.config.actionstart is None ==> settled(a, Phase::StartFirst, ctx) == settled(
                on,
                Phase::Ban,
                ctx,
            )
            &&& a.config.actionstart is None ==> settled(a, Phase::Start, ctx) == (
                on,
                Phase::Done,
                none,
            )
            &&& a.config.actionstop is None ==> settled(a, Phase::Stop, ctx) == (
                off,
                Phase::Done,
                none,
            )
            &&& a.config.actionban is None ==> settled(a, Phase::Ban, ctx) == (
                a,
                Phase::Done,
                none,
            )
            &&& a.config.actionunban is None ==> settled(a, Phase::Unban, ctx) == (
                a,
                Phase::Done,
                none,
            )
            &&& a.config.actionflush is None ==> settled(a, Phase::Flush, ctx) == (
                a,
                Phase::Done,
                none,
            )
        }),
{
    reveal_with_fuel(settled, 3);
}

/// An action is set up unless it already is, or waits for the first ban;
/// forced, it is set up in any case. Only one that is set up is taken down.
pub proof fn law_when_started_and_stopped(a: BoundView)
    ensures
        start_phase(a, true) == Phase::Start,
        start_phase(a, false) == Phase::Start <==> !a.started && !a.config.actionstart_on_demand,
        stop_phase(a) == Phase::Stop <==> a.started,
        ban_phase(a) == Phase::StartFirst <==> !a.started && a.config.actionstart_on_demand,
        ban_phase(a) == Phase::Ban || ban_phase(a) == Phase::StartFirst,
{
}

/// An action is set up when its start succeeds, taken down when its stop
/// succeeds, and stays as it is otherwise.
pub proof fn law_when_set_up(a: BoundView, p: Phase, ok: bool)
    ensures
        action_after(a, p, false) == a,
        p == Phase::Start || p == Phase::StartFirst ==> action_after(a, p, true) == (BoundView {
            started: true,
            ..a
        }),
        action_after(a, Phase::Stop, true) == (BoundView { started: false, ..a }),
        p != Phase::Start && p != Phase::StartFirst && p != Phase::Stop ==> action_after(a, p, ok)
            == a,
{
}

/// A command succeeds when it ends well, and in no other way.
pub proof fn law_command_succeeds(program: Text, ran: Ran, timeout: u64)
    ensures
        verdict(program, ran, timeout) is None <==> (ran matches Ran::Exited { success, .. }
            && success),
{
}

/// What is said of a command that does not succeed.
pub proof fn law_failures_are_said(program: Text, e: String, timeout: u64, code: i32)
    ensures
        verdict(program, Ran::NotStarted(e), timeout) == Some(
            "spawning "@ + text::debug_text(program) + ": "@ + e@,
        ),
        verdict(program, Ran::NotAwaited(e), timeout) == Some(
            "waiting for "@ + text::debug_text(program) + ": "@ + e@,
        ),
        verdict(program, Ran::TimedOut, timeout) == Some(
            "command "@ + text::debug_text(program) + " timed out after "@ + number::decimal(
                timeout as nat,
            ) + "s"@,
        ),
        verdict(program, Ran::Exited { success: false, code: Some(code), stderr: e }, timeout)
            == Some(
            "command "@ + text::debug_text(program) + " exited with "@ + ("Some("@
                + number::decimal_int(code as int) + ")"@) + ": "@ + trim::trimmed(e@),
        ),
        verdict(program, Ran::Exited { success: false, code: None, stderr: e }, timeout) == Some(
            "command "@ + text::debug_text(program) + " exited with "@ + "None"@ + ": "@
                + trim::trimmed(e@),
        ),
{
}

/// A command line is split into words as a shell splits it; one that cannot be
/// split is an error.
pub proof fn law_command_words(
    template: Text,
    init: Seq<(Text, Text)>,
    jail: Text,
    ctx: Option<BanInfo>,
    w: Seq<Text>,
)
    ensures
        ({
            let line = action::filled(template, init, jail, ctx);
            &&& shell_words(line) == Some(w) ==> command_of(template, init, jail, ctx) == Ok::<
                Seq<Text>,
                ErrorView,
            >(w)
            &&& shell_words(line) is None ==> command_of(template, init, jail, ctx) == Err::<
                Seq<Text>,
                ErrorView,
            >(ErrorView::Action("invalid command line: "@ + line))
        }),
{
}

} // verus!
