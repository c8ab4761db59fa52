use indexmap::IndexMap;
use rail2ban::action::run::{
    command_words, judge_command, plan_command, ActionExecutor, Phase, Ran,
};
use rail2ban::action::{expand_command, Action, BanContext};
use rail2ban::config::action::ActionConfig;
use rail2ban::ip::IpAddr;

fn make_cfg() -> ActionConfig {
    ActionConfig {
        name: "test".to_string(),
        actionstart: Some("echo start <name>".to_string()),
        actionstop: Some("echo stop".to_string()),
        actioncheck: None,
        actionrepair: None,
        actionflush: None,
        actionban: Some("echo ban <ip>".to_string()),
        actionunban: Some("echo unban <ip>".to_string()),
        actionstart_on_demand: false,
        timeout: 5,
        init: IndexMap::new(),
    }
}

fn context() -> BanContext {
    BanContext::for_ip(IpAddr::parse("192.0.2.10").unwrap(), Some(3600))
}

/// Runs an action from a phase on; `fails` says which commands do not succeed.
/// Gives back the commands that were run.
fn run(action: &mut Action, from: Phase, ctx: Option<&BanContext>, fails: &[&str]) -> Vec<String> {
    let mut ran = Vec::new();
    let mut phase = from;
    loop {
        let (at, words) = ActionExecutor::next(action, phase, ctx);
        if at == Phase::Done {
            return ran;
        }
        let line = words.join(" ");
        let ok = !fails.contains(&line.as_str());
        ran.push(line);
        phase = ActionExecutor::report(action, at, ok);
    }
}

#[test]
fn expands_ip_tag() {
    let ctx = context();
    let out = expand_command("echo ban <ip> from <name>", &IndexMap::new(), "sshd", Some(&ctx));
    assert_eq!(out, "echo ban 192.0.2.10 from sshd");
}

#[test]
fn expands_init_param() {
    let mut init = IndexMap::new();
    init.insert("port".to_string(), "ssh".to_string());
    let out = expand_command("iptables -p <port>", &init, "sshd", None);
    assert_eq!(out, "iptables -p ssh");
}

#[test]
fn runs_start_and_ban() {
    let mut a = Action::new("sshd", make_cfg());
    let from = ActionExecutor::start(&a, false);
    assert_eq!(run(&mut a, from, None, &[]), vec!["echo start sshd"]);
    assert!(a.started);
    let ctx = context();
    let from = ActionExecutor::ban(&a);
    assert_eq!(run(&mut a, from, Some(&ctx), &[]), vec!["echo ban 192.0.2.10"]);
    let from = ActionExecutor::stop(&a);
    assert_eq!(run(&mut a, from, None, &[]), vec!["echo stop"]);
    assert!(!a.started);
}

#[test]
fn expands_what_is_known_of_a_ban() {
    let mut ctx = context();
    ctx.user = Some("root".to_string());
    ctx.failures = 7;
    ctx.matches = vec!["a".to_string(), "b".to_string()];
    let none: IndexMap<String, String> = IndexMap::new();
    let out = expand_command(
        "<ip-family> <bantime> <F-USER> <failures> <jail> <ip-host> <fid> <F-ALT_USER>",
        &none,
        "sshd",
        Some(&ctx),
    );
    assert_eq!(out, "inet4 3600 root 7 sshd 192.0.2.10 192.0.2.10 <F-ALT_USER>");
    assert_eq!(expand_command("<matches>", &none, "sshd", Some(&ctx)), "a\nb");
    ctx.bantime = None;
    assert_eq!(expand_command("<bantime>", &none, "sshd", Some(&ctx)), "<bantime>");
}

#[test]
fn an_unknown_tag_stays() {
    let none: IndexMap<String, String> = IndexMap::new();
    assert_eq!(expand_command("a <what> b", &none, "sshd", None), "a <what> b");
    assert_eq!(expand_command("a < b", &none, "sshd", None), "a < b");
    assert_eq!(expand_command("plain", &none, "sshd", None), "plain");
    assert_eq!(expand_command("", &none, "sshd", None), "");
}

#[test]
fn a_command_is_split_into_words() {
    let none: IndexMap<String, String> = IndexMap::new();
    let w = plan_command("fw add 'a b' <name>", &none, "sshd", None).unwrap();
    assert_eq!(w, vec!["fw", "add", "a b", "sshd"]);
    let e = plan_command("fw 'open <name>", &none, "sshd", None).unwrap_err();
    assert_eq!(e.message(), "action error: invalid command line: fw 'open sshd");
    let e = command_words("x '", None).unwrap_err();
    assert_eq!(e.message(), "action error: invalid command line: x '");
}

#[test]
fn commands_are_judged() {
    assert!(judge_command(
        "fw",
        Ran::Exited { success: true, code: Some(0), stderr: "warn".to_string() },
        5
    )
    .is_ok());
    let told = |ran: Ran| judge_command("fw", ran, 5).unwrap_err().message();
    assert_eq!(
        told(Ran::Exited { success: false, code: Some(3), stderr: " no rule\n".to_string() }),
        "action error: command \"fw\" exited with Some(3): no rule"
    );
    assert_eq!(
        told(Ran::Exited { success: false, code: None, stderr: String::new() }),
        "action error: command \"fw\" exited with None: "
    );
    assert_eq!(told(Ran::TimedOut), "action error: command \"fw\" timed out after 5s");
    assert_eq!(
        told(Ran::NotStarted("gone".to_string())),
        "action error: spawning \"fw\": gone"
    );
    assert_eq!(
        told(Ran::NotAwaited("lost".to_string())),
        "action error: waiting for \"fw\": lost"
    );
}

fn checked() -> Action {
    let mut cfg = make_cfg();
    cfg.actioncheck = Some("check".to_string());
    cfg.actionrepair = Some("repair".to_string());
    Action::new("sshd", cfg)
}

#[test]
fn a_ban_is_preceded_by_a_check() {
    let ctx = context();
    let mut a = checked();
    let from = ActionExecutor::check();
    assert_eq!(run(&mut a, from, Some(&ctx), &[]), vec!["check", "echo ban 192.0.2.10"]);
}

#[test]
fn a_failed_check_is_repaired_once() {
    let ctx = context();
    let mut a = checked();
    let from = ActionExecutor::check();
    assert_eq!(run(&mut a, from, Some(&ctx), &["check"]), vec!["check", "repair", "check"]);
    let mut a = checked();
    assert_eq!(run(&mut a, from, Some(&ctx), &["check", "repair"]), vec!["check", "repair"]);
}

#[test]
fn a_repair_that_helps_is_followed_by_the_ban() {
    let ctx = context();
    let mut a = checked();
    let (at, _) = ActionExecutor::next(&mut a, Phase::Check, Some(&ctx));
    assert_eq!(ActionExecutor::report(&mut a, at, false), Phase::Repair);
    assert_eq!(
        run(&mut a, Phase::Repair, Some(&ctx), &[]),
        vec!["repair", "check", "echo ban 192.0.2.10"]
    );
}

#[test]
fn an_action_can_wait_for_its_first_ban() {
    let ctx = context();
    let mut cfg = make_cfg();
    cfg.actionstart_on_demand = true;
    let mut a = Action::new("sshd", cfg);
    let from = ActionExecutor::start(&a, false);
    assert_eq!(from, Phase::Done);
    let from = ActionExecutor::ban(&a);
    assert_eq!(
        run(&mut a, from, Some(&ctx), &[]),
        vec!["echo start sshd", "echo ban 192.0.2.10"]
    );
    assert!(a.started);
    let from = ActionExecutor::ban(&a);
    assert_eq!(run(&mut a, from, Some(&ctx), &[]), vec!["echo ban 192.0.2.10"]);
}

#[test]
fn a_stopped_action_is_not_stopped_again() {
    let a = Action::new("sshd", make_cfg());
    assert_eq!(ActionExecutor::stop(&a), Phase::Done);
    assert_eq!(ActionExecutor::start(&a, true), Phase::Start);
}

#[test]
fn the_other_commands_run_alone() {
    let ctx = context();
    let mut a = checked();
    assert_eq!(run(&mut a, ActionExecutor::unban(), Some(&ctx), &[]), vec!["echo unban 192.0.2.10"]);
    assert_eq!(run(&mut a, ActionExecutor::flush(), None, &[]), Vec::<String>::new());
    assert_eq!(run(&mut a, ActionExecutor::repair(), Some(&ctx), &["repair"]), vec!["repair"]);
    assert_eq!(ActionExecutor::check(), Phase::Check);
}
