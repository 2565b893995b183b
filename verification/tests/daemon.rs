use std::time::Duration;

use xcvrd::daemon::{
    after_stage, decide_run_action, is_fast_reboot_enabled, join_step, next_stage, relaunch_args,
    serve_outcome, start_plan, Args, ArgsParse, JoinStep, RunAction, ServeOutcome, ServeStep, Stage,
    HARD_SHUTDOWN_GRACE, SFP_SYSTEM_ERROR, SHUTDOWN_JOIN_GRACE,
};
use xcvrd::env::{
    after_probe, redis_sock, warm_attempts, ProbeNext, APPL_DB, CONFIG_DB, STATE_DB,
};

fn texts(argv: &[&str]) -> Vec<String> {
    argv.iter().map(|s| s.to_string()).collect()
}

fn parse(argv: &[&str]) -> ArgsParse {
    Args::parse(&texts(argv))
}

fn parsed(argv: &[&str]) -> Args {
    match parse(argv) {
        ArgsParse::Parsed(a) => a,
        other => panic!("expected Parsed, got {other:?}"),
    }
}

#[test]
fn args_default_when_empty() {
    assert_eq!(parsed(&[]), Args::default());
    assert!(!parsed(&[]).skip_cmis_mgr);
    assert!(!parsed(&[]).enable_sff_mgr);
    assert_eq!(parsed(&[]).dom_temperature_poll_interval, None);
    assert_eq!(parsed(&[]).dom_update_interval, None);
}

#[test]
fn args_store_true_flags() {
    assert!(parsed(&["--skip_cmis_mgr"]).skip_cmis_mgr);
    assert!(parsed(&["--enable_sff_mgr"]).enable_sff_mgr);
    let a = parsed(&["--skip_cmis_mgr", "--enable_sff_mgr"]);
    assert!(a.skip_cmis_mgr && a.enable_sff_mgr);
}

#[test]
fn args_int_options_both_forms() {
    assert_eq!(parsed(&["--dom_update_interval", "30"]).dom_update_interval, Some(30));
    assert_eq!(parsed(&["--dom_update_interval=45"]).dom_update_interval, Some(45));
    assert_eq!(
        parsed(&["--dom_temperature_poll_interval", "5"]).dom_temperature_poll_interval,
        Some(5)
    );
    assert_eq!(
        parsed(&["--dom_temperature_poll_interval=7"]).dom_temperature_poll_interval,
        Some(7)
    );
    // 0 is a value, distinct from none at all.
    assert_eq!(parsed(&["--dom_update_interval", "0"]).dom_update_interval, Some(0));
    // A negative number is one too.
    assert_eq!(parsed(&["--dom_update_interval", "-5"]).dom_update_interval, Some(-5));
}

#[test]
fn args_full_launch_line() {
    let a = parsed(&[
        "--skip_cmis_mgr",
        "--enable_sff_mgr",
        "--dom_temperature_poll_interval",
        "10",
        "--dom_update_interval",
        "120",
    ]);
    assert_eq!(
        a,
        Args {
            skip_cmis_mgr: true,
            enable_sff_mgr: true,
            dom_temperature_poll_interval: Some(10),
            dom_update_interval: Some(120),
        }
    );
}

#[test]
fn args_usage_errors() {
    assert!(matches!(parse(&["--dom_update_interval", "abc"]), ArgsParse::Error(_)));
    assert!(matches!(parse(&["--dom_update_interval=abc"]), ArgsParse::Error(_)));
    assert!(matches!(parse(&["--dom_update_interval"]), ArgsParse::Error(_)));
    assert!(matches!(parse(&["--bogus"]), ArgsParse::Error(_)));
    assert!(matches!(parse(&["Ethernet0"]), ArgsParse::Error(_)));
}

#[test]
fn args_help_flag() {
    assert!(matches!(parse(&["-h"]), ArgsParse::Help));
    assert!(matches!(parse(&["--help"]), ArgsParse::Help));
}

#[test]
fn graceful_shutdown_exits_zero() {
    let r: Result<ServeOutcome, String> = Ok(ServeOutcome::Shutdown);
    assert_eq!(decide_run_action(&r, false), RunAction::Exit(0));
    // Whether a stop was asked for makes no difference after a clean run.
    assert_eq!(decide_run_action(&r, true), RunAction::Exit(0));
}

#[test]
fn sfp_system_error_exits_nonzero() {
    let r: Result<ServeOutcome, String> = Ok(ServeOutcome::SfpSystemError);
    assert_eq!(decide_run_action(&r, false), RunAction::Exit(SFP_SYSTEM_ERROR));
    assert_eq!(SFP_SYSTEM_ERROR, 4);
}

#[test]
fn setup_error_retries_when_no_shutdown() {
    let r: Result<ServeOutcome, String> = Err("redis not ready".into());
    assert_eq!(decide_run_action(&r, false), RunAction::Retry);
}

#[test]
fn setup_error_exits_when_shutdown_requested() {
    let r: Result<ServeOutcome, String> = Err("redis not ready".into());
    assert_eq!(decide_run_action(&r, true), RunAction::Exit(0));
}

#[test]
fn shutdown_budgets_stay_within_supervisor_stopwaitsecs() {
    assert!(Duration::from_secs(SHUTDOWN_JOIN_GRACE) < Duration::from_secs(HARD_SHUTDOWN_GRACE));
    assert!(Duration::from_secs(HARD_SHUTDOWN_GRACE) < Duration::from_secs(10));
}

#[test]
fn usage_errors_say_what_is_wrong() {
    assert_eq!(
        parse(&["--dom_update_interval"]),
        ArgsParse::Error("argument --dom_update_interval: expected one argument".into())
    );
    assert_eq!(
        parse(&["--dom_update_interval=abc"]),
        ArgsParse::Error("argument --dom_update_interval: invalid int value: 'abc'".into())
    );
    assert_eq!(
        parse(&["--bogus"]),
        ArgsParse::Error("unrecognized arguments: --bogus".into())
    );
}

#[test]
fn number_in_blanks_is_read() {
    assert_eq!(parsed(&["--dom_update_interval= 12 "]).dom_update_interval, Some(12));
    assert_eq!(parsed(&["--dom_update_interval=+3"]).dom_update_interval, Some(3));
}

#[test]
fn first_wrong_argument_decides() {
    assert!(matches!(parse(&["--bogus", "--help"]), ArgsParse::Error(_)));
    assert!(matches!(parse(&["--help", "--bogus"]), ArgsParse::Help));
}

#[test]
fn outcome_names_the_cause() {
    assert_eq!(serve_outcome(true), ServeOutcome::SfpSystemError);
    assert_eq!(serve_outcome(false), ServeOutcome::Shutdown);
}

#[test]
fn waiting_for_a_task_ends_at_the_deadline() {
    assert_eq!(join_step(false, 10, 20), JoinStep::Wait);
    assert_eq!(join_step(false, 20, 20), JoinStep::GaveUp);
    assert_eq!(join_step(true, 30, 20), JoinStep::Joined);
}

#[test]
fn relaunch_adds_the_flag_once() {
    let first = relaunch_args(&texts(&["xcvrd", "--skip_cmis_mgr"]));
    assert!(first.is_some());
    let again: Vec<String> =
        ["xcvrd".to_string()].into_iter().chain(first.unwrap()).collect();
    assert!(again.iter().any(|a| a == "--enable_sff_mgr"));
    assert_eq!(relaunch_args(&again), None);
}

#[test]
fn tasks_are_started_as_the_command_line_says() {
    let plan = start_plan(&parsed(&[]));
    assert!(plan.thermal_secs.is_none() && !plan.sff && plan.cmis);
    let plan = start_plan(&parsed(&[
        "--skip_cmis_mgr",
        "--enable_sff_mgr",
        "--dom_temperature_poll_interval=5",
    ]));
    assert_eq!(plan.thermal_secs, Some(5));
    assert!(plan.sff && !plan.cmis);
}

#[test]
fn databases_have_their_numbers() {
    assert_eq!((APPL_DB, CONFIG_DB, STATE_DB), (0, 4, 6));
}

#[test]
fn socket_has_a_default() {
    assert_eq!(redis_sock(None), "/var/run/redis/redis.sock");
    assert_eq!(redis_sock(Some("/tmp/r.sock".to_string())), "/tmp/r.sock");
}

#[test]
fn attempts_have_a_default() {
    assert_eq!(warm_attempts(&None), 100);
    assert_eq!(warm_attempts(&Some("7".to_string())), 7);
    assert_eq!(warm_attempts(&Some("many".to_string())), 100);
}

#[test]
fn probing_goes_on_until_the_attempts_are_used_up() {
    let failure = || Some("refused".to_string());
    let step = after_probe(1, 3, failure(), None);
    assert!(matches!(step.next, ProbeNext::Again));
    let step = after_probe(3, 3, failure(), None);
    assert!(matches!(step.next, ProbeNext::GiveUp));
    let step = after_probe(2, 3, None, None);
    assert!(matches!(step.next, ProbeNext::Ready));
}

fn stages(argv: &[&str], fast_reboot: bool) -> Vec<Stage> {
    let plan = start_plan(&parsed(argv));
    let mut all = vec![Stage::OpenPlatform];
    while let Some(s) = next_stage(*all.last().unwrap(), &plan, fast_reboot) {
        all.push(s);
    }
    all
}

#[test]
fn daemon_goes_through_its_stages() {
    let all = stages(&["--enable_sff_mgr", "--dom_temperature_poll_interval=5"], false);
    assert_eq!(all.len(), 22);
    assert_eq!(all.last(), Some(&Stage::Teardown));

    let few = stages(&["--skip_cmis_mgr"], true);
    for s in [
        Stage::LoadSettings,
        Stage::StartSff,
        Stage::JoinSff,
        Stage::StartCmis,
        Stage::JoinCmis,
        Stage::StartThermal,
        Stage::JoinThermal,
    ] {
        assert!(!few.contains(&s), "{s:?}");
    }
    assert_eq!(few.len(), 15);
    assert!(!stages(&["--dom_temperature_poll_interval=-1"], false).contains(&Stage::StartThermal));
}

#[test]
fn setup_that_fails_is_reported() {
    let plan = start_plan(&parsed(&[]));
    assert_eq!(after_stage(Stage::MapPorts, true, &plan, false), ServeStep::Failed);
    assert_eq!(
        after_stage(Stage::MapPorts, false, &plan, false),
        ServeStep::Go(Stage::PurgeStale)
    );
    assert_eq!(
        after_stage(Stage::Watch, true, &plan, false),
        ServeStep::Go(Stage::RaiseStop)
    );
    assert_eq!(after_stage(Stage::Teardown, false, &plan, false), ServeStep::Ended);
}

#[test]
fn fast_reboot_is_enabled_by_its_row() {
    let row = |v: &str| vec![("enable".to_string(), v.to_string())];
    assert!(is_fast_reboot_enabled(&row("true")));
    assert!(!is_fast_reboot_enabled(&row("false")));
    assert!(!is_fast_reboot_enabled(&vec![]));
    assert!(!is_fast_reboot_enabled(&vec![("other".to_string(), "true".to_string())]));
}
