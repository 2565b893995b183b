//! How the daemon is launched, what it starts and how it ends.

use vstd::prelude::*;

use crate::db::first_value;
use crate::json::{row_of, Fvs};
use crate::port::value_in;
use crate::text::{
    join, occurs_at, owned, parse_i64, parsed_i64, str_eq, strip_prefix, trim, trimmed,
};

verus! {

// ---- the end ----

/// The exit code after an error of the module state machine.
pub const SFP_SYSTEM_ERROR: i32 = 4;

/// How long the end waits for the tasks, in seconds.
pub const SHUTDOWN_JOIN_GRACE: u64 = 2;

/// How long after a stop signal the daemon is ended by force, in seconds.
pub const HARD_SHUTDOWN_GRACE: u64 = 6;

/// How long the supervisor waits after a stop signal before it kills the daemon,
/// in seconds.
pub const STOP_WAIT_SECS: u64 = 10;

/// The daemon waits for its tasks for less time than it gives itself, and gives
/// itself less than the supervisor gives it.
pub proof fn shutdown_budgets_are_nested()
    ensures
        SHUTDOWN_JOIN_GRACE < HARD_SHUTDOWN_GRACE < STOP_WAIT_SECS,
{
}

/// Why the daemon has ended.
#[derive(Clone, Copy, Debug, PartialEq, Eq, Structural)]
pub enum ServeOutcome {
    /// It was asked to stop.
    Shutdown,
    /// The module state machine gave up.
    SfpSystemError,
}

/// What follows the end.
#[derive(Clone, Copy, Debug, PartialEq, Eq, Structural)]
pub enum RunAction {
    /// Exit with this code.
    Exit(i32),
    /// Start again.
    Retry,
}

/// Why the daemon has ended, by whether the module state machine gave up.
pub fn serve_outcome(sfp_error: bool) -> (r: ServeOutcome)
    ensures
        r == (if sfp_error {
            ServeOutcome::SfpSystemError
        } else {
            ServeOutcome::Shutdown
        }),
{
    if sfp_error {
        ServeOutcome::SfpSystemError
    } else {
        ServeOutcome::Shutdown
    }
}

/// What follows: a daemon that ran exits; one that could not be set up is
/// started again, unless a stop has been asked for.
pub open spec fn run_action(
    result: Result<ServeOutcome, String>,
    shutdown_requested: bool,
) -> RunAction {
    match result {
        Ok(ServeOutcome::Shutdown) => RunAction::Exit(0),
        Ok(ServeOutcome::SfpSystemError) => RunAction::Exit(SFP_SYSTEM_ERROR),
        Err(_) => if shutdown_requested {
            RunAction::Exit(0)
        } else {
            RunAction::Retry
        },
    }
}

/// What follows the end of the daemon.
pub fn decide_run_action(
    result: &Result<ServeOutcome, String>,
    shutdown_requested: bool,
) -> (r: RunAction)
    ensures
        r == run_action(*result, shutdown_requested),
{
    match result {
        Ok(ServeOutcome::Shutdown) => RunAction::Exit(0),
        Ok(ServeOutcome::SfpSystemError) => RunAction::Exit(SFP_SYSTEM_ERROR),
        Err(_) => if shutdown_requested {
            RunAction::Exit(0)
        } else {
            RunAction::Retry
        },
    }
}

/// A daemon that ran is never started again in the same process.
pub proof fn daemon_that_ran_exits(outcome: ServeOutcome, shutdown_requested: bool)
    ensures
        run_action(Ok(outcome), shutdown_requested) is Exit,
{
}

/// Once a stop has been asked for, the daemon exits whatever happened.
pub proof fn stop_always_exits(result: Result<ServeOutcome, String>)
    ensures
        run_action(result, true) is Exit,
{
}

/// What to do while waiting for a task.
#[derive(Clone, Copy, Debug, PartialEq, Eq, Structural)]
pub enum JoinStep {
    /// The task has ended.
    Joined,
    /// The time is up.
    GaveUp,
    /// Wait a little and look again.
    Wait,
}

/// What to do while waiting for a task until `deadline`. Both times are in
/// milliseconds of one clock.
pub fn join_step(finished: bool, now: u64, deadline: u64) -> (r: JoinStep)
    ensures
        r == (if finished {
            JoinStep::Joined
        } else if now >= deadline {
            JoinStep::GaveUp
        } else {
            JoinStep::Wait
        }),
{
    if finished {
        JoinStep::Joined
    } else if now >= deadline {
        JoinStep::GaveUp
    } else {
        JoinStep::Wait
    }
}

// ---- the command line ----

/// The command line.
#[derive(Clone, Copy, Debug, PartialEq)]
pub struct Args {
    /// Do not start the CMIS manager.
    pub skip_cmis_mgr: bool,
    /// Start the SFF manager.
    pub enable_sff_mgr: bool,
    /// The period of the temperature task in seconds; the task is started only
    /// where it is given.
    pub dom_temperature_poll_interval: Option<i64>,
    /// The period of the monitoring task in seconds.
    pub dom_update_interval: Option<i64>,
}

/// The empty command line.
pub open spec fn no_args() -> Args {
    Args {
        skip_cmis_mgr: false,
        enable_sff_mgr: false,
        dom_temperature_poll_interval: None,
        dom_update_interval: None,
    }
}

impl Default for Args {
    fn default() -> (a: Self)
        ensures
            a == no_args(),
    {
        Args {
            skip_cmis_mgr: false,
            enable_sff_mgr: false,
            dom_temperature_poll_interval: None,
            dom_update_interval: None,
        }
    }
}

/// What a command line comes to.
#[derive(Debug, PartialEq)]
pub enum ArgsParse {
    Parsed(Args),
    Help,
    Error(String),
}

/// [`ArgsParse`] as contracts see it.
pub enum ParseView {
    Parsed(Args),
    Help,
    Error(Seq<char>),
}

impl View for ArgsParse {
    type V = ParseView;

    open spec fn view(&self) -> ParseView {
        match *self {
            ArgsParse::Parsed(a) => ParseView::Parsed(a),
            ArgsParse::Help => ParseView::Help,
            ArgsParse::Error(s) => ParseView::Error(s@),
        }
    }
}

/// Whether an argument is the option `name`, and the value that follows an equal
/// sign in it.
pub open spec fn option_of(arg: Seq<char>, name: Seq<char>) -> Option<Option<Seq<char>>> {
    if arg == name {
        Some(None)
    } else if occurs_at(arg, name, 0) && occurs_at(arg.skip(name.len() as int), "="@, 0) {
        Some(Some(arg.skip(name.len() as int).skip(1)))
    } else {
        None
    }
}

/// What a command line comes to whose first arguments came to `out`.
pub open spec fn parsed_args(argv: Seq<Seq<char>>, out: Args) -> ParseView
    decreases argv.len(),
{
    if argv.len() == 0 {
        ParseView::Parsed(out)
    } else {
        let arg = argv[0];
        let rest = argv.skip(1);
        if arg == "-h"@ || arg == "--help"@ {
            ParseView::Help
        } else if arg == "--skip_cmis_mgr"@ {
            parsed_args(rest, Args { skip_cmis_mgr: true, ..out })
        } else if arg == "--enable_sff_mgr"@ {
            parsed_args(rest, Args { enable_sff_mgr: true, ..out })
        } else if option_of(arg, "--dom_temperature_poll_interval"@) is Some {
            let name = "--dom_temperature_poll_interval"@;
            match option_value(name, option_of(arg, name)->0, rest) {
                Ok((n, k)) => parsed_args(
                    rest.skip(k as int),
                    Args { dom_temperature_poll_interval: Some(n), ..out },
                ),
                Err(e) => ParseView::Error(e),
            }
        } else if option_of(arg, "--dom_update_interval"@) is Some {
            let name = "--dom_update_interval"@;
            match option_value(name, option_of(arg, name)->0, rest) {
                Ok((n, k)) => parsed_args(
                    rest.skip(k as int),
                    Args { dom_update_interval: Some(n), ..out },
                ),
                Err(e) => ParseView::Error(e),
            }
        } else {
            ParseView::Error("unrecognized arguments: "@ + arg)
        }
    }
}

/// The value of option `name` and the number of arguments after the option that
/// it takes up, or what is wrong.
pub open spec fn option_value(
    name: Seq<char>,
    inline: Option<Seq<char>>,
    rest: Seq<Seq<char>>,
) -> Result<(i64, nat), Seq<char>> {
    match inline {
        Some(v) => match parsed_i64(trimmed(v)) {
            Some(n) => Ok((n, 0)),
            None => Err(invalid_value(name, v)),
        },
        None => if rest.len() == 0 {
            Err("argument "@ + name + ": expected one argument"@)
        } else {
            match parsed_i64(trimmed(rest[0])) {
                Some(n) => Ok((n, 1)),
                None => Err(invalid_value(name, rest[0])),
            }
        },
    }
}

/// What is said of a value that is no integer.
pub open spec fn invalid_value(name: Seq<char>, v: Seq<char>) -> Seq<char> {
    "argument "@ + name + ": invalid int value: '"@ + v + "'"@
}

/// The texts of a list of arguments.
pub open spec fn arg_texts(argv: Seq<String>) -> Seq<Seq<char>> {
    argv.map_values(|s: String| s@)
}

fn int_option(arg: &str, name: &str) -> (r: Option<Option<String>>)
    ensures
        match r {
            Some(Some(v)) => option_of(arg@, name@) == Some(Some(v@)),
            Some(None) => option_of(arg@, name@) == Some(None::<Seq<char>>),
            None => option_of(arg@, name@) is None,
        },
{
    if str_eq(arg, name) {
        return Some(None);
    }
    proof {
        reveal_strlit("=");
    }
    match strip_prefix(arg, name) {
        Some(rest) => match strip_prefix(rest.as_str(), "=") {
            Some(v) => Some(Some(v)),
            None => None,
        },
        None => None,
    }
}

fn resolve_int(
    name: &str,
    inline: Option<String>,
    argv: &Vec<String>,
    from: usize,
) -> (r: Result<(i64, usize), String>)
    requires
        from <= argv@.len(),
    ensures
        ({
            let want = option_value(
                name@,
                match inline {
                    Some(v) => Some(v@),
                    None => None,
                },
                arg_texts(argv@).skip(from as int),
            );
            match r {
                Ok((n, k)) => want == Ok::<(i64, nat), Seq<char>>((n, k as nat)) && from + k
                    <= argv@.len(),
                Err(e) => want == Err::<(i64, nat), Seq<char>>(e@),
            }
        }),
{
    let taken: usize;
    let raw: String;
    match inline {
        Some(v) => {
            taken = 0;
            raw = v;
        },
        None => {
            if from == argv.len() {
                return Err(
                    join(join("argument ", name).as_str(), ": expected one argument"),
                );
            }
            assert(arg_texts(argv@).skip(from as int)[0] == argv@[from as int]@);
            taken = 1;
            raw = argv[from].clone();
        },
    }
    match parse_i64(trim(raw.as_str()).as_str()) {
        Some(n) => Ok((n, taken)),
        None => {
            let head = join(join("argument ", name).as_str(), ": invalid int value: '");
            Err(join(join(head.as_str(), raw.as_str()).as_str(), "'"))
        },
    }
}

impl Args {
    /// Parses a command line, without the name of the program.
    pub fn parse(argv: &Vec<String>) -> (r: ArgsParse)
        ensures
            r@ == parsed_args(arg_texts(argv@), no_args()),
    {
        let ghost all = arg_texts(argv@);
        let mut out = Args::default();
        let mut i: usize = 0;
        assert(all.skip(0) =~= all);
        while i < argv.len()
            invariant
                i <= argv@.len(),
                all == arg_texts(argv@),
                parsed_args(all, no_args()) == parsed_args(all.skip(i as int), out),
            decreases argv.len() - i,
        {
            let arg = argv[i].as_str();
            assert(all.skip(i as int)[0] == arg@);
            assert(all.skip(i as int).skip(1) =~= all.skip(i + 1));
            i += 1;
            if str_eq(arg, "-h") || str_eq(arg, "--help") {
                return ArgsParse::Help;
            } else if str_eq(arg, "--skip_cmis_mgr") {
                out = Args { skip_cmis_mgr: true, ..out };
            } else if str_eq(arg, "--enable_sff_mgr") {
                out = Args { enable_sff_mgr: true, ..out };
            } else {
                match int_option(arg, "--dom_temperature_poll_interval") {
                    Some(inline) => {
                        match resolve_int("--dom_temperature_poll_interval", inline, argv, i) {
                            Ok((n, k)) => {
                                assert(all.skip(i as int).skip(k as int) =~= all.skip(i + k));
                                out = Args { dom_temperature_poll_interval: Some(n), ..out };
                                i += k;
                            },
                            Err(e) => {
                                return ArgsParse::Error(e);
                            },
                        }
                    },
                    None => {
                        match int_option(arg, "--dom_update_interval") {
                            Some(inline) => {
                                match resolve_int("--dom_update_interval", inline, argv, i) {
                                    Ok((n, k)) => {
                                        assert(all.skip(i as int).skip(k as int) =~= all.skip(
                                            i + k,
                                        ));
                                        out = Args { dom_update_interval: Some(n), ..out };
                                        i += k;
                                    },
                                    Err(e) => {
                                        return ArgsParse::Error(e);
                                    },
                                }
                            },
                            None => {
                                return ArgsParse::Error(join("unrecognized arguments: ", arg));
                            },
                        }
                    },
                }
            }
        }
        ArgsParse::Parsed(out)
    }
}

/// The arguments of a command line with the name of the program, with the flag
/// that starts the SFF manager added; `None` where the flag is already there.
pub open spec fn relaunch(argv: Seq<Seq<char>>) -> Option<Seq<Seq<char>>> {
    if argv.contains("--enable_sff_mgr"@) {
        None
    } else {
        Some(
            if argv.len() > 0 {
                argv.skip(1)
            } else {
                argv
            }.push("--enable_sff_mgr"@),
        )
    }
}

/// The arguments to launch the program with again so that the SFF manager is
/// started; `None` where it needs no new launch.
pub fn relaunch_args(argv: &Vec<String>) -> (r: Option<Vec<String>>)
    ensures
        match r {
            Some(v) => relaunch(arg_texts(argv@)) == Some(arg_texts(v@)),
            None => relaunch(arg_texts(argv@)) is None,
        },
{
    let ghost all = arg_texts(argv@);
    let mut v: Vec<String> = Vec::new();
    let mut i: usize = 0;
    assert(arg_texts(v@) =~= all.take(0));
    while i < argv.len()
        invariant
            i <= argv@.len(),
            all == arg_texts(argv@),
            forall|j: int| 0 <= j < i ==> #[trigger] all[j] != "--enable_sff_mgr"@,
            arg_texts(v@) == (if i == 0 {
                all.take(0)
            } else {
                all.subrange(1, i as int)
            }),
        decreases argv.len() - i,
    {
        assert(all[i as int] == argv@[i as int]@);
        if str_eq(argv[i].as_str(), "--enable_sff_mgr") {
            return None;
        }
        if i > 0 {
            let ghost before = v@;
            v.push(argv[i].clone());
            assert(arg_texts(v@) =~= arg_texts(before).push(all[i as int]));
        }
        i += 1;
        assert(i > 1 ==> all.subrange(1, i as int) =~= all.subrange(1, i - 1).push(all[i - 1]));
        assert(i == 1 ==> all.subrange(1, 1) =~= all.take(0));
    }
    let ghost before = v@;
    v.push(owned("--enable_sff_mgr"));
    assert(arg_texts(v@) =~= arg_texts(before).push("--enable_sff_mgr"@));
    assert(all.len() > 0 ==> all.subrange(1, all.len() as int) =~= all.skip(1));
    assert(all.len() == 0 ==> all.take(0) =~= all);
    Some(v)
}

/// The program is launched again at most once.
pub proof fn relaunch_happens_once(argv: Seq<Seq<char>>, program: Seq<char>)
    requires
        relaunch(argv) is Some,
    ensures
        relaunch(seq![program] + relaunch(argv)->0) is None,
{
    let next = seq![program] + relaunch(argv)->0;
    assert(next.last() == "--enable_sff_mgr"@);
    assert(next.contains("--enable_sff_mgr"@));
}

// ---- the start ----

/// What the daemon starts besides the monitoring and the module state machine.
pub struct StartPlan {
    /// The period of the temperature task in seconds, where it is started.
    pub thermal_secs: Option<u64>,
    /// Whether the SFF manager is started.
    pub sff: bool,
    /// Whether the CMIS manager is started.
    pub cmis: bool,
}

/// What the daemon starts with a command line. A negative period of the
/// temperature task counts as none.
pub fn start_plan(args: &Args) -> (p: StartPlan)
    ensures
        p.thermal_secs == (match args.dom_temperature_poll_interval {
            Some(n) if n >= 0 => Some(n as u64),
            _ => None,
        }),
        p.sff == args.enable_sff_mgr,
        p.cmis == !args.skip_cmis_mgr,
        forall|fast_reboot: bool|
            {
                &&& #[trigger] takes_part(Stage::StartSff, p, fast_reboot) == args.enable_sff_mgr
                &&& takes_part(Stage::StartCmis, p, fast_reboot) == !args.skip_cmis_mgr
                &&& takes_part(Stage::StartThermal, p, fast_reboot) == (
                args.dom_temperature_poll_interval matches Some(n) && n >= 0)
            },
{
    StartPlan {
        thermal_secs: match args.dom_temperature_poll_interval {
            Some(n) => if n >= 0 {
                Some(n as u64)
            } else {
                None
            },
            None => None,
        },
        sff: args.enable_sff_mgr,
        cmis: !args.skip_cmis_mgr,
    }
}

/// Whether the row of the fast restart table says that the switch was rebooted
/// with its traffic kept up.
pub fn is_fast_reboot_enabled(row: &Fvs) -> (r: bool)
    ensures
        r == (first_value(row_of(row@), "enable"@) == Some("true"@)),
{
    match value_in(row, "enable") {
        Some(s) => str_eq(s.as_str(), "true"),
        None => false,
    }
}

/// What the daemon does between its start and its end, each of it once.
#[derive(Clone, Copy, Debug, PartialEq, Eq, Structural)]
pub enum Stage {
    /// Open the platform plugin.
    OpenPlatform,
    /// Open the tables of the databases.
    OpenTables,
    /// Open the configuration.
    OpenConfig,
    /// Ask the platform for the number of slots.
    CountSlots,
    /// Wait until the ports are configured.
    AwaitPorts,
    /// Read which port sits on which slot.
    MapPorts,
    /// Drop the identity of modules that are gone.
    PurgeStale,
    /// Start what passes a stop signal on to the tasks.
    StartWatcher,
    /// Load the settings of media and optics.
    LoadSettings,
    /// Start the SFF manager.
    StartSff,
    /// Publish the modules that are there.
    Publish,
    /// Start the monitoring task.
    StartDom,
    /// Start the CMIS manager.
    StartCmis,
    /// Start the temperature task.
    StartThermal,
    /// Serve plugged and pulled modules until the stop.
    Watch,
    /// Tell all tasks to stop.
    RaiseStop,
    /// Wait for the monitoring task.
    JoinDom,
    /// Wait for the CMIS manager.
    JoinCmis,
    /// Wait for the temperature task.
    JoinThermal,
    /// Wait for the SFF manager.
    JoinSff,
    /// Wait for what passes the stop signal on.
    JoinWatcher,
    /// Take back what is published.
    Teardown,
}

/// The place of a stage in the order of stages.
pub open spec fn place_of(s: Stage) -> nat {
    match s {
        Stage::OpenPlatform => 0,
        Stage::OpenTables => 1,
        Stage::OpenConfig => 2,
        Stage::CountSlots => 3,
        Stage::AwaitPorts => 4,
        Stage::MapPorts => 5,
        Stage::PurgeStale => 6,
        Stage::StartWatcher => 7,
        Stage::LoadSettings => 8,
        Stage::StartSff => 9,
        Stage::Publish => 10,
        Stage::StartDom => 11,
        Stage::StartCmis => 12,
        Stage::StartThermal => 13,
        Stage::Watch => 14,
        Stage::RaiseStop => 15,
        Stage::JoinDom => 16,
        Stage::JoinCmis => 17,
        Stage::JoinThermal => 18,
        Stage::JoinSff => 19,
        Stage::JoinWatcher => 20,
        Stage::Teardown => 21,
    }
}

/// Whether a stage takes part. After a fast reboot the settings are still in
/// force and are not loaded again; a task is waited for where it was started.
pub open spec fn takes_part(s: Stage, plan: StartPlan, fast_reboot: bool) -> bool {
    match s {
        Stage::LoadSettings => !fast_reboot,
        Stage::StartSff | Stage::JoinSff => plan.sff,
        Stage::StartCmis | Stage::JoinCmis => plan.cmis,
        Stage::StartThermal | Stage::JoinThermal => plan.thermal_secs is Some,
        _ => true,
    }
}

/// Whether `next` is the first stage after `s` that takes part.
pub open spec fn follows(s: Stage, next: Stage, plan: StartPlan, fast_reboot: bool) -> bool {
    &&& place_of(s) < place_of(next)
    &&& takes_part(next, plan, fast_reboot)
    &&& forall|t: Stage|
        place_of(s) < #[trigger] place_of(t) < place_of(next) ==> !takes_part(t, plan, fast_reboot)
}

/// The stage that follows in the order of stages.
fn stage_after(s: Stage) -> (r: Option<Stage>)
    ensures
        match r {
            Some(t) => place_of(t) == place_of(s) + 1,
            None => s == Stage::Teardown,
        },
{
    match s {
        Stage::OpenPlatform => Some(Stage::OpenTables),
        Stage::OpenTables => Some(Stage::OpenConfig),
        Stage::OpenConfig => Some(Stage::CountSlots),
        Stage::CountSlots => Some(Stage::AwaitPorts),
        Stage::AwaitPorts => Some(Stage::MapPorts),
        Stage::MapPorts => Some(Stage::PurgeStale),
        Stage::PurgeStale => Some(Stage::StartWatcher),
        Stage::StartWatcher => Some(Stage::LoadSettings),
        Stage::LoadSettings => Some(Stage::StartSff),
        Stage::StartSff => Some(Stage::Publish),
        Stage::Publish => Some(Stage::StartDom),
        Stage::StartDom => Some(Stage::StartCmis),
        Stage::StartCmis => Some(Stage::StartThermal),
        Stage::StartThermal => Some(Stage::Watch),
        Stage::Watch => Some(Stage::RaiseStop),
        Stage::RaiseStop => Some(Stage::JoinDom),
        Stage::JoinDom => Some(Stage::JoinCmis),
        Stage::JoinCmis => Some(Stage::JoinThermal),
        Stage::JoinThermal => Some(Stage::JoinSff),
        Stage::JoinSff => Some(Stage::JoinWatcher),
        Stage::JoinWatcher => Some(Stage::Teardown),
        Stage::Teardown => None,
    }
}

fn has_part(s: Stage, plan: &StartPlan, fast_reboot: bool) -> (r: bool)
    ensures
        r == takes_part(s, *plan, fast_reboot),
{
    match s {
        Stage::LoadSettings => !fast_reboot,
        Stage::StartSff | Stage::JoinSff => plan.sff,
        Stage::StartCmis | Stage::JoinCmis => plan.cmis,
        Stage::StartThermal | Stage::JoinThermal => plan.thermal_secs.is_some(),
        _ => true,
    }
}

/// The first stage after `s` that takes part; `None` after the teardown.
pub fn next_stage(s: Stage, plan: &StartPlan, fast_reboot: bool) -> (r: Option<Stage>)
    ensures
        match r {
            Some(t) => follows(s, t, *plan, fast_reboot),
            None => s == Stage::Teardown,
        },
{
    let mut at = s;
    loop
        invariant
            place_of(s) <= place_of(at),
            at != s ==> s != Stage::Teardown,
            forall|t: Stage|
                place_of(s) < #[trigger] place_of(t) <= place_of(at) ==> !takes_part(
                    t,
                    *plan,
                    fast_reboot,
                ),
        decreases 21 - place_of(at),
    {
        match stage_after(at) {
            Some(t) => {
                if has_part(t, plan, fast_reboot) {
                    return Some(t);
                }
                proof {
                    assert forall|u: Stage|
                        place_of(s) < #[trigger] place_of(u) <= place_of(t) implies !takes_part(
                        u,
                        *plan,
                        fast_reboot,
                    ) by {
                        if place_of(u) == place_of(t) {
                            assert(u == t);
                        }
                    }
                }
                at = t;
            },
            None => {
                assert(takes_part(at, *plan, fast_reboot));
                return None;
            },
        }
    }
}

/// Whether the failure of a stage ends the setup with an error. What comes after
/// the tasks have been started does not fail.
pub open spec fn can_fail(s: Stage) -> bool {
    match s {
        Stage::OpenPlatform
        | Stage::OpenTables
        | Stage::OpenConfig
        | Stage::CountSlots
        | Stage::MapPorts
        | Stage::StartWatcher
        | Stage::StartSff
        | Stage::StartDom
        | Stage::StartCmis
        | Stage::StartThermal => true,
        _ => false,
    }
}

/// What follows a stage.
#[derive(Clone, Copy, Debug, PartialEq, Eq, Structural)]
pub enum ServeStep {
    /// The next stage.
    Go(Stage),
    /// The setup has failed.
    Failed,
    /// The daemon has ended.
    Ended,
}

/// What follows stage `s`, by whether it failed.
pub fn after_stage(s: Stage, failed: bool, plan: &StartPlan, fast_reboot: bool) -> (r: ServeStep)
    ensures
        match r {
            ServeStep::Failed => failed && can_fail(s),
            ServeStep::Go(t) => !(failed && can_fail(s)) && follows(s, t, *plan, fast_reboot),
            ServeStep::Ended => !(failed && can_fail(s)) && s == Stage::Teardown,
        },
{
    let fatal = match s {
        Stage::OpenPlatform
        | Stage::OpenTables
        | Stage::OpenConfig
        | Stage::CountSlots
        | Stage::MapPorts
        | Stage::StartWatcher
        | Stage::StartSff
        | Stage::StartDom
        | Stage::StartCmis
        | Stage::StartThermal => true,
        _ => false,
    };
    if failed && fatal {
        return ServeStep::Failed;
    }
    match next_stage(s, plan, fast_reboot) {
        Some(t) => ServeStep::Go(t),
        None => ServeStep::Ended,
    }
}

/// At most one stage follows another.
pub proof fn next_stage_is_unique(
    s: Stage,
    a: Stage,
    b: Stage,
    plan: StartPlan,
    fast_reboot: bool,
)
    requires
        follows(s, a, plan, fast_reboot),
        follows(s, b, plan, fast_reboot),
    ensures
        a == b,
{
    if place_of(a) < place_of(b) {
        assert(!takes_part(a, plan, fast_reboot));
    } else if place_of(b) < place_of(a) {
        assert(!takes_part(b, plan, fast_reboot));
    }
}

/// The tasks that are waited for are those that were started, and they are told
/// to stop in between.
pub proof fn started_tasks_are_waited_for(plan: StartPlan, fast_reboot: bool)
    ensures
        takes_part(Stage::StartSff, plan, fast_reboot) == takes_part(Stage::JoinSff, plan, fast_reboot),
        takes_part(Stage::StartCmis, plan, fast_reboot) == takes_part(
            Stage::JoinCmis,
            plan,
            fast_reboot,
        ),
        takes_part(Stage::StartThermal, plan, fast_reboot) == takes_part(
            Stage::JoinThermal,
            plan,
            fast_reboot,
        ),
        place_of(Stage::StartSff) < place_of(Stage::RaiseStop) < place_of(Stage::JoinSff),
        place_of(Stage::StartDom) < place_of(Stage::RaiseStop) < place_of(Stage::JoinDom),
        place_of(Stage::StartCmis) < place_of(Stage::RaiseStop) < place_of(Stage::JoinCmis),
        place_of(Stage::StartThermal) < place_of(Stage::RaiseStop) < place_of(Stage::JoinThermal),
{
}

/// The teardown takes part in every run and comes after everything else.
pub proof fn teardown_comes_last(s: Stage, plan: StartPlan, fast_reboot: bool)
    ensures
        takes_part(Stage::Teardown, plan, fast_reboot),
        s != Stage::Teardown ==> place_of(s) < place_of(Stage::Teardown),
{
}

} // verus!
