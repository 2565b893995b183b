//! What the command line, the order of stages and the end of the daemon are for.

use vstd::prelude::*;

use crate::daemon::{
    can_fail, no_args, option_of, option_value, parsed_args, place_of, relaunch, run_action,
    takes_part, Args, ParseView, RunAction, ServeOutcome, Stage, StartPlan,
};
use crate::text::{
    decimal_reads_back, is_digit, is_space, occurs_at, parsed_i64, signed_decimal,
    signed_decimal_parses_back, trimmed,
};
use crate::text_laws::trimmed_text_stays;

verus! {

// ---- the end ----

/// A daemon that was asked to stop exits with 0, and one whose module state machine
/// gave up with 4. One that could not be set up is started again, unless it was
/// asked to stop.
pub proof fn end_has_its_code(e: String, stop: bool)
    ensures
        run_action(Ok(ServeOutcome::Shutdown), stop) == RunAction::Exit(0),
        run_action(Ok(ServeOutcome::SfpSystemError), stop) == RunAction::Exit(4),
        run_action(Err(e), true) == RunAction::Exit(0),
        run_action(Err(e), false) == RunAction::Retry,
{
}

// ---- the command line ----

/// Whether a text is no option that the daemon knows.
pub open spec fn unknown(arg: Seq<char>) -> bool {
    &&& arg != "-h"@
    &&& arg != "--help"@
    &&& arg != "--skip_cmis_mgr"@
    &&& arg != "--enable_sff_mgr"@
    &&& arg != "--dom_temperature_poll_interval"@
    &&& arg != "--dom_update_interval"@
    &&& !occurs_at(arg, "--dom_temperature_poll_interval="@, 0)
    &&& !occurs_at(arg, "--dom_update_interval="@, 0)
}

proof fn option_texts()
    ensures
        "-h"@.len() == 2,
        "--help"@.len() == 6,
        "--skip_cmis_mgr"@.len() == 15,
        "--enable_sff_mgr"@.len() == 16,
        "--dom_temperature_poll_interval"@.len() == 31,
        "--dom_update_interval"@.len() == 21,
        "--dom_temperature_poll_interval="@ == "--dom_temperature_poll_interval"@ + "="@,
        "--dom_update_interval="@ == "--dom_update_interval"@ + "="@,
        "="@ == seq!['='],
        "--skip_cmis_mgr"@[2] == 's',
        "--enable_sff_mgr"@[2] == 'e',
        "--help"@[2] == 'h',
        "--dom_temperature_poll_interval"@[2] == 'd',
        "--dom_update_interval"@[2] == 'd',
        "--dom_temperature_poll_interval"@[6] == 't',
        "--dom_update_interval"@[6] == 'u',
{
    reveal_strlit("-h");
    reveal_strlit("--help");
    reveal_strlit("--skip_cmis_mgr");
    reveal_strlit("--enable_sff_mgr");
    reveal_strlit("--dom_temperature_poll_interval");
    reveal_strlit("--dom_update_interval");
    reveal_strlit("--dom_temperature_poll_interval=");
    reveal_strlit("--dom_update_interval=");
    reveal_strlit("=");
    assert("--dom_temperature_poll_interval="@ =~= "--dom_temperature_poll_interval"@ + "="@);
    assert("--dom_update_interval="@ =~= "--dom_update_interval"@ + "="@);
    assert("="@ =~= seq!['=']);
}

proof fn option_with_value(name: Seq<char>, v: Seq<char>)
    ensures
        option_of(name + "="@ + v, name) == Some(Some(v)),
        option_of(name, name) == Some(None::<Seq<char>>),
{
    reveal_strlit("=");
    let arg = name + "="@ + v;
    assert(arg.subrange(0, name.len() as int) =~= name);
    let rest = arg.skip(name.len() as int);
    assert(rest.subrange(0, 1) =~= "="@);
    assert(rest.skip(1) =~= v);
    assert(arg.len() > name.len());
}

proof fn option_is_not(arg: Seq<char>, name: Seq<char>, i: int)
    requires
        0 <= i < name.len(),
        i < arg.len() ==> arg[i] != name[i],
    ensures
        option_of(arg, name) is None,
{
    if occurs_at(arg, name, 0) {
        assert(arg.subrange(0, name.len() as int)[i] == arg[i]);
    }
}

/// The texts of an integer, with blanks around it or without.
pub open spec fn tells(v: Seq<char>, n: i64) -> bool {
    parsed_i64(trimmed(v)) == Some(n)
}

/// A written number tells of the number.
pub proof fn written_number_tells(n: i64)
    ensures
        tells(signed_decimal(n as int), n),
{
    let s = signed_decimal(n as int);
    signed_decimal_parses_back(n);
    decimal_reads_back(if n < 0 {
        (-n) as nat
    } else {
        n as nat
    });
    assert(!is_space(s[0]) && !is_space(s.last())) by {
        let d = crate::text::decimal(if n < 0 {
            (-n) as nat
        } else {
            n as nat
        });
        assert(s.last() == d.last());
        assert(is_digit(d.last()));
        assert(is_digit(d[0]));
    }
    trimmed_text_stays(s);
}

/// The switches are turned on, whatever comes before and behind them.
pub proof fn switches_are_turned_on(out: Args, rest: Seq<Seq<char>>)
    ensures
        parsed_args(seq!["--skip_cmis_mgr"@] + rest, out) == parsed_args(
            rest,
            Args { skip_cmis_mgr: true, ..out },
        ),
        parsed_args(seq!["--enable_sff_mgr"@] + rest, out) == parsed_args(
            rest,
            Args { enable_sff_mgr: true, ..out },
        ),
{
    option_texts();
    let a = seq!["--skip_cmis_mgr"@] + rest;
    let b = seq!["--enable_sff_mgr"@] + rest;
    assert(a.skip(1) =~= rest);
    assert(b.skip(1) =~= rest);
}

/// The intervals are those of the last options that give them, with an equal sign
/// before the number or as the next argument.
pub proof fn intervals_are_given(out: Args, v: Seq<char>, n: i64, rest: Seq<Seq<char>>)
    requires
        tells(v, n),
    ensures
        parsed_args(seq!["--dom_update_interval"@, v] + rest, out) == parsed_args(
            rest,
            Args { dom_update_interval: Some(n), ..out },
        ),
        parsed_args(seq!["--dom_update_interval="@ + v] + rest, out) == parsed_args(
            rest,
            Args { dom_update_interval: Some(n), ..out },
        ),
        parsed_args(seq!["--dom_temperature_poll_interval"@, v] + rest, out) == parsed_args(
            rest,
            Args { dom_temperature_poll_interval: Some(n), ..out },
        ),
        parsed_args(seq!["--dom_temperature_poll_interval="@ + v] + rest, out) == parsed_args(
            rest,
            Args { dom_temperature_poll_interval: Some(n), ..out },
        ),
{
    option_texts();
    let u = "--dom_update_interval"@;
    let t = "--dom_temperature_poll_interval"@;
    option_with_value(u, v);
    option_with_value(t, v);
    let u1 = "--dom_update_interval="@ + v;
    let t1 = "--dom_temperature_poll_interval="@ + v;
    assert(u1[2] == u[2] && u1[6] == u[6]);
    assert(t1[2] == t[2] && t1[6] == t[6]);
    option_is_not(u, t, 6);
    option_is_not(u1, t, 6);
    let a = seq![u, v] + rest;
    let b = seq![u1] + rest;
    let c = seq![t, v] + rest;
    let d = seq![t1] + rest;
    assert(a.skip(1)[0] == v);
    assert(a.skip(1).skip(1) =~= rest);
    assert(b.skip(1) =~= rest);
    assert(rest.skip(0) =~= rest);
    assert(c.skip(1)[0] == v);
    assert(c.skip(1).skip(1) =~= rest);
    assert(d.skip(1) =~= rest);
    assert(a[0] == u && b[0] == u1 && c[0] == t && d[0] == t1);
}

/// A call for help is heeded wherever the arguments before it are in order.
pub proof fn help_is_given(out: Args, rest: Seq<Seq<char>>)
    ensures
        parsed_args(seq!["-h"@] + rest, out) == ParseView::Help,
        parsed_args(seq!["--help"@] + rest, out) == ParseView::Help,
{
}

/// What the daemon does not know is refused by its name, and so is an interval that
/// is missing or is no integer.
pub proof fn wrong_arguments_are_refused(
    out: Args,
    arg: Seq<char>,
    v: Seq<char>,
    rest: Seq<Seq<char>>,
)
    requires
        unknown(arg),
        parsed_i64(trimmed(v)) is None,
    ensures
        parsed_args(seq![arg] + rest, out) == ParseView::Error("unrecognized arguments: "@ + arg),
        parsed_args(seq!["--dom_update_interval"@], out) == ParseView::Error(
            "argument "@ + "--dom_update_interval"@ + ": expected one argument"@,
        ),
        parsed_args(seq!["--dom_temperature_poll_interval"@], out) == ParseView::Error(
            "argument "@ + "--dom_temperature_poll_interval"@ + ": expected one argument"@,
        ),
        parsed_args(seq!["--dom_update_interval"@, v] + rest, out) == ParseView::Error(
            "argument "@ + "--dom_update_interval"@ + ": invalid int value: '"@ + v + "'"@,
        ),
        parsed_args(seq!["--dom_temperature_poll_interval"@, v] + rest, out) == ParseView::Error(
            "argument "@ + "--dom_temperature_poll_interval"@ + ": invalid int value: '"@ + v
                + "'"@,
        ),
{
    option_texts();
    let u = "--dom_update_interval"@;
    let t = "--dom_temperature_poll_interval"@;
    option_with_value(u, v);
    option_with_value(t, v);
    option_is_not(u, t, 6);
    assert(option_of(arg, u) is None) by {
        if occurs_at(arg, u, 0) && occurs_at(arg.skip(u.len() as int), "="@, 0) {
            let n = u.len() as int;
            assert(arg.subrange(0, n + 1) =~= u + arg.skip(n).subrange(0, 1));
            assert(occurs_at(arg, "--dom_update_interval="@, 0));
        }
    }
    assert(option_of(arg, t) is None) by {
        if occurs_at(arg, t, 0) && occurs_at(arg.skip(t.len() as int), "="@, 0) {
            let n = t.len() as int;
            assert(arg.subrange(0, n + 1) =~= t + arg.skip(n).subrange(0, 1));
            assert(occurs_at(arg, "--dom_temperature_poll_interval="@, 0));
        }
    }
    assert((seq![arg] + rest)[0] == arg);
    let a = seq![u];
    let b = seq![t];
    assert(a.skip(1).len() == 0 && b.skip(1).len() == 0);
    let c = seq![u, v] + rest;
    let d = seq![t, v] + rest;
    assert(c[0] == u && d[0] == t);
    assert(c.skip(1)[0] == v && d.skip(1)[0] == v);
}

/// A command line in order with one more argument that is in order by itself.
proof fn appended_switch_is_taken(argv: Seq<Seq<char>>, out: Args, a: Args)
    requires
        parsed_args(argv, out) == ParseView::Parsed(a),
    ensures
        parsed_args(argv.push("--enable_sff_mgr"@), out) == ParseView::Parsed(
            Args { enable_sff_mgr: true, ..a },
        ),
    decreases argv.len(),
{
    let flag = "--enable_sff_mgr"@;
    let all = argv.push(flag);
    if argv.len() == 0 {
        switches_are_turned_on(out, Seq::empty());
        assert(all =~= seq![flag] + Seq::<Seq<char>>::empty());
    } else {
        let arg = argv[0];
        let rest = argv.skip(1);
        assert(all.skip(1) =~= rest.push(flag));
        if arg == "--skip_cmis_mgr"@ {
            appended_switch_is_taken(rest, Args { skip_cmis_mgr: true, ..out }, a);
        } else if arg == flag {
            appended_switch_is_taken(rest, Args { enable_sff_mgr: true, ..out }, a);
        } else if option_of(arg, "--dom_temperature_poll_interval"@) is Some {
            let name = "--dom_temperature_poll_interval"@;
            let inline = option_of(arg, name)->0;
            let r = option_value(name, inline, rest);
            let n = r->Ok_0.0;
            let k = r->Ok_0.1;
            assert(rest.push(flag).skip(k as int) =~= rest.skip(k as int).push(flag));
            assert(option_value(name, inline, rest.push(flag)) == r);
            appended_switch_is_taken(
                rest.skip(k as int),
                Args { dom_temperature_poll_interval: Some(n), ..out },
                a,
            );
        } else {
            let name = "--dom_update_interval"@;
            let inline = option_of(arg, name)->0;
            let r = option_value(name, inline, rest);
            let n = r->Ok_0.0;
            let k = r->Ok_0.1;
            assert(rest.push(flag).skip(k as int) =~= rest.skip(k as int).push(flag));
            assert(option_value(name, inline, rest.push(flag)) == r);
            appended_switch_is_taken(
                rest.skip(k as int),
                Args { dom_update_interval: Some(n), ..out },
                a,
            );
        }
    }
}

/// A program that is launched again runs as it did, but with the SFF manager: its
/// new arguments come to what the old ones, behind the name of the program, came
/// to, with the manager switched on.
pub proof fn relaunch_only_adds_the_manager(argv: Seq<Seq<char>>, a: Args)
    requires
        argv.len() > 0,
        !argv.contains("--enable_sff_mgr"@),
        parsed_args(argv.skip(1), no_args()) == ParseView::Parsed(a),
    ensures
        relaunch(argv) matches Some(v) && parsed_args(v, no_args()) == ParseView::Parsed(
            Args { enable_sff_mgr: true, ..a },
        ),
{
    appended_switch_is_taken(argv.skip(1), no_args(), a);
}

/// Nothing is switched on that the command line does not ask for.
pub proof fn empty_command_line_asks_for_nothing()
    ensures
        parsed_args(Seq::empty(), no_args()) matches ParseView::Parsed(a) && !a.skip_cmis_mgr
            && !a.enable_sff_mgr && a.dom_temperature_poll_interval is None
            && a.dom_update_interval is None,
{
}

// ---- the stages ----

/// Everything is opened before it is used: the modules are published and the tasks
/// started only when the platform, the tables and the ports are there, and the
/// tasks are started in their order.
pub proof fn stages_come_in_order()
    ensures
        place_of(Stage::OpenPlatform) < place_of(Stage::CountSlots) < place_of(Stage::MapPorts),
        place_of(Stage::OpenTables) < place_of(Stage::PurgeStale),
        place_of(Stage::OpenConfig) < place_of(Stage::AwaitPorts) < place_of(Stage::MapPorts),
        place_of(Stage::MapPorts) < place_of(Stage::PurgeStale) < place_of(Stage::Publish),
        place_of(Stage::MapPorts) < place_of(Stage::StartWatcher) < place_of(Stage::StartSff),
        place_of(Stage::LoadSettings) < place_of(Stage::StartSff) < place_of(Stage::Publish),
        place_of(Stage::Publish) < place_of(Stage::StartDom) < place_of(Stage::StartCmis)
            < place_of(Stage::StartThermal) < place_of(Stage::Watch) < place_of(Stage::RaiseStop),
        place_of(Stage::RaiseStop) < place_of(Stage::JoinDom) < place_of(Stage::JoinCmis)
            < place_of(Stage::JoinThermal) < place_of(Stage::JoinSff) < place_of(
            Stage::JoinWatcher,
        ) < place_of(Stage::Teardown),
{
}

/// No two stages have the same place.
pub proof fn stages_have_places_of_their_own(s: Stage, t: Stage)
    ensures
        s == t <==> place_of(s) == place_of(t),
{
}

/// The tasks that the command line asks for take part, and the rest of the stages
/// does in every run. After a fast reboot the settings are not loaded again.
pub proof fn tasks_take_part_as_asked(s: Stage, plan: StartPlan, fast_reboot: bool)
    ensures
        takes_part(Stage::StartSff, plan, fast_reboot) == plan.sff,
        takes_part(Stage::StartCmis, plan, fast_reboot) == plan.cmis,
        takes_part(Stage::StartThermal, plan, fast_reboot) == (plan.thermal_secs is Some),
        takes_part(Stage::LoadSettings, plan, fast_reboot) == !fast_reboot,
        plan.sff && plan.cmis && plan.thermal_secs is Some && !fast_reboot ==> takes_part(
            s,
            plan,
            fast_reboot,
        ),
        !takes_part(s, plan, fast_reboot) ==> s == Stage::LoadSettings || s == Stage::StartSff || s
            == Stage::JoinSff || s == Stage::StartCmis || s == Stage::JoinCmis || s
            == Stage::StartThermal || s == Stage::JoinThermal,
{
}

/// From the moment on that modules are watched no stage fails, and neither does
/// waiting for the ports, dropping stale identities, loading settings or publishing
/// modules. Every other stage can.
pub proof fn nothing_fails_after_the_start(s: Stage)
    ensures
        place_of(s) >= place_of(Stage::Watch) ==> !can_fail(s),
        s == Stage::AwaitPorts || s == Stage::PurgeStale || s == Stage::LoadSettings || s
            == Stage::Publish ==> !can_fail(s),
        place_of(s) < place_of(Stage::Watch) && s != Stage::AwaitPorts && s != Stage::PurgeStale
            && s != Stage::LoadSettings && s != Stage::Publish ==> can_fail(s),
{
}

} // verus!
