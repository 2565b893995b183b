//! What the monitoring leaves undone: what a module does not have is not published,
//! what may not be read is not read, and a stop ends everything.

use vstd::prelude::*;

use crate::db::{row_at, value_at, DbTable};
use crate::dom::db_utils::{
    cached, count_in, flag_moved, next_count, posted_flags, Beautify, CacheView, FlagRows,
    Reader,
};
use crate::dom::dom_mgr::{
    due_served, flags_missing, hook_ran, polled, polled_interleaved, port_updates_served,
    posted_pm, posted_vdm_diagnostics, republished, reread, statistics_taken,
    temperature_polled, temperatures_polled, updates_noted, LinkChangeReread, TaskView,
};
use crate::dom::outcomes::{monitored, says, seated, steady};
use crate::dom::vdm::{acted, posted_real_values, posted_vdm, VdmRows, VdmUtils};
use crate::hal::{Answers, Ask, Trace};
use crate::json::{filled_fields, py_str, reply_true, ReplyView, Row, Val, Vals};
use crate::port::{first_port_sits_on_its_slot, MappingView};
use crate::tables::AsicRows;
use crate::text::{parsed_i64, signed_decimal, trimmed};

verus! {

// ---- what a module does not have ----

/// Whether the module in a slot has flat memory only.
pub open spec fn flat(a: Answers, port: usize) -> bool {
    reply_true(says(a, port, "is_flat_memory"@))
}

/// A module with flat memory has neither observables nor performance figures to
/// publish.
pub proof fn flat_memory_has_no_pages<T: DbTable>(
    v: VdmRows,
    m: MappingView,
    tr: Trace,
    name: Seq<char>,
    port: usize,
    secs: u64,
    flag_data: bool,
    pm: crate::db::Rows,
    f: Vals,
)
    requires
        steady(tr.answers, port, secs),
        flat(tr.answers, port),
        m.physical_of(name) == Some(port),
        m.slot_named(name) == Some(port),
    ensures
        posted_vdm::<T>(v, None, m, tr, name, flag_data).0 == v,
        posted_real_values::<T>(v.real_value, m, tr, name, f).0 == v.real_value,
        posted_pm::<T>(pm, None, m, tr, name).0 == pm,
{
    let t1 = tr.then_ask(Ask::Stop);
    let t2 = t1.then_ask(Ask::Presence(port));
    assert(!tr.stop());
    assert(t1.present(port));
    assert((t2.answers.json)(t2.asked, port, "is_flat_memory"@) == says(
        tr.answers,
        port,
        "is_flat_memory"@,
    ));
}

/// A module without observables has none published, and its statistics are left
/// alone.
pub proof fn module_without_observables_is_left<T: DbTable>(
    a: AsicRows,
    m: MappingView,
    tr: Trace,
    u: VdmUtils,
    name: Seq<char>,
    port: usize,
)
    requires
        !reply_true(tr.json(port, "is_transceiver_vdm_supported"@)),
    ensures
        posted_vdm_diagnostics::<T>(a, m, tr, u, name, port) == (
            a,
            tr.then_ask(Ask::Json(port, "is_transceiver_vdm_supported"@)),
        ),
{
}

/// The statistics of a module that has none, or that is in low-power mode, are not
/// frozen: nothing but that is asked, and no performance figures are published.
pub proof fn statistics_need_power<T: DbTable>(
    pm: crate::db::Rows,
    m: MappingView,
    tr: Trace,
    u: VdmUtils,
    name: Seq<char>,
    port: usize,
)
    ensures
        ({
            let t1 = tr.then_ask(Ask::Json(port, "is_vdm_statistic_supported"@));
            let (rows, values, after) = statistics_taken::<T>(pm, m, tr, u, name, port);
            &&& !reply_true(tr.json(port, "is_vdm_statistic_supported"@)) ==> rows == pm
                && values.len() == 0 && after == t1
            &&& reply_true(tr.json(port, "is_vdm_statistic_supported"@)) && t1.low_power(port)
                ==> rows == pm && values.len() == 0 && after == t1.then_ask(Ask::Lpmode(port))
        }),
{
}

/// Statistics that do not freeze are neither read nor published, and what was
/// frozen is unfrozen all the same.
pub proof fn unfrozen_statistics_are_not_read<T: DbTable>(
    pm: crate::db::Rows,
    m: MappingView,
    tr: Trace,
    u: VdmUtils,
    name: Seq<char>,
    port: usize,
)
    requires
        reply_true(tr.json(port, "is_vdm_statistic_supported"@)),
        forall|h: Seq<Ask>| #[trigger] (tr.answers.lpmode)(h, port) != Some(true),
        forall|h: Seq<Ask>|
            !reply_true(#[trigger] (tr.answers.json)(h, port, "freeze_vdm_stats"@)),
    ensures
        ({
            let t2 = tr.then_ask(Ask::Json(port, "is_vdm_statistic_supported"@)).then_ask(
                Ask::Lpmode(port),
            );
            let t3 = t2.then_ask(Ask::Json(port, "freeze_vdm_stats"@));
            let (rows, values, after) = statistics_taken::<T>(pm, m, tr, u, name, port);
            &&& rows == pm && values.len() == 0
            &&& after == acted(u, t3, port, "unfreeze_vdm_stats"@, "get_vdm_unfreeze_status"@).1
        }),
{
    let t1 = tr.then_ask(Ask::Json(port, "is_vdm_statistic_supported"@));
    let t2 = t1.then_ask(Ask::Lpmode(port));
    assert((t1.answers.lpmode)(t1.asked, port) != Some(true));
    assert(!reply_true((t2.answers.json)(t2.asked, port, "freeze_vdm_stats"@)));
}

/// A re-read of a monitored port whose module gives no flags publishes no monitor
/// flags and is to be tried again.
pub proof fn reread_without_flags_is_tried_again<T: DbTable>(
    th: Seq<AsicRows>,
    m: MappingView,
    tr: Trace,
    skip_cmis_mgr: bool,
    port: usize,
    name: Seq<char>,
    a: int,
    secs: u64,
)
    requires
        steady(tr.answers, port, secs),
        seated(m, th, port, name, a),
        monitored(th[a], name, skip_cmis_mgr),
        filled_fields(says(tr.answers, port, "get_transceiver_dom_flags"@)) is None,
    ensures
        ({
            let (after, _t, outcome) = reread::<T>(th, m, tr, skip_cmis_mgr, port);
            &&& outcome == LinkChangeReread::TransientRead
            &&& after[a].dom_flags == th[a].dom_flags
        }),
{
    crate::dom::outcomes::monitored_is_not_off(th, m, skip_cmis_mgr, port, name, a);
    first_port_sits_on_its_slot(m, port, name);
    let t1 = tr.then_ask(Ask::Stop);
    let t2 = t1.then_ask(Ask::Presence(port));
    let t3 = t2.then_ask(Ask::Stop);
    let t4 = t3.then_ask(Ask::Presence(port));
    assert(!tr.stop());
    assert(t1.present(port));
    assert(!t2.stop());
    assert(t3.present(port));
    assert((t4.answers.json)(t4.asked, port, "get_transceiver_dom_flags"@) == says(
        tr.answers,
        port,
        "get_transceiver_dom_flags"@,
    ));
}

/// A re-read of a port that will not be read for this flap is done with: one that
/// is switched off, one that is blocked by an error, and one whose slot is
/// empty. While the data path is brought up it is put off,
/// unless no data paths are brought up at all.
pub proof fn reread_that_cannot_be_made_is_done<T: DbTable>(
    th: Seq<AsicRows>,
    m: MappingView,
    tr: Trace,
    skip_cmis_mgr: bool,
    port: usize,
    name: Seq<char>,
    a: int,
)
    requires
        !tr.stop(),
        seated(m, th, port, name, a),
    ensures
        ({
            let outcome = reread::<T>(th, m, tr, skip_cmis_mgr, port).2;
            let off = value_at(th[a].cfg_port, name, "dom_polling"@) == Some("disabled"@);
            let state = value_at(th[a].status_sw, name, "cmis_state"@);
            let at_rest = state == Some("READY"@) || state == Some("FAILED"@) || state == Some(
                "REMOVED"@,
            );
            &&& off ==> outcome == LinkChangeReread::Settled
            &&& !off && !skip_cmis_mgr && !at_rest ==> outcome
                == LinkChangeReread::DeferredCmisInit
            &&& skip_cmis_mgr || at_rest ==> outcome != LinkChangeReread::DeferredCmisInit
            &&& (skip_cmis_mgr || at_rest) && !monitored(th[a], name, skip_cmis_mgr) ==> outcome
                == LinkChangeReread::Settled
            &&& (skip_cmis_mgr || at_rest) && !tr.then_ask(Ask::Stop).present(port) ==> outcome
                == LinkChangeReread::Settled
        }),
{
    crate::dom::outcomes::monitored_is_not_off(th, m, skip_cmis_mgr, port, name, a);
    crate::dom::outcomes::monitored_is_not_off(th, m, false, port, name, a);
    reveal_strlit("UNKNOWN");
    reveal_strlit("READY");
    reveal_strlit("FAILED");
    reveal_strlit("REMOVED");
    reveal_strlit("enabled");
    reveal_strlit("disabled");
    assert("enabled"@.len() != "disabled"@.len());
    assert("UNKNOWN"@[0] == 'U' && "READY"@[0] == 'R' && "FAILED"@[0] == 'F' && "REMOVED"@[0]
        == 'R');
}

/// A re-read of a slot that no port sits on is done with, and nothing is asked.
pub proof fn reread_of_an_unused_slot_is_done<T: DbTable>(
    th: Seq<AsicRows>,
    m: MappingView,
    tr: Trace,
    skip_cmis_mgr: bool,
    port: usize,
)
    requires
        m.first_on(port) is None,
    ensures
        reread::<T>(th, m, tr, skip_cmis_mgr, port) == (
            th,
            tr.then_ask(Ask::Stop),
            LinkChangeReread::Settled,
        ),
{
}

// ---- a stop ----

/// Once the daemon is asked to stop nothing is read and nothing is written any more,
/// neither by a pass, with updates in between or without, nor by a re-read, nor by
/// the hook, nor by the temperature task.
pub proof fn stop_ends_everything<T: DbTable>(
    v: TaskView,
    th: Seq<AsicRows>,
    tr: Trace,
    u: VdmUtils,
    slots: Seq<usize>,
    next: u64,
    port: usize,
)
    requires
        tr.stop(),
        slots.len() > 0,
    ensures
        ({
            let t1 = tr.then_ask(Ask::Stop);
            &&& polled::<T>(th, v.m, tr, u, v.skip_cmis_mgr, slots) == (th, t1)
            &&& polled_interleaved::<T>(v, th, tr, next, slots) == (v, th, t1, next)
            &&& due_served::<T>(v, th, tr, slots) == (v, th, t1)
            &&& republished::<T>(v, th, tr, slots) == (v, th, t1)
            &&& temperatures_polled::<T>(th, v.m, tr, slots) == (th, t1)
            &&& reread::<T>(th, v.m, tr, v.skip_cmis_mgr, port) == (
                th,
                t1,
                LinkChangeReread::Settled,
            )
        }),
{
}

// ---- what may not be read ----

/// The temperature of a port that is switched off or blocked by an error, or whose
/// slot is empty, is not published.
pub proof fn temperature_is_kept<T: DbTable>(
    th: Seq<AsicRows>,
    m: MappingView,
    tr: Trace,
    port: usize,
    name: Seq<char>,
    a: int,
)
    requires
        seated(m, th, port, name, a),
        !monitored(th[a], name, true) || forall|h: Seq<Ask>| #[trigger]
            (tr.answers.presence)(h, port) != Some(true),
    ensures
        temperature_polled::<T>(th, m, tr, port).0 == th,
{
    crate::dom::outcomes::monitored_is_not_off(th, m, true, port, name, a);
    assert((tr.answers.presence)(tr.asked, port) != Some(true) || !monitored(th[a], name, true));
}

/// The hook finds flags missing only where the row is known to be empty, the
/// bring-up has ended in success or failure, and the port is not switched off. It
/// does nothing where no data paths are brought up.
pub proof fn flags_are_missing_only_where_they_should_be<T: DbTable>(
    v: TaskView,
    th: Seq<AsicRows>,
    tr: Trace,
    port: usize,
    name: Seq<char>,
    a: int,
)
    requires
        seated(v.m, th, port, name, a),
    ensures
        ({
            let state = value_at(th[a].status_sw, name, "cmis_state"@);
            &&& flags_missing(v.m, th, port) ==> {
                &&& th[a].flag_sizes_readable
                &&& row_at(th[a].dom_flags.value, name) matches Some(r) ==> r.len() == 0
                &&& state == Some("READY"@) || state == Some("FAILED"@)
                &&& value_at(th[a].cfg_port, name, "dom_polling"@) != Some("disabled"@)
            }
            &&& v.skip_cmis_mgr ==> hook_ran::<T>(v, th, tr) == (v, th, tr)
        }),
{
    first_port_sits_on_its_slot(v.m, port, name);
    reveal_strlit("UNKNOWN");
    reveal_strlit("READY");
    reveal_strlit("FAILED");
    reveal_strlit("REMOVED");
    assert("UNKNOWN"@[0] == 'U' && "READY"@[0] == 'R' && "FAILED"@[0] == 'F' && "REMOVED"@[0]
        == 'R');
}

/// The hook leaves a slot whose module is gone as it is, with the re-read that is to
/// come of it.
pub proof fn hook_leaves_an_empty_slot<T: DbTable>(
    v: TaskView,
    th: Seq<AsicRows>,
    tr: Trace,
    port: usize,
)
    requires
        !tr.stop(),
        !tr.then_ask(Ask::Stop).present(port),
    ensures
        republished::<T>(v, th, tr, seq![port]).0 == v,
        republished::<T>(v, th, tr, seq![port]).1 == th,
{
    let s = seq![port];
    let t1 = tr.then_ask(Ask::Stop);
    let t2 = t1.then_ask(Ask::Presence(port));
    assert(s.skip(1) =~= Seq::<usize>::empty());
    assert(republished::<T>(v, th, t1, s.skip(1)) == (v, th, t1));
    assert(republished::<T>(v, th, t2, s.skip(1)) == (v, th, t2));
}

// ---- readings that are shared ----

/// Flags that another port of the slot has read in the same pass are published for
/// this port, too, and leave its records alone: they were compared when they were
/// read. The module is not asked again.
pub proof fn shared_flags_are_compared_once<T: DbTable>(
    t: FlagRows,
    cache: CacheView,
    m: MappingView,
    tr: Trace,
    name: Seq<char>,
    reader: Reader,
    b: Beautify,
    port: usize,
    r: Option<ReplyView>,
    f: Vals,
)
    requires
        !tr.stop(),
        m.physical_of(name) == Some(port),
        tr.then_ask(Ask::Stop).present(port),
        cached(cache, port) == Some(r),
    ensures
        ({
            let (after, kept, t1, posted) = posted_flags::<T>(t, cache, m, tr, name, reader, b);
            &&& after.change_count == t.change_count
            &&& after.set_time == t.set_time
            &&& after.clear_time == t.clear_time
            &&& kept == cache
            &&& posted == (filled_fields(r) is Some)
            &&& filled_fields(r) is None ==> after == t
            &&& forall|i: int|
                tr.asked.len() <= i < t1.asked.len() ==> !(#[trigger] t1.asked[i] is Json)
        }),
{
}

/// A reading that was made is kept for the other ports of the slot, and one that
/// brought no answer is not.
pub proof fn readings_are_kept<T: DbTable>(
    t: FlagRows,
    kept: Map<usize, Option<ReplyView>>,
    m: MappingView,
    tr: Trace,
    name: Seq<char>,
    port: usize,
    b: Beautify,
)
    requires
        !tr.stop(),
        m.physical_of(name) == Some(port),
        tr.then_ask(Ask::Stop).present(port),
        !kept.dom().contains(port),
    ensures
        ({
            let t2 = tr.then_ask(Ask::Stop).then_ask(Ask::Presence(port));
            let told = t2.json(port, "get_transceiver_dom_flags"@);
            let after = posted_flags::<T>(t, Some(kept), m, tr, name, Reader::DomFlags, b).1;
            &&& told is Some ==> after == Some(kept.insert(port, told))
            &&& told is None ==> after == Some(kept)
        }),
{
}

// ---- waiting ----

/// Where nothing delivers updates, the time that they would be waited for is slept,
/// but never more than a second.
pub proof fn time_is_slept_without_updates<T: DbTable>(
    v: TaskView,
    th: Seq<AsicRows>,
    tr: Trace,
    timeout: u64,
)
    requires
        tr.updates(timeout) is None,
        v.pending.order.len() == 0,
    ensures
        ({
            let (after, rows, t) = port_updates_served::<T>(v, th, tr, timeout);
            let ms = if timeout < 1000 {
                timeout
            } else {
                1000
            };
            &&& after == v && rows == th
            &&& t.asked == tr.asked.push(Ask::Updates(timeout)).push(Ask::Sleep(ms)).push(
                Ask::Uptime,
            )
        }),
{
}

/// Where updates are delivered none of the time is slept.
pub proof fn updates_are_awaited<T: DbTable>(
    v: TaskView,
    th: Seq<AsicRows>,
    tr: Trace,
    timeout: u64,
)
    requires
        tr.updates(timeout) matches Some(events) && events.len() == 0,
        v.pending.order.len() == 0,
    ensures
        ({
            let (after, rows, t) = port_updates_served::<T>(v, th, tr, timeout);
            &&& after == v && rows == th
            &&& t.asked == tr.asked.push(Ask::Updates(timeout)).push(Ask::Uptime)
        }),
{
    let t1 = tr.then_ask(Ask::Updates(timeout));
    assert(updates_noted(v, t1, tr.updates(timeout)->0) == (v, t1));
}

// ---- counting ----

/// A count that cannot be read counts as none, and behind the largest count comes
/// the smallest.
pub proof fn counting_begins_anew(row: Row, name: Seq<char>, s: Seq<char>, n: i64)
    ensures
        crate::db::last_value(row, name) is None ==> next_count(count_in(row, name)) == 1,
        crate::db::last_value(row, name) == Some(s) && parsed_i64(s) is None ==> next_count(
            count_in(row, name),
        ) == 1,
        crate::db::last_value(row, name) == Some(signed_decimal(n as int)) && n < i64::MAX
            ==> next_count(count_in(row, name)) == n + 1,
        next_count(i64::MAX) == i64::MIN,
{
    crate::text::signed_decimal_parses_back(n);
}

/// A flag has moved where its text differs from the published one. What the module
/// does not have, and what was not published, has not moved.
pub proof fn flags_move_when_they_differ(published: Row, name: Seq<char>, v: Val, s: Seq<char>)
    ensures
        crate::db::last_value(published, name) == Some(s) && trimmed(py_str(v)) != "N/A"@
            ==> flag_moved(published, name, v) == (s != py_str(v)),
        crate::db::last_value(published, name) is None ==> !flag_moved(published, name, v),
        trimmed(py_str(v)) == "N/A"@ ==> !flag_moved(published, name, v),
{
}

} // verus!
