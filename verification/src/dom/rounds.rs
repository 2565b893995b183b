//! What a round of the monitoring task is for: every slot that is due is read, and
//! what was read is in the rows of its port when the round is over.

use vstd::prelude::*;

use crate::db::{row_at, value_at, DbTable};
use crate::dom::db_utils::{dom_text, Beautify, FlagRows, Reader};
use crate::dom::dom_mgr::{
    after_reread, due_served, flags_missing, hook_ran, polled, polled_interleaved, polled_port,
    port_updates_served, posted_vdm_diagnostics, reconciled, republished, reread, stepped,
    temperature_polled, temperature_stepped, temperatures_polled, updates_noted, upkeep,
    DomPhase, DomSchedule, LinkChangeReread, TaskView,
};
use crate::dom::dom_sensor::posted_flag_family;
use crate::dom::laws::{
    polling_keeps_the_rows_of_other_tasks, polling_leaves_other_ports_alone,
    rereading_changes_only_flags, rereading_leaves_other_ports_alone, same_elsewhere,
    tables_same_at,
};
use crate::dom::outcomes::{
    answers_stay_statistics, monitored, pass_publishes_the_monitors,
    reread_publishes_the_monitor_flags, says, seated, steady, tellable,
    temperature_is_published,
};
use crate::dom::schedule_laws::{
    comparing_keeps, is_pending, noting_keeps, rereads_are_due_in_time, tells_flaps,
    untold_slot_is_left,
};
use crate::dom::vdm::{noted_families, posted_families, posted_vdm, VdmRows, VdmUtils};
use crate::hal::{Ask, Trace};
use crate::json::{field, unit_stripped, Vals};
use crate::port::{first_port_sits_on_its_slot, EventView, MappingView};
use crate::tables::AsicRows;

verus! {

// ---- what a reading leaves alone ----

proof fn noting_keeps_the_families<T: DbTable>(
    t: Seq<FlagRows>,
    split: Seq<Vals>,
    name: Seq<char>,
    time: Seq<char>,
    i: nat,
)
    ensures
        t.len() == 4 ==> noted_families::<T>(t, split, name, time, i).len() == 4,
    decreases 4 - i,
{
    if i < 4 {
        let t1 = if split[i as int].len() > 0 {
            t.update(
                i as int,
                crate::dom::db_utils::tracked_flags::<T>(
                    t[i as int],
                    name,
                    split[i as int],
                    time,
                ),
            )
        } else {
            t
        };
        noting_keeps_the_families::<T>(t1, split, name, time, i + 1);
    }
}

proof fn posting_keeps_the_families<T: DbTable>(
    v: VdmRows,
    split: Seq<Vals>,
    tr: Trace,
    name: Seq<char>,
    i: nat,
)
    ensures
        v.flags.len() == 4 ==> posted_families::<T>(v, split, tr, name, true, i).0.flags.len() == 4,
        posted_families::<T>(v, split, tr, name, true, i).1.answers == tr.answers,
    decreases 4 - i,
{
    if i < 4 && split[i as int].len() > 0 {
        let row = crate::dom::vdm::family_row(split[i as int], tr.clock());
        let f = v.flags[i as int];
        let v1 = VdmRows {
            real_value: v.real_value,
            flags: v.flags.update(
                i as int,
                FlagRows {
                    value: crate::dom::db_utils::put::<T>(f.value, name, row),
                    change_count: f.change_count,
                    set_time: f.set_time,
                    clear_time: f.clear_time,
                },
            ),
            thresholds: v.thresholds,
        };
        posting_keeps_the_families::<T>(v1, split, tr.then_ask(Ask::Clock), name, i + 1);
    }
}

proof fn observable_flags_keep<T: DbTable>(v: VdmRows, m: MappingView, tr: Trace, name: Seq<char>)
    ensures
        v.flags.len() == 4 ==> posted_vdm::<T>(v, None, m, tr, name, true).0.flags.len() == 4,
        posted_vdm::<T>(v, None, m, tr, name, true).2.answers == tr.answers,
{
    let (port, t1) = crate::dom::db_utils::validated(m, tr, name, true);
    if let Some(p) = port {
        let method = crate::dom::vdm::vdm_getter(true);
        let t2 = t1.then_ask(Ask::Json(p, method));
        if let Some(r) = t1.json(p, method) {
            if let Some(raw) = r.fields {
                let split = crate::dom::vdm::families_of(raw);
                let time = crate::clock::stamp(t2.clock());
                let noted = VdmRows {
                    real_value: v.real_value,
                    flags: noted_families::<T>(v.flags, split, name, time, 0),
                    thresholds: v.thresholds,
                };
                noting_keeps_the_families::<T>(v.flags, split, name, time, 0);
                posting_keeps_the_families::<T>(noted, split, t2.then_ask(Ask::Clock), name, 0);
            }
        }
    }
}

/// Whether the tables of ASIC `a` keep what other tasks write, and no table comes
/// or goes.
pub open spec fn framed(before: Seq<AsicRows>, after: Seq<AsicRows>, a: int) -> bool {
    &&& after.len() == before.len()
    &&& same_elsewhere(before[a], after[a])
    &&& before[a].vdm.flags.len() == 4 ==> after[a].vdm.flags.len() == 4
}

/// Whether the tables of ASIC `a` differ in flags at most.
pub open spec fn only_flags(before: Seq<AsicRows>, after: Seq<AsicRows>, a: int) -> bool {
    &&& framed(before, after, a)
    &&& after[a].dom == before[a].dom
    &&& after[a].status == before[a].status
    &&& after[a].pm == before[a].pm
    &&& after[a].firmware_info == before[a].firmware_info
    &&& after[a].vdm.real_value == before[a].vdm.real_value
}

proof fn rereading_keeps<T: DbTable>(
    th: Seq<AsicRows>,
    m: MappingView,
    tr: Trace,
    skip_cmis_mgr: bool,
    port: usize,
    a: int,
)
    requires
        0 <= a < th.len(),
    ensures
        only_flags(th, reread::<T>(th, m, tr, skip_cmis_mgr, port).0, a),
        reread::<T>(th, m, tr, skip_cmis_mgr, port).1.answers == tr.answers,
{
    rereading_changes_only_flags::<T>(th, m, tr, skip_cmis_mgr, port, a);
    if let Some(name) = m.first_on(port) {
        if let Some(k) = m.asic_of(name) {
            if k < th.len() {
                let i = k as int;
                let t0 = tr.then_ask(Ask::Stop).then_ask(Ask::Presence(port));
                let t1 = posted_flag_family::<T>(
                    th[i].dom_flags,
                    None,
                    m,
                    t0,
                    name,
                    Reader::DomFlags,
                    Beautify::Dom,
                ).2;
                let t2 = posted_flag_family::<T>(
                    th[i].status_flags,
                    None,
                    m,
                    t1,
                    name,
                    Reader::StatusFlags,
                    Beautify::Plain,
                ).2;
                let t3 = t2.then_ask(Ask::Json(port, "is_transceiver_vdm_supported"@));
                assert(t1.answers == tr.answers);
                assert(t2.answers == tr.answers);
                observable_flags_keep::<T>(th[i].vdm, m, t3, name);
            }
        }
    }
}

// ---- re-reads that are due ----

proof fn serving_keeps<T: DbTable>(
    v: TaskView,
    th: Seq<AsicRows>,
    tr: Trace,
    due: Seq<usize>,
    a: int,
)
    requires
        0 <= a < th.len(),
    ensures
        ({
            let (after, rows, t) = due_served::<T>(v, th, tr, due);
            &&& only_flags(th, rows, a)
            &&& t.answers == tr.answers
            &&& after.m == v.m && after.u == v.u && after.interval == v.interval
            &&& after.skip_cmis_mgr == v.skip_cmis_mgr && after.flaps == v.flaps
        }),
    decreases due.len(),
{
    if due.len() > 0 && !tr.stop() {
        let t1 = tr.then_ask(Ask::Stop);
        let (th1, t2, outcome) = reread::<T>(th, v.m, t1, v.skip_cmis_mgr, due[0]);
        rereading_keeps::<T>(th, v.m, t1, v.skip_cmis_mgr, due[0], a);
        let (pending, t3) = after_reread(v.pending, t2, due[0], outcome);
        serving_keeps::<T>(TaskView { pending, ..v }, th1, t3, due.skip(1), a);
    }
}

proof fn serving_others_leaves_alone<T: DbTable>(
    v: TaskView,
    th: Seq<AsicRows>,
    tr: Trace,
    due: Seq<usize>,
    a: int,
    port: usize,
    name: Seq<char>,
)
    requires
        0 <= a < th.len(),
        th[a].vdm.flags.len() == 4,
        v.m.agrees(),
        v.m.first_on(port) == Some(name),
        !due.contains(port),
    ensures
        row_at(due_served::<T>(v, th, tr, due).1[a].dom_flags.value, name) == row_at(
            th[a].dom_flags.value,
            name,
        ),
    decreases due.len(),
{
    if due.len() > 0 && !tr.stop() {
        let t1 = tr.then_ask(Ask::Stop);
        let (th1, t2, outcome) = reread::<T>(th, v.m, t1, v.skip_cmis_mgr, due[0]);
        assert(due[0] != port);
        first_port_sits_on_its_slot(v.m, port, name);
        if v.m.first_on(due[0]) == Some(name) {
            first_port_sits_on_its_slot(v.m, due[0], name);
        }
        rereading_leaves_other_ports_alone::<T>(th, v.m, t1, v.skip_cmis_mgr, due[0], name, a);
        rereading_keeps::<T>(th, v.m, t1, v.skip_cmis_mgr, due[0], a);
        let (pending, t3) = after_reread(v.pending, t2, due[0], outcome);
        let rest = due.skip(1);
        if rest.contains(port) {
            let i = rest.index_of(port);
            assert(due[i + 1] == port);
        }
        serving_others_leaves_alone::<T>(
            TaskView { pending, ..v },
            th1,
            t3,
            rest,
            a,
            port,
            name,
        );
    }
}

/// Every re-read that is due is made: when all are over, the flags that the module
/// in a due slot gives are in the row of its port.
pub proof fn due_rereads_publish_the_flags<T: DbTable>(
    v: TaskView,
    th: Seq<AsicRows>,
    tr: Trace,
    due: Seq<usize>,
    i: int,
    name: Seq<char>,
    a: int,
    secs: u64,
    f: Vals,
    x: Seq<char>,
)
    requires
        0 <= i < due.len(),
        due.no_duplicates(),
        steady(tr.answers, due[i], secs),
        seated(v.m, th, due[i], name, a),
        monitored(th[a], name, v.skip_cmis_mgr),
        th[a].vdm.flags.len() == 4,
        says(tr.answers, due[i], "get_transceiver_dom_flags"@) matches Some(r) && r.fields == Some(
            f,
        ),
        tellable(f),
        field(f, x) is Some,
    ensures
        value_at(due_served::<T>(v, th, tr, due).1[a].dom_flags.value, name, x) == Some(
            dom_text(x, field(f, x)->0),
        ),
        !is_pending(due_served::<T>(v, th, tr, due).0, due[i]),
    decreases due.len(),
{
    let port = due[i];
    let t1 = tr.then_ask(Ask::Stop);
    assert(!tr.stop());
    let (th1, t2, outcome) = reread::<T>(th, v.m, t1, v.skip_cmis_mgr, due[0]);
    let (pending, t3) = after_reread(v.pending, t2, due[0], outcome);
    let v1 = TaskView { pending, ..v };
    let rest = due.skip(1);
    rereading_keeps::<T>(th, v.m, t1, v.skip_cmis_mgr, due[0], a);
    if i == 0 {
        reread_publishes_the_monitor_flags::<T>(
            th,
            v.m,
            t1,
            v.skip_cmis_mgr,
            port,
            name,
            a,
            secs,
            f,
            x,
        );
        assert(!rest.contains(port)) by {
            if rest.contains(port) {
                let k = rest.index_of(port);
                assert(due[k + 1] == due[0]);
            }
        }
        serving_others_leaves_alone::<T>(v1, th1, t3, rest, a, port, name);
        assert(!is_pending(v1, port));
        serving_adds_no_other::<T>(v1, th1, t3, rest, port);
    } else {
        assert(rest[i - 1] == port);
        assert(rest.no_duplicates()) by {
            assert forall|k: int, l: int|
                0 <= k < rest.len() && 0 <= l < rest.len() && k != l implies rest[k] != rest[l] by {
                assert(due[k + 1] != due[l + 1]);
            }
        }
        due_rereads_publish_the_flags::<T>(v1, th1, t3, rest, i - 1, name, a, secs, f, x);
    }
}

proof fn serving_adds_no_other<T: DbTable>(
    v: TaskView,
    th: Seq<AsicRows>,
    tr: Trace,
    due: Seq<usize>,
    port: usize,
)
    requires
        !due.contains(port),
        !is_pending(v, port),
    ensures
        !is_pending(due_served::<T>(v, th, tr, due).0, port),
    decreases due.len(),
{
    if due.len() > 0 && !tr.stop() {
        assert(due[0] != port);
        let t1 = tr.then_ask(Ask::Stop);
        let (th1, t2, outcome) = reread::<T>(th, v.m, t1, v.skip_cmis_mgr, due[0]);
        let (pending, t3) = after_reread(v.pending, t2, due[0], outcome);
        let rest = due.skip(1);
        if rest.contains(port) {
            assert(due[rest.index_of(port) + 1] == port);
        }
        serving_adds_no_other::<T>(TaskView { pending, ..v }, th1, t3, rest, port);
    }
}

// ---- updates that are served ----

/// Whether the re-reads that are to come are listed.
pub open spec fn listed(v: TaskView) -> bool {
    &&& v.pending.order.no_duplicates()
    &&& forall|q: usize|
        v.pending.order.contains(q) <==> #[trigger] v.pending.at.dom().contains(q)
}

proof fn noting_keeps_the_list(v: TaskView, tr: Trace, events: Seq<EventView>)
    requires
        listed(v),
    ensures
        listed(updates_noted(v, tr, events).0),
    decreases events.len(),
{
    if events.len() > 0 {
        let report = crate::dom::dom_mgr::flap_report(v.m, events[0]);
        let (v1, t1) = crate::dom::dom_mgr::flap_noted(v, tr, report);
        if let Some((p, c)) = report {
            let o = v.pending.order;
            let n = o.push(p);
            assert forall|q: usize| n.contains(q) <==> o.contains(q) || q == p by {
                if o.contains(q) {
                    assert(n[o.index_of(q)] == q);
                }
                assert(n[o.len() as int] == p);
                if n.contains(q) {
                    let k = n.index_of(q);
                    if k < o.len() {
                        assert(o[k] == q);
                    }
                }
            }
            assert(v.pending.order.contains(p) <==> v.pending.at.dom().contains(p));
            assert forall|q: usize|
                v1.pending.order.contains(q) <==> #[trigger] v1.pending.at.dom().contains(q) by {
                assert(v.pending.order.contains(q) <==> v.pending.at.dom().contains(q));
            }
        }
        noting_keeps_the_list(v1, t1, events.skip(1));
    }
}

proof fn due_are_listed_once(v: TaskView, n: int, now: u64)
    requires
        v.pending.order.no_duplicates(),
        0 <= n <= v.pending.order.len(),
    ensures
        v.pending.due_among(n, now).no_duplicates(),
        forall|q: usize| #[trigger]
            v.pending.due_among(n, now).contains(q) ==> v.pending.order.take(n).contains(q),
    decreases n,
{
    if n > 0 {
        due_are_listed_once(v, n - 1, now);
        let o = v.pending.order;
        let q = o[n - 1];
        let before = v.pending.due_among(n - 1, now);
        let after = v.pending.due_among(n, now);
        assert(!o.take(n - 1).contains(q)) by {
            if o.take(n - 1).contains(q) {
                let k = o.take(n - 1).index_of(q);
                assert(o[k] == o[n - 1]);
            }
        }
        assert forall|p: usize| #[trigger] after.contains(p) implies o.take(n).contains(p) by {
            let k = after.index_of(p);
            if k < before.len() {
                assert(before[k] == p);
                assert(before.contains(p));
                let j = o.take(n - 1).index_of(p);
                assert(o.take(n)[j] == p);
            } else {
                assert(o.take(n)[n - 1] == p);
            }
        }
        assert(!before.contains(q));
        assert forall|k: int, l: int|
            0 <= k < after.len() && 0 <= l < after.len() && k != l implies after[k] != after[l] by {
            if k < before.len() && l < before.len() {
                assert(before[k] != before[l]);
            } else if k < before.len() {
                assert(before.contains(before[k]));
            } else if l < before.len() {
                assert(before.contains(before[l]));
            }
        }
    }
}

proof fn serving_updates_keeps<T: DbTable>(
    v: TaskView,
    th: Seq<AsicRows>,
    tr: Trace,
    timeout: u64,
    a: int,
)
    requires
        0 <= a < th.len(),
    ensures
        ({
            let (after, rows, t) = port_updates_served::<T>(v, th, tr, timeout);
            &&& only_flags(th, rows, a)
            &&& t.answers == tr.answers
            &&& after.m == v.m && after.u == v.u && after.interval == v.interval
            &&& after.skip_cmis_mgr == v.skip_cmis_mgr
        }),
{
    let t1 = tr.then_ask(Ask::Updates(timeout));
    if let Some(events) = tr.updates(timeout) {
        noting_keeps(v, t1, events, 0);
        let (v1, t2) = updates_noted(v, t1, events);
        serving_keeps::<T>(
            v1,
            th,
            t2.then_ask(Ask::Uptime),
            v1.pending.due(t2.uptime()),
            a,
        );
    } else {
        let t2 = t1.then_ask(
            Ask::Sleep(
                if timeout < 1000 {
                    timeout
                } else {
                    1000
                },
            ),
        );
        serving_keeps::<T>(v, th, t2.then_ask(Ask::Uptime), v.pending.due(t2.uptime()), a);
    }
}

/// A re-read that is due is made while updates are served: where no update told of
/// another flap of the slot, the flags that its module gives are then in the row
/// of its port, and no re-read of the slot is to come.
pub proof fn due_reread_is_made<T: DbTable>(
    v: TaskView,
    th: Seq<AsicRows>,
    tr: Trace,
    timeout: u64,
    port: usize,
    name: Seq<char>,
    a: int,
    secs: u64,
    f: Vals,
    x: Seq<char>,
)
    requires
        listed(v),
        is_pending(v, port),
        forall|h: Seq<Ask>| v.pending.at[port].fire_at <= #[trigger] (tr.answers.uptime)(h),
        tr.updates(timeout) matches Some(events) ==> forall|j: int, d: Seq<char>|
            0 <= j < events.len() ==> !#[trigger] tells_flaps(v.m, events[j], port, d),
        steady(tr.answers, port, secs),
        seated(v.m, th, port, name, a),
        monitored(th[a], name, v.skip_cmis_mgr),
        th[a].vdm.flags.len() == 4,
        says(tr.answers, port, "get_transceiver_dom_flags"@) matches Some(r) && r.fields == Some(f),
        tellable(f),
        field(f, x) is Some,
    ensures
        ({
            let (after, rows, _t) = port_updates_served::<T>(v, th, tr, timeout);
            &&& value_at(rows[a].dom_flags.value, name, x) == Some(dom_text(x, field(f, x)->0))
            &&& !is_pending(after, port)
        }),
{
    let t1 = tr.then_ask(Ask::Updates(timeout));
    let (v1, t2) = match tr.updates(timeout) {
        Some(events) => updates_noted(v, t1, events),
        None => (
            v,
            t1.then_ask(
                Ask::Sleep(
                    if timeout < 1000 {
                        timeout
                    } else {
                        1000
                    },
                ),
            ),
        ),
    };
    if let Some(events) = tr.updates(timeout) {
        noting_keeps(v, t1, events, port);
        untold_slot_is_left(v, t1, events, port);
        noting_keeps_the_list(v, t1, events);
    }
    assert(t2.answers == tr.answers);
    let now = t2.uptime();
    let due = v1.pending.due(now);
    assert(v1.pending.at[port] == v.pending.at[port]);
    assert(v.pending.at[port].fire_at <= now);
    rereads_are_due_in_time(v1.pending, now, port);
    due_are_listed_once(v1, v1.pending.order.len() as int, now);
    let i = due.index_of(port);
    due_rereads_publish_the_flags::<T>(
        v1,
        th,
        t2.then_ask(Ask::Uptime),
        due,
        i,
        name,
        a,
        secs,
        f,
        x,
    );
}

// ---- flags that are missing ----

proof fn republishing_keeps<T: DbTable>(
    v: TaskView,
    th: Seq<AsicRows>,
    tr: Trace,
    slots: Seq<usize>,
    a: int,
)
    requires
        0 <= a < th.len(),
    ensures
        ({
            let (after, rows, t) = republished::<T>(v, th, tr, slots);
            &&& only_flags(th, rows, a)
            &&& t.answers == tr.answers
            &&& after.m == v.m && after.u == v.u && after.interval == v.interval
            &&& after.skip_cmis_mgr == v.skip_cmis_mgr
        }),
    decreases slots.len(),
{
    if slots.len() > 0 && !tr.stop() {
        let t1 = tr.then_ask(Ask::Stop);
        let slot = slots[0];
        let rest = slots.skip(1);
        if !flags_missing(v.m, th, slot) {
            republishing_keeps::<T>(v, th, t1, rest, a);
        } else {
            let t2 = t1.then_ask(Ask::Presence(slot));
            if !t1.present(slot) {
                republishing_keeps::<T>(v, th, t2, rest, a);
            } else {
                let (th1, t3, outcome) = reread::<T>(th, v.m, t2, v.skip_cmis_mgr, slot);
                rereading_keeps::<T>(th, v.m, t2, v.skip_cmis_mgr, slot, a);
                let v1 = if outcome == LinkChangeReread::Settled {
                    TaskView { pending: v.pending.less(slot), ..v }
                } else {
                    v
                };
                republishing_keeps::<T>(v1, th1, t3, rest, a);
            }
        }
    }
}

proof fn republishing_others_leaves_alone<T: DbTable>(
    v: TaskView,
    th: Seq<AsicRows>,
    tr: Trace,
    slots: Seq<usize>,
    a: int,
    port: usize,
    name: Seq<char>,
)
    requires
        0 <= a < th.len(),
        th[a].vdm.flags.len() == 4,
        v.m.agrees(),
        v.m.first_on(port) == Some(name),
        !slots.contains(port),
    ensures
        row_at(republished::<T>(v, th, tr, slots).1[a].dom_flags.value, name) == row_at(
            th[a].dom_flags.value,
            name,
        ),
    decreases slots.len(),
{
    if slots.len() > 0 && !tr.stop() {
        let t1 = tr.then_ask(Ask::Stop);
        let slot = slots[0];
        let rest = slots.skip(1);
        assert(slot != port);
        if rest.contains(port) {
            assert(slots[rest.index_of(port) + 1] == port);
        }
        if !flags_missing(v.m, th, slot) {
            republishing_others_leaves_alone::<T>(v, th, t1, rest, a, port, name);
        } else {
            let t2 = t1.then_ask(Ask::Presence(slot));
            if !t1.present(slot) {
                republishing_others_leaves_alone::<T>(v, th, t2, rest, a, port, name);
            } else {
                let (th1, t3, outcome) = reread::<T>(th, v.m, t2, v.skip_cmis_mgr, slot);
                rereading_keeps::<T>(th, v.m, t2, v.skip_cmis_mgr, slot, a);
                first_port_sits_on_its_slot(v.m, port, name);
                if v.m.first_on(slot) == Some(name) {
                    first_port_sits_on_its_slot(v.m, slot, name);
                }
                rereading_leaves_other_ports_alone::<T>(
                    th,
                    v.m,
                    t2,
                    v.skip_cmis_mgr,
                    slot,
                    name,
                    a,
                );
                let v1 = if outcome == LinkChangeReread::Settled {
                    TaskView { pending: v.pending.less(slot), ..v }
                } else {
                    v
                };
                republishing_others_leaves_alone::<T>(v1, th1, t3, rest, a, port, name);
            }
        }
    }
}

/// Whether a port has no flag row although its data path has come up: the row is
/// known to be empty, and the bring-up ended in success or failure.
pub open spec fn lacks_flags(a: AsicRows, name: Seq<char>) -> bool {
    &&& a.flag_sizes_readable
    &&& row_at(a.dom_flags.value, name) is None
    &&& value_at(a.status_sw, name, "cmis_state"@) == Some("READY"@) || value_at(
        a.status_sw,
        name,
        "cmis_state"@,
    ) == Some("FAILED"@)
}

proof fn lacking_flags_are_missing(
    m: MappingView,
    th: Seq<AsicRows>,
    port: usize,
    name: Seq<char>,
    a: int,
)
    requires
        seated(m, th, port, name, a),
        monitored(th[a], name, false),
        lacks_flags(th[a], name),
    ensures
        flags_missing(m, th, port),
{
    first_port_sits_on_its_slot(m, port, name);
    reveal_strlit("REMOVED");
    reveal_strlit("READY");
    reveal_strlit("FAILED");
    reveal_strlit("disabled");
    reveal_strlit("enabled");
    assert("disabled"@.len() == 8 && "enabled"@.len() == 7);
    assert("REMOVED"@.len() == 7 && "READY"@.len() == 5 && "FAILED"@.len() == 6);
}

proof fn missing_flags_come_back<T: DbTable>(
    v: TaskView,
    th: Seq<AsicRows>,
    tr: Trace,
    slots: Seq<usize>,
    i: int,
    name: Seq<char>,
    a: int,
    secs: u64,
    f: Vals,
    x: Seq<char>,
)
    requires
        0 <= i < slots.len(),
        slots.no_duplicates(),
        !v.skip_cmis_mgr,
        steady(tr.answers, slots[i], secs),
        seated(v.m, th, slots[i], name, a),
        monitored(th[a], name, false),
        lacks_flags(th[a], name),
        th[a].vdm.flags.len() == 4,
        says(tr.answers, slots[i], "get_transceiver_dom_flags"@) matches Some(r) && r.fields
            == Some(f),
        tellable(f),
        field(f, x) is Some,
    ensures
        value_at(republished::<T>(v, th, tr, slots).1[a].dom_flags.value, name, x) == Some(
            dom_text(x, field(f, x)->0),
        ),
        !is_pending(republished::<T>(v, th, tr, slots).0, slots[i]),
    decreases slots.len(),
{
    let port = slots[i];
    let t1 = tr.then_ask(Ask::Stop);
    assert(!tr.stop());
    let slot = slots[0];
    let rest = slots.skip(1);
    assert(rest.no_duplicates()) by {
        assert forall|k: int, l: int|
            0 <= k < rest.len() && 0 <= l < rest.len() && k != l implies rest[k] != rest[l] by {
            assert(slots[k + 1] != slots[l + 1]);
        }
    }
    let t2 = t1.then_ask(Ask::Presence(slot));
    if i == 0 {
        lacking_flags_are_missing(v.m, th, port, name, a);
        assert(t1.present(port));
        reread_publishes_the_monitor_flags::<T>(th, v.m, t2, false, port, name, a, secs, f, x);
        let (th1, t3, outcome) = reread::<T>(th, v.m, t2, false, port);
        let v1 = TaskView { pending: v.pending.less(slot), ..v };
        assert(!rest.contains(port)) by {
            if rest.contains(port) {
                assert(slots[rest.index_of(port) + 1] == slots[0]);
            }
        }
        rereading_keeps::<T>(th, v.m, t2, false, port, a);
        republishing_others_leaves_alone::<T>(v1, th1, t3, rest, a, port, name);
        republishing_adds_none::<T>(v1, th1, t3, rest, port);
    } else {
        assert(rest[i - 1] == port);
        if !flags_missing(v.m, th, slot) {
            missing_flags_come_back::<T>(v, th, t1, rest, i - 1, name, a, secs, f, x);
        } else if !t1.present(slot) {
            missing_flags_come_back::<T>(v, th, t2, rest, i - 1, name, a, secs, f, x);
        } else {
            let (th1, t3, outcome) = reread::<T>(th, v.m, t2, false, slot);
            rereading_keeps::<T>(th, v.m, t2, false, slot, a);
            first_port_sits_on_its_slot(v.m, port, name);
            if v.m.first_on(slot) == Some(name) {
                first_port_sits_on_its_slot(v.m, slot, name);
            }
            assert(slots[0] != slots[i]);
            rereading_leaves_other_ports_alone::<T>(th, v.m, t2, false, slot, name, a);
            rereading_keeps_sizes_readable::<T>(th, v.m, t2, false, slot, a);
            let v1 = if outcome == LinkChangeReread::Settled {
                TaskView { pending: v.pending.less(slot), ..v }
            } else {
                v
            };
            missing_flags_come_back::<T>(v1, th1, t3, rest, i - 1, name, a, secs, f, x);
        }
    }
}

proof fn republishing_adds_none<T: DbTable>(
    v: TaskView,
    th: Seq<AsicRows>,
    tr: Trace,
    slots: Seq<usize>,
    port: usize,
)
    requires
        !is_pending(v, port),
    ensures
        !is_pending(republished::<T>(v, th, tr, slots).0, port),
    decreases slots.len(),
{
    if slots.len() > 0 && !tr.stop() {
        let t1 = tr.then_ask(Ask::Stop);
        let slot = slots[0];
        let rest = slots.skip(1);
        if !flags_missing(v.m, th, slot) {
            republishing_adds_none::<T>(v, th, t1, rest, port);
        } else {
            let t2 = t1.then_ask(Ask::Presence(slot));
            if !t1.present(slot) {
                republishing_adds_none::<T>(v, th, t2, rest, port);
            } else {
                let (th1, t3, outcome) = reread::<T>(th, v.m, t2, v.skip_cmis_mgr, slot);
                let v1 = if outcome == LinkChangeReread::Settled {
                    TaskView { pending: v.pending.less(slot), ..v }
                } else {
                    v
                };
                republishing_adds_none::<T>(v1, th1, t3, rest, port);
            }
        }
    }
}

proof fn rereading_keeps_sizes_readable<T: DbTable>(
    th: Seq<AsicRows>,
    m: MappingView,
    tr: Trace,
    skip_cmis_mgr: bool,
    port: usize,
    a: int,
)
    requires
        0 <= a < th.len(),
    ensures
        reread::<T>(th, m, tr, skip_cmis_mgr, port).0[a].flag_sizes_readable
            == th[a].flag_sizes_readable,
{
}

/// Flags that are missing come back: the hook publishes those of every port whose
/// data path has come up and that has no flag row, where its module gives any. A
/// re-read of such a port that was still to come is dropped.
pub proof fn hook_publishes_missing_flags<T: DbTable>(
    v: TaskView,
    th: Seq<AsicRows>,
    tr: Trace,
    port: usize,
    name: Seq<char>,
    a: int,
    secs: u64,
    f: Vals,
    x: Seq<char>,
)
    requires
        !v.skip_cmis_mgr,
        steady(tr.answers, port, secs),
        seated(v.m, th, port, name, a),
        monitored(th[a], name, false),
        lacks_flags(th[a], name),
        th[a].vdm.flags.len() == 4,
        says(tr.answers, port, "get_transceiver_dom_flags"@) matches Some(r) && r.fields == Some(f),
        tellable(f),
        field(f, x) is Some,
    ensures
        value_at(hook_ran::<T>(v, th, tr).1[a].dom_flags.value, name, x) == Some(
            dom_text(x, field(f, x)->0),
        ),
        !is_pending(hook_ran::<T>(v, th, tr).0, port),
{
    assert(v.m.tenants.dom().contains(port));
    assert(v.m.slots.contains(port));
    let i = v.m.slots.index_of(port);
    missing_flags_come_back::<T>(v, th, tr, v.m.slots, i, name, a, secs, f, x);
}

proof fn upkeep_keeps<T: DbTable>(
    v: TaskView,
    th: Seq<AsicRows>,
    tr: Trace,
    now: u64,
    next_reconcile: u64,
    a: int,
)
    requires
        0 <= a < th.len(),
    ensures
        ({
            let (after, rows, t, _n) = upkeep::<T>(v, th, tr, now, next_reconcile);
            &&& only_flags(th, rows, a)
            &&& t.answers == tr.answers
            &&& after.m == v.m && after.u == v.u && after.interval == v.interval
            &&& after.skip_cmis_mgr == v.skip_cmis_mgr
        }),
{
    if now >= next_reconcile {
        comparing_keeps(v, th, tr, v.m.slots, 0);
        let (v1, t1) = reconciled(v, th, tr, v.m.slots);
        republishing_keeps::<T>(v1, th, t1, v1.m.slots, a);
    }
}

/// Flap counts are compared and missing flags looked for no earlier than it is
/// time, and then not again for a second.
pub proof fn upkeep_comes_every_second<T: DbTable>(
    v: TaskView,
    th: Seq<AsicRows>,
    tr: Trace,
    now: u64,
    next_reconcile: u64,
)
    requires
        now + 1000 <= u64::MAX,
    ensures
        now < next_reconcile ==> upkeep::<T>(v, th, tr, now, next_reconcile) == (
            v,
            th,
            tr,
            next_reconcile,
        ),
        now >= next_reconcile ==> upkeep::<T>(v, th, tr, now, next_reconcile).3 == now + 1000,
{
}

/// When it is time, a flap that the database knows of leaves a re-read to come,
/// where no hook runs that could make it at once.
pub proof fn upkeep_finds_untold_flaps<T: DbTable>(
    v: TaskView,
    th: Seq<AsicRows>,
    tr: Trace,
    now: u64,
    next_reconcile: u64,
    i: int,
    c: Seq<char>,
)
    requires
        now >= next_reconcile,
        v.skip_cmis_mgr,
        0 <= i < v.m.slots.len(),
        crate::dom::schedule_laws::database_has(v.m, th, v.m.slots[i], c),
        !crate::dom::schedule_laws::last_seen(v, v.m.slots[i], c),
    ensures
        is_pending(upkeep::<T>(v, th, tr, now, next_reconcile).0, v.m.slots[i]),
{
    crate::dom::schedule_laws::untold_flap_is_found(v, th, tr, v.m.slots, i, c);
    comparing_keeps(v, th, tr, v.m.slots, 0);
}

// ---- a pass ----

/// Whether the name of every port that is first on a slot stands for the slot. A
/// port whose name spells the number of another slot would not.
pub open spec fn names_stand_for_slots(m: MappingView) -> bool {
    forall|q: usize|
        #[trigger] m.first_on(q) matches Some(name) ==> m.slot_named(name) == Some(q)
}

proof fn observables_keep<T: DbTable>(
    a: AsicRows,
    m: MappingView,
    tr: Trace,
    u: VdmUtils,
    name: Seq<char>,
    port: usize,
)
    ensures
        a.vdm.flags.len() == 4 ==> posted_vdm_diagnostics::<T>(
            a,
            m,
            tr,
            u,
            name,
            port,
        ).0.vdm.flags.len() == 4,
        posted_vdm_diagnostics::<T>(a, m, tr, u, name, port).1.answers == tr.answers,
{
    let t1 = tr.then_ask(Ask::Json(port, "is_transceiver_vdm_supported"@));
    answers_stay_statistics::<T>(a.pm, m, t1, u, name, port);
    let (pm, statistic, t2) = crate::dom::dom_mgr::statistics_taken::<T>(
        a.pm,
        m,
        t1,
        u,
        name,
        port,
    );
    let basic = crate::dom::dom_mgr::object_fields(
        t2.json(port, "get_transceiver_vdm_real_value_basic"@),
    );
    let t3 = t2.then_ask(Ask::Json(port, "get_transceiver_vdm_real_value_basic"@));
    let (shown_values, t4) = crate::dom::vdm::posted_real_values::<T>(
        a.vdm.real_value,
        m,
        t3,
        name,
        crate::dom::dom_mgr::merged_values(basic, statistic),
    );
    let v = VdmRows {
        real_value: shown_values,
        flags: a.vdm.flags,
        thresholds: a.vdm.thresholds,
    };
    observable_flags_keep::<T>(v, m, t4, name);
}

proof fn polling_keeps<T: DbTable>(
    th: Seq<AsicRows>,
    m: MappingView,
    tr: Trace,
    u: VdmUtils,
    skip_cmis_mgr: bool,
    port: usize,
    a: int,
)
    requires
        0 <= a < th.len(),
    ensures
        framed(th, polled_port::<T>(th, m, tr, u, skip_cmis_mgr, port).0, a),
        polled_port::<T>(th, m, tr, u, skip_cmis_mgr, port).1.answers == tr.answers,
{
    polling_keeps_the_rows_of_other_tasks::<T>(th, m, tr, u, skip_cmis_mgr, port, a);
    if let Some(name) = m.first_on(port) {
        if let Some(k) = m.asic_of(name) {
            if k < th.len() {
                let o = th[k as int];
                let t0 = tr.then_ask(Ask::Presence(port));
                let (fw, _c1, t1) = crate::dom::dom_mgr::posted_firmware::<T>(
                    o.firmware_info,
                    None,
                    m,
                    t0,
                    name,
                );
                assert(t1.answers == tr.answers);
                let (dom, _c2, t2) = crate::dom::dom_sensor::posted_monitor::<T>(
                    o.dom,
                    None,
                    m,
                    t1,
                    name,
                    Reader::Sensor,
                    Beautify::Dom,
                );
                assert(t2.answers == tr.answers);
                let (df, _c3, t3, _p3) = posted_flag_family::<T>(
                    o.dom_flags,
                    None,
                    m,
                    t2,
                    name,
                    Reader::DomFlags,
                    Beautify::Dom,
                );
                assert(t3.answers == tr.answers);
                let (st, _c4, t4) = crate::dom::dom_sensor::posted_monitor::<T>(
                    o.status,
                    None,
                    m,
                    t3,
                    name,
                    Reader::Status,
                    Beautify::Plain,
                );
                assert(t4.answers == tr.answers);
                let (sf, _c5, t5, _p5) = posted_flag_family::<T>(
                    o.status_flags,
                    None,
                    m,
                    t4,
                    name,
                    Reader::StatusFlags,
                    Beautify::Plain,
                );
                assert(t5.answers == tr.answers);
                let a1 = AsicRows {
                    firmware_info: fw,
                    dom,
                    dom_flags: df,
                    status: st,
                    status_flags: sf,
                    ..o
                };
                observables_keep::<T>(a1, m, t5, u, name, port);
            }
        }
    }
}

proof fn polling_another_slot_leaves_alone<T: DbTable>(
    th: Seq<AsicRows>,
    m: MappingView,
    tr: Trace,
    u: VdmUtils,
    skip_cmis_mgr: bool,
    slot: usize,
    port: usize,
    name: Seq<char>,
    a: int,
)
    requires
        0 <= a < th.len(),
        th[a].vdm.flags.len() == 4,
        m.agrees(),
        names_stand_for_slots(m),
        m.first_on(port) == Some(name),
        slot != port,
    ensures
        tables_same_at(th[a], polled_port::<T>(th, m, tr, u, skip_cmis_mgr, slot).0[a], name),
{
    first_port_sits_on_its_slot(m, port, name);
    assert(!m.logical_on(slot).contains(name));
    assert(m.first_on(slot) matches Some(n) ==> m.slot_named(n) == Some(slot));
    polling_leaves_other_ports_alone::<T>(th, m, tr, u, skip_cmis_mgr, slot, name, a);
}

proof fn polling_others_leaves_alone<T: DbTable>(
    th: Seq<AsicRows>,
    m: MappingView,
    tr: Trace,
    u: VdmUtils,
    skip_cmis_mgr: bool,
    slots: Seq<usize>,
    port: usize,
    name: Seq<char>,
    a: int,
)
    requires
        0 <= a < th.len(),
        th[a].vdm.flags.len() == 4,
        m.agrees(),
        names_stand_for_slots(m),
        m.first_on(port) == Some(name),
        !slots.contains(port),
    ensures
        row_at(polled::<T>(th, m, tr, u, skip_cmis_mgr, slots).0[a].dom, name) == row_at(
            th[a].dom,
            name,
        ),
    decreases slots.len(),
{
    if slots.len() > 0 && !tr.stop() {
        assert(slots[0] != port);
        let t1 = tr.then_ask(Ask::Stop);
        polling_another_slot_leaves_alone::<T>(
            th,
            m,
            t1,
            u,
            skip_cmis_mgr,
            slots[0],
            port,
            name,
            a,
        );
        polling_keeps::<T>(th, m, t1, u, skip_cmis_mgr, slots[0], a);
        let (th1, t2) = polled_port::<T>(th, m, t1, u, skip_cmis_mgr, slots[0]);
        let rest = slots.skip(1);
        if rest.contains(port) {
            assert(slots[rest.index_of(port) + 1] == port);
        }
        polling_others_leaves_alone::<T>(th1, m, t2, u, skip_cmis_mgr, rest, port, name, a);
    }
}

/// A pass reaches every slot: when it is over, what the module in each of them
/// reports is in the row of its port.
pub proof fn pass_reaches_every_slot<T: DbTable>(
    th: Seq<AsicRows>,
    m: MappingView,
    tr: Trace,
    u: VdmUtils,
    skip_cmis_mgr: bool,
    slots: Seq<usize>,
    i: int,
    name: Seq<char>,
    a: int,
    secs: u64,
    f: Vals,
    x: Seq<char>,
)
    requires
        0 <= i < slots.len(),
        slots.no_duplicates(),
        names_stand_for_slots(m),
        steady(tr.answers, slots[i], secs),
        seated(m, th, slots[i], name, a),
        monitored(th[a], name, skip_cmis_mgr),
        th[a].vdm.flags.len() == 4,
        says(tr.answers, slots[i], "get_transceiver_dom_real_value"@) matches Some(r) && r.fields
            == Some(f),
        tellable(f),
        field(f, x) is Some,
    ensures
        value_at(polled::<T>(th, m, tr, u, skip_cmis_mgr, slots).0[a].dom, name, x) == Some(
            dom_text(x, field(f, x)->0),
        ),
    decreases slots.len(),
{
    let port = slots[i];
    let t1 = tr.then_ask(Ask::Stop);
    assert(!tr.stop());
    let (th1, t2) = polled_port::<T>(th, m, t1, u, skip_cmis_mgr, slots[0]);
    polling_keeps::<T>(th, m, t1, u, skip_cmis_mgr, slots[0], a);
    let rest = slots.skip(1);
    if i == 0 {
        pass_publishes_the_monitors::<T>(
            th,
            m,
            t1,
            u,
            skip_cmis_mgr,
            port,
            name,
            a,
            secs,
            f,
            x,
        );
        assert(!rest.contains(port)) by {
            if rest.contains(port) {
                assert(slots[rest.index_of(port) + 1] == slots[0]);
            }
        }
        polling_others_leaves_alone::<T>(th1, m, t2, u, skip_cmis_mgr, rest, port, name, a);
    } else {
        assert(rest[i - 1] == port);
        assert(rest.no_duplicates()) by {
            assert forall|k: int, l: int|
                0 <= k < rest.len() && 0 <= l < rest.len() && k != l implies rest[k] != rest[l] by {
                assert(slots[k + 1] != slots[l + 1]);
            }
        }
        pass_reaches_every_slot::<T>(
            th1,
            m,
            t2,
            u,
            skip_cmis_mgr,
            rest,
            i - 1,
            name,
            a,
            secs,
            f,
            x,
        );
    }
}

// ---- a pass with updates in between ----

proof fn interleaved_others_leave_alone<T: DbTable>(
    v: TaskView,
    th: Seq<AsicRows>,
    tr: Trace,
    next_reconcile: u64,
    slots: Seq<usize>,
    port: usize,
    name: Seq<char>,
    a: int,
)
    requires
        0 <= a < th.len(),
        th[a].vdm.flags.len() == 4,
        v.m.agrees(),
        names_stand_for_slots(v.m),
        v.m.first_on(port) == Some(name),
        !slots.contains(port),
    ensures
        row_at(polled_interleaved::<T>(v, th, tr, next_reconcile, slots).1[a].dom, name) == row_at(
            th[a].dom,
            name,
        ),
    decreases slots.len(),
{
    if slots.len() > 0 && !tr.stop() {
        assert(slots[0] != port);
        let t1 = tr.then_ask(Ask::Stop);
        let t2 = t1.then_ask(Ask::Uptime);
        let now = t1.uptime();
        let (v1, th1, t3, next) = upkeep::<T>(v, th, t2, now, next_reconcile);
        upkeep_keeps::<T>(v, th, t2, now, next_reconcile, a);
        let (v2, th2, t4) = port_updates_served::<T>(v1, th1, t3, 10);
        serving_updates_keeps::<T>(v1, th1, t3, 10, a);
        if !t4.stop() {
            let t5 = t4.then_ask(Ask::Stop);
            polling_another_slot_leaves_alone::<T>(
                th2,
                v2.m,
                t5,
                v2.u,
                v2.skip_cmis_mgr,
                slots[0],
                port,
                name,
                a,
            );
            polling_keeps::<T>(th2, v2.m, t5, v2.u, v2.skip_cmis_mgr, slots[0], a);
            let (th3, t6) = polled_port::<T>(th2, v2.m, t5, v2.u, v2.skip_cmis_mgr, slots[0]);
            let rest = slots.skip(1);
            if rest.contains(port) {
                assert(slots[rest.index_of(port) + 1] == port);
            }
            interleaved_others_leave_alone::<T>(v2, th3, t6, next, rest, port, name, a);
        }
    }
}

proof fn interleaved_pass_reaches_every_slot<T: DbTable>(
    v: TaskView,
    th: Seq<AsicRows>,
    tr: Trace,
    next_reconcile: u64,
    slots: Seq<usize>,
    i: int,
    name: Seq<char>,
    a: int,
    secs: u64,
    f: Vals,
    x: Seq<char>,
)
    requires
        0 <= i < slots.len(),
        slots.no_duplicates(),
        names_stand_for_slots(v.m),
        steady(tr.answers, slots[i], secs),
        seated(v.m, th, slots[i], name, a),
        monitored(th[a], name, v.skip_cmis_mgr),
        th[a].vdm.flags.len() == 4,
        says(tr.answers, slots[i], "get_transceiver_dom_real_value"@) matches Some(r) && r.fields
            == Some(f),
        tellable(f),
        field(f, x) is Some,
    ensures
        value_at(
            polled_interleaved::<T>(v, th, tr, next_reconcile, slots).1[a].dom,
            name,
            x,
        ) == Some(dom_text(x, field(f, x)->0)),
    decreases slots.len(),
{
    let port = slots[i];
    assert(!tr.stop());
    let t1 = tr.then_ask(Ask::Stop);
    let t2 = t1.then_ask(Ask::Uptime);
    let now = t1.uptime();
    let (v1, th1, t3, next) = upkeep::<T>(v, th, t2, now, next_reconcile);
    upkeep_keeps::<T>(v, th, t2, now, next_reconcile, a);
    let (v2, th2, t4) = port_updates_served::<T>(v1, th1, t3, 10);
    serving_updates_keeps::<T>(v1, th1, t3, 10, a);
    assert(!t4.stop());
    let t5 = t4.then_ask(Ask::Stop);
    let (th3, t6) = polled_port::<T>(th2, v2.m, t5, v2.u, v2.skip_cmis_mgr, slots[0]);
    polling_keeps::<T>(th2, v2.m, t5, v2.u, v2.skip_cmis_mgr, slots[0], a);
    let rest = slots.skip(1);
    assert(polled_interleaved::<T>(v, th, tr, next_reconcile, slots) == polled_interleaved::<T>(
        v2,
        th3,
        t6,
        next,
        rest,
    ));
    if i == 0 {
        pass_publishes_the_monitors::<T>(
            th2,
            v2.m,
            t5,
            v2.u,
            v2.skip_cmis_mgr,
            port,
            name,
            a,
            secs,
            f,
            x,
        );
        assert(!rest.contains(port)) by {
            if rest.contains(port) {
                assert(slots[rest.index_of(port) + 1] == slots[0]);
            }
        }
        interleaved_others_leave_alone::<T>(v2, th3, t6, next, rest, port, name, a);
    } else {
        assert(rest[i - 1] == port);
        assert(rest.no_duplicates()) by {
            assert forall|k: int, l: int|
                0 <= k < rest.len() && 0 <= l < rest.len() && k != l implies rest[k] != rest[l] by {
                assert(slots[k + 1] != slots[l + 1]);
            }
        }
        interleaved_pass_reaches_every_slot::<T>(
            v2,
            th3,
            t6,
            next,
            rest,
            i - 1,
            name,
            a,
            secs,
            f,
            x,
        );
    }
}

/// A step of the loop in which a pass is made reaches every slot, with updates
/// served in between: what the module in a slot reports is then in the row of its
/// port.
pub proof fn polling_step_reaches_every_slot<T: DbTable>(
    v: TaskView,
    th: Seq<AsicRows>,
    tr: Trace,
    s: DomSchedule,
    port: usize,
    name: Seq<char>,
    a: int,
    secs: u64,
    f: Vals,
    x: Seq<char>,
)
    requires
        s.phase == DomPhase::Poll,
        names_stand_for_slots(v.m),
        steady(tr.answers, port, secs),
        seated(v.m, th, port, name, a),
        monitored(th[a], name, v.skip_cmis_mgr),
        th[a].vdm.flags.len() == 4,
        says(tr.answers, port, "get_transceiver_dom_real_value"@) matches Some(r) && r.fields
            == Some(f),
        tellable(f),
        field(f, x) is Some,
    ensures
        value_at(stepped::<T>(v, th, tr, s).1[a].dom, name, x) == Some(
            dom_text(x, field(f, x)->0),
        ),
{
    assert(!tr.stop());
    assert(v.m.tenants.dom().contains(port));
    assert(v.m.slots.contains(port));
    let i = v.m.slots.index_of(port);
    let t2 = tr.then_ask(Ask::Stop).then_ask(Ask::Uptime);
    interleaved_pass_reaches_every_slot::<T>(
        v,
        th,
        t2,
        s.next_reconcile,
        v.m.slots,
        i,
        name,
        a,
        secs,
        f,
        x,
    );
}

// ---- re-reads in every step ----

/// Whether no update, whenever it comes, tells of flaps of a slot.
pub open spec fn untold(v: TaskView, tr: Trace, port: usize) -> bool {
    forall|h: Seq<Ask>, timeout: u64|
        (#[trigger] (tr.answers.updates)(h, timeout)) matches Some(events) ==> told_by_none(
            v.m,
            events,
            port,
        )
}

/// Whether none of a number of events tells of flaps of a slot.
pub open spec fn told_by_none(m: MappingView, events: Seq<EventView>, port: usize) -> bool {
    forall|j: int, d: Seq<char>|
        0 <= j < events.len() ==> !#[trigger] tells_flaps(m, events[j], port, d)
}

proof fn untold_updates_leave_the_slot<T: DbTable>(
    v: TaskView,
    th: Seq<AsicRows>,
    tr: Trace,
    timeout: u64,
    port: usize,
)
    requires
        listed(v),
        untold(v, tr, port),
        0 < th.len(),
    ensures
        ({
            let after = port_updates_served::<T>(v, th, tr, timeout).0;
            &&& !is_pending(v, port) ==> !is_pending(after, port)
            &&& v.flaps.dom().contains(port) ==> after.flaps.dom().contains(port)
                && after.flaps[port] == v.flaps[port]
        }),
{
    let t1 = tr.then_ask(Ask::Updates(timeout));
    let (v1, t2) = match tr.updates(timeout) {
        Some(events) => updates_noted(v, t1, events),
        None => (
            v,
            t1.then_ask(
                Ask::Sleep(
                    if timeout < 1000 {
                        timeout
                    } else {
                        1000
                    },
                ),
            ),
        ),
    };
    if let Some(events) = tr.updates(timeout) {
        assert(told_by_none(v.m, events, port));
        untold_slot_is_left(v, t1, events, port);
        noting_keeps_the_list(v, t1, events);
    }
    let due = v1.pending.due(t2.uptime());
    serving_keeps::<T>(v1, th, t2.then_ask(Ask::Uptime), due, 0);
    if !is_pending(v, port) {
        rereads_are_due_in_time(v1.pending, t2.uptime(), port);
        serving_adds_no_other::<T>(v1, th, t2.then_ask(Ask::Uptime), due, port);
    }
}

proof fn leaving_a_slot_out_keeps_the_list(v: TaskView, p: usize)
    requires
        listed(v),
    ensures
        listed(TaskView { pending: v.pending.less(p), ..v }),
{
    crate::assoc::without_leaves_the_others(v.pending.order, p);
    let w = TaskView { pending: v.pending.less(p), ..v };
    assert forall|q: usize| w.pending.order.contains(q) <==> #[trigger] w.pending.at.dom().contains(
        q,
    ) by {
        assert(v.pending.order.contains(q) <==> v.pending.at.dom().contains(q));
    }
}

proof fn serving_keeps_the_list<T: DbTable>(
    v: TaskView,
    th: Seq<AsicRows>,
    tr: Trace,
    due: Seq<usize>,
)
    requires
        listed(v),
    ensures
        listed(due_served::<T>(v, th, tr, due).0),
    decreases due.len(),
{
    if due.len() > 0 && !tr.stop() {
        let t1 = tr.then_ask(Ask::Stop);
        let (th1, t2, outcome) = reread::<T>(th, v.m, t1, v.skip_cmis_mgr, due[0]);
        let (pending, t3) = after_reread(v.pending, t2, due[0], outcome);
        leaving_a_slot_out_keeps_the_list(v, due[0]);
        let v1 = TaskView { pending, ..v };
        assert(listed(v1)) by {
            if v.pending.at.dom().contains(due[0]) {
                assert forall|q: usize|
                    v1.pending.order.contains(q) <==> #[trigger] v1.pending.at.dom().contains(
                        q,
                    ) by {
                    assert(v.pending.order.contains(q) <==> v.pending.at.dom().contains(q));
                    assert(v.pending.less(due[0]).order.contains(q) <==> v.pending.less(
                        due[0],
                    ).at.dom().contains(q));
                }
            }
        }
        serving_keeps_the_list::<T>(v1, th1, t3, due.skip(1));
    }
}

proof fn serving_updates_keeps_the_list<T: DbTable>(
    v: TaskView,
    th: Seq<AsicRows>,
    tr: Trace,
    timeout: u64,
)
    requires
        listed(v),
    ensures
        listed(port_updates_served::<T>(v, th, tr, timeout).0),
{
    let t1 = tr.then_ask(Ask::Updates(timeout));
    let (v1, t2) = match tr.updates(timeout) {
        Some(events) => updates_noted(v, t1, events),
        None => (
            v,
            t1.then_ask(
                Ask::Sleep(
                    if timeout < 1000 {
                        timeout
                    } else {
                        1000
                    },
                ),
            ),
        ),
    };
    if let Some(events) = tr.updates(timeout) {
        noting_keeps_the_list(v, t1, events);
    }
    serving_keeps_the_list::<T>(
        v1,
        th,
        t2.then_ask(Ask::Uptime),
        v1.pending.due(t2.uptime()),
    );
}

/// A step in which the loop waits makes the re-reads that are due, where it is not
/// yet time to compare flap counts.
pub proof fn waiting_step_makes_due_rereads<T: DbTable>(
    v: TaskView,
    th: Seq<AsicRows>,
    tr: Trace,
    s: DomSchedule,
    port: usize,
    name: Seq<char>,
    a: int,
    secs: u64,
    f: Vals,
    x: Seq<char>,
    now: u64,
)
    requires
        s.phase == DomPhase::Wait,
        now < s.next,
        now < s.next_reconcile,
        forall|h: Seq<Ask>| #[trigger] (tr.answers.uptime)(h) == now,
        listed(v),
        is_pending(v, port),
        v.pending.at[port].fire_at <= now,
        untold(v, tr, port),
        steady(tr.answers, port, secs),
        seated(v.m, th, port, name, a),
        monitored(th[a], name, v.skip_cmis_mgr),
        th[a].vdm.flags.len() == 4,
        says(tr.answers, port, "get_transceiver_dom_flags"@) matches Some(r) && r.fields == Some(f),
        tellable(f),
        field(f, x) is Some,
    ensures
        ({
            let (after, rows, _t, _n) = stepped::<T>(v, th, tr, s);
            &&& value_at(rows[a].dom_flags.value, name, x) == Some(dom_text(x, field(f, x)->0))
            &&& !is_pending(after, port)
        }),
{
    assert(!tr.stop());
    let t1 = tr.then_ask(Ask::Stop);
    assert(t1.uptime() == now);
    let t2 = t1.then_ask(Ask::Uptime);
    let ms = crate::dom::dom_mgr::wait_time(now, s.next, s.next_reconcile);
    if let Some(events) = t2.updates(ms) {
        assert(told_by_none(v.m, events, port));
    }
    due_reread_is_made::<T>(v, th, t2, ms, port, name, a, secs, f, x);
}

/// A step in which the loop waits finds the flaps that the database knows of when it
/// is time to compare: the count there is then the one seen last.
pub proof fn waiting_step_compares_counts<T: DbTable>(
    v: TaskView,
    th: Seq<AsicRows>,
    tr: Trace,
    s: DomSchedule,
    port: usize,
    c: Seq<char>,
    now: u64,
)
    requires
        s.phase == DomPhase::Wait,
        s.next_reconcile <= now < s.next,
        forall|h: Seq<Ask>| #[trigger] (tr.answers.uptime)(h) == now,
        forall|h: Seq<Ask>| !#[trigger] (tr.answers.stop)(h),
        now + 1000 <= u64::MAX,
        listed(v),
        untold(v, tr, port),
        v.m.agrees(),
        crate::dom::schedule_laws::database_has(v.m, th, port, c),
        0 < th.len(),
    ensures
        crate::dom::schedule_laws::last_seen(stepped::<T>(v, th, tr, s).0, port, c),
        stepped::<T>(v, th, tr, s).3 matches Some(n) && n.next_reconcile == now + 1000,
{
    let t1 = tr.then_ask(Ask::Stop);
    assert(!tr.stop());
    assert(t1.uptime() == now);
    let t2 = t1.then_ask(Ask::Uptime);
    upkeep_sees_counts::<T>(v, th, t2, now, s.next_reconcile, port, c);
    let (v1, th1, t3, nr) = upkeep::<T>(v, th, t2, now, s.next_reconcile);
    let ms = crate::dom::dom_mgr::wait_time(now, s.next, nr);
    upkeep_keeps::<T>(v, th, t2, now, s.next_reconcile, 0);
    assert(untold(v1, t3, port)) by {
        assert forall|h: Seq<Ask>, timeout: u64|
            (#[trigger] (t3.answers.updates)(h, timeout)) matches Some(events)
                ==> told_by_none(v1.m, events, port) by {
            assert((tr.answers.updates)(h, timeout) matches Some(events) ==> told_by_none(
                v.m,
                events,
                port,
            ));
        }
    }
    untold_updates_leave_the_slot::<T>(v1, th1, t3, ms, port);
}

proof fn comparing_keeps_the_list(v: TaskView, th: Seq<AsicRows>, tr: Trace, slots: Seq<usize>)
    requires
        listed(v),
    ensures
        listed(reconciled(v, th, tr, slots).0),
    decreases slots.len(),
{
    if slots.len() > 0 {
        let report = crate::dom::dom_mgr::flap_in_db(v.m, th, slots[0]);
        let (v1, t1) = crate::dom::dom_mgr::flap_noted(v, tr, report);
        if let Some((p, c)) = report {
            let o = v.pending.order;
            let n = o.push(p);
            assert forall|q: usize| n.contains(q) <==> o.contains(q) || q == p by {
                if o.contains(q) {
                    assert(n[o.index_of(q)] == q);
                }
                assert(n[o.len() as int] == p);
                if n.contains(q) {
                    let k = n.index_of(q);
                    if k < o.len() {
                        assert(o[k] == q);
                    }
                }
            }
            assert(v.pending.order.contains(p) <==> v.pending.at.dom().contains(p));
            assert forall|q: usize|
                v1.pending.order.contains(q) <==> #[trigger] v1.pending.at.dom().contains(q) by {
                assert(v.pending.order.contains(q) <==> v.pending.at.dom().contains(q));
            }
        }
        comparing_keeps_the_list(v1, th, t1, slots.skip(1));
    }
}

proof fn comparing_sees_counts(
    v: TaskView,
    th: Seq<AsicRows>,
    tr: Trace,
    slots: Seq<usize>,
    i: int,
    c: Seq<char>,
)
    requires
        0 <= i < slots.len(),
        slots.no_duplicates(),
        v.m.agrees(),
        crate::dom::schedule_laws::database_has(v.m, th, slots[i], c),
    ensures
        crate::dom::schedule_laws::last_seen(reconciled(v, th, tr, slots).0, slots[i], c),
    decreases slots.len(),
{
    let p = slots[i];
    let report = crate::dom::dom_mgr::flap_in_db(v.m, th, slots[0]);
    let (v1, t1) = crate::dom::dom_mgr::flap_noted(v, tr, report);
    let rest = slots.skip(1);
    assert(rest.no_duplicates()) by {
        assert forall|k: int, l: int|
            0 <= k < rest.len() && 0 <= l < rest.len() && k != l implies rest[k] != rest[l] by {
            assert(slots[k + 1] != slots[l + 1]);
        }
    }
    if i == 0 {
        assert(!rest.contains(p)) by {
            if rest.contains(p) {
                assert(slots[rest.index_of(p) + 1] == slots[0]);
            }
        }
        comparing_others_keeps_a_count(v1, th, t1, rest, p);
    } else {
        assert(rest[i - 1] == p);
        comparing_sees_counts(v1, th, t1, rest, i - 1, c);
    }
}

proof fn comparing_others_keeps_a_count(
    v: TaskView,
    th: Seq<AsicRows>,
    tr: Trace,
    slots: Seq<usize>,
    p: usize,
)
    requires
        v.m.agrees(),
        !slots.contains(p),
        v.flaps.dom().contains(p),
    ensures
        reconciled(v, th, tr, slots).0.flaps.dom().contains(p),
        reconciled(v, th, tr, slots).0.flaps[p] == v.flaps[p],
    decreases slots.len(),
{
    if slots.len() > 0 {
        let report = crate::dom::dom_mgr::flap_in_db(v.m, th, slots[0]);
        let (v1, t1) = crate::dom::dom_mgr::flap_noted(v, tr, report);
        assert(slots[0] != p);
        if let Some(name) = v.m.first_on(slots[0]) {
            first_port_sits_on_its_slot(v.m, slots[0], name);
        }
        let rest = slots.skip(1);
        if rest.contains(p) {
            assert(slots[rest.index_of(p) + 1] == p);
        }
        comparing_others_keeps_a_count(v1, th, t1, rest, p);
    }
}

proof fn republishing_keeps_flaps_and_list<T: DbTable>(
    v: TaskView,
    th: Seq<AsicRows>,
    tr: Trace,
    slots: Seq<usize>,
)
    requires
        listed(v),
    ensures
        republished::<T>(v, th, tr, slots).0.flaps == v.flaps,
        listed(republished::<T>(v, th, tr, slots).0),
    decreases slots.len(),
{
    if slots.len() > 0 && !tr.stop() {
        let t1 = tr.then_ask(Ask::Stop);
        let slot = slots[0];
        let rest = slots.skip(1);
        if !flags_missing(v.m, th, slot) {
            republishing_keeps_flaps_and_list::<T>(v, th, t1, rest);
        } else {
            let t2 = t1.then_ask(Ask::Presence(slot));
            if !t1.present(slot) {
                republishing_keeps_flaps_and_list::<T>(v, th, t2, rest);
            } else {
                let (th1, t3, outcome) = reread::<T>(th, v.m, t2, v.skip_cmis_mgr, slot);
                leaving_a_slot_out_keeps_the_list(v, slot);
                let v1 = if outcome == LinkChangeReread::Settled {
                    TaskView { pending: v.pending.less(slot), ..v }
                } else {
                    v
                };
                republishing_keeps_flaps_and_list::<T>(v1, th1, t3, rest);
            }
        }
    }
}

proof fn upkeep_sees_counts<T: DbTable>(
    v: TaskView,
    th: Seq<AsicRows>,
    tr: Trace,
    now: u64,
    next_reconcile: u64,
    port: usize,
    c: Seq<char>,
)
    requires
        next_reconcile <= now,
        listed(v),
        v.m.agrees(),
        crate::dom::schedule_laws::database_has(v.m, th, port, c),
    ensures
        ({
            let after = upkeep::<T>(v, th, tr, now, next_reconcile).0;
            crate::dom::schedule_laws::last_seen(after, port, c) && listed(after)
        }),
{
    assert(v.m.tenants.dom().contains(port));
    assert(v.m.slots.contains(port));
    let i = v.m.slots.index_of(port);
    comparing_sees_counts(v, th, tr, v.m.slots, i, c);
    comparing_keeps_the_list(v, th, tr, v.m.slots);
    comparing_keeps(v, th, tr, v.m.slots, port);
    let (v1, t1) = reconciled(v, th, tr, v.m.slots);
    republishing_keeps_flaps_and_list::<T>(v1, th, t1, v1.m.slots);
}

proof fn pass_leaves_the_slot_settled<T: DbTable>(
    v: TaskView,
    th: Seq<AsicRows>,
    tr: Trace,
    next_reconcile: u64,
    slots: Seq<usize>,
    port: usize,
    now: u64,
)
    requires
        forall|h: Seq<Ask>| #[trigger] (tr.answers.uptime)(h) == now,
        now < next_reconcile,
        listed(v),
        untold(v, tr, port),
        0 < th.len(),
    ensures
        ({
            let after = polled_interleaved::<T>(v, th, tr, next_reconcile, slots).0;
            &&& !is_pending(v, port) ==> !is_pending(after, port)
            &&& v.flaps.dom().contains(port) ==> after.flaps.dom().contains(port)
                && after.flaps[port] == v.flaps[port]
        }),
    decreases slots.len(),
{
    if slots.len() > 0 && !tr.stop() {
        let t1 = tr.then_ask(Ask::Stop);
        let t2 = t1.then_ask(Ask::Uptime);
        assert(t1.uptime() == now);
        let (v2, th2, t4) = port_updates_served::<T>(v, th, t2, 10);
        serving_updates_keeps::<T>(v, th, t2, 10, 0);
        serving_updates_keeps_the_list::<T>(v, th, t2, 10);
        untold_updates_leave_the_slot::<T>(v, th, t2, 10, port);
        if !t4.stop() {
            let t5 = t4.then_ask(Ask::Stop);
            polling_keeps::<T>(th2, v2.m, t5, v2.u, v2.skip_cmis_mgr, slots[0], 0);
            let (th3, t6) = polled_port::<T>(th2, v2.m, t5, v2.u, v2.skip_cmis_mgr, slots[0]);
            assert(untold(v2, t6, port)) by {
                assert forall|h: Seq<Ask>, timeout: u64|
                    (#[trigger] (t6.answers.updates)(h, timeout)) matches Some(events)
                        ==> told_by_none(v2.m, events, port) by {
                    assert((tr.answers.updates)(h, timeout) matches Some(events)
                        ==> told_by_none(v.m, events, port));
                }
            }
            pass_leaves_the_slot_settled::<T>(
                v2,
                th3,
                t6,
                next_reconcile,
                slots.skip(1),
                port,
                now,
            );
        }
    }
}

/// A step in which a pass is made also makes the re-reads that are due: none is
/// left to come of a slot whose module gives flags.
pub proof fn polling_step_makes_due_rereads<T: DbTable>(
    v: TaskView,
    th: Seq<AsicRows>,
    tr: Trace,
    s: DomSchedule,
    port: usize,
    name: Seq<char>,
    a: int,
    secs: u64,
    f: Vals,
    x: Seq<char>,
    now: u64,
)
    requires
        s.phase == DomPhase::Poll,
        now < s.next_reconcile,
        forall|h: Seq<Ask>| #[trigger] (tr.answers.uptime)(h) == now,
        listed(v),
        is_pending(v, port),
        v.pending.at[port].fire_at <= now,
        untold(v, tr, port),
        steady(tr.answers, port, secs),
        seated(v.m, th, port, name, a),
        monitored(th[a], name, v.skip_cmis_mgr),
        th[a].vdm.flags.len() == 4,
        says(tr.answers, port, "get_transceiver_dom_flags"@) matches Some(r) && r.fields == Some(f),
        tellable(f),
        field(f, x) is Some,
    ensures
        !is_pending(stepped::<T>(v, th, tr, s).0, port),
{
    assert(!tr.stop());
    let t0 = tr.then_ask(Ask::Stop).then_ask(Ask::Uptime);
    let slots = v.m.slots;
    assert(v.m.tenants.dom().contains(port));
    assert(slots.contains(port));
    assert(slots.len() > 0);
    assert(!t0.stop());
    let t1 = t0.then_ask(Ask::Stop);
    let t2 = t1.then_ask(Ask::Uptime);
    assert(t1.uptime() == now);
    if let Some(events) = t2.updates(10) {
        assert(told_by_none(v.m, events, port));
    }
    due_reread_is_made::<T>(v, th, t2, 10, port, name, a, secs, f, x);
    let (v2, th2, t4) = port_updates_served::<T>(v, th, t2, 10);
    serving_updates_keeps::<T>(v, th, t2, 10, a);
    serving_updates_keeps_the_list::<T>(v, th, t2, 10);
    assert(!t4.stop());
    let t5 = t4.then_ask(Ask::Stop);
    polling_keeps::<T>(th2, v2.m, t5, v2.u, v2.skip_cmis_mgr, slots[0], a);
    let (th3, t6) = polled_port::<T>(th2, v2.m, t5, v2.u, v2.skip_cmis_mgr, slots[0]);
    assert(untold(v2, t6, port)) by {
        assert forall|h: Seq<Ask>, timeout: u64|
            (#[trigger] (t6.answers.updates)(h, timeout)) matches Some(events) ==> told_by_none(
                v2.m,
                events,
                port,
            ) by {
            assert((tr.answers.updates)(h, timeout) matches Some(events) ==> told_by_none(
                v.m,
                events,
                port,
            ));
        }
    }
    pass_leaves_the_slot_settled::<T>(
        v2,
        th3,
        t6,
        s.next_reconcile,
        slots.skip(1),
        port,
        now,
    );
    assert(polled_interleaved::<T>(v, th, t0, s.next_reconcile, slots) == polled_interleaved::<T>(
        v2,
        th3,
        t6,
        s.next_reconcile,
        slots.skip(1),
    ));
}

/// A step in which a pass is made also compares the flap counts when it is time: the
/// count that the database has of a slot is then the one seen last.
pub proof fn polling_step_compares_counts<T: DbTable>(
    v: TaskView,
    th: Seq<AsicRows>,
    tr: Trace,
    s: DomSchedule,
    port: usize,
    c: Seq<char>,
    now: u64,
)
    requires
        s.phase == DomPhase::Poll,
        s.next_reconcile <= now,
        now + 1000 <= u64::MAX,
        forall|h: Seq<Ask>| #[trigger] (tr.answers.uptime)(h) == now,
        forall|h: Seq<Ask>| !#[trigger] (tr.answers.stop)(h),
        listed(v),
        untold(v, tr, port),
        v.m.agrees(),
        crate::dom::schedule_laws::database_has(v.m, th, port, c),
        0 < th.len(),
    ensures
        crate::dom::schedule_laws::last_seen(stepped::<T>(v, th, tr, s).0, port, c),
{
    assert(!tr.stop());
    let t0 = tr.then_ask(Ask::Stop).then_ask(Ask::Uptime);
    let slots = v.m.slots;
    assert(v.m.tenants.dom().contains(port));
    assert(slots.contains(port));
    assert(slots.len() > 0);
    assert(!t0.stop());
    let t1 = t0.then_ask(Ask::Stop);
    let t2 = t1.then_ask(Ask::Uptime);
    assert(t1.uptime() == now);
    upkeep_sees_counts::<T>(v, th, t2, now, s.next_reconcile, port, c);
    upkeep_keeps::<T>(v, th, t2, now, s.next_reconcile, 0);
    let (v1, th1, t3, nr) = upkeep::<T>(v, th, t2, now, s.next_reconcile);
    assert(untold(v1, t3, port)) by {
        assert forall|h: Seq<Ask>, timeout: u64|
            (#[trigger] (t3.answers.updates)(h, timeout)) matches Some(events) ==> told_by_none(
                v1.m,
                events,
                port,
            ) by {
            assert((tr.answers.updates)(h, timeout) matches Some(events) ==> told_by_none(
                v.m,
                events,
                port,
            ));
        }
    }
    untold_updates_leave_the_slot::<T>(v1, th1, t3, 10, port);
    let (v2, th2, t4) = port_updates_served::<T>(v1, th1, t3, 10);
    serving_updates_keeps::<T>(v1, th1, t3, 10, 0);
    serving_updates_keeps_the_list::<T>(v1, th1, t3, 10);
    assert(!t4.stop());
    let t5 = t4.then_ask(Ask::Stop);
    polling_keeps::<T>(th2, v2.m, t5, v2.u, v2.skip_cmis_mgr, slots[0], 0);
    let (th3, t6) = polled_port::<T>(th2, v2.m, t5, v2.u, v2.skip_cmis_mgr, slots[0]);
    assert(untold(v2, t6, port)) by {
        assert forall|h: Seq<Ask>, timeout: u64|
            (#[trigger] (t6.answers.updates)(h, timeout)) matches Some(events) ==> told_by_none(
                v2.m,
                events,
                port,
            ) by {
            assert((tr.answers.updates)(h, timeout) matches Some(events) ==> told_by_none(
                v.m,
                events,
                port,
            ));
        }
    }
    pass_leaves_the_slot_settled::<T>(v2, th3, t6, nr, slots.skip(1), port, now);
    assert(polled_interleaved::<T>(v, th, t0, s.next_reconcile, slots) == polled_interleaved::<T>(
        v2,
        th3,
        t6,
        nr,
        slots.skip(1),
    ));
}

// ---- the temperature task ----

proof fn temperature_keeps<T: DbTable>(
    th: Seq<AsicRows>,
    m: MappingView,
    tr: Trace,
    slot: usize,
    a: int,
    name: Seq<char>,
)
    requires
        0 <= a < th.len(),
    ensures
        ({
            let (after, t) = temperature_polled::<T>(th, m, tr, slot);
            &&& after.len() == th.len()
            &&& after[a] == (AsicRows { dom_temperature: after[a].dom_temperature, ..th[a] })
            &&& m.first_on(slot) != Some(name) ==> row_at(after[a].dom_temperature, name) == row_at(
                th[a].dom_temperature,
                name,
            )
            &&& t.answers == tr.answers
        }),
{
}

proof fn temperatures_of_others_leave_alone<T: DbTable>(
    th: Seq<AsicRows>,
    m: MappingView,
    tr: Trace,
    slots: Seq<usize>,
    port: usize,
    name: Seq<char>,
    a: int,
)
    requires
        0 <= a < th.len(),
        m.agrees(),
        m.first_on(port) == Some(name),
        !slots.contains(port),
    ensures
        row_at(temperatures_polled::<T>(th, m, tr, slots).0[a].dom_temperature, name) == row_at(
            th[a].dom_temperature,
            name,
        ),
    decreases slots.len(),
{
    if slots.len() > 0 && !tr.stop() {
        assert(slots[0] != port);
        let t1 = tr.then_ask(Ask::Stop);
        temperature_keeps::<T>(th, m, t1, slots[0], a, name);
        first_port_sits_on_its_slot(m, port, name);
        if m.first_on(slots[0]) == Some(name) {
            first_port_sits_on_its_slot(m, slots[0], name);
        }
        let (th1, t2) = temperature_polled::<T>(th, m, t1, slots[0]);
        let rest = slots.skip(1);
        if rest.contains(port) {
            assert(slots[rest.index_of(port) + 1] == port);
        }
        temperatures_of_others_leave_alone::<T>(th1, m, t2, rest, port, name, a);
    }
}

proof fn temperatures_reach_every_slot<T: DbTable>(
    th: Seq<AsicRows>,
    m: MappingView,
    tr: Trace,
    slots: Seq<usize>,
    i: int,
    name: Seq<char>,
    a: int,
    secs: u64,
)
    requires
        0 <= i < slots.len(),
        slots.no_duplicates(),
        steady(tr.answers, slots[i], secs),
        seated(m, th, slots[i], name, a),
        monitored(th[a], name, true),
        says(tr.answers, slots[i], "get_temperature"@) is Some,
    ensures
        value_at(
            temperatures_polled::<T>(th, m, tr, slots).0[a].dom_temperature,
            name,
            "temperature"@,
        ) == Some(unit_stripped(says(tr.answers, slots[i], "get_temperature"@)->0.value, "C"@)),
    decreases slots.len(),
{
    let port = slots[i];
    assert(!tr.stop());
    let t1 = tr.then_ask(Ask::Stop);
    let (th1, t2) = temperature_polled::<T>(th, m, t1, slots[0]);
    temperature_keeps::<T>(th, m, t1, slots[0], a, name);
    let rest = slots.skip(1);
    if i == 0 {
        temperature_is_published::<T>(th, m, t1, port, name, a, secs);
        assert(!rest.contains(port)) by {
            if rest.contains(port) {
                assert(slots[rest.index_of(port) + 1] == slots[0]);
            }
        }
        temperatures_of_others_leave_alone::<T>(th1, m, t2, rest, port, name, a);
    } else {
        assert(rest[i - 1] == port);
        assert(rest.no_duplicates()) by {
            assert forall|k: int, l: int|
                0 <= k < rest.len() && 0 <= l < rest.len() && k != l implies rest[k] != rest[l] by {
                assert(slots[k + 1] != slots[l + 1]);
            }
        }
        temperatures_reach_every_slot::<T>(th1, m, t2, rest, i - 1, name, a, secs);
    }
}

/// The temperature task publishes the temperature of every slot when a pass is due
/// and sleeps until then, for at most a second at a time. The next pass is due an
/// interval after the last one ended. It ends where the daemon is asked to stop.
pub proof fn temperature_step_reaches_every_slot<T: DbTable>(
    th: Seq<AsicRows>,
    m: MappingView,
    tr: Trace,
    next: u64,
    interval: u64,
    port: usize,
    name: Seq<char>,
    a: int,
    secs: u64,
    now: u64,
)
    requires
        steady(tr.answers, port, secs),
        forall|h: Seq<Ask>| #[trigger] (tr.answers.uptime)(h) == now,
        now + interval <= u64::MAX,
        seated(m, th, port, name, a),
        monitored(th[a], name, true),
        says(tr.answers, port, "get_temperature"@) is Some,
    ensures
        ({
            let (rows, t, after) = temperature_stepped::<T>(th, m, tr, next, interval);
            &&& next <= now ==> value_at(rows[a].dom_temperature, name, "temperature"@) == Some(
                unit_stripped(says(tr.answers, port, "get_temperature"@)->0.value, "C"@),
            ) && after == Some((now + interval) as u64)
            &&& next > now ==> rows == th && after == Some(next) && (t.asked.last() matches Ask::Sleep(
                ms,
            ) && ms <= 1000 && now + ms <= next && (ms == 1000 || now + ms == next))
        }),
{
    assert(!tr.stop());
    let t2 = tr.then_ask(Ask::Stop).then_ask(Ask::Uptime);
    assert(m.tenants.dom().contains(port));
    assert(m.slots.contains(port));
    let i = m.slots.index_of(port);
    temperatures_reach_every_slot::<T>(th, m, t2, m.slots, i, name, a, secs);
    temperatures_keep_answers::<T>(th, m, t2, m.slots);
}

proof fn temperatures_keep_answers<T: DbTable>(
    th: Seq<AsicRows>,
    m: MappingView,
    tr: Trace,
    slots: Seq<usize>,
)
    ensures
        temperatures_polled::<T>(th, m, tr, slots).1.answers == tr.answers,
    decreases slots.len(),
{
    if slots.len() > 0 && !tr.stop() {
        let t1 = tr.then_ask(Ask::Stop);
        let (th1, t2) = temperature_polled::<T>(th, m, t1, slots[0]);
        assert(t2.answers == tr.answers);
        temperatures_keep_answers::<T>(th1, m, t2, slots.skip(1));
    }
}

} // verus!
