//! What the loop of the monitoring task is for: link flaps lead to re-reads of the
//! flags when their time has come, and every pass reaches every slot.

use vstd::prelude::*;

use crate::db::{row_at, value_at, DbTable};
use crate::dom::db_utils::dom_text;
use crate::dom::dom_mgr::{
    configs_changed, flap_in_db, flap_noted, flap_report, flap_seeded, reconciled,
    seeded_from_db, seeded_from_events, started, stepped, updates_noted, wait_time, DomPhase,
    DomSchedule, PendingView, TaskView,
};
use crate::dom::laws::removal_leaves_no_row;
use crate::hal::{Ask, Trace};
use crate::json::{py_str, unit_stripped, Val};
use crate::port::{first_port_sits_on_its_slot, EventView, MappingView, PortChangeEventType};
use crate::tables::AsicRows;

verus! {

// ---- flaps that are told ----

/// Whether an event tells that the link on slot `p` has flapped `c` times: it is a
/// write of the flap count to the application database, of a port that sits on the
/// slot or, where the port is not known, with the slot named.
pub open spec fn tells_flaps(m: MappingView, e: EventView, p: usize, c: Seq<char>) -> bool {
    &&& e.event_type == PortChangeEventType::PortSet
    &&& e.db_name == "APPL_DB"@
    &&& e.carries("flap_count"@) == Some(c)
    &&& m.physical_of(e.port_name) == Some(p) || m.physical_of(e.port_name) is None
        && e.physical_port == Some(p)
}

/// Whether the flap count of a slot was last seen as `c`.
pub open spec fn last_seen(v: TaskView, p: usize, c: Seq<char>) -> bool {
    v.flaps.dom().contains(p) && v.flaps[p] == c
}

/// Whether a re-read of a slot is to come.
pub open spec fn is_pending(v: TaskView, p: usize) -> bool {
    v.pending.at.dom().contains(p)
}

/// Whether an uptime can be shown that is a number of milliseconds later.
pub open spec fn shows(tr: Trace, ms: int) -> bool {
    tr.uptime() + ms <= u64::MAX
}

/// An event that tells of a flap count which was not seen last schedules a re-read
/// of the slot a second from now, to be tried until the time between two passes is
/// over. The count is then the one seen last.
pub proof fn flap_schedules_a_reread(v: TaskView, tr: Trace, e: EventView, p: usize, c: Seq<char>)
    requires
        tells_flaps(v.m, e, p, c),
        !last_seen(v, p, c),
        shows(tr, 1000),
        shows(tr, v.interval * 1000),
    ensures
        ({
            let (after, _t) = updates_noted(v, tr, seq![e]);
            &&& last_seen(after, p, c)
            &&& is_pending(after, p)
            &&& after.pending.at[p].fire_at == tr.uptime() + 1000
            &&& after.pending.at[p].giveup_at == tr.uptime() + v.interval * 1000
            &&& after.pending.order.contains(p) || v.pending.at.dom().contains(p)
        }),
{
    let s = seq![e];
    assert(s.skip(1) =~= Seq::<EventView>::empty());
    let (v1, t1) = flap_noted(v, tr, flap_report(v.m, s[0]));
    assert(updates_noted(v1, t1, s.skip(1)) == (v1, t1));
    assert(updates_noted(v, tr, s) == updates_noted(v1, t1, s.skip(1)));
    let o = v.pending.order.push(p);
    assert(o[o.len() - 1] == p);
}

/// Any other event, and one that tells of the flap count seen last, changes
/// nothing.
pub proof fn no_flap_schedules_nothing(v: TaskView, tr: Trace, e: EventView)
    requires
        forall|p: usize, c: Seq<char>| #[trigger]
            tells_flaps(v.m, e, p, c) ==> last_seen(v, p, c),
    ensures
        updates_noted(v, tr, seq![e]) == (v, tr),
{
    let s = seq![e];
    assert(s.skip(1) =~= Seq::<EventView>::empty());
    if let Some((p, c)) = flap_report(v.m, e) {
        assert(tells_flaps(v.m, e, p, c));
        assert(last_seen(v, p, c));
    }
    assert(flap_noted(v, tr, flap_report(v.m, e)) == (v, tr));
    assert(updates_noted(v, tr, s.skip(1)) == (v, tr));
    assert(updates_noted(v, tr, s) == updates_noted(v, tr, s.skip(1)));
}

/// Taking in updates leaves everything but the flaps and the re-reads alone, and
/// drops no re-read.
pub proof fn noting_keeps(v: TaskView, tr: Trace, events: Seq<EventView>, p: usize)
    ensures
        ({
            let (after, t) = updates_noted(v, tr, events);
            &&& after.m == v.m && after.u == v.u && after.interval == v.interval
            &&& after.skip_cmis_mgr == v.skip_cmis_mgr
            &&& t.answers == tr.answers
            &&& is_pending(v, p) ==> is_pending(after, p)
            &&& v.flaps.dom().contains(p) ==> after.flaps.dom().contains(p)
        }),
    decreases events.len(),
{
    if events.len() > 0 {
        let (v1, t1) = flap_noted(v, tr, flap_report(v.m, events[0]));
        noting_keeps(v1, t1, events.skip(1), p);
    }
}

/// No flap is lost among a number of updates: a count that differs from the one
/// seen last leaves a re-read of its slot to come, whatever else came in.
pub proof fn no_flap_is_lost(
    v: TaskView,
    tr: Trace,
    events: Seq<EventView>,
    i: int,
    p: usize,
    c: Seq<char>,
)
    requires
        0 <= i < events.len(),
        tells_flaps(v.m, events[i], p, c),
        !last_seen(v, p, c),
    ensures
        is_pending(updates_noted(v, tr, events).0, p),
    decreases events.len(),
{
    let (v1, t1) = flap_noted(v, tr, flap_report(v.m, events[0]));
    let rest = events.skip(1);
    if i == 0 {
        noting_keeps(v1, t1, rest, p);
    } else {
        assert(rest[i - 1] == events[i]);
        if is_pending(v1, p) {
            noting_keeps(v1, t1, rest, p);
        } else {
            assert(!last_seen(v1, p, c));
            no_flap_is_lost(v1, t1, rest, i - 1, p, c);
        }
    }
}

/// The last event that tells of a slot leaves its count as the one seen last.
pub proof fn last_count_is_kept(
    v: TaskView,
    tr: Trace,
    events: Seq<EventView>,
    i: int,
    p: usize,
    c: Seq<char>,
)
    requires
        0 <= i < events.len(),
        tells_flaps(v.m, events[i], p, c),
        forall|j: int, d: Seq<char>| i < j < events.len() ==> !#[trigger] tells_flaps(
            v.m,
            events[j],
            p,
            d,
        ),
    ensures
        last_seen(updates_noted(v, tr, events).0, p, c),
    decreases events.len(),
{
    let (v1, t1) = flap_noted(v, tr, flap_report(v.m, events[0]));
    let rest = events.skip(1);
    if i == 0 {
        assert forall|j: int, d: Seq<char>| 0 <= j < rest.len() implies !#[trigger] tells_flaps(
            v.m,
            rest[j],
            p,
            d,
        ) by {
            assert(rest[j] == events[j + 1]);
        }
        untold_slot_is_left(v1, t1, rest, p);
    } else {
        assert(rest[i - 1] == events[i]);
        assert forall|j: int, d: Seq<char>|
            i - 1 < j < rest.len() implies !#[trigger] tells_flaps(v.m, rest[j], p, d) by {
            assert(rest[j] == events[j + 1]);
        }
        last_count_is_kept(v1, t1, rest, i - 1, p, c);
    }
}

/// Updates that do not tell of a slot leave its count and its re-read alone.
pub proof fn untold_slot_is_left(v: TaskView, tr: Trace, events: Seq<EventView>, p: usize)
    requires
        forall|j: int, d: Seq<char>| 0 <= j < events.len() ==> !#[trigger] tells_flaps(
            v.m,
            events[j],
            p,
            d,
        ),
    ensures
        ({
            let (after, _t) = updates_noted(v, tr, events);
            &&& is_pending(after, p) == is_pending(v, p)
            &&& is_pending(v, p) ==> after.pending.at[p] == v.pending.at[p]
            &&& after.flaps.dom().contains(p) == v.flaps.dom().contains(p)
            &&& v.flaps.dom().contains(p) ==> after.flaps[p] == v.flaps[p]
        }),
    decreases events.len(),
{
    if events.len() > 0 {
        let e = events[0];
        let (v1, t1) = flap_noted(v, tr, flap_report(v.m, e));
        if let Some((q, d)) = flap_report(v.m, e) {
            assert(tells_flaps(v.m, e, q, d));
            assert(!tells_flaps(v.m, events[0], p, d));
            assert(q != p);
        }
        let rest = events.skip(1);
        assert forall|j: int, d: Seq<char>| 0 <= j < rest.len() implies !#[trigger] tells_flaps(
            v1.m,
            rest[j],
            p,
            d,
        ) by {
            assert(rest[j] == events[j + 1]);
        }
        untold_slot_is_left(v1, t1, rest, p);
    }
}

/// The first event of a snapshot that tells of a slot gives the count that the
/// slot started with, where none was seen before.
pub proof fn snapshot_gives_the_first_count(
    v: TaskView,
    events: Seq<EventView>,
    i: int,
    p: usize,
    c: Seq<char>,
)
    requires
        0 <= i < events.len(),
        tells_flaps(v.m, events[i], p, c),
        !v.flaps.dom().contains(p),
        forall|j: int, d: Seq<char>| 0 <= j < i ==> !#[trigger] tells_flaps(v.m, events[j], p, d),
    ensures
        last_seen(seeded_from_events(v, events), p, c),
    decreases events.len(),
{
    let e = events[0];
    let v1 = flap_seeded(v, flap_report(v.m, e));
    let rest = events.skip(1);
    if i == 0 {
        seeding_keeps_a_count(v1, rest, p);
    } else {
        if let Some((q, d)) = flap_report(v.m, e) {
            assert(tells_flaps(v.m, e, q, d));
            assert(!tells_flaps(v.m, events[0], p, d));
        }
        assert(rest[i - 1] == events[i]);
        assert forall|j: int, d: Seq<char>| 0 <= j < i - 1 implies !#[trigger] tells_flaps(
            v1.m,
            rest[j],
            p,
            d,
        ) by {
            assert(rest[j] == events[j + 1]);
        }
        snapshot_gives_the_first_count(v1, rest, i - 1, p, c);
    }
}

proof fn seeding_keeps_a_count(v: TaskView, events: Seq<EventView>, p: usize)
    requires
        v.flaps.dom().contains(p),
    ensures
        seeded_from_events(v, events).flaps.dom().contains(p),
        seeded_from_events(v, events).flaps[p] == v.flaps[p],
    decreases events.len(),
{
    if events.len() > 0 {
        seeding_keeps_a_count(flap_seeded(v, flap_report(v.m, events[0])), events.skip(1), p);
    }
}

// ---- flaps that the database has ----

/// Whether the application database has `c` as the flap count of the first port on
/// slot `p`.
pub open spec fn database_has(
    m: MappingView,
    th: Seq<AsicRows>,
    p: usize,
    c: Seq<char>,
) -> bool {
    exists|name: Seq<char>, a: int| #[trigger] database_row_has(m, th, p, name, a, c)
}

/// Whether port `name`, the first on slot `p`, has the flap count `c` in the
/// application database of ASIC `a`.
pub open spec fn database_row_has(
    m: MappingView,
    th: Seq<AsicRows>,
    p: usize,
    name: Seq<char>,
    a: int,
    c: Seq<char>,
) -> bool {
    &&& m.first_on(p) == Some(name)
    &&& m.physical_of(name) == Some(p)
    &&& 0 <= a < th.len() <= usize::MAX
    &&& m.asic_of(name) == Some(a as usize)
    &&& value_at(th[a].app_port, name, "flap_count"@) == Some(c)
}

proof fn database_count_is_found(m: MappingView, th: Seq<AsicRows>, p: usize, c: Seq<char>)
    requires
        database_has(m, th, p, c),
    ensures
        flap_in_db(m, th, p) == Some((p, c)),
{
}

/// A flap that no event told of is found in the database: a count there that
/// differs from the one seen last leaves a re-read of the slot to come.
pub proof fn untold_flap_is_found(
    v: TaskView,
    th: Seq<AsicRows>,
    tr: Trace,
    slots: Seq<usize>,
    i: int,
    c: Seq<char>,
)
    requires
        0 <= i < slots.len(),
        database_has(v.m, th, slots[i], c),
        !last_seen(v, slots[i], c),
    ensures
        is_pending(reconciled(v, th, tr, slots).0, slots[i]),
    decreases slots.len(),
{
    let p = slots[i];
    database_count_is_found(v.m, th, p, c);
    let (v1, t1) = flap_noted(v, tr, flap_in_db(v.m, th, slots[0]));
    let rest = slots.skip(1);
    if i == 0 || is_pending(v1, p) {
        comparing_keeps(v1, th, t1, rest, p);
    } else {
        assert(rest[i - 1] == slots[i]);
        untold_flap_is_found(v1, th, t1, rest, i - 1, c);
    }
}

/// Comparing flap counts leaves everything but the flaps and the re-reads alone,
/// and drops no re-read.
pub proof fn comparing_keeps(v: TaskView, th: Seq<AsicRows>, tr: Trace, slots: Seq<usize>, p: usize)
    ensures
        ({
            let (after, t) = reconciled(v, th, tr, slots);
            &&& after.m == v.m && after.u == v.u && after.interval == v.interval
            &&& after.skip_cmis_mgr == v.skip_cmis_mgr
            &&& t.answers == tr.answers
            &&& is_pending(v, p) ==> is_pending(after, p)
        }),
    decreases slots.len(),
{
    if slots.len() > 0 {
        let (v1, t1) = flap_noted(v, tr, flap_in_db(v.m, th, slots[0]));
        comparing_keeps(v1, th, t1, slots.skip(1), p);
    }
}

/// A re-read that the database leads to comes a second later and is tried until
/// the time between two passes is over.
pub proof fn found_flap_comes_a_second_later(
    v: TaskView,
    th: Seq<AsicRows>,
    tr: Trace,
    p: usize,
    c: Seq<char>,
)
    requires
        database_has(v.m, th, p, c),
        !last_seen(v, p, c),
        shows(tr, 1000),
        shows(tr, v.interval * 1000),
    ensures
        ({
            let after = reconciled(v, th, tr, seq![p]).0;
            &&& last_seen(after, p, c)
            &&& after.pending.at[p].fire_at == tr.uptime() + 1000
            &&& after.pending.at[p].giveup_at == tr.uptime() + v.interval * 1000
        }),
{
    database_count_is_found(v.m, th, p, c);
    let s = seq![p];
    assert(s.skip(1) =~= Seq::<usize>::empty());
    let (v1, t1) = flap_noted(v, tr, flap_in_db(v.m, th, s[0]));
    assert(reconciled(v1, th, t1, s.skip(1)) == (v1, t1));
    assert(reconciled(v, th, tr, s) == reconciled(v1, th, t1, s.skip(1)));
}

/// The count that the database has at the start is the one that the slot started
/// with.
pub proof fn database_gives_the_first_count(
    v: TaskView,
    th: Seq<AsicRows>,
    slots: Seq<usize>,
    i: int,
    c: Seq<char>,
)
    requires
        0 <= i < slots.len(),
        database_has(v.m, th, slots[i], c),
        !v.flaps.dom().contains(slots[i]),
        v.m.agrees(),
        slots.no_duplicates(),
    ensures
        last_seen(seeded_from_db(v, th, slots), slots[i], c),
    decreases slots.len(),
{
    let p = slots[i];
    database_count_is_found(v.m, th, p, c);
    let v1 = flap_seeded(v, flap_in_db(v.m, th, slots[0]));
    let rest = slots.skip(1);
    if i == 0 {
        first_counts_stay(v1, th, rest, p);
    } else {
        if let Some(name) = v.m.first_on(slots[0]) {
            first_port_sits_on_its_slot(v.m, slots[0], name);
        }
        assert(slots[0] != slots[i]);
        assert(rest[i - 1] == slots[i]);
        database_gives_the_first_count(v1, th, rest, i - 1, c);
    }
}

proof fn first_counts_stay(v: TaskView, th: Seq<AsicRows>, slots: Seq<usize>, p: usize)
    requires
        v.flaps.dom().contains(p),
    ensures
        seeded_from_db(v, th, slots).flaps.dom().contains(p),
        seeded_from_db(v, th, slots).flaps[p] == v.flaps[p],
    decreases slots.len(),
{
    if slots.len() > 0 {
        first_counts_stay(flap_seeded(v, flap_in_db(v.m, th, slots[0])), th, slots.skip(1), p);
    }
}

// ---- what is due ----

proof fn due_among_the_first(pending: PendingView, n: int, now: u64, p: usize)
    requires
        0 <= n <= pending.order.len(),
    ensures
        pending.due_among(n, now).contains(p) <==> pending.order.take(n).contains(p)
            && pending.at[p].fire_at <= now,
    decreases n,
{
    let s = pending.order.take(n);
    if n > 0 {
        due_among_the_first(pending, n - 1, now, p);
        let q = pending.order[n - 1];
        let before = pending.due_among(n - 1, now);
        assert(s =~= pending.order.take(n - 1).push(q));
        let less = pending.order.take(n - 1);
        assert(s.contains(p) <==> less.contains(p) || q == p) by {
            if less.contains(p) {
                assert(s[less.index_of(p)] == p);
            }
            assert(s[n - 1] == q);
            if s.contains(p) {
                let k = s.index_of(p);
                if k < n - 1 {
                    assert(less[k] == p);
                }
            }
        }
        let after = before.push(q);
        assert(after.contains(p) <==> before.contains(p) || q == p) by {
            if before.contains(p) {
                assert(after[before.index_of(p)] == p);
            }
            assert(after[before.len() as int] == q);
            if after.contains(p) {
                let k = after.index_of(p);
                if k < before.len() {
                    assert(before[k] == p);
                }
            }
        }
    } else {
        assert(!s.contains(p));
    }
}

/// A re-read is due from the moment on that it was scheduled for, and not before.
pub proof fn rereads_are_due_in_time(pending: PendingView, now: u64, p: usize)
    requires
        forall|q: usize| pending.order.contains(q) <==> #[trigger] pending.at.dom().contains(q),
    ensures
        pending.due(now).contains(p) <==> pending.at.dom().contains(p) && pending.at[p].fire_at
            <= now,
{
    due_among_the_first(pending, pending.order.len() as int, now, p);
    assert(pending.order.take(pending.order.len() as int) =~= pending.order);
    assert(pending.at.dom().contains(p) <==> pending.order.contains(p));
}

// ---- ports that come and go ----

/// The rows that the monitoring publishes for a port are gone with the port, and
/// so is its seat. No other event touches a row.
pub proof fn removed_port_leaves_no_trace(v: TaskView, th: Seq<AsicRows>, e: EventView, i: int)
    requires
        e.asic_id < th.len(),
        0 <= i < th[e.asic_id as int].vdm.flags.len(),
    ensures
        ({
            let (after, rows) = configs_changed(v, th, seq![e]);
            let a = rows[e.asic_id as int];
            let name = e.port_name;
            &&& rows.len() == th.len()
            &&& after.pending == v.pending && after.flaps == v.flaps
            &&& e.event_type == PortChangeEventType::PortRemove ==> {
                &&& after.m.physical_of(name) is None
                &&& row_at(a.dom, name) is None
                &&& row_at(a.dom_temperature, name) is None
                &&& row_at(a.dom_flags.value, name) is None
                &&& row_at(a.dom_flags.change_count, name) is None
                &&& row_at(a.dom_flags.set_time, name) is None
                &&& row_at(a.dom_flags.clear_time, name) is None
                &&& row_at(a.status, name) is None
                &&& row_at(a.status_flags.value, name) is None
                &&& row_at(a.status_flags.change_count, name) is None
                &&& row_at(a.status_flags.set_time, name) is None
                &&& row_at(a.status_flags.clear_time, name) is None
                &&& row_at(a.vdm.real_value, name) is None
                &&& row_at(a.vdm.flags[i].value, name) is None
                &&& row_at(a.vdm.flags[i].change_count, name) is None
                &&& row_at(a.vdm.flags[i].set_time, name) is None
                &&& row_at(a.vdm.flags[i].clear_time, name) is None
                &&& row_at(a.pm, name) is None
                &&& row_at(a.firmware_info, name) is None
                &&& a.intf == th[e.asic_id as int].intf
                &&& a.dom_threshold == th[e.asic_id as int].dom_threshold
                &&& a.vdm.thresholds == th[e.asic_id as int].vdm.thresholds
                &&& a.status_sw == th[e.asic_id as int].status_sw
                &&& forall|k: int| 0 <= k < th.len() && k != e.asic_id ==> rows[k] == th[k]
            }
            &&& e.event_type != PortChangeEventType::PortRemove ==> rows == th
            &&& e.event_type == PortChangeEventType::PortAdd ==> (e.physical_port matches Some(p)
                ==> after.m.physical_of(name) == Some(p) && after.m.asic_of(name) == Some(
                e.asic_id,
            ))
            &&& e.event_type == PortChangeEventType::PortSet ==> after == v
        }),
{
    let s = seq![e];
    assert(s.skip(1) =~= Seq::<EventView>::empty());
    let (v1, th1) = crate::dom::dom_mgr::config_changed(v, th, s[0]);
    assert(configs_changed(v1, th1, s.skip(1)) == (v1, th1));
    assert(configs_changed(v, th, s) == configs_changed(v1, th1, s.skip(1)));
    removal_leaves_no_row(th[e.asic_id as int], e.port_name, i);
}

proof fn config_events_in_turn(
    v: TaskView,
    th: Seq<AsicRows>,
    first: Seq<EventView>,
    rest: Seq<EventView>,
)
    ensures
        ({
            let (v1, th1) = configs_changed(v, th, first);
            configs_changed(v, th, first + rest) == configs_changed(v1, th1, rest)
        }),
    decreases first.len(),
{
    if first.len() == 0 {
        assert(first + rest =~= rest);
    } else {
        let (v1, th1) = crate::dom::dom_mgr::config_changed(v, th, first[0]);
        config_events_in_turn(v1, th1, first.skip(1), rest);
        assert((first + rest).skip(1) =~= first.skip(1) + rest);
    }
}

/// Configuration events are taken in one after the other: those before any of
/// them first, and those behind it last.
pub proof fn every_config_event_is_taken_in(
    v: TaskView,
    th: Seq<AsicRows>,
    events: Seq<EventView>,
    i: int,
)
    requires
        0 <= i < events.len(),
    ensures
        ({
            let (v1, th1) = configs_changed(v, th, events.take(i));
            let (v2, th2) = configs_changed(v1, th1, seq![events[i]]);
            configs_changed(v, th, events) == configs_changed(v2, th2, events.skip(i + 1))
        }),
{
    let (v1, th1) = configs_changed(v, th, events.take(i));
    config_events_in_turn(v, th, events.take(i), events.skip(i));
    config_events_in_turn(v1, th1, seq![events[i]], events.skip(i + 1));
    assert(events.take(i) + events.skip(i) =~= events);
    assert(seq![events[i]] + events.skip(i + 1) =~= events.skip(i));
}

// ---- the steps of the loop ----

/// The loop ends where the daemon is asked to stop, and nothing is changed then.
/// Else it takes in the configuration, waits, and polls, in this order and for
/// ever: a pass begins no earlier than its time, and the next one is due an
/// interval after it began.
pub proof fn loop_goes_round<T: DbTable>(
    v: TaskView,
    th: Seq<AsicRows>,
    tr: Trace,
    s: DomSchedule,
)
    ensures
        ({
            let (after, rows, _t, next) = stepped::<T>(v, th, tr, s);
            let now = tr.then_ask(Ask::Stop).uptime();
            &&& tr.stop() ==> next is None && rows == th && after == v
            &&& !tr.stop() ==> next is Some
            &&& !tr.stop() && s.phase == DomPhase::Configure ==> {
                &&& next->0.phase == DomPhase::Wait
                &&& next->0.next == s.next && next->0.next_reconcile == s.next_reconcile
                &&& (after, rows) == configs_changed(
                    v,
                    th,
                    tr.then_ask(Ask::Stop).config_changes(),
                )
            }
            &&& !tr.stop() && s.phase == DomPhase::Wait ==> {
                &&& next->0.next == s.next
                &&& next->0.phase == DomPhase::Poll <==> s.next <= now
                &&& next->0.phase != DomPhase::Poll ==> next->0.phase == DomPhase::Wait
                &&& s.next <= now ==> rows == th && after == v
            }
            &&& !tr.stop() && s.phase == DomPhase::Poll ==> {
                &&& next->0.phase == DomPhase::Configure
                &&& now + v.interval * 1000 <= u64::MAX ==> next->0.next == now + v.interval * 1000
            }
        }),
{
}

/// The loop begins with the configuration. Its first pass is due an interval
/// later, and the flap counts are compared for the first time a second later.
pub proof fn loop_begins(tr: Trace, interval: u64)
    requires
        shows(tr, interval * 1000),
        shows(tr.then_ask(Ask::Uptime), 1000),
    ensures
        started(tr, interval).0.phase == DomPhase::Configure,
        started(tr, interval).0.next == tr.uptime() + interval * 1000,
        started(tr, interval).0.next_reconcile == tr.then_ask(Ask::Uptime).uptime() + 1000,
{
}

/// A wait ends no later than the next pass or the next comparison of flap counts
/// is due, unless that has passed, and no later than in a second; and it is never
/// shorter than it must be.
pub proof fn waits_end_in_time(now: u64, next: u64, next_reconcile: u64)
    ensures
        ({
            let w = wait_time(now, next, next_reconcile);
            &&& 1 <= w <= 1000
            &&& now < next && now < next_reconcile ==> now + w <= next && now + w
                <= next_reconcile
            &&& now < next && now < next_reconcile && w < 1000 ==> now + w == next || now + w
                == next_reconcile
            &&& next <= now || next_reconcile <= now ==> w == 1
        }),
{
}

// ---- the texts of monitor values ----

/// A value is published without its unit: temperatures in C, voltages in Volts,
/// powers of a lane in dBm and biases of a lane in mA. Every other value is
/// published as it is.
pub proof fn units_are_left_out(k: Seq<char>, v: Val, lane: char, side: char)
    requires
        '1' <= lane <= '8',
        side == 't' || side == 'r',
    ensures
        k == "temperature"@ ==> dom_text(k, v) == unit_stripped(v, "C"@),
        k == "voltage"@ ==> dom_text(k, v) == unit_stripped(v, "Volts"@),
        k == seq![side, 'x', lane] + "power"@ ==> dom_text(k, v) == unit_stripped(v, "dBm"@),
        k == seq![side, 'x', lane] + "bias"@ ==> dom_text(k, v) == unit_stripped(v, "mA"@),
{
    reveal_strlit("temperature");
    reveal_strlit("voltage");
    reveal_strlit("power");
    reveal_strlit("bias");
    let p = seq![side, 'x', lane] + "power"@;
    let b = seq![side, 'x', lane] + "bias"@;
    assert(p.skip(3) =~= "power"@);
    assert(b.skip(3) =~= "bias"@);
    assert("temperature"@[0] == 't' && "temperature"@[1] == 'e');
    assert("voltage"@[0] == 'v');
    assert("temperature"@.len() == 11 && "voltage"@.len() == 7);
    assert(p[1] == 'x' && b[1] == 'x');
    assert(p.len() == 8 && b.len() == 7);
}

/// A value whose name has no unit is published as it is.
pub proof fn other_values_are_published_whole(k: Seq<char>, v: Val)
    requires
        k != "temperature"@,
        k != "voltage"@,
        forall|side: char, lane: char|
            (side == 't' || side == 'r') && '1' <= lane <= '8' ==> k != #[trigger] seq![
                side,
                'x',
                lane,
            ] + "power"@ && k != seq![side, 'x', lane] + "bias"@,
    ensures
        dom_text(k, v) == py_str(v),
{
    if k.len() >= 3 && (k[0] == 't' || k[0] == 'r') && k[1] == 'x' && '1' <= k[2] <= '8' {
        let h = seq![k[0], 'x', k[2]];
        assert(h + k.skip(3) =~= k);
        assert(k != h + "power"@ && k != h + "bias"@);
    }
}

} // verus!
