//! What holds of the monitoring as a whole.

use vstd::prelude::*;

use crate::clock::stamp;
use crate::db::{
    distinct_fields, field_is_found, first_value, last_value, row_at, value_at, width_at, DbTable,
    Rows,
};
use crate::dom::db_utils::{
    changed, count_in, fetched, flag_moved, getter, next_count, noted_flags, posted_diag,
    posted_flags, put, reading, recorded, shown, shown_row, stamped, tracked_flags, uniform_row,
    validated, Beautify, CacheView, FlagRows, Reader,
};
use crate::dom::dom_mgr::{
    after_reread, dom_polling, flags_missing, flap_in_db, flap_noted, flap_seeded, in_cmis_init,
    later, merged_values, monitor_rows_removed, monitoring_off, object_fields, polled_port,
    port_updates_served, posted_firmware, posted_port, posted_vdm_diagnostics, put_all, reconciled,
    republished, reread, seeded_from_db, seeded_from_events, started, statistics_taken, upkeep,
    wait_time, LinkChangeReread, PendingView, TaskView,
};
use crate::dom::dom_sensor::{posted_flag_family, posted_monitor};
use crate::dom::status::{config_key, datapath_key, lane_down, lane_masked, masked_from, projected};
use crate::dom::vdm::{
    acted, confirmed, families_of, family_row, froze, noted_families, posted_families,
    posted_real_values, posted_vdm, unfroze, vdm_getter, VdmRows, VdmUtils,
};
use crate::hal::{Ask, Trace};
use crate::json::{
    distinct_names, field, field_at_first, filled_fields, is_whole, merged_value, py_str, reply_true,
    set_field_value, truthy, with_field, ReplyView, Row, Val, Vals,
};
use crate::port::{first_port_sits_on_its_slot, EventView, MappingView};
use crate::tables::{is_blocked, AsicRows};
use crate::text::{decimal, digit_char, signed_decimal, signed_decimal_parses_back, trimmed};

verus! {

// ---- status ----

proof fn lane_keys(a: nat, b: nat)
    requires
        1 <= a <= 8,
        1 <= b <= 8,
    ensures
        a != b ==> config_key(a) != config_key(b),
        config_key(a) != datapath_key(b),
{
    reveal_strlit("State");
    assert(decimal(a) =~= seq![digit_char(a)]);
    assert(decimal(b) =~= seq![digit_char(b)]);
    assert(config_key(a).last() == digit_char(a));
    assert(config_key(b).last() == digit_char(b));
    assert(datapath_key(b).last() == 'e');
}

proof fn masking_one_lane(f: Vals, lane: nat, k: Seq<char>)
    ensures
        field(lane_masked(f, lane), k) == (if k == config_key(lane) && lane_down(f, lane) && field(
            f,
            k,
        ) is Some {
            Some(Val::Str("ConfigUndefined"@))
        } else {
            field(f, k)
        }),
{
    set_field_value(f, config_key(lane), Val::Str("ConfigUndefined"@), k);
}

proof fn masking_keeps_data_paths(f: Vals, lane: nat, other: nat)
    requires
        1 <= lane <= 8,
        1 <= other <= 8,
    ensures
        lane_down(lane_masked(f, lane), other) == lane_down(f, other),
{
    masking_one_lane(f, lane, datapath_key(other));
    lane_keys(lane, other);
}

proof fn masking_from(f: Vals, lane: nat, k: Seq<char>)
    requires
        1 <= lane <= 9,
    ensures
        (forall|l: nat| lane <= l <= 8 ==> k != #[trigger] config_key(l)) ==> field(
            masked_from(f, lane),
            k,
        ) == field(f, k),
        forall|l: nat|
            lane <= l <= 8 && k == #[trigger] config_key(l) ==> field(masked_from(f, lane), k) == (
            if lane_down(f, l) && field(f, k) is Some {
                Some(Val::Str("ConfigUndefined"@))
            } else {
                field(f, k)
            }),
    decreases 9 - lane,
{
    if lane <= 8 {
        let g = lane_masked(f, lane);
        masking_one_lane(f, lane, k);
        masking_from(g, lane + 1, k);
        assert forall|l: nat| lane <= l <= 8 && k == #[trigger] config_key(l) implies field(
            masked_from(f, lane),
            k,
        ) == (if lane_down(f, l) && field(f, k) is Some {
            Some(Val::Str("ConfigUndefined"@))
        } else {
            field(f, k)
        }) by {
            if l == lane {
                assert forall|j: nat| lane + 1 <= j <= 8 implies k != #[trigger] config_key(j) by {
                    lane_keys(lane, j);
                }
            } else {
                lane_keys(lane, l);
                masking_keeps_data_paths(f, lane, l);
            }
        }
    }
}

/// A host lane whose data path is down shows an undefined configuration where it
/// shows one at all; the configuration of every other lane stays.
pub proof fn stale_configuration_is_masked(f: Vals, lane: nat)
    requires
        1 <= lane <= 8,
    ensures
        field(masked_from(f, 1), config_key(lane)) == (if lane_down(f, lane) && field(
            f,
            config_key(lane),
        ) is Some {
            Some(Val::Str("ConfigUndefined"@))
        } else {
            field(f, config_key(lane))
        }),
{
    masking_from(f, 1, config_key(lane));
}

/// Masking touches nothing but the configuration of the host lanes.
pub proof fn masking_leaves_other_fields(f: Vals, k: Seq<char>)
    requires
        forall|l: nat| 1 <= l <= 8 ==> k != #[trigger] config_key(l),
    ensures
        field(masked_from(f, 1), k) == field(f, k),
{
    masking_from(f, 1, k);
}

proof fn masking_nothing(g: Vals, lane: nat)
    requires
        1 <= lane <= 9,
        forall|l: nat| lane <= l <= 8 ==> #[trigger] lane_masked(g, l) == g,
    ensures
        masked_from(g, lane) == g,
    decreases 9 - lane,
{
    if lane <= 8 {
        assert(lane_masked(g, lane) == g);
        masking_nothing(g, lane + 1);
    }
}

/// Masking a status twice is the same as masking it once.
pub proof fn masking_is_idempotent(f: Vals)
    ensures
        masked_from(masked_from(f, 1), 1) == masked_from(f, 1),
{
    let g = masked_from(f, 1);
    assert forall|l: nat| 1 <= l <= 8 implies #[trigger] lane_masked(g, l) == g by {
        let k = config_key(l);
        masking_from(f, 1, k);
        assert forall|j: nat| 1 <= j <= 8 implies datapath_key(l) != #[trigger] config_key(j) by {
            lane_keys(j, l);
        }
        masking_from(f, 1, datapath_key(l));
        if lane_down(g, l) && field(g, k) is Some {
            field_at_first(g, k);
            assert(with_field(g, k, Val::Str("ConfigUndefined"@)) =~= g);
        }
    }
    masking_nothing(g, 1);
}

/// A status in which no data path is down stays as the module reported it.
pub proof fn live_status_stays(r: ReplyView)
    requires
        is_whole(r),
        r.fields matches Some(f) ==> forall|l: nat| 1 <= l <= 8 ==> !#[trigger] lane_down(f, l),
    ensures
        projected(Some(r)) == Some(r),
{
    if let Some(f) = r.fields {
        assert forall|l: nat| 1 <= l <= 8 implies #[trigger] lane_masked(f, l) == f by {
            assert(!lane_down(f, l));
        }
        masking_nothing(f, 1);
    }
}

/// What is made of an answer holds one thing, as the answer does: its value is
/// the object with its fields.
pub proof fn readings_are_whole(reader: Reader, r: ReplyView)
    requires
        is_whole(r),
    ensures
        reading(reader, Some(r)) matches Some(made) && is_whole(made),
{
}

// ---- latched flags ----

/// The first time that flags are published, each starts with no changes, never
/// set and never cleared.
pub proof fn first_reading_starts_the_records<T: DbTable>(
    t: FlagRows,
    key: Seq<char>,
    f: Vals,
    time: Seq<char>,
)
    requires
        row_at(t.value, key) is None,
    ensures
        ({
            let r = tracked_flags::<T>(t, key, f, time);
            &&& r.value == t.value
            &&& r.change_count[key] == T::stored(
                row_at(t.change_count, key),
                uniform_row(f, "0"@),
            )
            &&& r.set_time[key] == T::stored(row_at(t.set_time, key), uniform_row(f, "never"@))
            &&& r.clear_time[key] == T::stored(
                row_at(t.clear_time, key),
                uniform_row(f, "never"@),
            )
        }),
{
}

/// A reading in which no flag moved leaves the records as they are.
pub proof fn unmoved_flags_leave_the_records<T: DbTable>(
    t: FlagRows,
    published: Row,
    key: Seq<char>,
    f: Vals,
    time: Seq<char>,
)
    requires
        forall|i: int| 0 <= i < f.len() ==> !flag_moved(published, (#[trigger] f[i]).0, f[i].1),
    ensures
        recorded::<T>(t, published, key, f, time) == t,
    decreases f.len(),
{
    if f.len() > 0 {
        assert(!flag_moved(published, f[0].0, f[0].1));
        let rest = f.skip(1);
        assert forall|i: int| 0 <= i < rest.len() implies !flag_moved(
            published,
            (#[trigger] rest[i]).0,
            rest[i].1,
        ) by {
            assert(rest[i] == f[i + 1]);
        }
        unmoved_flags_leave_the_records::<T>(t, published, key, rest, time);
    }
}

/// A flag that the module does not have never counts as moved.
pub proof fn missing_flag_never_moves(published: Row, name: Seq<char>, v: Val)
    requires
        trimmed(py_str(v)) == "N/A"@,
    ensures
        !flag_moved(published, name, v),
{
}

/// Tracking flags never writes the published values.
pub proof fn tracking_leaves_the_values<T: DbTable>(
    t: FlagRows,
    published: Row,
    key: Seq<char>,
    f: Vals,
    time: Seq<char>,
)
    ensures
        recorded::<T>(t, published, key, f, time).value == t.value,
    decreases f.len(),
{
    if f.len() > 0 {
        let t1 = if flag_moved(published, f[0].0, f[0].1) {
            crate::dom::db_utils::changed::<T>(t, key, f[0].0, f[0].1, time)
        } else {
            t
        };
        tracking_leaves_the_values::<T>(t1, published, key, f.skip(1), time);
    }
}

/// A count that is recorded is read back.
pub proof fn recorded_count_is_read_back(name: Seq<char>, n: i64)
    ensures
        count_in(seq![(name, signed_decimal(n as int))], name) == n,
{
    signed_decimal_parses_back(n);
    assert(seq![(name, signed_decimal(n as int))].last().0 == name);
}

proof fn last_value_at(row: Row, i: int)
    requires
        0 <= i < row.len(),
        forall|j: int| i < j < row.len() ==> (#[trigger] row[j]).0 != row[i].0,
    ensures
        last_value(row, row[i].0) == Some(row[i].1),
    decreases row.len(),
{
    if i < row.len() - 1 {
        assert(row[row.len() - 1].0 != row[i].0);
        let d = row.drop_last();
        assert forall|j: int| i < j < d.len() implies (#[trigger] d[j]).0 != d[i].0 by {
            assert(row[j].0 != row[i].0);
        }
        last_value_at(d, i);
    }
}

/// A reading that is published moves no flag when it is read again unchanged.
pub proof fn same_reading_moves_nothing(b: Beautify, f: Vals, secs: u64, i: int)
    requires
        distinct_names(f),
        0 <= i < f.len(),
        f[i].0 != "last_update_time"@,
        shown(b, f[i].0, f[i].1) == py_str(f[i].1),
    ensures
        !flag_moved(stamped(shown_row(b, f), secs), f[i].0, f[i].1),
{
    let row = stamped(shown_row(b, f), secs);
    assert(row[i] == (f[i].0, shown(b, f[i].0, f[i].1)));
    assert forall|j: int| i < j < row.len() implies (#[trigger] row[j]).0 != row[i].0 by {
        if j < f.len() {
            assert(f[i].0 != f[j].0);
            assert(row[j].0 == f[j].0);
        }
    }
    last_value_at(row, i);
}

// ---- reading modules ----

/// Nothing is read or published for a port while a stop is asked for, without a
/// slot, or without a module in its slot.
pub proof fn absent_module_publishes_nothing<T: DbTable>(
    rows: Rows,
    t: FlagRows,
    cache: CacheView,
    m: MappingView,
    tr: Trace,
    name: Seq<char>,
    reader: Reader,
    b: Beautify,
    paged_only: bool,
)
    requires
        tr.stop() || m.physical_of(name) is None || !tr.then_ask(Ask::Stop).present(
            m.physical_of(name)->0,
        ),
    ensures
        posted_diag::<T>(rows, cache, m, tr, name, reader, b, paged_only).0 == rows,
        posted_flags::<T>(t, cache, m, tr, name, reader, b).0 == t,
        !posted_flags::<T>(t, cache, m, tr, name, reader, b).3,
{
}

/// The ports of a breakout share one reading in a pass: the second one asks the
/// module nothing.
pub proof fn breakout_shares_a_reading(cache: CacheView, tr: Trace, port: usize, reader: Reader)
    requires
        cache is Some,
    ensures
        ({
            let r = fetched(cache, tr, port, reader);
            fetched(r.1, r.2, port, reader) == r
        }),
{
}

/// All ports on a slot have one monitoring setting.
pub proof fn breakout_shares_the_setting(
    m: MappingView,
    th: Seq<AsicRows>,
    a: Seq<char>,
    b: Seq<char>,
)
    requires
        m.physical_of(a) is Some,
        m.physical_of(a) == m.physical_of(b),
    ensures
        dom_polling(m, th, a) == dom_polling(m, th, b),
{
}

/// A port that is not monitored is not read and none of its rows change.
pub proof fn unmonitored_port_is_left_alone<T: DbTable>(
    th: Seq<AsicRows>,
    m: MappingView,
    tr: Trace,
    u: VdmUtils,
    skip_cmis_mgr: bool,
    port: usize,
)
    requires
        m.first_on(port) matches Some(name) ==> monitoring_off(m, th, skip_cmis_mgr, name),
    ensures
        polled_port::<T>(th, m, tr, u, skip_cmis_mgr, port) == (th, tr),
{
}

/// Polling a port leaves the tables of the other ASICs alone.
pub proof fn polling_stays_on_one_asic<T: DbTable>(
    th: Seq<AsicRows>,
    m: MappingView,
    tr: Trace,
    u: VdmUtils,
    skip_cmis_mgr: bool,
    port: usize,
    other: int,
)
    requires
        0 <= other < th.len(),
        m.first_on(port) matches Some(name) ==> m.asic_of(name) != Some(other as usize),
    ensures
        polled_port::<T>(th, m, tr, u, skip_cmis_mgr, port).0.len() == th.len(),
        polled_port::<T>(th, m, tr, u, skip_cmis_mgr, port).0[other] == th[other],
{
}

/// Where the present values and the statistics of the observables both name a
/// value, the statistic is published.
pub proof fn statistic_wins(basic: Vals, statistic: Vals, k: Seq<char>)
    requires
        distinct_names(basic),
        distinct_names(statistic),
    ensures
        field(merged_values(basic, statistic), k) == (if field(statistic, k) is Some {
            field(statistic, k)
        } else {
            field(basic, k)
        }),
{
    merged_value(Seq::empty(), basic, k);
    merged_value(crate::json::with_fields(Seq::empty(), basic), statistic, k);
    field_at_first(Seq::empty(), k);
}

// ---- freezing ----

/// Whether the requests of one trace are the first of another.
pub open spec fn goes_on(a: Trace, b: Trace) -> bool {
    &&& a.asked.len() <= b.asked.len()
    &&& b.asked.take(a.asked.len() as int) == a.asked
}

proof fn one_more(a: Trace, b: Trace, q: Ask)
    requires
        goes_on(a, b),
    ensures
        goes_on(a, b.then_ask(q)),
{
    assert(b.then_ask(q).asked.take(a.asked.len() as int) =~= b.asked.take(a.asked.len() as int));
}

proof fn confirming_goes_on(
    u: VdmUtils,
    first: Trace,
    tr: Trace,
    port: usize,
    status: Seq<char>,
    start: u64,
    left: nat,
)
    requires
        goes_on(first, tr),
    ensures
        goes_on(first, confirmed(u, tr, port, status, start, left).1),
    decreases left,
{
    let t1 = tr.then_ask(Ask::Uptime);
    let t2 = t1.then_ask(Ask::Json(port, status));
    let t3 = t2.then_ask(Ask::Sleep(u.poll));
    one_more(first, tr, Ask::Uptime);
    one_more(first, t1, Ask::Json(port, status));
    one_more(first, t2, Ask::Sleep(u.poll));
    if left > 0 {
        confirming_goes_on(u, first, t3, port, status, start, (left - 1) as nat);
    }
}

proof fn acting_goes_on(
    u: VdmUtils,
    tr: Trace,
    port: usize,
    action: Seq<char>,
    status: Seq<char>,
)
    ensures
        goes_on(tr.then_ask(Ask::Json(port, action)), acted(u, tr, port, action, status).1),
{
    let t1 = tr.then_ask(Ask::Json(port, action));
    assert(t1.asked.take(t1.asked.len() as int) =~= t1.asked);
    let t2 = t1.then_ask(Ask::Sleep(u.settle));
    one_more(t1, t1, Ask::Sleep(u.settle));
    one_more(t1, t2, Ask::Uptime);
    confirming_goes_on(
        u,
        t1,
        t2.then_ask(Ask::Uptime),
        port,
        status,
        t2.uptime(),
        crate::dom::vdm::further_looks(u),
    );
}

/// Whether the module in a slot is asked to unfreeze after the requests of
/// `from`.
pub open spec fn asks_to_unfreeze(from: Trace, to: Trace, port: usize) -> bool {
    exists|i: int|
        from.asked.len() <= i < to.asked.len() && #[trigger] to.asked[i] == Ask::Json(
            port,
            "unfreeze_vdm_stats"@,
        )
}

/// After a module is asked to freeze its statistics, it is asked to let them run
/// again before the reading of its statistics ends, whether the freeze was
/// confirmed or not.
pub proof fn frozen_statistics_run_again<T: DbTable>(
    pm: Rows,
    m: MappingView,
    tr: Trace,
    u: VdmUtils,
    name: Seq<char>,
    port: usize,
)
    requires
        reply_true(tr.json(port, "is_vdm_statistic_supported"@)),
        !tr.then_ask(Ask::Json(port, "is_vdm_statistic_supported"@)).low_power(port),
    ensures
        ({
            let t2 = tr.then_ask(Ask::Json(port, "is_vdm_statistic_supported"@)).then_ask(
                Ask::Lpmode(port),
            );
            asks_to_unfreeze(
                froze(u, t2, port).1,
                statistics_taken::<T>(pm, m, tr, u, name, port).2,
                port,
            )
        }),
{
    let t2 = tr.then_ask(Ask::Json(port, "is_vdm_statistic_supported"@)).then_ask(
        Ask::Lpmode(port),
    );
    let (frozen, t3) = froze(u, t2, port);
    let last = if frozen {
        let t4 = t3.then_ask(Ask::Json(port, "get_transceiver_vdm_real_value_statistic"@));
        performance_goes_on::<T>(pm, m, t3, t4, name);
        crate::dom::dom_mgr::posted_pm::<T>(pm, None, m, t4, name).2
    } else {
        t3
    };
    let q = Ask::Json(port, "unfreeze_vdm_stats"@);
    let end = unfroze(u, last, port).1;
    acting_goes_on(u, last, port, "unfreeze_vdm_stats"@, "get_vdm_unfreeze_status"@);
    let asked = last.then_ask(q).asked;
    assert(end.asked.take(asked.len() as int) == asked);
    assert(end.asked[last.asked.len() as int] == asked[last.asked.len() as int]);
    assert(asked[last.asked.len() as int] == q);
    assert(t3.asked.len() <= last.asked.len());
}

proof fn performance_goes_on<T: DbTable>(
    pm: Rows,
    m: MappingView,
    first: Trace,
    tr: Trace,
    name: Seq<char>,
)
    requires
        first.asked.len() <= tr.asked.len(),
    ensures
        first.asked.len() <= crate::dom::dom_mgr::posted_pm::<T>(
            pm,
            None,
            m,
            tr,
            name,
        ).2.asked.len(),
{
}

// ---- link flaps ----

/// A flap count that was seen before schedules nothing.
pub proof fn known_flap_count_schedules_nothing(
    v: TaskView,
    tr: Trace,
    p: usize,
    c: Seq<char>,
)
    requires
        v.flaps.dom().contains(p),
        v.flaps[p] == c,
    ensures
        flap_noted(v, tr, Some((p, c))) == (v, tr),
{
}

/// A new flap count is remembered, and the flags are read again a second later.
pub proof fn new_flap_count_schedules_a_reread(v: TaskView, tr: Trace, p: usize, c: Seq<char>)
    requires
        !(v.flaps.dom().contains(p) && v.flaps[p] == c),
    ensures
        ({
            let r = flap_noted(v, tr, Some((p, c))).0;
            &&& r.flaps == v.flaps.insert(p, c)
            &&& r.pending.at.dom().contains(p)
            &&& r.pending.at[p].fire_at == later(tr.uptime(), 1000)
            &&& flap_noted(r, tr, Some((p, c))) == (r, tr)
        }),
{
}

/// Taking a flap count as the one at the start schedules nothing and never
/// overwrites one that was seen.
pub proof fn seeding_schedules_nothing(v: TaskView, report: Option<(usize, Seq<char>)>, p: usize)
    ensures
        flap_seeded(v, report).pending == v.pending,
        v.flaps.dom().contains(p) ==> flap_seeded(v, report).flaps.dom().contains(p) && flap_seeded(
            v,
            report,
        ).flaps[p] == v.flaps[p],
{
}

/// Taking the events of a snapshot as what the ports started with schedules
/// nothing.
pub proof fn snapshot_schedules_nothing(v: TaskView, events: Seq<EventView>)
    ensures
        seeded_from_events(v, events).pending == v.pending,
        seeded_from_events(v, events).m == v.m,
    decreases events.len(),
{
    if events.len() > 0 {
        snapshot_schedules_nothing(
            flap_seeded(v, crate::dom::dom_mgr::flap_report(v.m, events[0])),
            events.skip(1),
        );
    }
}

/// The flap counts that are reported for the slots stand under the slots
/// themselves.
pub open spec fn counts_stand_under_slots(
    m: MappingView,
    th: Seq<AsicRows>,
    slots: Seq<usize>,
) -> bool {
    forall|i: int|
        0 <= i < slots.len() ==> (flap_in_db(m, th, #[trigger] slots[i]) matches Some((p, c))
            ==> p == slots[i])
}

proof fn seeding_keeps_the_rest(v: TaskView, th: Seq<AsicRows>, slots: Seq<usize>, p: usize)
    requires
        counts_stand_under_slots(v.m, th, slots),
    ensures
        seeded_from_db(v, th, slots).pending == v.pending,
        seeded_from_db(v, th, slots).m == v.m,
        v.flaps.dom().contains(p) ==> seeded_from_db(v, th, slots).flaps.dom().contains(p)
            && seeded_from_db(v, th, slots).flaps[p] == v.flaps[p],
    decreases slots.len(),
{
    if slots.len() > 0 {
        let v1 = flap_seeded(v, flap_in_db(v.m, th, slots[0]));
        let rest = slots.skip(1);
        assert forall|i: int| 0 <= i < rest.len() implies (flap_in_db(
            v1.m,
            th,
            #[trigger] rest[i],
        ) matches Some((q, c)) ==> q == rest[i]) by {
            assert(rest[i] == slots[i + 1]);
        }
        seeding_keeps_the_rest(v1, th, rest, p);
    }
}

proof fn seeding_sees_each_slot(v: TaskView, th: Seq<AsicRows>, slots: Seq<usize>, i: int)
    requires
        counts_stand_under_slots(v.m, th, slots),
        slots.no_duplicates(),
        forall|j: int| 0 <= j < slots.len() ==> !v.flaps.dom().contains(#[trigger] slots[j]),
        0 <= i < slots.len(),
    ensures
        flap_in_db(v.m, th, slots[i]) matches Some((p, c)) ==> {
            &&& seeded_from_db(v, th, slots).flaps.dom().contains(p)
            &&& seeded_from_db(v, th, slots).flaps[p] == c
        },
    decreases slots.len(),
{
    let v1 = flap_seeded(v, flap_in_db(v.m, th, slots[0]));
    let rest = slots.skip(1);
    assert(v1.m == v.m);
    assert forall|j: int| 0 <= j < rest.len() implies (flap_in_db(
        v1.m,
        th,
        #[trigger] rest[j],
    ) matches Some((q, c)) ==> q == rest[j]) by {
        assert(rest[j] == slots[j + 1]);
    }
    if i == 0 {
        seeding_keeps_the_rest(v1, th, rest, slots[0]);
    } else {
        assert forall|j: int| 0 <= j < rest.len() implies !v1.flaps.dom().contains(
            #[trigger] rest[j],
        ) by {
            assert(rest[j] == slots[j + 1]);
            assert(slots[0] != slots[j + 1]);
        }
        assert(rest[i - 1] == slots[i]);
        seeding_sees_each_slot(v1, th, rest, i - 1);
    }
}

proof fn known_counts_reconcile_to_nothing(
    v: TaskView,
    th: Seq<AsicRows>,
    tr: Trace,
    slots: Seq<usize>,
)
    requires
        forall|i: int|
            0 <= i < slots.len() ==> (flap_in_db(v.m, th, #[trigger] slots[i]) matches Some((p, c))
                ==> v.flaps.dom().contains(p) && v.flaps[p] == c),
    ensures
        reconciled(v, th, tr, slots) == (v, tr),
    decreases slots.len(),
{
    if slots.len() > 0 {
        assert(flap_noted(v, tr, flap_in_db(v.m, th, slots[0])) == (v, tr));
        let rest = slots.skip(1);
        assert forall|i: int| 0 <= i < rest.len() implies (flap_in_db(
            v.m,
            th,
            #[trigger] rest[i],
        ) matches Some((p, c)) ==> v.flaps.dom().contains(p) && v.flaps[p] == c) by {
            assert(rest[i] == slots[i + 1]);
        }
        known_counts_reconcile_to_nothing(v, th, tr, rest);
    }
}

/// A flap count that is in the database at the start is no flap: after the start
/// has taken the counts in, comparing them with the unchanged database schedules
/// nothing.
pub proof fn start_is_no_flap(v: TaskView, th: Seq<AsicRows>, tr: Trace, slots: Seq<usize>)
    requires
        counts_stand_under_slots(v.m, th, slots),
        slots.no_duplicates(),
        v.flaps == Map::<usize, Seq<char>>::empty(),
    ensures
        ({
            let s = seeded_from_db(v, th, slots);
            &&& s.pending == v.pending
            &&& reconciled(s, th, tr, slots) == (s, tr)
        }),
{
    let s = seeded_from_db(v, th, slots);
    seeding_keeps_the_rest(v, th, slots, 0);
    assert forall|i: int| 0 <= i < slots.len() implies (flap_in_db(
        s.m,
        th,
        #[trigger] slots[i],
    ) matches Some((p, c)) ==> s.flaps.dom().contains(p) && s.flaps[p] == c) by {
        seeding_sees_each_slot(v, th, slots, i);
    }
    known_counts_reconcile_to_nothing(s, th, tr, slots);
}

// ---- re-reads ----

/// A re-read that settled is not tried again.
pub proof fn settled_reread_is_done(pending: PendingView, tr: Trace, p: usize)
    ensures
        !after_reread(pending, tr, p, LinkChangeReread::Settled).0.at.dom().contains(p),
{
}

/// A re-read that did not settle is tried again, but never past the end of its
/// time, and the end of its time does not move.
pub proof fn retries_are_bounded(
    pending: PendingView,
    tr: Trace,
    p: usize,
    outcome: LinkChangeReread,
)
    requires
        outcome != LinkChangeReread::Settled,
        pending.at.dom().contains(p),
    ensures
        ({
            let r = after_reread(pending, tr, p, outcome).0;
            &&& tr.uptime() >= pending.at[p].giveup_at ==> !r.at.dom().contains(p)
            &&& tr.uptime() < pending.at[p].giveup_at ==> {
                &&& r.at.dom().contains(p)
                &&& r.at[p].giveup_at == pending.at[p].giveup_at
                &&& r.at[p].fire_at == later(tr.uptime(), 1000)
            }
        }),
{
}

/// A re-read of one slot leaves the re-reads of the others alone.
pub proof fn rereads_are_independent(
    pending: PendingView,
    tr: Trace,
    p: usize,
    other: usize,
    outcome: LinkChangeReread,
)
    requires
        other != p,
    ensures
        ({
            let r = after_reread(pending, tr, p, outcome).0;
            &&& r.at.dom().contains(other) == pending.at.dom().contains(other)
            &&& r.at[other] == pending.at[other]
        }),
{
}

// ---- ports that come and go ----

/// Taking a port out of the configuration leaves the rows of other tasks and the
/// rows of other ports.
pub proof fn removal_keeps_other_rows(a: AsicRows, name: Seq<char>, other: Seq<char>)
    requires
        other != name,
    ensures
        ({
            let r = monitor_rows_removed(a, name);
            &&& r.intf == a.intf
            &&& r.dom_threshold == a.dom_threshold
            &&& r.vdm.thresholds == a.vdm.thresholds
            &&& r.status_sw == a.status_sw
            &&& r.cfg_port == a.cfg_port
            &&& r.app_port == a.app_port
            &&& r.state_port == a.state_port
            &&& row_at(r.dom, other) == row_at(a.dom, other)
            &&& row_at(r.dom_temperature, other) == row_at(a.dom_temperature, other)
            &&& row_at(r.dom_flags.value, other) == row_at(a.dom_flags.value, other)
            &&& row_at(r.status, other) == row_at(a.status, other)
            &&& row_at(r.status_flags.value, other) == row_at(a.status_flags.value, other)
            &&& row_at(r.vdm.real_value, other) == row_at(a.vdm.real_value, other)
            &&& row_at(r.pm, other) == row_at(a.pm, other)
            &&& row_at(r.firmware_info, other) == row_at(a.firmware_info, other)
        }),
{
}

/// No row that the monitoring publishes for a port is left once the port is
/// taken out of the configuration.
pub proof fn removal_leaves_no_row(a: AsicRows, name: Seq<char>, i: int)
    requires
        0 <= i < a.vdm.flags.len(),
    ensures
        ({
            let r = monitor_rows_removed(a, name);
            &&& row_at(r.dom, name) is None
            &&& row_at(r.dom_temperature, name) is None
            &&& row_at(r.dom_flags.value, name) is None
            &&& row_at(r.dom_flags.change_count, name) is None
            &&& row_at(r.dom_flags.set_time, name) is None
            &&& row_at(r.dom_flags.clear_time, name) is None
            &&& row_at(r.status, name) is None
            &&& row_at(r.status_flags.value, name) is None
            &&& row_at(r.vdm.real_value, name) is None
            &&& row_at(r.vdm.flags[i].value, name) is None
            &&& row_at(r.vdm.flags[i].change_count, name) is None
            &&& row_at(r.pm, name) is None
            &&& row_at(r.firmware_info, name) is None
        }),
{
}

// ---- the loop ----

/// The first pass does not come before one interval has passed.
pub proof fn first_pass_waits_an_interval(tr: Trace, interval: u64)
    requires
        tr.uptime() + interval * 1000 <= u64::MAX,
    ensures
        started(tr, interval).0.next == tr.uptime() + interval * 1000,
{
}

/// A wait for port updates lasts at least a millisecond and at most a second.
pub proof fn waits_are_bounded(now: u64, next: u64, next_reconcile: u64)
    ensures
        1 <= wait_time(now, next, next_reconcile) <= 1000,
{
}

// ---- ports do not touch each other ----

/// Whether two tables hold the same at a key.
pub open spec fn same_at(a: Rows, b: Rows, k: Seq<char>) -> bool {
    row_at(a, k) == row_at(b, k)
}

/// Whether two families of flag tables hold the same at a key.
pub open spec fn flags_same_at(a: FlagRows, b: FlagRows, k: Seq<char>) -> bool {
    &&& same_at(a.value, b.value, k)
    &&& same_at(a.change_count, b.change_count, k)
    &&& same_at(a.set_time, b.set_time, k)
    &&& same_at(a.clear_time, b.clear_time, k)
}

/// Whether the tables of the observables hold the same at a key.
pub open spec fn vdm_same_at(a: VdmRows, b: VdmRows, k: Seq<char>) -> bool {
    &&& same_at(a.real_value, b.real_value, k)
    &&& a.thresholds == b.thresholds
    &&& a.flags.len() == b.flags.len()
    &&& forall|i: int|
        0 <= i < a.flags.len() ==> flags_same_at(#[trigger] a.flags[i], b.flags[i], k)
}

/// Whether the tables that a pass writes hold the same at a key, and the other
/// tables hold the same altogether.
pub open spec fn tables_same_at(a: AsicRows, b: AsicRows, k: Seq<char>) -> bool {
    &&& same_at(a.dom, b.dom, k)
    &&& same_at(a.status, b.status, k)
    &&& same_at(a.pm, b.pm, k)
    &&& same_at(a.firmware_info, b.firmware_info, k)
    &&& flags_same_at(a.dom_flags, b.dom_flags, k)
    &&& flags_same_at(a.status_flags, b.status_flags, k)
    &&& vdm_same_at(a.vdm, b.vdm, k)
    &&& a.intf == b.intf
    &&& a.dom_temperature == b.dom_temperature
    &&& a.dom_threshold == b.dom_threshold
    &&& a.status_sw == b.status_sw
    &&& a.cfg_port == b.cfg_port
    &&& a.app_port == b.app_port
    &&& a.state_port == b.state_port
}

proof fn put_all_is_local<T: DbTable>(rows: Rows, names: Seq<Seq<char>>, row: Row, k: Seq<char>)
    requires
        !names.contains(k),
    ensures
        same_at(rows, put_all::<T>(rows, names, row), k),
    decreases names.len(),
{
    if names.len() > 0 {
        assert(names[0] != k);
        let rest = names.skip(1);
        assert(!rest.contains(k)) by {
            if rest.contains(k) {
                let i = choose|i: int| 0 <= i < rest.len() && rest[i] == k;
                assert(names[i + 1] == k);
            }
        }
        put_all_is_local::<T>(put::<T>(rows, names[0], row), rest, row, k);
    }
}

proof fn recording_is_local<T: DbTable>(
    t: FlagRows,
    published: Row,
    key: Seq<char>,
    f: Vals,
    time: Seq<char>,
    k: Seq<char>,
)
    requires
        k != key,
    ensures
        flags_same_at(t, recorded::<T>(t, published, key, f, time), k),
    decreases f.len(),
{
    if f.len() > 0 {
        let t1 = if flag_moved(published, f[0].0, f[0].1) {
            crate::dom::db_utils::changed::<T>(t, key, f[0].0, f[0].1, time)
        } else {
            t
        };
        recording_is_local::<T>(t1, published, key, f.skip(1), time, k);
    }
}

proof fn tracking_is_local<T: DbTable>(
    t: FlagRows,
    key: Seq<char>,
    f: Vals,
    time: Seq<char>,
    k: Seq<char>,
)
    requires
        k != key,
    ensures
        flags_same_at(t, tracked_flags::<T>(t, key, f, time), k),
{
    match row_at(t.value, key) {
        None => {},
        Some(published) => {
            recording_is_local::<T>(t, published, key, f, time, k);
        },
    }
}

proof fn flag_family_is_local<T: DbTable>(
    t: FlagRows,
    m: MappingView,
    tr: Trace,
    name: Seq<char>,
    reader: Reader,
    b: Beautify,
    k: Seq<char>,
)
    requires
        k != name,
    ensures
        flags_same_at(t, posted_flag_family::<T>(t, None, m, tr, name, reader, b).0, k),
{
    assert forall|f: Vals, time: Seq<char>| flags_same_at(
        t,
        #[trigger] tracked_flags::<T>(t, name, f, time),
        k,
    ) by {
        tracking_is_local::<T>(t, name, f, time, k);
    }
}

proof fn noting_families_is_local<T: DbTable>(
    t: Seq<FlagRows>,
    split: Seq<Vals>,
    name: Seq<char>,
    time: Seq<char>,
    i: nat,
    k: Seq<char>,
)
    requires
        k != name,
        t.len() == 4,
    ensures
        ({
            let r = noted_families::<T>(t, split, name, time, i);
            &&& r.len() == 4
            &&& forall|j: int| 0 <= j < 4 ==> flags_same_at(#[trigger] t[j], r[j], k)
        }),
    decreases 4 - i,
{
    if i < 4 {
        let t1 = if split[i as int].len() > 0 {
            t.update(i as int, tracked_flags::<T>(t[i as int], name, split[i as int], time))
        } else {
            t
        };
        tracking_is_local::<T>(t[i as int], name, split[i as int], time, k);
        noting_families_is_local::<T>(t1, split, name, time, i + 1, k);
        let r = noted_families::<T>(t, split, name, time, i);
        assert forall|j: int| 0 <= j < 4 implies flags_same_at(#[trigger] t[j], r[j], k) by {
            assert(flags_same_at(t1[j], r[j], k));
        }
    }
}

proof fn posting_families_is_local<T: DbTable>(
    v: VdmRows,
    split: Seq<Vals>,
    tr: Trace,
    name: Seq<char>,
    i: nat,
    k: Seq<char>,
)
    requires
        k != name,
        v.flags.len() == 4,
    ensures
        posted_families::<T>(v, split, tr, name, true, i).0.flags.len() == 4,
        vdm_same_at(v, posted_families::<T>(v, split, tr, name, true, i).0, k),
    decreases 4 - i,
{
    if i < 4 && split[i as int].len() > 0 {
        let row = family_row(split[i as int], tr.clock());
        let f = v.flags[i as int];
        let v1 = VdmRows {
            real_value: v.real_value,
            flags: v.flags.update(
                i as int,
                FlagRows {
                    value: put::<T>(f.value, name, row),
                    change_count: f.change_count,
                    set_time: f.set_time,
                    clear_time: f.clear_time,
                },
            ),
            thresholds: v.thresholds,
        };
        posting_families_is_local::<T>(v1, split, tr.then_ask(Ask::Clock), name, i + 1, k);
        let r = posted_families::<T>(v, split, tr, name, true, i).0;
        assert forall|j: int| 0 <= j < v.flags.len() implies flags_same_at(
            #[trigger] v.flags[j],
            r.flags[j],
            k,
        ) by {
            assert(flags_same_at(v1.flags[j], r.flags[j], k));
        }
    }
}

proof fn vdm_flags_are_local<T: DbTable>(
    v: VdmRows,
    m: MappingView,
    tr: Trace,
    name: Seq<char>,
    k: Seq<char>,
)
    requires
        k != name,
        v.flags.len() == 4,
    ensures
        vdm_same_at(v, posted_vdm::<T>(v, None, m, tr, name, true).0, k),
{
    let (port, t1) = validated(m, tr, name, true);
    if port is Some && m.asic_of(name) is Some {
        let p = port->0;
        let t2 = t1.then_ask(Ask::Json(p, vdm_getter(true)));
        match t1.json(p, vdm_getter(true)) {
            None => {},
            Some(r) => match r.fields {
                None => {},
                Some(raw) => {
                    let split = families_of(raw);
                    noting_families_is_local::<T>(
                        v.flags,
                        split,
                        name,
                        stamp(t2.clock()),
                        0,
                        k,
                    );
                    let noted = VdmRows {
                        real_value: v.real_value,
                        flags: noted_families::<T>(
                            v.flags,
                            split,
                            name,
                            stamp(t2.clock()),
                            0,
                        ),
                        thresholds: v.thresholds,
                    };
                    posting_families_is_local::<T>(
                        noted,
                        split,
                        t2.then_ask(Ask::Clock),
                        name,
                        0,
                        k,
                    );
                    let last =
                        posted_families::<T>(noted, split, t2.then_ask(Ask::Clock), name, true, 0).0;
                    assert forall|j: int| 0 <= j < v.flags.len() implies flags_same_at(
                        #[trigger] v.flags[j],
                        last.flags[j],
                        k,
                    ) by {
                        assert(flags_same_at(noted.flags[j], last.flags[j], k));
                    }
                },
            },
        }
    }
}

proof fn firmware_is_local<T: DbTable>(
    rows: Rows,
    m: MappingView,
    tr: Trace,
    name: Seq<char>,
    k: Seq<char>,
)
    requires
        m.slot_named(name) matches Some(p) ==> !m.logical_on(p).contains(k),
    ensures
        same_at(rows, posted_firmware::<T>(rows, None, m, tr, name).0, k),
{
    if let Some(p) = m.slot_named(name) {
        let t2 = tr.then_ask(Ask::Stop).then_ask(Ask::Presence(p));
        let r = t2.json(p, "get_transceiver_info_firmware_versions"@);
        if let Some(f) = filled_fields(r) {
            put_all_is_local::<T>(rows, m.logical_on(p), shown_row(Beautify::Plain, f), k);
        }
    }
}

proof fn monitor_is_local<T: DbTable>(
    rows: Rows,
    m: MappingView,
    tr: Trace,
    name: Seq<char>,
    reader: Reader,
    b: Beautify,
    k: Seq<char>,
)
    requires
        k != name,
    ensures
        same_at(rows, posted_monitor::<T>(rows, None, m, tr, name, reader, b).0, k),
{
}

proof fn statistics_are_local<T: DbTable>(
    pm: Rows,
    m: MappingView,
    tr: Trace,
    u: VdmUtils,
    name: Seq<char>,
    port: usize,
    k: Seq<char>,
)
    requires
        k != name,
    ensures
        same_at(pm, statistics_taken::<T>(pm, m, tr, u, name, port).0, k),
{
}

proof fn vdm_diagnostics_are_local<T: DbTable>(
    a: AsicRows,
    m: MappingView,
    tr: Trace,
    u: VdmUtils,
    name: Seq<char>,
    port: usize,
    k: Seq<char>,
)
    requires
        k != name,
        a.vdm.flags.len() == 4,
    ensures
        tables_same_at(a, posted_vdm_diagnostics::<T>(a, m, tr, u, name, port).0, k),
{
    if reply_true(tr.json(port, "is_transceiver_vdm_supported"@)) {
        let t1 = tr.then_ask(Ask::Json(port, "is_transceiver_vdm_supported"@));
        let (pm, statistic, t2) = statistics_taken::<T>(a.pm, m, t1, u, name, port);
        statistics_are_local::<T>(a.pm, m, t1, u, name, port, k);
        let basic = object_fields(t2.json(port, "get_transceiver_vdm_real_value_basic"@));
        let t3 = t2.then_ask(Ask::Json(port, "get_transceiver_vdm_real_value_basic"@));
        let (values, t4) = posted_real_values::<T>(
            a.vdm.real_value,
            m,
            t3,
            name,
            merged_values(basic, statistic),
        );
        assert(same_at(a.vdm.real_value, values, k));
        let v = VdmRows {
            real_value: values,
            flags: a.vdm.flags,
            thresholds: a.vdm.thresholds,
        };
        vdm_flags_are_local::<T>(v, m, t4, name, k);
        let v1 = posted_vdm::<T>(v, None, m, t4, name, true).0;
        assert(vdm_same_at(a.vdm, v1, k)) by {
            assert forall|i: int| 0 <= i < a.vdm.flags.len() implies flags_same_at(
                #[trigger] a.vdm.flags[i],
                v1.flags[i],
                k,
            ) by {
                assert(flags_same_at(v.flags[i], v1.flags[i], k));
            }
        }
    }
}

proof fn posting_a_port_is_local<T: DbTable>(
    a: AsicRows,
    m: MappingView,
    tr: Trace,
    u: VdmUtils,
    name: Seq<char>,
    port: usize,
    k: Seq<char>,
)
    requires
        k != name,
        a.vdm.flags.len() == 4,
        m.slot_named(name) matches Some(p) ==> !m.logical_on(p).contains(k),
    ensures
        tables_same_at(a, posted_port::<T>(a, m, tr, u, name, port).0, k),
{
    let (fw, _c1, t1) = posted_firmware::<T>(a.firmware_info, None, m, tr, name);
    firmware_is_local::<T>(a.firmware_info, m, tr, name, k);
    let (dom, _c2, t2) = posted_monitor::<T>(
        a.dom,
        None,
        m,
        t1,
        name,
        Reader::Sensor,
        Beautify::Dom,
    );
    monitor_is_local::<T>(a.dom, m, t1, name, Reader::Sensor, Beautify::Dom, k);
    let (df, _c3, t3, _p3) = posted_flag_family::<T>(
        a.dom_flags,
        None,
        m,
        t2,
        name,
        Reader::DomFlags,
        Beautify::Dom,
    );
    flag_family_is_local::<T>(a.dom_flags, m, t2, name, Reader::DomFlags, Beautify::Dom, k);
    let (st, _c4, t4) = posted_monitor::<T>(
        a.status,
        None,
        m,
        t3,
        name,
        Reader::Status,
        Beautify::Plain,
    );
    monitor_is_local::<T>(a.status, m, t3, name, Reader::Status, Beautify::Plain, k);
    let (sf, _c5, t5, _p5) = posted_flag_family::<T>(
        a.status_flags,
        None,
        m,
        t4,
        name,
        Reader::StatusFlags,
        Beautify::Plain,
    );
    flag_family_is_local::<T>(a.status_flags, m, t4, name, Reader::StatusFlags, Beautify::Plain, k);
    let a1 = AsicRows {
        firmware_info: fw,
        dom,
        dom_flags: df,
        status: st,
        status_flags: sf,
        ..a
    };
    vdm_diagnostics_are_local::<T>(a1, m, t5, u, name, port, k);
}

/// Polling the port on one slot changes no row of a port on another slot. The
/// name of the port must not be the number of a slot that it does not sit on.
pub proof fn polling_leaves_other_ports_alone<T: DbTable>(
    th: Seq<AsicRows>,
    m: MappingView,
    tr: Trace,
    u: VdmUtils,
    skip_cmis_mgr: bool,
    port: usize,
    other: Seq<char>,
    i: int,
)
    requires
        0 <= i < th.len(),
        th[i].vdm.flags.len() == 4,
        !m.logical_on(port).contains(other),
        m.first_on(port) matches Some(name) ==> m.slot_named(name) == Some(port),
    ensures
        tables_same_at(
            th[i],
            polled_port::<T>(th, m, tr, u, skip_cmis_mgr, port).0[i],
            other,
        ),
{
    if let Some(name) = m.first_on(port) {
        assert(m.logical_on(port)[0] == name);
        if let Some(a) = m.asic_of(name) {
            if a == i {
                posting_a_port_is_local::<T>(
                    th[i],
                    m,
                    tr.then_ask(Ask::Presence(port)),
                    u,
                    name,
                    port,
                    other,
                );
            }
        }
    }
}

/// A re-read of the flags of the port on one slot changes no row of another
/// port.
pub proof fn rereading_leaves_other_ports_alone<T: DbTable>(
    th: Seq<AsicRows>,
    m: MappingView,
    tr: Trace,
    skip_cmis_mgr: bool,
    port: usize,
    other: Seq<char>,
    i: int,
)
    requires
        0 <= i < th.len(),
        th[i].vdm.flags.len() == 4,
        m.first_on(port) != Some(other),
    ensures
        tables_same_at(th[i], reread::<T>(th, m, tr, skip_cmis_mgr, port).0[i], other),
{
    if let Some(name) = m.first_on(port) {
        if let Some(a) = m.asic_of(name) {
            if a == i {
                let t0 = tr.then_ask(Ask::Stop).then_ask(Ask::Presence(port));
                flag_family_is_local::<T>(
                    th[i].dom_flags,
                    m,
                    t0,
                    name,
                    Reader::DomFlags,
                    Beautify::Dom,
                    other,
                );
                let t1 = posted_flag_family::<T>(
                    th[i].dom_flags,
                    None,
                    m,
                    t0,
                    name,
                    Reader::DomFlags,
                    Beautify::Dom,
                ).2;
                flag_family_is_local::<T>(
                    th[i].status_flags,
                    m,
                    t1,
                    name,
                    Reader::StatusFlags,
                    Beautify::Plain,
                    other,
                );
                let t2 = posted_flag_family::<T>(
                    th[i].status_flags,
                    None,
                    m,
                    t1,
                    name,
                    Reader::StatusFlags,
                    Beautify::Plain,
                ).2;
                let t3 = t2.then_ask(Ask::Json(port, "is_transceiver_vdm_supported"@));
                vdm_flags_are_local::<T>(th[i].vdm, m, t3, name, other);
            }
        }
    }
}

// ---- between the passes ----

/// Where no flag row is missing, the hook that publishes missing flags changes
/// neither the tables nor the schedule, whatever the modules would report.
pub proof fn intact_rows_are_left_alone<T: DbTable>(
    v: TaskView,
    th: Seq<AsicRows>,
    tr: Trace,
    slots: Seq<usize>,
)
    requires
        forall|i: int| 0 <= i < slots.len() ==> !flags_missing(v.m, th, #[trigger] slots[i]),
    ensures
        republished::<T>(v, th, tr, slots).0 == v,
        republished::<T>(v, th, tr, slots).1 == th,
    decreases slots.len(),
{
    if slots.len() > 0 {
        assert(!flags_missing(v.m, th, slots[0]));
        let rest = slots.skip(1);
        assert forall|i: int| 0 <= i < rest.len() implies !flags_missing(
            v.m,
            th,
            #[trigger] rest[i],
        ) by {
            assert(rest[i] == slots[i + 1]);
        }
        intact_rows_are_left_alone::<T>(v, th, tr.then_ask(Ask::Stop), rest);
    }
}

/// A flag row whose size cannot be read does not count as missing.
pub proof fn unreadable_row_is_not_missing(m: MappingView, th: Seq<AsicRows>, slot: usize, a: usize)
    requires
        m.first_on(slot) is Some,
        m.asic_of(m.first_on(slot)->0) == Some(a),
        a < th.len(),
        !th[a as int].flag_sizes_readable,
    ensures
        !flags_missing(m, th, slot),
{
}

/// Between two passes nothing that a module reports reaches the tables without a
/// flap: where every flap count in the database is known, no flag row is missing
/// and no re-read is scheduled, the upkeep and a wait that delivers nothing
/// leave the tables as they are.
pub proof fn nothing_surfaces_without_a_flap<T: DbTable>(
    v: TaskView,
    th: Seq<AsicRows>,
    tr: Trace,
    now: u64,
    next_reconcile: u64,
    timeout: u64,
)
    requires
        v.pending.order.len() == 0,
        forall|i: int| 0 <= i < v.m.slots.len() ==> !flags_missing(v.m, th, #[trigger] v.m.slots[i]),
        forall|i: int|
            0 <= i < v.m.slots.len() ==> (flap_in_db(v.m, th, #[trigger] v.m.slots[i]) matches Some(r)
                ==> v.flaps.dom().contains(r.0) && v.flaps[r.0] == r.1),
        upkeep::<T>(v, th, tr, now, next_reconcile).2.updates(timeout) matches Some(e) ==> e.len() == 0,
    ensures
        ({
            let (v1, th1, t1, _next) = upkeep::<T>(v, th, tr, now, next_reconcile);
            &&& v1 == v
            &&& th1 == th
            &&& port_updates_served::<T>(v1, th1, t1, timeout).0 == v
            &&& port_updates_served::<T>(v1, th1, t1, timeout).1 == th
        }),
{
    known_counts_reconcile_to_nothing(v, th, tr, v.m.slots);
    intact_rows_are_left_alone::<T>(v, th, tr, v.m.slots);
    assert forall|at: u64| #[trigger] v.pending.due(at) == Seq::<usize>::empty() by {
        assert(v.pending.due_among(0, at) =~= Seq::<usize>::empty());
    }
}

/// Seeding leaves the flap counts that are already known: a flap that came in
/// while the task was restarted is still seen.
pub proof fn seeding_keeps_known_counts(
    v: TaskView,
    th: Seq<AsicRows>,
    slots: Seq<usize>,
    slot: usize,
)
    requires
        v.flaps.dom().contains(slot),
    ensures
        seeded_from_db(v, th, slots).flaps.dom().contains(slot),
        seeded_from_db(v, th, slots).flaps[slot] == v.flaps[slot],
    decreases slots.len(),
{
    if slots.len() > 0 {
        let v1 = flap_seeded(v, flap_in_db(v.m, th, slots[0]));
        seeding_keeps_known_counts(v1, th, slots.skip(1), slot);
    }
}

// ---- what is published can be read ----

/// A published reading is read back field by field, with the time of its
/// publication. The reading must not itself name that time.
pub proof fn published_reading_is_read_back<T: DbTable>(
    rows: Rows,
    key: Seq<char>,
    b: Beautify,
    f: Vals,
    secs: u64,
    i: int,
)
    requires
        distinct_names(f),
        forall|j: int| 0 <= j < f.len() ==> (#[trigger] f[j]).0 != "last_update_time"@,
        0 <= i < f.len(),
    ensures
        ({
            let after = put::<T>(rows, key, stamped(shown_row(b, f), secs));
            &&& value_at(after, key, f[i].0) == Some(shown(b, f[i].0, f[i].1))
            &&& value_at(after, key, "last_update_time"@) == Some(stamp(secs))
            &&& width_at(after, key) > 0
        }),
{
    let row = stamped(shown_row(b, f), secs);
    assert(distinct_fields(row)) by {
        assert forall|x: int, y: int| 0 <= x < y < row.len() implies (#[trigger] row[x]).0 != (
        #[trigger] row[y]).0 by {
            assert(row[x].0 == f[x].0);
            if y < f.len() {
                assert(row[y].0 == f[y].0);
            }
        }
    }
    T::stored_is_read_back(row_at(rows, key), row);
    assert(row[i].0 == f[i].0);
    assert(row[f.len() as int].0 == "last_update_time"@);
}

proof fn one_field_is_read_back<T: DbTable>(
    rows: Rows,
    key: Seq<char>,
    name: Seq<char>,
    text: Seq<char>,
)
    ensures
        value_at(put::<T>(rows, key, seq![(name, text)]), key, name) == Some(text),
{
    let row = seq![(name, text)];
    T::stored_is_read_back(row_at(rows, key), row);
    assert(row[0] == (name, text));
}

proof fn only_move_is_recorded<T: DbTable>(
    t: FlagRows,
    published: Row,
    key: Seq<char>,
    f: Vals,
    time: Seq<char>,
    i: int,
)
    requires
        0 <= i < f.len(),
        flag_moved(published, f[i].0, f[i].1),
        forall|j: int|
            0 <= j < f.len() && j != i ==> !flag_moved(published, (#[trigger] f[j]).0, f[j].1),
    ensures
        recorded::<T>(t, published, key, f, time) == changed::<T>(t, key, f[i].0, f[i].1, time),
    decreases f.len(),
{
    let rest = f.skip(1);
    assert forall|j: int| 0 <= j < rest.len() implies #[trigger] rest[j] == f[j + 1] by {}
    if i == 0 {
        let t1 = changed::<T>(t, key, f[0].0, f[0].1, time);
        unmoved_flags_leave_the_records::<T>(t1, published, key, rest, time);
    } else {
        only_move_is_recorded::<T>(t, published, key, rest, time, i - 1);
    }
}

/// Where one flag of a reading moved, its count goes up by one and the time is
/// kept as the time of its setting or of its clearing, by what it is now.
pub proof fn moved_flag_is_recorded<T: DbTable>(
    t: FlagRows,
    key: Seq<char>,
    f: Vals,
    time: Seq<char>,
    i: int,
)
    requires
        row_at(t.value, key) is Some,
        row_at(t.change_count, key) is Some,
        0 <= i < f.len(),
        flag_moved(row_at(t.value, key)->0, f[i].0, f[i].1),
        forall|j: int|
            0 <= j < f.len() && j != i ==> !flag_moved(
                row_at(t.value, key)->0,
                (#[trigger] f[j]).0,
                f[j].1,
            ),
    ensures
        ({
            let r = tracked_flags::<T>(t, key, f, time);
            let n = next_count(count_in(row_at(t.change_count, key)->0, f[i].0));
            &&& value_at(r.change_count, key, f[i].0) == Some(signed_decimal(n as int))
            &&& truthy(f[i].1) ==> value_at(r.set_time, key, f[i].0) == Some(time)
            &&& truthy(f[i].1) ==> r.clear_time == t.clear_time
            &&& !truthy(f[i].1) ==> value_at(r.clear_time, key, f[i].0) == Some(time)
            &&& !truthy(f[i].1) ==> r.set_time == t.set_time
        }),
{
    let n = next_count(count_in(row_at(t.change_count, key)->0, f[i].0));
    only_move_is_recorded::<T>(t, row_at(t.value, key)->0, key, f, time, i);
    one_field_is_read_back::<T>(t.change_count, key, f[i].0, signed_decimal(n as int));
    one_field_is_read_back::<T>(t.set_time, key, f[i].0, time);
    one_field_is_read_back::<T>(t.clear_time, key, f[i].0, time);
}

/// Whether a table merges what is written into the row that is there: each
/// written field has its new value, every other field the one it had, and no
/// name is repeated.
pub open spec fn merges<T: DbTable>() -> bool {
    forall|old: Row, written: Row|
        distinct_fields(old) && distinct_fields(written) ==> {
            &&& distinct_fields(#[trigger] T::stored(Some(old), written))
            &&& forall|f: Seq<char>| #[trigger]
                first_value(T::stored(Some(old), written), f) == (if first_value(
                    written,
                    f,
                ) is Some {
                    first_value(written, f)
                } else {
                    first_value(old, f)
                })
        }
}

/// Whether the records of a port are there, with no name repeated.
pub open spec fn records_there(t: FlagRows, key: Seq<char>) -> bool {
    &&& row_at(t.change_count, key) is Some && distinct_fields(row_at(t.change_count, key)->0)
    &&& row_at(t.set_time, key) is Some && distinct_fields(row_at(t.set_time, key)->0)
    &&& row_at(t.clear_time, key) is Some && distinct_fields(row_at(t.clear_time, key)->0)
}

/// In a row without repeated names a field is the same from either end.
pub proof fn first_is_last(row: Row, f: Seq<char>)
    requires
        distinct_fields(row),
    ensures
        first_value(row, f) == last_value(row, f),
{
    if exists|i: int| 0 <= i < row.len() && (#[trigger] row[i]).0 == f {
        let i = choose|i: int| 0 <= i < row.len() && (#[trigger] row[i]).0 == f;
        field_is_found(row, i);
    } else {
        unnamed_field_is_not_found(row, f);
    }
}

/// A name that no field has is not found.
pub proof fn unnamed_field_is_not_found(row: Row, f: Seq<char>)
    requires
        forall|i: int| 0 <= i < row.len() ==> (#[trigger] row[i]).0 != f,
    ensures
        first_value(row, f) is None,
        last_value(row, f) is None,
    decreases row.len(),
{
    if row.len() > 0 {
        let t = row.skip(1);
        assert forall|i: int| 0 <= i < t.len() implies (#[trigger] t[i]).0 != f by {
            assert(t[i] == row[i + 1]);
        }
        unnamed_field_is_not_found(t, f);
        let d = row.drop_last();
        assert forall|i: int| 0 <= i < d.len() implies (#[trigger] d[i]).0 != f by {
            assert(d[i] == row[i]);
        }
        unnamed_field_is_not_found(d, f);
    }
}

/// Whether two states of the records agree on one flag of a port.
pub open spec fn same_records(a: FlagRows, b: FlagRows, key: Seq<char>, name: Seq<char>) -> bool {
    &&& value_at(a.change_count, key, name) == value_at(b.change_count, key, name)
    &&& value_at(a.set_time, key, name) == value_at(b.set_time, key, name)
    &&& value_at(a.clear_time, key, name) == value_at(b.clear_time, key, name)
}

/// Whether the records of one flag of a port are those after it moved to `v`.
pub open spec fn records_moved(
    before: FlagRows,
    after: FlagRows,
    key: Seq<char>,
    name: Seq<char>,
    v: Val,
    time: Seq<char>,
) -> bool {
    let n = next_count(count_in(row_at(before.change_count, key)->0, name));
    &&& value_at(after.change_count, key, name) == Some(signed_decimal(n as int))
    &&& value_at(after.set_time, key, name) == (if truthy(v) {
        Some(time)
    } else {
        value_at(before.set_time, key, name)
    })
    &&& value_at(after.clear_time, key, name) == (if truthy(v) {
        value_at(before.clear_time, key, name)
    } else {
        Some(time)
    })
}

proof fn merged_field<T: DbTable>(
    rows: Rows,
    key: Seq<char>,
    name: Seq<char>,
    text: Seq<char>,
    other: Seq<char>,
)
    requires
        merges::<T>(),
        row_at(rows, key) is Some,
        distinct_fields(row_at(rows, key)->0),
        other != name,
    ensures
        ({
            let after = put::<T>(rows, key, seq![(name, text)]);
            &&& row_at(after, key) is Some
            &&& distinct_fields(row_at(after, key)->0)
            &&& value_at(after, key, name) == Some(text)
            &&& value_at(after, key, other) == value_at(rows, key, other)
            &&& last_value(row_at(after, key)->0, other) == last_value(
                row_at(rows, key)->0,
                other,
            )
        }),
{
    let written = seq![(name, text)];
    let after = T::stored(Some(rows[key]), written);
    assert(distinct_fields(written));
    assert(distinct_fields(after));
    one_field_is_read_back::<T>(rows, key, name, text);
    unnamed_field_is_not_found(written, other);
    assert(first_value(after, other) == first_value(rows[key], other));
    first_is_last(after, other);
    first_is_last(rows[key], other);
}

proof fn one_change_merged<T: DbTable>(
    t: FlagRows,
    key: Seq<char>,
    name: Seq<char>,
    v: Val,
    time: Seq<char>,
    other: Seq<char>,
)
    requires
        merges::<T>(),
        records_there(t, key),
        other != name,
    ensures
        ({
            let r = changed::<T>(t, key, name, v, time);
            &&& records_there(r, key)
            &&& records_moved(t, r, key, name, v, time)
            &&& same_records(t, r, key, other)
            &&& count_in(row_at(r.change_count, key)->0, other) == count_in(
                row_at(t.change_count, key)->0,
                other,
            )
        }),
{
    let n = signed_decimal(next_count(count_in(row_at(t.change_count, key)->0, name)) as int);
    merged_field::<T>(t.change_count, key, name, n, other);
    merged_field::<T>(t.set_time, key, name, time, other);
    merged_field::<T>(t.clear_time, key, name, time, other);
}

proof fn recording_others_is_local<T: DbTable>(
    t: FlagRows,
    published: Row,
    key: Seq<char>,
    f: Vals,
    time: Seq<char>,
    name: Seq<char>,
)
    requires
        merges::<T>(),
        records_there(t, key),
        forall|j: int|
            0 <= j < f.len() && (#[trigger] f[j]).0 == name ==> !flag_moved(published, name, f[j].1),
    ensures
        ({
            let r = recorded::<T>(t, published, key, f, time);
            &&& same_records(t, r, key, name)
            &&& records_there(r, key)
        }),
    decreases f.len(),
{
    if f.len() > 0 {
        let rest = f.skip(1);
        assert forall|j: int| 0 <= j < rest.len() && (#[trigger] rest[j]).0 == name implies !flag_moved(
            published,
            name,
            rest[j].1,
        ) by {
            assert(rest[j] == f[j + 1]);
        }
        if flag_moved(published, f[0].0, f[0].1) {
            assert(f[0].0 != name);
            let t1 = changed::<T>(t, key, f[0].0, f[0].1, time);
            one_change_merged::<T>(t, key, f[0].0, f[0].1, time, name);
            recording_others_is_local::<T>(t1, published, key, rest, time, name);
        } else {
            recording_others_is_local::<T>(t, published, key, rest, time, name);
        }
    }
}

proof fn each_move_is_recorded<T: DbTable>(
    t: FlagRows,
    published: Row,
    key: Seq<char>,
    f: Vals,
    time: Seq<char>,
    i: int,
)
    requires
        merges::<T>(),
        records_there(t, key),
        distinct_names(f),
        0 <= i < f.len(),
        flag_moved(published, f[i].0, f[i].1),
    ensures
        records_moved(
            t,
            recorded::<T>(t, published, key, f, time),
            key,
            f[i].0,
            f[i].1,
            time,
        ),
    decreases f.len(),
{
    let rest = f.skip(1);
    assert(distinct_names(rest)) by {
        assert forall|x: int, y: int| 0 <= x < y < rest.len() implies (#[trigger] rest[x]).0 != (
        #[trigger] rest[y]).0 by {
            assert(f[x + 1].0 != f[y + 1].0);
        }
    }
    let t1 = if flag_moved(published, f[0].0, f[0].1) {
        changed::<T>(t, key, f[0].0, f[0].1, time)
    } else {
        t
    };
    if i == 0 {
        let other = f[0].0.push(' ');
        assert(other.len() != f[0].0.len());
        one_change_merged::<T>(t, key, f[0].0, f[0].1, time, other);
        assert forall|j: int| 0 <= j < rest.len() && (#[trigger] rest[j]).0 == f[0].0 implies !flag_moved(
            published,
            f[0].0,
            rest[j].1,
        ) by {
            assert(rest[j] == f[j + 1]);
            assert(f[0].0 != f[j + 1].0);
        }
        recording_others_is_local::<T>(t1, published, key, rest, time, f[0].0);
    } else {
        assert(rest[i - 1] == f[i]);
        assert(f[0].0 != f[i].0);
        if flag_moved(published, f[0].0, f[0].1) {
            one_change_merged::<T>(t, key, f[0].0, f[0].1, time, f[i].0);
        }
        each_move_is_recorded::<T>(t1, published, key, rest, time, i - 1);
    }
}

/// In tables that merge, every flag of a reading that moved has the next count,
/// and the time as the time of its setting or of its clearing, whatever the
/// other flags did.
pub proof fn every_moved_flag_is_recorded<T: DbTable>(
    t: FlagRows,
    key: Seq<char>,
    f: Vals,
    time: Seq<char>,
    i: int,
)
    requires
        merges::<T>(),
        distinct_names(f),
        row_at(t.value, key) is Some,
        records_there(t, key),
        0 <= i < f.len(),
        flag_moved(row_at(t.value, key)->0, f[i].0, f[i].1),
    ensures
        records_moved(t, tracked_flags::<T>(t, key, f, time), key, f[i].0, f[i].1, time),
{
    each_move_is_recorded::<T>(t, row_at(t.value, key)->0, key, f, time, i);
}

/// In tables that merge, a flag that did not move keeps its records, whatever
/// the other flags did.
pub proof fn other_flags_keep_their_records<T: DbTable>(
    t: FlagRows,
    key: Seq<char>,
    f: Vals,
    time: Seq<char>,
    name: Seq<char>,
)
    requires
        merges::<T>(),
        row_at(t.value, key) is Some,
        records_there(t, key),
        forall|j: int|
            0 <= j < f.len() && (#[trigger] f[j]).0 == name ==> !flag_moved(
                row_at(t.value, key)->0,
                name,
                f[j].1,
            ),
    ensures
        same_records(t, tracked_flags::<T>(t, key, f, time), key, name),
{
    recording_others_is_local::<T>(t, row_at(t.value, key)->0, key, f, time, name);
}

proof fn published_flag_row_is_there<T: DbTable>(
    t: FlagRows,
    m: MappingView,
    tr: Trace,
    name: Seq<char>,
    reader: Reader,
    b: Beautify,
)
    ensures
        posted_flag_family::<T>(t, None, m, tr, name, reader, b).3 ==> width_at(
            posted_flag_family::<T>(t, None, m, tr, name, reader, b).0.value,
            name,
        ) > 0,
{
    let (port, t1) = validated(m, tr, name, false);
    if let Some(p) = port {
        let r = reading(reader, t1.json(p, getter(reader)));
        let t2 = t1.then_ask(Ask::Json(p, getter(reader)));
        let (noted, t3) = noted_flags::<T>(t, t2, name, r);
        if let Some(f) = filled_fields(r) {
            let row = stamped(shown_row(b, f), t3.clock());
            T::stored_is_read_back(row_at(noted.value, name), row);
        }
    }
}

/// A re-read that settled either found the port not eligible and changed
/// nothing, or left no flags missing: the hook that publishes missing flags does
/// not publish them again.
pub proof fn settled_reread_leaves_no_flags_missing<T: DbTable>(
    th: Seq<AsicRows>,
    m: MappingView,
    tr: Trace,
    skip_cmis_mgr: bool,
    port: usize,
)
    requires
        reread::<T>(th, m, tr, skip_cmis_mgr, port).2 == LinkChangeReread::Settled,
    ensures
        reread::<T>(th, m, tr, skip_cmis_mgr, port).0 == th || !flags_missing(
            m,
            reread::<T>(th, m, tr, skip_cmis_mgr, port).0,
            port,
        ),
{
    if let Some(name) = m.first_on(port) {
        if let Some(a) = m.asic_of(name) {
            if a < th.len() {
                published_flag_row_is_there::<T>(
                    th[a as int].dom_flags,
                    m,
                    tr.then_ask(Ask::Stop).then_ask(Ask::Presence(port)),
                    name,
                    Reader::DomFlags,
                    Beautify::Dom,
                );
            }
        }
    }
}

/// A re-read of the port on a slot that is monitored, not blocked and not being
/// brought up follows what the module in that slot reports: it settles where the
/// module, still there, gives flags, and is to be tried again otherwise.
pub proof fn reread_follows_the_module<T: DbTable>(
    th: Seq<AsicRows>,
    m: MappingView,
    tr: Trace,
    skip_cmis_mgr: bool,
    port: usize,
    name: Seq<char>,
    a: usize,
)
    requires
        m.agrees(),
        m.first_on(port) == Some(name),
        m.asic_of(name) == Some(a),
        a < th.len(),
        !tr.stop(),
        dom_polling(m, th, name) != "disabled"@,
        !in_cmis_init(m, th, skip_cmis_mgr, name),
        !is_blocked(th[a as int].status_sw, name),
        tr.then_ask(Ask::Stop).present(port),
    ensures
        ({
            let t1 = tr.then_ask(Ask::Stop).then_ask(Ask::Presence(port));
            let t2 = t1.then_ask(Ask::Stop);
            let flags = t2.then_ask(Ask::Presence(port)).json(port, "get_transceiver_dom_flags"@);
            reread::<T>(th, m, tr, skip_cmis_mgr, port).2 == (if !t1.stop() && t2.present(port)
                && filled_fields(flags) is Some {
                LinkChangeReread::Settled
            } else {
                LinkChangeReread::TransientRead
            })
        }),
{
    first_port_sits_on_its_slot(m, port, name);
}

// ---- whose rows are whose ----

/// Whether two states of the tables of an ASIC agree on what the monitoring does
/// not publish: identity, thresholds, the temperature rows, the bring-up states
/// and the ports.
pub open spec fn same_elsewhere(a: AsicRows, b: AsicRows) -> bool {
    &&& a.intf == b.intf
    &&& a.dom_temperature == b.dom_temperature
    &&& a.dom_threshold == b.dom_threshold
    &&& a.vdm.thresholds == b.vdm.thresholds
    &&& a.status_sw == b.status_sw
    &&& a.cfg_port == b.cfg_port
    &&& a.app_port == b.app_port
    &&& a.state_port == b.state_port
}

proof fn posting_families_keeps_the_rest<T: DbTable>(
    v: VdmRows,
    split: Seq<Vals>,
    tr: Trace,
    name: Seq<char>,
    i: nat,
)
    ensures
        posted_families::<T>(v, split, tr, name, true, i).0.real_value == v.real_value,
        posted_families::<T>(v, split, tr, name, true, i).0.thresholds == v.thresholds,
    decreases 4 - i,
{
    if i < 4 && split[i as int].len() != 0 {
        let f = v.flags[i as int];
        let v1 = VdmRows {
            real_value: v.real_value,
            flags: v.flags.update(
                i as int,
                FlagRows {
                    value: put::<T>(f.value, name, family_row(split[i as int], tr.clock())),
                    change_count: f.change_count,
                    set_time: f.set_time,
                    clear_time: f.clear_time,
                },
            ),
            thresholds: v.thresholds,
        };
        posting_families_keeps_the_rest::<T>(v1, split, tr.then_ask(Ask::Clock), name, i + 1);
    }
}

proof fn vdm_flags_keep_the_rest<T: DbTable>(v: VdmRows, m: MappingView, tr: Trace, name: Seq<char>)
    ensures
        posted_vdm::<T>(v, None, m, tr, name, true).0.real_value == v.real_value,
        posted_vdm::<T>(v, None, m, tr, name, true).0.thresholds == v.thresholds,
{
    let (port, t1) = validated(m, tr, name, true);
    if port is Some && m.asic_of(name) is Some {
        let t2 = t1.then_ask(Ask::Json(port->0, vdm_getter(true)));
        if let Some(r) = t1.json(port->0, vdm_getter(true)) {
            if let Some(raw) = r.fields {
                let split = families_of(raw);
                let noted = VdmRows {
                    real_value: v.real_value,
                    flags: noted_families::<T>(v.flags, split, name, stamp(t2.clock()), 0),
                    thresholds: v.thresholds,
                };
                posting_families_keeps_the_rest::<T>(
                    noted,
                    split,
                    t2.then_ask(Ask::Clock),
                    name,
                    0,
                );
            }
        }
    }
}

proof fn vdm_diagnostics_keep_the_rest<T: DbTable>(
    a: AsicRows,
    m: MappingView,
    tr: Trace,
    u: VdmUtils,
    name: Seq<char>,
    port: usize,
)
    ensures
        same_elsewhere(a, posted_vdm_diagnostics::<T>(a, m, tr, u, name, port).0),
{
    if reply_true(tr.json(port, "is_transceiver_vdm_supported"@)) {
        let t1 = tr.then_ask(Ask::Json(port, "is_transceiver_vdm_supported"@));
        let (_pm, statistic, t2) = statistics_taken::<T>(a.pm, m, t1, u, name, port);
        let basic = object_fields(t2.json(port, "get_transceiver_vdm_real_value_basic"@));
        let t3 = t2.then_ask(Ask::Json(port, "get_transceiver_vdm_real_value_basic"@));
        let (values, t4) = posted_real_values::<T>(
            a.vdm.real_value,
            m,
            t3,
            name,
            merged_values(basic, statistic),
        );
        let v = VdmRows {
            real_value: values,
            flags: a.vdm.flags,
            thresholds: a.vdm.thresholds,
        };
        vdm_flags_keep_the_rest::<T>(v, m, t4, name);
    }
}

proof fn posting_a_port_keeps_the_rest<T: DbTable>(
    a: AsicRows,
    m: MappingView,
    tr: Trace,
    u: VdmUtils,
    name: Seq<char>,
    port: usize,
)
    ensures
        same_elsewhere(a, posted_port::<T>(a, m, tr, u, name, port).0),
{
    let (fw, _c1, t1) = posted_firmware::<T>(a.firmware_info, None, m, tr, name);
    let (dom, _c2, t2) = posted_monitor::<T>(
        a.dom,
        None,
        m,
        t1,
        name,
        Reader::Sensor,
        Beautify::Dom,
    );
    let (df, _c3, t3, _p3) = posted_flag_family::<T>(
        a.dom_flags,
        None,
        m,
        t2,
        name,
        Reader::DomFlags,
        Beautify::Dom,
    );
    let (st, _c4, t4) = posted_monitor::<T>(
        a.status,
        None,
        m,
        t3,
        name,
        Reader::Status,
        Beautify::Plain,
    );
    let (sf, _c5, t5, _p5) = posted_flag_family::<T>(
        a.status_flags,
        None,
        m,
        t4,
        name,
        Reader::StatusFlags,
        Beautify::Plain,
    );
    let a1 = AsicRows {
        firmware_info: fw,
        dom,
        dom_flags: df,
        status: st,
        status_flags: sf,
        ..a
    };
    vdm_diagnostics_keep_the_rest::<T>(a1, m, t5, u, name, port);
}

/// Polling a port changes no row of another task.
pub proof fn polling_keeps_the_rows_of_other_tasks<T: DbTable>(
    th: Seq<AsicRows>,
    m: MappingView,
    tr: Trace,
    u: VdmUtils,
    skip_cmis_mgr: bool,
    port: usize,
    i: int,
)
    requires
        0 <= i < th.len(),
    ensures
        same_elsewhere(th[i], polled_port::<T>(th, m, tr, u, skip_cmis_mgr, port).0[i]),
{
    if let Some(name) = m.first_on(port) {
        posting_a_port_keeps_the_rest::<T>(
            th[i],
            m,
            tr.then_ask(Ask::Presence(port)),
            u,
            name,
            port,
        );
    }
}

/// A re-read changes nothing but flags: no row of another task, and none of the
/// values that a pass publishes.
pub proof fn rereading_changes_only_flags<T: DbTable>(
    th: Seq<AsicRows>,
    m: MappingView,
    tr: Trace,
    skip_cmis_mgr: bool,
    port: usize,
    i: int,
)
    requires
        0 <= i < th.len(),
    ensures
        ({
            let a = reread::<T>(th, m, tr, skip_cmis_mgr, port).0[i];
            &&& same_elsewhere(th[i], a)
            &&& a.dom == th[i].dom
            &&& a.status == th[i].status
            &&& a.pm == th[i].pm
            &&& a.firmware_info == th[i].firmware_info
            &&& a.vdm.real_value == th[i].vdm.real_value
        }),
{
    if let Some(name) = m.first_on(port) {
        let t0 = tr.then_ask(Ask::Stop).then_ask(Ask::Presence(port));
        let t1 = posted_flag_family::<T>(
            th[i].dom_flags,
            None,
            m,
            t0,
            name,
            Reader::DomFlags,
            Beautify::Dom,
        ).2;
        let t2 = posted_flag_family::<T>(
            th[i].status_flags,
            None,
            m,
            t1,
            name,
            Reader::StatusFlags,
            Beautify::Plain,
        ).2;
        let t3 = t2.then_ask(Ask::Json(port, "is_transceiver_vdm_supported"@));
        vdm_flags_keep_the_rest::<T>(th[i].vdm, m, t3, name);
    }
}

/// While the data path of a port is brought up its flags are not published: a
/// re-read changes nothing and is to be tried again.
pub proof fn bring_up_defers_the_reread<T: DbTable>(
    th: Seq<AsicRows>,
    m: MappingView,
    tr: Trace,
    skip_cmis_mgr: bool,
    port: usize,
)
    requires
        !tr.stop(),
        m.first_on(port) is Some,
        dom_polling(m, th, m.first_on(port)->0) != "disabled"@,
        in_cmis_init(m, th, skip_cmis_mgr, m.first_on(port)->0),
    ensures
        reread::<T>(th, m, tr, skip_cmis_mgr, port).0 == th,
        reread::<T>(th, m, tr, skip_cmis_mgr, port).2 == LinkChangeReread::DeferredCmisInit,
{
}

/// Flaps of the ports of a breakout, which share a slot, share one re-read.
pub proof fn flaps_of_a_breakout_share_a_reread(
    v: TaskView,
    tr: Trace,
    p: usize,
    c1: Seq<char>,
    c2: Seq<char>,
)
    ensures
        ({
            let (v1, t1) = flap_noted(v, tr, Some((p, c1)));
            let v2 = flap_noted(v1, t1, Some((p, c2))).0;
            &&& v2.pending.at.dom().subset_of(v.pending.at.dom().insert(p))
            &&& v2.pending.order.len() <= v.pending.order.len() + 1
        }),
{
}

} // verus!
