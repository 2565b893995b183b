//! The monitoring task: a periodic pass over all ports, and a fast re-read of
//! the latched flags of a port whose link flapped.

use vstd::prelude::*;

use crate::assoc::{without, OrderedMap};
use crate::db::{value_at, width_at, DbTable, Rows};
use crate::dom::db_utils::{
    cached, is_transceiver_flat_memory, keeping, put, render, shown_row, Beautify, CacheView,
    DbCache, FlagRows, FlagTables, Reader,
};
use crate::dom::dom_sensor::{posted_flag_family, posted_monitor, DomDbUtils};
use crate::dom::status::StatusDbUtils;
use crate::dom::vdm::{
    froze, posted_real_values, posted_vdm, unfroze, VdmDbUtils, VdmRows, VdmThresholdCache, VdmUtils,
    FREEZE_UNFREEZE_DONE_POLLING_INTERVAL_MSECS, MAX_TVDMF_TIME_MSECS,
    MAX_VDM_FREEZE_UNFREEZE_TIME_MSECS,
};
use crate::hal::{
    event_views, get_transceiver_presence, is_transceiver_lpmode_on, Ask, Hal, Trace,
};
use crate::json::{
    empty_object, filled_fields, no_fields, put_fields, reply_true, reply_view, row_of, take_filled,
    vals, with_fields, Fields, Reply, ReplyView, Row, Val, Vals,
};
use crate::port::{texts, EventView, MappingView, PortChangeEvent, PortChangeEventType, PortMapping};
use crate::tables::{
    cmis_state, detect_port_in_error_status, get_cmis_state_from_state_db, is_blocked, is_terminal,
    is_terminal_state, AsicRows, AsicTables, XcvrTableHelper,
};
use crate::text::{owned, str_eq};

verus! {

/// The time between two passes where none is given, in seconds.
pub const DEFAULT_DOM_INFO_UPDATE_PERIOD_SECS: u64 = 60;

/// How long after a link flap the flags are read again, in seconds, so that the
/// module has time to latch them.
pub const DIAG_DB_UPDATE_TIME_AFTER_LINK_CHANGE_SECS: u64 = 1;

/// The longest wait for port updates between passes, in milliseconds.
pub const PORT_UPDATE_EVENT_SELECT_TIMEOUT_MSECS: u64 = 1000;

/// The wait for port updates between two ports of a pass, in milliseconds.
pub const PORT_UPDATE_EVENT_SELECT_TIMEOUT_FAST_MSECS: u64 = 10;

// ---- which ports are monitored ----

/// The monitoring setting of a port: that of the first port on its slot, and
/// enabled where there is none.
pub open spec fn dom_polling(m: MappingView, th: Seq<AsicRows>, name: Seq<char>) -> Seq<char> {
    match m.physical_of(name) {
        None => "enabled"@,
        Some(p) => match m.first_on(p) {
            None => "enabled"@,
            Some(first) => match m.asic_of(first) {
                None => "enabled"@,
                Some(a) => if a < th.len() {
                    match value_at(th[a as int].cfg_port, first, "dom_polling"@) {
                        Some(v) => v,
                        None => "enabled"@,
                    }
                } else {
                    "enabled"@
                },
            },
        },
    }
}

/// The monitoring setting of a port.
pub fn get_dom_polling_from_config_db<T: DbTable>(
    m: &PortMapping,
    th: &XcvrTableHelper<T>,
    name: &str,
) -> (r: String)
    ensures
        r@ == dom_polling(m@, th.rows(), name@),
{
    let p = match m.physical(name) {
        Some(p) => p,
        None => {
            return owned("enabled");
        },
    };
    let first = match m.first_logical(p) {
        Some(f) => f,
        None => {
            return owned("enabled");
        },
    };
    match m.get_asic_id_for_logical_port(first.as_str()) {
        Some(a) => if a < th.asics.len() {
            assert(th.rows()[a as int] == th.asics@[a as int].rows());
            match th.asics[a].cfg_port.hget(first.as_str(), "dom_polling") {
                Some(v) => v,
                None => owned("enabled"),
            }
        } else {
            owned("enabled")
        },
        None => owned("enabled"),
    }
}

/// Whether the data path of a port is still being brought up.
pub open spec fn in_cmis_init(
    m: MappingView,
    th: Seq<AsicRows>,
    skip_cmis_mgr: bool,
    name: Seq<char>,
) -> bool {
    !skip_cmis_mgr && match m.asic_of(name) {
        None => false,
        Some(a) => a < th.len() && !is_terminal(cmis_state(th[a as int].status_sw, name)),
    }
}

/// Whether a port is not monitored.
pub open spec fn monitoring_off(
    m: MappingView,
    th: Seq<AsicRows>,
    skip_cmis_mgr: bool,
    name: Seq<char>,
) -> bool {
    dom_polling(m, th, name) == "disabled"@ || in_cmis_init(m, th, skip_cmis_mgr, name)
}

// ---- firmware and performance rows ----

/// A reading of a plain getter, from the cache where it is kept there and from
/// the module otherwise. A getter that fails counts as one that answers with an
/// empty object.
pub open spec fn fetched_json(cache: CacheView, tr: Trace, port: usize, method: Seq<char>) -> (
    Option<ReplyView>,
    CacheView,
    Trace,
) {
    match cached(cache, port) {
        Some(r) => (r, cache, tr),
        None => {
            let r = match tr.json(port, method) {
                Some(v) => Some(v),
                None => Some(empty_object()),
            };
            (r, keeping(cache, port, r), tr.then_ask(Ask::Json(port, method)))
        },
    }
}

fn fetch_json<H: Hal>(hal: &mut H, cache: &mut DbCache, port: usize, method: &str) -> (r: Option<
    Reply,
>)
    ensures
        (reply_view(r), final(cache)@, final(hal).trace()) == fetched_json(
            old(cache)@,
            old(hal).trace(),
            port,
            method@,
        ),
{
    match cache.lookup(port) {
        Some(r) => r,
        None => {
            let r = match hal.call_json(port, method) {
                Some(v) => Some(v),
                None => Some(no_fields()),
            };
            cache.keep(port, &r);
            r
        },
    }
}

/// The rows after the same row is set for each of the ports.
pub open spec fn put_all<T: DbTable>(rows: Rows, names: Seq<Seq<char>>, row: Row) -> Rows
    decreases names.len(),
{
    if names.len() == 0 {
        rows
    } else {
        put_all::<T>(put::<T>(rows, names[0], row), names.skip(1), row)
    }
}

/// The rows after the firmware versions of a port's module are published to
/// every port on its slot.
pub open spec fn posted_firmware<T: DbTable>(
    rows: Rows,
    cache: CacheView,
    m: MappingView,
    tr: Trace,
    name: Seq<char>,
) -> (Rows, CacheView, Trace) {
    match m.slot_named(name) {
        None => (rows, cache, tr),
        Some(p) => {
            let t1 = tr.then_ask(Ask::Stop);
            let t2 = t1.then_ask(Ask::Presence(p));
            if tr.stop() {
                (rows, cache, t1)
            } else if !t1.present(p) {
                (rows, cache, t2)
            } else {
                let (r, c, t3) = fetched_json(
                    cache,
                    t2,
                    p,
                    "get_transceiver_info_firmware_versions"@,
                );
                match filled_fields(r) {
                    None => (rows, c, t3),
                    Some(f) => (
                        put_all::<T>(rows, m.logical_on(p), shown_row(Beautify::Plain, f)),
                        c,
                        t3,
                    ),
                }
            }
        },
    }
}

/// The rows after the performance figures of a port's module are published.
/// Only a module with paged memory has any.
pub open spec fn posted_pm<T: DbTable>(
    rows: Rows,
    cache: CacheView,
    m: MappingView,
    tr: Trace,
    name: Seq<char>,
) -> (Rows, CacheView, Trace) {
    match m.slot_named(name) {
        None => (rows, cache, tr),
        Some(p) => {
            let t1 = tr.then_ask(Ask::Stop);
            let t2 = t1.then_ask(Ask::Presence(p));
            let t3 = t2.then_ask(Ask::Json(p, "is_flat_memory"@));
            if tr.stop() {
                (rows, cache, t1)
            } else if !t1.present(p) {
                (rows, cache, t2)
            } else if reply_true(t2.json(p, "is_flat_memory"@)) {
                (rows, cache, t3)
            } else {
                let (r, c, t4) = fetched_json(cache, t3, p, "get_transceiver_pm"@);
                match filled_fields(r) {
                    None => (rows, c, t4),
                    Some(f) => (put::<T>(rows, name, shown_row(Beautify::Plain, f)), c, t4),
                }
            }
        },
    }
}

// ---- one port of a pass ----

/// The fields of an answer that is an object, none otherwise.
pub open spec fn object_fields(r: Option<ReplyView>) -> Vals {
    match r {
        Some(v) => match v.fields {
            Some(f) => f,
            None => Seq::empty(),
        },
        None => Seq::empty(),
    }
}

/// Two lists of values as one, the second winning where both name a value.
pub open spec fn merged_values(basic: Vals, statistic: Vals) -> Vals {
    with_fields(with_fields(Seq::empty(), basic), statistic)
}

/// Merges the present values and the statistics of the observables, the
/// statistics winning where both name a value.
pub fn merge_vdm_values(basic: &Fields, statistic: &Fields) -> (r: Fields)
    ensures
        vals(r@) == merged_values(vals(basic@), vals(statistic@)),
{
    let mut r: Fields = Vec::new();
    assert(vals(r@) =~= Seq::<(Seq<char>, Val)>::empty());
    put_fields(&mut r, basic);
    put_fields(&mut r, statistic);
    r
}

fn object_of(r: Option<Reply>) -> (f: Fields)
    ensures
        vals(f@) == object_fields(reply_view(r)),
{
    match r {
        Some(v) => match v.fields {
            Some(f) => f,
            None => {
                let f: Fields = Vec::new();
                assert(vals(f@) =~= Seq::<(Seq<char>, Val)>::empty());
                f
            },
        },
        None => {
            let f: Fields = Vec::new();
            assert(vals(f@) =~= Seq::<(Seq<char>, Val)>::empty());
            f
        },
    }
}

/// The statistics of a module and the performance rows, both taken while the
/// statistics are frozen; nothing where the module has none, is in low-power
/// mode, or does not freeze. Whatever was frozen is unfrozen.
pub open spec fn statistics_taken<T: DbTable>(
    pm: Rows,
    m: MappingView,
    tr: Trace,
    u: VdmUtils,
    name: Seq<char>,
    port: usize,
) -> (Rows, Vals, Trace) {
    let t1 = tr.then_ask(Ask::Json(port, "is_vdm_statistic_supported"@));
    let t2 = t1.then_ask(Ask::Lpmode(port));
    if !reply_true(tr.json(port, "is_vdm_statistic_supported"@)) {
        (pm, Seq::empty(), t1)
    } else if t1.low_power(port) {
        (pm, Seq::empty(), t2)
    } else {
        let (frozen, t3) = froze(u, t2, port);
        if frozen {
            let f = object_fields(t3.json(port, "get_transceiver_vdm_real_value_statistic"@));
            let t4 = t3.then_ask(Ask::Json(port, "get_transceiver_vdm_real_value_statistic"@));
            let (pm1, _c, t5) = posted_pm::<T>(pm, None, m, t4, name);
            (pm1, f, unfroze(u, t5, port).1)
        } else {
            (pm, Seq::empty(), unfroze(u, t3, port).1)
        }
    }
}

/// The tables after the observables of a port are published: the values, with
/// the statistics where they could be taken, and the latched flags last.
pub open spec fn posted_vdm_diagnostics<T: DbTable>(
    a: AsicRows,
    m: MappingView,
    tr: Trace,
    u: VdmUtils,
    name: Seq<char>,
    port: usize,
) -> (AsicRows, Trace) {
    let t1 = tr.then_ask(Ask::Json(port, "is_transceiver_vdm_supported"@));
    if !reply_true(tr.json(port, "is_transceiver_vdm_supported"@)) {
        (a, t1)
    } else {
        let (pm, statistic, t2) = statistics_taken::<T>(a.pm, m, t1, u, name, port);
        let basic = object_fields(t2.json(port, "get_transceiver_vdm_real_value_basic"@));
        let t3 = t2.then_ask(Ask::Json(port, "get_transceiver_vdm_real_value_basic"@));
        let (shown_values, t4) = posted_real_values::<T>(
            a.vdm.real_value,
            m,
            t3,
            name,
            merged_values(basic, statistic),
        );
        let v = VdmRows {
            real_value: shown_values,
            flags: a.vdm.flags,
            thresholds: a.vdm.thresholds,
        };
        let (v1, _c, t5) = posted_vdm::<T>(v, None, m, t4, name, true);
        (AsicRows { pm, vdm: v1, ..a }, t5)
    }
}

/// The tables after everything that a port's module reports is published.
pub open spec fn posted_port<T: DbTable>(
    a: AsicRows,
    m: MappingView,
    tr: Trace,
    u: VdmUtils,
    name: Seq<char>,
    port: usize,
) -> (AsicRows, Trace) {
    let (fw, _c1, t1) = posted_firmware::<T>(a.firmware_info, None, m, tr, name);
    let (dom, _c2, t2) = posted_monitor::<T>(
        a.dom,
        None,
        m,
        t1,
        name,
        Reader::Sensor,
        Beautify::Dom,
    );
    let (df, _c3, t3, _p3) = posted_flag_family::<T>(
        a.dom_flags,
        None,
        m,
        t2,
        name,
        Reader::DomFlags,
        Beautify::Dom,
    );
    let (st, _c4, t4) = posted_monitor::<T>(
        a.status,
        None,
        m,
        t3,
        name,
        Reader::Status,
        Beautify::Plain,
    );
    let (sf, _c5, t5, _p5) = posted_flag_family::<T>(
        a.status_flags,
        None,
        m,
        t4,
        name,
        Reader::StatusFlags,
        Beautify::Plain,
    );
    let a1 = AsicRows {
        firmware_info: fw,
        dom,
        dom_flags: df,
        status: st,
        status_flags: sf,
        ..a
    };
    posted_vdm_diagnostics::<T>(a1, m, t5, u, name, port)
}

/// The tables after one port of a pass: only a port that is monitored, is not
/// blocked by an error and holds a module is read.
pub open spec fn polled_port<T: DbTable>(
    th: Seq<AsicRows>,
    m: MappingView,
    tr: Trace,
    u: VdmUtils,
    skip_cmis_mgr: bool,
    port: usize,
) -> (Seq<AsicRows>, Trace) {
    match m.first_on(port) {
        None => (th, tr),
        Some(name) => if monitoring_off(m, th, skip_cmis_mgr, name) {
            (th, tr)
        } else {
            match m.asic_of(name) {
                None => (th, tr),
                Some(i) => if i >= th.len() || is_blocked(th[i as int].status_sw, name) {
                    (th, tr)
                } else {
                    let t1 = tr.then_ask(Ask::Presence(port));
                    if !tr.present(port) {
                        (th, t1)
                    } else {
                        let (a, t2) = posted_port::<T>(th[i as int], m, t1, u, name, port);
                        (th.update(i as int, a), t2)
                    }
                },
            }
        },
    }
}

/// The tables after the ports on the slots `slots` are polled in turn, until
/// the daemon is asked to stop.
pub open spec fn polled<T: DbTable>(
    th: Seq<AsicRows>,
    m: MappingView,
    tr: Trace,
    u: VdmUtils,
    skip_cmis_mgr: bool,
    slots: Seq<usize>,
) -> (Seq<AsicRows>, Trace)
    decreases slots.len(),
{
    if slots.len() == 0 {
        (th, tr)
    } else {
        let t1 = tr.then_ask(Ask::Stop);
        if tr.stop() {
            (th, t1)
        } else {
            let (th1, t2) = polled_port::<T>(th, m, t1, u, skip_cmis_mgr, slots[0]);
            polled::<T>(th1, m, t2, u, skip_cmis_mgr, slots.skip(1))
        }
    }
}

// ---- re-reading flags after a link flap ----

/// What became of an attempt to read the flags of a port again.
#[derive(Clone, Copy, Debug, PartialEq, Eq, Structural)]
pub enum LinkChangeReread {
    /// The flags were published, or the port is not eligible and will not be
    /// for this flap.
    Settled,
    /// The data path is still being brought up; nothing was published.
    DeferredCmisInit,
    /// The module gave no flags; nothing was published.
    TransientRead,
}

/// The tables after the flags of the first port on a slot are read again, and
/// what became of it.
pub open spec fn reread<T: DbTable>(
    th: Seq<AsicRows>,
    m: MappingView,
    tr: Trace,
    skip_cmis_mgr: bool,
    port: usize,
) -> (Seq<AsicRows>, Trace, LinkChangeReread) {
    let t1 = tr.then_ask(Ask::Stop);
    if tr.stop() {
        (th, t1, LinkChangeReread::Settled)
    } else {
        match m.first_on(port) {
            None => (th, t1, LinkChangeReread::Settled),
            Some(name) => if dom_polling(m, th, name) == "disabled"@ {
                (th, t1, LinkChangeReread::Settled)
            } else if in_cmis_init(m, th, skip_cmis_mgr, name) {
                (th, t1, LinkChangeReread::DeferredCmisInit)
            } else {
                match m.asic_of(name) {
                    None => (th, t1, LinkChangeReread::Settled),
                    Some(i) => if i >= th.len() || is_blocked(th[i as int].status_sw, name) {
                        (th, t1, LinkChangeReread::Settled)
                    } else {
                        let t2 = t1.then_ask(Ask::Presence(port));
                        if !t1.present(port) {
                            (th, t2, LinkChangeReread::Settled)
                        } else {
                            let (a, t3, posted) = reread_flags::<T>(
                                th[i as int],
                                m,
                                t2,
                                name,
                                port,
                            );
                            (
                                th.update(i as int, a),
                                t3,
                                if posted {
                                    LinkChangeReread::Settled
                                } else {
                                    LinkChangeReread::TransientRead
                                },
                            )
                        }
                    },
                }
            },
        }
    }
}

/// The tables after all latched flags of a port are read again, and whether the
/// monitor flags were published.
pub open spec fn reread_flags<T: DbTable>(
    a: AsicRows,
    m: MappingView,
    tr: Trace,
    name: Seq<char>,
    port: usize,
) -> (AsicRows, Trace, bool) {
    let (df, _c1, t1, posted) = posted_flag_family::<T>(
        a.dom_flags,
        None,
        m,
        tr,
        name,
        Reader::DomFlags,
        Beautify::Dom,
    );
    let (sf, _c2, t2, _p) = posted_flag_family::<T>(
        a.status_flags,
        None,
        m,
        t1,
        name,
        Reader::StatusFlags,
        Beautify::Plain,
    );
    let t3 = t2.then_ask(Ask::Json(port, "is_transceiver_vdm_supported"@));
    if reply_true(t2.json(port, "is_transceiver_vdm_supported"@)) {
        let (v, _c3, t4) = posted_vdm::<T>(a.vdm, None, m, t3, name, true);
        (AsicRows { dom_flags: df, status_flags: sf, vdm: v, ..a }, t4, posted)
    } else {
        (AsicRows { dom_flags: df, status_flags: sf, ..a }, t3, posted)
    }
}

// ---- the schedule of re-reads ----

/// A re-read that is to come: when it fires next, and until when it is tried
/// again where the port is not ready. Both in milliseconds of the steady clock.
#[derive(Clone, Copy, Debug, PartialEq, Eq, Structural)]
pub struct PendingReread {
    pub fire_at: u64,
    pub giveup_at: u64,
}

/// The re-reads that are to come, by slot, in the order in which they were
/// first scheduled.
pub struct PendingView {
    pub at: Map<usize, PendingReread>,
    pub order: Seq<usize>,
}

impl PendingView {
    /// With a re-read of slot `p`.
    pub open spec fn with(self, p: usize, r: PendingReread) -> PendingView {
        PendingView {
            at: self.at.insert(p, r),
            order: if self.at.dom().contains(p) {
                self.order
            } else {
                self.order.push(p)
            },
        }
    }

    /// Without a re-read of slot `p`.
    pub open spec fn less(self, p: usize) -> PendingView {
        PendingView { at: self.at.remove(p), order: without(self.order, p) }
    }

    /// The slots among the first `n` whose re-read is due.
    pub open spec fn due_among(self, n: int, now: u64) -> Seq<usize>
        decreases n,
    {
        if n <= 0 {
            Seq::empty()
        } else {
            let before = self.due_among(n - 1, now);
            if self.at[self.order[n - 1]].fire_at <= now {
                before.push(self.order[n - 1])
            } else {
                before
            }
        }
    }

    /// The slots whose re-read is due.
    pub open spec fn due(self, now: u64) -> Seq<usize> {
        self.due_among(self.order.len() as int, now)
    }
}

/// A time that is `ms` later, or the last one that the clock can show.
pub open spec fn later(now: u64, ms: int) -> u64 {
    if now + ms > u64::MAX {
        u64::MAX
    } else {
        (now + ms) as u64
    }
}

fn add_ms(now: u64, ms: u64) -> (r: u64)
    ensures
        r == later(now, ms as int),
{
    if now > u64::MAX - ms {
        u64::MAX
    } else {
        now + ms
    }
}

fn add_secs(now: u64, secs: u64) -> (r: u64)
    ensures
        r == later(now, secs * 1000),
{
    if secs > u64::MAX / 1000 {
        u64::MAX
    } else {
        add_ms(now, secs * 1000)
    }
}

/// The state of the monitoring task.
pub struct TaskView {
    pub m: MappingView,
    pub skip_cmis_mgr: bool,
    pub interval: u64,
    pub pending: PendingView,
    pub flaps: Map<usize, Seq<char>>,
    pub u: VdmUtils,
}

/// The slot whose link an event says something of: that of the logical port,
/// or else the one that the event names.
pub open spec fn slot_of_event(m: MappingView, e: EventView) -> Option<usize> {
    match m.physical_of(e.port_name) {
        Some(p) => Some(p),
        None => e.physical_port,
    }
}

/// The slot and the flap count that an event reports: only a write to the
/// application database that carries a flap count reports one.
pub open spec fn flap_report(m: MappingView, e: EventView) -> Option<(usize, Seq<char>)> {
    if e.event_type != PortChangeEventType::PortSet || e.db_name != "APPL_DB"@ {
        None
    } else {
        match (slot_of_event(m, e), e.carries("flap_count"@)) {
            (Some(p), Some(c)) => Some((p, c)),
            _ => None,
        }
    }
}

/// The task after a flap count was reported: a count that differs from the one
/// seen last is a flap, and a re-read is scheduled.
pub open spec fn flap_noted(v: TaskView, tr: Trace, report: Option<(usize, Seq<char>)>) -> (
    TaskView,
    Trace,
) {
    match report {
        None => (v, tr),
        Some((p, c)) => if v.flaps.dom().contains(p) && v.flaps[p] == c {
            (v, tr)
        } else {
            let now = tr.uptime();
            (
                TaskView {
                    flaps: v.flaps.insert(p, c),
                    pending: v.pending.with(
                        p,
                        (PendingReread {
                            fire_at: later(now, 1000),
                            giveup_at: later(now, v.interval * 1000),
                        }),
                    ),
                    ..v
                },
                tr.then_ask(Ask::Uptime),
            )
        },
    }
}

/// The task after a flap count was taken as the one that the port started with:
/// it is kept only where none was seen before.
pub open spec fn flap_seeded(v: TaskView, report: Option<(usize, Seq<char>)>) -> TaskView {
    match report {
        None => v,
        Some((p, c)) => if v.flaps.dom().contains(p) {
            v
        } else {
            TaskView { flaps: v.flaps.insert(p, c), ..v }
        },
    }
}

/// The flap count that the application database has for the first port on a
/// slot.
pub open spec fn flap_in_db(m: MappingView, th: Seq<AsicRows>, slot: usize) -> Option<
    (usize, Seq<char>),
> {
    match m.first_on(slot) {
        None => None,
        Some(name) => match m.asic_of(name) {
            None => None,
            Some(a) => if a >= th.len() {
                None
            } else {
                match value_at(th[a as int].app_port, name, "flap_count"@) {
                    None => None,
                    Some(c) => Some(
                        (
                            match m.physical_of(name) {
                                Some(p) => p,
                                None => slot,
                            },
                            c,
                        ),
                    ),
                }
            },
        },
    }
}

/// The task after the flap counts of the slots are taken as those that the
/// ports started with.
pub open spec fn seeded_from_db(v: TaskView, th: Seq<AsicRows>, slots: Seq<usize>) -> TaskView
    decreases slots.len(),
{
    if slots.len() == 0 {
        v
    } else {
        seeded_from_db(flap_seeded(v, flap_in_db(v.m, th, slots[0])), th, slots.skip(1))
    }
}

/// The task after the flap counts of the slots are compared with those seen
/// last.
pub open spec fn reconciled(v: TaskView, th: Seq<AsicRows>, tr: Trace, slots: Seq<usize>) -> (
    TaskView,
    Trace,
)
    decreases slots.len(),
{
    if slots.len() == 0 {
        (v, tr)
    } else {
        let (v1, t1) = flap_noted(v, tr, flap_in_db(v.m, th, slots[0]));
        reconciled(v1, th, t1, slots.skip(1))
    }
}

/// The task after port updates came in.
pub open spec fn updates_noted(v: TaskView, tr: Trace, events: Seq<EventView>) -> (TaskView, Trace)
    decreases events.len(),
{
    if events.len() == 0 {
        (v, tr)
    } else {
        let (v1, t1) = flap_noted(v, tr, flap_report(v.m, events[0]));
        updates_noted(v1, t1, events.skip(1))
    }
}

/// The schedule after a re-read of slot `p`: one that settled is done, any
/// other is tried again a second later until its time is over.
pub open spec fn after_reread(
    pending: PendingView,
    tr: Trace,
    p: usize,
    outcome: LinkChangeReread,
) -> (PendingView, Trace) {
    if outcome == LinkChangeReread::Settled {
        (pending.less(p), tr)
    } else {
        let now = tr.uptime();
        let t1 = tr.then_ask(Ask::Uptime);
        if pending.at.dom().contains(p) && now < pending.at[p].giveup_at {
            (
                pending.with(
                    p,
                    (PendingReread {
                        fire_at: later(now, 1000),
                        giveup_at: pending.at[p].giveup_at,
                    }),
                ),
                t1,
            )
        } else {
            (pending.less(p), t1)
        }
    }
}

/// The task and the tables after the re-reads of the slots `due` were tried in
/// turn, until the daemon is asked to stop.
pub open spec fn due_served<T: DbTable>(
    v: TaskView,
    th: Seq<AsicRows>,
    tr: Trace,
    due: Seq<usize>,
) -> (TaskView, Seq<AsicRows>, Trace)
    decreases due.len(),
{
    if due.len() == 0 {
        (v, th, tr)
    } else {
        let t1 = tr.then_ask(Ask::Stop);
        if tr.stop() {
            (v, th, t1)
        } else {
            let (th1, t2, outcome) = reread::<T>(th, v.m, t1, v.skip_cmis_mgr, due[0]);
            let (pending, t3) = after_reread(v.pending, t2, due[0], outcome);
            due_served::<T>(TaskView { pending, ..v }, th1, t3, due.skip(1))
        }
    }
}

/// The task and the tables after port updates were awaited and the re-reads
/// that were due then were tried. Where nothing delivers updates the time is
/// slept.
pub open spec fn port_updates_served<T: DbTable>(
    v: TaskView,
    th: Seq<AsicRows>,
    tr: Trace,
    timeout: u64,
) -> (TaskView, Seq<AsicRows>, Trace) {
    let t1 = tr.then_ask(Ask::Updates(timeout));
    let (v1, t2) = match tr.updates(timeout) {
        Some(events) => updates_noted(v, t1, events),
        None => (
            v,
            t1.then_ask(
                Ask::Sleep(
                    if timeout < PORT_UPDATE_EVENT_SELECT_TIMEOUT_MSECS {
                        timeout
                    } else {
                        PORT_UPDATE_EVENT_SELECT_TIMEOUT_MSECS
                    },
                ),
            ),
        ),
    };
    due_served::<T>(v1, th, t2.then_ask(Ask::Uptime), v1.pending.due(t2.uptime()))
}

/// Whether the flags of the first port on a slot are missing although its data
/// path has come to rest: the flag row is known to be empty, the bring-up ended
/// and the module was not just taken out, and the port is monitored.
pub open spec fn flags_missing(m: MappingView, th: Seq<AsicRows>, slot: usize) -> bool {
    match m.first_on(slot) {
        None => false,
        Some(name) => match m.asic_of(name) {
            None => false,
            Some(a) => {
                &&& a < th.len()
                &&& th[a as int].flag_sizes_readable
                &&& width_at(th[a as int].dom_flags.value, name) == 0
                &&& is_terminal(cmis_state(th[a as int].status_sw, name))
                &&& cmis_state(th[a as int].status_sw, name) != "REMOVED"@
                &&& dom_polling(m, th, name) != "disabled"@
            },
        },
    }
}

/// The task and the tables after the missing flags of the slots are published
/// again. A re-read that is to come for such a port is dropped once its flags
/// are published.
pub open spec fn republished<T: DbTable>(
    v: TaskView,
    th: Seq<AsicRows>,
    tr: Trace,
    slots: Seq<usize>,
) -> (TaskView, Seq<AsicRows>, Trace)
    decreases slots.len(),
{
    if slots.len() == 0 {
        (v, th, tr)
    } else {
        let t1 = tr.then_ask(Ask::Stop);
        let slot = slots[0];
        if tr.stop() {
            (v, th, t1)
        } else if !flags_missing(v.m, th, slot) {
            republished::<T>(v, th, t1, slots.skip(1))
        } else {
            let t2 = t1.then_ask(Ask::Presence(slot));
            if !t1.present(slot) {
                republished::<T>(v, th, t2, slots.skip(1))
            } else {
                let (th1, t3, outcome) = reread::<T>(th, v.m, t2, v.skip_cmis_mgr, slot);
                let v1 = if outcome == LinkChangeReread::Settled {
                    TaskView { pending: v.pending.less(slot), ..v }
                } else {
                    v
                };
                republished::<T>(v1, th1, t3, slots.skip(1))
            }
        }
    }
}

/// The task and the tables after the hook that publishes missing flags ran. It
/// does nothing where no data paths are brought up.
pub open spec fn hook_ran<T: DbTable>(v: TaskView, th: Seq<AsicRows>, tr: Trace) -> (
    TaskView,
    Seq<AsicRows>,
    Trace,
) {
    if v.skip_cmis_mgr {
        (v, th, tr)
    } else {
        republished::<T>(v, th, tr, v.m.slots)
    }
}

/// The task and the tables after the flap counts were compared and the hook ran,
/// where the time for it has come, and when it comes next.
pub open spec fn upkeep<T: DbTable>(
    v: TaskView,
    th: Seq<AsicRows>,
    tr: Trace,
    now: u64,
    next_reconcile: u64,
) -> (TaskView, Seq<AsicRows>, Trace, u64) {
    if now < next_reconcile {
        (v, th, tr, next_reconcile)
    } else {
        let (v1, t1) = reconciled(v, th, tr, v.m.slots);
        let (v2, th2, t2) = hook_ran::<T>(v1, th, t1);
        (v2, th2, t2, later(now, 1000))
    }
}

/// The task and the tables after a pass over the slots in which, before each
/// port, port updates are served.
pub open spec fn polled_interleaved<T: DbTable>(
    v: TaskView,
    th: Seq<AsicRows>,
    tr: Trace,
    next_reconcile: u64,
    slots: Seq<usize>,
) -> (TaskView, Seq<AsicRows>, Trace, u64)
    decreases slots.len(),
{
    if slots.len() == 0 {
        (v, th, tr, next_reconcile)
    } else {
        let t1 = tr.then_ask(Ask::Stop);
        if tr.stop() {
            (v, th, t1, next_reconcile)
        } else {
            let t2 = t1.then_ask(Ask::Uptime);
            let (v1, th1, t3, next) = upkeep::<T>(v, th, t2, t1.uptime(), next_reconcile);
            let (v2, th2, t4) = port_updates_served::<T>(
                v1,
                th1,
                t3,
                PORT_UPDATE_EVENT_SELECT_TIMEOUT_FAST_MSECS,
            );
            let t5 = t4.then_ask(Ask::Stop);
            if t4.stop() {
                (v2, th2, t5, next)
            } else {
                let (th3, t6) = polled_port::<T>(th2, v2.m, t5, v2.u, v2.skip_cmis_mgr, slots[0]);
                polled_interleaved::<T>(v2, th3, t6, next, slots.skip(1))
            }
        }
    }
}

// ---- ports that come and go ----

/// The four flag tables without the rows of a port.
pub open spec fn flags_less(t: FlagRows, name: Seq<char>) -> FlagRows {
    FlagRows {
        value: t.value.remove(name),
        change_count: t.change_count.remove(name),
        set_time: t.set_time.remove(name),
        clear_time: t.clear_time.remove(name),
    }
}

/// The tables without the rows that the monitoring task publishes for a port.
/// The rows of other tasks stay: identity, thresholds and the bring-up state.
pub open spec fn monitor_rows_removed(a: AsicRows, name: Seq<char>) -> AsicRows {
    AsicRows {
        dom: a.dom.remove(name),
        dom_temperature: a.dom_temperature.remove(name),
        dom_flags: flags_less(a.dom_flags, name),
        vdm: VdmRows {
            real_value: a.vdm.real_value.remove(name),
            flags: a.vdm.flags.map_values(|t: FlagRows| flags_less(t, name)),
            thresholds: a.vdm.thresholds,
        },
        status: a.status.remove(name),
        status_flags: flags_less(a.status_flags, name),
        pm: a.pm.remove(name),
        firmware_info: a.firmware_info.remove(name),
        ..a
    }
}

/// The tables after a port is taken out of the configuration.
pub open spec fn port_removed(th: Seq<AsicRows>, asic: usize, name: Seq<char>) -> Seq<AsicRows> {
    if asic < th.len() {
        th.update(asic as int, monitor_rows_removed(th[asic as int], name))
    } else {
        th
    }
}

/// The task and the tables after a configuration event.
pub open spec fn config_changed(v: TaskView, th: Seq<AsicRows>, e: EventView) -> (
    TaskView,
    Seq<AsicRows>,
) {
    (
        TaskView { m: v.m.after(e), ..v },
        if e.event_type == PortChangeEventType::PortRemove {
            port_removed(th, e.asic_id, e.port_name)
        } else {
            th
        },
    )
}

/// The task and the tables after a list of configuration events.
pub open spec fn configs_changed(v: TaskView, th: Seq<AsicRows>, events: Seq<EventView>) -> (
    TaskView,
    Seq<AsicRows>,
)
    decreases events.len(),
{
    if events.len() == 0 {
        (v, th)
    } else {
        let (v1, th1) = config_changed(v, th, events[0]);
        configs_changed(v1, th1, events.skip(1))
    }
}

// ---- the loop of the task ----

/// Where the loop of the monitoring task is.
#[derive(Clone, Copy, Debug, PartialEq, Eq, Structural)]
pub enum DomPhase {
    /// Before a pass: configuration changes are taken in.
    Configure,
    /// Between passes: port updates are served until the next pass is due.
    Wait,
    /// The next pass is due.
    Poll,
}

/// The loop of the monitoring task between two steps. The times are in
/// milliseconds of the steady clock.
#[derive(Clone, Copy, Debug, PartialEq, Eq, Structural)]
pub struct DomSchedule {
    pub phase: DomPhase,
    /// When the next pass begins.
    pub next: u64,
    /// When the flap counts are compared next.
    pub next_reconcile: u64,
}

/// The time from `now` until `at`, none where it has passed.
pub open spec fn until(now: u64, at: u64) -> int {
    if at > now {
        at - now
    } else {
        0
    }
}

/// The longest wait for port updates: until the next pass or the next
/// comparison, whichever comes first, at least one millisecond and at most a
/// second.
pub open spec fn wait_time(now: u64, next: u64, next_reconcile: u64) -> u64 {
    let a = until(now, next);
    let b = until(now, next_reconcile);
    let w = if a < b {
        a
    } else {
        b
    };
    if w < 1 {
        1
    } else if w > PORT_UPDATE_EVENT_SELECT_TIMEOUT_MSECS {
        PORT_UPDATE_EVENT_SELECT_TIMEOUT_MSECS
    } else {
        w as u64
    }
}

/// The task, the tables and the loop after one step of the loop; no loop where
/// the daemon is asked to stop.
pub open spec fn stepped<T: DbTable>(
    v: TaskView,
    th: Seq<AsicRows>,
    tr: Trace,
    s: DomSchedule,
) -> (TaskView, Seq<AsicRows>, Trace, Option<DomSchedule>) {
    let t1 = tr.then_ask(Ask::Stop);
    if tr.stop() {
        (v, th, t1, None)
    } else {
        match s.phase {
            DomPhase::Configure => {
                let (v1, th1) = configs_changed(v, th, t1.config_changes());
                (
                    v1,
                    th1,
                    t1.then_ask(Ask::ConfigChanges),
                    Some(DomSchedule { phase: DomPhase::Wait, ..s }),
                )
            },
            DomPhase::Wait => {
                let now = t1.uptime();
                let t2 = t1.then_ask(Ask::Uptime);
                if s.next <= now {
                    (v, th, t2, Some(DomSchedule { phase: DomPhase::Poll, ..s }))
                } else {
                    let (v1, th1, t3, nr) = upkeep::<T>(v, th, t2, now, s.next_reconcile);
                    let (v2, th2, t4) = port_updates_served::<T>(
                        v1,
                        th1,
                        t3,
                        wait_time(now, s.next, nr),
                    );
                    (v2, th2, t4, Some(DomSchedule { next_reconcile: nr, ..s }))
                }
            },
            DomPhase::Poll => {
                let start = t1.uptime();
                let t2 = t1.then_ask(Ask::Uptime);
                let (v1, th1, t3, nr) = polled_interleaved::<T>(
                    v,
                    th,
                    t2,
                    s.next_reconcile,
                    v.m.slots,
                );
                (
                    v1,
                    th1,
                    t3,
                    Some(
                        DomSchedule {
                            phase: DomPhase::Configure,
                            next: later(start, v.interval * 1000),
                            next_reconcile: nr,
                        },
                    ),
                )
            },
        }
    }
}

/// The task after the events of a snapshot are taken as what the ports started
/// with.
pub open spec fn seeded_from_events(v: TaskView, events: Seq<EventView>) -> TaskView
    decreases events.len(),
{
    if events.len() == 0 {
        v
    } else {
        seeded_from_events(flap_seeded(v, flap_report(v.m, events[0])), events.skip(1))
    }
}

/// The loop at its start: the first pass comes one interval later.
pub open spec fn started(tr: Trace, interval: u64) -> (DomSchedule, Trace) {
    let t1 = tr.then_ask(Ask::Uptime);
    (
        DomSchedule {
            phase: DomPhase::Configure,
            next: later(tr.uptime(), interval * 1000),
            next_reconcile: later(t1.uptime(), 1000),
        },
        t1.then_ask(Ask::Uptime),
    )
}

/// The monitoring task.
pub struct DomInfoUpdateTask {
    port_mapping: PortMapping,
    skip_cmis_mgr: bool,
    dom_update_interval: u64,
    link_change_affected_ports: OrderedMap<usize, PendingReread>,
    last_flap_count: OrderedMap<usize, String>,
    dom_db: DomDbUtils,
    status_db: StatusDbUtils,
    vdm_utils: VdmUtils,
    vdm_db: VdmDbUtils,
}

impl View for DomInfoUpdateTask {
    type V = TaskView;

    closed spec fn view(&self) -> TaskView {
        TaskView {
            m: self.port_mapping@,
            skip_cmis_mgr: self.skip_cmis_mgr,
            interval: self.dom_update_interval,
            pending: PendingView {
                at: self.link_change_affected_ports@,
                order: self.link_change_affected_ports.order(),
            },
            flaps: self.last_flap_count@.map_values(|s: String| s@),
            u: self.vdm_utils,
        }
    }
}

/// The interval between passes that is in force: the one given, or the default
/// where none is given or the given one is negative.
pub open spec fn interval_of(given: Option<i64>) -> u64 {
    match given {
        None => DEFAULT_DOM_INFO_UPDATE_PERIOD_SECS,
        Some(secs) => if secs < 0 {
            DEFAULT_DOM_INFO_UPDATE_PERIOD_SECS
        } else {
            secs as u64
        },
    }
}

impl DomInfoUpdateTask {
    /// A task over the ports of `port_mapping`.
    pub fn new(
        port_mapping: PortMapping,
        skip_cmis_mgr: bool,
        dom_update_interval: Option<i64>,
    ) -> (t: Self)
        ensures
            t@.m == port_mapping@,
            t@.m.agrees(),
            t@.skip_cmis_mgr == skip_cmis_mgr,
            t@.interval == interval_of(dom_update_interval),
            t@.pending.at == Map::<usize, PendingReread>::empty(),
            t@.pending.order == Seq::<usize>::empty(),
            t@.flaps == Map::<usize, Seq<char>>::empty(),
            t@.u == (VdmUtils {
                settle: MAX_TVDMF_TIME_MSECS,
                timeout: MAX_VDM_FREEZE_UNFREEZE_TIME_MSECS,
                poll: FREEZE_UNFREEZE_DONE_POLLING_INTERVAL_MSECS,
            }),
    {
        proof {
            use_type_invariant(&port_mapping);
        }
        let interval: u64 = match dom_update_interval {
            None => DEFAULT_DOM_INFO_UPDATE_PERIOD_SECS,
            Some(secs) => if secs < 0 {
                DEFAULT_DOM_INFO_UPDATE_PERIOD_SECS
            } else {
                secs as u64
            },
        };
        let t = DomInfoUpdateTask {
            port_mapping,
            skip_cmis_mgr,
            dom_update_interval: interval,
            link_change_affected_ports: OrderedMap::new(),
            last_flap_count: OrderedMap::new(),
            dom_db: DomDbUtils::new(),
            status_db: StatusDbUtils::new(),
            vdm_utils: VdmUtils::new(),
            vdm_db: VdmDbUtils::new(),
        };
        assert(t@.flaps =~= Map::<usize, Seq<char>>::empty());
        t
    }

    /// The time between two passes, in seconds.
    pub fn dom_update_interval(&self) -> (r: u64)
        ensures
            r == self@.interval,
    {
        self.dom_update_interval
    }

    /// The ports that the task monitors.
    pub fn port_mapping(&self) -> (r: &PortMapping)
        ensures
            r@ == self@.m,
            self@.m.agrees(),
    {
        proof {
            use_type_invariant(&self.port_mapping);
        }
        &self.port_mapping
    }

    /// The re-read that is to come for a slot.
    pub fn pending_reread(&self, slot: usize) -> (r: Option<PendingReread>)
        ensures
            match r {
                Some(p) => self@.pending.at.dom().contains(slot) && p == self@.pending.at[slot],
                None => !self@.pending.at.dom().contains(slot),
            },
    {
        match self.link_change_affected_ports.get(&slot) {
            Some(p) => Some(*p),
            None => None,
        }
    }

    /// Schedules a re-read of a slot.
    pub fn schedule_reread(&mut self, slot: usize, r: PendingReread)
        ensures
            final(self)@ == (TaskView { pending: old(self)@.pending.with(slot, r), ..old(self)@ }),
    {
        self.link_change_affected_ports.insert(slot, r);
        assert(self@.flaps =~= old(self)@.flaps);
    }

    /// Takes back the re-read of a slot, where one is scheduled.
    pub fn cancel_reread(&mut self, slot: usize)
        ensures
            final(self)@ == (TaskView { pending: old(self)@.pending.less(slot), ..old(self)@ }),
    {
        let _gone = self.link_change_affected_ports.remove(&slot);
        assert(self@.flaps =~= old(self)@.flaps);
    }

    /// The flap count seen last for a slot.
    pub fn last_flap_count(&self, slot: usize) -> (r: Option<String>)
        ensures
            match r {
                Some(s) => self@.flaps.dom().contains(slot) && s@ == self@.flaps[slot],
                None => !self@.flaps.dom().contains(slot),
            },
    {
        match self.last_flap_count.get(&slot) {
            Some(s) => Some(s.clone()),
            None => None,
        }
    }

    /// The monitoring setting of a port.
    pub fn get_dom_polling_from_config_db<T: DbTable>(
        &self,
        th: &XcvrTableHelper<T>,
        name: &str,
    ) -> (r: String)
        ensures
            r@ == dom_polling(self@.m, th.rows(), name@),
    {
        get_dom_polling_from_config_db(&self.port_mapping, th, name)
    }

    /// Whether the data path of a port is still being brought up.
    pub fn is_port_in_cmis_initialization_process<T: DbTable>(
        &self,
        th: &XcvrTableHelper<T>,
        name: &str,
    ) -> (r: bool)
        ensures
            r == in_cmis_init(self@.m, th.rows(), self@.skip_cmis_mgr, name@),
    {
        if self.skip_cmis_mgr {
            return false;
        }
        match self.port_mapping.get_asic_id_for_logical_port(name) {
            None => false,
            Some(a) => {
                if a >= th.asics.len() {
                    return false;
                }
                assert(th.rows()[a as int] == th.asics@[a as int].rows());
                let state = get_cmis_state_from_state_db(name, &th.asics[a].status_sw);
                !is_terminal_state(state.as_str())
            },
        }
    }

    /// Whether a port is not monitored: it is switched off, or its data path is
    /// still being brought up.
    pub fn is_port_dom_monitoring_disabled<T: DbTable>(
        &self,
        th: &XcvrTableHelper<T>,
        name: &str,
    ) -> (r: bool)
        ensures
            r == monitoring_off(self@.m, th.rows(), self@.skip_cmis_mgr, name@),
    {
        str_eq(self.get_dom_polling_from_config_db(th, name).as_str(), "disabled")
            || self.is_port_in_cmis_initialization_process(th, name)
    }

    /// Publishes the firmware versions of a port's module to every port on its
    /// slot.
    pub fn post_port_sfp_firmware_info_to_db<T: DbTable, H: Hal>(
        &self,
        name: &str,
        table: &mut T,
        hal: &mut H,
        cache: &mut DbCache,
    )
        ensures
            (final(table).rows(), final(cache)@, final(hal).trace()) == posted_firmware::<T>(
                old(table).rows(),
                old(cache)@,
                self@.m,
                old(hal).trace(),
                name@,
            ),
    {
        let p = match self.port_mapping.slot_for_name(name) {
            Some(p) => p,
            None => {
                return;
            },
        };
        if hal.stop_requested() {
            return;
        }
        if !get_transceiver_presence(hal, p) {
            return;
        }
        let reply = fetch_json(hal, cache, p, "get_transceiver_info_firmware_versions");
        let f = match take_filled(reply) {
            Some(f) => f,
            None => {
                return;
            },
        };
        let fvs = render(Beautify::Plain, f);
        let names = match self.port_mapping.get_physical_to_logical(p) {
            Some(v) => v,
            None => {
                return;
            },
        };
        let ghost all = texts(names@);
        let ghost goal = put_all::<T>(table.rows(), all, row_of(fvs@));
        let mut i: usize = 0;
        assert(all.skip(0) =~= all);
        while i < names.len()
            invariant
                i <= names@.len(),
                all == texts(names@),
                goal == put_all::<T>(table.rows(), all.skip(i as int), row_of(fvs@)),
            decreases names.len() - i,
        {
            assert(all.skip(i as int)[0] == names@[i as int]@);
            assert(all.skip(i as int).skip(1) =~= all.skip(i + 1));
            table.set(names[i].as_str(), &fvs);
            i += 1;
        }
    }

    /// Publishes the performance figures of a port's module.
    pub fn post_port_pm_info_to_db<T: DbTable, H: Hal>(
        &self,
        name: &str,
        table: &mut T,
        hal: &mut H,
        cache: &mut DbCache,
    )
        ensures
            (final(table).rows(), final(cache)@, final(hal).trace()) == posted_pm::<T>(
                old(table).rows(),
                old(cache)@,
                self@.m,
                old(hal).trace(),
                name@,
            ),
    {
        let p = match self.port_mapping.slot_for_name(name) {
            Some(p) => p,
            None => {
                return;
            },
        };
        if hal.stop_requested() {
            return;
        }
        if !get_transceiver_presence(hal, p) {
            return;
        }
        if is_transceiver_flat_memory(hal, p) {
            return;
        }
        let reply = fetch_json(hal, cache, p, "get_transceiver_pm");
        match take_filled(reply) {
            Some(f) => {
                let fvs = render(Beautify::Plain, f);
                table.set(name, &fvs);
            },
            None => {},
        }
    }

    fn take_statistics<T: DbTable, H: Hal>(
        &self,
        name: &str,
        port: usize,
        pm: &mut T,
        hal: &mut H,
    ) -> (f: Fields)
        ensures
            (final(pm).rows(), vals(f@), final(hal).trace()) == statistics_taken::<T>(
                old(pm).rows(),
                self@.m,
                old(hal).trace(),
                self@.u,
                name@,
                port,
            ),
    {
        let none: Fields = Vec::new();
        assert(vals(none@) =~= Seq::<(Seq<char>, Val)>::empty());
        if !self.vdm_utils.is_vdm_statistic_supported(hal, port) {
            return none;
        }
        if is_transceiver_lpmode_on(hal, port) {
            return none;
        }
        let guard = self.vdm_utils.vdm_freeze_context(hal, port);
        let f = if guard.is_frozen() {
            let f = object_of(self.vdm_utils.get_vdm_real_values_statistic(hal, port));
            self.post_port_pm_info_to_db(name, pm, hal, &mut DbCache::off());
            f
        } else {
            none
        };
        let _unfrozen = guard.release(hal);
        f
    }

    fn post_port_vdm_diagnostics<T: DbTable, H: Hal>(
        &self,
        name: &str,
        port: usize,
        a: &mut AsicTables<T>,
        hal: &mut H,
    )
        requires
            old(a).vdm.wf(),
        ensures
            final(a).vdm.wf(),
            (final(a).rows(), final(hal).trace()) == posted_vdm_diagnostics::<T>(
                old(a).rows(),
                self@.m,
                old(hal).trace(),
                self@.u,
                name@,
                port,
            ),
    {
        if !self.vdm_utils.is_transceiver_vdm_supported(hal, port) {
            return;
        }
        let statistic = self.take_statistics(name, port, &mut a.pm, hal);
        let basic = object_of(self.vdm_utils.get_vdm_real_values_basic(hal, port));
        let merged = merge_vdm_values(&basic, &statistic);
        self.vdm_db.post_port_vdm_real_values_from_dict_to_db(
            name,
            &self.port_mapping,
            hal,
            &mut a.vdm.real_value,
            merged,
        );
        self.vdm_db.post_port_vdm_flags_to_db(
            name,
            &self.port_mapping,
            hal,
            &mut a.vdm,
            &mut VdmThresholdCache::off(),
        );
    }

    fn post_port<T: DbTable, H: Hal>(
        &self,
        name: &str,
        port: usize,
        a: &mut AsicTables<T>,
        hal: &mut H,
    )
        requires
            old(a).vdm.wf(),
        ensures
            final(a).vdm.wf(),
            (final(a).rows(), final(hal).trace()) == posted_port::<T>(
                old(a).rows(),
                self@.m,
                old(hal).trace(),
                self@.u,
                name@,
                port,
            ),
    {
        self.post_port_sfp_firmware_info_to_db(
            name,
            &mut a.firmware_info,
            hal,
            &mut DbCache::off(),
        );
        self.dom_db.post_port_dom_sensor_info_to_db(
            name,
            &self.port_mapping,
            &mut a.dom,
            hal,
            &mut DbCache::off(),
        );
        let _dom = self.dom_db.post_port_dom_flags_to_db(
            name,
            &self.port_mapping,
            hal,
            &mut a.dom_flags,
            &mut DbCache::off(),
        );
        self.status_db.post_port_transceiver_hw_status_to_db(
            name,
            &self.port_mapping,
            &mut a.status,
            hal,
            &mut DbCache::off(),
        );
        let _status = self.status_db.post_port_transceiver_hw_status_flags_to_db(
            name,
            &self.port_mapping,
            &mut a.status_flags,
            hal,
            &mut DbCache::off(),
        );
        self.post_port_vdm_diagnostics(name, port, a, hal);
    }

    /// Publishes everything that the module in a slot reports, where the port
    /// is monitored, not blocked by an error, and holds a module.
    pub fn poll_port<T: DbTable, H: Hal>(
        &self,
        port: usize,
        th: &mut XcvrTableHelper<T>,
        hal: &mut H,
    )
        requires
            old(th).wf(),
        ensures
            final(th).wf(),
            (final(th).rows(), final(hal).trace()) == polled_port::<T>(
                old(th).rows(),
                self@.m,
                old(hal).trace(),
                self@.u,
                self@.skip_cmis_mgr,
                port,
            ),
    {
        let name = match self.port_mapping.first_logical(port) {
            Some(n) => n,
            None => {
                return;
            },
        };
        if self.is_port_dom_monitoring_disabled(th, name.as_str()) {
            return;
        }
        let i = match self.port_mapping.get_asic_id_for_logical_port(name.as_str()) {
            Some(i) => i,
            None => {
                return;
            },
        };
        if i >= th.asics.len() {
            return;
        }
        assert(th.rows()[i as int] == th.asics@[i as int].rows());
        if detect_port_in_error_status(name.as_str(), &th.asics[i].status_sw) {
            return;
        }
        if !get_transceiver_presence(hal, port) {
            return;
        }
        let ghost before = th.rows();
        self.post_port(name.as_str(), port, &mut th.asics[i], hal);
        assert(th.rows() =~= before.update(i as int, th.asics@[i as int].rows()));
    }

    /// One pass over all ports.
    pub fn poll_once<T: DbTable, H: Hal>(&self, th: &mut XcvrTableHelper<T>, hal: &mut H)
        requires
            old(th).wf(),
        ensures
            final(th).wf(),
            (final(th).rows(), final(hal).trace()) == polled::<T>(
                old(th).rows(),
                self@.m,
                old(hal).trace(),
                self@.u,
                self@.skip_cmis_mgr,
                self@.m.slots,
            ),
    {
        let slots = self.port_mapping.slots();
        let ghost goal = polled::<T>(
            th.rows(),
            self@.m,
            hal.trace(),
            self@.u,
            self@.skip_cmis_mgr,
            slots@,
        );
        let mut i: usize = 0;
        assert(slots@.skip(0) =~= slots@);
        while i < slots.len()
            invariant
                i <= slots@.len(),
                th.wf(),
                goal == polled::<T>(
                    th.rows(),
                    self@.m,
                    hal.trace(),
                    self@.u,
                    self@.skip_cmis_mgr,
                    slots@.skip(i as int),
                ),
                goal == polled::<T>(
                    old(th).rows(),
                    self@.m,
                    old(hal).trace(),
                    self@.u,
                    self@.skip_cmis_mgr,
                    self@.m.slots,
                ),
            decreases slots.len() - i,
        {
            assert(slots@.skip(i as int)[0] == slots@[i as int]);
            assert(slots@.skip(i as int).skip(1) =~= slots@.skip(i + 1));
            if hal.stop_requested() {
                return;
            }
            self.poll_port(slots[i], th, hal);
            i += 1;
        }
    }

    /// Reads the latched flags of the first port on a slot again and publishes
    /// them, where the port is eligible.
    pub fn update_port_db_diagnostics_on_link_change<T: DbTable, H: Hal>(
        &self,
        port: usize,
        th: &mut XcvrTableHelper<T>,
        hal: &mut H,
    ) -> (r: LinkChangeReread)
        requires
            old(th).wf(),
        ensures
            final(th).wf(),
            (final(th).rows(), final(hal).trace(), r) == reread::<T>(
                old(th).rows(),
                self@.m,
                old(hal).trace(),
                self@.skip_cmis_mgr,
                port,
            ),
    {
        if hal.stop_requested() {
            return LinkChangeReread::Settled;
        }
        let name = match self.port_mapping.first_logical(port) {
            Some(n) => n,
            None => {
                return LinkChangeReread::Settled;
            },
        };
        if str_eq(self.get_dom_polling_from_config_db(th, name.as_str()).as_str(), "disabled") {
            return LinkChangeReread::Settled;
        }
        if self.is_port_in_cmis_initialization_process(th, name.as_str()) {
            return LinkChangeReread::DeferredCmisInit;
        }
        let i = match self.port_mapping.get_asic_id_for_logical_port(name.as_str()) {
            Some(i) => i,
            None => {
                return LinkChangeReread::Settled;
            },
        };
        if i >= th.asics.len() {
            return LinkChangeReread::Settled;
        }
        assert(th.rows()[i as int] == th.asics@[i as int].rows());
        if detect_port_in_error_status(name.as_str(), &th.asics[i].status_sw) {
            return LinkChangeReread::Settled;
        }
        if !get_transceiver_presence(hal, port) {
            return LinkChangeReread::Settled;
        }
        let ghost before = th.rows();
        let posted = self.reread_port_flags(name.as_str(), port, &mut th.asics[i], hal);
        assert(th.rows() =~= before.update(i as int, th.asics@[i as int].rows()));
        if posted {
            LinkChangeReread::Settled
        } else {
            LinkChangeReread::TransientRead
        }
    }

    fn reread_port_flags<T: DbTable, H: Hal>(
        &self,
        name: &str,
        port: usize,
        a: &mut AsicTables<T>,
        hal: &mut H,
    ) -> (posted: bool)
        requires
            old(a).vdm.wf(),
        ensures
            final(a).vdm.wf(),
            (final(a).rows(), final(hal).trace(), posted) == reread_flags::<T>(
                old(a).rows(),
                self@.m,
                old(hal).trace(),
                name@,
                port,
            ),
    {
        let posted = self.dom_db.post_port_dom_flags_to_db(
            name,
            &self.port_mapping,
            hal,
            &mut a.dom_flags,
            &mut DbCache::off(),
        );
        let _status = self.status_db.post_port_transceiver_hw_status_flags_to_db(
            name,
            &self.port_mapping,
            &mut a.status_flags,
            hal,
            &mut DbCache::off(),
        );
        if self.vdm_utils.is_transceiver_vdm_supported(hal, port) {
            self.vdm_db.post_port_vdm_flags_to_db(
                name,
                &self.port_mapping,
                hal,
                &mut a.vdm,
                &mut VdmThresholdCache::off(),
            );
        }
        posted
    }

    /// The slot and the flap count that an event reports.
    fn report_of_event(&self, event: &PortChangeEvent) -> (r: Option<(usize, String)>)
        ensures
            match r {
                Some((p, c)) => flap_report(self@.m, event@) == Some((p, c@)),
                None => flap_report(self@.m, event@) is None,
            },
    {
        if event.event_type != PortChangeEventType::PortSet || !str_eq(
            event.db_name.as_str(),
            "APPL_DB",
        ) {
            return None;
        }
        let slot = match self.port_mapping.physical(event.port_name.as_str()) {
            Some(p) => p,
            None => match event.physical_port {
                Some(p) => p,
                None => {
                    return None;
                },
            },
        };
        match event.carried("flap_count") {
            Some(c) => Some((slot, c)),
            None => None,
        }
    }

    /// The flap count that the application database has for a slot.
    fn report_of_db<T: DbTable>(&self, th: &XcvrTableHelper<T>, slot: usize) -> (r: Option<
        (usize, String),
    >)
        ensures
            match r {
                Some((p, c)) => flap_in_db(self@.m, th.rows(), slot) == Some((p, c@)),
                None => flap_in_db(self@.m, th.rows(), slot) is None,
            },
    {
        let name = match self.port_mapping.first_logical(slot) {
            Some(n) => n,
            None => {
                return None;
            },
        };
        let a = match self.port_mapping.get_asic_id_for_logical_port(name.as_str()) {
            Some(a) => a,
            None => {
                return None;
            },
        };
        if a >= th.asics.len() {
            return None;
        }
        assert(th.rows()[a as int] == th.asics@[a as int].rows());
        let p = match self.port_mapping.physical(name.as_str()) {
            Some(p) => p,
            None => slot,
        };
        match th.asics[a].app_port.hget(name.as_str(), "flap_count") {
            Some(c) => Some((p, c)),
            None => None,
        }
    }

    fn record_flap_transition<H: Hal>(&mut self, report: Option<(usize, String)>, hal: &mut H)
        ensures
            (final(self)@, final(hal).trace()) == flap_noted(
                old(self)@,
                old(hal).trace(),
                match report {
                    Some((p, c)) => Some((p, c@)),
                    None => None,
                },
            ),
    {
        let (p, c) = match report {
            Some((p, c)) => (p, c),
            None => {
                return;
            },
        };
        let ghost flaps = self@.flaps;
        let known = match self.last_flap_count.get(&p) {
            Some(seen) => str_eq(seen.as_str(), c.as_str()),
            None => false,
        };
        if known {
            return;
        }
        let ghost text = c@;
        self.last_flap_count.insert(p, c);
        assert(self@.flaps =~= flaps.insert(p, text));
        let now = hal.uptime();
        let r = PendingReread {
            fire_at: add_ms(now, 1000),
            giveup_at: add_secs(now, self.dom_update_interval),
        };
        self.schedule_reread(p, r);
    }

    /// Takes in a port update: a flap of the link schedules a re-read.
    pub fn on_port_update_event<H: Hal>(&mut self, event: &PortChangeEvent, hal: &mut H)
        ensures
            (final(self)@, final(hal).trace()) == flap_noted(
                old(self)@,
                old(hal).trace(),
                flap_report(old(self)@.m, event@),
            ),
    {
        let report = self.report_of_event(event);
        self.record_flap_transition(report, hal);
    }

    fn seed_flap_baseline_if_absent(&mut self, report: Option<(usize, String)>)
        ensures
            final(self)@ == flap_seeded(
                old(self)@,
                match report {
                    Some((p, c)) => Some((p, c@)),
                    None => None,
                },
            ),
    {
        match report {
            Some((p, c)) => {
                let ghost flaps = self@.flaps;
                let ghost text = c@;
                if !self.last_flap_count.contains(&p) {
                    self.last_flap_count.insert(p, c);
                    assert(self@.flaps =~= flaps.insert(p, text));
                } else {
                    assert(flaps.dom().contains(p));
                }
            },
            None => {},
        }
    }

    /// Takes the flap count of an event as the one that the port started with.
    pub fn seed_link_change_baseline(&mut self, event: &PortChangeEvent)
        ensures
            final(self)@ == flap_seeded(old(self)@, flap_report(old(self)@.m, event@)),
    {
        let report = self.report_of_event(event);
        self.seed_flap_baseline_if_absent(report);
    }

    /// Takes the flap counts of the application database as those that the
    /// ports started with.
    pub fn seed_flap_count_baseline_from_db<T: DbTable>(&mut self, th: &XcvrTableHelper<T>)
        ensures
            final(self)@ == seeded_from_db(old(self)@, th.rows(), old(self)@.m.slots),
    {
        let slots = self.port_mapping.slots();
        let ghost goal = seeded_from_db(self@, th.rows(), slots@);
        let mut i: usize = 0;
        assert(slots@.skip(0) =~= slots@);
        while i < slots.len()
            invariant
                i <= slots@.len(),
                goal == seeded_from_db(self@, th.rows(), slots@.skip(i as int)),
            decreases slots.len() - i,
        {
            assert(slots@.skip(i as int)[0] == slots@[i as int]);
            assert(slots@.skip(i as int).skip(1) =~= slots@.skip(i + 1));
            let report = self.report_of_db(th, slots[i]);
            self.seed_flap_baseline_if_absent(report);
            i += 1;
        }
    }

    /// Compares the flap counts of the application database with those seen
    /// last and schedules a re-read for each port whose count moved.
    pub fn reconcile_link_change_flap_counts<T: DbTable, H: Hal>(
        &mut self,
        th: &XcvrTableHelper<T>,
        hal: &mut H,
    )
        ensures
            (final(self)@, final(hal).trace()) == reconciled(
                old(self)@,
                th.rows(),
                old(hal).trace(),
                old(self)@.m.slots,
            ),
    {
        let slots = self.port_mapping.slots();
        let ghost goal = reconciled(self@, th.rows(), hal.trace(), slots@);
        let mut i: usize = 0;
        assert(slots@.skip(0) =~= slots@);
        while i < slots.len()
            invariant
                i <= slots@.len(),
                goal == reconciled(self@, th.rows(), hal.trace(), slots@.skip(i as int)),
            decreases slots.len() - i,
        {
            assert(slots@.skip(i as int)[0] == slots@[i as int]);
            assert(slots@.skip(i as int).skip(1) =~= slots@.skip(i + 1));
            let report = self.report_of_db(th, slots[i]);
            self.record_flap_transition(report, hal);
            i += 1;
        }
    }

    fn flags_are_missing<T: DbTable>(&self, th: &XcvrTableHelper<T>, slot: usize) -> (r: bool)
        ensures
            r == flags_missing(self@.m, th.rows(), slot),
    {
        let name = match self.port_mapping.first_logical(slot) {
            Some(n) => n,
            None => {
                return false;
            },
        };
        let a = match self.port_mapping.get_asic_id_for_logical_port(name.as_str()) {
            Some(a) => a,
            None => {
                return false;
            },
        };
        if a >= th.asics.len() {
            return false;
        }
        assert(th.rows()[a as int] == th.asics@[a as int].rows());
        match th.asics[a].dom_flags.value.get_size_for_key_checked(name.as_str()) {
            Some(n) => {
                if n != 0 {
                    return false;
                }
            },
            None => {
                return false;
            },
        }
        let state = get_cmis_state_from_state_db(name.as_str(), &th.asics[a].status_sw);
        if !is_terminal_state(state.as_str()) || str_eq(state.as_str(), "REMOVED") {
            return false;
        }
        !str_eq(self.get_dom_polling_from_config_db(th, name.as_str()).as_str(), "disabled")
    }

    /// Publishes the flags of every port whose data path has come to rest and
    /// whose flag row is missing, without waiting for the next pass.
    pub fn republish_missing_flag_baseline_after_cmis_bringup<T: DbTable, H: Hal>(
        &mut self,
        th: &mut XcvrTableHelper<T>,
        hal: &mut H,
    )
        requires
            old(th).wf(),
        ensures
            final(th).wf(),
            (final(self)@, final(th).rows(), final(hal).trace()) == hook_ran::<T>(
                old(self)@,
                old(th).rows(),
                old(hal).trace(),
            ),
    {
        if self.skip_cmis_mgr {
            return;
        }
        let slots = self.port_mapping.slots();
        let ghost goal = republished::<T>(self@, th.rows(), hal.trace(), slots@);
        let mut i: usize = 0;
        assert(slots@.skip(0) =~= slots@);
        while i < slots.len()
            invariant
                i <= slots@.len(),
                th.wf(),
                goal == republished::<T>(self@, th.rows(), hal.trace(), slots@.skip(i as int)),
                goal == hook_ran::<T>(old(self)@, old(th).rows(), old(hal).trace()),
            decreases slots.len() - i,
        {
            assert(slots@.skip(i as int)[0] == slots@[i as int]);
            assert(slots@.skip(i as int).skip(1) =~= slots@.skip(i + 1));
            if hal.stop_requested() {
                return;
            }
            let slot = slots[i];
            if self.flags_are_missing(th, slot) && get_transceiver_presence(hal, slot) {
                let outcome = self.update_port_db_diagnostics_on_link_change(slot, th, hal);
                if outcome == LinkChangeReread::Settled {
                    self.cancel_reread(slot);
                }
            }
            i += 1;
        }
    }

    /// The slots whose re-read is due.
    fn due_slots(&self, now: u64) -> (r: Vec<usize>)
        ensures
            r@ == self@.pending.due(now),
    {
        let mut r: Vec<usize> = Vec::new();
        let n = self.link_change_affected_ports.len();
        let ghost v = self@.pending;
        let mut i: usize = 0;
        while i < n
            invariant
                i <= n,
                n == v.order.len(),
                v == self@.pending,
                r@ == v.due_among(i as int, now),
            decreases n - i,
        {
            let slot = *self.link_change_affected_ports.key_at(i);
            let p = self.link_change_affected_ports.value_at(i);
            if p.fire_at <= now {
                r.push(slot);
            }
            i += 1;
        }
        r
    }

    fn settle_reread<H: Hal>(&mut self, slot: usize, outcome: LinkChangeReread, hal: &mut H)
        ensures
            ({
                let (pending, t) = after_reread(
                    old(self)@.pending,
                    old(hal).trace(),
                    slot,
                    outcome,
                );
                &&& final(self)@ == (TaskView { pending, ..old(self)@ })
                &&& final(hal).trace() == t
            }),
    {
        match outcome {
            LinkChangeReread::Settled => {
                self.cancel_reread(slot);
            },
            LinkChangeReread::DeferredCmisInit | LinkChangeReread::TransientRead => {
                let now = hal.uptime();
                let giveup: Option<u64> = match self.link_change_affected_ports.get(&slot) {
                    Some(p) => Some(p.giveup_at),
                    None => None,
                };
                match giveup {
                    Some(giveup_at) if now < giveup_at => {
                        let r = PendingReread { fire_at: add_ms(now, 1000), giveup_at };
                        self.schedule_reread(slot, r);
                    },
                    _ => {
                        self.cancel_reread(slot);
                    },
                }
            },
        }
    }

    fn note_updates<H: Hal>(&mut self, events: &Vec<PortChangeEvent>, hal: &mut H)
        ensures
            (final(self)@, final(hal).trace()) == updates_noted(
                old(self)@,
                old(hal).trace(),
                event_views(events@),
            ),
    {
        let ghost all = event_views(events@);
        let ghost goal = updates_noted(self@, hal.trace(), all);
        let mut i: usize = 0;
        assert(all.skip(0) =~= all);
        while i < events.len()
            invariant
                i <= events@.len(),
                all == event_views(events@),
                goal == updates_noted(self@, hal.trace(), all.skip(i as int)),
            decreases events.len() - i,
        {
            assert(all.skip(i as int)[0] == events@[i as int]@);
            assert(all.skip(i as int).skip(1) =~= all.skip(i + 1));
            self.on_port_update_event(&events[i], hal);
            i += 1;
        }
    }

    /// Waits for port updates, takes them in, and tries the re-reads that are
    /// due.
    pub fn check_port_update<T: DbTable, H: Hal>(
        &mut self,
        th: &mut XcvrTableHelper<T>,
        hal: &mut H,
        timeout_ms: u64,
    )
        requires
            old(th).wf(),
        ensures
            final(th).wf(),
            (final(self)@, final(th).rows(), final(hal).trace()) == port_updates_served::<T>(
                old(self)@,
                old(th).rows(),
                old(hal).trace(),
                timeout_ms,
            ),
    {
        match hal.port_updates(timeout_ms) {
            Some(events) => {
                self.note_updates(&events, hal);
            },
            None => {
                hal.sleep(
                    if timeout_ms < PORT_UPDATE_EVENT_SELECT_TIMEOUT_MSECS {
                        timeout_ms
                    } else {
                        PORT_UPDATE_EVENT_SELECT_TIMEOUT_MSECS
                    },
                );
            },
        }
        let now = hal.uptime();
        let due = self.due_slots(now);
        let ghost goal = due_served::<T>(self@, th.rows(), hal.trace(), due@);
        let mut i: usize = 0;
        assert(due@.skip(0) =~= due@);
        while i < due.len()
            invariant
                i <= due@.len(),
                th.wf(),
                goal == due_served::<T>(self@, th.rows(), hal.trace(), due@.skip(i as int)),
                goal == port_updates_served::<T>(
                    old(self)@,
                    old(th).rows(),
                    old(hal).trace(),
                    timeout_ms,
                ),
            decreases due.len() - i,
        {
            assert(due@.skip(i as int)[0] == due@[i as int]);
            assert(due@.skip(i as int).skip(1) =~= due@.skip(i + 1));
            if hal.stop_requested() {
                return;
            }
            let outcome = self.update_port_db_diagnostics_on_link_change(due[i], th, hal);
            self.settle_reread(due[i], outcome, hal);
            i += 1;
        }
    }

    fn do_upkeep<T: DbTable, H: Hal>(
        &mut self,
        th: &mut XcvrTableHelper<T>,
        hal: &mut H,
        now: u64,
        next_reconcile: u64,
    ) -> (next: u64)
        requires
            old(th).wf(),
        ensures
            final(th).wf(),
            (final(self)@, final(th).rows(), final(hal).trace(), next) == upkeep::<T>(
                old(self)@,
                old(th).rows(),
                old(hal).trace(),
                now,
                next_reconcile,
            ),
    {
        if now < next_reconcile {
            return next_reconcile;
        }
        self.reconcile_link_change_flap_counts(th, hal);
        self.republish_missing_flag_baseline_after_cmis_bringup(th, hal);
        add_ms(now, 1000)
    }

    /// One pass over all ports that serves port updates before each of them.
    /// Returns when the flap counts are compared next.
    pub fn poll_once_interleaved<T: DbTable, H: Hal>(
        &mut self,
        th: &mut XcvrTableHelper<T>,
        hal: &mut H,
        next_reconcile: u64,
    ) -> (next: u64)
        requires
            old(th).wf(),
        ensures
            final(th).wf(),
            (final(self)@, final(th).rows(), final(hal).trace(), next) == polled_interleaved::<T>(
                old(self)@,
                old(th).rows(),
                old(hal).trace(),
                next_reconcile,
                old(self)@.m.slots,
            ),
    {
        let slots = self.port_mapping.slots();
        let mut next = next_reconcile;
        let ghost goal = polled_interleaved::<T>(self@, th.rows(), hal.trace(), next, slots@);
        let mut i: usize = 0;
        assert(slots@.skip(0) =~= slots@);
        while i < slots.len()
            invariant
                i <= slots@.len(),
                th.wf(),
                goal == polled_interleaved::<T>(
                    self@,
                    th.rows(),
                    hal.trace(),
                    next,
                    slots@.skip(i as int),
                ),
                goal == polled_interleaved::<T>(
                    old(self)@,
                    old(th).rows(),
                    old(hal).trace(),
                    next_reconcile,
                    old(self)@.m.slots,
                ),
            decreases slots.len() - i,
        {
            assert(slots@.skip(i as int)[0] == slots@[i as int]);
            assert(slots@.skip(i as int).skip(1) =~= slots@.skip(i + 1));
            if hal.stop_requested() {
                return next;
            }
            let now = hal.uptime();
            next = self.do_upkeep(th, hal, now, next);
            self.check_port_update(th, hal, PORT_UPDATE_EVENT_SELECT_TIMEOUT_FAST_MSECS);
            if hal.stop_requested() {
                return next;
            }
            self.poll_port(slots[i], th, hal);
            i += 1;
        }
        next
    }

    /// Deletes the rows that the task publishes for a port that is taken out of
    /// the configuration.
    pub fn on_remove_logical_port<T: DbTable>(
        &self,
        event: &PortChangeEvent,
        th: &mut XcvrTableHelper<T>,
    )
        requires
            old(th).wf(),
        ensures
            final(th).wf(),
            final(th).rows() == port_removed(old(th).rows(), event.asic_id, event.port_name@),
    {
        if event.asic_id >= th.asics.len() {
            return;
        }
        let ghost before = th.rows();
        let ghost i = event.asic_id as int;
        assert(before[i] == th.asics@[i].rows());
        remove_monitor_rows(&mut th.asics[event.asic_id], event.port_name.as_str());
        assert(th.rows() =~= before.update(i, th.asics@[i].rows()));
    }

    /// Takes in a configuration event: the rows of a port that is removed are
    /// deleted, and the mapping follows.
    pub fn on_port_config_change<T: DbTable>(
        &mut self,
        event: &PortChangeEvent,
        th: &mut XcvrTableHelper<T>,
    )
        requires
            old(th).wf(),
        ensures
            final(th).wf(),
            (final(self)@, final(th).rows()) == config_changed(old(self)@, old(th).rows(), event@),
    {
        if event.event_type == PortChangeEventType::PortRemove {
            self.on_remove_logical_port(event, th);
        }
        self.port_mapping.handle_port_change_event(event);
        assert(self@.flaps =~= old(self)@.flaps);
    }

    fn handle_port_config_change<T: DbTable>(
        &mut self,
        events: &Vec<PortChangeEvent>,
        th: &mut XcvrTableHelper<T>,
    )
        requires
            old(th).wf(),
        ensures
            final(th).wf(),
            (final(self)@, final(th).rows()) == configs_changed(
                old(self)@,
                old(th).rows(),
                event_views(events@),
            ),
    {
        let ghost all = event_views(events@);
        let ghost goal = configs_changed(self@, th.rows(), all);
        let mut i: usize = 0;
        assert(all.skip(0) =~= all);
        while i < events.len()
            invariant
                i <= events@.len(),
                th.wf(),
                all == event_views(events@),
                goal == configs_changed(self@, th.rows(), all.skip(i as int)),
            decreases events.len() - i,
        {
            assert(all.skip(i as int)[0] == events@[i as int]@);
            assert(all.skip(i as int).skip(1) =~= all.skip(i + 1));
            self.on_port_config_change(&events[i], th);
            i += 1;
        }
    }

    /// Takes what the ports have at the start as seen, so that no flap count
    /// that is already there counts as a flap, and starts the loop.
    pub fn start<T: DbTable, H: Hal>(
        &mut self,
        snapshot: &Vec<PortChangeEvent>,
        th: &XcvrTableHelper<T>,
        hal: &mut H,
    ) -> (s: DomSchedule)
        ensures
            final(self)@ == seeded_from_db(
                seeded_from_events(old(self)@, event_views(snapshot@)),
                th.rows(),
                old(self)@.m.slots,
            ),
            (s, final(hal).trace()) == started(old(hal).trace(), old(self)@.interval),
    {
        let ghost all = event_views(snapshot@);
        let ghost goal = seeded_from_events(self@, all);
        let mut i: usize = 0;
        assert(all.skip(0) =~= all);
        while i < snapshot.len()
            invariant
                i <= snapshot@.len(),
                all == event_views(snapshot@),
                self@.m == old(self)@.m,
                self@.interval == old(self)@.interval,
                goal == seeded_from_events(self@, all.skip(i as int)),
            decreases snapshot.len() - i,
        {
            assert(all.skip(i as int)[0] == snapshot@[i as int]@);
            assert(all.skip(i as int).skip(1) =~= all.skip(i + 1));
            self.seed_link_change_baseline(&snapshot[i]);
            i += 1;
        }
        let interval = self.dom_update_interval;
        self.seed_flap_count_baseline_from_db(th);
        let next = add_secs(hal.uptime(), interval);
        let next_reconcile = add_ms(hal.uptime(), 1000);
        DomSchedule { phase: DomPhase::Configure, next, next_reconcile }
    }

    /// One step of the loop: configuration changes are taken in, port updates
    /// are served, or a pass is made. `None` where the daemon is asked to stop.
    pub fn step<T: DbTable, H: Hal>(
        &mut self,
        th: &mut XcvrTableHelper<T>,
        hal: &mut H,
        s: DomSchedule,
    ) -> (r: Option<DomSchedule>)
        requires
            old(th).wf(),
        ensures
            final(th).wf(),
            (final(self)@, final(th).rows(), final(hal).trace(), r) == stepped::<T>(
                old(self)@,
                old(th).rows(),
                old(hal).trace(),
                s,
            ),
    {
        if hal.stop_requested() {
            return None;
        }
        match s.phase {
            DomPhase::Configure => {
                let events = hal.config_changes();
                self.handle_port_config_change(&events, th);
                Some(
                    DomSchedule {
                        phase: DomPhase::Wait,
                        next: s.next,
                        next_reconcile: s.next_reconcile,
                    },
                )
            },
            DomPhase::Wait => {
                let now = hal.uptime();
                if s.next <= now {
                    return Some(
                        DomSchedule {
                            phase: DomPhase::Poll,
                            next: s.next,
                            next_reconcile: s.next_reconcile,
                        },
                    );
                }
                let nr = self.do_upkeep(th, hal, now, s.next_reconcile);
                let a: u64 = s.next - now;
                let b: u64 = if nr > now {
                    nr - now
                } else {
                    0
                };
                let w: u64 = if a < b {
                    a
                } else {
                    b
                };
                let timeout: u64 = if w < 1 {
                    1
                } else if w > PORT_UPDATE_EVENT_SELECT_TIMEOUT_MSECS {
                    PORT_UPDATE_EVENT_SELECT_TIMEOUT_MSECS
                } else {
                    w
                };
                self.check_port_update(th, hal, timeout);
                Some(DomSchedule { phase: DomPhase::Wait, next: s.next, next_reconcile: nr })
            },
            DomPhase::Poll => {
                let start = hal.uptime();
                let interval = self.dom_update_interval;
                let nr = self.poll_once_interleaved(th, hal, s.next_reconcile);
                Some(
                    DomSchedule {
                        phase: DomPhase::Configure,
                        next: add_secs(start, interval),
                        next_reconcile: nr,
                    },
                )
            },
        }
    }
}

fn del_flags<T: DbTable>(t: &mut FlagTables<T>, name: &str)
    ensures
        final(t).rows() == flags_less(old(t).rows(), name@),
        final(t).value.sizes_readable() == old(t).value.sizes_readable(),
{
    t.value.del(name);
    t.change_count.del(name);
    t.set_time.del(name);
    t.clear_time.del(name);
}

/// Deletes the rows that the monitoring task publishes for a port.
fn remove_monitor_rows<T: DbTable>(a: &mut AsicTables<T>, name: &str)
    requires
        old(a).vdm.wf(),
    ensures
        final(a).vdm.wf(),
        final(a).rows() == monitor_rows_removed(old(a).rows(), name@),
{
    a.dom.del(name);
    a.dom_temperature.del(name);
    del_flags(&mut a.dom_flags, name);
    a.vdm.real_value.del(name);
    let ghost start = a.vdm.rows().flags;
    let ghost goal = start.map_values(|t: FlagRows| flags_less(t, name@));
    let ghost rest = a.rows();
    let ghost others = a.vdm.thresholds;
    let mut i: usize = 0;
    while i < 4
        invariant
            i <= 4,
            a.vdm.wf(),
            start.len() == 4,
            goal == start.map_values(|t: FlagRows| flags_less(t, name@)),
            a.vdm.thresholds == others,
            a.rows() == (AsicRows { vdm: a.vdm.rows(), ..rest }),
            a.vdm.rows().real_value == rest.vdm.real_value,
            forall|j: int| 0 <= j < i ==> (#[trigger] a.vdm.flags@[j]).rows() == goal[j],
            forall|j: int| i <= j < 4 ==> (#[trigger] a.vdm.flags@[j]).rows() == start[j],
        decreases 4 - i,
    {
        del_flags(&mut a.vdm.flags[i], name);
        i += 1;
    }
    assert(a.vdm.rows().flags =~= goal);
    a.status.del(name);
    del_flags(&mut a.status_flags, name);
    a.pm.del(name);
    a.firmware_info.del(name);
}

// ---- the temperature task ----

/// The tables after the temperature of the first port on a slot is published,
/// where the port is switched on, not blocked by an error, and holds a module.
pub open spec fn temperature_polled<T: DbTable>(
    th: Seq<AsicRows>,
    m: MappingView,
    tr: Trace,
    slot: usize,
) -> (Seq<AsicRows>, Trace) {
    match m.first_on(slot) {
        None => (th, tr),
        Some(name) => if dom_polling(m, th, name) == "disabled"@ {
            (th, tr)
        } else {
            match m.asic_of(name) {
                None => (th, tr),
                Some(i) => if i >= th.len() || is_blocked(th[i as int].status_sw, name) {
                    (th, tr)
                } else {
                    let t1 = tr.then_ask(Ask::Presence(slot));
                    if !tr.present(slot) {
                        (th, t1)
                    } else {
                        let (rows, _c, t2) = posted_monitor::<T>(
                            th[i as int].dom_temperature,
                            None,
                            m,
                            t1,
                            name,
                            Reader::Temperature,
                            Beautify::Dom,
                        );
                        (
                            th.update(
                                i as int,
                                AsicRows { dom_temperature: rows, ..th[i as int] },
                            ),
                            t2,
                        )
                    }
                },
            }
        },
    }
}

/// The tables after the temperatures of the slots are published in turn, until
/// the daemon is asked to stop.
pub open spec fn temperatures_polled<T: DbTable>(
    th: Seq<AsicRows>,
    m: MappingView,
    tr: Trace,
    slots: Seq<usize>,
) -> (Seq<AsicRows>, Trace)
    decreases slots.len(),
{
    if slots.len() == 0 {
        (th, tr)
    } else {
        let t1 = tr.then_ask(Ask::Stop);
        if tr.stop() {
            (th, t1)
        } else {
            let (th1, t2) = temperature_polled::<T>(th, m, t1, slots[0]);
            temperatures_polled::<T>(th1, m, t2, slots.skip(1))
        }
    }
}

/// The tables after one step of the loop of the temperature task, and when the
/// next pass is due; `None` where the daemon is asked to stop. Until a pass is
/// due at most a second is slept.
pub open spec fn temperature_stepped<T: DbTable>(
    th: Seq<AsicRows>,
    m: MappingView,
    tr: Trace,
    next: u64,
    interval: u64,
) -> (Seq<AsicRows>, Trace, Option<u64>) {
    let t1 = tr.then_ask(Ask::Stop);
    if tr.stop() {
        (th, t1, None)
    } else {
        let now = t1.uptime();
        let t2 = t1.then_ask(Ask::Uptime);
        if next > now {
            let ms: u64 = if next - now < 1000 {
                (next - now) as u64
            } else {
                1000
            };
            (th, t2.then_ask(Ask::Sleep(ms)), Some(next))
        } else {
            let (th1, t3) = temperatures_polled::<T>(th, m, t2, m.slots);
            (th1, t3.then_ask(Ask::Uptime), Some(later(t3.uptime(), interval as int)))
        }
    }
}

/// The temperature task. Its interval is in milliseconds.
pub struct DomThermalInfoUpdateTask {
    port_mapping: PortMapping,
    poll_interval: u64,
    dom_db: DomDbUtils,
}

impl DomThermalInfoUpdateTask {
    /// The ports of the task.
    pub closed spec fn m(&self) -> MappingView {
        self.port_mapping@
    }

    /// The time between two passes.
    pub closed spec fn interval(&self) -> u64 {
        self.poll_interval
    }

    /// A task over the ports of `port_mapping`.
    pub fn new(port_mapping: PortMapping, poll_interval: u64) -> (t: Self)
        ensures
            t.m() == port_mapping@,
            t.interval() == poll_interval,
    {
        DomThermalInfoUpdateTask { port_mapping, poll_interval, dom_db: DomDbUtils::new() }
    }

    /// Whether a port is switched off.
    pub fn is_port_dom_monitoring_disabled<T: DbTable>(
        &self,
        th: &XcvrTableHelper<T>,
        name: &str,
    ) -> (r: bool)
        ensures
            r == (dom_polling(self.m(), th.rows(), name@) == "disabled"@),
    {
        let setting = get_dom_polling_from_config_db(&self.port_mapping, th, name);
        str_eq(setting.as_str(), "disabled")
    }

    fn poll_port<T: DbTable, H: Hal>(
        &self,
        slot: usize,
        th: &mut XcvrTableHelper<T>,
        hal: &mut H,
    )
        requires
            old(th).wf(),
        ensures
            final(th).wf(),
            (final(th).rows(), final(hal).trace()) == temperature_polled::<T>(
                old(th).rows(),
                self.m(),
                old(hal).trace(),
                slot,
            ),
    {
        let name = match self.port_mapping.first_logical(slot) {
            Some(n) => n,
            None => {
                return;
            },
        };
        if self.is_port_dom_monitoring_disabled(th, name.as_str()) {
            return;
        }
        let i = match self.port_mapping.get_asic_id_for_logical_port(name.as_str()) {
            Some(i) => i,
            None => {
                return;
            },
        };
        if i >= th.asics.len() {
            return;
        }
        assert(th.rows()[i as int] == th.asics@[i as int].rows());
        if detect_port_in_error_status(name.as_str(), &th.asics[i].status_sw) {
            return;
        }
        if !get_transceiver_presence(hal, slot) {
            return;
        }
        let ghost before = th.rows();
        self.dom_db.post_port_dom_temperature_info_to_db(
            name.as_str(),
            &self.port_mapping,
            &mut th.asics[i].dom_temperature,
            hal,
            &mut DbCache::off(),
        );
        assert(th.rows() =~= before.update(i as int, th.asics@[i as int].rows()));
    }

    /// One pass over all ports.
    pub fn poll_once<T: DbTable, H: Hal>(&self, th: &mut XcvrTableHelper<T>, hal: &mut H)
        requires
            old(th).wf(),
        ensures
            final(th).wf(),
            (final(th).rows(), final(hal).trace()) == temperatures_polled::<T>(
                old(th).rows(),
                self.m(),
                old(hal).trace(),
                self.m().slots,
            ),
    {
        let slots = self.port_mapping.slots();
        let ghost goal = temperatures_polled::<T>(th.rows(), self.m(), hal.trace(), slots@);
        let mut i: usize = 0;
        assert(slots@.skip(0) =~= slots@);
        while i < slots.len()
            invariant
                i <= slots@.len(),
                th.wf(),
                goal == temperatures_polled::<T>(
                    th.rows(),
                    self.m(),
                    hal.trace(),
                    slots@.skip(i as int),
                ),
                goal == temperatures_polled::<T>(
                    old(th).rows(),
                    self.m(),
                    old(hal).trace(),
                    self.m().slots,
                ),
            decreases slots.len() - i,
        {
            assert(slots@.skip(i as int)[0] == slots@[i as int]);
            assert(slots@.skip(i as int).skip(1) =~= slots@.skip(i + 1));
            if hal.stop_requested() {
                return;
            }
            self.poll_port(slots[i], th, hal);
            i += 1;
        }
    }

    /// One step of the loop: a pass where one is due at `next`, a sleep
    /// otherwise. Returns when the next pass is due, or `None` where the daemon
    /// is asked to stop.
    pub fn step<T: DbTable, H: Hal>(
        &self,
        th: &mut XcvrTableHelper<T>,
        hal: &mut H,
        next: u64,
    ) -> (r: Option<u64>)
        requires
            old(th).wf(),
        ensures
            final(th).wf(),
            (final(th).rows(), final(hal).trace(), r) == temperature_stepped::<T>(
                old(th).rows(),
                self.m(),
                old(hal).trace(),
                next,
                self.interval(),
            ),
    {
        if hal.stop_requested() {
            return None;
        }
        let now = hal.uptime();
        if next > now {
            hal.sleep(
                if next - now < 1000 {
                    next - now
                } else {
                    1000
                },
            );
            return Some(next);
        }
        self.poll_once(th, hal);
        Some(add_ms(hal.uptime(), self.poll_interval))
    }
}

} // verus!
