//! Versatile diagnostics monitoring: observables with their own thresholds and
//! latched flags, and statistics that are frozen while they are read.

use vstd::prelude::*;

use crate::assoc::OrderedMap;
use crate::clock::stamp;
use crate::db::{DbTable, Rows};
use crate::dom::db_utils::{
    add_stamp, get_current_time, put, render, shown_row, stamped, tracked_flags, validated,
    Beautify, DbUtils, FlagRows, FlagTables,
};
use crate::hal::{Ask, Hal, Trace};
use crate::json::{
    clone_fields, put_field, reply_true, reply_truthy, reply_view, row_of, truthy, vals,
    with_field, Fields, Reply, Row, Val, Vals,
};
use crate::port::{MappingView, PortMapping};
use crate::text::{contains, join, occurs, replace, replaced};

verus! {

/// How long the module may take to clear the done bit, in milliseconds.
pub const MAX_TVDMF_TIME_MSECS: u64 = 10;

/// How long a freeze or unfreeze may take to be confirmed, in milliseconds.
pub const MAX_VDM_FREEZE_UNFREEZE_TIME_MSECS: u64 = 1000;

/// The pause between two looks at the done bit, in milliseconds.
pub const FREEZE_UNFREEZE_DONE_POLLING_INTERVAL_MSECS: u64 = 1;

/// Reads the observables of a module and freezes its statistics. The times are
/// in milliseconds.
#[derive(Clone, Copy)]
pub struct VdmUtils {
    pub settle: u64,
    pub timeout: u64,
    pub poll: u64,
}

/// The time between two readings of the steady clock.
pub open spec fn since(start: u64, now: u64) -> int {
    if now >= start {
        now - start
    } else {
        0
    }
}

/// The number of looks at the done bit beyond the first that the time allows:
/// each but the last is followed by a pause.
pub open spec fn further_looks(u: VdmUtils) -> nat {
    if u.poll == 0 {
        u64::MAX as nat
    } else {
        u.timeout as nat / u.poll as nat
    }
}

/// Whether the done bit is confirmed in time, and the trace of looking at it.
pub open spec fn confirmed(
    u: VdmUtils,
    tr: Trace,
    port: usize,
    status: Seq<char>,
    start: u64,
    left: nat,
) -> (bool, Trace)
    decreases left,
{
    let t1 = tr.then_ask(Ask::Uptime);
    if since(start, tr.uptime()) >= u.timeout {
        (false, t1)
    } else {
        let t2 = t1.then_ask(Ask::Json(port, status));
        match t1.json(port, status) {
            None => (false, t2),
            Some(r) => if truthy(r.value) {
                (true, t2)
            } else {
                let t3 = t2.then_ask(Ask::Sleep(u.poll));
                if left == 0 {
                    (false, t3)
                } else {
                    confirmed(u, t3, port, status, start, (left - 1) as nat)
                }
            },
        }
    }
}

/// Whether an action succeeds and is confirmed in time, and the trace of it.
pub open spec fn acted(
    u: VdmUtils,
    tr: Trace,
    port: usize,
    action: Seq<char>,
    status: Seq<char>,
) -> (bool, Trace) {
    let t1 = tr.then_ask(Ask::Json(port, action));
    if !reply_true(tr.json(port, action)) {
        (false, t1)
    } else {
        let t2 = t1.then_ask(Ask::Sleep(u.settle));
        let t3 = t2.then_ask(Ask::Uptime);
        confirmed(u, t3, port, status, t2.uptime(), further_looks(u))
    }
}

/// Whether the statistics freeze, and the trace of freezing them.
pub open spec fn froze(u: VdmUtils, tr: Trace, port: usize) -> (bool, Trace) {
    acted(u, tr, port, "freeze_vdm_stats"@, "get_vdm_freeze_status"@)
}

/// Whether the statistics unfreeze, and the trace of unfreezing them.
pub open spec fn unfroze(u: VdmUtils, tr: Trace, port: usize) -> (bool, Trace) {
    acted(u, tr, port, "unfreeze_vdm_stats"@, "get_vdm_unfreeze_status"@)
}

impl VdmUtils {
    /// The timing that modules are promised.
    pub fn new() -> (u: Self)
        ensures
            u.settle == MAX_TVDMF_TIME_MSECS,
            u.timeout == MAX_VDM_FREEZE_UNFREEZE_TIME_MSECS,
            u.poll == FREEZE_UNFREEZE_DONE_POLLING_INTERVAL_MSECS,
    {
        VdmUtils {
            settle: MAX_TVDMF_TIME_MSECS,
            timeout: MAX_VDM_FREEZE_UNFREEZE_TIME_MSECS,
            poll: FREEZE_UNFREEZE_DONE_POLLING_INTERVAL_MSECS,
        }
    }

    /// A timing of one's own, in milliseconds.
    pub fn with_timing(settle: u64, timeout: u64, poll: u64) -> (u: Self)
        ensures
            u.settle == settle,
            u.timeout == timeout,
            u.poll == poll,
    {
        VdmUtils { settle, timeout, poll }
    }

    /// Whether the module has observables.
    pub fn is_transceiver_vdm_supported<H: Hal>(&self, hal: &mut H, port: usize) -> (r: bool)
        ensures
            r == reply_true(old(hal).trace().json(port, "is_transceiver_vdm_supported"@)),
            final(hal).trace() == old(hal).trace().then_ask(
                Ask::Json(port, "is_transceiver_vdm_supported"@),
            ),
    {
        let r = hal.call_json(port, "is_transceiver_vdm_supported");
        reply_truthy(&r)
    }

    /// Whether the module has statistics.
    pub fn is_vdm_statistic_supported<H: Hal>(&self, hal: &mut H, port: usize) -> (r: bool)
        ensures
            r == reply_true(old(hal).trace().json(port, "is_vdm_statistic_supported"@)),
            final(hal).trace() == old(hal).trace().then_ask(
                Ask::Json(port, "is_vdm_statistic_supported"@),
            ),
    {
        let r = hal.call_json(port, "is_vdm_statistic_supported");
        reply_truthy(&r)
    }

    /// The present values of the observables.
    pub fn get_vdm_real_values_basic<H: Hal>(&self, hal: &mut H, port: usize) -> (r: Option<Reply>)
        ensures
            reply_view(r) == old(hal).trace().json(port, "get_transceiver_vdm_real_value_basic"@),
            final(hal).trace() == old(hal).trace().then_ask(
                Ask::Json(port, "get_transceiver_vdm_real_value_basic"@),
            ),
    {
        hal.call_json(port, "get_transceiver_vdm_real_value_basic")
    }

    /// The frozen statistics.
    pub fn get_vdm_real_values_statistic<H: Hal>(&self, hal: &mut H, port: usize) -> (r: Option<
        Reply,
    >)
        ensures
            reply_view(r) == old(hal).trace().json(
                port,
                "get_transceiver_vdm_real_value_statistic"@,
            ),
            final(hal).trace() == old(hal).trace().then_ask(
                Ask::Json(port, "get_transceiver_vdm_real_value_statistic"@),
            ),
    {
        hal.call_json(port, "get_transceiver_vdm_real_value_statistic")
    }

    /// The latched flags of the observables.
    pub fn get_vdm_flags<H: Hal>(&self, hal: &mut H, port: usize) -> (r: Option<Reply>)
        ensures
            reply_view(r) == old(hal).trace().json(port, "get_transceiver_vdm_flags"@),
            final(hal).trace() == old(hal).trace().then_ask(
                Ask::Json(port, "get_transceiver_vdm_flags"@),
            ),
    {
        hal.call_json(port, "get_transceiver_vdm_flags")
    }

    /// The thresholds of the observables.
    pub fn get_vdm_thresholds<H: Hal>(&self, hal: &mut H, port: usize) -> (r: Option<Reply>)
        ensures
            reply_view(r) == old(hal).trace().json(port, "get_transceiver_vdm_thresholds"@),
            final(hal).trace() == old(hal).trace().then_ask(
                Ask::Json(port, "get_transceiver_vdm_thresholds"@),
            ),
    {
        hal.call_json(port, "get_transceiver_vdm_thresholds")
    }

    /// Starts an action and looks at its done bit until it is confirmed or the
    /// time is over. An action or a look that fails ends it at once.
    pub fn vdm_action_and_confirm<H: Hal>(
        &self,
        hal: &mut H,
        port: usize,
        action_method: &str,
        status_method: &str,
    ) -> (r: bool)
        ensures
            (r, final(hal).trace()) == acted(
                *self,
                old(hal).trace(),
                port,
                action_method@,
                status_method@,
            ),
    {
        let reply = hal.call_json(port, action_method);
        if !reply_truthy(&reply) {
            return false;
        }
        hal.sleep(self.settle);
        let start = hal.uptime();
        let mut left: u64 = if self.poll == 0 {
            u64::MAX
        } else {
            self.timeout / self.poll
        };
        let ghost goal = confirmed(
            *self,
            hal.trace(),
            port,
            status_method@,
            start,
            left as nat,
        );
        loop
            invariant
                goal == confirmed(
                    *self,
                    hal.trace(),
                    port,
                    status_method@,
                    start,
                    left as nat,
                ),
                goal == acted(*self, old(hal).trace(), port, action_method@, status_method@),
            decreases left,
        {
            let now = hal.uptime();
            let passed: u64 = if now >= start {
                now - start
            } else {
                0
            };
            if passed >= self.timeout {
                return false;
            }
            let reply = hal.call_json(port, status_method);
            if reply.is_none() {
                return false;
            }
            if reply_truthy(&reply) {
                return true;
            }
            hal.sleep(self.poll);
            if left == 0 {
                return false;
            }
            left -= 1;
        }
    }

    /// Freezes the statistics.
    pub fn freeze_vdm_stats_and_confirm<H: Hal>(&self, hal: &mut H, port: usize) -> (r: bool)
        ensures
            (r, final(hal).trace()) == froze(*self, old(hal).trace(), port),
    {
        self.vdm_action_and_confirm(hal, port, "freeze_vdm_stats", "get_vdm_freeze_status")
    }

    /// Lets the statistics run again.
    pub fn unfreeze_vdm_stats_and_confirm<H: Hal>(&self, hal: &mut H, port: usize) -> (r: bool)
        ensures
            (r, final(hal).trace()) == unfroze(*self, old(hal).trace(), port),
    {
        self.vdm_action_and_confirm(hal, port, "unfreeze_vdm_stats", "get_vdm_unfreeze_status")
    }

    /// Freezes the statistics until the guard is released.
    pub fn vdm_freeze_context<H: Hal>(&self, hal: &mut H, port: usize) -> (g: VdmFreezeGuard)
        ensures
            (g.frozen(), final(hal).trace()) == froze(*self, old(hal).trace(), port),
            g.utils() == *self,
            g.port() == port,
    {
        let frozen = self.freeze_vdm_stats_and_confirm(hal, port);
        VdmFreezeGuard { port, utils: *self, frozen }
    }
}

impl Default for VdmUtils {
    fn default() -> (u: Self)
        ensures
            u.settle == MAX_TVDMF_TIME_MSECS,
            u.timeout == MAX_VDM_FREEZE_UNFREEZE_TIME_MSECS,
            u.poll == FREEZE_UNFREEZE_DONE_POLLING_INTERVAL_MSECS,
    {
        VdmUtils::new()
    }
}

/// Statistics that were asked to freeze. They are unfrozen when the guard is
/// released, whether they froze or not.
pub struct VdmFreezeGuard {
    port: usize,
    utils: VdmUtils,
    frozen: bool,
}

impl VdmFreezeGuard {
    /// Whether the freeze was confirmed.
    pub closed spec fn frozen(&self) -> bool {
        self.frozen
    }

    /// The timing of the unfreeze.
    pub closed spec fn utils(&self) -> VdmUtils {
        self.utils
    }

    /// The slot of the module.
    pub closed spec fn port(&self) -> usize {
        self.port
    }

    /// Whether the freeze was confirmed.
    pub fn is_frozen(&self) -> (r: bool)
        ensures
            r == self.frozen(),
    {
        self.frozen
    }

    /// Lets the statistics run again; returns whether that was confirmed.
    pub fn release<H: Hal>(self, hal: &mut H) -> (r: bool)
        ensures
            (r, final(hal).trace()) == unfroze(self.utils(), old(hal).trace(), self.port()),
    {
        self.utils.unfreeze_vdm_stats_and_confirm(hal, self.port)
    }
}

// ---- families of thresholds and flags ----

/// The name of a family: high alarm, low alarm, high warning, low warning.
pub open spec fn family(i: int) -> Seq<char> {
    if i == 0 {
        "halarm"@
    } else if i == 1 {
        "lalarm"@
    } else if i == 2 {
        "hwarn"@
    } else {
        "lwarn"@
    }
}

/// The mark of a family in the name of a value.
pub open spec fn family_mark(i: int) -> Seq<char> {
    "_"@ + family(i)
}

/// The values of a family, added in order to `acc`, each under its name
/// without the mark.
pub open spec fn family_into(acc: Vals, raw: Vals, i: int) -> Vals
    decreases raw.len(),
{
    if raw.len() == 0 {
        acc
    } else {
        let k = raw[0].0;
        let next = if occurs(k, family_mark(i)) {
            with_field(acc, replaced(k, family_mark(i), ""@), raw[0].1)
        } else {
            acc
        };
        family_into(next, raw.skip(1), i)
    }
}

/// The values of a family.
pub open spec fn family_of(raw: Vals, i: int) -> Vals {
    family_into(Seq::empty(), raw, i)
}

/// The values of a reading, by family.
pub open spec fn families_of(raw: Vals) -> Seq<Vals> {
    Seq::new(4, |i: int| family_of(raw, i))
}

/// The tables of the observables.
pub struct VdmTables<T: DbTable> {
    pub real_value: T,
    pub flags: Vec<FlagTables<T>>,
    pub thresholds: Vec<T>,
}

/// The rows of the tables of the observables.
pub struct VdmRows {
    pub real_value: Rows,
    pub flags: Seq<FlagRows>,
    pub thresholds: Seq<Rows>,
}

impl<T: DbTable> VdmTables<T> {
    /// The rows of the tables.
    pub open spec fn rows(&self) -> VdmRows {
        VdmRows {
            real_value: self.real_value.rows(),
            flags: self.flags@.map_values(|t: FlagTables<T>| t.rows()),
            thresholds: self.thresholds@.map_values(|t: T| t.rows()),
        }
    }

    /// There is a table for each family.
    pub open spec fn wf(&self) -> bool {
        self.flags@.len() == 4 && self.thresholds@.len() == 4
    }
}

/// Per-pass readings by slot, already split into families.
pub struct VdmThresholdCache {
    kept: Option<OrderedMap<usize, Vec<Fields>>>,
}

/// The families that a cache keeps; `None` for one that is off.
pub type VdmCacheView = Option<Map<usize, Seq<Vals>>>;

/// The values of a list of fields, by family.
pub open spec fn split_view(s: Seq<Fields>) -> Seq<Vals> {
    s.map_values(|f: Fields| vals(f@))
}

impl View for VdmThresholdCache {
    type V = VdmCacheView;

    closed spec fn view(&self) -> VdmCacheView {
        match self.kept {
            Some(m) => Some(m@.map_values(|s: Vec<Fields>| split_view(s@))),
            None => None,
        }
    }
}

fn clone_split(s: &Vec<Fields>) -> (r: Vec<Fields>)
    ensures
        r@.len() == s@.len(),
        split_view(r@) == split_view(s@),
{
    let mut r: Vec<Fields> = Vec::new();
    let mut i: usize = 0;
    while i < s.len()
        invariant
            i <= s@.len(),
            r@.len() == i,
            forall|j: int| 0 <= j < i ==> vals((#[trigger] r@[j])@) == vals(s@[j]@),
        decreases s.len() - i,
    {
        r.push(clone_fields(&s[i]));
        i += 1;
    }
    assert(split_view(r@) =~= split_view(s@));
    r
}

impl VdmThresholdCache {
    #[verifier::type_invariant]
    spec fn four_families(self) -> bool {
        match self.kept {
            Some(m) => forall|p: usize| #[trigger] m@.dom().contains(p) ==> m@[p]@.len() == 4,
            None => true,
        }
    }

    /// A cache that keeps nothing.
    pub fn off() -> (c: Self)
        ensures
            c@ == None::<Map<usize, Seq<Vals>>>,
    {
        VdmThresholdCache { kept: None }
    }

    /// An empty cache.
    pub fn new() -> (c: Self)
        ensures
            c@ == Some(Map::<usize, Seq<Vals>>::empty()),
    {
        let c = VdmThresholdCache { kept: Some(OrderedMap::new()) };
        assert(c@->0 =~= Map::<usize, Seq<Vals>>::empty());
        c
    }

    /// The families kept for a slot.
    pub fn lookup(&self, port: usize) -> (r: Option<Vec<Fields>>)
        ensures
            match r {
                Some(s) => self@ is Some && self@->0.dom().contains(port) && self@->0[port]
                    == split_view(s@) && s@.len() == 4,
                None => self@ is None || !self@->0.dom().contains(port),
            },
    {
        proof {
            use_type_invariant(self);
        }
        match &self.kept {
            Some(m) => match m.get(&port) {
                Some(s) => Some(clone_split(s)),
                None => None,
            },
            None => None,
        }
    }

    fn keep(&mut self, port: usize, s: &Vec<Fields>)
        requires
            s@.len() == 4,
        ensures
            final(self)@ == (match old(self)@ {
                Some(m) => Some(m.insert(port, split_view(s@))),
                None => None,
            }),
    {
        proof {
            use_type_invariant(&*self);
        }
        let ghost start = self@;
        let mut kept: Option<OrderedMap<usize, Vec<Fields>>> = None;
        std::mem::swap(&mut kept, &mut self.kept);
        match kept {
            Some(m) => {
                let mut m = m;
                m.insert(port, clone_split(s));
                self.kept = Some(m);
                assert(self@->0 =~= start->0.insert(port, split_view(s@)));
            },
            None => {},
        }
    }
}

fn mark_text(i: usize) -> (r: String)
    requires
        i < 4,
    ensures
        r@ == family_mark(i as int),
        r@.len() > 0,
{
    proof {
        reveal_strlit("_");
    }
    if i == 0 {
        join("_", "halarm")
    } else if i == 1 {
        join("_", "lalarm")
    } else if i == 2 {
        join("_", "hwarn")
    } else {
        join("_", "lwarn")
    }
}

fn split_family(raw: &Fields, i: usize) -> (r: Fields)
    requires
        i < 4,
    ensures
        vals(r@) == family_of(vals(raw@), i as int),
{
    let mark = mark_text(i);
    let ghost rv = vals(raw@);
    let mut r: Fields = Vec::new();
    let mut j: usize = 0;
    assert(rv.skip(0) =~= rv);
    assert(vals(r@) =~= Seq::<(Seq<char>, Val)>::empty());
    while j < raw.len()
        invariant
            j <= raw@.len(),
            i < 4,
            rv == vals(raw@),
            mark@ == family_mark(i as int),
            mark@.len() > 0,
            family_into(vals(r@), rv.skip(j as int), i as int) == family_of(rv, i as int),
        decreases raw.len() - j,
    {
        assert(rv.skip(j as int)[0] == rv[j as int]);
        assert(rv.skip(j as int).skip(1) =~= rv.skip(j + 1));
        if contains(raw[j].0.as_str(), mark.as_str()) {
            let k = replace(raw[j].0.as_str(), mark.as_str(), "");
            put_field(&mut r, k, raw[j].1.clone());
        }
        j += 1;
    }
    r
}

fn split_families(raw: &Fields) -> (r: Vec<Fields>)
    ensures
        split_view(r@) == families_of(vals(raw@)),
{
    let mut r: Vec<Fields> = Vec::new();
    let mut i: usize = 0;
    while i < 4
        invariant
            i <= 4,
            r@.len() == i,
            forall|j: int| 0 <= j < i ==> vals((#[trigger] r@[j])@) == family_of(vals(raw@), j),
        decreases 4 - i,
    {
        r.push(split_family(raw, i));
        i += 1;
    }
    assert(split_view(r@) =~= families_of(vals(raw@)));
    r
}

/// The flag tables after the families from `i` on that hold values are compared
/// with what was published.
pub open spec fn noted_families<T: DbTable>(
    t: Seq<FlagRows>,
    split: Seq<Vals>,
    name: Seq<char>,
    time: Seq<char>,
    i: nat,
) -> Seq<FlagRows>
    decreases 4 - i,
{
    if i >= 4 {
        t
    } else {
        let t1 = if split[i as int].len() > 0 {
            t.update(
                i as int,
                tracked_flags::<T>(t[i as int], name, split[i as int], time),
            )
        } else {
            t
        };
        noted_families::<T>(t1, split, name, time, i + 1)
    }
}

/// The row of a family that is published.
pub open spec fn family_row(f: Vals, secs: u64) -> Row {
    stamped(shown_row(Beautify::Plain, f), secs)
}

/// The tables after the families from `i` on are published, up to the first
/// that holds no value.
pub open spec fn posted_families<T: DbTable>(
    v: VdmRows,
    split: Seq<Vals>,
    tr: Trace,
    name: Seq<char>,
    flag_data: bool,
    i: nat,
) -> (VdmRows, Trace)
    decreases 4 - i,
{
    if i >= 4 || split[i as int].len() == 0 {
        (v, tr)
    } else {
        let row = family_row(split[i as int], tr.clock());
        let v1 = if flag_data {
            let f = v.flags[i as int];
            VdmRows {
                real_value: v.real_value,
                flags: v.flags.update(
                    i as int,
                    FlagRows {
                        value: put::<T>(f.value, name, row),
                        change_count: f.change_count,
                        set_time: f.set_time,
                        clear_time: f.clear_time,
                    },
                ),
                thresholds: v.thresholds,
            }
        } else {
            VdmRows {
                real_value: v.real_value,
                flags: v.flags,
                thresholds: v.thresholds.update(
                    i as int,
                    put::<T>(v.thresholds[i as int], name, row),
                ),
            }
        };
        posted_families::<T>(v1, split, tr.then_ask(Ask::Clock), name, flag_data, i + 1)
    }
}

/// The getter of the thresholds or of the flags.
pub open spec fn vdm_getter(flag_data: bool) -> Seq<char> {
    if flag_data {
        "get_transceiver_vdm_flags"@
    } else {
        "get_transceiver_vdm_thresholds"@
    }
}

/// The tables after the thresholds or the flags of port `name` are published.
pub open spec fn posted_vdm<T: DbTable>(
    v: VdmRows,
    cache: VdmCacheView,
    m: MappingView,
    tr: Trace,
    name: Seq<char>,
    flag_data: bool,
) -> (VdmRows, VdmCacheView, Trace) {
    let (port, t1) = validated(m, tr, name, true);
    match port {
        None => (v, cache, t1),
        Some(p) => if m.asic_of(name) is None {
            (v, cache, t1)
        } else if cache is Some && cache->0.dom().contains(p) {
            let (v1, t2) = posted_families::<T>(v, cache->0[p], t1, name, flag_data, 0);
            (v1, cache, t2)
        } else {
            let t2 = t1.then_ask(Ask::Json(p, vdm_getter(flag_data)));
            match t1.json(p, vdm_getter(flag_data)) {
                None => (v, cache, t2),
                Some(r) => match r.fields {
                    None => (v, cache, t2),
                    Some(raw) => {
                        let split = families_of(raw);
                        let t3 = t2.then_ask(Ask::Clock);
                        let noted = VdmRows {
                            real_value: v.real_value,
                            flags: if flag_data {
                                noted_families::<T>(v.flags, split, name, stamp(t2.clock()), 0)
                            } else {
                                v.flags
                            },
                            thresholds: v.thresholds,
                        };
                        let kept = match cache {
                            Some(c) => Some(c.insert(p, split)),
                            None => None,
                        };
                        let (v1, t4) = posted_families::<T>(noted, split, t3, name, flag_data, 0);
                        (v1, kept, t4)
                    },
                },
            }
        },
    }
}

/// The rows after given values of the observables of port `name` are published.
pub open spec fn posted_real_values<T: DbTable>(
    rows: Rows,
    m: MappingView,
    tr: Trace,
    name: Seq<char>,
    f: Vals,
) -> (Rows, Trace) {
    let (port, t1) = validated(m, tr, name, true);
    if port is None || m.asic_of(name) is None || f.len() == 0 {
        (rows, t1)
    } else {
        (
            put::<T>(rows, name, stamped(shown_row(Beautify::Plain, f), t1.clock())),
            t1.then_ask(Ask::Clock),
        )
    }
}

/// Publishes the observables of a module.
pub struct VdmDbUtils {
    base: DbUtils,
    vdm_utils: VdmUtils,
}

impl VdmDbUtils {
    /// What the modules are read with.
    pub closed spec fn utils(&self) -> VdmUtils {
        self.vdm_utils
    }

    /// A publisher that reads modules with the timing that they are promised.
    pub fn new() -> (u: Self)
        ensures
            u.utils().settle == MAX_TVDMF_TIME_MSECS,
            u.utils().timeout == MAX_VDM_FREEZE_UNFREEZE_TIME_MSECS,
            u.utils().poll == FREEZE_UNFREEZE_DONE_POLLING_INTERVAL_MSECS,
    {
        VdmDbUtils { base: DbUtils::new(), vdm_utils: VdmUtils::new() }
    }

    /// Publishes given values of the observables of a port in one row.
    pub fn post_port_vdm_real_values_from_dict_to_db<T: DbTable, H: Hal>(
        &self,
        name: &str,
        m: &PortMapping,
        hal: &mut H,
        table: &mut T,
        values: Fields,
    )
        ensures
            (final(table).rows(), final(hal).trace()) == posted_real_values::<T>(
                old(table).rows(),
                m@,
                old(hal).trace(),
                name@,
                vals(values@),
            ),
    {
        if self.base.validate_and_get_physical_port(name, m, hal, true).is_none() {
            return;
        }
        if m.get_asic_id_for_logical_port(name).is_none() {
            return;
        }
        if values.len() == 0 {
            return;
        }
        let mut fvs = render(Beautify::Plain, values);
        add_stamp(&mut fvs, hal.clock());
        table.set(name, &fvs);
    }

    /// Publishes the latched flags of a port, by family, and records how they
    /// moved.
    pub fn post_port_vdm_flags_to_db<T: DbTable, H: Hal>(
        &self,
        name: &str,
        m: &PortMapping,
        hal: &mut H,
        tables: &mut VdmTables<T>,
        cache: &mut VdmThresholdCache,
    )
        requires
            old(tables).wf(),
        ensures
            final(tables).wf(),
            (final(tables).rows(), final(cache)@, final(hal).trace()) == posted_vdm::<T>(
                old(tables).rows(),
                old(cache)@,
                m@,
                old(hal).trace(),
                name@,
                true,
            ),
    {
        self.post_vdm_thresholds_or_flags(name, m, hal, tables, true, cache);
    }

    /// Publishes the thresholds of a port, by family.
    pub fn post_port_vdm_thresholds_to_db<T: DbTable, H: Hal>(
        &self,
        name: &str,
        m: &PortMapping,
        hal: &mut H,
        tables: &mut VdmTables<T>,
        cache: &mut VdmThresholdCache,
    )
        requires
            old(tables).wf(),
        ensures
            final(tables).wf(),
            (final(tables).rows(), final(cache)@, final(hal).trace()) == posted_vdm::<T>(
                old(tables).rows(),
                old(cache)@,
                m@,
                old(hal).trace(),
                name@,
                false,
            ),
    {
        self.post_vdm_thresholds_or_flags(name, m, hal, tables, false, cache);
    }

    fn note_families<T: DbTable>(
        &self,
        name: &str,
        time: &str,
        split: &Vec<Fields>,
        tables: &mut VdmTables<T>,
    )
        requires
            old(tables).wf(),
            split@.len() == 4,
        ensures
            final(tables).wf(),
            final(tables).rows().real_value == old(tables).rows().real_value,
            final(tables).rows().thresholds == old(tables).rows().thresholds,
            final(tables).rows().flags == noted_families::<T>(
                old(tables).rows().flags,
                split_view(split@),
                name@,
                time@,
                0,
            ),
    {
        let ghost goal = noted_families::<T>(
            tables.rows().flags,
            split_view(split@),
            name@,
            time@,
            0,
        );
        let mut i: usize = 0;
        while i < 4
            invariant
                i <= 4,
                tables.wf(),
                split@.len() == 4,
                tables.real_value == old(tables).real_value,
                tables.thresholds == old(tables).thresholds,
                goal == noted_families::<T>(
                    tables.rows().flags,
                    split_view(split@),
                    name@,
                    time@,
                    i as nat,
                ),
            decreases 4 - i,
        {
            let ghost before = tables.rows().flags;
            assert(split_view(split@)[i as int] == vals(split@[i as int]@));
            if split[i].len() > 0 {
                self.base.update_flag_metadata_tables(name, &split[i], time, &mut tables.flags[i]);
                assert(tables.rows().flags =~= before.update(
                    i as int,
                    tracked_flags::<T>(
                        before[i as int],
                        name@,
                        split_view(split@)[i as int],
                        time@,
                    ),
                ));
            }
            i += 1;
        }
    }

    fn post_families<T: DbTable, H: Hal>(
        &self,
        name: &str,
        hal: &mut H,
        split: &Vec<Fields>,
        tables: &mut VdmTables<T>,
        flag_data: bool,
    )
        requires
            old(tables).wf(),
            split@.len() == 4,
        ensures
            final(tables).wf(),
            (final(tables).rows(), final(hal).trace()) == posted_families::<T>(
                old(tables).rows(),
                split_view(split@),
                old(hal).trace(),
                name@,
                flag_data,
                0,
            ),
    {
        let ghost goal = posted_families::<T>(
            tables.rows(),
            split_view(split@),
            hal.trace(),
            name@,
            flag_data,
            0,
        );
        let mut i: usize = 0;
        while i < 4
            invariant
                i <= 4,
                tables.wf(),
                split@.len() == 4,
                goal == posted_families::<T>(
                    tables.rows(),
                    split_view(split@),
                    hal.trace(),
                    name@,
                    flag_data,
                    i as nat,
                ),
                goal == posted_families::<T>(
                    old(tables).rows(),
                    split_view(split@),
                    old(hal).trace(),
                    name@,
                    flag_data,
                    0,
                ),
            decreases 4 - i,
        {
            assert(split_view(split@)[i as int] == vals(split@[i as int]@));
            if split[i].len() == 0 {
                return;
            }
            let ghost before = tables.rows();
            let ghost secs = hal.trace().clock();
            let mut fvs = render(Beautify::Plain, clone_fields(&split[i]));
            add_stamp(&mut fvs, hal.clock());
            let ghost row = row_of(fvs@);
            if flag_data {
                tables.flags[i].value.set(name, &fvs);
                proof {
                    let f = before.flags[i as int];
                    assert(tables.rows().flags =~= before.flags.update(
                        i as int,
                        FlagRows {
                            value: put::<T>(f.value, name@, row),
                            change_count: f.change_count,
                            set_time: f.set_time,
                            clear_time: f.clear_time,
                        },
                    ));
                }
            } else {
                tables.thresholds[i].set(name, &fvs);
                assert(tables.rows().thresholds =~= before.thresholds.update(
                    i as int,
                    put::<T>(before.thresholds[i as int], name@, row),
                ));
            }
            i += 1;
        }
    }

    fn post_vdm_thresholds_or_flags<T: DbTable, H: Hal>(
        &self,
        name: &str,
        m: &PortMapping,
        hal: &mut H,
        tables: &mut VdmTables<T>,
        flag_data: bool,
        cache: &mut VdmThresholdCache,
    )
        requires
            old(tables).wf(),
        ensures
            final(tables).wf(),
            (final(tables).rows(), final(cache)@, final(hal).trace()) == posted_vdm::<T>(
                old(tables).rows(),
                old(cache)@,
                m@,
                old(hal).trace(),
                name@,
                flag_data,
            ),
    {
        let p = match self.base.validate_and_get_physical_port(name, m, hal, true) {
            Some(p) => p,
            None => {
                return;
            },
        };
        if m.get_asic_id_for_logical_port(name).is_none() {
            return;
        }
        let split = match cache.lookup(p) {
            Some(s) => s,
            None => {
                let reply = if flag_data {
                    self.vdm_utils.get_vdm_flags(hal, p)
                } else {
                    self.vdm_utils.get_vdm_thresholds(hal, p)
                };
                let raw = match reply {
                    Some(r) => match r.fields {
                        Some(f) => f,
                        None => {
                            return;
                        },
                    },
                    None => {
                        return;
                    },
                };
                let time = get_current_time(hal);
                let split = split_families(&raw);
                assert(split_view(split@).len() == 4);
                if flag_data {
                    self.note_families(name, time.as_str(), &split, tables);
                }
                cache.keep(p, &split);
                split
            },
        };
        self.post_families(name, hal, &split, tables, flag_data);
    }
}

impl Default for VdmDbUtils {
    fn default() -> (u: Self)
        ensures
            u.utils().settle == MAX_TVDMF_TIME_MSECS,
            u.utils().timeout == MAX_VDM_FREEZE_UNFREEZE_TIME_MSECS,
            u.utils().poll == FREEZE_UNFREEZE_DONE_POLLING_INTERVAL_MSECS,
    {
        VdmDbUtils::new()
    }
}

} // verus!
