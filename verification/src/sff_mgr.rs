//! The bring-up of modules with an SFF memory map.
//!
//! A module sends only while the host side is ready and the port is up. When a
//! module comes in, it is also given the power of its class and taken out of
//! low-power mode.

use vstd::prelude::*;

use crate::assoc::{lists, without, OrderedMap};
use crate::db::{text_view, value_at, DbTable, Rows};
use crate::hal::{event_views, Ask, Hal, Trace};
use crate::port::{texts, EventView, PortChangeEvent, PortChangeEventType};
use crate::sff_api::{lanes_view, SffApi, SffCall, SffTrace};
use crate::tables::{AsicRows, XcvrTableHelper};
use crate::text::{occurs_at, parse_i64, parsed_i64, parts, split, starts_with, str_eq, trim, trimmed};

verus! {

/// The number of lanes of a slot.
pub const DEFAULT_NUM_LANES_PER_PPORT: i64 = 4;

/// How long to wait for port updates, in milliseconds.
pub const PORT_UPDATE_SELECT_TIMEOUT_MS: u64 = 1000;

/// What each control interface has been called with and answers, by slot.
pub type Apis = Map<usize, SffTrace>;

/// The control interfaces of the modules, by slot.
pub trait SffApiFactory {
    /// The interface of one module.
    type Api: SffApi;

    /// What each interface that is at hand has been called with and answers.
    spec fn apis(&self) -> Apis;

    /// Takes the interface of the module in a slot, where it has one.
    fn open(&mut self, slot: usize) -> (r: Option<Self::Api>)
        ensures
            match r {
                Some(a) => {
                    &&& a.ready()
                    &&& old(self).apis().dom().contains(slot)
                    &&& a.trace() == old(self).apis()[slot]
                    &&& final(self).apis() == old(self).apis().remove(slot)
                },
                None => {
                    &&& !old(self).apis().dom().contains(slot)
                    &&& final(self).apis() == old(self).apis()
                },
            },
    ;

    /// Gives the interface of the module in a slot back.
    fn close(&mut self, slot: usize, api: Self::Api)
        requires
            api.ready(),
        ensures
            final(self).apis() == old(self).apis().insert(slot, api.trace()),
    ;
}

// ---- lanes ----

/// The quotient of two numbers with the fraction cut off, for a positive
/// divisor.
pub open spec fn cut_quotient(a: int, b: int) -> int {
    if a >= 0 {
        a / b
    } else {
        -((-a) / b)
    }
}

/// The lanes of a slot that subport `subport` owns, where each subport has
/// `per_lport` of the `per_pport` lanes; subport 0 owns all of them.
pub open spec fn active_lanes(subport: i64, per_lport: i64, per_pport: i64) -> Option<Seq<bool>> {
    if per_lport <= 0 || subport < 0 || subport > cut_quotient(per_pport as int, per_lport as int) {
        None
    } else {
        Some(
            Seq::new(
                if per_pport >= 0 {
                    per_pport as nat
                } else {
                    0
                },
                |i: int| subport == 0 || (subport - 1) * per_lport <= i < subport * per_lport,
            ),
        )
    }
}

/// The subports of a slot share its lanes: as many subports fit as their lanes do,
/// each of them owns a run of lanes that no other subport owns, and together they
/// own the lanes of the runs. Subport 0 owns every lane.
pub proof fn subports_share_the_lanes(per_lport: i64, per_pport: i64, s: i64, t: i64, lane: int)
    requires
        1 <= per_lport <= per_pport,
    ensures
        ({
            let k = per_pport / per_lport;
            let owned = |u: i64| active_lanes(u, per_lport, per_pport);
            &&& owned(s) is Some <==> 0 <= s <= k
            &&& 0 <= s <= k ==> owned(s)->0.len() == per_pport
            &&& 0 <= lane < per_pport ==> {
                &&& s == 0 ==> owned(s)->0[lane]
                &&& 1 <= s <= k ==> owned(s)->0[lane] == ((s - 1) * per_lport <= lane < s
                    * per_lport)
                &&& 1 <= s < t <= k ==> !(owned(s)->0[lane] && owned(t)->0[lane])
                &&& lane < k * per_lport <==> exists|u: i64|
                    1 <= u <= k && (#[trigger] active_lanes(u, per_lport, per_pport))->0[lane]
            }
        }),
{
    let k = per_pport / per_lport;
    if 0 <= lane < per_pport {
        if 1 <= s < t <= k {
            assert(s * per_lport <= (t - 1) * per_lport) by (nonlinear_arith)
                requires
                    s <= t - 1,
                    1 <= per_lport,
            ;
        }
        assert forall|u: i64|
            1 <= u <= k && (#[trigger] active_lanes(u, per_lport, per_pport))->0[lane] implies lane
            < k * per_lport by {
            assert(u * per_lport <= k * per_lport) by (nonlinear_arith)
                requires
                    u <= k,
                    1 <= per_lport,
            ;
        }
        if lane < k * per_lport {
            let q = lane / (per_lport as int);
            assert(q * per_lport <= lane < (q + 1) * per_lport && q < k && q >= 0) by (nonlinear_arith)
                requires
                    q == lane / (per_lport as int),
                    1 <= per_lport,
                    0 <= lane < k * per_lport,
            ;
            let u = (q + 1) as i64;
            assert(active_lanes(u, per_lport, per_pport)->0[lane]);
        }
    }
}

/// Where an owned lane differs from the target.
pub open spec fn lane_deltas(current: Seq<bool>, target: bool, active: Seq<bool>) -> Seq<bool> {
    Seq::new(
        if active.len() <= current.len() {
            active.len()
        } else {
            current.len()
        },
        |i: int| active[i] && target != current[i],
    )
}

/// The mask with a bit for each set flag, the first flag in the lowest bit.
pub open spec fn mask_of(flags: Seq<bool>) -> u32
    decreases flags.len(),
{
    if flags.len() == 0 {
        0
    } else {
        let m = mask_of(flags.drop_last());
        if flags.last() {
            m | (1u32 << ((flags.len() - 1) as u32))
        } else {
            m
        }
    }
}

/// No flag is set past the width of a mask.
pub open spec fn fits_mask(flags: Seq<bool>) -> bool {
    forall|i: int| 32 <= i < flags.len() ==> !#[trigger] flags[i]
}

/// A mask has bit `i` set exactly where flag `i` is.
pub proof fn mask_has_the_flags(flags: Seq<bool>, i: u32)
    requires
        fits_mask(flags),
        i < 32,
    ensures
        (mask_of(flags) & (1u32 << i) != 0) == (i < flags.len() && flags[i as int]),
    decreases flags.len(),
{
    if flags.len() == 0 {
        assert(0u32 & (1u32 << i) == 0) by (bit_vector);
    } else {
        let d = flags.drop_last();
        assert(fits_mask(d)) by {
            assert forall|j: int| 32 <= j < d.len() implies !#[trigger] d[j] by {
                assert(!flags[j]);
            }
        }
        mask_has_the_flags(d, i);
        if flags.last() {
            let m = mask_of(d);
            let k = (flags.len() - 1) as u32;
            assert(flags.len() - 1 < 32) by {
                if flags.len() - 1 >= 32 {
                    assert(!flags[flags.len() - 1]);
                }
            }
            assert(((m | (1u32 << k)) & (1u32 << i) != 0) == ((m & (1u32 << i) != 0) || i == k))
                by (bit_vector)
                requires
                    i < 32,
                    k < 32,
            ;
        }
    }
}

/// The mask of the lanes that change has the bit of exactly those owned lanes
/// that differ from the target; the other lanes of the slot are left alone.
pub proof fn delta_mask_is_owned_and_different(
    current: Seq<bool>,
    target: bool,
    active: Seq<bool>,
    i: u32,
)
    requires
        active.len() <= 32,
        i < active.len(),
        active.len() <= current.len(),
    ensures
        (mask_of(lane_deltas(current, target, active)) & (1u32 << i) != 0) == (active[i as int]
            && current[i as int] != target),
{
    mask_has_the_flags(lane_deltas(current, target, active), i);
}

// ---- one port ----

/// What is known of one logical port.
#[derive(Debug, PartialEq)]
pub struct SffPortInfo {
    pub asic_id: usize,
    pub index: Option<i64>,
    pub subport: Option<String>,
    pub lanes: Option<Vec<String>>,
    pub host_tx_ready: Option<String>,
    pub admin_status: Option<String>,
    pub xcvr_type: Option<String>,
    pub active_lanes: Option<Vec<bool>>,
}

/// [`SffPortInfo`] as contracts see it.
#[verifier::ext_equal]
pub struct SffInfo {
    pub asic_id: usize,
    pub index: Option<i64>,
    pub subport: Option<Seq<char>>,
    pub lanes: Option<Seq<Seq<char>>>,
    pub host_tx_ready: Option<Seq<char>>,
    pub admin_status: Option<Seq<char>>,
    pub xcvr_type: Option<Seq<char>>,
    pub active_lanes: Option<Seq<bool>>,
}

impl View for SffPortInfo {
    type V = SffInfo;

    open spec fn view(&self) -> SffInfo {
        SffInfo {
            asic_id: self.asic_id,
            index: self.index,
            subport: text_view(self.subport),
            lanes: match self.lanes {
                Some(v) => Some(texts(v@)),
                None => None,
            },
            host_tx_ready: text_view(self.host_tx_ready),
            admin_status: text_view(self.admin_status),
            xcvr_type: text_view(self.xcvr_type),
            active_lanes: lanes_view(self.active_lanes),
        }
    }
}

/// A port of which nothing is known yet.
pub open spec fn unknown_port() -> SffInfo {
    SffInfo {
        asic_id: 0,
        index: None,
        subport: None,
        lanes: None,
        host_tx_ready: None,
        admin_status: None,
        xcvr_type: None,
        active_lanes: None,
    }
}

impl Default for SffPortInfo {
    fn default() -> (i: Self)
        ensures
            i@ == unknown_port(),
    {
        SffPortInfo {
            asic_id: 0,
            index: None,
            subport: None,
            lanes: None,
            host_tx_ready: None,
            admin_status: None,
            xcvr_type: None,
            active_lanes: None,
        }
    }
}

impl SffInfo {
    /// The mask of owned lanes, where it is known, covers a slot.
    pub open spec fn wf(self) -> bool {
        self.active_lanes matches Some(a) ==> a.len() == 4
    }

    /// The port with what a `PortSet` event carries.
    pub open spec fn told(self, e: EventView) -> SffInfo {
        SffInfo {
            asic_id: e.asic_id,
            index: match e.physical_port {
                Some(p) => Some(p as i64),
                None => self.index,
            },
            subport: or_else(e.carries("subport"@), self.subport),
            lanes: match e.carries("lanes"@) {
                Some(s) => Some(parts(s, ',')),
                None => self.lanes,
            },
            host_tx_ready: or_else(e.carries("host_tx_ready"@), self.host_tx_ready),
            admin_status: or_else(e.carries("admin_status"@), self.admin_status),
            xcvr_type: or_else(e.carries("type"@), self.xcvr_type),
            active_lanes: self.active_lanes,
        }
    }

    /// The port without a module.
    pub open spec fn emptied(self) -> SffInfo {
        SffInfo { xcvr_type: None, ..self }
    }

    /// The number of the subport; 0 where it is missing or no number.
    pub open spec fn subport_number(self) -> i64 {
        match self.subport {
            Some(s) => match parsed_i64(trimmed(s)) {
                Some(n) => n,
                None => 0,
            },
            None => 0,
        }
    }
}

/// `a`, or `b` where `a` is missing.
pub open spec fn or_else(a: Option<Seq<char>>, b: Option<Seq<char>>) -> Option<Seq<char>> {
    match a {
        Some(_) => a,
        None => b,
    }
}

/// Whether the host side of a port is ready, as the state database has it.
pub open spec fn host_tx_text(state_port: Rows, name: Seq<char>) -> Seq<char> {
    match value_at(state_port, name, "host_tx_ready"@) {
        Some(s) => s,
        None => "false"@,
    }
}

/// Whether a port is up, as the configuration has it.
pub open spec fn admin_text(cfg_port: Rows, name: Seq<char>) -> Seq<char> {
    match value_at(cfg_port, name, "admin_status"@) {
        Some(s) => s,
        None => "down"@,
    }
}

/// The calls that give a module the power of its class.
pub open spec fn high_power_enabled(t: SffTrace) -> SffTrace {
    let t1 = t.then_call(SffCall::GetPowerClass);
    match (t.answers.power_class)(t.calls) {
        Some(p) if p >= 5 => t1.then_call(SffCall::SetHighPowerClass(p, true)),
        _ => t1,
    }
}

/// The calls that power a module up.
pub open spec fn powered_up(t: SffTrace) -> SffTrace {
    let t1 = high_power_enabled(t);
    let t2 = t1.then_call(SffCall::GetLpmodeSupport);
    if (t1.answers.lpmode_support)(t1.calls) {
        t2.then_call(SffCall::SetLpmode(false))
    } else {
        t2
    }
}

/// The calls that bring the owned transmitters to the target.
pub open spec fn tx_driven(t: SffTrace, off: bool, active: Seq<bool>) -> SffTrace {
    let t1 = t.then_call(SffCall::GetTxDisable);
    let current = match (t.answers.tx_disable)(t.calls) {
        Some(c) => c,
        None => seq![!off, !off, !off, !off],
    };
    let mask = mask_of(lane_deltas(current, off, active));
    if mask == 0 {
        t1
    } else {
        t1.then_call(SffCall::TxDisableChannel(mask, off))
    }
}

/// Whether the transmitters of a port are to be off.
pub open spec fn tx_target(host: Seq<char>, admin: Seq<char>) -> bool {
    !(host == "true"@ && admin == "up"@)
}

/// What is known of a port and what its module has been called with after a
/// sweep has reached the module. `prev` is what was known after the sweep
/// before; `host_db` and `admin_db` stand in for what no event has told.
pub open spec fn brought_up(
    info: SffInfo,
    prev: Option<SffInfo>,
    host_db: Seq<char>,
    admin_db: Seq<char>,
    t: SffTrace,
) -> (SffInfo, SffTrace) {
    let t1 = t.then_call(SffCall::IsCmis);
    if (t.answers.is_cmis)(t.calls) {
        (info, t1)
    } else {
        let host = match info.host_tx_ready {
            Some(s) => s,
            None => host_db,
        };
        let admin = match info.admin_status {
            Some(s) => s,
            None => admin_db,
        };
        let filled = SffInfo { host_tx_ready: Some(host), admin_status: Some(admin), ..info };
        let inserted = match prev {
            Some(p) => p.xcvr_type is None,
            None => true,
        };
        let host_changed = match prev {
            Some(p) => p.host_tx_ready != Some(host),
            None => true,
        };
        let admin_changed = match prev {
            Some(p) => p.admin_status != Some(admin),
            None => true,
        };
        if !inserted && !host_changed && !admin_changed {
            (filled, t1)
        } else {
            driven(filled, host, admin, inserted || (admin_changed && admin == "up"@), t1)
        }
    }
}

/// The rest of [`brought_up`]: a change has been found, and `power` tells
/// whether the module is to be powered up.
pub open spec fn driven(
    info: SffInfo,
    host: Seq<char>,
    admin: Seq<char>,
    power: bool,
    t: SffTrace,
) -> (SffInfo, SffTrace) {
    let t2 = t.then_call(SffCall::IsCopper);
    let t3 = t2.then_call(SffCall::GetTxDisableSupport);
    if (t.answers.is_copper)(t.calls) != Some(false) {
        (info, t2)
    } else if (t2.answers.tx_disable_support)(t2.calls) != Some(true) {
        (info, t3)
    } else {
        let t4 = if power {
            powered_up(t3)
        } else {
            t3
        };
        let active = match info.active_lanes {
            Some(a) => Some(a),
            None => active_lanes(
                info.subport_number(),
                info.lanes->0.len() as i64,
                DEFAULT_NUM_LANES_PER_PPORT,
            ),
        };
        match active {
            Some(a) => (
                SffInfo { active_lanes: Some(a), ..info },
                tx_driven(t4, tx_target(host, admin), a),
            ),
            None => (info, t4),
        }
    }
}

/// The state of the task and of what it reaches.
pub struct SffState {
    /// What is known of each port.
    pub ports: Map<Seq<char>, SffInfo>,
    /// The world.
    pub world: Trace,
    /// The control interfaces of the modules.
    pub apis: Map<usize, SffTrace>,
}

/// The state after port `name` has been gone through.
pub open spec fn port_swept(
    s: SffState,
    prev: Map<Seq<char>, SffInfo>,
    rows: Seq<AsicRows>,
    name: Seq<char>,
) -> SffState {
    let info = s.ports[name];
    if !(info.index matches Some(p) && p >= 0) || info.lanes is None || info.xcvr_type is None {
        s
    } else {
        let p = info.index->0 as usize;
        let world = s.world.then_ask(Ask::Presence(p));
        if !s.world.present(p) {
            SffState { ports: s.ports.insert(name, info.emptied()), world, apis: s.apis }
        } else if !s.apis.dom().contains(p) {
            SffState { ports: s.ports, world, apis: s.apis }
        } else {
            let before = if prev.dom().contains(name) {
                Some(prev[name])
            } else {
                None
            };
            let r = brought_up(
                info,
                before,
                host_tx_at(rows, info.asic_id, name),
                admin_at(rows, info.asic_id, name),
                s.apis[p],
            );
            SffState { ports: s.ports.insert(name, r.0), world, apis: s.apis.insert(p, r.1) }
        }
    }
}

/// Whether the host side of a port of an ASIC is ready.
pub open spec fn host_tx_at(rows: Seq<AsicRows>, asic: usize, name: Seq<char>) -> Seq<char> {
    if asic < rows.len() {
        host_tx_text(rows[asic as int].state_port, name)
    } else {
        "false"@
    }
}

/// Whether a port of an ASIC is up.
pub open spec fn admin_at(rows: Seq<AsicRows>, asic: usize, name: Seq<char>) -> Seq<char> {
    if asic < rows.len() {
        admin_text(rows[asic as int].cfg_port, name)
    } else {
        "down"@
    }
}

/// The state after the ports `names` have been gone through, up to where a
/// stop is asked for.
pub open spec fn swept(
    s: SffState,
    prev: Map<Seq<char>, SffInfo>,
    rows: Seq<AsicRows>,
    names: Seq<Seq<char>>,
) -> SffState
    decreases names.len(),
{
    if names.len() == 0 {
        s
    } else {
        let asked = SffState { world: s.world.then_ask(Ask::Stop), ..s };
        if s.world.stop() {
            asked
        } else {
            swept(port_swept(asked, prev, rows, names[0]), prev, rows, names.skip(1))
        }
    }
}

/// What is known of the ports after an event.
pub open spec fn after_event(
    ports: Map<Seq<char>, SffInfo>,
    e: EventView,
) -> Map<Seq<char>, SffInfo> {
    let name = e.port_name;
    if !occurs_at(name, "Ethernet"@, 0) {
        ports
    } else {
        match e.event_type {
            PortChangeEventType::PortSet => {
                let info = if ports.dom().contains(name) {
                    ports[name]
                } else {
                    unknown_port()
                };
                ports.insert(name, info.told(e))
            },
            PortChangeEventType::PortDel => if e.db_name == "CONFIG_DB"@ {
                ports.remove(name)
            } else if e.table_name == "TRANSCEIVER_INFO"@ && ports.dom().contains(name) {
                ports.insert(name, ports[name].emptied())
            } else {
                ports
            },
            _ => ports,
        }
    }
}

/// What is known of the ports after a list of events.
pub open spec fn after_events(
    ports: Map<Seq<char>, SffInfo>,
    events: Seq<EventView>,
) -> Map<Seq<char>, SffInfo>
    decreases events.len(),
{
    if events.len() == 0 {
        ports
    } else {
        after_event(after_events(ports, events.drop_last()), events.last())
    }
}

/// The ports, in the order in which they are gone through, after an event.
pub open spec fn order_after_event(order: Seq<Seq<char>>, e: EventView) -> Seq<Seq<char>> {
    let name = e.port_name;
    if !occurs_at(name, "Ethernet"@, 0) {
        order
    } else {
        match e.event_type {
            PortChangeEventType::PortSet => if order.contains(name) {
                order
            } else {
                order.push(name)
            },
            PortChangeEventType::PortDel => if e.db_name == "CONFIG_DB"@ {
                without(order, name)
            } else {
                order
            },
            _ => order,
        }
    }
}

/// The ports, in the order in which they are gone through, after a list of
/// events.
pub open spec fn order_after_events(order: Seq<Seq<char>>, events: Seq<EventView>) -> Seq<
    Seq<char>,
>
    decreases events.len(),
{
    if events.len() == 0 {
        order
    } else {
        order_after_event(order_after_events(order, events.drop_last()), events.last())
    }
}

/// The state after a list of events has been taken in and, where there was any
/// event, all ports have been gone through.
pub open spec fn events_served(
    s: SffState,
    prev: Map<Seq<char>, SffInfo>,
    order: Seq<Seq<char>>,
    rows: Seq<AsicRows>,
    events: Seq<EventView>,
) -> SffState {
    if events.len() == 0 {
        s
    } else {
        swept(
            SffState { ports: after_events(s.ports, events), ..s },
            prev,
            rows,
            order_after_events(order, events),
        )
    }
}

// ---- the task ----

/// The views of what is known of the ports.
pub open spec fn infos(m: Map<Seq<char>, SffPortInfo>) -> Map<Seq<char>, SffInfo> {
    m.map_values(|i: SffPortInfo| i@)
}

/// Each port is well-formed.
pub open spec fn ports_wf(ports: Map<Seq<char>, SffInfo>) -> bool {
    forall|n: Seq<char>| #[trigger] ports.dom().contains(n) ==> ports[n].wf()
}

fn copy_text(t: &Option<String>) -> (r: Option<String>)
    ensures
        text_view(r) == text_view(*t),
{
    match t {
        Some(s) => Some(s.clone()),
        None => None,
    }
}

impl Clone for SffPortInfo {
    fn clone(&self) -> (r: Self)
        ensures
            r@ == self@,
    {
        copy_info(self)
    }
}

fn copy_info(i: &SffPortInfo) -> (r: SffPortInfo)
    ensures
        r@ == i@,
{
    SffPortInfo {
        asic_id: i.asic_id,
        index: i.index,
        subport: copy_text(&i.subport),
        lanes: match &i.lanes {
            Some(v) => Some(crate::port::clone_texts(v)),
            None => None,
        },
        host_tx_ready: copy_text(&i.host_tx_ready),
        admin_status: copy_text(&i.admin_status),
        xcvr_type: copy_text(&i.xcvr_type),
        active_lanes: match &i.active_lanes {
            Some(v) => {
                let c = v.clone();
                assert(c@ =~= v@);
                Some(c)
            },
            None => None,
        },
    }
}

fn copy_ports(m: &OrderedMap<String, SffPortInfo>) -> (r: OrderedMap<String, SffPortInfo>)
    ensures
        infos(r@) == infos(m@),
        r.order() == m.order(),
{
    let n = m.len();
    let mut r: OrderedMap<String, SffPortInfo> = OrderedMap::new();
    let mut i: usize = 0;
    while i < n
        invariant
            i <= n,
            n == m.order().len(),
            m.order().no_duplicates(),
            forall|k: Seq<char>| #[trigger] m@.dom().contains(k) <==> m.order().contains(k),
            r.order() == m.order().take(i as int),
            forall|k: Seq<char>| #[trigger]
                r@.dom().contains(k) <==> m.order().take(i as int).contains(k),
            forall|k: Seq<char>| #[trigger] r@.dom().contains(k) ==> r@[k]@ == m@[k]@,
        decreases n - i,
    {
        let ghost before = m.order().take(i as int);
        let ghost k = m.order()[i as int];
        let c = copy_info(m.value_at(i));
        let name = m.key_at(i).clone();
        assert(!before.contains(k));
        r.insert(name, c);
        assert(m.order().take(i + 1) =~= before.push(k));
        assert forall|j: Seq<char>| #[trigger] r@.dom().contains(j) <==> before.push(k).contains(
            j,
        ) by {
            if before.contains(j) {
                let x = before.index_of(j);
                assert(before.push(k)[x] == j);
            }
            assert(before.push(k)[before.len() as int] == k);
        }
        i += 1;
    }
    assert(m.order().take(i as int) =~= m.order());
    assert(infos(r@) =~= infos(m@));
    r
}

/// The task that brings modules with an SFF memory map up.
pub struct SffManagerTask {
    port_dict: OrderedMap<String, SffPortInfo>,
    port_dict_prev: OrderedMap<String, SffPortInfo>,
}

impl SffManagerTask {
    /// What is known of each port.
    pub closed spec fn ports(&self) -> Map<Seq<char>, SffInfo> {
        infos(self.port_dict@)
    }

    /// What was known of each port after the last sweep.
    pub closed spec fn prev(&self) -> Map<Seq<char>, SffInfo> {
        infos(self.port_dict_prev@)
    }

    /// The ports, in the order in which they are gone through.
    pub closed spec fn order(&self) -> Seq<Seq<char>> {
        self.port_dict.order()
    }

    /// What is known of the ports is well-formed, and each known port is gone
    /// through once.
    pub open spec fn wf(&self) -> bool {
        &&& ports_wf(self.ports())
        &&& lists(self.order(), self.ports())
    }

    /// Whether one sweep over the tables `rows` makes the manager into `after`. The
    /// sweep starts with `world` and `apis` and ends with `world_after` and
    /// `apis_after`.
    pub open spec fn sweeps_to(
        &self,
        after: &SffManagerTask,
        rows: Seq<AsicRows>,
        world: Trace,
        apis: Apis,
        world_after: Trace,
        apis_after: Apis,
    ) -> bool {
        &&& after.order() == self.order()
        &&& after.prev() == after.ports()
        &&& (SffState { ports: after.ports(), world: world_after, apis: apis_after }) == swept(
            SffState { ports: self.ports(), world, apis },
            self.prev(),
            rows,
            self.order(),
        )
    }

    /// A task that knows no port.
    pub fn new() -> (t: Self)
        ensures
            t.wf(),
            t.ports() == Map::<Seq<char>, SffInfo>::empty(),
            t.prev() == Map::<Seq<char>, SffInfo>::empty(),
            t.order() == Seq::<Seq<char>>::empty(),
    {
        let t = SffManagerTask { port_dict: OrderedMap::new(), port_dict_prev: OrderedMap::new() };
        assert(t.ports() =~= Map::<Seq<char>, SffInfo>::empty());
        assert(t.prev() =~= Map::<Seq<char>, SffInfo>::empty());
        t
    }

    /// The number of known ports.
    pub fn port_count(&self) -> (n: usize)
        ensures
            n == self.ports().dom().len(),
    {
        assert(self.ports().dom() =~= self.port_dict@.dom());
        self.port_dict.len()
    }

    /// What is known of a port.
    pub fn port_info(&self, lport: &str) -> (r: Option<SffPortInfo>)
        ensures
            match r {
                Some(i) => self.ports().dom().contains(lport@) && i@ == self.ports()[lport@],
                None => !self.ports().dom().contains(lport@),
            },
    {
        match self.port_dict.get(&crate::text::owned(lport)) {
            Some(i) => Some(copy_info(i)),
            None => None,
        }
    }

    /// What was known of a port after the last sweep.
    pub fn port_info_prev(&self, lport: &str) -> (r: Option<SffPortInfo>)
        ensures
            match r {
                Some(i) => self.prev().dom().contains(lport@) && i@ == self.prev()[lport@],
                None => !self.prev().dom().contains(lport@),
            },
    {
        match self.port_dict_prev.get(&crate::text::owned(lport)) {
            Some(i) => Some(copy_info(i)),
            None => None,
        }
    }

    /// The lanes of a slot that a subport owns.
    pub fn get_active_lanes_for_lport(
        &self,
        _lport: &str,
        subport_idx: i64,
        num_lanes_per_lport: i64,
        num_lanes_per_pport: i64,
    ) -> (r: Option<Vec<bool>>)
        requires
            num_lanes_per_pport <= usize::MAX,
        ensures
            lanes_view(r) == active_lanes(subport_idx, num_lanes_per_lport, num_lanes_per_pport),
    {
        if num_lanes_per_lport <= 0 || subport_idx < 0 {
            return None;
        }
        if num_lanes_per_pport < 0 {
            let below: i128 = -(num_lanes_per_pport as i128);
            let share: i128 = below / (num_lanes_per_lport as i128);
            if subport_idx as i128 > -share {
                return None;
            }
            let none: Vec<bool> = Vec::new();
            assert(none@ =~= active_lanes(subport_idx, num_lanes_per_lport, num_lanes_per_pport)->0);
            return Some(none);
        }
        if subport_idx > num_lanes_per_pport / num_lanes_per_lport {
            return None;
        }
        let n = num_lanes_per_pport as usize;
        let ghost want = active_lanes(subport_idx, num_lanes_per_lport, num_lanes_per_pport)->0;
        let mut lanes: Vec<bool> = Vec::new();
        proof {
            let q = num_lanes_per_pport as int / num_lanes_per_lport as int;
            assert(subport_idx * num_lanes_per_lport <= q * num_lanes_per_lport
                <= num_lanes_per_pport) by (nonlinear_arith)
                requires
                    0 < num_lanes_per_lport,
                    0 <= subport_idx <= q,
                    0 <= num_lanes_per_pport,
                    q == num_lanes_per_pport as int / num_lanes_per_lport as int,
            ;
            assert((subport_idx - 1) * num_lanes_per_lport == subport_idx * num_lanes_per_lport
                - num_lanes_per_lport) by (nonlinear_arith);
        }
        let end: i64 = subport_idx * num_lanes_per_lport;
        let start: i64 = end - num_lanes_per_lport;
        let mut i: usize = 0;
        while i < n
            invariant
                i <= n,
                n == num_lanes_per_pport,
                0 <= num_lanes_per_pport,
                end == subport_idx * num_lanes_per_lport,
                start == (subport_idx - 1) * num_lanes_per_lport,
                want.len() == n,
                forall|j: int|
                    0 <= j < n ==> #[trigger] want[j] == (subport_idx == 0 || (subport_idx - 1)
                        * num_lanes_per_lport <= j < subport_idx * num_lanes_per_lport),
                lanes@ == want.take(i as int),
            decreases n - i,
        {
            let at: i64 = i as i64;
            lanes.push(subport_idx == 0 || (start <= at && at < end));
            i += 1;
            assert(want.take(i as int) =~= want.take(i - 1).push(want[i - 1]));
        }
        assert(want.take(i as int) =~= want);
        Some(lanes)
    }

    /// Whether the host side of a port is ready.
    pub fn get_host_tx_status<T: DbTable>(
        &self,
        lport: &str,
        asic_index: usize,
        th: &XcvrTableHelper<T>,
    ) -> (r: String)
        ensures
            r@ == host_tx_at(th.rows(), asic_index, lport@),
    {
        if asic_index < th.asics.len() {
            match th.asics[asic_index].state_port.hget(lport, "host_tx_ready") {
                Some(s) => s,
                None => crate::text::owned("false"),
            }
        } else {
            crate::text::owned("false")
        }
    }

    /// Whether a port is up.
    pub fn get_admin_status<T: DbTable>(
        &self,
        lport: &str,
        asic_index: usize,
        th: &XcvrTableHelper<T>,
    ) -> (r: String)
        ensures
            r@ == admin_at(th.rows(), asic_index, lport@),
    {
        if asic_index < th.asics.len() {
            match th.asics[asic_index].cfg_port.hget(lport, "admin_status") {
                Some(s) => s,
                None => crate::text::owned("down"),
            }
        } else {
            crate::text::owned("down")
        }
    }

    /// Where an owned lane differs from the target.
    pub fn calculate_tx_disable_delta_array(
        &self,
        cur_tx_disable_array: &Vec<bool>,
        tx_disable_flag: bool,
        active_lanes: &Vec<bool>,
    ) -> (r: Vec<bool>)
        ensures
            r@ == lane_deltas(cur_tx_disable_array@, tx_disable_flag, active_lanes@),
    {
        let ghost want = lane_deltas(cur_tx_disable_array@, tx_disable_flag, active_lanes@);
        let mut r: Vec<bool> = Vec::new();
        let mut i: usize = 0;
        while i < active_lanes.len() && i < cur_tx_disable_array.len()
            invariant
                i <= active_lanes@.len(),
                i <= cur_tx_disable_array@.len(),
                want == lane_deltas(cur_tx_disable_array@, tx_disable_flag, active_lanes@),
                r@ == want.take(i as int),
            decreases active_lanes.len() - i,
        {
            r.push(active_lanes[i] && tx_disable_flag != cur_tx_disable_array[i]);
            i += 1;
            assert(want.take(i as int) =~= want.take(i - 1).push(want[i - 1]));
        }
        assert(want.take(i as int) =~= want);
        r
    }

    /// The mask with a bit for each set flag.
    pub fn convert_bool_array_to_bit_mask(&self, bool_array: &Vec<bool>) -> (r: u32)
        requires
            fits_mask(bool_array@),
        ensures
            r == mask_of(bool_array@),
    {
        let ghost b = bool_array@;
        let mut mask: u32 = 0;
        let mut i: usize = 0;
        assert(b.take(0) =~= Seq::<bool>::empty());
        while i < bool_array.len()
            invariant
                i <= b.len(),
                b == bool_array@,
                fits_mask(b),
                mask == mask_of(b.take(i as int)),
            decreases bool_array.len() - i,
        {
            assert(b.take(i + 1).drop_last() =~= b.take(i as int));
            if bool_array[i] {
                mask = mask | (1u32 << (i as u32));
            }
            i += 1;
        }
        assert(b.take(i as int) =~= b);
        mask
    }

    /// Gives a module of class 5 or higher the power of its class.
    pub fn enable_high_power_class<A: SffApi>(&self, api: &mut A, _lport: &str)
        requires
            old(api).ready(),
        ensures
            final(api).ready(),
            final(api).trace() == high_power_enabled(old(api).trace()),
    {
        match api.get_power_class() {
            Some(power_class) => {
                if power_class >= 5 {
                    let _ = api.set_high_power_class(power_class, true);
                }
            },
            None => {},
        }
    }

    /// Takes in an event.
    pub fn on_port_update_event(&mut self, ev: &PortChangeEvent)
        requires
            old(self).wf(),
        ensures
            final(self).wf(),
            final(self).ports() == after_event(old(self).ports(), ev@),
            final(self).order() == order_after_event(old(self).order(), ev@),
            final(self).prev() == old(self).prev(),
    {
        if !starts_with(ev.port_name.as_str(), "Ethernet") {
            return;
        }
        let ghost before = self.port_dict@;
        match ev.event_type {
            PortChangeEventType::PortSet => {
                let mut entry = match self.port_dict.get(&ev.port_name) {
                    Some(i) => copy_info(i),
                    None => SffPortInfo::default(),
                };
                let ghost known = entry@;
                assert(self.ports().dom().contains(ev@.port_name) ==> known.wf());
                match ev.physical_port {
                    Some(p) => {
                        entry.index = Some(p as i64);
                    },
                    None => {},
                }
                match ev.carried("subport") {
                    Some(v) => {
                        entry.subport = Some(v);
                    },
                    None => {},
                }
                match ev.carried("lanes") {
                    Some(v) => {
                        entry.lanes = Some(split(v.as_str(), ','));
                    },
                    None => {},
                }
                match ev.carried("host_tx_ready") {
                    Some(v) => {
                        entry.host_tx_ready = Some(v);
                    },
                    None => {},
                }
                match ev.carried("admin_status") {
                    Some(v) => {
                        entry.admin_status = Some(v);
                    },
                    None => {},
                }
                match ev.carried("type") {
                    Some(v) => {
                        entry.xcvr_type = Some(v);
                    },
                    None => {},
                }
                entry.asic_id = ev.asic_id;
                assert(entry@ == known.told(ev@));
                self.port_dict.insert(ev.port_name.clone(), entry);
                assert(infos(self.port_dict@) =~= infos(before).insert(ev@.port_name, known.told(ev@)));
            },
            PortChangeEventType::PortDel => {
                if str_eq(ev.db_name.as_str(), "CONFIG_DB") {
                    let _ = self.port_dict.remove(&ev.port_name);
                    assert(infos(self.port_dict@) =~= infos(before).remove(ev@.port_name));
                } else if str_eq(ev.table_name.as_str(), "TRANSCEIVER_INFO") {
                    self.clear_xcvr_type(ev.port_name.as_str());
                }
            },
            _ => {},
        }
    }

    fn clear_xcvr_type(&mut self, lport: &str)
        requires
            old(self).wf(),
        ensures
            final(self).wf(),
            final(self).ports() == (if old(self).ports().dom().contains(lport@) {
                old(self).ports().insert(lport@, old(self).ports()[lport@].emptied())
            } else {
                old(self).ports()
            }),
            final(self).prev() == old(self).prev(),
            final(self).order() == old(self).order(),
    {
        let ghost before = self.port_dict@;
        let name = crate::text::owned(lport);
        let entry = match self.port_dict.get(&name) {
            Some(i) => copy_info(i),
            None => {
                return;
            },
        };
        let ghost known = entry@;
        assert(self.ports().dom().contains(lport@));
        let entry = SffPortInfo { xcvr_type: None, ..entry };
        self.port_dict.insert(name, entry);
        assert(infos(self.port_dict@) =~= infos(before).insert(lport@, known.emptied()));
    }

    /// Goes through one port.
    pub fn process_single_lport<T: DbTable, H: Hal, F: SffApiFactory>(
        &mut self,
        lport: &str,
        th: &XcvrTableHelper<T>,
        hal: &mut H,
        factory: &mut F,
    )
        requires
            old(self).wf(),
            old(self).ports().dom().contains(lport@),
        ensures
            final(self).wf(),
            final(self).order() == old(self).order(),
            final(self).prev() == old(self).prev(),
            final(self).ports().dom() == old(self).ports().dom(),
            (SffState {
                ports: final(self).ports(),
                world: final(hal).trace(),
                apis: final(factory).apis(),
            }) == port_swept(
                (SffState {
                    ports: old(self).ports(),
                    world: old(hal).trace(),
                    apis: old(factory).apis(),
                }),
                old(self).prev(),
                th.rows(),
                lport@,
            ),
    {
        let name = crate::text::owned(lport);
        let ghost before = self.port_dict@;
        let info = match self.port_dict.get(&name) {
            Some(i) => copy_info(i),
            None => {
                return;
            },
        };
        let slot = match info.index {
            Some(p) => if p >= 0 {
                p as usize
            } else {
                return;
            },
            None => {
                return;
            },
        };
        if info.lanes.is_none() || info.xcvr_type.is_none() {
            return;
        }
        let present = match hal.get_presence(slot) {
            Some(p) => p,
            None => false,
        };
        if !present {
            self.clear_xcvr_type(lport);
            assert(self.ports().dom() =~= infos(before).dom());
            return;
        }
        let mut api = match factory.open(slot) {
            Some(a) => a,
            None => {
                return;
            },
        };
        let prev = match self.port_dict_prev.get(&name) {
            Some(i) => Some(copy_info(i)),
            None => None,
        };
        let host_db = self.get_host_tx_status(lport, info.asic_id, th);
        let admin_db = self.get_admin_status(lport, info.asic_id, th);
        let next = self.bring_up(info, prev, host_db, admin_db, &mut api, lport);
        let ghost known = next@;
        self.port_dict.insert(name, next);
        assert(infos(self.port_dict@) =~= infos(before).insert(lport@, known));
        assert(self.ports().dom() =~= infos(before).dom());
        factory.close(slot, api);
        assert(factory.apis() =~= old(factory).apis().insert(slot, api.trace()));
    }

    /// Brings the module of a port up that a sweep has reached.
    fn bring_up<A: SffApi>(
        &self,
        info: SffPortInfo,
        prev: Option<SffPortInfo>,
        host_db: String,
        admin_db: String,
        api: &mut A,
        lport: &str,
    ) -> (r: SffPortInfo)
        requires
            old(api).ready(),
            info@.wf(),
            info@.lanes is Some,
        ensures
            final(api).ready(),
            r@.wf(),
            (r@, final(api).trace()) == brought_up(
                info@,
                match prev {
                    Some(p) => Some(p@),
                    None => None,
                },
                host_db@,
                admin_db@,
                old(api).trace(),
            ),
    {
        if api.is_cmis() {
            return info;
        }
        let host = match &info.host_tx_ready {
            Some(s) => s.clone(),
            None => host_db,
        };
        let admin = match &info.admin_status {
            Some(s) => s.clone(),
            None => admin_db,
        };
        let inserted = match &prev {
            Some(p) => p.xcvr_type.is_none(),
            None => true,
        };
        let host_changed = match &prev {
            Some(p) => match &p.host_tx_ready {
                Some(s) => !str_eq(s.as_str(), host.as_str()),
                None => true,
            },
            None => true,
        };
        let admin_changed = match &prev {
            Some(p) => match &p.admin_status {
                Some(s) => !str_eq(s.as_str(), admin.as_str()),
                None => true,
            },
            None => true,
        };
        let filled = SffPortInfo {
            host_tx_ready: Some(host.clone()),
            admin_status: Some(admin.clone()),
            ..info
        };
        if !inserted && !host_changed && !admin_changed {
            return filled;
        }
        let power = inserted || (admin_changed && str_eq(admin.as_str(), "up"));
        self.drive(filled, host, admin, power, api, lport)
    }

    /// Powers the module up where `power` says so and brings its transmitters to
    /// the target.
    fn drive<A: SffApi>(
        &self,
        info: SffPortInfo,
        host: String,
        admin: String,
        power: bool,
        api: &mut A,
        lport: &str,
    ) -> (r: SffPortInfo)
        requires
            old(api).ready(),
            info@.wf(),
            info@.lanes is Some,
        ensures
            final(api).ready(),
            r@.wf(),
            (r@, final(api).trace()) == driven(info@, host@, admin@, power, old(api).trace()),
    {
        match api.is_copper() {
            Some(false) => {},
            _ => {
                return info;
            },
        }
        match api.get_tx_disable_support() {
            Some(true) => {},
            _ => {
                return info;
            },
        }
        if power {
            self.enable_high_power_class(api, lport);
            if api.get_lpmode_support() {
                let _ = api.set_lpmode(false);
            }
        }
        let subport: i64 = match &info.subport {
            Some(s) => match parse_i64(trim(s.as_str()).as_str()) {
                Some(n) => n,
                None => 0,
            },
            None => 0,
        };
        let lanes: i64 = match &info.lanes {
            Some(v) => {
                assert(texts(v@).len() == v@.len());
                v.len() as i64
            },
            None => 0,
        };
        let known = match &info.active_lanes {
            Some(a) => {
                let c = a.clone();
                assert(c@ =~= a@);
                Some(c)
            },
            None => self.get_active_lanes_for_lport(
                lport,
                subport,
                lanes,
                DEFAULT_NUM_LANES_PER_PPORT,
            ),
        };
        let active = match known {
            Some(a) => a,
            None => {
                return info;
            },
        };
        let off = !(str_eq(host.as_str(), "true") && str_eq(admin.as_str(), "up"));
        let current = match api.get_tx_disable() {
            Some(c) => c,
            None => {
                let mut c: Vec<bool> = Vec::new();
                c.push(!off);
                c.push(!off);
                c.push(!off);
                c.push(!off);
                assert(c@ =~= seq![!off, !off, !off, !off]);
                c
            },
        };
        let delta = self.calculate_tx_disable_delta_array(&current, off, &active);
        let mask = self.convert_bool_array_to_bit_mask(&delta);
        if mask != 0 {
            let _ = api.tx_disable_channel(mask, off);
        }
        SffPortInfo { active_lanes: Some(active), ..info }
    }

    /// Goes through all known ports, up to where a stop is asked for, and keeps
    /// what is then known of them for the next sweep.
    pub fn process_ports_once<T: DbTable, H: Hal, F: SffApiFactory>(
        &mut self,
        th: &XcvrTableHelper<T>,
        hal: &mut H,
        factory: &mut F,
    )
        requires
            old(self).wf(),
        ensures
            final(self).wf(),
            old(self).sweeps_to(
                final(self),
                th.rows(),
                old(hal).trace(),
                old(factory).apis(),
                final(hal).trace(),
                final(factory).apis(),
            ),
    {
        let ghost rows = th.rows();
        let ghost prev = self.prev();
        let ghost order = self.order();
        let ghost start = SffState {
            ports: self.ports(),
            world: hal.trace(),
            apis: factory.apis(),
        };
        let n = self.port_dict.len();
        let mut i: usize = 0;
        let mut stopped = false;
        assert(order.skip(0) =~= order);
        assert(forall|k: Seq<char>| #[trigger]
            self.ports().dom().contains(k) <==> self.port_dict@.dom().contains(k));
        while i < n && !stopped
            invariant
                i <= n,
                n == order.len(),
                rows == th.rows(),
                self.wf(),
                self.order() == order,
                self.prev() == prev,
                forall|k: Seq<char>| #[trigger]
                    self.ports().dom().contains(k) <==> order.contains(k),
                swept(start, prev, rows, order) == (if stopped {
                    (SffState {
                        ports: self.ports(),
                        world: hal.trace(),
                        apis: factory.apis(),
                    })
                } else {
                    swept(
                        (SffState {
                            ports: self.ports(),
                            world: hal.trace(),
                            apis: factory.apis(),
                        }),
                        prev,
                        rows,
                        order.skip(i as int),
                    )
                }),
            decreases n - i + (if stopped {
                0int
            } else {
                1int
            }),
        {
            assert(order.skip(i as int)[0] == order[i as int]);
            assert(order.skip(i as int).skip(1) =~= order.skip(i + 1));
            if hal.stop_requested() {
                stopped = true;
            } else {
                let name = self.port_dict.key_at(i).clone();
                assert(order.contains(order[i as int]));
                self.process_single_lport(name.as_str(), th, hal, factory);
                i += 1;
            }
        }
        self.port_dict_prev = copy_ports(&self.port_dict);
    }

    /// Takes in a list of events.
    fn take_events(&mut self, events: &Vec<PortChangeEvent>)
        requires
            old(self).wf(),
        ensures
            final(self).wf(),
            final(self).ports() == after_events(old(self).ports(), event_views(events@)),
            final(self).order() == order_after_events(old(self).order(), event_views(events@)),
            final(self).prev() == old(self).prev(),
    {
        let ghost e = event_views(events@);
        let mut i: usize = 0;
        assert(e.take(0) =~= Seq::<EventView>::empty());
        while i < events.len()
            invariant
                i <= events@.len(),
                e == event_views(events@),
                self.wf(),
                self.prev() == old(self).prev(),
                self.ports() == after_events(old(self).ports(), e.take(i as int)),
                self.order() == order_after_events(old(self).order(), e.take(i as int)),
            decreases events.len() - i,
        {
            assert(e.take(i + 1).drop_last() =~= e.take(i as int));
            self.on_port_update_event(&events[i]);
            i += 1;
        }
        assert(e.take(i as int) =~= e);
    }

    /// Takes in a list of events and, where there was any, goes through all
    /// ports.
    pub fn serve_events<T: DbTable, H: Hal, F: SffApiFactory>(
        &mut self,
        events: &Vec<PortChangeEvent>,
        th: &XcvrTableHelper<T>,
        hal: &mut H,
        factory: &mut F,
    )
        requires
            old(self).wf(),
        ensures
            final(self).wf(),
            final(self).order() == order_after_events(old(self).order(), event_views(events@)),
            final(self).prev() == (if events@.len() == 0 {
                old(self).prev()
            } else {
                final(self).ports()
            }),
            (SffState {
                ports: final(self).ports(),
                world: final(hal).trace(),
                apis: final(factory).apis(),
            }) == events_served(
                (SffState {
                    ports: old(self).ports(),
                    world: old(hal).trace(),
                    apis: old(factory).apis(),
                }),
                old(self).prev(),
                old(self).order(),
                th.rows(),
                event_views(events@),
            ),
    {
        self.take_events(events);
        if events.len() > 0 {
            self.process_ports_once(th, hal, factory);
        }
    }

    /// One round of the task: waits for port updates and serves them. Returns
    /// whether the task goes on: it ends where a stop is asked for and where
    /// nothing delivers updates.
    pub fn step<T: DbTable, H: Hal, F: SffApiFactory>(
        &mut self,
        th: &XcvrTableHelper<T>,
        hal: &mut H,
        factory: &mut F,
    ) -> (r: bool)
        requires
            old(self).wf(),
        ensures
            final(self).wf(),
            ({
                let w1 = old(hal).trace().then_ask(Ask::Stop);
                let w2 = w1.then_ask(Ask::Updates(PORT_UPDATE_SELECT_TIMEOUT_MS));
                let stop = old(hal).trace().stop();
                let updates = w1.updates(PORT_UPDATE_SELECT_TIMEOUT_MS);
                if stop || updates is None {
                    &&& !r
                    &&& final(self).ports() == old(self).ports()
                    &&& final(self).prev() == old(self).prev()
                    &&& final(self).order() == old(self).order()
                    &&& final(hal).trace() == (if stop {
                        w1
                    } else {
                        w2
                    })
                    &&& final(factory).apis() == old(factory).apis()
                } else {
                    let events = updates->0;
                    &&& r
                    &&& final(self).order() == order_after_events(old(self).order(), events)
                    &&& final(self).prev() == (if events.len() == 0 {
                        old(self).prev()
                    } else {
                        final(self).ports()
                    })
                    &&& (SffState {
                        ports: final(self).ports(),
                        world: final(hal).trace(),
                        apis: final(factory).apis(),
                    }) == events_served(
                        (SffState {
                            ports: old(self).ports(),
                            world: w2,
                            apis: old(factory).apis(),
                        }),
                        old(self).prev(),
                        old(self).order(),
                        th.rows(),
                        events,
                    )
                }
            }),
    {
        if hal.stop_requested() {
            return false;
        }
        match hal.port_updates(PORT_UPDATE_SELECT_TIMEOUT_MS) {
            Some(events) => {
                self.serve_events(&events, th, hal, factory);
                true
            },
            None => false,
        }
    }
}

// ---- laws ----

/// A port of which nothing has changed since the last sweep is not touched: its
/// module is only asked what it is.
pub proof fn unchanged_port_is_left_alone(
    info: SffInfo,
    host_db: Seq<char>,
    admin_db: Seq<char>,
    t: SffTrace,
)
    requires
        info.xcvr_type is Some,
        info.host_tx_ready is Some,
        info.admin_status is Some,
    ensures
        brought_up(info, Some(info), host_db, admin_db, t) == (
            info,
            t.then_call(SffCall::IsCmis),
        ),
{
}

/// A module that belongs to another manager is only asked what it is, and what
/// is known of its port stays.
pub proof fn cmis_module_is_left_alone(
    info: SffInfo,
    prev: Option<SffInfo>,
    host_db: Seq<char>,
    admin_db: Seq<char>,
    t: SffTrace,
)
    requires
        (t.answers.is_cmis)(t.calls),
    ensures
        brought_up(info, prev, host_db, admin_db, t) == (info, t.then_call(SffCall::IsCmis)),
{
}

/// Whether a call switches transmitters.
pub open spec fn switches_tx(c: SffCall) -> bool {
    c is TxDisableChannel
}

/// Whenever a sweep switches transmitters, it switches them on exactly where
/// the host side is ready and the port is up, and off otherwise.
pub proof fn tx_follows_host_and_admin(
    info: SffInfo,
    prev: Option<SffInfo>,
    host_db: Seq<char>,
    admin_db: Seq<char>,
    t: SffTrace,
    i: int,
)
    ensures
        ({
            let r = brought_up(info, prev, host_db, admin_db, t);
            t.calls.len() <= i < r.1.calls.len() && switches_tx(r.1.calls[i]) ==> {
                &&& r.0.host_tx_ready is Some
                &&& r.0.admin_status is Some
                &&& r.1.calls[i]->TxDisableChannel_1 == !(r.0.host_tx_ready == Some("true"@)
                    && r.0.admin_status == Some("up"@))
            }
        }),
{
}

/// The lanes that are switched off, as the interface answered after `calls`;
/// where it gave no answer every lane counts as not yet at the target.
pub open spec fn lanes_off(t: SffTrace, calls: Seq<SffCall>, target: bool) -> Seq<bool> {
    match (t.answers.tx_disable)(calls) {
        Some(c) => c,
        None => seq![!target, !target, !target, !target],
    }
}

/// Whether call `i` after `before` is a switch of transmitters as it should be:
/// the last call of the port's turn, on a module that is neither CMIS nor copper
/// and whose transmitters can be switched off, toward the target, with exactly
/// the owned lanes that differ from it, of which there is one.
pub open spec fn rightly_switched(
    info: SffInfo,
    before: SffTrace,
    after: SffTrace,
    i: int,
) -> bool {
    let n = before.calls.len() as int;
    let c = after.calls;
    let mask = c[i]->TxDisableChannel_0;
    let off = c[i]->TxDisableChannel_1;
    let current = lanes_off(before, c.take(i - 1), off);
    &&& switches_tx(c[i])
    &&& i == c.len() - 1
    &&& n + 4 <= i
    &&& c.take(n) == before.calls
    &&& c[n] == SffCall::IsCmis && !(before.answers.is_cmis)(c.take(n))
    &&& c[n + 1] == SffCall::IsCopper && (before.answers.is_copper)(c.take(n + 1)) == Some(false)
    &&& c[n + 2] == SffCall::GetTxDisableSupport && (before.answers.tx_disable_support)(
        c.take(n + 2),
    ) == Some(true)
    &&& c[i - 1] == SffCall::GetTxDisable
    &&& info.host_tx_ready is Some && info.admin_status is Some
    &&& off == tx_target(info.host_tx_ready->0, info.admin_status->0)
    &&& info.active_lanes is Some && info.active_lanes->0.len() == 4
    &&& mask != 0
    &&& forall|k: u32|
        #![trigger (1u32 << k)]
        k < 32 ==> (mask & (1u32 << k) != 0) == (k < 4 && k < current.len()
            && info.active_lanes->0[k as int] && current[k as int] != off)
}

proof fn powering_up_switches_nothing(t: SffTrace)
    ensures
        powered_up(t).answers == t.answers,
        t.calls.len() <= powered_up(t).calls.len(),
        powered_up(t).calls.take(t.calls.len() as int) == t.calls,
        forall|i: int|
            t.calls.len() <= i < powered_up(t).calls.len() ==> !switches_tx(
                #[trigger] powered_up(t).calls[i],
            ),
{
    let c = powered_up(t).calls;
    assert(c.take(t.calls.len() as int) =~= t.calls);
}

proof fn driving_switches_rightly(t: SffTrace, off: bool, active: Seq<bool>, k: u32)
    requires
        active.len() == 4,
        k < 32,
    ensures
        (mask_of(lane_deltas(lanes_off(t, t.calls, off), off, active)) & (1u32 << k) != 0) == (k
            < 4 && k < lanes_off(t, t.calls, off).len() && active[k as int] && lanes_off(
            t,
            t.calls,
            off,
        )[k as int] != off),
{
    mask_has_the_flags(lane_deltas(lanes_off(t, t.calls, off), off, active), k);
}

/// The turn of a port switches transmitters at most once, and rightly: where it
/// does, the switch is the last call of the turn.
pub proof fn port_is_switched_once_and_rightly(
    info: SffInfo,
    prev: Option<SffInfo>,
    host_db: Seq<char>,
    admin_db: Seq<char>,
    t: SffTrace,
    i: int,
)
    requires
        info.wf(),
        info.lanes is Some,
        t.calls.len() <= i < brought_up(info, prev, host_db, admin_db, t).1.calls.len(),
        switches_tx(brought_up(info, prev, host_db, admin_db, t).1.calls[i]),
    ensures
        rightly_switched(
            brought_up(info, prev, host_db, admin_db, t).0,
            t,
            brought_up(info, prev, host_db, admin_db, t).1,
            i,
        ),
{
    let r = brought_up(info, prev, host_db, admin_db, t);
    let n = t.calls.len() as int;
    let host = r.0.host_tx_ready->0;
    let admin = r.0.admin_status->0;
    let t1 = t.then_call(SffCall::IsCmis);
    let t2 = t1.then_call(SffCall::IsCopper);
    let t3 = t2.then_call(SffCall::GetTxDisableSupport);
    let admin_changed = match prev {
        Some(p) => p.admin_status != Some(admin),
        None => true,
    };
    let inserted = match prev {
        Some(p) => p.xcvr_type is None,
        None => true,
    };
    let power = inserted || (admin_changed && admin == "up"@);
    let t4 = if power {
        powered_up(t3)
    } else {
        t3
    };
    powering_up_switches_nothing(t3);
    let c = r.1.calls;
    let m = t4.calls.len() as int;
    assert(t4.calls.take(n + 3) =~= t3.calls);
    assert forall|k: int| n + 3 <= k < m implies !switches_tx(#[trigger] t4.calls[k]) by {}
    let a = r.0.active_lanes->0;
    let off = tx_target(host, admin);
    assert(r.1 == tx_driven(t4, off, a));
    assert(c.take(m) =~= t4.calls);
    assert(i == m + 1);
    assert(c.take(i - 1) =~= t4.calls);
    assert(c.take(n) =~= t.calls);
    assert(c.take(n + 1) =~= t1.calls);
    assert(c.take(n + 2) =~= t2.calls);
    assert(c[n] == t4.calls[n] && t4.calls[n] == t4.calls.take(n + 3)[n]);
    assert(c[n + 1] == t4.calls[n + 1] && t4.calls[n + 1] == t4.calls.take(n + 3)[n + 1]);
    assert(c[n + 2] == t4.calls[n + 2] && t4.calls[n + 2] == t4.calls.take(n + 3)[n + 2]);
    assert forall|k: u32|
        #![trigger (1u32 << k)]
        k < 32 implies (c[i]->TxDisableChannel_0 & (1u32 << k) != 0) == (k < 4 && k < lanes_off(
        t,
        c.take(i - 1),
        off,
    ).len() && a[k as int] && lanes_off(t, c.take(i - 1), off)[k as int] != off) by {
        driving_switches_rightly(t4, off, a, k);
    }
}

/// Going through one port calls no interface but that of the port's own slot,
/// and switches its transmitters at most once, and rightly.
pub proof fn port_sweep_switches_rightly(
    s: SffState,
    prev: Map<Seq<char>, SffInfo>,
    rows: Seq<AsicRows>,
    name: Seq<char>,
    slot: usize,
    i: int,
)
    requires
        s.ports.dom().contains(name),
        s.ports[name].wf(),
        s.apis.dom().contains(slot),
    ensures
        port_swept(s, prev, rows, name).apis.dom() == s.apis.dom(),
        ({
            let after = port_swept(s, prev, rows, name);
            &&& !(s.ports[name].index matches Some(p) && p >= 0 && p as usize == slot)
                ==> after.apis[slot] == s.apis[slot]
            &&& s.apis[slot].calls.len() <= i < after.apis[slot].calls.len() && switches_tx(
                after.apis[slot].calls[i],
            ) ==> rightly_switched(after.ports[name], s.apis[slot], after.apis[slot], i)
        }),
{
    let info = s.ports[name];
    let after = port_swept(s, prev, rows, name);
    assert(after.apis.dom() =~= s.apis.dom());
    if s.apis[slot].calls.len() <= i < after.apis[slot].calls.len() && switches_tx(
        after.apis[slot].calls[i],
    ) {
        let before = if prev.dom().contains(name) {
            Some(prev[name])
        } else {
            None
        };
        port_is_switched_once_and_rightly(
            info,
            before,
            host_tx_at(rows, info.asic_id, name),
            admin_at(rows, info.asic_id, name),
            s.apis[slot],
            i,
        );
    }
}

// ---- a second sweep ----

/// Whether a world is never asked to stop and no module comes or goes in it.
pub open spec fn quiet_world(t: Trace) -> bool {
    &&& forall|a: Seq<Ask>| !#[trigger] (t.answers.stop)(a)
    &&& forall|a: Seq<Ask>, b: Seq<Ask>, p: usize|
        #[trigger] (t.answers.presence)(a, p) == #[trigger] (t.answers.presence)(b, p)
}

/// Whether each interface always gives the same answer to what it is.
pub open spec fn same_modules(apis: Apis) -> bool {
    forall|p: usize, a: Seq<SffCall>, b: Seq<SffCall>|
        apis.dom().contains(p) ==> #[trigger] (apis[p].answers.is_cmis)(a) == #[trigger] (
        apis[p].answers.is_cmis)(b)
}

/// Whether a sweep has nothing to do for a port: no module is known or reached
/// through it, the module belongs to another manager, or all that drives it is
/// known.
spec fn settled(s: SffState, info: SffInfo) -> bool {
    if !(info.index matches Some(p) && p >= 0) || info.lanes is None || info.xcvr_type is None {
        true
    } else {
        let p = info.index->0 as usize;
        &&& s.world.present(p)
        &&& s.apis.dom().contains(p) && !(s.apis[p].answers.is_cmis)(s.apis[p].calls)
            ==> info.host_tx_ready is Some && info.admin_status is Some
    }
}

/// Whether the second state goes on from the first: the same world and the same
/// modules, asked more.
spec fn goes_on(a: SffState, b: SffState) -> bool {
    &&& b.world.answers == a.world.answers
    &&& b.apis.dom() == a.apis.dom()
    &&& forall|p: usize| #[trigger]
        a.apis.dom().contains(p) ==> b.apis[p].answers == a.apis[p].answers
}

proof fn port_sweep_goes_on(
    s: SffState,
    prev: Map<Seq<char>, SffInfo>,
    rows: Seq<AsicRows>,
    name: Seq<char>,
)
    ensures
        goes_on(s, port_swept(s, prev, rows, name)),
{
    assert(port_swept(s, prev, rows, name).apis.dom() =~= s.apis.dom());
}

proof fn settled_stays(a: SffState, b: SffState, info: SffInfo)
    requires
        quiet_world(a.world),
        same_modules(a.apis),
        goes_on(a, b),
        settled(a, info),
    ensures
        settled(b, info),
        quiet_world(b.world),
        same_modules(b.apis),
{
    if info.index matches Some(p) && p >= 0 {
        let p = info.index->0 as usize;
        assert((a.world.answers.presence)(a.world.asked, p) == (a.world.answers.presence)(
            b.world.asked,
            p,
        ));
        if a.apis.dom().contains(p) {
            assert((a.apis[p].answers.is_cmis)(a.apis[p].calls) == (a.apis[p].answers.is_cmis)(
                b.apis[p].calls,
            ));
        }
    }
    quiet_goes_on(a, b);
}

proof fn quiet_goes_on(a: SffState, b: SffState)
    requires
        quiet_world(a.world),
        same_modules(a.apis),
        goes_on(a, b),
    ensures
        quiet_world(b.world),
        same_modules(b.apis),
{
    assert forall|p: usize, x: Seq<SffCall>, y: Seq<SffCall>|
        b.apis.dom().contains(p) implies #[trigger] (b.apis[p].answers.is_cmis)(x)
        == #[trigger] (b.apis[p].answers.is_cmis)(y) by {
        assert(a.apis.dom().contains(p));
        assert((a.apis[p].answers.is_cmis)(x) == (a.apis[p].answers.is_cmis)(y));
    }
}

proof fn port_sweep_settles(
    s: SffState,
    prev: Map<Seq<char>, SffInfo>,
    rows: Seq<AsicRows>,
    name: Seq<char>,
)
    requires
        quiet_world(s.world),
        same_modules(s.apis),
    ensures
        settled(
            port_swept(s, prev, rows, name),
            port_swept(s, prev, rows, name).ports[name],
        ),
{
    let info = s.ports[name];
    let after = port_swept(s, prev, rows, name);
    port_sweep_goes_on(s, prev, rows, name);
    if info.index matches Some(p) && p >= 0 && info.lanes is Some && info.xcvr_type is Some {
        let p = info.index->0 as usize;
        assert((s.world.answers.presence)(s.world.asked, p) == (s.world.answers.presence)(
            after.world.asked,
            p,
        ));
        if s.apis.dom().contains(p) {
            assert((s.apis[p].answers.is_cmis)(s.apis[p].calls) == (s.apis[p].answers.is_cmis)(
                after.apis[p].calls,
            ));
        }
    }
}

proof fn sweep_settles(
    s: SffState,
    prev: Map<Seq<char>, SffInfo>,
    rows: Seq<AsicRows>,
    names: Seq<Seq<char>>,
    name: Seq<char>,
)
    requires
        quiet_world(s.world),
        same_modules(s.apis),
    ensures
        goes_on(s, swept(s, prev, rows, names)),
        names.contains(name) || settled(s, s.ports[name]) ==> settled(
            swept(s, prev, rows, names),
            swept(s, prev, rows, names).ports[name],
        ),
    decreases names.len(),
{
    if names.len() > 0 {
        let asked = SffState { world: s.world.then_ask(Ask::Stop), ..s };
        let next = port_swept(asked, prev, rows, names[0]);
        assert(!(s.world.answers.stop)(s.world.asked));
        assert(goes_on(s, asked));
        quiet_goes_on(s, asked);
        port_sweep_goes_on(asked, prev, rows, names[0]);
        quiet_goes_on(asked, next);
        port_sweep_settles(asked, prev, rows, names[0]);
        if names[0] != name {
            port_sweep_is_local(asked, prev, rows, names[0], name);
            if settled(s, s.ports[name]) {
                settled_stays(s, asked, s.ports[name]);
                settled_stays(asked, next, s.ports[name]);
            }
        }
        if names.contains(name) && names[0] != name {
            let i = choose|i: int| 0 <= i < names.len() && names[i] == name;
            assert(names.skip(1)[i - 1] == name);
        }
        sweep_settles(next, prev, rows, names.skip(1), name);
    }
}

/// Whether the calls that came after `before` are only questions what the module
/// is.
pub open spec fn only_asked_what_it_is(before: SffTrace, after: SffTrace) -> bool {
    &&& before.calls.len() <= after.calls.len()
    &&& after.calls.take(before.calls.len() as int) == before.calls
    &&& forall|i: int|
        before.calls.len() <= i < after.calls.len() ==> #[trigger] after.calls[i]
            == SffCall::IsCmis
}

proof fn settled_sweep_does_nothing(
    s: SffState,
    rows: Seq<AsicRows>,
    names: Seq<Seq<char>>,
    slot: usize,
)
    requires
        quiet_world(s.world),
        same_modules(s.apis),
        forall|i: int|
            0 <= i < names.len() ==> s.ports.dom().contains(#[trigger] names[i]) && settled(
                s,
                s.ports[names[i]],
            ),
    ensures
        swept(s, s.ports, rows, names).ports == s.ports,
        swept(s, s.ports, rows, names).apis.dom() == s.apis.dom(),
        s.apis.dom().contains(slot) ==> only_asked_what_it_is(
            s.apis[slot],
            swept(s, s.ports, rows, names).apis[slot],
        ),
    decreases names.len(),
{
    if names.len() > 0 {
        let asked = SffState { world: s.world.then_ask(Ask::Stop), ..s };
        let next = port_swept(asked, s.ports, rows, names[0]);
        assert(!(s.world.answers.stop)(s.world.asked));
        assert(goes_on(s, asked));
        assert(s.ports.dom().contains(names[0]) && settled(s, s.ports[names[0]]));
        settled_stays(s, asked, s.ports[names[0]]);
        port_sweep_goes_on(asked, s.ports, rows, names[0]);
        quiet_goes_on(asked, next);
        assert(next.ports =~= s.ports);
        let rest = names.skip(1);
        assert forall|i: int| 0 <= i < rest.len() implies next.ports.dom().contains(
            #[trigger] rest[i],
        ) && settled(next, next.ports[rest[i]]) by {
            assert(rest[i] == names[i + 1]);
            assert(s.ports.dom().contains(names[i + 1]) && settled(s, s.ports[names[i + 1]]));
            settled_stays(s, asked, s.ports[rest[i]]);
            settled_stays(asked, next, s.ports[rest[i]]);
        }
        settled_sweep_does_nothing(next, rows, rest, slot);
        if s.apis.dom().contains(slot) {
            let a = s.apis[slot].calls;
            let b = next.apis[slot].calls;
            let c = swept(s, s.ports, rows, names).apis[slot].calls;
            assert(b == a || b == a.push(SffCall::IsCmis));
            assert(c.take(a.len() as int) =~= c.take(b.len() as int).take(a.len() as int));
            assert(b.take(a.len() as int) =~= a);
            assert forall|i: int| a.len() <= i < c.len() implies #[trigger] c[i]
                == SffCall::IsCmis by {
                if i < b.len() {
                    assert(c.take(b.len() as int)[i] == b[i]);
                }
            }
        }
    } else if s.apis.dom().contains(slot) {
        assert(s.apis[slot].calls.take(s.apis[slot].calls.len() as int) =~= s.apis[slot].calls);
    }
}

/// A second sweep after a full one, with no port event in between and the same
/// modules, controls nothing: each module is at most asked what it is, and what
/// is known of the ports stays as it was after the first sweep.
pub proof fn second_sweep_controls_nothing(
    s: SffState,
    prev: Map<Seq<char>, SffInfo>,
    first_rows: Seq<AsicRows>,
    second_rows: Seq<AsicRows>,
    order: Seq<Seq<char>>,
    slot: usize,
)
    requires
        quiet_world(s.world),
        same_modules(s.apis),
        forall|i: int| 0 <= i < order.len() ==> s.ports.dom().contains(#[trigger] order[i]),
    ensures
        ({
            let first = swept(s, prev, first_rows, order);
            let second = swept(first, first.ports, second_rows, order);
            &&& second.ports == first.ports
            &&& second.apis.dom() == first.apis.dom()
            &&& first.apis.dom().contains(slot) ==> only_asked_what_it_is(
                first.apis[slot],
                second.apis[slot],
            )
        }),
{
    let first = swept(s, prev, first_rows, order);
    sweep_settles(s, prev, first_rows, order, Seq::empty());
    quiet_goes_on(s, first);
    assert forall|i: int| 0 <= i < order.len() implies first.ports.dom().contains(
        #[trigger] order[i],
    ) && settled(first, first.ports[order[i]]) by {
        sweep_settles(s, prev, first_rows, order, order[i]);
        sweep_keeps_ports(s, prev, first_rows, order, order[i]);
    }
    settled_sweep_does_nothing(first, second_rows, order, slot);
}

/// A second sweep of a task, with no port event since the first and in a world in
/// which neither modules come or go nor a stop is asked for, controls nothing:
/// each module is at most asked what it is, and what is known of the ports stays
/// as it was and equals what is kept of the sweep.
pub proof fn second_round_controls_nothing(
    start: &SffManagerTask,
    first: &SffManagerTask,
    second: &SffManagerTask,
    rows: (Seq<AsicRows>, Seq<AsicRows>),
    world: (Trace, Trace, Trace, Trace),
    apis: (Apis, Apis, Apis),
    slot: usize,
)
    requires
        start.wf(),
        start.sweeps_to(first, rows.0, world.0, apis.0, world.1, apis.1),
        first.sweeps_to(second, rows.1, world.2, apis.1, world.3, apis.2),
        world.2.answers == world.1.answers,
        quiet_world(world.0),
        same_modules(apis.0),
    ensures
        second.ports() == first.ports(),
        second.prev() == second.ports(),
        second.order() == first.order(),
        apis.2.dom() == apis.1.dom(),
        apis.1.dom().contains(slot) ==> only_asked_what_it_is(apis.1[slot], apis.2[slot]),
{
    let order = start.order();
    let s = SffState { ports: start.ports(), world: world.0, apis: apis.0 };
    let done = swept(s, start.prev(), rows.0, order);
    let later = SffState { ports: first.ports(), world: world.2, apis: apis.1 };
    sweep_settles(s, start.prev(), rows.0, order, Seq::empty());
    quiet_goes_on(s, done);
    assert forall|i: int| 0 <= i < order.len() implies later.ports.dom().contains(
        #[trigger] order[i],
    ) && settled(later, later.ports[order[i]]) by {
        assert(order.contains(order[i]));
        sweep_settles(s, start.prev(), rows.0, order, order[i]);
        sweep_keeps_ports(s, start.prev(), rows.0, order, order[i]);
    }
    settled_sweep_does_nothing(later, rows.1, order, slot);
}

proof fn sweep_keeps_ports(
    s: SffState,
    prev: Map<Seq<char>, SffInfo>,
    rows: Seq<AsicRows>,
    names: Seq<Seq<char>>,
    name: Seq<char>,
)
    requires
        s.ports.dom().contains(name),
    ensures
        swept(s, prev, rows, names).ports.dom().contains(name),
    decreases names.len(),
{
    if names.len() > 0 {
        let asked = SffState { world: s.world.then_ask(Ask::Stop), ..s };
        if !s.world.stop() {
            sweep_keeps_ports(
                port_swept(asked, prev, rows, names[0]),
                prev,
                rows,
                names.skip(1),
                name,
            );
        }
    }
}

/// A sweep makes no call that was not there before on a slot without a module,
/// and it forgets the type of the module that was there.
pub proof fn absent_module_is_forgotten(
    s: SffState,
    prev: Map<Seq<char>, SffInfo>,
    rows: Seq<AsicRows>,
    name: Seq<char>,
)
    requires
        s.ports.dom().contains(name),
        s.ports[name].index matches Some(p) && p >= 0,
        s.ports[name].lanes is Some,
        s.ports[name].xcvr_type is Some,
        !s.world.present(s.ports[name].index->0 as usize),
    ensures
        port_swept(s, prev, rows, name).apis == s.apis,
        port_swept(s, prev, rows, name).ports == s.ports.insert(name, s.ports[name].emptied()),
{
}

/// Going through one port leaves what is known of every other port alone.
pub proof fn port_sweep_is_local(
    s: SffState,
    prev: Map<Seq<char>, SffInfo>,
    rows: Seq<AsicRows>,
    name: Seq<char>,
    other: Seq<char>,
)
    requires
        other != name,
    ensures
        port_swept(s, prev, rows, name).ports.dom().contains(other) == s.ports.dom().contains(
            other,
        ),
        port_swept(s, prev, rows, name).ports[other] == s.ports[other],
{
}

} // verus!
