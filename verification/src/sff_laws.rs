//! What the SFF manager is for: the transmitters of a port follow its host side
//! and its administrative state, a module is powered up when it comes or its port
//! goes up, and each call reaches the register that it is meant for.

use vstd::prelude::*;

use crate::assoc::{lists, without_leaves_the_others};
use crate::db::value_at;
use crate::hal::{Ask, SfpAsk, SfpTrace};
use crate::json::{field, ReplyView, Val, Vals};
use crate::port::{EventView, PortChangeEventType};
use crate::sff_api::{
    all_carried_out, carried_out, names_cmis_type, power_class_of, register_answers,
    tx_disable_byte_is_masked, SffAnswers, SffCall, SffTrace,
};
use crate::sff_mgr::{
    active_lanes, admin_at, after_event, after_events, brought_up, events_served, host_tx_at,
    lane_deltas, mask_has_the_flags, mask_of, order_after_event, order_after_events,
    port_sweep_is_local, port_swept, powered_up, swept, tx_driven, unknown_port, SffInfo,
    SffState,
};
use crate::tables::AsicRows;
use crate::text::{occurs_at, parsed_i64, parts, trimmed};

verus! {

// ---- one port ----

/// Whether an interface always tells of an optical module with an SFF memory map
/// whose transmitters can be switched off and now read as `current`.
pub open spec fn optical(a: SffAnswers, current: Option<Seq<bool>>) -> bool {
    &&& forall|h: Seq<SffCall>| !#[trigger] (a.is_cmis)(h)
    &&& forall|h: Seq<SffCall>| #[trigger] (a.is_copper)(h) == Some(false)
    &&& forall|h: Seq<SffCall>| #[trigger] (a.tx_disable_support)(h) == Some(true)
    &&& forall|h: Seq<SffCall>| #[trigger] (a.tx_disable)(h) == current
}

/// `told`, or `known` where nothing was told.
pub open spec fn told_or(told: Option<Seq<char>>, known: Seq<char>) -> Seq<char> {
    match told {
        Some(s) => s,
        None => known,
    }
}

/// Whether a port is not as the sweep before left it: its module was not there,
/// or its host side or its administrative state was another.
pub open spec fn has_changed(prev: Option<SffInfo>, host: Seq<char>, admin: Seq<char>) -> bool {
    match prev {
        None => true,
        Some(p) => p.xcvr_type is None || p.host_tx_ready != Some(host) || p.admin_status != Some(
            admin,
        ),
    }
}

/// Whether the module of a port is to be powered up: it has come, or the port has
/// gone up.
pub open spec fn to_power_up(prev: Option<SffInfo>, admin: Seq<char>) -> bool {
    match prev {
        None => true,
        Some(p) => p.xcvr_type is None || (admin == "up"@ && p.admin_status != Some(admin)),
    }
}

/// Whether a port owns the lanes `owned` of its slot.
pub open spec fn owns(info: SffInfo, owned: Seq<bool>) -> bool {
    match info.active_lanes {
        Some(a) => a == owned,
        None => info.lanes matches Some(l) && active_lanes(
            info.subport_number(),
            l.len() as i64,
            4,
        ) == Some(owned),
    }
}

/// Whether lane `k` is owned and does not stand as it should. Lanes that cannot be
/// read count as not standing so.
pub open spec fn stands_wrong(
    current: Option<Seq<bool>>,
    owned: Seq<bool>,
    off: bool,
    k: int,
) -> bool {
    &&& 0 <= k < owned.len() && owned[k]
    &&& match current {
        Some(c) => k < c.len() && c[k] != off,
        None => k < 4,
    }
}

/// Whether calls end with a look at the transmitters and, where a lane stands
/// wrong, with a switch of exactly the lanes that do.
pub open spec fn ends_with_the_switch(
    calls: Seq<SffCall>,
    current: Option<Seq<bool>>,
    owned: Seq<bool>,
    off: bool,
) -> bool {
    let n = calls.len() as int;
    if exists|k: int| stands_wrong(current, owned, off, k) {
        &&& n >= 2
        &&& calls[n - 2] == SffCall::GetTxDisable
        &&& calls[n - 1] matches SffCall::TxDisableChannel(mask, way) && way == off && (forall|
            k: u32,
        |
            k < 32 ==> (mask & #[trigger] (1u32 << k) != 0) == stands_wrong(
                current,
                owned,
                off,
                k as int,
            ))
    } else {
        n >= 1 && calls[n - 1] == SffCall::GetTxDisable
    }
}

proof fn no_flag_makes_no_mask(flags: Seq<bool>)
    requires
        forall|k: int| 0 <= k < flags.len() ==> !#[trigger] flags[k],
    ensures
        mask_of(flags) == 0,
    decreases flags.len(),
{
    if flags.len() > 0 {
        let d = flags.drop_last();
        assert forall|k: int| 0 <= k < d.len() implies !#[trigger] d[k] by {
            assert(!flags[k]);
        }
        no_flag_makes_no_mask(d);
    }
}

proof fn driving_ends_with_the_switch(
    t: SffTrace,
    current: Option<Seq<bool>>,
    owned: Seq<bool>,
    off: bool,
)
    requires
        optical(t.answers, current),
        owned.len() == 4,
    ensures
        ends_with_the_switch(tx_driven(t, off, owned).calls, current, owned, off),
{
    assert((t.answers.tx_disable)(t.calls) == current);
    let now = match current {
        Some(c) => c,
        None => seq![!off, !off, !off, !off],
    };
    let delta = lane_deltas(now, off, owned);
    let mask = mask_of(delta);
    assert forall|k: u32| k < 32 implies (mask & #[trigger] (1u32 << k) != 0) == stands_wrong(
        current,
        owned,
        off,
        k as int,
    ) by {
        mask_has_the_flags(delta, k);
    }
    if exists|k: int| stands_wrong(current, owned, off, k) {
        let k = choose|k: int| stands_wrong(current, owned, off, k);
        let b = k as u32;
        assert(stands_wrong(current, owned, off, b as int));
        assert(mask & (1u32 << b) != 0);
        assert(0u32 & (1u32 << b) == 0) by (bit_vector);
        assert(mask != 0);
    } else {
        assert forall|k: int| 0 <= k < delta.len() implies !#[trigger] delta[k] by {
            assert(!stands_wrong(current, owned, off, k));
        }
        no_flag_makes_no_mask(delta);
    }
}

/// The turn of a port that is not as the sweep before left it brings its lanes to
/// where they belong: on where the host side is ready and the port is up, off
/// otherwise. Where nothing has changed, no lane is looked at.
pub proof fn changed_port_is_driven(
    info: SffInfo,
    prev: Option<SffInfo>,
    host_db: Seq<char>,
    admin_db: Seq<char>,
    t: SffTrace,
    current: Option<Seq<bool>>,
    owned: Seq<bool>,
)
    requires
        info.wf(),
        info.lanes is Some,
        optical(t.answers, current),
        owns(info, owned),
    ensures
        ({
            let host = told_or(info.host_tx_ready, host_db);
            let admin = told_or(info.admin_status, admin_db);
            let off = !(host == "true"@ && admin == "up"@);
            let (known, after) = brought_up(info, prev, host_db, admin_db, t);
            &&& known.host_tx_ready == Some(host) && known.admin_status == Some(admin)
            &&& has_changed(prev, host, admin) ==> {
                &&& known.active_lanes == Some(owned)
                &&& ends_with_the_switch(after.calls, current, owned, off)
            }
            &&& !has_changed(prev, host, admin) ==> after.calls == t.calls.push(SffCall::IsCmis)
        }),
{
    let host = told_or(info.host_tx_ready, host_db);
    let admin = told_or(info.admin_status, admin_db);
    let off = !(host == "true"@ && admin == "up"@);
    let t1 = t.then_call(SffCall::IsCmis);
    let t2 = t1.then_call(SffCall::IsCopper);
    let t3 = t2.then_call(SffCall::GetTxDisableSupport);
    assert(!(t.answers.is_cmis)(t.calls));
    assert((t1.answers.is_copper)(t1.calls) == Some(false));
    assert((t2.answers.tx_disable_support)(t2.calls) == Some(true));
    assert(owned.len() == 4);
    driving_ends_with_the_switch(t3, current, owned, off);
    driving_ends_with_the_switch(powered_up(t3), current, owned, off);
}

/// Whether `c` is among the calls from place `from` on.
pub open spec fn called_since(calls: Seq<SffCall>, from: int, c: SffCall) -> bool {
    exists|i: int| from <= i < calls.len() && calls[i] == c
}

proof fn powering_up_calls(t: SffTrace, p: Option<i64>, lpmode: bool)
    requires
        forall|h: Seq<SffCall>| #[trigger] (t.answers.power_class)(h) == p,
        forall|h: Seq<SffCall>| #[trigger] (t.answers.lpmode_support)(h) == lpmode,
    ensures
        ({
            let c = powered_up(t).calls;
            let n = t.calls.len() as int;
            &&& n <= c.len() && c.take(n) == t.calls
            &&& (p matches Some(x) && x >= 5) ==> called_since(
                c,
                n,
                SffCall::SetHighPowerClass(p->0, true),
            )
            &&& lpmode ==> called_since(c, n, SffCall::SetLpmode(false))
            &&& forall|i: int|
                n <= i < c.len() ==> match #[trigger] c[i] {
                    SffCall::SetHighPowerClass(x, on) => p == Some(x) && x >= 5 && on,
                    SffCall::SetLpmode(on) => lpmode && !on,
                    _ => true,
                }
        }),
{
    let c = powered_up(t).calls;
    let n = t.calls.len() as int;
    assert((t.answers.power_class)(t.calls) == p);
    assert(c.take(n) =~= t.calls);
    if p matches Some(x) && x >= 5 {
        assert(c[n + 1] == SffCall::SetHighPowerClass(p->0, true));
    }
    if lpmode {
        assert(c[c.len() - 1] == SffCall::SetLpmode(false));
    }
}

/// The turn of a port powers its module up where the module has come or the port
/// has gone up: a module of class 5 or higher gets the power of its class, and a
/// module with a low-power mode leaves it. Otherwise neither is touched.
pub proof fn module_is_powered_up(
    info: SffInfo,
    prev: Option<SffInfo>,
    host_db: Seq<char>,
    admin_db: Seq<char>,
    t: SffTrace,
    current: Option<Seq<bool>>,
    owned: Seq<bool>,
    p: Option<i64>,
    lpmode: bool,
)
    requires
        info.wf(),
        info.lanes is Some,
        optical(t.answers, current),
        owns(info, owned),
        forall|h: Seq<SffCall>| #[trigger] (t.answers.power_class)(h) == p,
        forall|h: Seq<SffCall>| #[trigger] (t.answers.lpmode_support)(h) == lpmode,
    ensures
        ({
            let admin = told_or(info.admin_status, admin_db);
            let c = brought_up(info, prev, host_db, admin_db, t).1.calls;
            let n = t.calls.len() as int;
            &&& to_power_up(prev, admin) && (p matches Some(x) && x >= 5) ==> called_since(
                c,
                n,
                SffCall::SetHighPowerClass(p->0, true),
            )
            &&& to_power_up(prev, admin) && lpmode ==> called_since(
                c,
                n,
                SffCall::SetLpmode(false),
            )
            &&& forall|i: int|
                n <= i < c.len() ==> match #[trigger] c[i] {
                    SffCall::SetHighPowerClass(x, on) => to_power_up(prev, admin) && p == Some(x)
                        && x >= 5 && on,
                    SffCall::SetLpmode(on) => to_power_up(prev, admin) && lpmode && !on,
                    _ => true,
                }
        }),
{
    let host = told_or(info.host_tx_ready, host_db);
    let admin = told_or(info.admin_status, admin_db);
    let off = !(host == "true"@ && admin == "up"@);
    let n = t.calls.len() as int;
    let t1 = t.then_call(SffCall::IsCmis);
    let t2 = t1.then_call(SffCall::IsCopper);
    let t3 = t2.then_call(SffCall::GetTxDisableSupport);
    assert(!(t.answers.is_cmis)(t.calls));
    assert((t1.answers.is_copper)(t1.calls) == Some(false));
    assert((t2.answers.tx_disable_support)(t2.calls) == Some(true));
    let c = brought_up(info, prev, host_db, admin_db, t).1.calls;
    powering_up_calls(t3, p, lpmode);
    if to_power_up(prev, admin) {
        let t4 = powered_up(t3);
        assert(brought_up(info, prev, host_db, admin_db, t).1 == tx_driven(t4, off, owned));
        assert(c.take(t4.calls.len() as int) =~= t4.calls);
        assert forall|x: SffCall| #[trigger] called_since(t4.calls, n + 3, x) implies called_since(
            c,
            n,
            x,
        ) by {
            let i = choose|i: int| n + 3 <= i < t4.calls.len() && t4.calls[i] == x;
            assert(c[i] == x);
        }
        assert forall|i: int| n <= i < c.len() implies match #[trigger] c[i] {
            SffCall::SetHighPowerClass(x, on) => p == Some(x) && x >= 5 && on,
            SffCall::SetLpmode(on) => lpmode && !on,
            _ => true,
        } by {
            if i < n + 3 {
                assert(t4.calls.take(n + 3)[i] == t3.calls[i]);
            } else if i < t4.calls.len() {
                assert(c[i] == t4.calls[i]);
            }
        }
    }
}

// ---- a sweep ----

/// Whether port `name` can be reached: its slot, lanes and module are known, the
/// module is there, and its interface can be had.
pub open spec fn reachable(s: SffState, name: Seq<char>, p: usize) -> bool {
    &&& s.ports.dom().contains(name)
    &&& s.ports[name].wf()
    &&& s.ports[name].index == Some(p as i64) && p <= i64::MAX
    &&& s.ports[name].lanes is Some
    &&& s.ports[name].xcvr_type is Some
    &&& forall|h: Seq<Ask>| #[trigger] (s.world.answers.presence)(h, p) == Some(true)
    &&& s.apis.dom().contains(p)
}

/// Whether the calls of one trace begin with those of another.
pub open spec fn goes_on_from(before: SffTrace, after: SffTrace) -> bool {
    &&& after.answers == before.answers
    &&& before.calls.len() <= after.calls.len()
    &&& after.calls.take(before.calls.len() as int) == before.calls
}

proof fn going_on_is_transitive(a: SffTrace, b: SffTrace, c: SffTrace)
    requires
        goes_on_from(a, b),
        goes_on_from(b, c),
    ensures
        goes_on_from(a, c),
{
    assert(c.calls.take(a.calls.len() as int) =~= c.calls.take(b.calls.len() as int).take(
        a.calls.len() as int,
    ));
}

proof fn turn_goes_on(
    s: SffState,
    prev: Map<Seq<char>, SffInfo>,
    rows: Seq<AsicRows>,
    name: Seq<char>,
    p: usize,
)
    ensures
        port_swept(s, prev, rows, name).world.answers == s.world.answers,
        port_swept(s, prev, rows, name).apis.dom() =~= s.apis.dom(),
        s.apis.dom().contains(p) ==> goes_on_from(
            s.apis[p],
            port_swept(s, prev, rows, name).apis[p],
        ),
{
    let r = port_swept(s, prev, rows, name);
    if s.apis.dom().contains(p) {
        assert(r.apis[p].calls.take(s.apis[p].calls.len() as int) =~= s.apis[p].calls);
    }
}

proof fn sweep_goes_on(
    s: SffState,
    prev: Map<Seq<char>, SffInfo>,
    rows: Seq<AsicRows>,
    names: Seq<Seq<char>>,
    name: Seq<char>,
    p: usize,
)
    ensures
        swept(s, prev, rows, names).world.answers == s.world.answers,
        s.apis.dom().contains(p) ==> swept(s, prev, rows, names).apis.dom().contains(p)
            && goes_on_from(s.apis[p], swept(s, prev, rows, names).apis[p]),
        !names.contains(name) ==> swept(s, prev, rows, names).ports[name] == s.ports[name],
    decreases names.len(),
{
    if s.apis.dom().contains(p) {
        assert(s.apis[p].calls.take(s.apis[p].calls.len() as int) =~= s.apis[p].calls);
    }
    if names.len() > 0 && !s.world.stop() {
        let asked = SffState { world: s.world.then_ask(Ask::Stop), ..s };
        let next = port_swept(asked, prev, rows, names[0]);
        let rest = names.skip(1);
        turn_goes_on(asked, prev, rows, names[0], p);
        sweep_goes_on(next, prev, rows, rest, name, p);
        if s.apis.dom().contains(p) {
            going_on_is_transitive(
                s.apis[p],
                next.apis[p],
                swept(next, prev, rows, rest).apis[p],
            );
        }
        if !names.contains(name) {
            assert(names[0] != name);
            assert(!rest.contains(name)) by {
                if rest.contains(name) {
                    let i = rest.index_of(name);
                    assert(names[i + 1] == name);
                }
            }
            port_sweep_is_local(asked, prev, rows, names[0], name);
        }
    }
}

/// Whether the calls to an interface from `before` to `after` hold the turn of a
/// port: from some point on it was gone through as `info`.
pub open spec fn had_its_turn(
    before: SffTrace,
    after: SffTrace,
    info: SffInfo,
    prev: Option<SffInfo>,
    host_db: Seq<char>,
    admin_db: Seq<char>,
    known: SffInfo,
) -> bool {
    exists|t: SffTrace|
        {
            &&& goes_on_from(before, t)
            &&& goes_on_from(#[trigger] brought_up(info, prev, host_db, admin_db, t).1, after)
            &&& brought_up(info, prev, host_db, admin_db, t).0 == known
        }
}

/// In a sweep that nobody stops, every port that can be reached has its turn.
pub proof fn every_port_has_its_turn(
    s: SffState,
    prev: Map<Seq<char>, SffInfo>,
    rows: Seq<AsicRows>,
    names: Seq<Seq<char>>,
    name: Seq<char>,
    p: usize,
)
    requires
        forall|h: Seq<Ask>| !#[trigger] (s.world.answers.stop)(h),
        names.no_duplicates(),
        names.contains(name),
        reachable(s, name, p),
    ensures
        ({
            let r = swept(s, prev, rows, names);
            had_its_turn(
                s.apis[p],
                r.apis[p],
                s.ports[name],
                if prev.dom().contains(name) {
                    Some(prev[name])
                } else {
                    None
                },
                host_tx_at(rows, s.ports[name].asic_id, name),
                admin_at(rows, s.ports[name].asic_id, name),
                r.ports[name],
            )
        }),
    decreases names.len(),
{
    let asked = SffState { world: s.world.then_ask(Ask::Stop), ..s };
    let next = port_swept(asked, prev, rows, names[0]);
    let rest = names.skip(1);
    let r = swept(s, prev, rows, names);
    let info = s.ports[name];
    let before = if prev.dom().contains(name) {
        Some(prev[name])
    } else {
        None
    };
    let host = host_tx_at(rows, info.asic_id, name);
    let admin = admin_at(rows, info.asic_id, name);
    assert(!s.world.stop());
    assert(rest.no_duplicates()) by {
        assert forall|i: int, j: int| 0 <= i < j < rest.len() implies rest[i] != rest[j] by {
            assert(names[i + 1] != names[j + 1]);
        }
    }
    turn_goes_on(asked, prev, rows, names[0], p);
    if names[0] == name {
        assert(asked.world.present(p));
        assert(next.apis[p] == brought_up(info, before, host, admin, s.apis[p]).1);
        assert(!rest.contains(name)) by {
            if rest.contains(name) {
                let i = rest.index_of(name);
                assert(names[i + 1] == names[0]);
            }
        }
        sweep_goes_on(next, prev, rows, rest, name, p);
        assert(s.apis[p].calls.take(s.apis[p].calls.len() as int) =~= s.apis[p].calls);
        assert(goes_on_from(s.apis[p], s.apis[p]));
    } else {
        port_sweep_is_local(asked, prev, rows, names[0], name);
        assert(rest.contains(name)) by {
            let i = names.index_of(name);
            assert(rest[i - 1] == name);
        }
        assert(reachable(next, name, p));
        every_port_has_its_turn(next, prev, rows, rest, name, p);
        let t = choose|t: SffTrace|
            {
                &&& goes_on_from(next.apis[p], t)
                &&& goes_on_from(#[trigger] brought_up(info, before, host, admin, t).1, r.apis[p])
                &&& brought_up(info, before, host, admin, t).0 == r.ports[name]
            };
        going_on_is_transitive(s.apis[p], next.apis[p], t);
    }
}

/// A sweep that nobody stops brings the lanes of every port that is not as the
/// sweep before left it to where they belong: where an owned lane stands wrong, the
/// interface is called to switch exactly the owned lanes that do, on where the host
/// side is ready and the port is up and off otherwise.
pub proof fn sweep_drives_every_changed_port(
    s: SffState,
    prev: Map<Seq<char>, SffInfo>,
    rows: Seq<AsicRows>,
    names: Seq<Seq<char>>,
    name: Seq<char>,
    p: usize,
    current: Option<Seq<bool>>,
    owned: Seq<bool>,
    k: int,
)
    requires
        forall|h: Seq<Ask>| !#[trigger] (s.world.answers.stop)(h),
        names.no_duplicates(),
        names.contains(name),
        reachable(s, name, p),
        optical(s.apis[p].answers, current),
        owns(s.ports[name], owned),
        ({
            let host = told_or(
                s.ports[name].host_tx_ready,
                host_tx_at(rows, s.ports[name].asic_id, name),
            );
            let admin = told_or(
                s.ports[name].admin_status,
                admin_at(rows, s.ports[name].asic_id, name),
            );
            &&& has_changed(
                if prev.dom().contains(name) {
                    Some(prev[name])
                } else {
                    None
                },
                host,
                admin,
            )
            &&& stands_wrong(current, owned, !(host == "true"@ && admin == "up"@), k)
        }),
    ensures
        ({
            let host = told_or(
                s.ports[name].host_tx_ready,
                host_tx_at(rows, s.ports[name].asic_id, name),
            );
            let admin = told_or(
                s.ports[name].admin_status,
                admin_at(rows, s.ports[name].asic_id, name),
            );
            let off = !(host == "true"@ && admin == "up"@);
            let c = swept(s, prev, rows, names).apis[p].calls;
            exists|i: int|
                s.apis[p].calls.len() <= i < c.len() && (#[trigger] c[i] matches SffCall::TxDisableChannel(
                    mask,
                    way,
                ) && way == off && (forall|b: u32|
                    b < 32 ==> (mask & #[trigger] (1u32 << b) != 0) == stands_wrong(
                        current,
                        owned,
                        off,
                        b as int,
                    )))
        }),
{
    every_port_has_its_turn(s, prev, rows, names, name, p);
    let r = swept(s, prev, rows, names);
    let info = s.ports[name];
    let before = if prev.dom().contains(name) {
        Some(prev[name])
    } else {
        None
    };
    let host_db = host_tx_at(rows, info.asic_id, name);
    let admin_db = admin_at(rows, info.asic_id, name);
    let t = choose|t: SffTrace|
        {
            &&& goes_on_from(s.apis[p], t)
            &&& goes_on_from(#[trigger] brought_up(info, before, host_db, admin_db, t).1, r.apis[p])
            &&& brought_up(info, before, host_db, admin_db, t).0 == r.ports[name]
        };
    changed_port_is_driven(info, before, host_db, admin_db, t, current, owned);
    let done = brought_up(info, before, host_db, admin_db, t).1;
    let i = done.calls.len() - 1;
    assert(r.apis[p].calls.take(done.calls.len() as int)[i] == done.calls[i]);
    assert(done.calls.len() > t.calls.len()) by {
        assert(done.calls[t.calls.len() as int] == SffCall::IsCmis);
    }
}

/// What no event has told is taken from the databases: the host side of a port is
/// what its row in the state database has, and not ready where it has nothing; the
/// port is as its row in the configuration has it, and down where it has nothing.
pub proof fn databases_stand_in(rows: Seq<AsicRows>, asic: usize, name: Seq<char>)
    ensures
        asic < rows.len() ==> {
            let a = rows[asic as int];
            &&& value_at(a.state_port, name, "host_tx_ready"@) matches Some(s) ==> host_tx_at(
                rows,
                asic,
                name,
            ) == s
            &&& value_at(a.state_port, name, "host_tx_ready"@) is None ==> host_tx_at(
                rows,
                asic,
                name,
            ) == "false"@
            &&& value_at(a.cfg_port, name, "admin_status"@) matches Some(s) ==> admin_at(
                rows,
                asic,
                name,
            ) == s
            &&& value_at(a.cfg_port, name, "admin_status"@) is None ==> admin_at(rows, asic, name)
                == "down"@
        },
        asic >= rows.len() ==> host_tx_at(rows, asic, name) == "false"@ && admin_at(
            rows,
            asic,
            name,
        ) == "down"@,
{
}

/// Whether the calls from place `from` on only look.
pub open spec fn only_looks(calls: Seq<SffCall>, from: int) -> bool {
    forall|i: int|
        from <= i < calls.len() ==> match #[trigger] calls[i] {
            SffCall::SetHighPowerClass(_, _) => false,
            SffCall::SetLpmode(_) => false,
            SffCall::TxDisableChannel(_, _) => false,
            _ => true,
        }
}

/// A module with a CMIS memory map, a copper cable, a module that does not tell
/// whether it is one, and one whose transmitters cannot be switched off is only
/// looked at.
pub proof fn other_modules_are_only_looked_at(
    info: SffInfo,
    prev: Option<SffInfo>,
    host_db: Seq<char>,
    admin_db: Seq<char>,
    t: SffTrace,
)
    requires
        ({
            ||| forall|h: Seq<SffCall>| #[trigger] (t.answers.is_cmis)(h)
            ||| forall|h: Seq<SffCall>| #[trigger] (t.answers.is_copper)(h) != Some(false)
            ||| forall|h: Seq<SffCall>| #[trigger] (t.answers.tx_disable_support)(h) != Some(true)
        }),
    ensures
        only_looks(
            brought_up(info, prev, host_db, admin_db, t).1.calls,
            t.calls.len() as int,
        ),
{
    let t1 = t.then_call(SffCall::IsCmis);
    let t2 = t1.then_call(SffCall::IsCopper);
    let a = (t.answers.is_cmis)(t.calls);
    let b = (t1.answers.is_copper)(t1.calls);
    let c = (t2.answers.tx_disable_support)(t2.calls);
    assert(a || b != Some(false) || c != Some(true) || !has_changed(
        prev,
        told_or(info.host_tx_ready, host_db),
        told_or(info.admin_status, admin_db),
    ));
}

/// The turn of a port without a module, of one whose slot is empty, and of one whose
/// slot has no control interface calls nothing. A module that is found gone is
/// forgotten.
pub proof fn missing_module_is_not_called(
    s: SffState,
    prev: Map<Seq<char>, SffInfo>,
    rows: Seq<AsicRows>,
    name: Seq<char>,
)
    ensures
        ({
            let info = s.ports[name];
            let r = port_swept(s, prev, rows, name);
            &&& info.xcvr_type is None || info.lanes is None || info.index is None ==> r == s
            &&& info.xcvr_type is Some && info.lanes is Some && (info.index matches Some(p) && p
                >= 0 && !s.world.present(p as usize)) ==> r.apis == s.apis
                && r.ports[name].xcvr_type is None && r.ports[name].index == info.index
                && r.ports[name].host_tx_ready == info.host_tx_ready
            &&& (info.index matches Some(p) && !s.apis.dom().contains(p as usize)) ==> r.apis
                == s.apis
        }),
{
}

/// A sweep ends where a stop is asked for: no port has its turn any more.
pub proof fn stop_ends_the_sweep(
    s: SffState,
    prev: Map<Seq<char>, SffInfo>,
    rows: Seq<AsicRows>,
    names: Seq<Seq<char>>,
)
    requires
        s.world.stop(),
    ensures
        swept(s, prev, rows, names).ports == s.ports,
        swept(s, prev, rows, names).apis == s.apis,
{
}

/// The subport of a port is the number that it was told, with blanks around it or
/// without, and 0, which owns the whole slot, where none was.
pub proof fn subport_is_told(info: SffInfo, s: Seq<char>, n: i64)
    ensures
        info.subport == Some(s) && parsed_i64(trimmed(s)) == Some(n) ==> info.subport_number()
            == n,
        info.subport == Some(s) && parsed_i64(trimmed(s)) is None ==> info.subport_number() == 0,
        info.subport is None ==> info.subport_number() == 0,
{
}

// ---- events ----

/// An event that a row of a front panel port was written is taken in: what it
/// carries is known of the port from now on, everything else stays as it was, and
/// so does every other port.
pub proof fn written_row_is_taken_in(
    ports: Map<Seq<char>, SffInfo>,
    e: EventView,
    other: Seq<char>,
)
    requires
        occurs_at(e.port_name, "Ethernet"@, 0),
        e.event_type == PortChangeEventType::PortSet,
    ensures
        ({
            let r = after_event(ports, e);
            let known = r[e.port_name];
            let was = if ports.dom().contains(e.port_name) {
                ports[e.port_name]
            } else {
                unknown_port()
            };
            &&& r.dom().contains(e.port_name)
            &&& known.asic_id == e.asic_id
            &&& known.index == (match e.physical_port {
                Some(p) => Some(p as i64),
                None => was.index,
            })
            &&& known.subport == (if e.carries("subport"@) is Some {
                e.carries("subport"@)
            } else {
                was.subport
            })
            &&& known.lanes == (match e.carries("lanes"@) {
                Some(l) => Some(parts(l, ',')),
                None => was.lanes,
            })
            &&& known.host_tx_ready == (if e.carries("host_tx_ready"@) is Some {
                e.carries("host_tx_ready"@)
            } else {
                was.host_tx_ready
            })
            &&& known.admin_status == (if e.carries("admin_status"@) is Some {
                e.carries("admin_status"@)
            } else {
                was.admin_status
            })
            &&& known.xcvr_type == (if e.carries("type"@) is Some {
                e.carries("type"@)
            } else {
                was.xcvr_type
            })
            &&& other != e.port_name ==> r.dom().contains(other) == ports.dom().contains(other)
                && (ports.dom().contains(other) ==> r[other] == ports[other])
        }),
{
}

/// A port whose configuration row is deleted is forgotten; one whose identity row
/// is deleted has no module any more and is otherwise known as before. Names that
/// are no front panel ports change nothing.
pub proof fn deleted_row_is_taken_in(ports: Map<Seq<char>, SffInfo>, e: EventView)
    requires
        e.event_type == PortChangeEventType::PortDel,
    ensures
        ({
            let r = after_event(ports, e);
            let port = occurs_at(e.port_name, "Ethernet"@, 0);
            &&& port && e.db_name == "CONFIG_DB"@ ==> r == ports.remove(e.port_name)
            &&& port && e.db_name != "CONFIG_DB"@ && e.table_name == "TRANSCEIVER_INFO"@
                && ports.dom().contains(e.port_name) ==> {
                &&& r.dom() =~= ports.dom()
                &&& r[e.port_name].xcvr_type is None
                &&& r[e.port_name].index == ports[e.port_name].index
                &&& r[e.port_name].lanes == ports[e.port_name].lanes
                &&& r[e.port_name].subport == ports[e.port_name].subport
                &&& r[e.port_name].host_tx_ready == ports[e.port_name].host_tx_ready
                &&& r[e.port_name].admin_status == ports[e.port_name].admin_status
            }
            &&& !port ==> r == ports
        }),
{
}

/// Events are taken in one after the other.
pub proof fn events_come_in_turn(
    ports: Map<Seq<char>, SffInfo>,
    order: Seq<Seq<char>>,
    first: Seq<EventView>,
    rest: Seq<EventView>,
)
    ensures
        after_events(ports, first + rest) == after_events(after_events(ports, first), rest),
        order_after_events(order, first + rest) == order_after_events(
            order_after_events(order, first),
            rest,
        ),
        rest.len() == 1 ==> after_events(ports, rest) == after_event(ports, rest[0]),
    decreases rest.len(),
{
    if rest.len() == 0 {
        assert(first + rest =~= first);
    } else {
        events_come_in_turn(ports, order, first, rest.drop_last());
        assert((first + rest).drop_last() =~= first + rest.drop_last());
        assert((first + rest).last() == rest.last());
        if rest.len() == 1 {
            assert(after_events(ports, rest.drop_last()) == ports);
        }
    }
}

/// The ports that a sweep goes through are those that are known, each once, after
/// any events.
pub proof fn known_ports_are_swept(
    ports: Map<Seq<char>, SffInfo>,
    order: Seq<Seq<char>>,
    events: Seq<EventView>,
)
    requires
        lists(order, ports),
    ensures
        lists(order_after_events(order, events), after_events(ports, events)),
    decreases events.len(),
{
    if events.len() > 0 {
        let e = events.last();
        let o = order_after_events(order, events.drop_last());
        let m = after_events(ports, events.drop_last());
        known_ports_are_swept(ports, order, events.drop_last());
        let o2 = order_after_event(o, e);
        let m2 = after_event(m, e);
        let name = e.port_name;
        without_leaves_the_others(o, name);
        assert(m.dom().contains(name) <==> o.contains(name));
        let pushed = o.push(name);
        assert forall|k: Seq<char>| pushed.contains(k) <==> o.contains(k) || k == name by {
            if o.contains(k) {
                assert(pushed[o.index_of(k)] == k);
            }
            assert(pushed[o.len() as int] == name);
            if pushed.contains(k) {
                let i = pushed.index_of(k);
                if i < o.len() {
                    assert(o[i] == k);
                }
            }
        }
        assert forall|k: Seq<char>| #[trigger] m2.dom().contains(k) <==> o2.contains(k) by {
            assert(m.dom().contains(k) <==> o.contains(k));
        }
    }
}

/// Ports are gone through in the order in which they became known: a new one comes
/// last, and the others keep their places.
pub proof fn new_port_comes_last(order: Seq<Seq<char>>, e: EventView, i: int)
    requires
        occurs_at(e.port_name, "Ethernet"@, 0),
        e.event_type == PortChangeEventType::PortSet,
        0 <= i < order.len(),
    ensures
        order_after_event(order, e)[i] == order[i],
        order.contains(e.port_name) ==> order_after_event(order, e).len() == order.len(),
        !order.contains(e.port_name) ==> order_after_event(order, e).len() == order.len() + 1
            && order_after_event(order, e).last() == e.port_name,
{
}

/// A round without events changes nothing and calls nothing; one with events takes
/// all of them in and goes through every port that is known then.
pub proof fn events_lead_to_a_sweep(
    s: SffState,
    prev: Map<Seq<char>, SffInfo>,
    order: Seq<Seq<char>>,
    rows: Seq<AsicRows>,
    events: Seq<EventView>,
    name: Seq<char>,
    p: usize,
)
    requires
        forall|h: Seq<Ask>| !#[trigger] (s.world.answers.stop)(h),
        lists(order, s.ports),
    ensures
        ({
            let r = events_served(s, prev, order, rows, events);
            let known = SffState { ports: after_events(s.ports, events), ..s };
            &&& events.len() == 0 ==> r == s
            &&& events.len() > 0 && known.ports.dom().contains(name) && reachable(known, name, p)
                ==> had_its_turn(
                s.apis[p],
                r.apis[p],
                known.ports[name],
                if prev.dom().contains(name) {
                    Some(prev[name])
                } else {
                    None
                },
                host_tx_at(rows, known.ports[name].asic_id, name),
                admin_at(rows, known.ports[name].asic_id, name),
                r.ports[name],
            )
        }),
{
    let known = SffState { ports: after_events(s.ports, events), ..s };
    let names = order_after_events(order, events);
    known_ports_are_swept(s.ports, order, events);
    if known.ports.dom().contains(name) {
        assert(names.contains(name));
        if events.len() > 0 && reachable(known, name, p) {
            every_port_has_its_turn(known, prev, rows, names, name, p);
        }
    }
}

/// A module with a CMIS memory map is known by the name of its type.
pub proof fn types_tell_the_memory_map(r: ReplyView, f: Vals, s: Seq<char>)
    requires
        r.fields == Some(f),
        field(f, "type_abbrv_name"@) == Some(Val::Str(s)),
    ensures
        names_cmis_type(Some(r)) <==> s == "QSFP-DD"@ || s == "QSFP_DD"@ || s == "OSFP"@ || s
            == "OSFP-8X"@ || s == "QSFP+C"@,
        !names_cmis_type(None),
{
}

// ---- registers ----

/// Whether reads and writes of single bytes stay as they are: byte `at` always
/// reads as `b`.
pub open spec fn reads_as(t: SfpTrace, at: usize, b: u8) -> bool {
    forall|h: Seq<SfpAsk>| #[trigger] (t.answers.read)(h, at, 1) == Some(seq![b])
}

/// Switching transmitters writes byte 86 with the bits of the lanes in the mask,
/// of which there are four, set where they are switched off and cleared where they
/// are switched on; the other bits stay.
pub proof fn switching_writes_the_disable_byte(t: SfpTrace, mask: u32, off: bool, b: u8)
    requires
        reads_as(t, 86, b),
    ensures
        carried_out(t, SffCall::TxDisableChannel(mask, off)).asked == t.asked.push(
            SfpAsk::Read(86, 1),
        ).push(
            SfpAsk::Write(
                86,
                seq![
                    if off {
                        b | ((mask & 0x0f) as u8)
                    } else {
                        b & !((mask & 0x0f) as u8)
                    },
                ],
            ),
        ),
{
    assert((t.answers.read)(t.asked, 86, 1) == Some(seq![b]));
    tx_disable_byte_is_masked(b, mask);
}

/// Allowing the power of a class writes byte 93 with the enable of the classes 5
/// to 7 set, for class 8 its own enable too, and forbidding it clears both; the
/// other bits stay.
pub proof fn power_is_allowed_in_its_byte(t: SfpTrace, p: i64, on: bool, b: u8)
    requires
        reads_as(t, 93, b),
    ensures
        carried_out(t, SffCall::SetHighPowerClass(p, on)).asked == t.asked.push(
            SfpAsk::Read(93, 1),
        ).push(
            SfpAsk::Write(
                93,
                seq![
                    if !on {
                        b & 0xf3
                    } else if p >= 8 {
                        b | 0x0c
                    } else {
                        b | 0x04
                    },
                ],
            ),
        ),
{
    assert((t.answers.read)(t.asked, 93, 1) == Some(seq![b]));
    assert((b | 0x04u8) | 0x08u8 == b | 0x0cu8) by (bit_vector);
    assert(b & !(0x04u8 | 0x08u8) == b & 0xf3u8) by (bit_vector);
}

/// What the registers of a module tell: byte 86 which of the four transmitters are
/// off, byte 129 the power class, byte 147 whether it is a copper cable, and byte
/// 195 whether its transmitters can be switched off.
pub proof fn registers_tell(base: SfpTrace, h: Seq<SffCall>, b: u8, k: int)
    requires
        0 <= k < 4,
    ensures
        reads_as(base, 86, b) ==> ((register_answers(base).tx_disable)(h) matches Some(c)
            && c.len() == 4 && c[k] == (b & (1u8 << (k as u8)) != 0)),
        reads_as(base, 147, b) ==> (register_answers(base).is_copper)(h) == Some(b >= 0xa0),
        reads_as(base, 195, b) ==> (register_answers(base).tx_disable_support)(h) == Some(
            b & 0x10 != 0,
        ),
        reads_as(base, 129, b) ==> (register_answers(base).power_class)(h) == Some(
            power_class_of(b),
        ),
{
    carrying_out_keeps_answers(base, h);
    let t = all_carried_out(base, h);
    assert((b >> 4 >= 0x0au8) == (b >= 0xa0u8)) by (bit_vector);
    if reads_as(base, 86, b) {
        assert((t.answers.read)(t.asked, 86, 1) == Some(seq![b]));
    }
    if reads_as(base, 147, b) {
        assert((t.answers.read)(t.asked, 147, 1) == Some(seq![b]));
    }
    if reads_as(base, 195, b) {
        assert((t.answers.read)(t.asked, 195, 1) == Some(seq![b]));
    }
    if reads_as(base, 129, b) {
        assert((t.answers.read)(t.asked, 129, 1) == Some(seq![b]));
    }
}

proof fn carrying_out_keeps_answers(t: SfpTrace, calls: Seq<SffCall>)
    ensures
        all_carried_out(t, calls).answers == t.answers,
    decreases calls.len(),
{
    if calls.len() > 0 {
        carrying_out_keeps_answers(t, calls.drop_last());
    }
}

/// The power class in the extended identifier: the two low bits, where they are not
/// zero, give the classes 5 to 7, the third bit alone gives class 8, and with all
/// three clear the two high bits give the classes 1 to 4.
pub proof fn power_class_is_read(b: u8)
    ensures
        b % 4 == 1 ==> power_class_of(b) == 5,
        b % 4 == 2 ==> power_class_of(b) == 6,
        b % 4 == 3 ==> power_class_of(b) == 7,
        b % 8 == 4 ==> power_class_of(b) == 8,
        b % 8 == 0 ==> power_class_of(b) == b / 64 + 1,
{
    assert(b & 0x03u8 == b % 4) by (bit_vector);
    assert((b & 0x04u8 != 0) == (b % 8 >= 4)) by (bit_vector);
    assert((b >> 6) & 0x03u8 == b / 64) by (bit_vector);
}

/// Each call reaches the module as what it is meant for: a look at the identity, at
/// byte 147, 195, 129 or 86, and the low-power mode as a request of its own. Whether
/// there is a low-power mode is known without asking.
pub proof fn calls_reach_the_module(t: SfpTrace, on: bool)
    ensures
        carried_out(t, SffCall::IsCmis) == t.then_ask(SfpAsk::Info),
        carried_out(t, SffCall::IsCopper) == t.then_ask(SfpAsk::Read(147, 1)),
        carried_out(t, SffCall::GetTxDisableSupport) == t.then_ask(SfpAsk::Read(195, 1)),
        carried_out(t, SffCall::GetPowerClass) == t.then_ask(SfpAsk::Read(129, 1)),
        carried_out(t, SffCall::GetTxDisable) == t.then_ask(SfpAsk::Read(86, 1)),
        carried_out(t, SffCall::SetLpmode(on)) == t.then_ask(SfpAsk::SetLpmode(on)),
        carried_out(t, SffCall::GetLpmodeSupport) == t,
{
}

/// The interface answers what the module does: whether its identity names a type
/// with a CMIS memory map, whether it has taken the low-power mode and the bytes
/// that were written, and nothing where a byte cannot be read.
pub proof fn module_decides_the_answers(
    base: SfpTrace,
    h: Seq<SffCall>,
    r: ReplyView,
    on: bool,
    p: i64,
    mask: u32,
    taken: bool,
)
    ensures
        (forall|k: Seq<SfpAsk>| #[trigger] (base.answers.info)(k) == Some(r)) ==> (register_answers(
            base,
        ).is_cmis)(h) == names_cmis_type(Some(r)),
        (forall|k: Seq<SfpAsk>, b: bool| #[trigger] (base.answers.set_lpmode)(k, b) == taken) ==> (
        register_answers(base).set_lpmode)(h, on) == taken,
        (forall|k: Seq<SfpAsk>, at: usize, b: Seq<u8>| #[trigger]
            (base.answers.write)(k, at, b) == taken) ==> {
            &&& (register_answers(base).set_high_power_class)(h, p, on) == Some(taken)
            &&& (register_answers(base).tx_disable_channel)(h, mask, on) == taken
        },
        (forall|k: Seq<SfpAsk>, at: usize| #[trigger] (base.answers.read)(k, at, 1) is None) ==> {
            &&& (register_answers(base).is_copper)(h) == Some(false)
            &&& (register_answers(base).tx_disable_support)(h) == Some(false)
            &&& (register_answers(base).power_class)(h) is None
            &&& (register_answers(base).tx_disable)(h) is None
        },
        (register_answers(base).lpmode_support)(h),
{
    carrying_out_keeps_answers(base, h);
    let t = all_carried_out(base, h);
    if forall|k: Seq<SfpAsk>| #[trigger] (base.answers.info)(k) == Some(r) {
        assert((t.answers.info)(t.asked) == Some(r));
    }
    if forall|k: Seq<SfpAsk>, at: usize| #[trigger] (base.answers.read)(k, at, 1) is None {
        assert((t.answers.read)(t.asked, 147, 1) is None);
        assert((t.answers.read)(t.asked, 195, 1) is None);
        assert((t.answers.read)(t.asked, 129, 1) is None);
        assert((t.answers.read)(t.asked, 86, 1) is None);
    }
}

} // verus!
