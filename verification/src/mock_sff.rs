//! A stand-in for the control interface of a module, with set answers and a
//! record of the calls.

use vstd::prelude::*;

use crate::assoc::OrderedMap;
use crate::sff_api::{lanes_view, SffAnswers, SffApi, SffCall, SffTrace};
use crate::sff_mgr::{Apis, SffApiFactory};
use crate::text::str_eq;

verus! {

/// The answers of a [`MockSffApi`].
pub struct SffCanned {
    pub is_cmis: bool,
    pub is_copper: Option<bool>,
    pub tx_disable_support: Option<bool>,
    pub power_class: Option<i64>,
    pub high_power_class_result: Option<bool>,
    pub lpmode_support: bool,
    pub lpmode_result: bool,
    pub tx_disable: Option<Seq<bool>>,
    pub tx_disable_channel_result: bool,
}

/// The answers of a new stand-in: an optical module of class 1 without
/// low-power mode, with all four transmitters on.
pub open spec fn first_canned() -> SffCanned {
    SffCanned {
        is_cmis: false,
        is_copper: Some(false),
        tx_disable_support: Some(true),
        power_class: Some(1),
        high_power_class_result: Some(true),
        lpmode_support: false,
        lpmode_result: true,
        tx_disable: Some(seq![false, false, false, false]),
        tx_disable_channel_result: true,
    }
}

/// An interface that answers always the same.
pub open spec fn canned_answers(c: SffCanned) -> SffAnswers {
    SffAnswers {
        is_cmis: |h: Seq<SffCall>| c.is_cmis,
        is_copper: |h: Seq<SffCall>| c.is_copper,
        tx_disable_support: |h: Seq<SffCall>| c.tx_disable_support,
        power_class: |h: Seq<SffCall>| c.power_class,
        set_high_power_class: |h: Seq<SffCall>, p: i64, on: bool| c.high_power_class_result,
        lpmode_support: |h: Seq<SffCall>| c.lpmode_support,
        set_lpmode: |h: Seq<SffCall>, on: bool| c.lpmode_result,
        tx_disable: |h: Seq<SffCall>| c.tx_disable,
        tx_disable_channel: |h: Seq<SffCall>, m: u32, off: bool| c.tx_disable_channel_result,
    }
}

/// The name of the method that a call goes to.
pub open spec fn method_name(c: SffCall) -> Seq<char> {
    match c {
        SffCall::IsCmis => "is_cmis"@,
        SffCall::IsCopper => "is_copper"@,
        SffCall::GetTxDisableSupport => "get_tx_disable_support"@,
        SffCall::GetPowerClass => "get_power_class"@,
        SffCall::SetHighPowerClass(_, _) => "set_high_power_class"@,
        SffCall::GetLpmodeSupport => "get_lpmode_support"@,
        SffCall::SetLpmode(_) => "set_lpmode"@,
        SffCall::GetTxDisable => "get_tx_disable"@,
        SffCall::TxDisableChannel(_, _) => "tx_disable_channel"@,
    }
}

/// How many of the calls go to the method `name`.
pub open spec fn calls_to(calls: Seq<SffCall>, name: Seq<char>) -> nat
    decreases calls.len(),
{
    if calls.len() == 0 {
        0
    } else {
        calls_to(calls.drop_last(), name) + if method_name(calls.last()) == name {
            1nat
        } else {
            0nat
        }
    }
}

/// The arguments of the calls that switch transmitters, in order.
pub open spec fn channel_args(calls: Seq<SffCall>) -> Seq<(u32, bool)>
    decreases calls.len(),
{
    if calls.len() == 0 {
        Seq::empty()
    } else {
        let before = channel_args(calls.drop_last());
        match calls.last() {
            SffCall::TxDisableChannel(m, off) => before.push((m, off)),
            _ => before,
        }
    }
}

/// The arguments of the calls that set low-power mode, in order.
pub open spec fn lpmode_args(calls: Seq<SffCall>) -> Seq<bool>
    decreases calls.len(),
{
    if calls.len() == 0 {
        Seq::empty()
    } else {
        let before = lpmode_args(calls.drop_last());
        match calls.last() {
            SffCall::SetLpmode(on) => before.push(on),
            _ => before,
        }
    }
}

fn call_name(c: SffCall) -> (s: &'static str)
    ensures
        s@ == method_name(c),
{
    match c {
        SffCall::IsCmis => "is_cmis",
        SffCall::IsCopper => "is_copper",
        SffCall::GetTxDisableSupport => "get_tx_disable_support",
        SffCall::GetPowerClass => "get_power_class",
        SffCall::SetHighPowerClass(_, _) => "set_high_power_class",
        SffCall::GetLpmodeSupport => "get_lpmode_support",
        SffCall::SetLpmode(_) => "set_lpmode",
        SffCall::GetTxDisable => "get_tx_disable",
        SffCall::TxDisableChannel(_, _) => "tx_disable_channel",
    }
}

fn clone_lanes(v: &Option<Vec<bool>>) -> (r: Option<Vec<bool>>)
    ensures
        lanes_view(r) == lanes_view(*v),
{
    match v {
        Some(v) => {
            let c = v.clone();
            assert(c@ =~= v@);
            Some(c)
        },
        None => None,
    }
}

/// A stand-in for [`SffApi`].
pub struct MockSffApi {
    is_cmis: bool,
    is_copper: Option<bool>,
    tx_disable_support: Option<bool>,
    power_class: Option<i64>,
    high_power_class_result: Option<bool>,
    lpmode_support: bool,
    lpmode_result: bool,
    tx_disable: Option<Vec<bool>>,
    tx_disable_channel_result: bool,
    calls: Vec<SffCall>,
}

impl MockSffApi {
    /// The set answers.
    pub closed spec fn canned(&self) -> SffCanned {
        SffCanned {
            is_cmis: self.is_cmis,
            is_copper: self.is_copper,
            tx_disable_support: self.tx_disable_support,
            power_class: self.power_class,
            high_power_class_result: self.high_power_class_result,
            lpmode_support: self.lpmode_support,
            lpmode_result: self.lpmode_result,
            tx_disable: lanes_view(self.tx_disable),
            tx_disable_channel_result: self.tx_disable_channel_result,
        }
    }

    /// The calls made so far.
    pub closed spec fn calls(&self) -> Seq<SffCall> {
        self.calls@
    }

    /// A stand-in with the first answers, not yet called.
    pub fn new() -> (a: Self)
        ensures
            a.canned() == first_canned(),
            a.calls() == Seq::<SffCall>::empty(),
    {
        let mut lanes: Vec<bool> = Vec::new();
        lanes.push(false);
        lanes.push(false);
        lanes.push(false);
        lanes.push(false);
        assert(lanes@ =~= seq![false, false, false, false]);
        MockSffApi {
            is_cmis: false,
            is_copper: Some(false),
            tx_disable_support: Some(true),
            power_class: Some(1),
            high_power_class_result: Some(true),
            lpmode_support: false,
            lpmode_result: true,
            tx_disable: Some(lanes),
            tx_disable_channel_result: true,
            calls: Vec::new(),
        }
    }

    /// How often the method `method` was called.
    pub fn call_count(&self, method: &str) -> (n: usize)
        ensures
            n == calls_to(self.calls(), method@),
    {
        let mut n: usize = 0;
        let mut i: usize = 0;
        let ghost c = self.calls@;
        assert(c.take(0) =~= Seq::<SffCall>::empty());
        while i < self.calls.len()
            invariant
                i <= c.len(),
                c == self.calls@,
                n <= i,
                n == calls_to(c.take(i as int), method@),
            decreases self.calls.len() - i,
        {
            assert(c.take(i + 1).drop_last() =~= c.take(i as int));
            if str_eq(call_name(self.calls[i]), method) {
                n += 1;
            }
            i += 1;
        }
        assert(c.take(i as int) =~= c);
        n
    }

    /// The arguments of the calls of `tx_disable_channel`, in order.
    pub fn tx_disable_channel_args(&self) -> (r: Vec<(u32, bool)>)
        ensures
            r@ == channel_args(self.calls()),
    {
        let mut r: Vec<(u32, bool)> = Vec::new();
        let mut i: usize = 0;
        let ghost c = self.calls@;
        assert(c.take(0) =~= Seq::<SffCall>::empty());
        while i < self.calls.len()
            invariant
                i <= c.len(),
                c == self.calls@,
                r@ == channel_args(c.take(i as int)),
            decreases self.calls.len() - i,
        {
            assert(c.take(i + 1).drop_last() =~= c.take(i as int));
            match self.calls[i] {
                SffCall::TxDisableChannel(m, off) => r.push((m, off)),
                _ => {},
            }
            i += 1;
        }
        assert(c.take(i as int) =~= c);
        r
    }

    /// The arguments of the calls of `set_lpmode`, in order.
    pub fn set_lpmode_args(&self) -> (r: Vec<bool>)
        ensures
            r@ == lpmode_args(self.calls()),
    {
        let mut r: Vec<bool> = Vec::new();
        let mut i: usize = 0;
        let ghost c = self.calls@;
        assert(c.take(0) =~= Seq::<SffCall>::empty());
        while i < self.calls.len()
            invariant
                i <= c.len(),
                c == self.calls@,
                r@ == lpmode_args(c.take(i as int)),
            decreases self.calls.len() - i,
        {
            assert(c.take(i + 1).drop_last() =~= c.take(i as int));
            match self.calls[i] {
                SffCall::SetLpmode(on) => r.push(on),
                _ => {},
            }
            i += 1;
        }
        assert(c.take(i as int) =~= c);
        r
    }

    /// Sets whether it is a CMIS module.
    pub fn set_is_cmis(&mut self, v: bool)
        ensures
            final(self).canned() == (SffCanned { is_cmis: v, ..old(self).canned() }),
            final(self).calls() == old(self).calls(),
    {
        self.is_cmis = v;
    }

    /// Sets whether it is a copper cable.
    pub fn set_is_copper(&mut self, v: Option<bool>)
        ensures
            final(self).canned() == (SffCanned { is_copper: v, ..old(self).canned() }),
            final(self).calls() == old(self).calls(),
    {
        self.is_copper = v;
    }

    /// Sets whether transmitters can be switched off.
    pub fn set_tx_disable_support(&mut self, v: Option<bool>)
        ensures
            final(self).canned() == (SffCanned { tx_disable_support: v, ..old(self).canned() }),
            final(self).calls() == old(self).calls(),
    {
        self.tx_disable_support = v;
    }

    /// Sets the power class.
    pub fn set_power_class(&mut self, v: Option<i64>)
        ensures
            final(self).canned() == (SffCanned { power_class: v, ..old(self).canned() }),
            final(self).calls() == old(self).calls(),
    {
        self.power_class = v;
    }

    /// Sets what `set_high_power_class` returns.
    pub fn set_high_power_class_result(&mut self, v: Option<bool>)
        ensures
            final(self).canned() == (SffCanned { high_power_class_result: v, ..old(self).canned() }),
            final(self).calls() == old(self).calls(),
    {
        self.high_power_class_result = v;
    }

    /// Sets whether there is a low-power mode.
    pub fn set_lpmode_support(&mut self, v: bool)
        ensures
            final(self).canned() == (SffCanned { lpmode_support: v, ..old(self).canned() }),
            final(self).calls() == old(self).calls(),
    {
        self.lpmode_support = v;
    }

    /// Sets what `set_lpmode` returns.
    pub fn set_lpmode_result(&mut self, v: bool)
        ensures
            final(self).canned() == (SffCanned { lpmode_result: v, ..old(self).canned() }),
            final(self).calls() == old(self).calls(),
    {
        self.lpmode_result = v;
    }

    /// Sets which transmitters are off.
    pub fn set_tx_disable(&mut self, v: Option<Vec<bool>>)
        ensures
            final(self).canned() == (SffCanned { tx_disable: lanes_view(v), ..old(self).canned() }),
            final(self).calls() == old(self).calls(),
    {
        self.tx_disable = v;
    }

    /// Sets what `tx_disable_channel` returns.
    pub fn set_tx_disable_channel_result(&mut self, v: bool)
        ensures
            final(self).canned() == (SffCanned { tx_disable_channel_result: v, ..old(self).canned() }),
            final(self).calls() == old(self).calls(),
    {
        self.tx_disable_channel_result = v;
    }
}

impl Default for MockSffApi {
    fn default() -> (a: Self)
        ensures
            a.canned() == first_canned(),
            a.calls() == Seq::<SffCall>::empty(),
    {
        MockSffApi::new()
    }
}

impl SffApi for MockSffApi {
    open spec fn trace(&self) -> SffTrace {
        SffTrace { answers: canned_answers(self.canned()), calls: self.calls() }
    }

    open spec fn ready(&self) -> bool {
        true
    }

    fn is_cmis(&mut self) -> (r: bool) {
        self.calls.push(SffCall::IsCmis);
        self.is_cmis
    }

    fn is_copper(&mut self) -> (r: Option<bool>) {
        self.calls.push(SffCall::IsCopper);
        self.is_copper
    }

    fn get_tx_disable_support(&mut self) -> (r: Option<bool>) {
        self.calls.push(SffCall::GetTxDisableSupport);
        self.tx_disable_support
    }

    fn get_power_class(&mut self) -> (r: Option<i64>) {
        self.calls.push(SffCall::GetPowerClass);
        self.power_class
    }

    fn set_high_power_class(&mut self, power_class: i64, enable: bool) -> (r: Option<bool>) {
        self.calls.push(SffCall::SetHighPowerClass(power_class, enable));
        self.high_power_class_result
    }

    fn get_lpmode_support(&mut self) -> (r: bool) {
        self.calls.push(SffCall::GetLpmodeSupport);
        self.lpmode_support
    }

    fn set_lpmode(&mut self, lpmode: bool) -> (r: bool) {
        self.calls.push(SffCall::SetLpmode(lpmode));
        self.lpmode_result
    }

    fn get_tx_disable(&mut self) -> (r: Option<Vec<bool>>) {
        self.calls.push(SffCall::GetTxDisable);
        clone_lanes(&self.tx_disable)
    }

    fn tx_disable_channel(&mut self, media_lanes_mask: u32, disable: bool) -> (r: bool) {
        self.calls.push(SffCall::TxDisableChannel(media_lanes_mask, disable));
        self.tx_disable_channel_result
    }
}

/// Stand-ins by slot.
pub struct MockSffFactory {
    held: OrderedMap<usize, MockSffApi>,
}

impl MockSffFactory {
    /// The stand-ins.
    pub closed spec fn held(&self) -> Map<usize, MockSffApi> {
        self.held@
    }

    /// No slot has a module.
    pub fn new() -> (f: Self)
        ensures
            f.held() == Map::<usize, MockSffApi>::empty(),
    {
        MockSffFactory { held: OrderedMap::new() }
    }

    /// Puts a stand-in on a slot.
    pub fn put(&mut self, slot: usize, api: MockSffApi)
        ensures
            final(self).held() == old(self).held().insert(slot, api),
    {
        self.held.insert(slot, api);
    }

    /// The stand-in on a slot.
    pub fn at(&self, slot: usize) -> (r: Option<&MockSffApi>)
        ensures
            match r {
                Some(a) => self.held().dom().contains(slot) && *a == self.held()[slot],
                None => !self.held().dom().contains(slot),
            },
    {
        self.held.get(&slot)
    }
}

impl SffApiFactory for MockSffFactory {
    type Api = MockSffApi;

    open spec fn apis(&self) -> Apis {
        self.held().map_values(|a: MockSffApi| a.trace())
    }

    fn open(&mut self, slot: usize) -> (r: Option<MockSffApi>) {
        let r = self.held.remove(&slot);
        assert(self.apis() =~= old(self).apis().remove(slot));
        assert(r is None ==> self.apis() =~= old(self).apis());
        r
    }

    fn close(&mut self, slot: usize, api: MockSffApi) {
        let ghost t = api.trace();
        self.held.insert(slot, api);
        assert(self.apis() =~= old(self).apis().insert(slot, t));
    }
}

} // verus!
