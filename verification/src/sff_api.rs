//! Control of modules with an SFF memory map.

use vstd::prelude::*;

use crate::hal::{read_byte, write_byte, SfpAsk, SfpHandle, SfpTrace};
use crate::json::{field, get_field, ReplyView, Val, Value};
use crate::text::str_eq;

verus! {

/// A call of a module's control interface.
#[derive(Clone, Copy, Debug, PartialEq, Eq, Structural)]
pub enum SffCall {
    IsCmis,
    IsCopper,
    GetTxDisableSupport,
    GetPowerClass,
    SetHighPowerClass(i64, bool),
    GetLpmodeSupport,
    SetLpmode(bool),
    GetTxDisable,
    TxDisableChannel(u32, bool),
}

/// The answers of a control interface, each a function of the calls before it.
pub struct SffAnswers {
    pub is_cmis: spec_fn(Seq<SffCall>) -> bool,
    pub is_copper: spec_fn(Seq<SffCall>) -> Option<bool>,
    pub tx_disable_support: spec_fn(Seq<SffCall>) -> Option<bool>,
    pub power_class: spec_fn(Seq<SffCall>) -> Option<i64>,
    pub set_high_power_class: spec_fn(Seq<SffCall>, i64, bool) -> Option<bool>,
    pub lpmode_support: spec_fn(Seq<SffCall>) -> bool,
    pub set_lpmode: spec_fn(Seq<SffCall>, bool) -> bool,
    pub tx_disable: spec_fn(Seq<SffCall>) -> Option<Seq<bool>>,
    pub tx_disable_channel: spec_fn(Seq<SffCall>, u32, bool) -> bool,
}

/// The calls made so far and the answers of the interface.
pub struct SffTrace {
    pub answers: SffAnswers,
    pub calls: Seq<SffCall>,
}

impl SffTrace {
    /// The trace after one more call.
    pub open spec fn then_call(self, c: SffCall) -> SffTrace {
        SffTrace { answers: self.answers, calls: self.calls.push(c) }
    }
}

/// The view of a list of lane flags that may be missing.
pub open spec fn lanes_view(v: Option<Vec<bool>>) -> Option<Seq<bool>> {
    match v {
        Some(v) => Some(v@),
        None => None,
    }
}

/// The control interface of a module with an SFF memory map. `None` is the
/// answer of a module that lacks the routine.
pub trait SffApi {
    /// The calls made so far and what the interface answers.
    spec fn trace(&self) -> SffTrace;

    /// Whether the interface can be called.
    spec fn ready(&self) -> bool;

    /// Whether the module has a CMIS memory map and belongs to another manager.
    fn is_cmis(&mut self) -> (r: bool)
        requires
            old(self).ready(),
        ensures
            final(self).ready(),
            r == (old(self).trace().answers.is_cmis)(old(self).trace().calls),
            final(self).trace() == old(self).trace().then_call(SffCall::IsCmis),
    ;

    /// Whether the module is a copper cable.
    fn is_copper(&mut self) -> (r: Option<bool>)
        requires
            old(self).ready(),
        ensures
            final(self).ready(),
            r == (old(self).trace().answers.is_copper)(old(self).trace().calls),
            final(self).trace() == old(self).trace().then_call(SffCall::IsCopper),
    ;

    /// Whether transmitters can be switched off.
    fn get_tx_disable_support(&mut self) -> (r: Option<bool>)
        requires
            old(self).ready(),
        ensures
            final(self).ready(),
            r == (old(self).trace().answers.tx_disable_support)(old(self).trace().calls),
            final(self).trace() == old(self).trace().then_call(SffCall::GetTxDisableSupport),
    ;

    /// The power class.
    fn get_power_class(&mut self) -> (r: Option<i64>)
        requires
            old(self).ready(),
        ensures
            final(self).ready(),
            r == (old(self).trace().answers.power_class)(old(self).trace().calls),
            final(self).trace() == old(self).trace().then_call(SffCall::GetPowerClass),
    ;

    /// Allows or forbids the power of a high power class.
    fn set_high_power_class(&mut self, power_class: i64, enable: bool) -> (r: Option<bool>)
        requires
            old(self).ready(),
        ensures
            final(self).ready(),
            r == (old(self).trace().answers.set_high_power_class)(
                old(self).trace().calls,
                power_class,
                enable,
            ),
            final(self).trace() == old(self).trace().then_call(
                SffCall::SetHighPowerClass(power_class, enable),
            ),
    ;

    /// Whether the module has a low-power mode.
    fn get_lpmode_support(&mut self) -> (r: bool)
        requires
            old(self).ready(),
        ensures
            final(self).ready(),
            r == (old(self).trace().answers.lpmode_support)(old(self).trace().calls),
            final(self).trace() == old(self).trace().then_call(SffCall::GetLpmodeSupport),
    ;

    /// Enters or leaves low-power mode.
    fn set_lpmode(&mut self, lpmode: bool) -> (r: bool)
        requires
            old(self).ready(),
        ensures
            final(self).ready(),
            r == (old(self).trace().answers.set_lpmode)(old(self).trace().calls, lpmode),
            final(self).trace() == old(self).trace().then_call(SffCall::SetLpmode(lpmode)),
    ;

    /// Whether each transmitter is switched off.
    fn get_tx_disable(&mut self) -> (r: Option<Vec<bool>>)
        requires
            old(self).ready(),
        ensures
            final(self).ready(),
            lanes_view(r) == (old(self).trace().answers.tx_disable)(old(self).trace().calls),
            final(self).trace() == old(self).trace().then_call(SffCall::GetTxDisable),
    ;

    /// Switches the transmitters in the mask off or on.
    fn tx_disable_channel(&mut self, media_lanes_mask: u32, disable: bool) -> (r: bool)
        requires
            old(self).ready(),
        ensures
            final(self).ready(),
            r == (old(self).trace().answers.tx_disable_channel)(
                old(self).trace().calls,
                media_lanes_mask,
                disable,
            ),
            final(self).trace() == old(self).trace().then_call(
                SffCall::TxDisableChannel(media_lanes_mask, disable),
            ),
    ;
}

// ---- registers ----

/// Transmitter disable, one bit for each lane.
pub const SFF_TX_DISABLE_OFFSET: usize = 86;

/// Power and low-power control, and the enables of the high power classes.
pub const SFF_LPMODE_HP_CTRL_OFFSET: usize = 93;

/// Extended identifier with the power class.
pub const SFF_POWER_CLASS_OFFSET: usize = 129;

/// Device technology.
pub const SFF_DEVICE_TECH_OFFSET: usize = 147;

/// Options.
pub const SFF_OPTIONS_OFFSET: usize = 195;

/// The enable of the power classes 5 to 7.
pub const SFF_HIGH_POWER_CLASS_5_7_BIT: u8 = 0x04;

/// The enable of power class 8.
pub const SFF_HIGH_POWER_CLASS_8_BIT: u8 = 0x08;

/// The power class that the extended identifier gives: the low bits give the
/// classes 5 to 7, the next bit class 8, and else the high bits the classes 1
/// to 4.
pub open spec fn power_class_of(b: u8) -> i64 {
    if b & 0x03 != 0 {
        (4 + (b & 0x03) as int) as i64
    } else if b & 0x04 != 0 {
        8
    } else {
        (((b >> 6) & 0x03) as int + 1) as i64
    }
}

/// The power control byte with the enables of the high power classes set as the
/// class asks, or cleared.
pub open spec fn high_power_byte(b: u8, power_class: i64, enable: bool) -> u8 {
    if enable {
        if power_class >= 8 {
            (b | 0x04) | 0x08
        } else {
            b | 0x04
        }
    } else {
        b & !(0x04u8 | 0x08u8)
    }
}

/// The flags of the four lanes in a register.
pub open spec fn lane_flags(b: u8) -> Seq<bool> {
    Seq::new(4, |i: int| b & (1u8 << (i as u8)) != 0)
}

/// The transmitter disable byte with the lanes from `lane` on that are in the
/// mask set or cleared.
pub open spec fn tx_disable_byte(b: u8, mask: u32, disable: bool, lane: nat) -> u8
    decreases 4 - lane,
{
    if lane >= 4 {
        b
    } else {
        let bit = 1u8 << (lane as u8);
        let next = if mask & (1u32 << (lane as u32)) == 0 {
            b
        } else if disable {
            b | bit
        } else {
            b & !bit
        };
        tx_disable_byte(next, mask, disable, lane + 1)
    }
}

/// The byte that a register read gave, or 0.
pub open spec fn or_zero(b: Option<u8>) -> u8 {
    match b {
        Some(b) => b,
        None => 0,
    }
}

/// Switching lanes off sets exactly the bits in the mask and switching them on
/// clears exactly those.
pub proof fn tx_disable_byte_is_masked(b: u8, mask: u32)
    ensures
        tx_disable_byte(b, mask, true, 0) == b | ((mask & 0x0f) as u8),
        tx_disable_byte(b, mask, false, 0) == b & !((mask & 0x0f) as u8),
{
    reveal_with_fuel(tx_disable_byte, 5);
    assert(({
        let b1 = if mask & (1u32 << 0u32) == 0 { b } else { b | (1u8 << 0u8) };
        let b2 = if mask & (1u32 << 1u32) == 0 { b1 } else { b1 | (1u8 << 1u8) };
        let b3 = if mask & (1u32 << 2u32) == 0 { b2 } else { b2 | (1u8 << 2u8) };
        let b4 = if mask & (1u32 << 3u32) == 0 { b3 } else { b3 | (1u8 << 3u8) };
        b4 == b | ((mask & 0x0f) as u8)
    })) by (bit_vector);
    assert(({
        let b1 = if mask & (1u32 << 0u32) == 0 { b } else { b & !(1u8 << 0u8) };
        let b2 = if mask & (1u32 << 1u32) == 0 { b1 } else { b1 & !(1u8 << 1u8) };
        let b3 = if mask & (1u32 << 2u32) == 0 { b2 } else { b2 & !(1u8 << 2u8) };
        let b4 = if mask & (1u32 << 3u32) == 0 { b3 } else { b3 & !(1u8 << 3u8) };
        b4 == b & !((mask & 0x0f) as u8)
    })) by (bit_vector);
}

/// The power class is one of the eight.
pub proof fn power_class_in_range(b: u8)
    ensures
        1 <= power_class_of(b) <= 8,
{
    assert(b & 0x03 <= 3) by (bit_vector);
    assert((b >> 6) & 0x03 <= 3) by (bit_vector);
}

// ---- the interface over a module's memory ----

/// Whether an identity names a module type with a CMIS memory map.
pub open spec fn names_cmis_type(info: Option<ReplyView>) -> bool {
    match info {
        Some(r) => match r.fields {
            Some(f) => match field(f, "type_abbrv_name"@) {
                Some(Val::Str(s)) => is_cmis_type(s),
                _ => false,
            },
            None => false,
        },
        None => false,
    }
}

/// Whether modules of this type have a CMIS memory map.
pub open spec fn is_cmis_type(s: Seq<char>) -> bool {
    s == "QSFP-DD"@ || s == "QSFP_DD"@ || s == "OSFP"@ || s == "OSFP-8X"@ || s == "QSFP+C"@
}

/// The requests that a call makes to the module.
pub open spec fn carried_out(t: SfpTrace, c: SffCall) -> SfpTrace {
    match c {
        SffCall::IsCmis => t.then_ask(SfpAsk::Info),
        SffCall::IsCopper => t.then_ask(SfpAsk::Read(SFF_DEVICE_TECH_OFFSET, 1)),
        SffCall::GetTxDisableSupport => t.then_ask(SfpAsk::Read(SFF_OPTIONS_OFFSET, 1)),
        SffCall::GetPowerClass => t.then_ask(SfpAsk::Read(SFF_POWER_CLASS_OFFSET, 1)),
        SffCall::SetHighPowerClass(p, on) => {
            let b = high_power_byte(or_zero(t.byte(SFF_LPMODE_HP_CTRL_OFFSET)), p, on);
            t.then_ask(SfpAsk::Read(SFF_LPMODE_HP_CTRL_OFFSET, 1)).then_ask(
                SfpAsk::Write(SFF_LPMODE_HP_CTRL_OFFSET, seq![b]),
            )
        },
        SffCall::GetLpmodeSupport => t,
        SffCall::SetLpmode(on) => t.then_ask(SfpAsk::SetLpmode(on)),
        SffCall::GetTxDisable => t.then_ask(SfpAsk::Read(SFF_TX_DISABLE_OFFSET, 1)),
        SffCall::TxDisableChannel(mask, off) => {
            let b = tx_disable_byte(or_zero(t.byte(SFF_TX_DISABLE_OFFSET)), mask, off, 0);
            t.then_ask(SfpAsk::Read(SFF_TX_DISABLE_OFFSET, 1)).then_ask(
                SfpAsk::Write(SFF_TX_DISABLE_OFFSET, seq![b]),
            )
        },
    }
}

/// The requests that a list of calls makes to the module.
pub open spec fn all_carried_out(t: SfpTrace, calls: Seq<SffCall>) -> SfpTrace
    decreases calls.len(),
{
    if calls.len() == 0 {
        t
    } else {
        carried_out(all_carried_out(t, calls.drop_last()), calls.last())
    }
}

proof fn one_more_call(t: SfpTrace, calls: Seq<SffCall>, c: SffCall)
    ensures
        all_carried_out(t, calls.push(c)) == carried_out(all_carried_out(t, calls), c),
{
    assert(calls.push(c).drop_last() =~= calls);
}

/// What the interface over a module's memory answers, for a module whose trace
/// was `base` when the interface was made.
pub open spec fn register_answers(base: SfpTrace) -> SffAnswers {
    SffAnswers {
        is_cmis: |h: Seq<SffCall>| names_cmis_type(all_carried_out(base, h).info()),
        is_copper: |h: Seq<SffCall>|
            match all_carried_out(base, h).byte(SFF_DEVICE_TECH_OFFSET) {
                Some(b) => Some((b >> 4) >= 0x0a),
                None => Some(false),
            },
        tx_disable_support: |h: Seq<SffCall>|
            match all_carried_out(base, h).byte(SFF_OPTIONS_OFFSET) {
                Some(b) => Some(b & 0x10 != 0),
                None => Some(false),
            },
        power_class: |h: Seq<SffCall>|
            match all_carried_out(base, h).byte(SFF_POWER_CLASS_OFFSET) {
                Some(b) => Some(power_class_of(b)),
                None => None,
            },
        set_high_power_class: |h: Seq<SffCall>, p: i64, on: bool|
            {
                let t = all_carried_out(base, h);
                let b = high_power_byte(or_zero(t.byte(SFF_LPMODE_HP_CTRL_OFFSET)), p, on);
                Some(
                    t.then_ask(SfpAsk::Read(SFF_LPMODE_HP_CTRL_OFFSET, 1)).writes(
                        SFF_LPMODE_HP_CTRL_OFFSET,
                        seq![b],
                    ),
                )
            },
        lpmode_support: |h: Seq<SffCall>| true,
        set_lpmode: |h: Seq<SffCall>, on: bool|
            {
                let t = all_carried_out(base, h);
                (t.answers.set_lpmode)(t.asked, on)
            },
        tx_disable: |h: Seq<SffCall>|
            match all_carried_out(base, h).byte(SFF_TX_DISABLE_OFFSET) {
                Some(b) => Some(lane_flags(b)),
                None => None,
            },
        tx_disable_channel: |h: Seq<SffCall>, mask: u32, off: bool|
            {
                let t = all_carried_out(base, h);
                let b = tx_disable_byte(or_zero(t.byte(SFF_TX_DISABLE_OFFSET)), mask, off, 0);
                t.then_ask(SfpAsk::Read(SFF_TX_DISABLE_OFFSET, 1)).writes(
                    SFF_TX_DISABLE_OFFSET,
                    seq![b],
                )
            },
    }
}

/// The control interface over a module's memory.
pub struct BridgeSffApi<S: SfpHandle> {
    sfp: S,
    base: Ghost<SfpTrace>,
    calls: Ghost<Seq<SffCall>>,
}

impl<S: SfpHandle> BridgeSffApi<S> {
    /// The trace of the module when the interface was made.
    pub closed spec fn base(&self) -> SfpTrace {
        self.base@
    }

    /// An interface over the memory of `sfp`.
    pub fn new(sfp: S) -> (a: Self)
        ensures
            a.ready(),
            a.trace().calls == Seq::<SffCall>::empty(),
            a.trace().answers == register_answers(sfp.trace()),
            a.base() == sfp.trace(),
    {
        let ghost t = sfp.trace();
        BridgeSffApi { sfp, base: Ghost(t), calls: Ghost(Seq::empty()) }
    }

    fn note(&mut self, Ghost(c): Ghost<SffCall>)
        ensures
            final(self).sfp == old(self).sfp,
            final(self).base == old(self).base,
            final(self).calls@ == old(self).calls@.push(c),
            all_carried_out(old(self).base@, final(self).calls@) == carried_out(
                all_carried_out(old(self).base@, old(self).calls@),
                c,
            ),
    {
        proof {
            one_more_call(self.base@, self.calls@, c);
            self.calls@ = self.calls@.push(c);
        }
    }

    /// The module, with the requests that the calls made to it.
    pub fn into_sfp(self) -> (sfp: S)
        requires
            self.ready(),
        ensures
            sfp.trace() == all_carried_out(self.base(), self.trace().calls),
    {
        self.sfp
    }
}

/// Whether modules of this type have a CMIS memory map.
fn cmis_type(s: &str) -> (r: bool)
    ensures
        r == is_cmis_type(s@),
{
    str_eq(s, "QSFP-DD") || str_eq(s, "QSFP_DD") || str_eq(s, "OSFP") || str_eq(s, "OSFP-8X")
        || str_eq(s, "QSFP+C")
}

impl<S: SfpHandle> SffApi for BridgeSffApi<S> {
    closed spec fn trace(&self) -> SffTrace {
        SffTrace { answers: register_answers(self.base@), calls: self.calls@ }
    }

    closed spec fn ready(&self) -> bool {
        self.sfp.trace() == all_carried_out(self.base@, self.calls@)
    }

    fn is_cmis(&mut self) -> (r: bool) {
        let reply = self.sfp.get_transceiver_info();
        self.note(Ghost(SffCall::IsCmis));
        match reply {
            Some(reply) => match &reply.fields {
                Some(f) => match get_field(f, "type_abbrv_name") {
                    Some(Value::Str(s)) => cmis_type(s.as_str()),
                    _ => false,
                },
                None => false,
            },
            None => false,
        }
    }

    fn is_copper(&mut self) -> (r: Option<bool>) {
        let b = read_byte(&mut self.sfp, SFF_DEVICE_TECH_OFFSET);
        self.note(Ghost(SffCall::IsCopper));
        match b {
            Some(b) => Some((b >> 4) >= 0x0a),
            None => Some(false),
        }
    }

    fn get_tx_disable_support(&mut self) -> (r: Option<bool>) {
        let b = read_byte(&mut self.sfp, SFF_OPTIONS_OFFSET);
        self.note(Ghost(SffCall::GetTxDisableSupport));
        match b {
            Some(b) => Some(b & 0x10 != 0),
            None => Some(false),
        }
    }

    fn get_power_class(&mut self) -> (r: Option<i64>) {
        let b = read_byte(&mut self.sfp, SFF_POWER_CLASS_OFFSET);
        self.note(Ghost(SffCall::GetPowerClass));
        match b {
            Some(b) => {
                proof {
                    power_class_in_range(b);
                }
                Some(
                    if b & 0x03 != 0 {
                        4 + (b & 0x03) as i64
                    } else if b & 0x04 != 0 {
                        8
                    } else {
                        ((b >> 6) & 0x03) as i64 + 1
                    },
                )
            },
            None => None,
        }
    }

    fn set_high_power_class(&mut self, power_class: i64, enable: bool) -> (r: Option<bool>) {
        let mut b: u8 = match read_byte(&mut self.sfp, SFF_LPMODE_HP_CTRL_OFFSET) {
            Some(b) => b,
            None => 0,
        };
        if enable {
            b = b | SFF_HIGH_POWER_CLASS_5_7_BIT;
            if power_class >= 8 {
                b = b | SFF_HIGH_POWER_CLASS_8_BIT;
            }
        } else {
            b = b & !(SFF_HIGH_POWER_CLASS_5_7_BIT | SFF_HIGH_POWER_CLASS_8_BIT);
        }
        let done = write_byte(&mut self.sfp, SFF_LPMODE_HP_CTRL_OFFSET, b);
        self.note(Ghost(SffCall::SetHighPowerClass(power_class, enable)));
        Some(done)
    }

    fn get_lpmode_support(&mut self) -> (r: bool) {
        self.note(Ghost(SffCall::GetLpmodeSupport));
        true
    }

    fn set_lpmode(&mut self, lpmode: bool) -> (r: bool) {
        let done = self.sfp.set_lpmode(lpmode);
        self.note(Ghost(SffCall::SetLpmode(lpmode)));
        done
    }

    fn get_tx_disable(&mut self) -> (r: Option<Vec<bool>>) {
        let b = read_byte(&mut self.sfp, SFF_TX_DISABLE_OFFSET);
        self.note(Ghost(SffCall::GetTxDisable));
        match b {
            Some(b) => {
                let mut v: Vec<bool> = Vec::new();
                let mut lane: u8 = 0;
                while lane < 4
                    invariant
                        lane <= 4,
                        v@ == lane_flags(b).take(lane as int),
                    decreases 4 - lane,
                {
                    v.push(b & (1u8 << lane) != 0);
                    lane += 1;
                    assert(lane_flags(b).take(lane as int) =~= lane_flags(b).take(lane - 1).push(
                        lane_flags(b)[lane - 1],
                    ));
                }
                assert(lane_flags(b).take(4) =~= lane_flags(b));
                Some(v)
            },
            None => None,
        }
    }

    fn tx_disable_channel(&mut self, media_lanes_mask: u32, disable: bool) -> (r: bool) {
        let mut b: u8 = match read_byte(&mut self.sfp, SFF_TX_DISABLE_OFFSET) {
            Some(b) => b,
            None => 0,
        };
        let ghost b0 = b;
        let mut lane: u8 = 0;
        while lane < 4
            invariant
                lane <= 4,
                tx_disable_byte(b0, media_lanes_mask, disable, 0) == tx_disable_byte(
                    b,
                    media_lanes_mask,
                    disable,
                    lane as nat,
                ),
            decreases 4 - lane,
        {
            if media_lanes_mask & (1u32 << (lane as u32)) != 0 {
                if disable {
                    b = b | (1u8 << lane);
                } else {
                    b = b & !(1u8 << lane);
                }
            }
            lane += 1;
        }
        let done = write_byte(&mut self.sfp, SFF_TX_DISABLE_OFFSET, b);
        self.note(Ghost(SffCall::TxDisableChannel(media_lanes_mask, disable)));
        done
    }
}

} // verus!
