//! What the stand-ins are for: they remember every request in its order and answer
//! always the same.

use vstd::prelude::*;

use crate::hal::{Ask, SfpAsk};
use crate::mock_hal::{
    canned_json, getters_called, memory_read, presence_asked, slept, waits, writes_of, SfpCanned,
};
use crate::mock_sff::{calls_to, channel_args, lpmode_args};
use crate::sff_api::SffCall;

verus! {

/// Calls are counted and their arguments listed one after the other: those of a
/// list of calls are those of its beginning and then those of its end.
pub proof fn calls_add_up(a: Seq<SffCall>, b: Seq<SffCall>, name: Seq<char>)
    ensures
        calls_to(a + b, name) == calls_to(a, name) + calls_to(b, name),
        channel_args(a + b) == channel_args(a) + channel_args(b),
        lpmode_args(a + b) == lpmode_args(a) + lpmode_args(b),
    decreases b.len(),
{
    if b.len() == 0 {
        assert(a + b =~= a);
        assert(channel_args(a) + channel_args(b) =~= channel_args(a));
        assert(lpmode_args(a) + lpmode_args(b) =~= lpmode_args(a));
    } else {
        let s = a + b;
        assert(s.drop_last() =~= a + b.drop_last());
        assert(s.last() == b.last());
        calls_add_up(a, b.drop_last(), name);
        assert(channel_args(s) =~= channel_args(a) + channel_args(b));
        assert(lpmode_args(s) =~= lpmode_args(a) + lpmode_args(b));
    }
}

/// A call counts for the method that it goes to, and its arguments are listed as
/// they were given.
pub proof fn call_is_remembered(mask: u32, off: bool, on: bool, p: i64)
    ensures
        calls_to(seq![SffCall::TxDisableChannel(mask, off)], "tx_disable_channel"@) == 1,
        channel_args(seq![SffCall::TxDisableChannel(mask, off)]) == seq![(mask, off)],
        lpmode_args(seq![SffCall::TxDisableChannel(mask, off)]) == Seq::<bool>::empty(),
        calls_to(seq![SffCall::SetLpmode(on)], "set_lpmode"@) == 1,
        lpmode_args(seq![SffCall::SetLpmode(on)]) == seq![on],
        channel_args(seq![SffCall::SetLpmode(on)]) == Seq::<(u32, bool)>::empty(),
        calls_to(seq![SffCall::SetHighPowerClass(p, on)], "set_high_power_class"@) == 1,
        calls_to(seq![SffCall::IsCmis], "is_cmis"@) == 1,
        calls_to(seq![SffCall::IsCopper], "is_copper"@) == 1,
        calls_to(seq![SffCall::GetTxDisableSupport], "get_tx_disable_support"@) == 1,
        calls_to(seq![SffCall::GetPowerClass], "get_power_class"@) == 1,
        calls_to(seq![SffCall::GetLpmodeSupport], "get_lpmode_support"@) == 1,
        calls_to(seq![SffCall::GetTxDisable], "get_tx_disable"@) == 1,
{
    reveal_with_fuel(calls_to, 2);
    reveal_with_fuel(channel_args, 2);
    reveal_with_fuel(lpmode_args, 2);
    assert(channel_args(seq![SffCall::TxDisableChannel(mask, off)]) =~= seq![(mask, off)]);
    assert(lpmode_args(seq![SffCall::SetLpmode(on)]) =~= seq![on]);
}

/// The calls of a method are at most as many as there are calls, and none where no
/// call has its name.
pub proof fn calls_are_counted_by_name(calls: Seq<Seq<char>>, more: Seq<Seq<char>>, name: Seq<char>)
    ensures
        crate::cmis::mock_cmis::calls_to(calls + more, name) == crate::cmis::mock_cmis::calls_to(
            calls,
            name,
        ) + crate::cmis::mock_cmis::calls_to(more, name),
        crate::cmis::mock_cmis::calls_to(seq![name], name) == 1,
        !calls.contains(name) ==> crate::cmis::mock_cmis::calls_to(calls, name) == 0,
    decreases calls.len() + more.len(),
{
    reveal_with_fuel(crate::cmis::mock_cmis::calls_to, 2);
    if more.len() == 0 {
        assert(calls + more =~= calls);
    } else {
        assert((calls + more).drop_last() =~= calls + more.drop_last());
        assert((calls + more).last() == more.last());
        calls_are_counted_by_name(calls, more.drop_last(), name);
    }
    if calls.len() > 0 && !calls.contains(name) {
        let d = calls.drop_last();
        calls_are_counted_by_name(d, Seq::empty(), name);
        assert(calls[calls.len() - 1] != name);
        if d.contains(name) {
            assert(calls[d.index_of(name)] == name);
        }
    }
}

/// The writes to a module are listed in their order, and nothing else is.
pub proof fn writes_are_listed(a: Seq<SfpAsk>, b: Seq<SfpAsk>, at: usize, bytes: Seq<u8>)
    ensures
        writes_of(a + b) == writes_of(a) + writes_of(b),
        writes_of(seq![SfpAsk::Write(at, bytes)]) == seq![(at, bytes)],
        (forall|i: int| 0 <= i < b.len() ==> !(#[trigger] b[i] is Write)) ==> writes_of(b).len()
            == 0,
    decreases b.len(),
{
    reveal_with_fuel(writes_of, 2);
    let one = seq![SfpAsk::Write(at, bytes)];
    assert(one.drop_last() =~= Seq::<SfpAsk>::empty());
    assert(writes_of(one) =~= seq![(at, bytes)]);
    if b.len() == 0 {
        assert(a + b =~= a);
        assert(writes_of(a) + writes_of(b) =~= writes_of(a));
    } else {
        let s = a + b;
        let d = b.drop_last();
        assert(s.drop_last() =~= a + d);
        assert(s.last() == b.last());
        writes_are_listed(a, d, at, bytes);
        assert(writes_of(s) =~= writes_of(a) + writes_of(b));
        if forall|i: int| 0 <= i < b.len() ==> !(#[trigger] b[i] is Write) {
            assert(!(b[b.len() - 1] is Write));
            assert forall|i: int| 0 <= i < d.len() implies !(#[trigger] d[i] is Write) by {
                assert(d[i] == b[i]);
            }
        }
    }
}

/// What a slot was asked is counted and listed in its order, and waits are counted.
pub proof fn questions_add_up(a: Seq<Ask>, b: Seq<Ask>, port: usize)
    ensures
        getters_called(a + b, port) == getters_called(a, port) + getters_called(b, port),
        presence_asked(a + b, port) == presence_asked(a, port) + presence_asked(b, port),
        waits(a + b) == waits(a) + waits(b),
    decreases b.len(),
{
    if b.len() == 0 {
        assert(a + b =~= a);
        assert(getters_called(a, port) + getters_called(b, port) =~= getters_called(a, port));
    } else {
        let s = a + b;
        assert(s.drop_last() =~= a + b.drop_last());
        assert(s.last() == b.last());
        questions_add_up(a, b.drop_last(), port);
        assert(getters_called(s, port) =~= getters_called(a, port) + getters_called(b, port));
    }
}

/// A question counts for the slot that it goes to and for no other. Time passes only
/// while the daemon sleeps.
pub proof fn question_is_remembered(
    asked: Seq<Ask>,
    port: usize,
    other: usize,
    m: Seq<char>,
    ms: u64,
)
    requires
        other != port,
    ensures
        getters_called(asked.push(Ask::Json(port, m)), port) == getters_called(asked, port).push(m),
        getters_called(asked.push(Ask::Json(port, m)), other) == getters_called(asked, other),
        presence_asked(asked.push(Ask::Presence(port)), port) == presence_asked(asked, port) + 1,
        presence_asked(asked.push(Ask::Presence(port)), other) == presence_asked(asked, other),
        waits(asked.push(Ask::Updates(ms))) == waits(asked) + 1,
        waits(asked.push(Ask::Stop)) == waits(asked),
        slept(asked) + ms <= u64::MAX ==> slept(asked.push(Ask::Sleep(ms))) == slept(asked) + ms,
        slept(asked.push(Ask::Stop)) == slept(asked),
        slept(asked.push(Ask::Uptime)) == slept(asked),
{
    assert(asked.push(Ask::Json(port, m)).drop_last() =~= asked);
    assert(asked.push(Ask::Presence(port)).drop_last() =~= asked);
    assert(asked.push(Ask::Updates(ms)).drop_last() =~= asked);
    assert(asked.push(Ask::Stop).drop_last() =~= asked);
    assert(asked.push(Ask::Uptime).drop_last() =~= asked);
    assert(asked.push(Ask::Sleep(ms)).drop_last() =~= asked);
}

/// A read of memory gives the bytes in their order where all of them are there, and
/// nothing where one is missing.
pub proof fn memory_is_read_in_order(m: Map<usize, u8>, at: usize, n: usize, i: int)
    requires
        0 <= i < n,
        at + n <= usize::MAX,
    ensures
        !m.dom().contains((at + i) as usize) ==> memory_read(m, at, n) is None,
        memory_read(m, at, n) matches Some(b) ==> b.len() == n && b[i] == m[(at + i) as usize],
        (forall|k: usize| at <= k < at + n ==> #[trigger] m.dom().contains(k)) ==> memory_read(
            m,
            at,
            n,
        ) is Some,
{
    if memory_read(m, at, n) is Some {
        assert(crate::mock_hal::has_byte(m, at + i));
    }
    if forall|k: usize| at <= k < at + n ==> #[trigger] m.dom().contains(k) {
        assert forall|k: int| 0 <= k < n implies #[trigger] crate::mock_hal::has_byte(
            m,
            at + k,
        ) by {
            assert(m.dom().contains((at + k) as usize));
        }
    }
}

/// The getters with a fixed answer give it, and every other one gives what was set
/// for it.
pub proof fn getters_have_their_answers(c: SfpCanned, method: Seq<char>)
    ensures
        canned_json(c, "get_transceiver_info"@) == Some(c.info),
        canned_json(c, "get_transceiver_dom_real_value"@) == Some(c.dom_real_value),
        canned_json(c, "get_transceiver_status"@) == Some(c.status),
        canned_json(c, "get_transceiver_threshold_info"@) == Some(c.threshold_info),
        method != "get_transceiver_info"@ && method != "get_transceiver_dom_real_value"@ && method
            != "get_transceiver_status"@ && method != "get_transceiver_threshold_info"@ ==> {
            &&& c.json_calls.dom().contains(method) ==> canned_json(c, method) == Some(
                c.json_calls[method],
            )
            &&& !c.json_calls.dom().contains(method) ==> canned_json(c, method) is None
        },
{
    reveal_strlit("get_transceiver_info");
    reveal_strlit("get_transceiver_dom_real_value");
    reveal_strlit("get_transceiver_status");
    reveal_strlit("get_transceiver_threshold_info");
    assert("get_transceiver_info"@.len() == 20);
    assert("get_transceiver_dom_real_value"@.len() == 30);
    assert("get_transceiver_status"@.len() == 22);
    assert("get_transceiver_threshold_info"@[16] == 't');
    assert("get_transceiver_dom_real_value"@[16] == 'd');
}

} // verus!
