//! What freezing the statistics of a module is for: it is done only when the module
//! has confirmed it, and it is given up in time.

use vstd::prelude::*;

use crate::dom::dom_mgr::interval_of;
use crate::dom::vdm::{
    acted, confirmed, froze, further_looks, since, unfroze, VdmUtils,
    FREEZE_UNFREEZE_DONE_POLLING_INTERVAL_MSECS, MAX_TVDMF_TIME_MSECS,
    MAX_VDM_FREEZE_UNFREEZE_TIME_MSECS,
};
use crate::hal::{Ask, Trace};
use crate::json::{reply_true, truthy};

verus! {

/// Whether a look at a done bit found it set: the last request is the look, and the
/// answer to it was true.
pub open spec fn ends_with_a_done(tr: Trace, port: usize, status: Seq<char>) -> bool {
    &&& tr.asked.len() > 0
    &&& tr.asked.last() == Ask::Json(port, status)
    &&& (tr.answers.json)(tr.asked.drop_last(), port, status) matches Some(r) && truthy(r.value)
}

proof fn confirming_sees_the_bit(
    u: VdmUtils,
    tr: Trace,
    port: usize,
    status: Seq<char>,
    start: u64,
    left: nat,
)
    ensures
        ({
            let (ok, after) = confirmed(u, tr, port, status, start, left);
            &&& ok ==> ends_with_a_done(after, port, status)
            &&& after.answers == tr.answers
            &&& after.asked.len() <= tr.asked.len() + 3 * (left + 1)
        }),
    decreases left,
{
    let t1 = tr.then_ask(Ask::Uptime);
    let t2 = t1.then_ask(Ask::Json(port, status));
    assert(t2.asked.drop_last() =~= t1.asked);
    if left > 0 {
        confirming_sees_the_bit(
            u,
            t2.then_ask(Ask::Sleep(u.poll)),
            port,
            status,
            start,
            (left - 1) as nat,
        );
    }
}

/// An action counts as done only when the module has taken it and has told that it
/// is done. The looks are limited in number: at most one at first and one more for
/// each pause that the time has room for.
pub proof fn action_is_done_when_confirmed(
    u: VdmUtils,
    tr: Trace,
    port: usize,
    action: Seq<char>,
    status: Seq<char>,
)
    ensures
        ({
            let (ok, after) = acted(u, tr, port, action, status);
            &&& ok ==> reply_true(tr.json(port, action)) && ends_with_a_done(after, port, status)
            &&& !reply_true(tr.json(port, action)) ==> !ok && after == tr.then_ask(
                Ask::Json(port, action),
            )
            &&& u.poll > 0 ==> after.asked.len() <= tr.asked.len() + 6 + 3 * (u.timeout
                / u.poll)
        }),
{
    let t1 = tr.then_ask(Ask::Json(port, action));
    let t2 = t1.then_ask(Ask::Sleep(u.settle));
    let t3 = t2.then_ask(Ask::Uptime);
    confirming_sees_the_bit(u, t3, port, status, t2.uptime(), further_looks(u));
}

/// Whether a module in a slot says the same about an action and its done bit
/// whenever it is asked, and no time passes.
pub open spec fn answers_steadily(
    tr: Trace,
    port: usize,
    action: Seq<char>,
    status: Seq<char>,
    now: u64,
) -> bool {
    &&& forall|h: Seq<Ask>| #[trigger] (tr.answers.uptime)(h) == now
    &&& forall|h: Seq<Ask>| #[trigger]
        (tr.answers.json)(h, port, action) == (tr.answers.json)(Seq::empty(), port, action)
    &&& forall|h: Seq<Ask>| #[trigger]
        (tr.answers.json)(h, port, status) == (tr.answers.json)(Seq::empty(), port, status)
}

proof fn unset_bit_is_never_confirmed(
    u: VdmUtils,
    tr: Trace,
    port: usize,
    status: Seq<char>,
    start: u64,
    left: nat,
)
    requires
        forall|h: Seq<Ask>| !reply_true(#[trigger] (tr.answers.json)(h, port, status)),
    ensures
        !confirmed(u, tr, port, status, start, left).0,
    decreases left,
{
    let t1 = tr.then_ask(Ask::Uptime);
    assert(!reply_true((t1.answers.json)(t1.asked, port, status)));
    if left > 0 {
        let t3 = t1.then_ask(Ask::Json(port, status)).then_ask(Ask::Sleep(u.poll));
        unset_bit_is_never_confirmed(u, t3, port, status, start, (left - 1) as nat);
    }
}

/// A module that takes the action and tells that it is done has it confirmed at the
/// first look, after the time that it needs to settle. One that never tells so, and
/// one for which no time is allowed, has it never confirmed.
pub proof fn done_bit_decides(
    u: VdmUtils,
    tr: Trace,
    port: usize,
    action: Seq<char>,
    status: Seq<char>,
    now: u64,
)
    requires
        answers_steadily(tr, port, action, status, now),
        reply_true(tr.json(port, action)),
    ensures
        ({
            let (ok, after) = acted(u, tr, port, action, status);
            let told = (tr.answers.json)(Seq::empty(), port, status);
            &&& reply_true(told) && u.timeout > 0 ==> ok && after.asked == tr.asked.push(
                Ask::Json(port, action),
            ).push(Ask::Sleep(u.settle)).push(Ask::Uptime).push(Ask::Uptime).push(
                Ask::Json(port, status),
            )
            &&& !reply_true(told) || u.timeout == 0 ==> !ok
        }),
{
    let t1 = tr.then_ask(Ask::Json(port, action));
    let t2 = t1.then_ask(Ask::Sleep(u.settle));
    let t3 = t2.then_ask(Ask::Uptime);
    let t4 = t3.then_ask(Ask::Uptime);
    let told = (tr.answers.json)(Seq::empty(), port, status);
    assert(t2.uptime() == now && t3.uptime() == now);
    assert((t4.answers.json)(t4.asked, port, status) == told);
    if !reply_true(told) {
        unset_bit_is_never_confirmed(u, t3, port, status, now, further_looks(u));
    }
}

/// Freezing and unfreezing are told apart: each is asked for by its own name and
/// confirmed by its own done bit.
pub proof fn freezing_has_its_own_bit(u: VdmUtils, tr: Trace, port: usize)
    ensures
        froze(u, tr, port).1.asked.len() > tr.asked.len(),
        froze(u, tr, port).1.asked[tr.asked.len() as int] == Ask::Json(
            port,
            "freeze_vdm_stats"@,
        ),
        unfroze(u, tr, port).1.asked[tr.asked.len() as int] == Ask::Json(
            port,
            "unfreeze_vdm_stats"@,
        ),
        froze(u, tr, port).0 ==> ends_with_a_done(
            froze(u, tr, port).1,
            port,
            "get_vdm_freeze_status"@,
        ),
        unfroze(u, tr, port).0 ==> ends_with_a_done(
            unfroze(u, tr, port).1,
            port,
            "get_vdm_unfreeze_status"@,
        ),
{
    action_is_done_when_confirmed(
        u,
        tr,
        port,
        "freeze_vdm_stats"@,
        "get_vdm_freeze_status"@,
    );
    action_is_done_when_confirmed(
        u,
        tr,
        port,
        "unfreeze_vdm_stats"@,
        "get_vdm_unfreeze_status"@,
    );
    acting_begins_with_the_action(
        u,
        tr,
        port,
        "freeze_vdm_stats"@,
        "get_vdm_freeze_status"@,
    );
    acting_begins_with_the_action(
        u,
        tr,
        port,
        "unfreeze_vdm_stats"@,
        "get_vdm_unfreeze_status"@,
    );
}

proof fn confirming_goes_on(
    u: VdmUtils,
    tr: Trace,
    port: usize,
    status: Seq<char>,
    start: u64,
    left: nat,
    i: int,
)
    requires
        0 <= i < tr.asked.len(),
    ensures
        ({
            let after = confirmed(u, tr, port, status, start, left).1;
            after.asked.len() > tr.asked.len() && after.asked[i] == tr.asked[i]
        }),
    decreases left,
{
    if left > 0 {
        let t3 = tr.then_ask(Ask::Uptime).then_ask(Ask::Json(port, status)).then_ask(
            Ask::Sleep(u.poll),
        );
        confirming_goes_on(u, t3, port, status, start, (left - 1) as nat, i);
    }
}

proof fn acting_begins_with_the_action(
    u: VdmUtils,
    tr: Trace,
    port: usize,
    action: Seq<char>,
    status: Seq<char>,
)
    ensures
        ({
            let after = acted(u, tr, port, action, status).1;
            &&& after.asked.len() > tr.asked.len()
            &&& after.asked[tr.asked.len() as int] == Ask::Json(port, action)
        }),
{
    let t1 = tr.then_ask(Ask::Json(port, action));
    let t2 = t1.then_ask(Ask::Sleep(u.settle));
    let t3 = t2.then_ask(Ask::Uptime);
    confirming_goes_on(
        u,
        t3,
        port,
        status,
        t2.uptime(),
        further_looks(u),
        tr.asked.len() as int,
    );
}

/// The time that has passed is never negative.
pub proof fn time_passes_forward(start: u64, now: u64)
    ensures
        now >= start ==> start + since(start, now) == now,
        now < start ==> since(start, now) == 0,
{
}

/// The interval between passes is the one that is given where it is not negative,
/// and a minute otherwise.
pub proof fn interval_is_a_minute_unless_given(n: i64)
    ensures
        n >= 0 ==> interval_of(Some(n)) == n,
        n < 0 ==> interval_of(Some(n)) == 60,
        interval_of(None) == 60,
{
}

/// A module has ten milliseconds to settle, and its done bit is looked at every
/// millisecond for a second.
pub proof fn module_has_a_second_to_confirm()
    ensures
        MAX_TVDMF_TIME_MSECS == 10,
        MAX_VDM_FREEZE_UNFREEZE_TIME_MSECS == 1000,
        FREEZE_UNFREEZE_DONE_POLLING_INTERVAL_MSECS == 1,
{
}

} // verus!
