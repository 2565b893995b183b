//! Stand-ins for a module and for the world around the daemon, with set answers
//! and a record of the requests.

use vstd::prelude::*;

use crate::assoc::OrderedMap;
use crate::bridge::{ChangeEvent, ChangeView};
use crate::db::text_view;
use crate::error::XcvrdError;
use crate::hal::{
    event_views, Answers, Ask, Hal, SfpAnswers, SfpAsk, SfpHandle, SfpTrace, Trace,
};
use crate::json::{reply_view, Reply, ReplyView, Val, Value};
use crate::mock::clone_fvs;
use crate::port::{EventView, PortChangeEvent};
use crate::text::{owned, str_eq};

verus! {

// ---- a module ----

/// The answers of a [`MockSfp`].
pub struct SfpCanned {
    pub presence: bool,
    pub replaceable: bool,
    pub reset_status: bool,
    pub sfp_type: Seq<char>,
    pub error_description: Option<Seq<char>>,
    pub info: ReplyView,
    pub dom_real_value: ReplyView,
    pub status: ReplyView,
    pub threshold_info: ReplyView,
    pub lpmode: bool,
    pub lpmode_err: bool,
    pub json_calls: Map<Seq<char>, ReplyView>,
    pub eeprom: Map<usize, u8>,
}

/// A reply that is null.
pub open spec fn null_reply() -> ReplyView {
    ReplyView { value: Val::Null, fields: None }
}

/// The answers of an empty slot.
pub open spec fn absent_canned() -> SfpCanned {
    SfpCanned {
        presence: false,
        replaceable: false,
        reset_status: false,
        sfp_type: ""@,
        error_description: None,
        info: null_reply(),
        dom_real_value: null_reply(),
        status: null_reply(),
        threshold_info: null_reply(),
        lpmode: false,
        lpmode_err: false,
        json_calls: Map::empty(),
        eeprom: Map::empty(),
    }
}

/// Whether memory has a byte at this address.
pub open spec fn has_byte(m: Map<usize, u8>, at: int) -> bool {
    at <= usize::MAX && m.dom().contains(at as usize)
}

/// What a read of memory gives: nothing where any byte is missing.
pub open spec fn memory_read(m: Map<usize, u8>, at: usize, n: usize) -> Option<Seq<u8>> {
    if forall|i: int| 0 <= i < n ==> #[trigger] has_byte(m, at + i) {
        Some(Seq::new(n as nat, |i: int| m[(at + i) as usize]))
    } else {
        None
    }
}

/// A module that answers always the same.
pub open spec fn canned_module(c: SfpCanned) -> SfpAnswers {
    SfpAnswers {
        read: |h: Seq<SfpAsk>, at: usize, n: usize| memory_read(c.eeprom, at, n),
        write: |h: Seq<SfpAsk>, at: usize, b: Seq<u8>| true,
        set_lpmode: |h: Seq<SfpAsk>, on: bool| true,
        info: |h: Seq<SfpAsk>| Some(c.info),
        status: |h: Seq<SfpAsk>| Some(c.status),
    }
}

/// What getter `method` of a module answers.
pub open spec fn canned_json(c: SfpCanned, method: Seq<char>) -> Option<ReplyView> {
    if method == "get_transceiver_info"@ {
        Some(c.info)
    } else if method == "get_transceiver_dom_real_value"@ {
        Some(c.dom_real_value)
    } else if method == "get_transceiver_status"@ {
        Some(c.status)
    } else if method == "get_transceiver_threshold_info"@ {
        Some(c.threshold_info)
    } else if c.json_calls.dom().contains(method) {
        Some(c.json_calls[method])
    } else {
        None
    }
}

/// A request that was made to a [`MockSfp`].
enum SfpCall {
    Read(usize, usize),
    Write(usize, Vec<u8>),
    SetLpmode(bool),
    Info,
    Status,
    Sleep(u64),
}

impl View for SfpCall {
    type V = SfpAsk;

    closed spec fn view(&self) -> SfpAsk {
        match *self {
            SfpCall::Read(at, n) => SfpAsk::Read(at, n),
            SfpCall::Write(at, b) => SfpAsk::Write(at, b@),
            SfpCall::SetLpmode(on) => SfpAsk::SetLpmode(on),
            SfpCall::Info => SfpAsk::Info,
            SfpCall::Status => SfpAsk::Status,
            SfpCall::Sleep(ms) => SfpAsk::Sleep(ms),
        }
    }
}

/// The writes among a list of requests, in order.
pub open spec fn writes_of(asked: Seq<SfpAsk>) -> Seq<(usize, Seq<u8>)>
    decreases asked.len(),
{
    if asked.len() == 0 {
        Seq::empty()
    } else {
        let before = writes_of(asked.drop_last());
        match asked.last() {
            SfpAsk::Write(at, b) => before.push((at, b)),
            _ => before,
        }
    }
}

/// The views of a list of writes.
pub open spec fn write_views(w: Seq<(usize, Vec<u8>)>) -> Seq<(usize, Seq<u8>)> {
    w.map_values(|p: (usize, Vec<u8>)| (p.0, p.1@))
}

/// A stand-in for a module.
pub struct MockSfp {
    presence: bool,
    replaceable: bool,
    reset_status: bool,
    sfp_type: String,
    error_description: Option<String>,
    info: Reply,
    dom_real_value: Reply,
    status: Reply,
    threshold_info: Reply,
    lpmode: bool,
    lpmode_err: bool,
    json_calls: OrderedMap<String, Reply>,
    eeprom: OrderedMap<usize, u8>,
    calls: Vec<SfpCall>,
}

fn null() -> (r: Reply)
    ensures
        r@ == null_reply(),
{
    Reply { value: Value::Null, fields: None }
}

impl MockSfp {
    /// The set answers.
    pub closed spec fn canned(&self) -> SfpCanned {
        SfpCanned {
            presence: self.presence,
            replaceable: self.replaceable,
            reset_status: self.reset_status,
            sfp_type: self.sfp_type@,
            error_description: text_view(self.error_description),
            info: self.info@,
            dom_real_value: self.dom_real_value@,
            status: self.status@,
            threshold_info: self.threshold_info@,
            lpmode: self.lpmode,
            lpmode_err: self.lpmode_err,
            json_calls: self.json_calls@.map_values(|r: Reply| r@),
            eeprom: self.eeprom@,
        }
    }

    /// The requests made so far.
    pub closed spec fn asked(&self) -> Seq<SfpAsk> {
        self.calls@.map_values(|c: SfpCall| c@)
    }

    /// An empty slot.
    pub fn absent() -> (s: Self)
        ensures
            s.canned() == absent_canned(),
            s.asked() == Seq::<SfpAsk>::empty(),
    {
        let s = MockSfp {
            presence: false,
            replaceable: false,
            reset_status: false,
            sfp_type: owned(""),
            error_description: None,
            info: null(),
            dom_real_value: null(),
            status: null(),
            threshold_info: null(),
            lpmode: false,
            lpmode_err: false,
            json_calls: OrderedMap::new(),
            eeprom: OrderedMap::new(),
            calls: Vec::new(),
        };
        assert(s.canned().json_calls =~= Map::empty());
        assert(s.asked() =~= Seq::<SfpAsk>::empty());
        s
    }

    /// A module that can be pulled.
    pub fn present() -> (s: Self)
        ensures
            s.canned() == (SfpCanned { presence: true, replaceable: true, ..absent_canned() }),
            s.asked() == Seq::<SfpAsk>::empty(),
    {
        let mut s = MockSfp::absent();
        s.presence = true;
        s.replaceable = true;
        s
    }

    /// The module with its identity set.
    pub fn with_info(self, v: Reply) -> (s: Self)
        ensures
            s.canned() == (SfpCanned { info: v@, ..self.canned() }),
            s.asked() == self.asked(),
    {
        MockSfp { info: v, ..self }
    }

    /// The module with its monitor values set.
    pub fn with_dom_real_value(self, v: Reply) -> (s: Self)
        ensures
            s.canned() == (SfpCanned { dom_real_value: v@, ..self.canned() }),
            s.asked() == self.asked(),
    {
        MockSfp { dom_real_value: v, ..self }
    }

    /// The module with its thresholds set.
    pub fn with_threshold_info(self, v: Reply) -> (s: Self)
        ensures
            s.canned() == (SfpCanned { threshold_info: v@, ..self.canned() }),
            s.asked() == self.asked(),
    {
        MockSfp { threshold_info: v, ..self }
    }

    /// The module with its status set.
    pub fn with_status(self, v: Reply) -> (s: Self)
        ensures
            s.canned() == (SfpCanned { status: v@, ..self.canned() }),
            s.asked() == self.asked(),
    {
        MockSfp { status: v, ..self }
    }

    /// The module with its low-power mode set.
    pub fn with_lpmode(self, v: bool) -> (s: Self)
        ensures
            s.canned() == (SfpCanned { lpmode: v, ..self.canned() }),
            s.asked() == self.asked(),
    {
        MockSfp { lpmode: v, ..self }
    }

    /// The module with low-power mode made unreadable, or readable.
    pub fn with_lpmode_err(self, v: bool) -> (s: Self)
        ensures
            s.canned() == (SfpCanned { lpmode_err: v, ..self.canned() }),
            s.asked() == self.asked(),
    {
        MockSfp { lpmode_err: v, ..self }
    }

    /// The module with the reply of getter `method` set.
    pub fn with_json(self, method: &str, value: Reply) -> (s: Self)
        ensures
            s.canned() == (SfpCanned {
                json_calls: self.canned().json_calls.insert(method@, value@),
                ..self.canned()
            }),
            s.asked() == self.asked(),
    {
        let ghost before = self.canned().json_calls;
        let ghost v = value@;
        let mut s = self;
        s.json_calls.insert(owned(method), value);
        assert(s.canned().json_calls =~= before.insert(method@, v));
        s
    }

    /// The module with a byte of memory set.
    pub fn with_eeprom(self, offset: usize, byte: u8) -> (s: Self)
        ensures
            s.canned() == (SfpCanned {
                eeprom: self.canned().eeprom.insert(offset, byte),
                ..self.canned()
            }),
            s.asked() == self.asked(),
    {
        let mut s = self;
        s.eeprom.insert(offset, byte);
        s
    }

    /// Whether there is a module.
    pub fn get_presence(&self) -> (r: bool)
        ensures
            r == self.canned().presence,
    {
        self.presence
    }

    /// Whether the module can be pulled.
    pub fn is_replaceable(&self) -> (r: bool)
        ensures
            r == self.canned().replaceable,
    {
        self.replaceable
    }

    /// Whether the module is held in reset.
    pub fn get_reset_status(&self) -> (r: bool)
        ensures
            r == self.canned().reset_status,
    {
        self.reset_status
    }

    /// The type of the slot.
    pub fn sfp_type(&self) -> (r: String)
        ensures
            r@ == self.canned().sfp_type,
    {
        self.sfp_type.clone()
    }

    /// The error of the module.
    pub fn get_error_description(&self) -> (r: Option<String>)
        ensures
            text_view(r) == self.canned().error_description,
    {
        match &self.error_description {
            Some(s) => Some(s.clone()),
            None => None,
        }
    }

    /// What getter `method` answers.
    pub fn json(&self, method: &str) -> (r: Option<Reply>)
        ensures
            reply_view(r) == canned_json(self.canned(), method@),
    {
        if str_eq(method, "get_transceiver_info") {
            Some(self.info.clone())
        } else if str_eq(method, "get_transceiver_dom_real_value") {
            Some(self.dom_real_value.clone())
        } else if str_eq(method, "get_transceiver_status") {
            Some(self.status.clone())
        } else if str_eq(method, "get_transceiver_threshold_info") {
            Some(self.threshold_info.clone())
        } else {
            match self.json_calls.get(&owned(method)) {
                Some(r) => Some(r.clone()),
                None => None,
            }
        }
    }

    fn note(&mut self, c: SfpCall)
        ensures
            final(self).canned() == old(self).canned(),
            final(self).asked() == old(self).asked().push(c@),
    {
        let ghost a = c@;
        self.calls.push(c);
        assert(self.asked() =~= old(self).asked().push(a));
    }

    fn read_memory(&self, at: usize, n: usize) -> (r: Option<Vec<u8>>)
        ensures
            match r {
                Some(v) => memory_read(self.canned().eeprom, at, n) == Some(v@),
                None => memory_read(self.canned().eeprom, at, n) is None,
            },
    {
        let ghost m = self.eeprom@;
        let mut v: Vec<u8> = Vec::new();
        let mut i: usize = 0;
        while i < n
            invariant
                i <= n,
                m == self.eeprom@,
                v@.len() == i,
                forall|j: int| 0 <= j < i ==> #[trigger] has_byte(m, at + j),
                forall|j: int| 0 <= j < i ==> #[trigger] v@[j] == m[(at + j) as usize],
            decreases n - i,
        {
            if at > usize::MAX - i {
                assert(!has_byte(m, at + i as int));
                return None;
            }
            match self.eeprom.get(&(at + i)) {
                Some(b) => {
                    assert(has_byte(m, at + i as int));
                    v.push(*b);
                },
                None => {
                    assert(!has_byte(m, at + i as int));
                    return None;
                },
            }
            i += 1;
        }
        assert(v@ =~= memory_read(m, at, n)->0);
        Some(v)
    }

    /// The writes that were made, in order.
    pub fn eeprom_writes(&self) -> (r: Vec<(usize, Vec<u8>)>)
        ensures
            write_views(r@) == writes_of(self.asked()),
    {
        let ghost a = self.asked();
        let mut r: Vec<(usize, Vec<u8>)> = Vec::new();
        let mut i: usize = 0;
        assert(a.take(0) =~= Seq::<SfpAsk>::empty());
        assert(write_views(r@) =~= Seq::empty());
        while i < self.calls.len()
            invariant
                i <= self.calls@.len(),
                a == self.asked(),
                a.len() == self.calls@.len(),
                write_views(r@) == writes_of(a.take(i as int)),
            decreases self.calls.len() - i,
        {
            assert(a.take(i + 1).drop_last() =~= a.take(i as int));
            assert(a[i as int] == self.calls@[i as int]@);
            match &self.calls[i] {
                SfpCall::Write(at, b) => {
                    let c = b.clone();
                    assert(c@ =~= b@);
                    let ghost before = r@;
                    r.push((*at, c));
                    assert(write_views(r@) =~= write_views(before).push((*at, b@)));
                },
                _ => {},
            }
            i += 1;
        }
        assert(a.take(i as int) =~= a);
        r
    }
}

impl SfpHandle for MockSfp {
    open spec fn trace(&self) -> SfpTrace {
        SfpTrace { answers: canned_module(self.canned()), asked: self.asked() }
    }

    fn read_eeprom(&mut self, at: usize, n: usize) -> (r: Option<Vec<u8>>) {
        self.note(SfpCall::Read(at, n));
        self.read_memory(at, n)
    }

    fn write_eeprom(&mut self, at: usize, bytes: &Vec<u8>) -> (r: bool) {
        let c = bytes.clone();
        assert(c@ =~= bytes@);
        self.note(SfpCall::Write(at, c));
        true
    }

    fn set_lpmode(&mut self, on: bool) -> (r: bool) {
        self.note(SfpCall::SetLpmode(on));
        true
    }

    fn get_transceiver_info(&mut self) -> (r: Option<Reply>) {
        self.note(SfpCall::Info);
        Some(self.info.clone())
    }

    fn get_transceiver_status(&mut self) -> (r: Option<Reply>) {
        self.note(SfpCall::Status);
        Some(self.status.clone())
    }

    fn sleep(&mut self, ms: u64) {
        self.note(SfpCall::Sleep(ms));
    }
}

// ---- the world ----

/// The answers of a [`MockHal`].
pub struct HalCanned {
    pub stop: bool,
    pub secs: u64,
    pub sfps: Seq<SfpCanned>,
    /// What each wait for port updates brings, in order; after that nothing
    /// delivers them.
    pub updates: Seq<Seq<EventView>>,
}

/// The time that the requests have let pass, in milliseconds.
pub open spec fn slept(asked: Seq<Ask>) -> u64
    decreases asked.len(),
{
    if asked.len() == 0 {
        0
    } else {
        let before = slept(asked.drop_last());
        match asked.last() {
            Ask::Sleep(ms) => before.wrapping_add(ms),
            _ => before,
        }
    }
}

/// The number of waits for port updates among the requests.
pub open spec fn waits(asked: Seq<Ask>) -> nat
    decreases asked.len(),
{
    if asked.len() == 0 {
        0
    } else {
        waits(asked.drop_last()) + if asked.last() is Updates {
            1nat
        } else {
            0nat
        }
    }
}

/// A world in which time passes only when the daemon sleeps.
pub open spec fn canned_world(c: HalCanned) -> Answers {
    Answers {
        stop: |h: Seq<Ask>| c.stop,
        clock: |h: Seq<Ask>| c.secs,
        uptime: |h: Seq<Ask>| slept(h),
        presence: |h: Seq<Ask>, p: usize|
            if p < c.sfps.len() {
                Some(c.sfps[p as int].presence)
            } else {
                None
            },
        lpmode: |h: Seq<Ask>, p: usize|
            if p < c.sfps.len() && !c.sfps[p as int].lpmode_err {
                Some(c.sfps[p as int].lpmode)
            } else {
                None
            },
        json: |h: Seq<Ask>, p: usize, m: Seq<char>|
            if p < c.sfps.len() {
                canned_json(c.sfps[p as int], m)
            } else {
                None
            },
        updates: |h: Seq<Ask>, timeout: u64|
            if waits(h) < c.updates.len() {
                Some(c.updates[waits(h) as int])
            } else {
                None
            },
        config_changes: |h: Seq<Ask>| Seq::empty(),
    }
}

/// A request that was made to a [`MockHal`].
enum HalCall {
    Stop,
    Clock,
    Uptime,
    Sleep(u64),
    Presence(usize),
    Lpmode(usize),
    Json(usize, String),
    Updates(u64),
    ConfigChanges,
}

impl View for HalCall {
    type V = Ask;

    closed spec fn view(&self) -> Ask {
        match *self {
            HalCall::Stop => Ask::Stop,
            HalCall::Clock => Ask::Clock,
            HalCall::Uptime => Ask::Uptime,
            HalCall::Sleep(ms) => Ask::Sleep(ms),
            HalCall::Presence(p) => Ask::Presence(p),
            HalCall::Lpmode(p) => Ask::Lpmode(p),
            HalCall::Json(p, m) => Ask::Json(p, m@),
            HalCall::Updates(ms) => Ask::Updates(ms),
            HalCall::ConfigChanges => Ask::ConfigChanges,
        }
    }
}

/// The getters that were called on a slot, in order.
pub open spec fn getters_called(asked: Seq<Ask>, port: usize) -> Seq<Seq<char>>
    decreases asked.len(),
{
    if asked.len() == 0 {
        Seq::empty()
    } else {
        let before = getters_called(asked.drop_last(), port);
        match asked.last() {
            Ask::Json(p, m) => if p == port {
                before.push(m)
            } else {
                before
            },
            _ => before,
        }
    }
}

/// How often a slot was asked for its module.
pub open spec fn presence_asked(asked: Seq<Ask>, port: usize) -> nat
    decreases asked.len(),
{
    if asked.len() == 0 {
        0
    } else {
        presence_asked(asked.drop_last(), port) + if asked.last() == Ask::Presence(port) {
            1nat
        } else {
            0nat
        }
    }
}

/// What a [`MockHal`] still has to report of plugged and pulled modules.
pub struct ChangeQueue {
    pub events: Seq<ChangeView>,
    pub errors: nat,
    pub idle_ready: bool,
}

/// A stand-in for the world.
pub struct MockHal {
    sfps: Vec<MockSfp>,
    stop: bool,
    secs: u64,
    updates: Vec<Vec<PortChangeEvent>>,
    change_events: Vec<ChangeEvent>,
    poll_errors: usize,
    idle_poll_ready: bool,
    calls: Vec<HalCall>,
}

fn clone_event(e: &PortChangeEvent) -> (r: PortChangeEvent)
    ensures
        r@ == e@,
{
    PortChangeEvent {
        port_name: e.port_name.clone(),
        physical_port: e.physical_port,
        asic_id: e.asic_id,
        event_type: e.event_type,
        db_name: e.db_name.clone(),
        table_name: e.table_name.clone(),
        port_dict: clone_fvs(&e.port_dict),
    }
}

fn clone_events(v: &Vec<PortChangeEvent>) -> (r: Vec<PortChangeEvent>)
    ensures
        event_views(r@) == event_views(v@),
{
    let ghost want = event_views(v@);
    let mut r: Vec<PortChangeEvent> = Vec::new();
    let mut i: usize = 0;
    assert(event_views(r@) =~= want.take(0));
    while i < v.len()
        invariant
            i <= v@.len(),
            want == event_views(v@),
            event_views(r@) == want.take(i as int),
        decreases v.len() - i,
    {
        let ghost before = r@;
        r.push(clone_event(&v[i]));
        assert(event_views(r@) =~= event_views(before).push(want[i as int]));
        i += 1;
        assert(want.take(i as int) =~= want.take(i - 1).push(want[i - 1]));
    }
    assert(want.take(i as int) =~= want);
    r
}

impl MockHal {
    /// The set answers.
    pub closed spec fn canned(&self) -> HalCanned {
        HalCanned {
            stop: self.stop,
            secs: self.secs,
            sfps: self.sfps@.map_values(|s: MockSfp| s.canned()),
            updates: self.updates@.map_values(|v: Vec<PortChangeEvent>| event_views(v@)),
        }
    }

    /// The requests made so far.
    pub closed spec fn asked(&self) -> Seq<Ask> {
        self.calls@.map_values(|c: HalCall| c@)
    }

    /// What is still to be reported of plugged and pulled modules.
    pub closed spec fn queue(&self) -> ChangeQueue {
        ChangeQueue {
            events: self.change_events@.map_values(|e: ChangeEvent| e@),
            errors: self.poll_errors as nat,
            idle_ready: self.idle_poll_ready,
        }
    }

    /// A world with these modules in its slots. The clock shows 0, no stop is
    /// asked for and no port updates come.
    pub fn with_sfps(sfps: Vec<MockSfp>) -> (h: Self)
        ensures
            h.canned().stop == false,
            h.canned().secs == 0,
            h.canned().sfps == sfps@.map_values(|s: MockSfp| s.canned()),
            h.canned().updates == Seq::<Seq<EventView>>::empty(),
            h.asked() == Seq::<Ask>::empty(),
            h.queue() == (ChangeQueue { events: Seq::empty(), errors: 0, idle_ready: false }),
    {
        let h = MockHal {
            sfps,
            stop: false,
            secs: 0,
            updates: Vec::new(),
            change_events: Vec::new(),
            poll_errors: 0,
            idle_poll_ready: false,
            calls: Vec::new(),
        };
        assert(h.canned().updates =~= Seq::<Seq<EventView>>::empty());
        assert(h.asked() =~= Seq::<Ask>::empty());
        assert(h.queue().events =~= Seq::<ChangeView>::empty());
        h
    }

    /// Sets whether a stop is asked for.
    pub fn set_stop(&mut self, stop: bool)
        ensures
            final(self).canned() == (HalCanned { stop, ..old(self).canned() }),
            final(self).asked() == old(self).asked(),
            final(self).queue() == old(self).queue(),
    {
        self.stop = stop;
    }

    /// Sets what the clock shows.
    pub fn set_clock(&mut self, secs: u64)
        ensures
            final(self).canned() == (HalCanned { secs, ..old(self).canned() }),
            final(self).asked() == old(self).asked(),
            final(self).queue() == old(self).queue(),
    {
        self.secs = secs;
    }

    /// Sets what one more wait for port updates brings.
    pub fn push_port_updates(&mut self, events: Vec<PortChangeEvent>)
        ensures
            final(self).canned() == (HalCanned {
                updates: old(self).canned().updates.push(event_views(events@)),
                ..old(self).canned()
            }),
            final(self).asked() == old(self).asked(),
            final(self).queue() == old(self).queue(),
    {
        let ghost v = event_views(events@);
        self.updates.push(events);
        assert(self.canned().updates =~= old(self).canned().updates.push(v));
    }

    /// The number of slots.
    pub fn num_sfps(&self) -> (n: usize)
        ensures
            n == self.canned().sfps.len(),
    {
        self.sfps.len()
    }

    /// The module in a slot.
    pub fn sfp(&self, index: usize) -> (r: Result<&MockSfp, XcvrdError>)
        ensures
            match r {
                Ok(s) => index < self.canned().sfps.len() && s.canned()
                    == self.canned().sfps[index as int],
                Err(e) => index >= self.canned().sfps.len() && e == XcvrdError::PhysicalPortNotExist,
            },
    {
        if index < self.sfps.len() {
            Ok(&self.sfps[index])
        } else {
            Err(XcvrdError::PhysicalPortNotExist)
        }
    }

    /// Puts a report of plugged and pulled modules at the end of the queue.
    pub fn push_change_event(&mut self, ev: ChangeEvent)
        ensures
            final(self).queue() == (ChangeQueue {
                events: old(self).queue().events.push(ev@),
                ..old(self).queue()
            }),
            final(self).canned() == old(self).canned(),
            final(self).asked() == old(self).asked(),
    {
        let ghost v = ev@;
        self.change_events.push(ev);
        assert(self.queue().events =~= old(self).queue().events.push(v));
    }

    /// Lets the next `n` polls for changes fail.
    pub fn fail_next_polls(&mut self, n: usize)
        requires
            old(self).queue().errors + n <= usize::MAX,
        ensures
            final(self).queue() == (ChangeQueue {
                errors: old(self).queue().errors + n as nat,
                ..old(self).queue()
            }),
            final(self).canned() == old(self).canned(),
            final(self).asked() == old(self).asked(),
    {
        self.poll_errors = self.poll_errors + n;
    }

    /// Sets the status of a poll for changes that finds none.
    pub fn set_idle_poll_ready(&mut self, ready: bool)
        ensures
            final(self).queue() == (ChangeQueue { idle_ready: ready, ..old(self).queue() }),
            final(self).canned() == old(self).canned(),
            final(self).asked() == old(self).asked(),
    {
        self.idle_poll_ready = ready;
    }

    /// Polls for plugged and pulled modules: first the failures, after them the
    /// reports of the queue, after them an empty report.
    pub fn get_change_event(&mut self, _timeout_ms: u64) -> (r: Result<ChangeEvent, XcvrdError>)
        ensures
            ({
                let q = old(self).queue();
                if q.errors > 0 {
                    &&& r matches Err(XcvrdError::Bridge(m)) && m@
                        == "mock transient change-event read error"@
                    &&& final(self).queue() == (ChangeQueue {
                        errors: (q.errors - 1) as nat,
                        ..q
                    })
                } else if q.events.len() > 0 {
                    &&& r matches Ok(e) && e@ == q.events[0]
                    &&& final(self).queue() == (ChangeQueue { events: q.events.skip(1), ..q })
                } else {
                    &&& r matches Ok(e) && e@ == (ChangeView {
                        status: q.idle_ready,
                        sfp: Seq::empty(),
                        sfp_error: Seq::empty(),
                    })
                    &&& final(self).queue() == q
                }
            }),
            final(self).canned() == old(self).canned(),
            final(self).asked() == old(self).asked(),
    {
        if self.poll_errors > 0 {
            self.poll_errors = self.poll_errors - 1;
            return Err(XcvrdError::Bridge(owned("mock transient change-event read error")));
        }
        if self.change_events.len() > 0 {
            let ghost q = self.queue().events;
            let e = self.change_events.remove(0);
            assert(self.queue().events =~= q.skip(1));
            return Ok(e);
        }
        let e = ChangeEvent {
            status: self.idle_poll_ready,
            sfp: Vec::new(),
            sfp_error: Vec::new(),
        };
        assert(e@.sfp =~= Seq::empty());
        assert(e@.sfp_error =~= Seq::empty());
        Ok(e)
    }

    fn note(&mut self, c: HalCall)
        ensures
            final(self).canned() == old(self).canned(),
            final(self).queue() == old(self).queue(),
            final(self).asked() == old(self).asked().push(c@),
    {
        let ghost a = c@;
        self.calls.push(c);
        assert(self.asked() =~= old(self).asked().push(a));
    }

    /// The getters that were called on a slot, in order.
    pub fn call_log(&self, port: usize) -> (r: Vec<String>)
        ensures
            r@.map_values(|s: String| s@) == getters_called(self.asked(), port),
    {
        let ghost a = self.asked();
        let mut r: Vec<String> = Vec::new();
        let mut i: usize = 0;
        assert(a.take(0) =~= Seq::<Ask>::empty());
        assert(r@.map_values(|s: String| s@) =~= Seq::empty());
        while i < self.calls.len()
            invariant
                i <= self.calls@.len(),
                a == self.asked(),
                a.len() == self.calls@.len(),
                r@.map_values(|s: String| s@) == getters_called(a.take(i as int), port),
            decreases self.calls.len() - i,
        {
            assert(a.take(i + 1).drop_last() =~= a.take(i as int));
            assert(a[i as int] == self.calls@[i as int]@);
            match &self.calls[i] {
                HalCall::Json(p, m) => {
                    if *p == port {
                        let ghost before = r@;
                        r.push(m.clone());
                        assert(r@.map_values(|s: String| s@) =~= before.map_values(
                            |s: String| s@,
                        ).push(m@));
                    }
                },
                _ => {},
            }
            i += 1;
        }
        assert(a.take(i as int) =~= a);
        r
    }

    /// How often a slot was asked for its module.
    pub fn presence_calls(&self, port: usize) -> (n: usize)
        ensures
            n == presence_asked(self.asked(), port),
    {
        let ghost a = self.asked();
        let mut n: usize = 0;
        let mut i: usize = 0;
        assert(a.take(0) =~= Seq::<Ask>::empty());
        while i < self.calls.len()
            invariant
                i <= self.calls@.len(),
                a == self.asked(),
                a.len() == self.calls@.len(),
                n <= i,
                n == presence_asked(a.take(i as int), port),
            decreases self.calls.len() - i,
        {
            assert(a.take(i + 1).drop_last() =~= a.take(i as int));
            assert(a[i as int] == self.calls@[i as int]@);
            match &self.calls[i] {
                HalCall::Presence(p) => {
                    if *p == port {
                        n += 1;
                    }
                },
                _ => {},
            }
            i += 1;
        }
        assert(a.take(i as int) =~= a);
        n
    }

    fn slept_for(&self) -> (ms: u64)
        ensures
            ms == slept(self.asked()),
    {
        let ghost a = self.asked();
        let mut ms: u64 = 0;
        let mut i: usize = 0;
        assert(a.take(0) =~= Seq::<Ask>::empty());
        while i < self.calls.len()
            invariant
                i <= self.calls@.len(),
                a == self.asked(),
                a.len() == self.calls@.len(),
                ms == slept(a.take(i as int)),
            decreases self.calls.len() - i,
        {
            assert(a.take(i + 1).drop_last() =~= a.take(i as int));
            assert(a[i as int] == self.calls@[i as int]@);
            match &self.calls[i] {
                HalCall::Sleep(t) => {
                    ms = ms.wrapping_add(*t);
                },
                _ => {},
            }
            i += 1;
        }
        assert(a.take(i as int) =~= a);
        ms
    }

    fn waited(&self) -> (n: usize)
        ensures
            n == waits(self.asked()),
    {
        let ghost a = self.asked();
        let mut n: usize = 0;
        let mut i: usize = 0;
        assert(a.take(0) =~= Seq::<Ask>::empty());
        while i < self.calls.len()
            invariant
                i <= self.calls@.len(),
                a == self.asked(),
                a.len() == self.calls@.len(),
                n <= i,
                n == waits(a.take(i as int)),
            decreases self.calls.len() - i,
        {
            assert(a.take(i + 1).drop_last() =~= a.take(i as int));
            assert(a[i as int] == self.calls@[i as int]@);
            match &self.calls[i] {
                HalCall::Updates(_) => {
                    n += 1;
                },
                _ => {},
            }
            i += 1;
        }
        assert(a.take(i as int) =~= a);
        n
    }
}

impl Hal for MockHal {
    open spec fn trace(&self) -> Trace {
        Trace { answers: canned_world(self.canned()), asked: self.asked() }
    }

    fn stop_requested(&mut self) -> (r: bool) {
        self.note(HalCall::Stop);
        self.stop
    }

    fn clock(&mut self) -> (r: u64) {
        self.note(HalCall::Clock);
        self.secs
    }

    fn uptime(&mut self) -> (r: u64) {
        let ms = self.slept_for();
        self.note(HalCall::Uptime);
        ms
    }

    fn sleep(&mut self, ms: u64) {
        self.note(HalCall::Sleep(ms));
    }

    fn get_presence(&mut self, port: usize) -> (r: Option<bool>) {
        self.note(HalCall::Presence(port));
        if port < self.sfps.len() {
            Some(self.sfps[port].presence)
        } else {
            None
        }
    }

    fn get_lpmode(&mut self, port: usize) -> (r: Option<bool>) {
        self.note(HalCall::Lpmode(port));
        if port < self.sfps.len() && !self.sfps[port].lpmode_err {
            Some(self.sfps[port].lpmode)
        } else {
            None
        }
    }

    fn call_json(&mut self, port: usize, method: &str) -> (r: Option<Reply>) {
        self.note(HalCall::Json(port, owned(method)));
        if port < self.sfps.len() {
            self.sfps[port].json(method)
        } else {
            None
        }
    }

    fn port_updates(&mut self, timeout: u64) -> (r: Option<Vec<PortChangeEvent>>) {
        let n = self.waited();
        self.note(HalCall::Updates(timeout));
        if n < self.updates.len() {
            Some(clone_events(&self.updates[n]))
        } else {
            None
        }
    }

    fn config_changes(&mut self) -> (r: Vec<PortChangeEvent>) {
        self.note(HalCall::ConfigChanges);
        let none: Vec<PortChangeEvent> = Vec::new();
        assert(event_views(none@) =~= Seq::empty());
        none
    }
}

} // verus!
