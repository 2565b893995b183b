//! The world around the daemon: the modules in their slots, the clocks and the
//! stop flag.
//!
//! What a module, a clock or another thread answers is outside the daemon's
//! control. A [`Trace`] holds the requests made so far together with the
//! answers that the world gives as a function of those requests. Contracts
//! speak of a trace before and after a call, so they fix which requests are
//! made, in which order, and what becomes of each answer, and they promise
//! nothing of the answers themselves.

use vstd::prelude::*;

use crate::json::{reply_view, Reply, ReplyView};
use crate::port::{EventView, PortChangeEvent};
use crate::text::{chars_of, occurs_at, str_eq, string_of};

verus! {

/// A request to the world.
pub enum Ask {
    /// Has the daemon been asked to stop?
    Stop,
    /// Seconds since 1970.
    Clock,
    /// Milliseconds of a clock that never goes back.
    Uptime,
    /// Let this many milliseconds pass.
    Sleep(u64),
    /// Is there a module in the slot?
    Presence(usize),
    /// Is the module in low-power mode?
    Lpmode(usize),
    /// Call this getter of the module.
    Json(usize, Seq<char>),
    /// Wait at most this many milliseconds for port updates.
    Updates(u64),
    /// Take the configuration changes of ports that have come in.
    ConfigChanges,
}

/// The answers of the world, each a function of the requests made before it.
pub struct Answers {
    pub stop: spec_fn(Seq<Ask>) -> bool,
    pub clock: spec_fn(Seq<Ask>) -> u64,
    pub uptime: spec_fn(Seq<Ask>) -> u64,
    pub presence: spec_fn(Seq<Ask>, usize) -> Option<bool>,
    pub lpmode: spec_fn(Seq<Ask>, usize) -> Option<bool>,
    pub json: spec_fn(Seq<Ask>, usize, Seq<char>) -> Option<ReplyView>,
    pub updates: spec_fn(Seq<Ask>, u64) -> Option<Seq<EventView>>,
    pub config_changes: spec_fn(Seq<Ask>) -> Seq<EventView>,
}

/// The requests made so far and the answers of the world.
pub struct Trace {
    pub answers: Answers,
    pub asked: Seq<Ask>,
}

impl Trace {
    /// The trace after one more request.
    pub open spec fn then_ask(self, a: Ask) -> Trace {
        Trace { answers: self.answers, asked: self.asked.push(a) }
    }

    /// Whether the stop flag is found raised now.
    pub open spec fn stop(self) -> bool {
        (self.answers.stop)(self.asked)
    }

    /// The second that the clock shows now.
    pub open spec fn clock(self) -> u64 {
        (self.answers.clock)(self.asked)
    }

    /// The millisecond that the steady clock shows now.
    pub open spec fn uptime(self) -> u64 {
        (self.answers.uptime)(self.asked)
    }

    /// Whether slot `port` is found to hold a module now.
    pub open spec fn present(self, port: usize) -> bool {
        (self.answers.presence)(self.asked, port) == Some(true)
    }

    /// Whether the module in slot `port` is found in low-power mode now.
    pub open spec fn low_power(self, port: usize) -> bool {
        (self.answers.lpmode)(self.asked, port) == Some(true)
    }

    /// What getter `method` of the module in slot `port` answers now.
    pub open spec fn json(self, port: usize, method: Seq<char>) -> Option<ReplyView> {
        (self.answers.json)(self.asked, port, method)
    }

    /// The port updates that come in within the time; `None` where nothing
    /// delivers them.
    pub open spec fn updates(self, timeout: u64) -> Option<Seq<EventView>> {
        (self.answers.updates)(self.asked, timeout)
    }

    /// The configuration changes that have come in.
    pub open spec fn config_changes(self) -> Seq<EventView> {
        (self.answers.config_changes)(self.asked)
    }
}

/// The views of a list of events.
pub open spec fn event_views(v: Seq<PortChangeEvent>) -> Seq<EventView> {
    v.map_values(|e: PortChangeEvent| e@)
}

/// The world as the daemon reaches it. An implementation passes each request
/// on; `None` is the answer where the slot or the getter does not exist or the
/// read fails.
pub trait Hal {
    /// The requests made so far and what the world answers.
    spec fn trace(&self) -> Trace;

    /// Has the daemon been asked to stop?
    fn stop_requested(&mut self) -> (r: bool)
        ensures
            r == old(self).trace().stop(),
            final(self).trace() == old(self).trace().then_ask(Ask::Stop),
    ;

    /// Seconds since 1970.
    fn clock(&mut self) -> (r: u64)
        ensures
            r == old(self).trace().clock(),
            final(self).trace() == old(self).trace().then_ask(Ask::Clock),
    ;

    /// Milliseconds of a clock that never goes back.
    fn uptime(&mut self) -> (r: u64)
        ensures
            r == old(self).trace().uptime(),
            final(self).trace() == old(self).trace().then_ask(Ask::Uptime),
    ;

    /// Lets at least `ms` milliseconds pass.
    fn sleep(&mut self, ms: u64)
        ensures
            final(self).trace() == old(self).trace().then_ask(Ask::Sleep(ms)),
    ;

    /// Whether there is a module in slot `port`.
    fn get_presence(&mut self, port: usize) -> (r: Option<bool>)
        ensures
            r == (old(self).trace().answers.presence)(old(self).trace().asked, port),
            final(self).trace() == old(self).trace().then_ask(Ask::Presence(port)),
    ;

    /// Whether the module in slot `port` is in low-power mode.
    fn get_lpmode(&mut self, port: usize) -> (r: Option<bool>)
        ensures
            r == (old(self).trace().answers.lpmode)(old(self).trace().asked, port),
            final(self).trace() == old(self).trace().then_ask(Ask::Lpmode(port)),
    ;

    /// What getter `method` of the module in slot `port` answers.
    fn call_json(&mut self, port: usize, method: &str) -> (r: Option<Reply>)
        ensures
            reply_view(r) == old(self).trace().json(port, method@),
            final(self).trace() == old(self).trace().then_ask(Ask::Json(port, method@)),
    ;

    /// Waits at most `timeout` milliseconds for port updates; `None` where
    /// nothing delivers them.
    fn port_updates(&mut self, timeout: u64) -> (r: Option<Vec<PortChangeEvent>>)
        ensures
            match r {
                Some(v) => old(self).trace().updates(timeout) == Some(event_views(v@)),
                None => old(self).trace().updates(timeout) is None,
            },
            final(self).trace() == old(self).trace().then_ask(Ask::Updates(timeout)),
    ;

    /// The configuration changes of ports that have come in.
    fn config_changes(&mut self) -> (r: Vec<PortChangeEvent>)
        ensures
            event_views(r@) == old(self).trace().config_changes(),
            final(self).trace() == old(self).trace().then_ask(Ask::ConfigChanges),
    ;
}

/// Whether there is a module in slot `port`; a slot that cannot be read counts
/// as empty.
pub fn get_transceiver_presence<H: Hal>(hal: &mut H, port: usize) -> (r: bool)
    ensures
        r == old(hal).trace().present(port),
        final(hal).trace() == old(hal).trace().then_ask(Ask::Presence(port)),
{
    match hal.get_presence(port) {
        Some(b) => b,
        None => false,
    }
}

/// Whether the module in slot `port` is in low-power mode; one that cannot be
/// read counts as not.
pub fn is_transceiver_lpmode_on<H: Hal>(hal: &mut H, port: usize) -> (r: bool)
    ensures
        r == old(hal).trace().low_power(port),
        final(hal).trace() == old(hal).trace().then_ask(Ask::Lpmode(port)),
{
    match hal.get_lpmode(port) {
        Some(b) => b,
        None => false,
    }
}

// ---- one module ----

/// A request to one module.
pub enum SfpAsk {
    /// Read this many bytes of memory at this address.
    Read(usize, usize),
    /// Write these bytes to memory at this address.
    Write(usize, Seq<u8>),
    /// Enter or leave low-power mode.
    SetLpmode(bool),
    /// Report the identity.
    Info,
    /// Report the status.
    Status,
    /// Let this many milliseconds pass.
    Sleep(u64),
}

/// The answers of one module, each a function of the requests made before it.
pub struct SfpAnswers {
    pub read: spec_fn(Seq<SfpAsk>, usize, usize) -> Option<Seq<u8>>,
    pub write: spec_fn(Seq<SfpAsk>, usize, Seq<u8>) -> bool,
    pub set_lpmode: spec_fn(Seq<SfpAsk>, bool) -> bool,
    pub info: spec_fn(Seq<SfpAsk>) -> Option<ReplyView>,
    pub status: spec_fn(Seq<SfpAsk>) -> Option<ReplyView>,
}

/// The requests made to one module so far and its answers.
pub struct SfpTrace {
    pub answers: SfpAnswers,
    pub asked: Seq<SfpAsk>,
}

impl SfpTrace {
    /// The trace after one more request.
    pub open spec fn then_ask(self, a: SfpAsk) -> SfpTrace {
        SfpTrace { answers: self.answers, asked: self.asked.push(a) }
    }

    /// What a read of memory gives now.
    pub open spec fn read(self, at: usize, n: usize) -> Option<Seq<u8>> {
        (self.answers.read)(self.asked, at, n)
    }

    /// The byte that a read of one byte gives now.
    pub open spec fn byte(self, at: usize) -> Option<u8> {
        match self.read(at, 1) {
            Some(b) => if b.len() > 0 {
                Some(b[0])
            } else {
                None
            },
            None => None,
        }
    }

    /// Whether a write succeeds now.
    pub open spec fn writes(self, at: usize, bytes: Seq<u8>) -> bool {
        (self.answers.write)(self.asked, at, bytes)
    }

    /// The identity that the module reports now.
    pub open spec fn info(self) -> Option<ReplyView> {
        (self.answers.info)(self.asked)
    }

    /// The status that the module reports now.
    pub open spec fn status(self) -> Option<ReplyView> {
        (self.answers.status)(self.asked)
    }
}

/// One module. An implementation passes each request on; `None` and `false` are
/// the answers where it fails.
pub trait SfpHandle {
    /// The requests made so far and what the module answers.
    spec fn trace(&self) -> SfpTrace;

    /// Reads memory at a linear address.
    fn read_eeprom(&mut self, at: usize, n: usize) -> (r: Option<Vec<u8>>)
        ensures
            match r {
                Some(v) => old(self).trace().read(at, n) == Some(v@),
                None => old(self).trace().read(at, n) is None,
            },
            final(self).trace() == old(self).trace().then_ask(SfpAsk::Read(at, n)),
    ;

    /// Writes memory at a linear address.
    fn write_eeprom(&mut self, at: usize, bytes: &Vec<u8>) -> (r: bool)
        ensures
            r == old(self).trace().writes(at, bytes@),
            final(self).trace() == old(self).trace().then_ask(SfpAsk::Write(at, bytes@)),
    ;

    /// Enters or leaves low-power mode.
    fn set_lpmode(&mut self, on: bool) -> (r: bool)
        ensures
            r == (old(self).trace().answers.set_lpmode)(old(self).trace().asked, on),
            final(self).trace() == old(self).trace().then_ask(SfpAsk::SetLpmode(on)),
    ;

    /// The identity of the module.
    fn get_transceiver_info(&mut self) -> (r: Option<Reply>)
        ensures
            reply_view(r) == old(self).trace().info(),
            final(self).trace() == old(self).trace().then_ask(SfpAsk::Info),
    ;

    /// The status of the module.
    fn get_transceiver_status(&mut self) -> (r: Option<Reply>)
        ensures
            reply_view(r) == old(self).trace().status(),
            final(self).trace() == old(self).trace().then_ask(SfpAsk::Status),
    ;

    /// Lets at least `ms` milliseconds pass.
    fn sleep(&mut self, ms: u64)
        ensures
            final(self).trace() == old(self).trace().then_ask(SfpAsk::Sleep(ms)),
    ;
}

/// Reads one byte of a module's memory.
pub fn read_byte<S: SfpHandle>(sfp: &mut S, at: usize) -> (r: Option<u8>)
    ensures
        r == old(sfp).trace().byte(at),
        final(sfp).trace() == old(sfp).trace().then_ask(SfpAsk::Read(at, 1)),
{
    match sfp.read_eeprom(at, 1) {
        Some(v) => if v.len() > 0 {
            Some(v[0])
        } else {
            None
        },
        None => None,
    }
}

/// Writes one byte of a module's memory.
pub fn write_byte<S: SfpHandle>(sfp: &mut S, at: usize, b: u8) -> (r: bool)
    ensures
        r == old(sfp).trace().writes(at, seq![b]),
        final(sfp).trace() == old(sfp).trace().then_ask(SfpAsk::Write(at, seq![b])),
{
    let mut v: Vec<u8> = Vec::new();
    v.push(b);
    assert(v@ =~= seq![b]);
    sfp.write_eeprom(at, &v)
}

// ---- threshold text ----

/// JSON text with the tokens for numbers that are not finite, which strict JSON
/// does not have, replaced by strings. `in_str` says whether the text begins
/// inside a string; inside one nothing changes.
pub open spec fn sanitized(s: Seq<char>, in_str: bool) -> Seq<char>
    decreases s.len(),
{
    if s.len() == 0 {
        s
    } else if in_str {
        if s[0] == '\\' && s.len() > 1 {
            s.take(2) + sanitized(s.skip(2), true)
        } else {
            s.take(1) + sanitized(s.skip(1), s[0] != '"')
        }
    } else if s[0] == '"' {
        s.take(1) + sanitized(s.skip(1), true)
    } else if occurs_at(s, "-Infinity"@, 0) && "-Infinity"@.len() > 0 {
        "\"-inf\""@ + sanitized(s.skip("-Infinity"@.len() as int), false)
    } else if occurs_at(s, "Infinity"@, 0) && "Infinity"@.len() > 0 {
        "\"inf\""@ + sanitized(s.skip("Infinity"@.len() as int), false)
    } else if occurs_at(s, "NaN"@, 0) && "NaN"@.len() > 0 {
        "\"nan\""@ + sanitized(s.skip("NaN"@.len() as int), false)
    } else {
        s.take(1) + sanitized(s.skip(1), false)
    }
}

/// Text in which none of the tokens stands is left as it is.
pub proof fn sanitized_keeps_finite_text(s: Seq<char>, in_str: bool)
    requires
        forall|i: int| !#[trigger] occurs_at(s, "Infinity"@, i),
        forall|i: int| !#[trigger] occurs_at(s, "-Infinity"@, i),
        forall|i: int| !#[trigger] occurs_at(s, "NaN"@, i),
    ensures
        sanitized(s, in_str) == s,
    decreases s.len(),
{
    if s.len() > 0 {
        let k: int = if in_str && s[0] == '\\' && s.len() > 1 {
            2
        } else {
            1
        };
        let t = s.skip(k);
        assert forall|i: int| !#[trigger] occurs_at(t, "Infinity"@, i) by {
            finite_suffix(s, "Infinity"@, k, i);
        }
        assert forall|i: int| !#[trigger] occurs_at(t, "-Infinity"@, i) by {
            finite_suffix(s, "-Infinity"@, k, i);
        }
        assert forall|i: int| !#[trigger] occurs_at(t, "NaN"@, i) by {
            finite_suffix(s, "NaN"@, k, i);
        }
        sanitized_keeps_finite_text(t, in_str && (k == 2 || s[0] != '"') || !in_str && s[0] == '"');
        assert(s.take(k) + t =~= s);
    }
}

proof fn finite_suffix(s: Seq<char>, p: Seq<char>, k: int, i: int)
    requires
        0 <= k <= s.len(),
        !occurs_at(s, p, k + i),
    ensures
        !occurs_at(s.skip(k), p, i),
{
    if occurs_at(s.skip(k), p, i) {
        assert(s.subrange(k + i, k + i + p.len()) =~= s.skip(k).subrange(i, i + p.len()));
    }
}

/// Whether `s` is the inside of a string literal: no quote in it ends the
/// literal and no backslash in it is left without the character it escapes.
pub open spec fn literal_body(s: Seq<char>) -> bool
    decreases s.len(),
{
    if s.len() == 0 {
        true
    } else if s[0] == '\\' {
        s.len() > 1 && literal_body(s.skip(2))
    } else {
        s[0] != '"' && literal_body(s.skip(1))
    }
}

/// A string literal is left as it is, whatever words it holds, and what follows
/// it is treated as if the literal were not there.
pub proof fn sanitized_keeps_literals(body: Seq<char>, rest: Seq<char>)
    requires
        literal_body(body),
    ensures
        sanitized(seq!['"'] + body + seq!['"'] + rest, false) == seq!['"'] + body + seq!['"']
            + sanitized(rest, false),
{
    let s = seq!['"'] + body + seq!['"'] + rest;
    sanitized_body(body, rest);
    assert(s.skip(1) =~= body + seq!['"'] + rest);
    assert(s.take(1) =~= seq!['"']);
    assert(seq!['"'] + (body + seq!['"'] + sanitized(rest, false)) =~= seq!['"'] + body + seq!['"']
        + sanitized(rest, false));
}

proof fn sanitized_body(body: Seq<char>, rest: Seq<char>)
    requires
        literal_body(body),
    ensures
        sanitized(body + seq!['"'] + rest, true) == body + seq!['"'] + sanitized(rest, false),
    decreases body.len(),
{
    let s = body + seq!['"'] + rest;
    if body.len() == 0 {
        assert(s.skip(1) =~= rest);
        assert(s.take(1) =~= seq!['"']);
        assert(s.take(1) + sanitized(rest, false) =~= body + seq!['"'] + sanitized(rest, false));
    } else {
        let k: int = if body[0] == '\\' {
            2
        } else {
            1
        };
        sanitized_body(body.skip(k), rest);
        assert(s.skip(k) =~= body.skip(k) + seq!['"'] + rest);
        assert(s.take(k) =~= body.take(k));
        assert(body.take(k) + (body.skip(k) + seq!['"'] + sanitized(rest, false)) =~= body
            + seq!['"'] + sanitized(rest, false));
    }
}

/// Where a character of JSON text stands.
#[derive(Clone, Copy, Debug, PartialEq, Eq, Structural)]
pub enum Place {
    /// Outside the strings.
    Outside,
    /// Inside a string.
    Inside,
    /// Inside a string, after a backslash that escapes it.
    Escaped,
}

/// Where the character after `c` stands.
pub open spec fn next_place(p: Place, c: char) -> Place {
    match p {
        Place::Outside => if c == '"' {
            Place::Inside
        } else {
            Place::Outside
        },
        Place::Inside => if c == '"' {
            Place::Outside
        } else if c == '\\' {
            Place::Escaped
        } else {
            Place::Inside
        },
        Place::Escaped => Place::Inside,
    }
}

/// Whether one of the words `Infinity` and `NaN` stands outside the strings of
/// a text whose first character stands at `p`.
pub open spec fn bare_word(s: Seq<char>, p: Place) -> bool
    decreases s.len(),
{
    s.len() > 0 && (p == Place::Outside && (occurs_at(s, "Infinity"@, 0) || occurs_at(
        s,
        "NaN"@,
        0,
    )) || bare_word(s.skip(1), next_place(p, s[0])))
}

spec fn place_of(in_str: bool) -> Place {
    if in_str {
        Place::Inside
    } else {
        Place::Outside
    }
}

/// Text in which the words stand inside strings only is left as it is.
pub proof fn sanitized_keeps_words_in_strings(s: Seq<char>)
    requires
        !bare_word(s, Place::Outside),
    ensures
        sanitized(s, false) == s,
{
    sanitized_keeps_clean(s, false);
}

proof fn sanitized_keeps_clean(s: Seq<char>, in_str: bool)
    requires
        !bare_word(s, place_of(in_str)),
    ensures
        sanitized(s, in_str) == s,
    decreases s.len(),
{
    if s.len() > 0 {
        let t = s.skip(1);
        if in_str && s[0] == '\\' && s.len() > 1 {
            assert(!bare_word(t, Place::Escaped));
            assert(t.skip(1) =~= s.skip(2));
            sanitized_keeps_clean(s.skip(2), true);
            assert(s.take(2) + s.skip(2) =~= s);
        } else if in_str && s[0] == '\\' {
            assert(t =~= Seq::<char>::empty());
            assert(s.take(1) + sanitized(t, true) =~= s);
        } else {
            if !in_str && occurs_at(s, "-Infinity"@, 0) {
                minus_stands_before_the_word(s);
            }
            let inside = if in_str {
                s[0] != '"'
            } else {
                s[0] == '"'
            };
            sanitized_keeps_clean(t, inside);
            assert(s.take(1) + t =~= s);
        }
    }
}

proof fn minus_stands_before_the_word(s: Seq<char>)
    requires
        occurs_at(s, "-Infinity"@, 0),
    ensures
        s[0] == '-',
        occurs_at(s.skip(1), "Infinity"@, 0),
        bare_word(s, Place::Outside),
{
    reveal_strlit("-Infinity");
    reveal_strlit("Infinity");
    let w = s.subrange(0, 9);
    assert(w == "-Infinity"@);
    assert(s[0] == w[0]);
    assert(s.skip(1).subrange(0, 8) =~= w.skip(1));
    assert("-Infinity"@.skip(1) =~= "Infinity"@);
    assert(bare_word(s.skip(1), Place::Outside));
}

proof fn quoted_word_is_skipped(q: Seq<char>, rest: Seq<char>)
    requires
        q.len() >= 2,
        q[0] == '"',
        q.last() == '"',
        forall|i: int| 0 < i < q.len() - 1 ==> #[trigger] q[i] != '"' && q[i] != '\\',
    ensures
        bare_word(q + rest, Place::Outside) == bare_word(rest, Place::Outside),
{
    let s = q + rest;
    reveal_strlit("Infinity");
    reveal_strlit("NaN");
    if occurs_at(s, "Infinity"@, 0) {
        assert(s.subrange(0, 8)[0] == s[0]);
    }
    if occurs_at(s, "NaN"@, 0) {
        assert(s.subrange(0, 3)[0] == s[0]);
    }
    assert(s.skip(1) =~= q.skip(1) + rest);
    rest_of_quoted_word(q.skip(1), rest);
}

proof fn rest_of_quoted_word(q: Seq<char>, rest: Seq<char>)
    requires
        q.len() >= 1,
        q.last() == '"',
        forall|i: int| 0 <= i < q.len() - 1 ==> #[trigger] q[i] != '"' && q[i] != '\\',
    ensures
        bare_word(q + rest, Place::Inside) == bare_word(rest, Place::Outside),
    decreases q.len(),
{
    let s = q + rest;
    assert(s[0] == q[0]);
    assert(s.skip(1) =~= q.skip(1) + rest);
    if q.len() > 1 {
        rest_of_quoted_word(q.skip(1), rest);
    } else {
        assert(q.skip(1) + rest =~= rest);
    }
}

proof fn quoteless_start_is_copied(s: Seq<char>, n: int)
    requires
        0 <= n <= sanitized(s, false).len(),
        forall|i: int| 0 <= i < n ==> #[trigger] sanitized(s, false)[i] != '"',
    ensures
        n <= s.len(),
        s.take(n) == sanitized(s, false).take(n),
    decreases n,
{
    let o = sanitized(s, false);
    if n > 0 {
        reveal_strlit("\"-inf\"");
        reveal_strlit("\"inf\"");
        reveal_strlit("\"nan\"");
        assert(o[0] != '"');
        let t = s.skip(1);
        let r = sanitized(t, false);
        assert(o =~= s.take(1) + r);
        assert forall|i: int| 0 <= i < n - 1 implies #[trigger] r[i] != '"' by {
            assert(o[i + 1] == r[i]);
        }
        quoteless_start_is_copied(t, n - 1);
        assert(s.take(n) =~= s.take(1) + t.take(n - 1));
        assert(o.take(n) =~= s.take(1) + r.take(n - 1));
    } else {
        assert(s.take(0) =~= o.take(0));
    }
}

proof fn copied_word_was_there(s: Seq<char>, w: Seq<char>)
    requires
        occurs_at(sanitized(s, false), w, 0),
        forall|i: int| 0 <= i < w.len() ==> #[trigger] w[i] != '"',
    ensures
        occurs_at(s, w, 0),
{
    let o = sanitized(s, false);
    let n = w.len() as int;
    assert forall|i: int| 0 <= i < n implies #[trigger] o[i] != '"' by {
        assert(o.subrange(0, n)[i] == w[i]);
    }
    quoteless_start_is_copied(s, n);
    assert(s.subrange(0, n) =~= s.take(n));
    assert(o.subrange(0, n) =~= o.take(n));
}

proof fn sanitized_is_clean(s: Seq<char>, in_str: bool)
    ensures
        !bare_word(sanitized(s, in_str), place_of(in_str)),
    decreases s.len(),
{
    reveal_strlit("-Infinity");
    reveal_strlit("Infinity");
    reveal_strlit("NaN");
    reveal_strlit("\"-inf\"");
    reveal_strlit("\"inf\"");
    reveal_strlit("\"nan\"");
    let o = sanitized(s, in_str);
    if s.len() > 0 {
        if in_str && s[0] == '\\' && s.len() > 1 {
            let r = sanitized(s.skip(2), true);
            sanitized_is_clean(s.skip(2), true);
            assert(o =~= s.take(2) + r);
            assert(o.skip(1).skip(1) =~= r);
            assert(o[0] == s[0]);
            assert(!bare_word(o.skip(1), Place::Escaped));
            assert(!bare_word(o, Place::Inside));
        } else if in_str {
            let r = sanitized(s.skip(1), s[0] != '"');
            sanitized_is_clean(s.skip(1), s[0] != '"');
            assert(o =~= s.take(1) + r);
            assert(o.skip(1) =~= r);
            assert(o[0] == s[0]);
            if s[0] == '\\' {
                assert(s.skip(1) =~= Seq::<char>::empty());
                assert(!bare_word(r, Place::Escaped));
            }
            assert(!bare_word(o, Place::Inside));
        } else if s[0] == '"' {
            let r = sanitized(s.skip(1), true);
            sanitized_is_clean(s.skip(1), true);
            assert(o =~= s.take(1) + r);
            assert(o.skip(1) =~= r);
            if occurs_at(o, "Infinity"@, 0) {
                assert(o.subrange(0, 8)[0] == o[0]);
            }
            if occurs_at(o, "NaN"@, 0) {
                assert(o.subrange(0, 3)[0] == o[0]);
            }
        } else if occurs_at(s, "-Infinity"@, 0) {
            sanitized_is_clean(s.skip(9), false);
            quoted_word_is_skipped("\"-inf\""@, sanitized(s.skip(9), false));
        } else if occurs_at(s, "Infinity"@, 0) {
            sanitized_is_clean(s.skip(8), false);
            quoted_word_is_skipped("\"inf\""@, sanitized(s.skip(8), false));
        } else if occurs_at(s, "NaN"@, 0) {
            sanitized_is_clean(s.skip(3), false);
            quoted_word_is_skipped("\"nan\""@, sanitized(s.skip(3), false));
        } else {
            let r = sanitized(s.skip(1), false);
            sanitized_is_clean(s.skip(1), false);
            assert(o =~= s.take(1) + r);
            assert(o.skip(1) =~= r);
            if occurs_at(o, "Infinity"@, 0) {
                copied_word_was_there(s, "Infinity"@);
            }
            if occurs_at(o, "NaN"@, 0) {
                copied_word_was_there(s, "NaN"@);
            }
        }
    }
}

/// No word for a number that is not finite is left outside the strings.
pub proof fn sanitized_leaves_no_bare_word(s: Seq<char>)
    ensures
        !bare_word(sanitized(s, false), Place::Outside),
{
    sanitized_is_clean(s, false);
}

/// Rewriting twice is rewriting once.
pub proof fn sanitizing_is_idempotent(s: Seq<char>)
    ensures
        sanitized(sanitized(s, false), false) == sanitized(s, false),
{
    sanitized_leaves_no_bare_word(s);
    sanitized_keeps_words_in_strings(sanitized(s, false));
}

/// Where the character after a text stands whose first character stands at `p`.
pub open spec fn place_after(s: Seq<char>, p: Place) -> Place
    decreases s.len(),
{
    if s.len() == 0 {
        p
    } else {
        place_after(s.skip(1), next_place(p, s[0]))
    }
}

proof fn quoteless_start_stays_outside(s: Seq<char>, n: int)
    requires
        0 <= n <= s.len(),
        forall|i: int| 0 <= i < n ==> #[trigger] s[i] != '"',
    ensures
        place_after(s.skip(n), Place::Outside) == place_after(s, Place::Outside),
    decreases n,
{
    if n > 0 {
        let t = s.skip(1);
        assert(s[0] != '"');
        assert forall|i: int| 0 <= i < n - 1 implies #[trigger] t[i] != '"' by {
            assert(s[i + 1] != '"');
        }
        quoteless_start_stays_outside(t, n - 1);
        assert(t.skip(n - 1) =~= s.skip(n));
    } else {
        assert(s.skip(0) =~= s);
    }
}

proof fn word_ends_before_a_quote(a: Seq<char>, x: Seq<char>, w: Seq<char>)
    requires
        x.len() > 0,
        x[0] == '"',
        forall|i: int| 0 <= i < w.len() ==> #[trigger] w[i] != '"',
    ensures
        occurs_at(a + x, w, 0) == occurs_at(a, w, 0),
        occurs_at(a, w, 0) ==> forall|i: int| 0 <= i < w.len() ==> #[trigger] a[i] != '"',
{
    let s = a + x;
    let n = w.len() as int;
    if occurs_at(s, w, 0) {
        if n > a.len() {
            assert(s.subrange(0, n)[a.len() as int] == w[a.len() as int]);
        }
        assert(a.subrange(0, n) =~= s.subrange(0, n));
    }
    if occurs_at(a, w, 0) {
        assert(a.subrange(0, n) =~= s.subrange(0, n));
        assert forall|i: int| 0 <= i < n implies #[trigger] a[i] != '"' by {
            assert(a.subrange(0, n)[i] == w[i]);
        }
    }
}

proof fn sanitized_parts_at_a_quote(a: Seq<char>, x: Seq<char>, in_str: bool)
    requires
        x.len() > 0,
        x[0] == '"',
        place_after(a, place_of(in_str)) == Place::Outside,
    ensures
        sanitized(a + x, in_str) == sanitized(a, in_str) + sanitized(x, false),
    decreases a.len(),
{
    reveal_strlit("-Infinity");
    reveal_strlit("Infinity");
    reveal_strlit("NaN");
    let s = a + x;
    if a.len() == 0 {
        assert(s =~= x);
        assert(sanitized(a, in_str) + sanitized(x, false) =~= sanitized(x, false));
    } else {
        assert(s[0] == a[0]);
        if in_str && a[0] == '\\' {
            let t = a.skip(1);
            if t.len() == 0 {
                assert(place_after(t, Place::Escaped) == Place::Escaped);
            } else {
                assert(t.skip(1) =~= a.skip(2));
                assert(place_after(t, Place::Escaped) == place_after(a.skip(2), Place::Inside));
                sanitized_parts_at_a_quote(a.skip(2), x, true);
                assert(s.skip(2) =~= a.skip(2) + x);
                assert(s.take(2) =~= a.take(2));
                assert(sanitized(s, true) =~= sanitized(a, true) + sanitized(x, false));
            }
        } else if in_str || a[0] == '"' {
            let inside = if in_str {
                a[0] != '"'
            } else {
                true
            };
            sanitized_parts_at_a_quote(a.skip(1), x, inside);
            assert(s.skip(1) =~= a.skip(1) + x);
            assert(s.take(1) =~= a.take(1));
            assert(sanitized(s, in_str) =~= sanitized(a, in_str) + sanitized(x, false));
        } else {
            word_ends_before_a_quote(a, x, "-Infinity"@);
            word_ends_before_a_quote(a, x, "Infinity"@);
            word_ends_before_a_quote(a, x, "NaN"@);
            let n: int = if occurs_at(a, "-Infinity"@, 0) {
                9
            } else if occurs_at(a, "Infinity"@, 0) {
                8
            } else if occurs_at(a, "NaN"@, 0) {
                3
            } else {
                1
            };
            quoteless_start_stays_outside(a, n);
            sanitized_parts_at_a_quote(a.skip(n), x, false);
            assert(s.skip(n) =~= a.skip(n) + x);
            assert(s.take(1) =~= a.take(1));
            assert(sanitized(s, false) =~= sanitized(a, false) + sanitized(x, false));
        }
    }
}

/// A string literal is left as it is wherever it stands, and what stands before
/// and after it is treated as if the literal were not there.
pub proof fn sanitized_keeps_literals_anywhere(
    before: Seq<char>,
    body: Seq<char>,
    rest: Seq<char>,
)
    requires
        place_after(before, Place::Outside) == Place::Outside,
        literal_body(body),
    ensures
        sanitized(before + (seq!['"'] + body + seq!['"'] + rest), false) == sanitized(
            before,
            false,
        ) + (seq!['"'] + body + seq!['"'] + sanitized(rest, false)),
{
    sanitized_parts_at_a_quote(before, seq!['"'] + body + seq!['"'] + rest, false);
    sanitized_keeps_literals(body, rest);
}

/// Whether `p` stands in `v` at position `i`.
fn stands_at(v: &Vec<char>, p: &str, i: usize) -> (r: bool)
    requires
        i <= v@.len(),
    ensures
        r == occurs_at(v@.skip(i as int), p@, 0),
        r ==> i + p@.len() <= v@.len(),
{
    let pv = chars_of(p);
    let n: usize = v.len();
    if pv.len() > n - i {
        return false;
    }
    let piece = string_of(v, i, i + pv.len());
    assert(v@.skip(i as int).subrange(0, pv@.len() as int) =~= v@.subrange(i as int, i + pv@.len()));
    str_eq(piece.as_str(), p)
}

/// Rewrites the tokens `-Infinity`, `Infinity` and `NaN` to the strings
/// `"-inf"`, `"inf"` and `"nan"`, except inside string literals.
pub fn sanitize_nonfinite_json(s: &str) -> (out: String)
    ensures
        out@ == sanitized(s@, false),
{
    let v = chars_of(s);
    let n: usize = v.len();
    let mut out = String::new();
    let mut in_str = false;
    let mut i: usize = 0;
    proof {
        reveal_strlit("-Infinity");
        reveal_strlit("Infinity");
        reveal_strlit("NaN");
        assert(v@.skip(0) =~= s@);
        assert(out@ + sanitized(s@, false) =~= sanitized(s@, false));
    }
    while i < n
        invariant
            i <= n,
            n == v@.len(),
            v@ == s@,
            "-Infinity"@.len() == 9,
            "Infinity"@.len() == 8,
            "NaN"@.len() == 3,
            out@ + sanitized(v@.skip(i as int), in_str) == sanitized(s@, false),
        decreases n - i,
    {
        let ghost rest = v@.skip(i as int);
        let ghost before = out@;
        let c = v[i];
        assert(rest[0] == c);
        if in_str {
            if c == '\\' && i + 1 < n {
                out.push(c);
                out.push(v[i + 1]);
                i += 2;
                assert(v@.skip(i as int) =~= rest.skip(2));
                assert(out@ =~= before + rest.take(2));
                assert(out@ + sanitized(rest.skip(2), true) =~= before + sanitized(rest, true));
            } else {
                out.push(c);
                i += 1;
                assert(v@.skip(i as int) =~= rest.skip(1));
                assert(out@ =~= before + rest.take(1));
                assert(out@ + sanitized(rest.skip(1), c != '"') =~= before + sanitized(rest, true));
                in_str = c != '"';
            }
        } else if c == '"' {
            out.push(c);
            i += 1;
            in_str = true;
            assert(v@.skip(i as int) =~= rest.skip(1));
            assert(out@ =~= before + rest.take(1));
            assert(out@ + sanitized(rest.skip(1), true) =~= before + sanitized(rest, false));
        } else if stands_at(&v, "-Infinity", i) {
            out.append("\"-inf\"");
            i += 9;
            assert(v@.skip(i as int) =~= rest.skip(9));
            assert(out@ + sanitized(rest.skip(9), false) =~= before + sanitized(rest, false));
        } else if stands_at(&v, "Infinity", i) {
            out.append("\"inf\"");
            i += 8;
            assert(v@.skip(i as int) =~= rest.skip(8));
            assert(out@ + sanitized(rest.skip(8), false) =~= before + sanitized(rest, false));
        } else if stands_at(&v, "NaN", i) {
            out.append("\"nan\"");
            i += 3;
            assert(v@.skip(i as int) =~= rest.skip(3));
            assert(out@ + sanitized(rest.skip(3), false) =~= before + sanitized(rest, false));
        } else {
            out.push(c);
            i += 1;
            assert(v@.skip(i as int) =~= rest.skip(1));
            assert(out@ =~= before + rest.take(1));
            assert(out@ + sanitized(rest.skip(1), false) =~= before + sanitized(rest, false));
        }
    }
    assert(v@.skip(i as int) =~= Seq::<char>::empty());
    assert(out@ + Seq::<char>::empty() =~= out@);
    out
}

/// A word for a number that is not finite becomes a string where it is met, and what
/// stands behind it is gone through in turn. The word for a negative one is not
/// taken for a minus sign before the other. Any other character outside strings
/// stays.
pub proof fn words_become_strings(s: Seq<char>, c: char)
    ensures
        sanitized("NaN"@ + s, false) == seq!['"', 'n', 'a', 'n', '"'] + sanitized(s, false),
        sanitized("Infinity"@ + s, false) == seq!['"', 'i', 'n', 'f', '"'] + sanitized(s, false),
        sanitized("-Infinity"@ + s, false) == seq!['"', '-', 'i', 'n', 'f', '"'] + sanitized(
            s,
            false,
        ),
        c != '"' && c != '-' && c != 'I' && c != 'N' ==> sanitized(seq![c] + s, false) == seq![c]
            + sanitized(s, false),
        sanitized(seq!['"'] + s, false) == seq!['"'] + sanitized(s, true),
        c != '\\' ==> sanitized(seq![c] + s, true) == seq![c] + sanitized(s, c != '"'),
{
    reveal_strlit("NaN");
    reveal_strlit("Infinity");
    reveal_strlit("-Infinity");
    reveal_strlit("\"nan\"");
    reveal_strlit("\"inf\"");
    reveal_strlit("\"-inf\"");
    let n = "NaN"@ + s;
    let i = "Infinity"@ + s;
    let m = "-Infinity"@ + s;
    assert(n.subrange(0, 3) =~= "NaN"@);
    assert(n.skip(3) =~= s);
    assert(!occurs_at(n, "-Infinity"@, 0)) by {
        if occurs_at(n, "-Infinity"@, 0) {
            assert(n.subrange(0, 9)[0] == n[0]);
        }
    }
    assert(!occurs_at(n, "Infinity"@, 0)) by {
        if occurs_at(n, "Infinity"@, 0) {
            assert(n.subrange(0, 8)[0] == n[0]);
        }
    }
    assert("\"nan\""@ =~= seq!['"', 'n', 'a', 'n', '"']);
    assert(i.subrange(0, 8) =~= "Infinity"@);
    assert(i.skip(8) =~= s);
    assert(!occurs_at(i, "-Infinity"@, 0)) by {
        if occurs_at(i, "-Infinity"@, 0) {
            assert(i.subrange(0, 9)[0] == i[0]);
        }
    }
    assert("\"inf\""@ =~= seq!['"', 'i', 'n', 'f', '"']);
    assert(m.subrange(0, 9) =~= "-Infinity"@);
    assert(m.skip(9) =~= s);
    assert("\"-inf\""@ =~= seq!['"', '-', 'i', 'n', 'f', '"']);
    let d = seq![c] + s;
    assert(d.skip(1) =~= s);
    assert(d.take(1) =~= seq![c]);
    if occurs_at(d, "-Infinity"@, 0) {
        assert(d.subrange(0, 9)[0] == d[0]);
    }
    if occurs_at(d, "Infinity"@, 0) {
        assert(d.subrange(0, 8)[0] == d[0]);
    }
    if occurs_at(d, "NaN"@, 0) {
        assert(d.subrange(0, 3)[0] == d[0]);
    }
    let q = seq!['"'] + s;
    assert(q.skip(1) =~= s);
    assert(q.take(1) =~= seq!['"']);
}

} // verus!
