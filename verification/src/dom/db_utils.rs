//! Publishing module readings, and the bookkeeping of latched flags.

use vstd::prelude::*;

use crate::assoc::OrderedMap;
use crate::clock::{format_utc, stamp};
use crate::db::{last_value, row_at, text_view, DbTable, Rows};
use crate::dom::dom_sensor::{temperature_reply, DomUtils};
use crate::dom::status::{projected, StatusUtils};
use crate::hal::{get_transceiver_presence, Ask, Hal, Trace};
use crate::json::{
    clone_reply, filled_fields, py_str, py_truthy, reply_true, reply_truthy, reply_view, row_of,
    strip_unit, take_filled, truthy, unit_stripped, value_to_py_str, vals, Fields, Fvs, Reply,
    ReplyView, Row, Val, Vals, Value,
};
use crate::port::{MappingView, PortMapping};
use crate::text::{
    chars_of, i64_text, owned, parse_i64, parsed_i64, signed_decimal, str_eq, string_of, trim,
    trimmed,
};

verus! {

// ---- the text of a row ----

/// How the values of a reading become texts.
#[derive(Clone, Copy, Debug, PartialEq, Eq, Structural)]
pub enum Beautify {
    /// Every value as its text.
    Plain,
    /// Monitor values without their units, every other value as its text.
    Dom,
}

/// Whether `k` names a per-lane monitor: `tx` or `rx`, a lane from 1 to 8, and
/// the suffix.
pub open spec fn lane_key(k: Seq<char>, suffix: Seq<char>) -> bool {
    &&& k.len() == 3 + suffix.len()
    &&& k[0] == 't' || k[0] == 'r'
    &&& k[1] == 'x'
    &&& '1' <= k[2] <= '8'
    &&& k.skip(3) == suffix
}

/// The text that a monitor value is published with: temperature, voltage, and
/// the power and bias of a lane without their units.
pub open spec fn dom_text(k: Seq<char>, v: Val) -> Seq<char> {
    if k == "temperature"@ {
        unit_stripped(v, "C"@)
    } else if k == "voltage"@ {
        unit_stripped(v, "Volts"@)
    } else if lane_key(k, "power"@) {
        unit_stripped(v, "dBm"@)
    } else if lane_key(k, "bias"@) {
        unit_stripped(v, "mA"@)
    } else {
        py_str(v)
    }
}

/// The text that field `k` is published with.
pub open spec fn shown(b: Beautify, k: Seq<char>, v: Val) -> Seq<char> {
    match b {
        Beautify::Plain => py_str(v),
        Beautify::Dom => dom_text(k, v),
    }
}

/// The row that a reading is published as.
pub open spec fn shown_row(b: Beautify, f: Vals) -> Row {
    f.map_values(|p: (Seq<char>, Val)| (p.0, shown(b, p.0, p.1)))
}

/// A row with the time of its publication as its last field.
pub open spec fn stamped(row: Row, secs: u64) -> Row {
    row.push(("last_update_time"@, stamp(secs)))
}

/// Whether `k` names a per-lane monitor with the suffix.
pub fn is_lane_key(k: &str, suffix: &str) -> (r: bool)
    ensures
        r == lane_key(k@, suffix@),
{
    let v = chars_of(k);
    let s = chars_of(suffix);
    if s.len() > v.len() || v.len() - s.len() != 3 {
        return false;
    }
    let rest = string_of(&v, 3, v.len());
    assert(v@.subrange(3, v@.len() as int) =~= k@.skip(3));
    (v[0] == 't' || v[0] == 'r') && v[1] == 'x' && '1' <= v[2] && v[2] <= '8' && str_eq(
        rest.as_str(),
        suffix,
    )
}

/// The text that a monitor value is published with.
fn dom_value_text(k: &str, v: &Value) -> (r: String)
    ensures
        r@ == dom_text(k@, v@),
{
    if str_eq(k, "temperature") {
        strip_unit(v, "C")
    } else if str_eq(k, "voltage") {
        strip_unit(v, "Volts")
    } else if is_lane_key(k, "power") {
        strip_unit(v, "dBm")
    } else if is_lane_key(k, "bias") {
        strip_unit(v, "mA")
    } else {
        value_to_py_str(v)
    }
}

/// Turns every value into the string that it is published as.
pub fn beautify(b: Beautify, f: &mut Fields)
    ensures
        vals(final(f)@) == vals(old(f)@).map_values(
            |p: (Seq<char>, Val)| (p.0, Val::Str(shown(b, p.0, p.1))),
        ),
{
    let ghost start = vals(f@);
    let ghost goal = start.map_values(|p: (Seq<char>, Val)| (p.0, Val::Str(shown(b, p.0, p.1))));
    let mut i: usize = 0;
    while i < f.len()
        invariant
            i <= f@.len(),
            f@.len() == start.len(),
            goal == start.map_values(
                |p: (Seq<char>, Val)| (p.0, Val::Str(shown(b, p.0, p.1))),
            ),
            forall|j: int| 0 <= j < i ==> vals(f@)[j] == #[trigger] goal[j],
            forall|j: int| i <= j < f@.len() ==> vals(f@)[j] == #[trigger] start[j],
        decreases f.len() - i,
    {
        let k = f[i].0.clone();
        assert(vals(f@)[i as int] == start[i as int]);
        let text = match b {
            Beautify::Plain => value_to_py_str(&f[i].1),
            Beautify::Dom => dom_value_text(k.as_str(), &f[i].1),
        };
        let ghost before = vals(f@);
        f.set(i, (k, Value::Str(text)));
        assert(vals(f@) =~= before.update(i as int, goal[i as int]));
        i += 1;
    }
    assert(vals(f@) =~= goal);
}

/// The row of texts of a list of fields.
pub fn fields_to_fvs(f: &Fields) -> (r: Fvs)
    ensures
        row_of(r@) == shown_row(Beautify::Plain, vals(f@)),
{
    let mut r: Fvs = Vec::new();
    let ghost goal = shown_row(Beautify::Plain, vals(f@));
    let mut i: usize = 0;
    while i < f.len()
        invariant
            i <= f@.len(),
            goal == shown_row(Beautify::Plain, vals(f@)),
            row_of(r@) == goal.take(i as int),
        decreases f.len() - i,
    {
        let ghost before = r@;
        r.push((f[i].0.clone(), value_to_py_str(&f[i].1)));
        assert(vals(f@)[i as int] == (f@[i as int].0@, f@[i as int].1@));
        assert(row_of(r@) =~= row_of(before).push(goal[i as int]));
        i += 1;
        assert(goal.take(i as int) =~= goal.take(i - 1).push(goal[i - 1]));
    }
    assert(goal.take(i as int) =~= goal);
    r
}

/// The row that a reading is published as.
pub fn render(b: Beautify, f: Fields) -> (r: Fvs)
    ensures
        row_of(r@) == shown_row(b, vals(f@)),
{
    let mut f = f;
    let ghost start = vals(f@);
    beautify(b, &mut f);
    let r = fields_to_fvs(&f);
    assert(row_of(r@) =~= shown_row(b, start));
    r
}

/// Adds the time of publication to a row.
pub fn add_stamp(fvs: &mut Fvs, secs: u64)
    ensures
        row_of(final(fvs)@) == stamped(row_of(old(fvs)@), secs),
{
    let ghost before = row_of(fvs@);
    fvs.push((owned("last_update_time"), format_utc(secs)));
    assert(row_of(fvs@) =~= stamped(before, secs));
}

/// The rows of a table after `row` is set at `key`.
pub open spec fn put<T: DbTable>(rows: Rows, key: Seq<char>, row: Row) -> Rows {
    rows.insert(key, T::stored(row_at(rows, key), row))
}

// ---- latched flags ----

/// The four tables of a family of flags: the values, how often each changed,
/// and when each was last set and last cleared.
pub struct FlagTables<T: DbTable> {
    pub value: T,
    pub change_count: T,
    pub set_time: T,
    pub clear_time: T,
}

/// The rows of the four tables.
pub struct FlagRows {
    pub value: Rows,
    pub change_count: Rows,
    pub set_time: Rows,
    pub clear_time: Rows,
}

impl<T: DbTable> FlagTables<T> {
    /// The rows of the four tables.
    pub open spec fn rows(&self) -> FlagRows {
        FlagRows {
            value: self.value.rows(),
            change_count: self.change_count.rows(),
            set_time: self.set_time.rows(),
            clear_time: self.clear_time.rows(),
        }
    }
}

/// One field for each flag, all with the same text.
pub open spec fn uniform_row(f: Vals, text: Seq<char>) -> Row {
    f.map_values(|p: (Seq<char>, Val)| (p.0, text))
}

/// The tables after the first publication of flags: no changes yet, never set,
/// never cleared.
pub open spec fn seeded<T: DbTable>(t: FlagRows, key: Seq<char>, f: Vals) -> FlagRows {
    FlagRows {
        value: t.value,
        change_count: put::<T>(t.change_count, key, uniform_row(f, "0"@)),
        set_time: put::<T>(t.set_time, key, uniform_row(f, "never"@)),
        clear_time: put::<T>(t.clear_time, key, uniform_row(f, "never"@)),
    }
}

/// The change count that a row holds for a flag; 0 where it holds none.
pub open spec fn count_in(row: Row, name: Seq<char>) -> i64 {
    match last_value(row, name) {
        Some(s) => match parsed_i64(s) {
            Some(n) => n,
            None => 0,
        },
        None => 0,
    }
}

/// The next count; after the largest comes the smallest.
pub open spec fn next_count(n: i64) -> i64 {
    if n == i64::MAX {
        i64::MIN
    } else {
        (n + 1) as i64
    }
}

/// The tables after flag `name` changed to `v` at `time`: one more change, and
/// the time of setting or clearing.
pub open spec fn changed<T: DbTable>(
    t: FlagRows,
    key: Seq<char>,
    name: Seq<char>,
    v: Val,
    time: Seq<char>,
) -> FlagRows {
    match row_at(t.change_count, key) {
        None => t,
        Some(row) => {
            let n = signed_decimal(next_count(count_in(row, name)) as int);
            FlagRows {
                value: t.value,
                change_count: put::<T>(t.change_count, key, seq![(name, n)]),
                set_time: if truthy(v) {
                    put::<T>(t.set_time, key, seq![(name, time)])
                } else {
                    t.set_time
                },
                clear_time: if truthy(v) {
                    t.clear_time
                } else {
                    put::<T>(t.clear_time, key, seq![(name, time)])
                },
            }
        },
    }
}

/// Whether a flag read as `v` differs from what was published last. A value of
/// N/A, and a flag that was not published, does not count as a change.
pub open spec fn flag_moved(published: Row, name: Seq<char>, v: Val) -> bool {
    &&& trimmed(py_str(v)) != "N/A"@
    &&& match last_value(published, name) {
        Some(s) => s != py_str(v),
        None => false,
    }
}

/// The tables after each flag that moved is recorded, in order.
pub open spec fn recorded<T: DbTable>(
    t: FlagRows,
    published: Row,
    key: Seq<char>,
    f: Vals,
    time: Seq<char>,
) -> FlagRows
    decreases f.len(),
{
    if f.len() == 0 {
        t
    } else {
        let t1 = if flag_moved(published, f[0].0, f[0].1) {
            changed::<T>(t, key, f[0].0, f[0].1, time)
        } else {
            t
        };
        recorded::<T>(t1, published, key, f.skip(1), time)
    }
}

/// The tables after a fresh reading of flags is compared with the published
/// row.
pub open spec fn tracked_flags<T: DbTable>(
    t: FlagRows,
    key: Seq<char>,
    f: Vals,
    time: Seq<char>,
) -> FlagRows {
    match row_at(t.value, key) {
        None => seeded::<T>(t, key, f),
        Some(published) => recorded::<T>(t, published, key, f, time),
    }
}

/// Finds the value of the last field named `name`.
fn fvs_last(f: &Fvs, name: &str) -> (r: Option<String>)
    ensures
        text_view(r) == last_value(row_of(f@), name@),
{
    let ghost row = row_of(f@);
    let mut i: usize = f.len();
    assert(row.take(i as int) =~= row);
    while i > 0
        invariant
            i <= f@.len(),
            row == row_of(f@),
            last_value(row, name@) == last_value(row.take(i as int), name@),
        decreases i,
    {
        assert(row.take(i as int).drop_last() =~= row.take(i - 1));
        assert(row.take(i as int).last() == row[i - 1]);
        if str_eq(f[i - 1].0.as_str(), name) {
            return Some(f[i - 1].1.clone());
        }
        i -= 1;
    }
    None
}

fn uniform_fvs(f: &Fields, text: &str) -> (r: Fvs)
    ensures
        row_of(r@) == uniform_row(vals(f@), text@),
{
    let mut r: Fvs = Vec::new();
    let ghost goal = uniform_row(vals(f@), text@);
    let mut i: usize = 0;
    while i < f.len()
        invariant
            i <= f@.len(),
            goal == uniform_row(vals(f@), text@),
            row_of(r@) == goal.take(i as int),
        decreases f.len() - i,
    {
        let ghost before = r@;
        r.push((f[i].0.clone(), owned(text)));
        assert(vals(f@)[i as int] == (f@[i as int].0@, f@[i as int].1@));
        assert(row_of(r@) =~= row_of(before).push(goal[i as int]));
        i += 1;
        assert(goal.take(i as int) =~= goal.take(i - 1).push(goal[i - 1]));
    }
    assert(goal.take(i as int) =~= goal);
    r
}

fn one_field(name: &str, text: &str) -> (r: Fvs)
    ensures
        row_of(r@) == seq![(name@, text@)],
{
    let mut r: Fvs = Vec::new();
    r.push((owned(name), owned(text)));
    assert(row_of(r@) =~= seq![(name@, text@)]);
    r
}

// ---- finding the module of a port ----

/// The slot of a port whose module may be read, and the trace of finding it:
/// the daemon is not stopping, the port has a slot, the slot holds a module,
/// and, where that is asked, the module has paged memory.
pub open spec fn validated(
    m: MappingView,
    tr: Trace,
    name: Seq<char>,
    paged_only: bool,
) -> (Option<usize>, Trace) {
    let t1 = tr.then_ask(Ask::Stop);
    if tr.stop() {
        (None, t1)
    } else {
        match m.physical_of(name) {
            None => (None, t1),
            Some(p) => {
                let t2 = t1.then_ask(Ask::Presence(p));
                if !t1.present(p) {
                    (None, t2)
                } else if paged_only {
                    let t3 = t2.then_ask(Ask::Json(p, "is_flat_memory"@));
                    if reply_true(t2.json(p, "is_flat_memory"@)) {
                        (None, t3)
                    } else {
                        (Some(p), t3)
                    }
                } else {
                    (Some(p), t2)
                }
            },
        }
    }
}

/// Whether the module in the slot has flat memory only.
pub fn is_transceiver_flat_memory<H: Hal>(hal: &mut H, port: usize) -> (r: bool)
    ensures
        r == reply_true(old(hal).trace().json(port, "is_flat_memory"@)),
        final(hal).trace() == old(hal).trace().then_ask(Ask::Json(port, "is_flat_memory"@)),
{
    let reply = hal.call_json(port, "is_flat_memory");
    reply_truthy(&reply)
}

// ---- readings of one pass ----

/// Readings kept for the length of one pass, by slot, so that the ports of a
/// breakout share one reading. A cache that is off keeps nothing.
pub struct DbCache {
    kept: Option<OrderedMap<usize, Option<Reply>>>,
}

/// The readings that a cache keeps; `None` for one that is off.
pub type CacheView = Option<Map<usize, Option<ReplyView>>>;

/// What a cache keeps for a slot.
pub open spec fn cached(c: CacheView, port: usize) -> Option<Option<ReplyView>> {
    match c {
        Some(m) => if m.dom().contains(port) {
            Some(m[port])
        } else {
            None
        },
        None => None,
    }
}

/// The cache after a reading is offered to it.
pub open spec fn keeping(c: CacheView, port: usize, r: Option<ReplyView>) -> CacheView {
    match c {
        Some(m) => Some(m.insert(port, r)),
        None => None,
    }
}

impl View for DbCache {
    type V = CacheView;

    closed spec fn view(&self) -> CacheView {
        match self.kept {
            Some(m) => Some(m@.map_values(|r: Option<Reply>| reply_view(r))),
            None => None,
        }
    }
}

impl DbCache {
    /// A cache that keeps nothing.
    pub fn off() -> (c: Self)
        ensures
            c@ == None::<Map<usize, Option<ReplyView>>>,
    {
        DbCache { kept: None }
    }

    /// An empty cache.
    pub fn new() -> (c: Self)
        ensures
            c@ == Some(Map::<usize, Option<ReplyView>>::empty()),
    {
        let c = DbCache { kept: Some(OrderedMap::new()) };
        assert(c@->0 =~= Map::<usize, Option<ReplyView>>::empty());
        c
    }

    /// What the cache keeps for a slot.
    pub fn lookup(&self, port: usize) -> (r: Option<Option<Reply>>)
        ensures
            match r {
                Some(x) => cached(self@, port) == Some(reply_view(x)),
                None => cached(self@, port) is None,
            },
    {
        match &self.kept {
            Some(m) => match m.get(&port) {
                Some(x) => Some(clone_reply(x)),
                None => None,
            },
            None => None,
        }
    }

    /// Keeps a reading, where the cache is on.
    pub fn keep(&mut self, port: usize, r: &Option<Reply>)
        ensures
            final(self)@ == keeping(old(self)@, port, reply_view(*r)),
    {
        let ghost start = self@;
        let mut kept: Option<OrderedMap<usize, Option<Reply>>> = None;
        std::mem::swap(&mut kept, &mut self.kept);
        match kept {
            Some(m) => {
                let mut m = m;
                m.insert(port, clone_reply(r));
                self.kept = Some(m);
                assert(self@->0 =~= start->0.insert(port, reply_view(*r)));
            },
            None => {},
        }
    }
}

// ---- publishing ----

/// Which reading of a module is published.
#[derive(Clone, Copy, Debug, PartialEq, Eq, Structural)]
pub enum Reader {
    /// The monitor values.
    Sensor,
    /// The temperature alone.
    Temperature,
    /// The alarm and warning thresholds.
    Thresholds,
    /// The module status.
    Status,
    /// The latched monitor flags.
    DomFlags,
    /// The latched status flags.
    StatusFlags,
}

/// The getter that a reading comes from.
pub open spec fn getter(r: Reader) -> Seq<char> {
    match r {
        Reader::Sensor => "get_transceiver_dom_real_value"@,
        Reader::Temperature => "get_temperature"@,
        Reader::Thresholds => "get_transceiver_threshold_info"@,
        Reader::Status => "get_transceiver_status"@,
        Reader::DomFlags => "get_transceiver_dom_flags"@,
        Reader::StatusFlags => "get_transceiver_status_flags"@,
    }
}

/// The reading that is made of the getter's answer.
pub open spec fn reading(r: Reader, raw: Option<ReplyView>) -> Option<ReplyView> {
    match r {
        Reader::Temperature => temperature_reply(raw),
        Reader::Status => projected(raw),
        _ => raw,
    }
}

fn read<H: Hal>(hal: &mut H, port: usize, reader: Reader) -> (r: Option<Reply>)
    ensures
        reply_view(r) == reading(reader, old(hal).trace().json(port, getter(reader))),
        final(hal).trace() == old(hal).trace().then_ask(Ask::Json(port, getter(reader))),
{
    match reader {
        Reader::Sensor => DomUtils.get_transceiver_dom_sensor_real_value(hal, port),
        Reader::Temperature => DomUtils.get_transceiver_dom_temperature(hal, port),
        Reader::Thresholds => DomUtils.get_transceiver_dom_thresholds(hal, port),
        Reader::Status => StatusUtils.get_transceiver_status(hal, port),
        Reader::DomFlags => DomUtils.get_transceiver_dom_flags(hal, port),
        Reader::StatusFlags => StatusUtils.get_transceiver_status_flags(hal, port),
    }
}

/// A reading, from the cache where it is kept there and from the module
/// otherwise.
pub open spec fn fetched(cache: CacheView, tr: Trace, port: usize, reader: Reader) -> (
    Option<ReplyView>,
    CacheView,
    Trace,
) {
    match cached(cache, port) {
        Some(r) => (r, cache, tr),
        None => {
            let r = reading(reader, tr.json(port, getter(reader)));
            (r, keeping(cache, port, r), tr.then_ask(Ask::Json(port, getter(reader))))
        },
    }
}

/// The rows after a reading of port `name` is published: nothing where the
/// module may not be read or gave nothing, one stamped row otherwise.
pub open spec fn posted_diag<T: DbTable>(
    rows: Rows,
    cache: CacheView,
    m: MappingView,
    tr: Trace,
    name: Seq<char>,
    reader: Reader,
    b: Beautify,
    paged_only: bool,
) -> (Rows, CacheView, Trace) {
    let (port, t1) = validated(m, tr, name, paged_only);
    match port {
        None => (rows, cache, t1),
        Some(p) => {
            let (r, c, t2) = fetched(cache, t1, p, reader);
            match filled_fields(r) {
                None => (rows, c, t2),
                Some(f) => (
                    put::<T>(rows, name, stamped(shown_row(b, f), t2.clock())),
                    c,
                    t2.then_ask(Ask::Clock),
                ),
            }
        },
    }
}

/// The tables after a reading of flags is published as the value row, and
/// whether it was.
pub open spec fn published_flags<T: DbTable>(
    t: FlagRows,
    tr: Trace,
    name: Seq<char>,
    r: Option<ReplyView>,
    b: Beautify,
) -> (FlagRows, Trace, bool) {
    match filled_fields(r) {
        None => (t, tr, false),
        Some(f) => (
            FlagRows {
                value: put::<T>(t.value, name, stamped(shown_row(b, f), tr.clock())),
                change_count: t.change_count,
                set_time: t.set_time,
                clear_time: t.clear_time,
            },
            tr.then_ask(Ask::Clock),
            true,
        ),
    }
}

/// The tables after a fresh reading of flags is compared with what was
/// published, and the trace of it.
pub open spec fn noted_flags<T: DbTable>(
    t: FlagRows,
    tr: Trace,
    name: Seq<char>,
    r: Option<ReplyView>,
) -> (FlagRows, Trace) {
    match filled_fields(r) {
        None => (t, tr),
        Some(f) => (
            tracked_flags::<T>(t, name, f, stamp(tr.clock())),
            tr.then_ask(Ask::Clock),
        ),
    }
}

/// The tables after the flags of port `name` are published, and whether they
/// were. A fresh reading is compared with the published row before that row is
/// overwritten; one from the cache was compared when it was read.
pub open spec fn posted_flags<T: DbTable>(
    t: FlagRows,
    cache: CacheView,
    m: MappingView,
    tr: Trace,
    name: Seq<char>,
    reader: Reader,
    b: Beautify,
) -> (FlagRows, CacheView, Trace, bool) {
    let (port, t1) = validated(m, tr, name, false);
    match port {
        None => (t, cache, t1, false),
        Some(p) => match cached(cache, p) {
            Some(r) => {
                let (f, t2, posted) = published_flags::<T>(t, t1, name, r, b);
                (f, cache, t2, posted)
            },
            None => {
                let r = reading(reader, t1.json(p, getter(reader)));
                let t2 = t1.then_ask(Ask::Json(p, getter(reader)));
                if r is None {
                    (t, cache, t2, false)
                } else {
                    let (noted, t3) = noted_flags::<T>(t, t2, name, r);
                    let (f, t4, posted) = published_flags::<T>(noted, t3, name, r, b);
                    (f, keeping(cache, p, r), t4, posted)
                }
            },
        },
    }
}

/// The time stamp of the present second.
pub fn get_current_time<H: Hal>(hal: &mut H) -> (r: String)
    ensures
        r@ == stamp(old(hal).trace().clock()),
        final(hal).trace() == old(hal).trace().then_ask(Ask::Clock),
{
    format_utc(hal.clock())
}

/// What the publishers of monitors, status and flags share.
pub struct DbUtils;

impl DbUtils {
    /// The time of a flag that was never set or never cleared.
    pub const NEVER: &'static str = "never";

    /// The value of a flag that the module does not have.
    pub const NOT_AVAILABLE: &'static str = "N/A";

    pub fn new() -> Self {
        DbUtils
    }

    /// The time stamp of the present second.
    pub fn get_current_time<H: Hal>(&self, hal: &mut H) -> (r: String)
        ensures
            r@ == stamp(old(hal).trace().clock()),
            final(hal).trace() == old(hal).trace().then_ask(Ask::Clock),
    {
        get_current_time(hal)
    }

    /// Turns every value into its text.
    pub fn beautify_info_dict(&self, f: &mut Fields)
        ensures
            vals(final(f)@) == vals(old(f)@).map_values(
                |p: (Seq<char>, Val)| (p.0, Val::Str(py_str(p.1))),
            ),
    {
        let ghost start = vals(f@);
        beautify(Beautify::Plain, f);
        assert(vals(f@) =~= start.map_values(
            |p: (Seq<char>, Val)| (p.0, Val::Str(py_str(p.1))),
        ));
    }

    /// The slot of port `name`, where its module may be read.
    pub fn validate_and_get_physical_port<H: Hal>(
        &self,
        name: &str,
        m: &PortMapping,
        hal: &mut H,
        paged_only: bool,
    ) -> (r: Option<usize>)
        ensures
            (r, final(hal).trace()) == validated(m@, old(hal).trace(), name@, paged_only),
    {
        if hal.stop_requested() {
            return None;
        }
        let p = match m.physical(name) {
            Some(p) => p,
            None => {
                return None;
            },
        };
        if !get_transceiver_presence(hal, p) {
            return None;
        }
        if paged_only && is_transceiver_flat_memory(hal, p) {
            return None;
        }
        Some(p)
    }

    /// Publishes a reading of port `name`.
    pub fn post_diagnostic_values_to_db<T: DbTable, H: Hal>(
        &self,
        name: &str,
        m: &PortMapping,
        table: &mut T,
        hal: &mut H,
        reader: Reader,
        cache: &mut DbCache,
        b: Beautify,
        paged_only: bool,
    )
        ensures
            (final(table).rows(), final(cache)@, final(hal).trace()) == posted_diag::<T>(
                old(table).rows(),
                old(cache)@,
                m@,
                old(hal).trace(),
                name@,
                reader,
                b,
                paged_only,
            ),
            final(table).sizes_readable() == old(table).sizes_readable(),
    {
        let p = match self.validate_and_get_physical_port(name, m, hal, paged_only) {
            Some(p) => p,
            None => {
                return;
            },
        };
        let values = match cache.lookup(p) {
            Some(r) => r,
            None => {
                let r = read(hal, p, reader);
                cache.keep(p, &r);
                r
            },
        };
        match take_filled(values) {
            Some(f) => {
                let mut fvs = render(b, f);
                add_stamp(&mut fvs, hal.clock());
                table.set(name, &fvs);
            },
            None => {},
        }
    }

    /// Publishes the flags of port `name` and records how they moved. Returns
    /// whether a row was published.
    pub fn post_flags_to_db<T: DbTable, H: Hal>(
        &self,
        name: &str,
        m: &PortMapping,
        hal: &mut H,
        tables: &mut FlagTables<T>,
        reader: Reader,
        b: Beautify,
        cache: &mut DbCache,
    ) -> (posted: bool)
        ensures
            (final(tables).rows(), final(cache)@, final(hal).trace(), posted)
                == posted_flags::<T>(
                old(tables).rows(),
                old(cache)@,
                m@,
                old(hal).trace(),
                name@,
                reader,
                b,
            ),
            final(tables).value.sizes_readable() == old(tables).value.sizes_readable(),
    {
        let p = match self.validate_and_get_physical_port(name, m, hal, false) {
            Some(p) => p,
            None => {
                return false;
            },
        };
        let flags = match cache.lookup(p) {
            Some(r) => r,
            None => {
                let r = read(hal, p, reader);
                match &r {
                    None => {
                        return false;
                    },
                    Some(reply) => {
                        match &reply.fields {
                            Some(f) => {
                                if f.len() > 0 {
                                    let time = get_current_time(hal);
                                    self.update_flag_metadata_tables(
                                        name,
                                        f,
                                        time.as_str(),
                                        tables,
                                    );
                                }
                            },
                            None => {},
                        }
                    },
                }
                cache.keep(p, &r);
                r
            },
        };
        match take_filled(flags) {
            Some(f) => {
                let mut fvs = render(b, f);
                add_stamp(&mut fvs, hal.clock());
                tables.value.set(name, &fvs);
                true
            },
            None => false,
        }
    }

    /// Compares a fresh reading of flags with the published row: the first
    /// time the tables are seeded, afterwards each flag that moved is recorded.
    pub fn update_flag_metadata_tables<T: DbTable>(
        &self,
        name: &str,
        f: &Fields,
        time: &str,
        tables: &mut FlagTables<T>,
    )
        ensures
            final(tables).rows() == tracked_flags::<T>(old(tables).rows(), name@, vals(f@), time@),
            final(tables).value.sizes_readable() == old(tables).value.sizes_readable(),
    {
        let published = match tables.value.get(name) {
            None => {
                self.initialize_metadata_tables(name, f, tables);
                return;
            },
            Some(row) => row,
        };
        let ghost t0 = tables.rows();
        let ghost row = row_of(published@);
        let ghost fv = vals(f@);
        let mut i: usize = 0;
        assert(fv.skip(0) =~= fv);
        while i < f.len()
            invariant
                i <= f@.len(),
                fv == vals(f@),
                row == row_of(published@),
                recorded::<T>(tables.rows(), row, name@, fv.skip(i as int), time@)
                    == recorded::<T>(t0, row, name@, fv, time@),
                tables.value.sizes_readable() == old(tables).value.sizes_readable(),
            decreases f.len() - i,
        {
            assert(fv.skip(i as int)[0] == fv[i as int]);
            assert(fv.skip(i as int).skip(1) =~= fv.skip(i + 1));
            let text = value_to_py_str(&f[i].1);
            let moved = if str_eq(trim(text.as_str()).as_str(), "N/A") {
                false
            } else {
                match fvs_last(&published, f[i].0.as_str()) {
                    Some(s) => !str_eq(s.as_str(), text.as_str()),
                    None => false,
                }
            };
            assert(moved == flag_moved(row, fv[i as int].0, fv[i as int].1));
            if moved {
                self.update_flag_metadata(name, f[i].0.as_str(), &f[i].1, time, tables);
            }
            i += 1;
        }
    }

    fn initialize_metadata_tables<T: DbTable>(
        &self,
        name: &str,
        f: &Fields,
        tables: &mut FlagTables<T>,
    )
        ensures
            final(tables).rows() == seeded::<T>(old(tables).rows(), name@, vals(f@)),
            final(tables).value.sizes_readable() == old(tables).value.sizes_readable(),
    {
        let counts = uniform_fvs(f, "0");
        let never = uniform_fvs(f, "never");
        tables.change_count.set(name, &counts);
        tables.set_time.set(name, &never);
        tables.clear_time.set(name, &never);
    }

    fn update_flag_metadata<T: DbTable>(
        &self,
        name: &str,
        flag: &str,
        v: &Value,
        time: &str,
        tables: &mut FlagTables<T>,
    )
        ensures
            final(tables).rows() == changed::<T>(old(tables).rows(), name@, flag@, v@, time@),
            final(tables).value.sizes_readable() == old(tables).value.sizes_readable(),
    {
        let counts = match tables.change_count.get(name) {
            None => {
                return;
            },
            Some(row) => row,
        };
        let count: i64 = match fvs_last(&counts, flag) {
            Some(s) => match parse_i64(s.as_str()) {
                Some(n) => n,
                None => 0,
            },
            None => 0,
        };
        let next: i64 = if count == i64::MAX {
            i64::MIN
        } else {
            count + 1
        };
        tables.change_count.set(name, &one_field(flag, i64_text(next).as_str()));
        if py_truthy(v) {
            tables.set_time.set(name, &one_field(flag, time));
        } else {
            tables.clear_time.set(name, &one_field(flag, time));
        }
    }
}

impl Default for DbUtils {
    fn default() -> Self {
        DbUtils::new()
    }
}

} // verus!
