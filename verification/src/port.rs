//! Logical ports, the slots that they sit on, and the events that change them.

use vstd::prelude::*;

use crate::assoc::{lists, without, without_leaves_the_others, OrderedMap};
use crate::db::{first_value, text_view};
use crate::json::{row_of, Fvs, Row};
use crate::text::{parse_i64, parse_u64, parsed_i64, parsed_u64, str_eq};

verus! {

/// What happened to a port.
#[derive(Clone, Copy, Debug, PartialEq, Eq, Structural)]
pub enum PortChangeEventType {
    /// A logical port was configured.
    PortAdd,
    /// A logical port was taken out of the configuration.
    PortRemove,
    /// Fields of a port's row were written.
    PortSet,
    /// A port's row was deleted.
    PortDel,
}

/// A change of a port in one of the databases.
pub struct PortChangeEvent {
    pub port_name: String,
    pub physical_port: Option<usize>,
    pub asic_id: usize,
    pub event_type: PortChangeEventType,
    pub db_name: String,
    pub table_name: String,
    pub port_dict: Fvs,
}

/// [`PortChangeEvent`] as contracts see it.
pub struct EventView {
    pub port_name: Seq<char>,
    pub physical_port: Option<usize>,
    pub asic_id: usize,
    pub event_type: PortChangeEventType,
    pub db_name: Seq<char>,
    pub table_name: Seq<char>,
    pub port_dict: Row,
}

impl EventView {
    /// The value of the field `name` that the event carries.
    pub open spec fn carries(self, name: Seq<char>) -> Option<Seq<char>> {
        first_value(self.port_dict, name)
    }
}

impl View for PortChangeEvent {
    type V = EventView;

    open spec fn view(&self) -> EventView {
        EventView {
            port_name: self.port_name@,
            physical_port: self.physical_port,
            asic_id: self.asic_id,
            event_type: self.event_type,
            db_name: self.db_name@,
            table_name: self.table_name@,
            port_dict: row_of(self.port_dict@),
        }
    }
}

impl PortChangeEvent {
    /// An event that carries no fields.
    pub fn new(
        port_name: String,
        physical_port: Option<usize>,
        asic_id: usize,
        event_type: PortChangeEventType,
        db_name: String,
        table_name: String,
    ) -> (e: Self)
        ensures
            e.port_name == port_name,
            e.physical_port == physical_port,
            e.asic_id == asic_id,
            e.event_type == event_type,
            e.db_name == db_name,
            e.table_name == table_name,
            e.port_dict@ == Seq::<(String, String)>::empty(),
    {
        PortChangeEvent {
            port_name,
            physical_port,
            asic_id,
            event_type,
            db_name,
            table_name,
            port_dict: Vec::new(),
        }
    }

    /// The event with the fields `port_dict`.
    pub fn with_port_dict(self, port_dict: Fvs) -> (e: Self)
        ensures
            e.port_name == self.port_name,
            e.physical_port == self.physical_port,
            e.asic_id == self.asic_id,
            e.event_type == self.event_type,
            e.db_name == self.db_name,
            e.table_name == self.table_name,
            e.port_dict == port_dict,
    {
        PortChangeEvent {
            port_name: self.port_name,
            physical_port: self.physical_port,
            asic_id: self.asic_id,
            event_type: self.event_type,
            db_name: self.db_name,
            table_name: self.table_name,
            port_dict,
        }
    }

    /// The value of the field `name` that the event carries.
    pub fn carried(&self, name: &str) -> (r: Option<String>)
        ensures
            text_view(r) == self@.carries(name@),
    {
        value_in(&self.port_dict, name)
    }
}

/// The value of the first field named `name`.
pub fn value_in(fvs: &Fvs, name: &str) -> (r: Option<String>)
    ensures
        text_view(r) == first_value(row_of(fvs@), name@),
{
    let mut i: usize = 0;
    let ghost row = row_of(fvs@);
    assert(row.skip(0) =~= row);
    while i < fvs.len()
        invariant
            i <= fvs@.len(),
            row == row_of(fvs@),
            first_value(row, name@) == first_value(row.skip(i as int), name@),
        decreases fvs.len() - i,
    {
        assert(row.skip(i as int)[0] == row[i as int]);
        assert(row.skip(i as int).skip(1) =~= row.skip(i + 1));
        if str_eq(fvs[i].0.as_str(), name) {
            return Some(fvs[i].1.clone());
        }
        i += 1;
    }
    None
}

/// Where a logical port sits: its slot and the ASIC that serves it.
pub struct PortSeat {
    pub physical: usize,
    pub asic: usize,
}

/// [`PortMapping`] as contracts see it.
pub struct MappingView {
    /// Each logical port and its seat.
    pub seats: Map<Seq<char>, PortSeat>,
    /// The logical ports, in the order in which they were added.
    pub ports: Seq<Seq<char>>,
    /// Each slot and the logical ports on it, the first subport first.
    pub tenants: Map<usize, Seq<Seq<char>>>,
    /// The slots, in the order in which they were first used.
    pub slots: Seq<usize>,
}

impl MappingView {
    /// The slot of a logical port.
    pub open spec fn physical_of(self, name: Seq<char>) -> Option<usize> {
        if self.seats.dom().contains(name) {
            Some(self.seats[name].physical)
        } else {
            None
        }
    }

    /// The ASIC of a logical port.
    pub open spec fn asic_of(self, name: Seq<char>) -> Option<usize> {
        if self.seats.dom().contains(name) {
            Some(self.seats[name].asic)
        } else {
            None
        }
    }

    /// The logical ports on a slot.
    pub open spec fn logical_on(self, physical: usize) -> Seq<Seq<char>> {
        if self.tenants.dom().contains(physical) {
            self.tenants[physical]
        } else {
            Seq::empty()
        }
    }

    /// The first logical port on a slot: the first subport of a breakout.
    pub open spec fn first_on(self, physical: usize) -> Option<Seq<char>> {
        if self.logical_on(physical).len() > 0 {
            Some(self.logical_on(physical)[0])
        } else {
            None
        }
    }

    /// Whether seats and slots agree: every port is listed once and sits on the
    /// slot that has it among its ports, and every slot in use is listed once and
    /// has a port on it.
    pub open spec fn agrees(self) -> bool {
        &&& lists(self.ports, self.seats)
        &&& lists(self.slots, self.tenants)
        &&& forall|name: Seq<char>| #[trigger]
            self.seats.dom().contains(name) ==> self.logical_on(
                self.seats[name].physical,
            ).contains(name)
        &&& forall|p: usize, name: Seq<char>| #[trigger]
            self.logical_on(p).contains(name) ==> self.physical_of(name) == Some(p)
        &&& forall|p: usize| #[trigger]
            self.tenants.dom().contains(p) ==> self.tenants[p].len() > 0
                && self.tenants[p].no_duplicates()
    }

    /// The mapping without the logical port `name`.
    pub open spec fn less(self, name: Seq<char>) -> MappingView {
        if !self.seats.dom().contains(name) {
            self
        } else {
            let p = self.seats[name].physical;
            let left = without(self.logical_on(p), name);
            MappingView {
                seats: self.seats.remove(name),
                ports: without(self.ports, name),
                tenants: if left.len() == 0 {
                    self.tenants.remove(p)
                } else {
                    self.tenants.insert(p, left)
                },
                slots: if left.len() == 0 {
                    without(self.slots, p)
                } else if self.tenants.dom().contains(p) {
                    self.slots
                } else {
                    self.slots.push(p)
                },
            }
        }
    }

    /// The mapping with the logical port `name` on slot `physical`.
    pub open spec fn more(self, name: Seq<char>, physical: usize, asic: usize) -> MappingView {
        let m = self.less(name);
        MappingView {
            seats: m.seats.insert(name, (PortSeat { physical, asic })),
            ports: m.ports.push(name),
            tenants: m.tenants.insert(physical, m.logical_on(physical).push(name)),
            slots: if m.tenants.dom().contains(physical) {
                m.slots
            } else {
                m.slots.push(physical)
            },
        }
    }

    /// The mapping after a configuration event.
    pub open spec fn after(self, event: EventView) -> MappingView {
        match (event.event_type, event.physical_port) {
            (PortChangeEventType::PortAdd, Some(p)) => self.more(event.port_name, p, event.asic_id),
            (PortChangeEventType::PortRemove, _) => self.less(event.port_name),
            _ => self,
        }
    }
}

/// The logical ports and the slots that they sit on.
pub struct PortMapping {
    seats: OrderedMap<String, PortSeat>,
    tenants: OrderedMap<usize, Vec<String>>,
}

/// The texts of a list of strings.
pub open spec fn texts(v: Seq<String>) -> Seq<Seq<char>> {
    v.map_values(|s: String| s@)
}

impl View for PortMapping {
    type V = MappingView;

    closed spec fn view(&self) -> MappingView {
        mapped(&self.seats, &self.tenants)
    }
}

/// The mapping that the two maps stand for.
spec fn mapped(
    seats: &OrderedMap<String, PortSeat>,
    tenants: &OrderedMap<usize, Vec<String>>,
) -> MappingView {
    MappingView {
        seats: seats@,
        ports: seats.order(),
        tenants: tenants@.map_values(|v: Vec<String>| texts(v@)),
        slots: tenants.order(),
    }
}

/// A copy of a list of strings.
pub fn clone_texts(v: &Vec<String>) -> (r: Vec<String>)
    ensures
        r@ == v@,
{
    let mut r: Vec<String> = Vec::new();
    let mut i: usize = 0;
    while i < v.len()
        invariant
            i <= v@.len(),
            r@ == v@.take(i as int),
        decreases v.len() - i,
    {
        r.push(v[i].clone());
        i += 1;
        assert(v@.take(i as int) =~= v@.take(i - 1).push(v@[i - 1]));
    }
    assert(v@.take(i as int) =~= v@);
    r
}

fn texts_without(v: &Vec<String>, name: &str) -> (r: Vec<String>)
    ensures
        texts(r@) == without(texts(v@), name@),
{
    let mut r: Vec<String> = Vec::new();
    let ghost t = texts(v@);
    let mut i: usize = 0;
    assert(texts(r@) =~= without(t.take(0), name@));
    while i < v.len()
        invariant
            i <= v@.len(),
            t == texts(v@),
            texts(r@) == without(t.take(i as int), name@),
        decreases v.len() - i,
    {
        assert(t.take(i + 1).drop_last() =~= t.take(i as int));
        assert(t.take(i + 1).last() == t[i as int]);
        if !str_eq(v[i].as_str(), name) {
            let ghost before = r@;
            r.push(v[i].clone());
            assert(texts(r@) =~= texts(before).push(t[i as int]));
        }
        i += 1;
    }
    assert(t.take(i as int) =~= t);
    r
}

fn drop_port(
    seats: &mut OrderedMap<String, PortSeat>,
    tenants: &mut OrderedMap<usize, Vec<String>>,
    name: &str,
)
    ensures
        mapped(final(seats), final(tenants)) == mapped(old(seats), old(tenants)).less(name@),
{
    let k = name.to_owned();
    match seats.remove(&k) {
        None => {
            assert(seats@ =~= old(seats)@);
        },
        Some(seat) => {
            let left = match tenants.get(&seat.physical) {
                Some(v) => texts_without(v, name),
                None => Vec::new(),
            };
            proof {
                if !tenants@.dom().contains(seat.physical) {
                    assert(texts(left@) =~= without(Seq::<Seq<char>>::empty(), name@));
                }
            }
            let ghost before = mapped(seats, tenants).tenants;
            let ghost kept = texts(left@);
            if left.len() == 0 {
                let _gone = tenants.remove(&seat.physical);
                assert(mapped(seats, tenants).tenants =~= before.remove(seat.physical));
            } else {
                tenants.insert(seat.physical, left);
                assert(mapped(seats, tenants).tenants =~= before.insert(seat.physical, kept));
            }
        },
    }
}

impl PortMapping {
    /// Seats and slots always agree.
    #[verifier::type_invariant]
    pub open spec fn seats_and_slots_agree(self) -> bool {
        self@.agrees()
    }

    /// A mapping without ports.
    pub fn new() -> (m: Self)
        ensures
            m@.agrees(),
            m@.seats == Map::<Seq<char>, PortSeat>::empty(),
            m@.ports == Seq::<Seq<char>>::empty(),
            m@.tenants == Map::<usize, Seq<Seq<char>>>::empty(),
            m@.slots == Seq::<usize>::empty(),
    {
        let seats: OrderedMap<String, PortSeat> = OrderedMap::new();
        let tenants: OrderedMap<usize, Vec<String>> = OrderedMap::new();
        assert(mapped(&seats, &tenants).tenants =~= Map::<usize, Seq<Seq<char>>>::empty());
        PortMapping { seats, tenants }
    }

    /// The slots that logical port `name` sits on.
    pub fn get_logical_to_physical(&self, name: &str) -> (r: Option<Vec<usize>>)
        ensures
            match r {
                Some(v) => v@.len() == 1 && self@.physical_of(name@) == Some(v@[0]),
                None => self@.physical_of(name@) is None,
            },
    {
        match self.physical(name) {
            Some(p) => {
                let mut v: Vec<usize> = Vec::new();
                v.push(p);
                Some(v)
            },
            None => None,
        }
    }

    /// The first slot of logical port `name`.
    pub fn physical(&self, name: &str) -> (r: Option<usize>)
        ensures
            r == self@.physical_of(name@),
    {
        match self.seats.get(&name.to_owned()) {
            Some(s) => Some(s.physical),
            None => None,
        }
    }

    /// The logical ports on slot `physical`.
    pub fn get_physical_to_logical(&self, physical: usize) -> (r: Option<Vec<String>>)
        ensures
            match r {
                Some(v) => self@.tenants.dom().contains(physical) && texts(v@)
                    == self@.tenants[physical],
                None => !self@.tenants.dom().contains(physical),
            },
    {
        match self.tenants.get(&physical) {
            Some(v) => Some(clone_texts(v)),
            None => None,
        }
    }

    /// The first logical port on slot `physical`.
    pub fn first_logical(&self, physical: usize) -> (r: Option<String>)
        ensures
            text_view(r) == self@.first_on(physical),
    {
        match self.tenants.get(&physical) {
            Some(v) => if v.len() > 0 {
                assert(texts(v@)[0] == v@[0]@);
                Some(v[0].clone())
            } else {
                None
            },
            None => None,
        }
    }

    /// The ASIC that serves logical port `name`.
    pub fn get_asic_id_for_logical_port(&self, name: &str) -> (r: Option<usize>)
        ensures
            r == self@.asic_of(name@),
    {
        match self.seats.get(&name.to_owned()) {
            Some(s) => Some(s.asic),
            None => None,
        }
    }

    /// The slots in use, in the order in which they were first used.
    pub fn slots(&self) -> (r: Vec<usize>)
        ensures
            r@ == self@.slots,
            r@.no_duplicates(),
            forall|p: usize| #[trigger] self@.tenants.dom().contains(p) <==> r@.contains(p),
    {
        let n = self.tenants.len();
        let ghost order = self.tenants.order();
        let mut r: Vec<usize> = Vec::new();
        let mut i: usize = 0;
        while i < n
            invariant
                i <= n,
                n == order.len(),
                order == self.tenants.order(),
                r@ == order.take(i as int),
            decreases n - i,
        {
            r.push(*self.tenants.key_at(i));
            i += 1;
            assert(order.take(i as int) =~= order.take(i - 1).push(order[i - 1]));
        }
        assert(order.take(i as int) =~= order);
        assert(self@.tenants.dom() =~= self.tenants@.dom());
        r
    }

    /// The logical ports, in the order in which they were added.
    pub fn logical_port_list(&self) -> (r: Vec<String>)
        ensures
            texts(r@) == self@.ports,
            forall|k: Seq<char>| #[trigger]
                self@.seats.dom().contains(k) <==> texts(r@).contains(k),
            texts(r@).no_duplicates(),
    {
        let n = self.seats.len();
        let ghost order = self.seats.order();
        let mut r: Vec<String> = Vec::new();
        let mut i: usize = 0;
        while i < n
            invariant
                i <= n,
                n == order.len(),
                order == self.seats.order(),
                r@.len() == i,
                forall|j: int| 0 <= j < i ==> (#[trigger] r@[j])@ == order[j],
            decreases n - i,
        {
            r.push(self.seats.key_at(i).clone());
            i += 1;
        }
        assert(texts(r@) =~= order);
        r
    }

    /// Applies a configuration event: a port that is added goes to the end of
    /// its slot's list, one that is removed leaves no trace.
    pub fn handle_port_change_event(&mut self, event: &PortChangeEvent)
        ensures
            final(self)@ == old(self)@.after(event@),
            final(self)@.agrees(),
    {
        proof {
            use_type_invariant(&*self);
            events_keep_agreement(self@, event@);
        }
        let ghost before = self@;
        let mut held = PortMapping::new();
        std::mem::swap(&mut held, self);
        let PortMapping { mut seats, mut tenants } = held;
        match (event.event_type, event.physical_port) {
            (PortChangeEventType::PortAdd, Some(p)) => {
                drop_port(&mut seats, &mut tenants, event.port_name.as_str());
                let ghost m = mapped(&seats, &tenants);
                let mut list = match tenants.get(&p) {
                    Some(v) => clone_texts(v),
                    None => Vec::new(),
                };
                let ghost old_list = list@;
                assert(texts(old_list) =~= m.logical_on(p));
                list.push(event.port_name.clone());
                assert(texts(list@) =~= texts(old_list).push(event.port_name@));
                let ghost new_list = texts(list@);
                tenants.insert(p, list);
                seats.insert(
                    event.port_name.clone(),
                    PortSeat { physical: p, asic: event.asic_id },
                );
                assert(mapped(&seats, &tenants).tenants =~= m.tenants.insert(p, new_list));
            },
            (PortChangeEventType::PortRemove, _) => {
                drop_port(&mut seats, &mut tenants, event.port_name.as_str());
            },
            _ => {},
        }
        assert(mapped(&seats, &tenants) == before.after(event@));
        *self = PortMapping { seats, tenants };
    }

    /// The configuration event that a change of a port's configuration row stands
    /// for: a row that seats the port on another slot than before adds it, and a
    /// row that is gone removes it. `slot` is the slot that the row names.
    pub fn config_change(&self, name: &str, gone: bool, slot: Option<usize>, asic_id: usize) -> (r:
        Option<PortChangeEvent>)
        ensures
            match r {
                Some(e) => {
                    &&& e@.port_name == name@
                    &&& e@.asic_id == asic_id
                    &&& e@.db_name == "CONFIG_DB"@
                    &&& e@.table_name == "PORT"@
                    &&& e@.port_dict == Row::empty()
                    &&& gone ==> {
                        &&& e@.event_type == PortChangeEventType::PortRemove
                        &&& e@.physical_port == self@.physical_of(name@)
                    }
                    &&& !gone ==> {
                        &&& e@.event_type == PortChangeEventType::PortAdd
                        &&& e@.physical_port == slot
                    }
                },
                None => true,
            },
            r is Some == (if gone {
                self@.physical_of(name@) is Some
            } else {
                slot is Some && self@.physical_of(name@) != slot
            }),
            match r {
                Some(e) => self@.after(e@),
                None => self@,
            }.physical_of(name@) == (if gone {
                None
            } else if slot is Some {
                slot
            } else {
                self@.physical_of(name@)
            }),
    {
        let seat = self.physical(name);
        let kind = if gone {
            PortChangeEventType::PortRemove
        } else {
            PortChangeEventType::PortAdd
        };
        let at = if gone {
            seat
        } else {
            slot
        };
        let news = match at {
            Some(p) => gone || seat.is_none() || seat != Some(p),
            None => false,
        };
        if !news {
            return None;
        }
        let e = PortChangeEvent::new(
            name.to_owned(),
            at,
            asic_id,
            kind,
            "CONFIG_DB".to_owned(),
            "PORT".to_owned(),
        );
        assert(e@.port_dict =~= Row::empty());
        Some(e)
    }

    /// The slot that a name stands for: the number that it spells, or else the
    /// slot of the logical port.
    pub fn slot_for_name(&self, name: &str) -> (r: Option<usize>)
        ensures
            r == self@.slot_named(name@),
    {
        match parse_i64(name) {
            Some(n) => if 0 <= n && n <= 0xffff_ffff {
                Some(n as usize)
            } else {
                self.physical(name)
            },
            None => self.physical(name),
        }
    }
}

/// The slot that the row of a port in the configuration names.
pub open spec fn slot_in(row: Row) -> Option<usize> {
    match first_value(row, "index"@) {
        Some(s) => match parsed_u64(s) {
            Some(n) if n <= usize::MAX => Some(n as usize),
            _ => None,
        },
        None => None,
    }
}

/// The slot that the row of a port in the configuration names; `None` where it
/// names none.
pub fn slot_in_row(row: &Fvs) -> (r: Option<usize>)
    ensures
        r == slot_in(row_of(row@)),
{
    match value_in(row, "index") {
        Some(s) => match parse_u64(s.as_str()) {
            Some(n) => if n <= usize::MAX as u64 {
                Some(n as usize)
            } else {
                None
            },
            None => None,
        },
        None => None,
    }
}

impl MappingView {
    /// The slot that a name stands for: the number that it spells, or else the
    /// slot of the logical port.
    pub open spec fn slot_named(self, name: Seq<char>) -> Option<usize> {
        match parsed_i64(name) {
            Some(n) if 0 <= n <= 0xffff_ffff => Some(n as usize),
            _ => self.physical_of(name),
        }
    }
}

/// A port that was added can be found on its slot, last among its ports.
pub proof fn added_port_is_found(m: MappingView, name: Seq<char>, physical: usize, asic: usize)
    ensures
        m.more(name, physical, asic).physical_of(name) == Some(physical),
        m.more(name, physical, asic).asic_of(name) == Some(asic),
        m.more(name, physical, asic).logical_on(physical).last() == name,
{
}

/// A port that was removed is not found any more, and the other ports keep
/// their seats.
pub proof fn removed_port_is_gone(m: MappingView, name: Seq<char>, other: Seq<char>)
    requires
        other != name,
    ensures
        m.less(name).physical_of(name) is None,
        m.less(name).asic_of(name) is None,
        m.less(name).physical_of(other) == m.physical_of(other),
        m.less(name).asic_of(other) == m.asic_of(other),
        !m.less(name).logical_on(
            (match m.physical_of(name) {
                Some(p) => p,
                None => 0,
            }),
        ).contains(name) || m.physical_of(name) is None,
{
    if m.seats.dom().contains(name) {
        without_has_none(m.logical_on(m.seats[name].physical), name);
    }
}

proof fn without_has_none(s: Seq<Seq<char>>, k: Seq<char>)
    ensures
        !without(s, k).contains(k),
    decreases s.len(),
{
    if s.len() > 0 {
        without_has_none(s.drop_last(), k);
        let w = without(s.drop_last(), k);
        if s.last() != k && w.push(s.last()).contains(k) {
            let i = choose|i: int| 0 <= i < w.push(s.last()).len() && w.push(s.last())[i] == k;
            if i < w.len() {
                assert(w[i] == k);
            }
        }
    }
}

proof fn less_agrees(m: MappingView, name: Seq<char>)
    requires
        m.agrees(),
    ensures
        m.less(name).agrees(),
{
    let r = m.less(name);
    if m.seats.dom().contains(name) {
        let p = m.seats[name].physical;
        let left = without(m.logical_on(p), name);
        without_leaves_the_others(m.logical_on(p), name);
        without_leaves_the_others(m.ports, name);
        without_leaves_the_others(m.slots, p);
        assert(m.logical_on(p).contains(name));
        assert(m.tenants.dom().contains(p));
        assert forall|k: usize| k != p implies #[trigger] r.logical_on(k) == m.logical_on(k) by {}
        assert(r.logical_on(p) =~= left);
        assert forall|other: Seq<char>| #[trigger] r.seats.dom().contains(other) implies r.logical_on(
            r.seats[other].physical,
        ).contains(other) by {
            let q = m.seats[other].physical;
            assert(m.logical_on(q).contains(other));
            if q == p {
                assert(left.contains(other));
            }
        }
        assert forall|q: usize, other: Seq<char>| #[trigger] r.logical_on(q).contains(
            other,
        ) implies r.physical_of(other) == Some(q) by {
            assert(m.logical_on(q).contains(other));
            if q != p {
                assert(other != name);
            }
        }
    }
}

proof fn more_agrees(m: MappingView, name: Seq<char>, physical: usize, asic: usize)
    requires
        m.agrees(),
    ensures
        m.more(name, physical, asic).agrees(),
{
    less_agrees(m, name);
    let l = m.less(name);
    let r = m.more(name, physical, asic);
    let was = l.logical_on(physical);
    let now = was.push(name);
    assert(!l.seats.dom().contains(name));
    assert(!was.contains(name));
    assert(now[now.len() - 1] == name);
    pushing_lists(l.ports, name);
    pushing_lists(l.slots, physical);
    pushing_lists(was, name);
    assert forall|k: usize| k != physical implies #[trigger] r.logical_on(k) == l.logical_on(k) by {}
    assert(r.logical_on(physical) == now);
    assert forall|other: Seq<char>| #[trigger] r.seats.dom().contains(other) implies r.logical_on(
        r.seats[other].physical,
    ).contains(other) by {
        if other != name {
            assert(l.seats.dom().contains(other));
            assert(l.logical_on(l.seats[other].physical).contains(other));
        }
    }
    assert forall|q: usize, other: Seq<char>| #[trigger] r.logical_on(q).contains(
        other,
    ) implies r.physical_of(other) == Some(q) by {
        if q != physical || other != name {
            assert(l.logical_on(q).contains(other));
        }
    }
}

proof fn pushing_lists<A>(s: Seq<A>, k: A)
    ensures
        forall|x: A| #[trigger] s.push(k).contains(x) <==> s.contains(x) || x == k,
        s.no_duplicates() && !s.contains(k) ==> s.push(k).no_duplicates(),
{
    let n = s.push(k);
    assert forall|x: A| #[trigger] n.contains(x) <==> s.contains(x) || x == k by {
        if s.contains(x) {
            assert(n[s.index_of(x)] == x);
        }
        assert(n[s.len() as int] == k);
        if n.contains(x) {
            let i = n.index_of(x);
            if i < s.len() {
                assert(s[i] == x);
            }
        }
    }
}

/// A configuration event keeps seats and slots in agreement.
pub proof fn events_keep_agreement(m: MappingView, event: EventView)
    requires
        m.agrees(),
    ensures
        m.after(event).agrees(),
{
    match (event.event_type, event.physical_port) {
        (PortChangeEventType::PortAdd, Some(p)) => {
            more_agrees(m, event.port_name, p, event.asic_id);
        },
        (PortChangeEventType::PortRemove, _) => {
            less_agrees(m, event.port_name);
        },
        _ => {},
    }
}

/// The first port on a slot sits on that slot, and its name stands for that slot
/// where it does not spell a number.
pub proof fn first_port_sits_on_its_slot(m: MappingView, physical: usize, name: Seq<char>)
    requires
        m.agrees(),
        m.first_on(physical) == Some(name),
    ensures
        m.physical_of(name) == Some(physical),
        m.asic_of(name) is Some,
        parsed_i64(name) is None ==> m.slot_named(name) == Some(physical),
{
    assert(m.logical_on(physical)[0] == name);
    assert(m.logical_on(physical).contains(name));
}

} // verus!
