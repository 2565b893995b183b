//! A stand-in for a table, in memory.

use vstd::prelude::*;

use crate::assoc::{without, OrderedMap};
use crate::db::{
    distinct_fields, field_is_found, first_value, last_value, row_at, row_with, row_without, text_view,
    DbTable, Rows,
};
use crate::json::{row_of, Fvs, Row};
use crate::text::{owned, str_eq};

verus! {

/// A table in memory. `set` puts the written row in the place of the old one.
pub struct MockDbTable {
    table_name: String,
    held: OrderedMap<String, Fvs>,
    fail_size_reads: bool,
}

/// A copy of a row.
pub fn clone_fvs(f: &Fvs) -> (r: Fvs)
    ensures
        r@ == f@,
{
    let mut r: Fvs = Vec::new();
    let mut i: usize = 0;
    while i < f.len()
        invariant
            i <= f@.len(),
            r@ == f@.take(i as int),
        decreases f.len() - i,
    {
        let p = (f[i].0.clone(), f[i].1.clone());
        r.push(p);
        i += 1;
        assert(f@.take(i as int) =~= f@.take(i - 1).push(f@[i - 1]));
    }
    assert(f@.take(i as int) =~= f@);
    r
}

/// Finds the value of the first field named `field`.
fn row_get(f: &Fvs, field: &str) -> (r: Option<String>)
    ensures
        text_view(r) == first_value(row_of(f@), field@),
{
    let mut i: usize = 0;
    let ghost row = row_of(f@);
    assert(row.skip(0) =~= row);
    while i < f.len()
        invariant
            i <= f@.len(),
            row == row_of(f@),
            first_value(row, field@) == first_value(row.skip(i as int), field@),
        decreases f.len() - i,
    {
        assert(row.skip(i as int)[0] == row[i as int]);
        assert(row.skip(i as int).skip(1) =~= row.skip(i + 1));
        if str_eq(f[i].0.as_str(), field) {
            return Some(f[i].1.clone());
        }
        i += 1;
    }
    None
}

proof fn row_with_at(row: Row, f: Seq<char>, v: Seq<char>, i: int)
    requires
        0 <= i <= row.len(),
        i < row.len() ==> row[i].0 == f,
        forall|j: int| 0 <= j < i ==> (#[trigger] row[j]).0 != f,
    ensures
        row_with(row, f, v) == (if i < row.len() {
            row.update(i, (f, v))
        } else {
            row.push((f, v))
        }),
    decreases row.len(),
{
    if row.len() == 0 {
        assert(seq![(f, v)] =~= row.push((f, v)));
    } else if i == 0 {
        assert(seq![(f, v)] + row.skip(1) =~= row.update(0, (f, v)));
    } else {
        let t = row.skip(1);
        assert forall|j: int| 0 <= j < i - 1 implies (#[trigger] t[j]).0 != f by {
            assert(row[j + 1].0 != f);
        }
        row_with_at(t, f, v, i - 1);
        assert(seq![row[0]] + row_with(t, f, v) =~= (if i < row.len() {
            row.update(i, (f, v))
        } else {
            row.push((f, v))
        }));
    }
}

fn row_put(f: &mut Fvs, field: &str, value: &str)
    ensures
        row_of(final(f)@) == row_with(row_of(old(f)@), field@, value@),
{
    let ghost row = row_of(f@);
    let mut i: usize = 0;
    while i < f.len()
        invariant
            i <= f@.len(),
            f@ == old(f)@,
            row == row_of(f@),
            forall|j: int| 0 <= j < i ==> (#[trigger] row[j]).0 != field@,
        decreases f.len() - i,
    {
        if str_eq(f[i].0.as_str(), field) {
            proof {
                row_with_at(row, field@, value@, i as int);
            }
            f.set(i, (owned(field), owned(value)));
            assert(row_of(f@) =~= row.update(i as int, (field@, value@)));
            return;
        }
        i += 1;
    }
    proof {
        row_with_at(row, field@, value@, i as int);
    }
    f.push((owned(field), owned(value)));
    assert(row_of(f@) =~= row.push((field@, value@)));
}

fn row_drop(f: &Fvs, field: &str) -> (r: Fvs)
    ensures
        row_of(r@) == row_without(row_of(f@), field@),
{
    let mut r: Fvs = Vec::new();
    let mut i: usize = 0;
    let ghost row = row_of(f@);
    assert(row_of(r@) =~= row_without(row.take(0), field@));
    while i < f.len()
        invariant
            i <= f@.len(),
            row == row_of(f@),
            row_of(r@) == row_without(row.take(i as int), field@),
        decreases f.len() - i,
    {
        assert(row.take(i + 1).drop_last() =~= row.take(i as int));
        assert(row.take(i + 1).last() == row[i as int]);
        if !str_eq(f[i].0.as_str(), field) {
            let ghost before = r@;
            let p = (f[i].0.clone(), f[i].1.clone());
            r.push(p);
            assert(row_of(r@) =~= row_of(before).push(row[i as int]));
        }
        i += 1;
    }
    assert(row.take(i as int) =~= row);
    r
}

impl MockDbTable {
    /// The name of the table.
    pub closed spec fn named(&self) -> Seq<char> {
        self.table_name@
    }

    /// The keys, in the order in which their rows were first written.
    pub closed spec fn key_order(&self) -> Seq<Seq<char>> {
        self.held.order()
    }

    /// An empty table.
    pub fn new(table_name: &str) -> (t: Self)
        ensures
            t.rows() == Map::<Seq<char>, Row>::empty(),
            t.sizes_readable(),
            t.named() == table_name@,
            t.key_order() == Seq::<Seq<char>>::empty(),
    {
        let t = MockDbTable {
            table_name: owned(table_name),
            held: OrderedMap::new(),
            fail_size_reads: false,
        };
        assert(t.rows() =~= Map::<Seq<char>, Row>::empty());
        t
    }

    /// The name of the table.
    pub fn table_name(&self) -> (r: &str)
        ensures
            r@ == self.named(),
    {
        self.table_name.as_str()
    }

    /// Makes reads of a row's number of fields fail, or work again.
    pub fn set_fail_size_reads(&mut self, fail: bool)
        ensures
            final(self).sizes_readable() == !fail,
            final(self).rows() == old(self).rows(),
            final(self).named() == old(self).named(),
            final(self).key_order() == old(self).key_order(),
    {
        self.fail_size_reads = fail;
    }
}

impl DbTable for MockDbTable {
    closed spec fn rows(&self) -> Rows {
        self.held@.map_values(|f: Fvs| row_of(f@))
    }

    open spec fn stored(old: Option<Row>, written: Row) -> Row {
        written
    }

    closed spec fn sizes_readable(&self) -> bool {
        !self.fail_size_reads
    }

    proof fn stored_is_read_back(old: Option<Row>, written: Row) {
        if distinct_fields(written) {
            assert forall|i: int| 0 <= i < written.len() implies {
                &&& first_value(Self::stored(old, written), (#[trigger] written[i]).0) == Some(
                    written[i].1,
                )
                &&& last_value(Self::stored(old, written), written[i].0) == Some(written[i].1)
            } by {
                field_is_found(written, i);
            }
        }
    }

    fn set(&mut self, key: &str, fvs: &Fvs)
        ensures
            final(self).key_order() == (if old(self).rows().dom().contains(key@) {
                old(self).key_order()
            } else {
                old(self).key_order().push(key@)
            }),
            final(self).named() == old(self).named(),
    {
        self.held.insert(owned(key), clone_fvs(fvs));
        assert(self.rows() =~= old(self).rows().insert(key@, row_of(fvs@)));
    }

    fn hset(&mut self, key: &str, field: &str, value: &str)
        ensures
            final(self).key_order() == (if old(self).rows().dom().contains(key@) {
                old(self).key_order()
            } else {
                old(self).key_order().push(key@)
            }),
            final(self).named() == old(self).named(),
    {
        let k = owned(key);
        let mut row: Fvs = match self.held.get(&k) {
            Some(f) => clone_fvs(f),
            None => Vec::new(),
        };
        assert(row_of(row@) =~= match row_at(old(self).rows(), key@) {
            Some(row) => row,
            None => Seq::empty(),
        });
        row_put(&mut row, field, value);
        let ghost written = row_of(row@);
        self.held.insert(k, row);
        assert(self.rows() =~= old(self).rows().insert(key@, written));
    }

    fn get(&self, key: &str) -> (r: Option<Fvs>) {
        match self.held.get(&owned(key)) {
            Some(f) => Some(clone_fvs(f)),
            None => None,
        }
    }

    fn hget(&self, key: &str, field: &str) -> (r: Option<String>) {
        match self.held.get(&owned(key)) {
            Some(f) => row_get(f, field),
            None => None,
        }
    }

    fn del(&mut self, key: &str)
        ensures
            final(self).key_order() == without(old(self).key_order(), key@),
            final(self).named() == old(self).named(),
    {
        let _gone = self.held.remove(&owned(key));
        assert(self.rows() =~= old(self).rows().remove(key@));
    }

    fn hdel(&mut self, key: &str, field: &str)
        ensures
            final(self).key_order() == (if final(self).rows().dom().contains(key@) || !old(
                self,
            ).rows().dom().contains(key@) {
                old(self).key_order()
            } else {
                without(old(self).key_order(), key@)
            }),
            final(self).named() == old(self).named(),
    {
        let k = owned(key);
        let left: Fvs = match self.held.get(&k) {
            Some(f) => row_drop(f, field),
            None => {
                return;
            },
        };
        if left.len() == 0 {
            let _gone = self.held.remove(&k);
            assert(self.rows() =~= old(self).rows().remove(key@));
        } else {
            let ghost row = row_of(left@);
            self.held.insert(k, left);
            assert(self.rows() =~= old(self).rows().insert(key@, row));
        }
    }

    fn get_keys(&self) -> (r: Vec<String>)
        ensures
            r@.map_values(|s: String| s@) == self.key_order(),
            self.key_order().no_duplicates(),
            r@.len() == self.rows().dom().len(),
    {
        let mut r: Vec<String> = Vec::new();
        let n = self.held.len();
        let ghost order = self.held.order();
        assert(self.rows().dom() =~= self.held@.dom());
        let mut i: usize = 0;
        while i < n
            invariant
                i <= n,
                n == order.len(),
                order == self.held.order(),
                order.no_duplicates(),
                r@.len() == i,
                forall|j: int| 0 <= j < i ==> (#[trigger] r@[j])@ == order[j],
            decreases n - i,
        {
            r.push(self.held.key_at(i).clone());
            i += 1;
        }
        assert(r@.map_values(|s: String| s@) =~= order);
        assert forall|k: Seq<char>| #[trigger]
            self.rows().dom().contains(k) <==> exists|i: int|
                0 <= i < r@.len() && (#[trigger] r@[i])@ == k by {
            assert(self.held@.dom().contains(k) <==> order.contains(k));
            if order.contains(k) {
                let i = choose|i: int| 0 <= i < order.len() && order[i] == k;
                assert(r@[i]@ == k);
            }
            if exists|i: int| 0 <= i < r@.len() && (#[trigger] r@[i])@ == k {
                let i = choose|i: int| 0 <= i < r@.len() && (#[trigger] r@[i])@ == k;
                assert(order[i] == k);
            }
        }
        r
    }

    fn get_size(&self) -> (n: usize) {
        let n = self.held.len();
        assert(self.rows().dom() =~= self.held@.dom());
        n
    }

    fn get_size_for_key(&self, key: &str) -> (n: usize) {
        match self.get_size_for_key_checked(key) {
            Some(n) => n,
            None => 0,
        }
    }

    fn get_size_for_key_checked(&self, key: &str) -> (n: Option<usize>) {
        if self.fail_size_reads {
            return None;
        }
        match self.held.get(&owned(key)) {
            Some(f) => Some(f.len()),
            None => Some(0),
        }
    }
}

} // verus!
