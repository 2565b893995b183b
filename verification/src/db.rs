//! Database tables: rows of field/value texts, addressed by a key.

use vstd::prelude::*;

use crate::json::{row_of, Fvs, Row};
use crate::text::join;

verus! {

/// The rows of a table, by key.
pub type Rows = Map<Seq<char>, Row>;

/// The row at `key`, where there is one.
pub open spec fn row_at(rows: Rows, key: Seq<char>) -> Option<Row> {
    if rows.dom().contains(key) {
        Some(rows[key])
    } else {
        None
    }
}

/// The value of the first field of the row that is named `f`.
pub open spec fn first_value(row: Row, f: Seq<char>) -> Option<Seq<char>>
    decreases row.len(),
{
    if row.len() == 0 {
        None
    } else if row[0].0 == f {
        Some(row[0].1)
    } else {
        first_value(row.skip(1), f)
    }
}

/// The value of the last field of the row that is named `f`.
pub open spec fn last_value(row: Row, f: Seq<char>) -> Option<Seq<char>>
    decreases row.len(),
{
    if row.len() == 0 {
        None
    } else if row.last().0 == f {
        Some(row.last().1)
    } else {
        last_value(row.drop_last(), f)
    }
}

/// The value of field `f` in the row at `key`.
pub open spec fn value_at(rows: Rows, key: Seq<char>, f: Seq<char>) -> Option<Seq<char>> {
    match row_at(rows, key) {
        Some(row) => first_value(row, f),
        None => None,
    }
}

/// The row with field `f` set to `v`: in place where it is there, at the end
/// where it is not.
pub open spec fn row_with(row: Row, f: Seq<char>, v: Seq<char>) -> Row
    decreases row.len(),
{
    if row.len() == 0 {
        seq![(f, v)]
    } else if row[0].0 == f {
        seq![(f, v)] + row.skip(1)
    } else {
        seq![row[0]] + row_with(row.skip(1), f, v)
    }
}

/// The row with the fields named `f` taken out.
pub open spec fn row_without(row: Row, f: Seq<char>) -> Row
    decreases row.len(),
{
    if row.len() == 0 {
        row
    } else if row.last().0 == f {
        row_without(row.drop_last(), f)
    } else {
        row_without(row.drop_last(), f).push(row.last())
    }
}

/// No two fields of the row have the same name.
pub open spec fn distinct_fields(row: Row) -> bool {
    forall|i: int, j: int|
        0 <= i < j < row.len() ==> (#[trigger] row[i]).0 != (#[trigger] row[j]).0
}

/// In a row without repeated names a field is found by its name, from either
/// end.
pub proof fn field_is_found(row: Row, i: int)
    requires
        distinct_fields(row),
        0 <= i < row.len(),
    ensures
        first_value(row, row[i].0) == Some(row[i].1),
        last_value(row, row[i].0) == Some(row[i].1),
    decreases row.len(),
{
    if i > 0 {
        assert(row[0].0 != row[i].0);
        let t = row.skip(1);
        assert(t[i - 1] == row[i]);
        assert(distinct_fields(t)) by {
            assert forall|a: int, b: int| 0 <= a < b < t.len() implies (#[trigger] t[a]).0 != (
            #[trigger] t[b]).0 by {
                assert(row[a + 1].0 != row[b + 1].0);
            }
        }
        field_is_found(t, i - 1);
    }
    if i < row.len() - 1 {
        assert(row[i].0 != row[row.len() - 1].0);
        let d = row.drop_last();
        assert(d[i] == row[i]);
        assert(distinct_fields(d)) by {
            assert forall|a: int, b: int| 0 <= a < b < d.len() implies (#[trigger] d[a]).0 != (
            #[trigger] d[b]).0 by {
                assert(row[a].0 != row[b].0);
            }
        }
        field_is_found(d, i);
    }
}

/// The number of fields in the row at `key`.
pub open spec fn width_at(rows: Rows, key: Seq<char>) -> nat {
    match row_at(rows, key) {
        Some(row) => row.len(),
        None => 0,
    }
}

/// A text that may be missing, as contracts see it.
pub open spec fn text_view(s: Option<String>) -> Option<Seq<char>> {
    match s {
        Some(t) => Some(t@),
        None => None,
    }
}

/// A table of the state, configuration or application database. What the
/// contracts say of its rows holds while nobody else writes them.
///
/// Two kinds of table differ in what `set` does to a row that is there: a
/// database merges the written fields into it, an in-memory table puts the
/// written row in its place. `stored` says which.
pub trait DbTable: Sized {
    /// The rows that the table holds.
    spec fn rows(&self) -> Rows;

    /// The row that is there after `written` is set over `old`.
    spec fn stored(old: Option<Row>, written: Row) -> Row;

    /// Whether the number of fields of a row can be read at present.
    spec fn sizes_readable(&self) -> bool;

    /// What is written is there afterwards, whatever was there before.
    proof fn stored_is_read_back(old: Option<Row>, written: Row)
        ensures
            written.len() > 0 ==> Self::stored(old, written).len() > 0,
            distinct_fields(written) ==> forall|i: int|
                0 <= i < written.len() ==> first_value(
                    Self::stored(old, written),
                    (#[trigger] written[i]).0,
                ) == Some(written[i].1),
            distinct_fields(written) ==> forall|i: int|
                0 <= i < written.len() ==> last_value(
                    Self::stored(old, written),
                    (#[trigger] written[i]).0,
                ) == Some(written[i].1),
    ;

    /// Writes a row.
    fn set(&mut self, key: &str, fvs: &Fvs)
        ensures
            final(self).rows() == old(self).rows().insert(
                key@,
                Self::stored(row_at(old(self).rows(), key@), row_of(fvs@)),
            ),
            final(self).sizes_readable() == old(self).sizes_readable(),
    ;

    /// Sets one field of a row and leaves its other fields alone.
    fn hset(&mut self, key: &str, field: &str, value: &str)
        ensures
            final(self).rows() == old(self).rows().insert(
                key@,
                row_with(
                    match row_at(old(self).rows(), key@) {
                        Some(row) => row,
                        None => Seq::empty(),
                    },
                    field@,
                    value@,
                ),
            ),
            final(self).sizes_readable() == old(self).sizes_readable(),
    ;

    /// The row at `key`, where there is one.
    fn get(&self, key: &str) -> (r: Option<Fvs>)
        ensures
            match r {
                Some(fvs) => row_at(self.rows(), key@) == Some(row_of(fvs@)),
                None => row_at(self.rows(), key@) is None,
            },
    ;

    /// The value of one field of the row at `key`.
    fn hget(&self, key: &str, field: &str) -> (r: Option<String>)
        ensures
            text_view(r) == value_at(self.rows(), key@, field@),
    ;

    /// Deletes the row at `key`.
    fn del(&mut self, key: &str)
        ensures
            final(self).rows() == old(self).rows().remove(key@),
            final(self).sizes_readable() == old(self).sizes_readable(),
    ;

    /// Deletes one field of the row at `key`, and the row when nothing is left
    /// of it.
    fn hdel(&mut self, key: &str, field: &str)
        ensures
            final(self).rows() == (match row_at(old(self).rows(), key@) {
                Some(row) => {
                    let left = row_without(row, field@);
                    if left.len() == 0 {
                        old(self).rows().remove(key@)
                    } else {
                        old(self).rows().insert(key@, left)
                    }
                },
                None => old(self).rows(),
            }),
            final(self).sizes_readable() == old(self).sizes_readable(),
    ;

    /// The keys of the rows.
    fn get_keys(&self) -> (r: Vec<String>)
        ensures
            forall|k: Seq<char>| #[trigger]
                self.rows().dom().contains(k) <==> exists|i: int|
                    0 <= i < r@.len() && (#[trigger] r@[i])@ == k,
            forall|i: int, j: int|
                0 <= i < j < r@.len() ==> (#[trigger] r@[i])@ != (#[trigger] r@[j])@,
    ;

    /// The number of rows.
    fn get_size(&self) -> (n: usize)
        ensures
            self.rows().dom().finite(),
            n == self.rows().dom().len(),
    ;

    /// The number of fields in the row at `key`; 0 where there is no row or
    /// where it cannot be read.
    fn get_size_for_key(&self, key: &str) -> (n: usize)
        ensures
            n == (if self.sizes_readable() {
                width_at(self.rows(), key@)
            } else {
                0
            }),
    ;

    /// The number of fields in the row at `key`, or `None` where it cannot be
    /// read, so that a failed read is not taken for a missing row.
    fn get_size_for_key_checked(&self, key: &str) -> (n: Option<usize>)
        ensures
            match n {
                Some(n) => self.sizes_readable() && n == width_at(self.rows(), key@),
                None => !self.sizes_readable(),
            },
    ;
}

/// The key of a row in the database: the table, a separator and the key of the
/// row in its table.
pub fn redis_key(table: &str, sep: &str, key: &str) -> (r: String)
    ensures
        r@ == table@ + sep@ + key@,
{
    join(join(table, sep).as_str(), key)
}

/// With a separator that stands in none of the tables' names, rows of different
/// tables, and different rows of one table, have different keys.
pub proof fn redis_keys_differ(
    t1: Seq<char>,
    k1: Seq<char>,
    t2: Seq<char>,
    k2: Seq<char>,
    sep: char,
)
    requires
        !t1.contains(sep),
        !t2.contains(sep),
        t1 + seq![sep] + k1 == t2 + seq![sep] + k2,
    ensures
        t1 == t2,
        k1 == k2,
{
    let a = t1 + seq![sep] + k1;
    let b = t2 + seq![sep] + k2;
    if t1.len() < t2.len() {
        assert(a[t1.len() as int] == sep);
        assert(b[t1.len() as int] == t2[t1.len() as int]);
        assert(false);
    }
    if t2.len() < t1.len() {
        assert(b[t2.len() as int] == sep);
        assert(a[t2.len() as int] == t1[t2.len() as int]);
        assert(false);
    }
    assert forall|i: int| 0 <= i < t1.len() implies t1[i] == t2[i] by {
        assert(a[i] == b[i]);
    }
    assert(t1 =~= t2);
    assert(k1 =~= a.skip((t1.len() + 1) as int));
    assert(k2 =~= b.skip((t2.len() + 1) as int));
}

} // verus!
