//! What the platform plugin reports of plugged and pulled modules.

use vstd::prelude::*;

use crate::db::last_value;
use crate::json::{row_of, vals, Fields, Fvs, Row, Val, Vals, Value};
use crate::text::{
    before, before_is_strict, before_is_total, before_is_transitive, comes_before, owned, str_eq,
};

verus! {

/// One poll for changes: by slot, whether a module came or went, and the error
/// of a module.
pub struct ChangeEvent {
    pub status: bool,
    pub sfp: Fvs,
    pub sfp_error: Fvs,
}

/// [`ChangeEvent`] as contracts see it.
pub struct ChangeView {
    pub status: bool,
    pub sfp: Row,
    pub sfp_error: Row,
}

impl View for ChangeEvent {
    type V = ChangeView;

    open spec fn view(&self) -> ChangeView {
        ChangeView {
            status: self.status,
            sfp: row_of(self.sfp@),
            sfp_error: row_of(self.sfp_error@),
        }
    }
}

/// The text of a JSON value: of a string the string itself.
pub open spec fn plain_text(v: Val) -> Seq<char> {
    match v {
        Val::Null => "null"@,
        Val::Bool(b) => if b {
            "true"@
        } else {
            "false"@
        },
        Val::Number { text, zero, unsigned } => text,
        Val::Str(s) => s,
        Val::Nested { text, empty } => text,
    }
}

/// The fields of an object as texts, in order; no object has no fields.
pub open spec fn texts_of(f: Option<Vals>) -> Row {
    match f {
        Some(f) => f.map_values(|p: (Seq<char>, Val)| (p.0, plain_text(p.1))),
        None => Seq::empty(),
    }
}

/// Whether the names of a row ascend in the order of texts, so that none occurs
/// twice.
pub open spec fn ascending(row: Row) -> bool {
    forall|i: int, j: int| 0 <= i < j < row.len() ==> before(#[trigger] row[i].0, #[trigger] row[j].0)
}

/// A row whose names ascend holds each of its fields.
proof fn ascending_holds(row: Row, i: int)
    requires
        ascending(row),
        0 <= i < row.len(),
    ensures
        last_value(row, row[i].0) == Some(row[i].1),
    decreases row.len(),
{
    if i < row.len() - 1 {
        before_is_strict(row[i].0);
        assert(before(row[i].0, row.last().0));
        assert(ascending(row.drop_last()));
        ascending_holds(row.drop_last(), i);
    }
}

/// A row does not hold a field whose name does not occur in it.
proof fn foreign_name_is_absent(row: Row, n: Seq<char>)
    requires
        forall|i: int| 0 <= i < row.len() ==> (#[trigger] row[i]).0 != n,
    ensures
        last_value(row, n) is None,
    decreases row.len(),
{
    if row.len() > 0 {
        assert(row.last() == row[row.len() - 1]);
        assert forall|i: int| 0 <= i < row.drop_last().len() implies (#[trigger] row.drop_last()[i]).0
            != n by {
            assert(row.drop_last()[i] == row[i]);
        }
        foreign_name_is_absent(row.drop_last(), n);
    }
}

/// Setting field `k` at place `p` of a row whose names ascend sets that field and
/// leaves the others.
proof fn placing_sets_one(old_row: Row, new_row: Row, p: int, k: Seq<char>, v: Seq<char>, n: Seq<char>)
    requires
        ascending(old_row),
        0 <= p <= old_row.len(),
        forall|i: int| 0 <= i < p ==> before((#[trigger] old_row[i]).0, k),
        p < old_row.len() && old_row[p].0 != k ==> before(k, old_row[p].0),
        new_row == (if p < old_row.len() && old_row[p].0 == k {
            old_row.update(p, (k, v))
        } else {
            old_row.insert(p, (k, v))
        }),
    ensures
        ascending(new_row),
        last_value(new_row, n) == (if n == k {
            Some(v)
        } else {
            last_value(old_row, n)
        }),
{
    let same = p < old_row.len() && old_row[p].0 == k;
    assert forall|j: int| p < j < old_row.len() implies before(k, (#[trigger] old_row[j]).0) by {
        if !same {
            before_is_transitive(k, old_row[p].0, old_row[j].0);
        }
    }
    assert forall|i: int, j: int| 0 <= i < j < new_row.len() implies before(
        #[trigger] new_row[i].0,
        #[trigger] new_row[j].0,
    ) by {
        let oi = if same || i <= p {
            i
        } else {
            i - 1
        };
        let oj = if same || j <= p {
            j
        } else {
            j - 1
        };
        if i != p {
            assert(new_row[i] == old_row[oi]);
        }
        if j != p {
            assert(new_row[j] == old_row[oj]);
        }
    }
    assert(new_row[p] == (k, v));
    ascending_holds(new_row, p);
    if n != k {
        if exists|i: int| 0 <= i < old_row.len() && (#[trigger] old_row[i]).0 == n {
            let i = choose|i: int| 0 <= i < old_row.len() && (#[trigger] old_row[i]).0 == n;
            let at = if same || i < p {
                i
            } else {
                i + 1
            };
            assert(new_row[at] == old_row[i]);
            ascending_holds(old_row, i);
            ascending_holds(new_row, at);
        } else {
            assert forall|i: int| 0 <= i < new_row.len() implies (#[trigger] new_row[i]).0 != n by {
                if i != p {
                    let o = if same || i < p {
                        i
                    } else {
                        i - 1
                    };
                    assert(new_row[i] == old_row[o]);
                }
            }
            foreign_name_is_absent(old_row, n);
            foreign_name_is_absent(new_row, n);
        }
    }
}

/// Sets field `k` of a row whose names ascend.
fn place(r: &mut Fvs, k: String, v: String)
    requires
        ascending(row_of(old(r)@)),
    ensures
        ascending(row_of(final(r)@)),
        forall|n: Seq<char>|
            #![trigger last_value(row_of(final(r)@), n)]
            last_value(row_of(final(r)@), n) == (if n == k@ {
                Some(v@)
            } else {
                last_value(row_of(old(r)@), n)
            }),
{
    let ghost row = row_of(r@);
    let ghost kn = k@;
    let ghost vn = v@;
    let mut p: usize = 0;
    while p < r.len() && comes_before(r[p].0.as_str(), k.as_str())
        invariant
            p <= r@.len(),
            row == row_of(r@),
            row == row_of(old(r)@),
            kn == k@,
            forall|i: int| 0 <= i < p ==> before((#[trigger] row[i]).0, kn),
        decreases r.len() - p,
    {
        p += 1;
    }
    proof {
        if p < row.len() && row[p as int].0 != kn {
            before_is_total(kn, row[p as int].0);
        }
    }
    if p < r.len() && str_eq(r[p].0.as_str(), k.as_str()) {
        r.set(p, (k, v));
        assert(row_of(r@) =~= row.update(p as int, (kn, vn)));
    } else {
        r.insert(p, (k, v));
        assert(row_of(r@) =~= row.insert(p as int, (kn, vn)));
    }
    proof {
        let now = row_of(r@);
        placing_sets_one(row, now, p as int, kn, vn, kn);
        assert forall|n: Seq<char>|
            #![trigger last_value(now, n)]
            last_value(now, n) == (if n == kn {
                Some(vn)
            } else {
                last_value(row, n)
            }) by {
            placing_sets_one(row, now, p as int, kn, vn, n);
        }
    }
}

fn value_text(v: &Value) -> (r: String)
    ensures
        r@ == plain_text(v@),
{
    match v {
        Value::Null => owned("null"),
        Value::Bool(b) => if *b {
            owned("true")
        } else {
            owned("false")
        },
        Value::Number(n) => n.text.clone(),
        Value::Str(s) => s.clone(),
        Value::Nested(n) => n.text.clone(),
    }
}

/// The fields of an object as texts, by ascending name. Of a name that occurs
/// more than once the last value counts.
pub fn json_str_map(f: &Option<Fields>) -> (r: Fvs)
    ensures
        ascending(row_of(r@)),
        forall|n: Seq<char>|
            #![trigger last_value(row_of(r@), n)]
            last_value(row_of(r@), n) == last_value(
                texts_of(
                    match *f {
                        Some(f) => Some(vals(f@)),
                        None => None,
                    },
                ),
                n,
            ),
{
    let mut r: Fvs = Vec::new();
    match f {
        Some(f) => {
            let ghost want = texts_of(Some(vals(f@)));
            let mut i: usize = 0;
            assert(row_of(r@) =~= want.take(0));
            while i < f.len()
                invariant
                    i <= f@.len(),
                    want == texts_of(Some(vals(f@))),
                    ascending(row_of(r@)),
                    forall|n: Seq<char>|
                        #![trigger last_value(row_of(r@), n)]
                        last_value(row_of(r@), n) == last_value(want.take(i as int), n),
                decreases f.len() - i,
            {
                let ghost before_row = row_of(r@);
                place(&mut r, f[i].0.clone(), value_text(&f[i].1));
                i += 1;
                proof {
                    assert(want.take(i as int).drop_last() =~= want.take(i - 1));
                    assert forall|n: Seq<char>|
                        #![trigger last_value(row_of(r@), n)]
                        last_value(row_of(r@), n) == last_value(want.take(i as int), n) by {
                        assert(last_value(before_row, n) == last_value(want.take(i - 1), n));
                    }
                }
            }
            assert(want.take(i as int) =~= want);
        },
        None => {
            assert(row_of(r@) =~= Seq::empty());
        },
    }
    r
}

} // verus!
