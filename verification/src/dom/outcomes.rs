//! What the monitoring is for: what a module reports is afterwards in the rows of
//! its port, and the records of its flags tell how they moved.

use vstd::prelude::*;

use crate::clock::stamp;
use crate::db::{
    distinct_fields, first_value, row_at, value_at, DbTable, Rows,
};
use crate::dom::db_utils::{
    dom_text, getter, put, reading, shown, shown_row, stamped, tracked_flags, uniform_row,
    validated, Beautify, FlagRows, Reader,
};
use crate::dom::dom_mgr::{
    dom_polling, in_cmis_init, merged_values, object_fields, polled_port, posted_firmware,
    posted_pm, posted_vdm_diagnostics, put_all, reread, statistics_taken, temperature_polled,
    LinkChangeReread,
};
use crate::dom::dom_sensor::{posted_flag_family, posted_monitor};
use crate::dom::laws::{
    every_moved_flag_is_recorded, first_is_last, masking_leaves_other_fields, merges,
    other_flags_keep_their_records, records_there, stale_configuration_is_masked,
    tracking_leaves_the_values,
};
use crate::dom::status::{config_key, lane_masked, masked_from};
use crate::dom::vdm::{
    acted, confirmed, families_of, family_into, family_mark, family_of, family_row, froze,
    further_looks, noted_families, posted_families, posted_real_values, posted_vdm, since,
    vdm_getter, VdmRows, VdmUtils,
};
use crate::hal::{Answers, Ask, Trace};
use crate::json::{
    distinct_names, field, field_at_first, filled_fields, merged_value, py_str, reply_true,
    set_field_value, truthy, unit_stripped, with_field, with_fields, ReplyView, Row, Val, Vals,
};
use crate::port::{first_port_sits_on_its_slot, MappingView};
use crate::tables::{is_blocked, AsicRows};
use crate::text::{
    decimal, occurs, occurs_at, parsed_i64, replaced, signed_decimal, signed_decimal_parses_back,
    trimmed,
};

verus! {

// ---- the records of flags ----

/// Whether the records of a port can be told by name: a table keeps the fields
/// that a write does not name, and no row of the port repeats a name.
pub open spec fn records_ready<T: DbTable>(t: FlagRows, key: Seq<char>) -> bool {
    &&& merges::<T>()
    &&& row_at(t.value, key) matches Some(row) ==> distinct_fields(row) && records_there(t, key)
}

/// Whether the records of flag `name` of a port tell that it read `v` at `time`
/// after it had been published as `was` with a count of `n` changes. A text that
/// differs and is not N/A is one more change, and the time of it is that of the
/// last setting where the flag is true now and of the last clearing where it is
/// not. Anything else leaves the records alone.
pub open spec fn record_follows(
    before: FlagRows,
    after: FlagRows,
    key: Seq<char>,
    name: Seq<char>,
    v: Val,
    was: Seq<char>,
    n: int,
    time: Seq<char>,
) -> bool {
    if was != py_str(v) && trimmed(py_str(v)) != "N/A"@ {
        &&& value_at(after.change_count, key, name) == Some(signed_decimal(n + 1))
        &&& truthy(v) ==> value_at(after.set_time, key, name) == Some(time)
        &&& truthy(v) ==> value_at(after.clear_time, key, name) == value_at(
            before.clear_time,
            key,
            name,
        )
        &&& !truthy(v) ==> value_at(after.clear_time, key, name) == Some(time)
        &&& !truthy(v) ==> value_at(after.set_time, key, name) == value_at(
            before.set_time,
            key,
            name,
        )
    } else {
        &&& value_at(after.change_count, key, name) == Some(signed_decimal(n))
        &&& value_at(after.set_time, key, name) == value_at(before.set_time, key, name)
        &&& value_at(after.clear_time, key, name) == value_at(before.clear_time, key, name)
    }
}

/// Whether the records of flag `name` of a port follow a reading of it as `v` at
/// `time`. A flag of a port that was never published starts with no changes,
/// never set and never cleared.
pub open spec fn flag_follows(
    before: FlagRows,
    after: FlagRows,
    key: Seq<char>,
    name: Seq<char>,
    v: Val,
    time: Seq<char>,
) -> bool {
    &&& row_at(before.value, key) is None ==> {
        &&& value_at(after.change_count, key, name) == Some("0"@)
        &&& value_at(after.set_time, key, name) == Some("never"@)
        &&& value_at(after.clear_time, key, name) == Some("never"@)
    }
    &&& forall|n: int|
        i64::MIN <= n < i64::MAX && value_at(before.value, key, name) is Some && value_at(
            before.change_count,
            key,
            name,
        ) == Some(#[trigger] signed_decimal(n)) ==> record_follows(
            before,
            after,
            key,
            name,
            v,
            value_at(before.value, key, name)->0,
            n,
            time,
        )
}

proof fn uniform_row_is_read_back<T: DbTable>(
    rows: Rows,
    key: Seq<char>,
    f: Vals,
    text: Seq<char>,
    j: int,
)
    requires
        distinct_names(f),
        0 <= j < f.len(),
    ensures
        value_at(put::<T>(rows, key, uniform_row(f, text)), key, f[j].0) == Some(text),
{
    let row = uniform_row(f, text);
    assert forall|a: int, b: int| 0 <= a < b < row.len() implies (#[trigger] row[a]).0 != (
    #[trigger] row[b]).0 by {
        assert(f[a].0 != f[b].0);
    }
    T::stored_is_read_back(row_at(rows, key), row);
    assert(row[j].0 == f[j].0);
}

/// The records follow every reading of the flags: each flag whose text differs
/// from the one published is counted once more, and no other.
pub proof fn tracking_follows_the_flags<T: DbTable>(
    t: FlagRows,
    key: Seq<char>,
    f: Vals,
    time: Seq<char>,
    name: Seq<char>,
)
    requires
        distinct_names(f),
        records_ready::<T>(t, key),
        field(f, name) is Some,
    ensures
        flag_follows(t, tracked_flags::<T>(t, key, f, time), key, name, field(f, name)->0, time),
        tracked_flags::<T>(t, key, f, time).value == t.value,
{
    let r = tracked_flags::<T>(t, key, f, time);
    field_at_first(f, name);
    let j = crate::json::field_at(f, name);
    if row_at(t.value, key) is None {
        uniform_row_is_read_back::<T>(t.change_count, key, f, "0"@, j);
        uniform_row_is_read_back::<T>(t.set_time, key, f, "never"@, j);
        uniform_row_is_read_back::<T>(t.clear_time, key, f, "never"@, j);
    } else {
        let published = row_at(t.value, key)->0;
        tracking_leaves_the_values::<T>(t, published, key, f, time);
        first_is_last(published, name);
        first_is_last(row_at(t.change_count, key)->0, name);
        assert forall|n: int|
            i64::MIN <= n < i64::MAX && value_at(t.value, key, name) is Some && value_at(
                t.change_count,
                key,
                name,
            ) == Some(#[trigger] signed_decimal(n)) implies record_follows(
            t,
            r,
            key,
            name,
            f[j].1,
            value_at(t.value, key, name)->0,
            n,
            time,
        ) by {
            let was = value_at(t.value, key, name)->0;
            signed_decimal_parses_back(n as i64);
            if was != py_str(f[j].1) && trimmed(py_str(f[j].1)) != "N/A"@ {
                every_moved_flag_is_recorded::<T>(t, key, f, time, j);
            } else {
                assert forall|k: int| 0 <= k < f.len() && (#[trigger] f[k]).0 == name implies k
                    == j by {
                    if k < j {
                        assert(f[k].0 != f[j].0);
                    }
                    if j < k {
                        assert(f[j].0 != f[k].0);
                    }
                }
                other_flags_keep_their_records::<T>(t, key, f, time, name);
            }
        }
    }
}

// ---- rows ----

/// What a name is found with in the row that a reading is published as.
proof fn shown_row_value(b: Beautify, f: Vals, x: Seq<char>)
    ensures
        first_value(shown_row(b, f), x) == (match field(f, x) {
            Some(v) => Some(shown(b, x, v)),
            None => None,
        }),
    decreases f.len(),
{
    let row = shown_row(b, f);
    field_at_first(f, x);
    if f.len() > 0 {
        assert(row[0] == (f[0].0, shown(b, f[0].0, f[0].1)));
        assert(row.skip(1) =~= shown_row(b, f.skip(1)));
        shown_row_value(b, f.skip(1), x);
        field_at_first(f.skip(1), x);
        if f[0].0 != x && field(f.skip(1), x) is Some {
            let n = crate::json::field_at(f.skip(1), x);
            assert(f.skip(1)[n] == f[n + 1]);
        }
    }
}

/// Adding a field to the end of a row that does not have it.
proof fn pushed_value(row: Row, k: Seq<char>, t: Seq<char>, x: Seq<char>)
    ensures
        first_value(row.push((k, t)), x) == (match first_value(row, x) {
            Some(v) => Some(v),
            None => if x == k {
                Some(t)
            } else {
                None
            },
        }),
    decreases row.len(),
{
    let n = row.push((k, t));
    if row.len() > 0 {
        assert(n[0] == row[0]);
        assert(n.skip(1) =~= row.skip(1).push((k, t)));
        pushed_value(row.skip(1), k, t, x);
    } else {
        assert(n[0] == (k, t));
        assert(n.skip(1) =~= Seq::empty());
        assert(first_value(n.skip(1), x) is None);
    }
}

/// Whether a reading can be told by name in a row: no name is repeated, and none
/// is that of the time of publication.
pub open spec fn tellable(f: Vals) -> bool {
    distinct_names(f) && field(f, "last_update_time"@) is None
}

/// A stamped row is read back name by name, and nothing else is put in the row.
proof fn stamped_row_is_read_back<T: DbTable>(
    rows: Rows,
    key: Seq<char>,
    b: Beautify,
    f: Vals,
    secs: u64,
    x: Seq<char>,
)
    requires
        tellable(f),
    ensures
        ({
            let after = put::<T>(rows, key, stamped(shown_row(b, f), secs));
            &&& field(f, x) matches Some(v) ==> value_at(after, key, x) == Some(shown(b, x, v))
            &&& value_at(after, key, "last_update_time"@) == Some(stamp(secs))
            &&& field(f, x) is None && x != "last_update_time"@ && merges::<T>() && (row_at(
                rows,
                key,
            ) matches Some(row) && distinct_fields(row)) ==> value_at(after, key, x) == value_at(
                rows,
                key,
                x,
            )
        }),
{
    let row = shown_row(b, f);
    let all = stamped(row, secs);
    field_at_first(f, "last_update_time"@);
    assert(distinct_fields(all)) by {
        assert forall|i: int, j: int| 0 <= i < j < all.len() implies (#[trigger] all[i]).0 != (
        #[trigger] all[j]).0 by {
            assert(all[i].0 == f[i].0);
            if j < f.len() {
                assert(all[j].0 == f[j].0);
            }
        }
    }
    T::stored_is_read_back(row_at(rows, key), all);
    assert(all[f.len() as int].0 == "last_update_time"@);
    field_at_first(f, x);
    if field(f, x) is Some {
        let n = crate::json::field_at(f, x);
        assert(all[n] == (f[n].0, shown(b, f[n].0, f[n].1)));
    }
    shown_row_value(b, f, x);
    pushed_value(row, "last_update_time"@, stamp(secs), x);
}

// ---- the families of observables ----

/// What a name ends in whose value belongs in table `i` of the four: high alarm,
/// low alarm, high warning, low warning.
pub open spec fn ending(i: int) -> Seq<char> {
    if i == 0 {
        "_halarm"@
    } else if i == 1 {
        "_lalarm"@
    } else if i == 2 {
        "_hwarn"@
    } else {
        "_lwarn"@
    }
}

/// Whether none of the four endings stands anywhere in a name.
pub open spec fn bare(x: Seq<char>) -> bool {
    forall|i: int| 0 <= i < 4 ==> !occurs(x, #[trigger] ending(i))
}

/// Whether a name is that of an observable followed by ending `i`.
pub open spec fn ends_as(k: Seq<char>, x: Seq<char>, i: int) -> bool {
    0 <= i < 4 && bare(x) && x != "last_update_time"@ && k == x + ending(i)
}

/// Whether a name is that of an observable followed by one of the endings.
pub open spec fn has_one_ending(k: Seq<char>) -> bool {
    exists|x: Seq<char>, i: int| ends_as(k, x, i)
}

/// Whether every name of a reading is that of an observable with one ending, and
/// none is repeated.
pub open spec fn by_ending(raw: Vals) -> bool {
    &&& distinct_names(raw)
    &&& forall|j: int| 0 <= j < raw.len() ==> has_one_ending((#[trigger] raw[j]).0)
}

/// Whether some value of a reading has ending `i`.
pub open spec fn has_ending(raw: Vals, i: int) -> bool {
    exists|j: int| 0 <= j < raw.len() && occurs((#[trigger] raw[j]).0, ending(i))
}

proof fn endings(i: int)
    requires
        0 <= i < 4,
    ensures
        family_mark(i) == ending(i),
        6 <= ending(i).len() <= 7,
        ending(i)[0] == '_',
        forall|k: int| 0 < k < ending(i).len() ==> #[trigger] ending(i)[k] != '_',
{
    reveal_strlit("_");
    reveal_strlit("halarm");
    reveal_strlit("lalarm");
    reveal_strlit("hwarn");
    reveal_strlit("lwarn");
    reveal_strlit("_halarm");
    reveal_strlit("_lalarm");
    reveal_strlit("_hwarn");
    reveal_strlit("_lwarn");
    assert(family_mark(i) =~= ending(i));
}

proof fn endings_differ(i: int, j: int)
    requires
        0 <= i < 4,
        0 <= j < 4,
        i != j,
    ensures
        ending(i)[1] != ending(j)[1] || ending(i)[2] != ending(j)[2],
{
    reveal_strlit("_halarm");
    reveal_strlit("_lalarm");
    reveal_strlit("_hwarn");
    reveal_strlit("_lwarn");
}

/// In a name with one ending, that ending stands at the end and no other stands
/// anywhere.
proof fn ending_stands_at_the_end(x: Seq<char>, i: int, e: int, at: int)
    requires
        0 <= i < 4,
        0 <= e < 4,
        bare(x),
        occurs_at(x + ending(i), ending(e), at),
    ensures
        e == i,
        at == x.len(),
{
    let k = x + ending(i);
    let p = ending(e);
    endings(i);
    endings(e);
    assert(k.subrange(at, at + p.len()) == p);
    if at + p.len() <= x.len() {
        assert(x.subrange(at, at + p.len()) =~= k.subrange(at, at + p.len()));
        assert(occurs_at(x, p, at));
        assert(occurs(x, ending(e)));
        assert(false);
    }
    if at < x.len() {
        let c = x.len() - at;
        assert(k.subrange(at, at + p.len())[c] == k[x.len() as int]);
        assert(k[x.len() as int] == ending(i)[0]);
        assert(p[c] != '_');
        assert(false);
    }
    if at > x.len() {
        assert(k.subrange(at, at + p.len())[0] == k[at]);
        assert(k[at] == ending(i)[at - x.len()]);
        assert(false);
    }
    if e != i {
        endings_differ(i, e);
        assert(k.subrange(at, at + p.len())[1] == k[at + 1]);
        assert(k.subrange(at, at + p.len())[2] == k[at + 2]);
        assert(k[at + 1] == ending(i)[1]);
        assert(k[at + 2] == ending(i)[2]);
    }
}

/// Taking the ending off a name leaves the name of the observable.
proof fn ending_is_taken_off(x: Seq<char>, i: int, at: int)
    requires
        0 <= i < 4,
        bare(x),
        0 <= at <= x.len(),
    ensures
        replaced((x + ending(i)).skip(at), ending(i), ""@) == x.skip(at),
    decreases x.len() - at,
{
    let p = ending(i);
    let k = x + p;
    let s = k.skip(at);
    endings(i);
    reveal_strlit("");
    if at == x.len() {
        assert(s =~= p);
        assert(s.subrange(0, p.len() as int) =~= p);
        assert(occurs_at(s, p, 0));
        assert(s.skip(p.len() as int) =~= Seq::<char>::empty());
        assert(replaced(s.skip(p.len() as int), p, ""@) =~= Seq::<char>::empty());
        assert(replaced(s, p, ""@) =~= x.skip(at));
    } else {
        if occurs_at(s, p, 0) {
            assert(k.subrange(at, at + p.len()) =~= s.subrange(0, p.len() as int));
            assert(occurs_at(k, p, at));
            ending_stands_at_the_end(x, i, i, at);
        }
        ending_is_taken_off(x, i, at + 1);
        assert(s.skip(1) =~= k.skip(at + 1));
        assert(replaced(s, p, ""@) =~= x.skip(at));
    }
}

proof fn name_with_ending(x: Seq<char>, i: int)
    requires
        0 <= i < 4,
        bare(x),
    ensures
        occurs(x + ending(i), ending(i)),
        forall|e: int| 0 <= e < 4 && occurs(x + ending(i), #[trigger] ending(e)) ==> e == i,
        replaced(x + ending(i), ending(i), ""@) == x,
{
    let k = x + ending(i);
    ending_is_taken_off(x, i, 0);
    assert(k.skip(0) =~= k);
    assert(x.skip(0) =~= x);
    assert(k.subrange(x.len() as int, k.len() as int) =~= ending(i));
    assert(occurs_at(k, ending(i), x.len() as int));
    assert forall|e: int| 0 <= e < 4 && occurs(k, #[trigger] ending(e)) implies e == i by {
        let at = choose|at: int| occurs_at(k, ending(e), at);
        ending_stands_at_the_end(x, i, e, at);
    }
}

/// The part of a reading after its first value is by ending too.
proof fn rest_by_ending(raw: Vals)
    requires
        by_ending(raw),
        raw.len() > 0,
    ensures
        by_ending(raw.skip(1)),
{
    let rest = raw.skip(1);
    assert forall|i: int, j: int| 0 <= i < j < rest.len() implies (#[trigger] rest[i]).0 != (
    #[trigger] rest[j]).0 by {
        assert(raw[i + 1].0 != raw[j + 1].0);
    }
    assert forall|j: int| 0 <= j < rest.len() implies has_one_ending((#[trigger] rest[j]).0) by {
        assert(rest[j] == raw[j + 1]);
    }
}

/// A name belongs to the family whose ending stands in it, under the name of its
/// observable.
proof fn name_belongs(k: Seq<char>, i: int, x: Seq<char>)
    requires
        0 <= i < 4,
        has_one_ending(k),
        bare(x),
    ensures
        occurs(k, ending(i)) ==> replaced(k, ending(i), ""@) != "last_update_time"@,
        k == x + ending(i) <==> occurs(k, ending(i)) && replaced(k, ending(i), ""@) == x,
{
    let (y, e) = choose|y: Seq<char>, e: int| ends_as(k, y, e);
    name_with_ending(y, e);
    name_with_ending(x, i);
}

/// What a family holds under the name of an observable is what the reading holds
/// under that name with the ending of the family.
proof fn family_has_its_values(acc: Vals, raw: Vals, i: int, x: Seq<char>)
    requires
        by_ending(raw),
        0 <= i < 4,
        bare(x),
    ensures
        field(family_into(acc, raw, i), x) == (match field(raw, x + ending(i)) {
            Some(v) => Some(v),
            None => field(acc, x),
        }),
    decreases raw.len(),
{
    endings(i);
    let want = x + ending(i);
    field_at_first(raw, want);
    if raw.len() > 0 {
        let k = raw[0].0;
        let rest = raw.skip(1);
        rest_by_ending(raw);
        name_belongs(k, i, x);
        let y = replaced(k, ending(i), ""@);
        let next = if occurs(k, ending(i)) {
            with_field(acc, y, raw[0].1)
        } else {
            acc
        };
        assert(family_into(acc, raw, i) == family_into(next, rest, i));
        family_has_its_values(next, rest, i, x);
        set_field_value(acc, y, raw[0].1, x);
        first_of_fields(raw, want);
    }
}

/// A name is found in a list at its front or in the rest.
proof fn first_of_fields(f: Vals, k: Seq<char>)
    requires
        f.len() > 0,
        distinct_names(f),
    ensures
        field(f, k) == (if f[0].0 == k {
            Some(f[0].1)
        } else {
            field(f.skip(1), k)
        }),
        f[0].0 == k ==> field(f.skip(1), k) is None,
{
    let rest = f.skip(1);
    field_at_first(f, k);
    field_at_first(rest, k);
    let n = crate::json::field_at(rest, k);
    if n < rest.len() {
        assert(rest[n] == f[n + 1]);
        assert(f[0].0 != f[n + 1].0);
    }
}

/// The names of a family are those of observables, none repeated.
proof fn family_names(acc: Vals, raw: Vals, i: int)
    requires
        by_ending(raw),
        0 <= i < 4,
        tellable(acc),
    ensures
        tellable(family_into(acc, raw, i)),
        family_into(acc, raw, i).len() >= acc.len(),
        has_ending(raw, i) ==> family_into(acc, raw, i).len() > 0,
        acc.len() == 0 && !has_ending(raw, i) ==> family_into(acc, raw, i).len() == 0,
    decreases raw.len(),
{
    endings(i);
    if raw.len() > 0 {
        let k = raw[0].0;
        let rest = raw.skip(1);
        rest_by_ending(raw);
        reveal_strlit("last_update_time");
        let y = replaced(k, ending(i), ""@);
        let (x0, e0) = choose|x: Seq<char>, e: int| ends_as(k, x, e);
        name_belongs(k, i, x0);
        let next = if occurs(k, ending(i)) {
            with_field(acc, y, raw[0].1)
        } else {
            acc
        };
        assert(family_into(acc, raw, i) == family_into(next, rest, i));
        if occurs(k, ending(i)) {
            setting_keeps_tellable(acc, y, raw[0].1);
        }
        family_names(next, rest, i);
        if has_ending(raw, i) {
            let j = choose|j: int| 0 <= j < raw.len() && occurs((#[trigger] raw[j]).0, ending(i));
            if j > 0 {
                assert(rest[j - 1] == raw[j]);
            }
        }
        if has_ending(rest, i) {
            let j = choose|j: int| 0 <= j < rest.len() && occurs((#[trigger] rest[j]).0, ending(i));
            assert(rest[j] == raw[j + 1]);
        }
    }
}

proof fn setting_keeps_tellable(f: Vals, k: Seq<char>, v: Val)
    requires
        tellable(f),
        k != "last_update_time"@,
    ensures
        tellable(with_field(f, k, v)),
        with_field(f, k, v).len() > 0,
        with_field(f, k, v).len() >= f.len(),
{
    let w = with_field(f, k, v);
    field_at_first(f, k);
    set_field_value(f, k, v, "last_update_time"@);
    assert forall|a: int, b: int| 0 <= a < b < w.len() implies (#[trigger] w[a]).0 != (
    #[trigger] w[b]).0 by {
        if b < f.len() {
            assert(f[a].0 != f[b].0);
        }
    }
}

/// The table of family `i`: the values of the flags or the thresholds.
pub open spec fn table_of(v: VdmRows, flag_data: bool, i: int) -> Rows {
    if flag_data {
        v.flags[i].value
    } else {
        v.thresholds[i]
    }
}

/// Whether two states of the tables of the observables agree on all but the
/// values of the flags or, else, the thresholds.
pub open spec fn same_but_for(a: VdmRows, b: VdmRows, flag_data: bool) -> bool {
    &&& a.real_value == b.real_value
    &&& flag_data ==> a.thresholds == b.thresholds
    &&& !flag_data ==> a.flags == b.flags
    &&& a.flags.len() == b.flags.len() && a.thresholds.len() == b.thresholds.len()
    &&& forall|i: int|
        0 <= i < a.flags.len() ==> {
            &&& (#[trigger] a.flags[i]).change_count == b.flags[i].change_count
            &&& a.flags[i].set_time == b.flags[i].set_time
            &&& a.flags[i].clear_time == b.flags[i].clear_time
        }
}

proof fn family_is_posted<T: DbTable>(
    v: VdmRows,
    split: Seq<Vals>,
    tr: Trace,
    name: Seq<char>,
    flag_data: bool,
    k: nat,
    i: int,
)
    requires
        k <= 4,
        0 <= i < 4,
        v.flags.len() == 4,
        v.thresholds.len() == 4,
    ensures
        ({
            let r = posted_families::<T>(v, split, tr, name, flag_data, k);
            &&& r.1.answers == tr.answers
            &&& same_but_for(r.0, v, flag_data)
            &&& i < k || (exists|e: int| k <= e <= i && (#[trigger] split[e]).len() == 0)
                ==> table_of(r.0, flag_data, i) == table_of(v, flag_data, i)
            &&& k <= i && (forall|e: int| k <= e <= i ==> (#[trigger] split[e]).len() > 0)
                ==> exists|secs: u64|
                table_of(r.0, flag_data, i) == #[trigger] put::<T>(
                    table_of(v, flag_data, i),
                    name,
                    family_row(split[i], secs),
                )
        }),
    decreases 4 - k,
{
    if k < 4 && split[k as int].len() > 0 {
        let row = family_row(split[k as int], tr.clock());
        let f = v.flags[k as int];
        let v1 = if flag_data {
            VdmRows {
                real_value: v.real_value,
                flags: v.flags.update(
                    k as int,
                    FlagRows {
                        value: put::<T>(f.value, name, row),
                        change_count: f.change_count,
                        set_time: f.set_time,
                        clear_time: f.clear_time,
                    },
                ),
                thresholds: v.thresholds,
            }
        } else {
            VdmRows {
                real_value: v.real_value,
                flags: v.flags,
                thresholds: v.thresholds.update(
                    k as int,
                    put::<T>(v.thresholds[k as int], name, row),
                ),
            }
        };
        let t1 = tr.then_ask(Ask::Clock);
        family_is_posted::<T>(v1, split, t1, name, flag_data, k + 1, i);
        let r = posted_families::<T>(v, split, tr, name, flag_data, k);
        assert(r == posted_families::<T>(v1, split, t1, name, flag_data, k + 1));
        if i == k {
            assert(table_of(r.0, flag_data, i) == put::<T>(
                table_of(v, flag_data, i),
                name,
                family_row(split[i], tr.clock()),
            ));
        }
        assert(same_but_for(v1, v, flag_data));
        assert forall|j: int| 0 <= j < r.0.flags.len() implies {
            &&& (#[trigger] r.0.flags[j]).change_count == v.flags[j].change_count
            &&& r.0.flags[j].set_time == v.flags[j].set_time
            &&& r.0.flags[j].clear_time == v.flags[j].clear_time
        } by {
            assert(v1.flags[j].change_count == v.flags[j].change_count);
        }
        if exists|e: int| k <= e <= i && (#[trigger] split[e]).len() == 0 {
            let e = choose|e: int| k <= e <= i && (#[trigger] split[e]).len() == 0;
            assert(k + 1 <= e);
        }
        if k < i {
            assert(table_of(v1, flag_data, i) == table_of(v, flag_data, i));
        }
    } else if k < 4 && k <= i {
        assert(split[k as int].len() == 0);
    }
}

/// Each value goes to the table of its ending, under the name of its observable
/// without the ending, and to no other table: high alarms to the first, low
/// alarms to the second, high warnings to the third and low warnings to the
/// fourth. A table is written where it and those before it have a value.
pub proof fn values_go_to_the_table_of_their_ending<T: DbTable>(
    v: VdmRows,
    raw: Vals,
    tr: Trace,
    name: Seq<char>,
    flag_data: bool,
    i: int,
    x: Seq<char>,
)
    requires
        by_ending(raw),
        v.flags.len() == 4,
        v.thresholds.len() == 4,
        0 <= i < 4,
        bare(x),
        x != "last_update_time"@,
    ensures
        ({
            let r = posted_families::<T>(v, families_of(raw), tr, name, flag_data, 0).0;
            let before = table_of(v, flag_data, i);
            let after = table_of(r, flag_data, i);
            &&& same_but_for(r, v, flag_data)
            &&& (forall|e: int| 0 <= e <= i ==> #[trigger] has_ending(raw, e)) ==> {
                &&& field(raw, x + ending(i)) matches Some(val) ==> value_at(after, name, x)
                    == Some(py_str(val))
                &&& field(raw, x + ending(i)) is None && merges::<T>() && (row_at(
                    before,
                    name,
                ) matches Some(row) && distinct_fields(row)) ==> value_at(after, name, x)
                    == value_at(before, name, x)
            }
            &&& (exists|e: int| 0 <= e <= i && !#[trigger] has_ending(raw, e)) ==> after == before
        }),
{
    let split = families_of(raw);
    let none: Vals = Seq::empty();
    assert forall|e: int| 0 <= e < 4 implies ((#[trigger] split[e]).len() > 0) == has_ending(
        raw,
        e,
    ) by {
        field_at_first(none, "last_update_time"@);
        family_names(none, raw, e);
    }
    family_is_posted::<T>(v, split, tr, name, flag_data, 0, i);
    field_at_first(none, "last_update_time"@);
    field_at_first(none, x);
    family_names(none, raw, i);
    family_has_its_values(none, raw, i, x);
    assert(split[i] == family_of(raw, i));
    if forall|e: int| 0 <= e <= i ==> #[trigger] has_ending(raw, e) {
        let before = table_of(v, flag_data, i);
        let secs = choose|secs: u64|
            table_of(
                posted_families::<T>(v, split, tr, name, flag_data, 0).0,
                flag_data,
                i,
            ) == #[trigger] put::<T>(before, name, family_row(split[i], secs));
        stamped_row_is_read_back::<T>(before, name, Beautify::Plain, split[i], secs, x);
    }
    if exists|e: int| 0 <= e <= i && !#[trigger] has_ending(raw, e) {
        let e = choose|e: int| 0 <= e <= i && !#[trigger] has_ending(raw, e);
        assert(split[e].len() == 0);
    }
}

// ---- a steady module ----

/// Whether a world stays as it is for the module in slot `port`: nobody asks for a
/// stop, the module stays in its slot and gives each time the same answers, and
/// it is second `secs` all along.
pub open spec fn steady(a: Answers, port: usize, secs: u64) -> bool {
    &&& forall|h: Seq<Ask>| !#[trigger] (a.stop)(h)
    &&& forall|h: Seq<Ask>| #[trigger] (a.presence)(h, port) == Some(true)
    &&& forall|h: Seq<Ask>, m: Seq<char>| #[trigger]
        (a.json)(h, port, m) == (a.json)(Seq::empty(), port, m)
    &&& forall|h: Seq<Ask>| #[trigger] (a.clock)(h) == secs
}

/// What getter `method` of the module in slot `port` answers in a steady world.
pub open spec fn says(a: Answers, port: usize, method: Seq<char>) -> Option<ReplyView> {
    (a.json)(Seq::empty(), port, method)
}

/// Whether port `name` is the first on slot `port` and served by ASIC `a`.
pub open spec fn seated(
    m: MappingView,
    th: Seq<AsicRows>,
    port: usize,
    name: Seq<char>,
    a: int,
) -> bool {
    &&& m.agrees()
    &&& m.first_on(port) == Some(name)
    &&& m.asic_of(name) == Some(a as usize)
    &&& 0 <= a < th.len() <= usize::MAX
}

/// Whether a port is monitored: polling is not disabled in its configuration, its
/// data path is not being brought up, and no error keeps its module from being
/// read.
pub open spec fn monitored(a: AsicRows, name: Seq<char>, skip_cmis_mgr: bool) -> bool {
    &&& value_at(a.cfg_port, name, "dom_polling"@) != Some("disabled"@)
    &&& skip_cmis_mgr || value_at(a.status_sw, name, "cmis_state"@) == Some("READY"@) || value_at(
        a.status_sw,
        name,
        "cmis_state"@,
    ) == Some("FAILED"@) || value_at(a.status_sw, name, "cmis_state"@) == Some("REMOVED"@)
    &&& value_at(a.status_sw, name, "error"@) matches Some(e) ==> !occurs(
        e,
        "Blocking EEPROM from being read"@,
    )
}

/// Monitoring is on for a port that is monitored.
pub proof fn monitored_is_not_off(
    th: Seq<AsicRows>,
    m: MappingView,
    skip_cmis_mgr: bool,
    port: usize,
    name: Seq<char>,
    a: int,
)
    requires
        seated(m, th, port, name, a),
    ensures
        m.physical_of(name) == Some(port),
        monitored(th[a], name, skip_cmis_mgr) <==> dom_polling(m, th, name) != "disabled"@
            && !in_cmis_init(m, th, skip_cmis_mgr, name) && !is_blocked(th[a].status_sw, name),
{
    first_port_sits_on_its_slot(m, port, name);
    reveal_strlit("enabled");
    reveal_strlit("disabled");
    assert("enabled"@.len() != "disabled"@.len());
    reveal_strlit("UNKNOWN");
    reveal_strlit("READY");
    reveal_strlit("FAILED");
    reveal_strlit("REMOVED");
    assert("UNKNOWN"@[0] == 'U');
    assert("READY"@[0] == 'R');
    assert("FAILED"@[0] == 'F');
    assert("REMOVED"@[0] == 'R');
}

proof fn steady_flags<T: DbTable>(
    t: FlagRows,
    m: MappingView,
    tr: Trace,
    name: Seq<char>,
    reader: Reader,
    b: Beautify,
    port: usize,
    secs: u64,
)
    requires
        steady(tr.answers, port, secs),
        m.physical_of(name) == Some(port),
        m.asic_of(name) is Some,
    ensures
        ({
            let r = posted_flag_family::<T>(t, None, m, tr, name, reader, b);
            &&& r.2.answers == tr.answers
            &&& match filled_fields(reading(reader, says(tr.answers, port, getter(reader)))) {
                None => r.0 == t && !r.3,
                Some(f) => {
                    let noted = tracked_flags::<T>(t, name, f, stamp(secs));
                    &&& r.3
                    &&& r.0.value == put::<T>(
                        noted.value,
                        name,
                        stamped(shown_row(b, f), secs),
                    )
                    &&& r.0.change_count == noted.change_count
                    &&& r.0.set_time == noted.set_time
                    &&& r.0.clear_time == noted.clear_time
                },
            }
        }),
{
    let t1 = tr.then_ask(Ask::Stop);
    let t2 = t1.then_ask(Ask::Presence(port));
    assert(!tr.stop());
    assert(t1.present(port));
    assert(validated(m, tr, name, false) == (Some(port), t2));
    assert(t2.json(port, getter(reader)) == says(tr.answers, port, getter(reader)));
    let t3 = t2.then_ask(Ask::Json(port, getter(reader)));
    assert(t3.clock() == secs);
    assert(t3.then_ask(Ask::Clock).clock() == secs);
}

/// What the flags of a port are after a reading of them is published.
proof fn steady_flags_outcome<T: DbTable>(
    t: FlagRows,
    m: MappingView,
    tr: Trace,
    name: Seq<char>,
    reader: Reader,
    b: Beautify,
    port: usize,
    secs: u64,
    f: Vals,
    x: Seq<char>,
)
    requires
        steady(tr.answers, port, secs),
        m.physical_of(name) == Some(port),
        m.asic_of(name) is Some,
        reading(reader, says(tr.answers, port, getter(reader))) matches Some(r) && r.fields == Some(
            f,
        ),
        tellable(f),
        field(f, x) is Some,
    ensures
        ({
            let r = posted_flag_family::<T>(t, None, m, tr, name, reader, b);
            let v = field(f, x)->0;
            &&& r.2.answers == tr.answers
            &&& r.3
            &&& value_at(r.0.value, name, x) == Some(shown(b, x, v))
            &&& records_ready::<T>(t, name) ==> flag_follows(t, r.0, name, x, v, stamp(secs))
        }),
{
    field_at_first(f, x);
    steady_flags::<T>(t, m, tr, name, reader, b, port, secs);
    let noted = tracked_flags::<T>(t, name, f, stamp(secs));
    stamped_row_is_read_back::<T>(noted.value, name, b, f, secs, x);
    if records_ready::<T>(t, name) {
        tracking_follows_the_flags::<T>(t, name, f, stamp(secs), x);
    }
}

proof fn noted_family<T: DbTable>(
    t: Seq<FlagRows>,
    split: Seq<Vals>,
    name: Seq<char>,
    time: Seq<char>,
    k: nat,
    i: int,
)
    requires
        t.len() == 4,
        k <= 4,
        0 <= i < 4,
    ensures
        noted_families::<T>(t, split, name, time, k).len() == 4,
        noted_families::<T>(t, split, name, time, k)[i] == (if k <= i && split[i].len() > 0 {
            tracked_flags::<T>(t[i], name, split[i], time)
        } else {
            t[i]
        }),
    decreases 4 - k,
{
    if k < 4 {
        let t1 = if split[k as int].len() > 0 {
            t.update(k as int, tracked_flags::<T>(t[k as int], name, split[k as int], time))
        } else {
            t
        };
        noted_family::<T>(t1, split, name, time, k + 1, i);
    }
}

/// What the flags of the observables are after a reading of them is published.
proof fn steady_observables<T: DbTable>(
    v: VdmRows,
    m: MappingView,
    tr: Trace,
    name: Seq<char>,
    flag_data: bool,
    port: usize,
    secs: u64,
    raw: Vals,
    i: int,
    x: Seq<char>,
)
    requires
        steady(tr.answers, port, secs),
        m.physical_of(name) == Some(port),
        m.asic_of(name) is Some,
        !reply_true(says(tr.answers, port, "is_flat_memory"@)),
        says(tr.answers, port, vdm_getter(flag_data)) matches Some(r) && r.fields == Some(raw),
        by_ending(raw),
        v.flags.len() == 4,
        v.thresholds.len() == 4,
        0 <= i < 4,
        bare(x),
        x != "last_update_time"@,
    ensures
        ({
            let r = posted_vdm::<T>(v, None, m, tr, name, flag_data);
            let reported = field(raw, x + ending(i));
            &&& r.2.answers == tr.answers
            &&& r.0.real_value == v.real_value
            &&& r.0.flags.len() == 4 && r.0.thresholds.len() == 4
            &&& flag_data ==> r.0.thresholds == v.thresholds
            &&& !flag_data ==> r.0.flags == v.flags
            &&& reported is Some && (forall|e: int| 0 <= e <= i ==> #[trigger] has_ending(raw, e))
                ==> value_at(table_of(r.0, flag_data, i), name, x) == Some(py_str(reported->0))
            &&& flag_data && reported is Some && records_ready::<T>(v.flags[i], name)
                ==> flag_follows(
                v.flags[i],
                r.0.flags[i],
                name,
                x,
                reported->0,
                stamp(secs),
            )
        }),
{
    let t1 = tr.then_ask(Ask::Stop);
    let t2 = t1.then_ask(Ask::Presence(port));
    let t3 = t2.then_ask(Ask::Json(port, "is_flat_memory"@));
    assert(!tr.stop());
    assert(t1.present(port));
    assert(t2.json(port, "is_flat_memory"@) == says(tr.answers, port, "is_flat_memory"@));
    assert(validated(m, tr, name, true) == (Some(port), t3));
    assert(t3.json(port, vdm_getter(flag_data)) == says(tr.answers, port, vdm_getter(flag_data)));
    let t4 = t3.then_ask(Ask::Json(port, vdm_getter(flag_data)));
    assert(t4.clock() == secs);
    let split = families_of(raw);
    let none: Vals = Seq::empty();
    let noted = VdmRows {
        real_value: v.real_value,
        flags: if flag_data {
            noted_families::<T>(v.flags, split, name, stamp(secs), 0)
        } else {
            v.flags
        },
        thresholds: v.thresholds,
    };
    noted_family::<T>(v.flags, split, name, stamp(secs), 0, i);
    values_go_to_the_table_of_their_ending::<T>(
        noted,
        raw,
        t4.then_ask(Ask::Clock),
        name,
        flag_data,
        i,
        x,
    );
    family_is_posted::<T>(noted, split, t4.then_ask(Ask::Clock), name, flag_data, 0, i);
    field_at_first(none, x);
    field_at_first(none, "last_update_time"@);
    family_has_its_values(none, raw, i, x);
    family_names(none, raw, i);
    assert(split[i] == family_of(raw, i));
    if flag_data && field(raw, x + ending(i)) is Some {
        field_at_first(split[i], x);
        if records_ready::<T>(v.flags[i], name) {
            tracking_follows_the_flags::<T>(v.flags[i], name, split[i], stamp(secs), x);
        }
    }
}

// ---- the re-read after a link flap ----

/// A re-read of a monitored port settles where its module gives monitor flags,
/// and then each of them is in the row of the port, and its record follows.
pub proof fn reread_publishes_the_monitor_flags<T: DbTable>(
    th: Seq<AsicRows>,
    m: MappingView,
    tr: Trace,
    skip_cmis_mgr: bool,
    port: usize,
    name: Seq<char>,
    a: int,
    secs: u64,
    f: Vals,
    x: Seq<char>,
)
    requires
        steady(tr.answers, port, secs),
        seated(m, th, port, name, a),
        monitored(th[a], name, skip_cmis_mgr),
        says(tr.answers, port, "get_transceiver_dom_flags"@) matches Some(r) && r.fields == Some(f),
        tellable(f),
        field(f, x) is Some,
    ensures
        ({
            let (after, _t, outcome) = reread::<T>(th, m, tr, skip_cmis_mgr, port);
            let v = field(f, x)->0;
            &&& outcome == LinkChangeReread::Settled
            &&& after.len() == th.len()
            &&& value_at(after[a].dom_flags.value, name, x) == Some(dom_text(x, v))
            &&& records_ready::<T>(th[a].dom_flags, name) ==> flag_follows(
                th[a].dom_flags,
                after[a].dom_flags,
                name,
                x,
                v,
                stamp(secs),
            )
        }),
{
    monitored_is_not_off(th, m, skip_cmis_mgr, port, name, a);
    let t1 = tr.then_ask(Ask::Stop);
    let t2 = t1.then_ask(Ask::Presence(port));
    assert(!tr.stop());
    assert(t1.present(port));
    steady_flags_outcome::<T>(
        th[a].dom_flags,
        m,
        t2,
        name,
        Reader::DomFlags,
        Beautify::Dom,
        port,
        secs,
        f,
        x,
    );
}

/// A re-read of a monitored port puts each status flag that its module gives in
/// the row of the port, and its record follows.
pub proof fn reread_publishes_the_status_flags<T: DbTable>(
    th: Seq<AsicRows>,
    m: MappingView,
    tr: Trace,
    skip_cmis_mgr: bool,
    port: usize,
    name: Seq<char>,
    a: int,
    secs: u64,
    f: Vals,
    x: Seq<char>,
)
    requires
        steady(tr.answers, port, secs),
        seated(m, th, port, name, a),
        monitored(th[a], name, skip_cmis_mgr),
        says(tr.answers, port, "get_transceiver_status_flags"@) matches Some(r) && r.fields == Some(
            f,
        ),
        tellable(f),
        field(f, x) is Some,
    ensures
        ({
            let after = reread::<T>(th, m, tr, skip_cmis_mgr, port).0;
            let v = field(f, x)->0;
            &&& after.len() == th.len()
            &&& value_at(after[a].status_flags.value, name, x) == Some(py_str(v))
            &&& records_ready::<T>(th[a].status_flags, name) ==> flag_follows(
                th[a].status_flags,
                after[a].status_flags,
                name,
                x,
                v,
                stamp(secs),
            )
        }),
{
    monitored_is_not_off(th, m, skip_cmis_mgr, port, name, a);
    let t1 = tr.then_ask(Ask::Stop);
    let t2 = t1.then_ask(Ask::Presence(port));
    assert(!tr.stop());
    assert(t1.present(port));
    steady_flags::<T>(
        th[a].dom_flags,
        m,
        t2,
        name,
        Reader::DomFlags,
        Beautify::Dom,
        port,
        secs,
    );
    let t3 = posted_flag_family::<T>(
        th[a].dom_flags,
        None,
        m,
        t2,
        name,
        Reader::DomFlags,
        Beautify::Dom,
    ).2;
    steady_flags_outcome::<T>(
        th[a].status_flags,
        m,
        t3,
        name,
        Reader::StatusFlags,
        Beautify::Plain,
        port,
        secs,
        f,
        x,
    );
}

/// A re-read of a monitored port whose module has observables puts each of their
/// flags in the table of its ending, under the name of its observable, and its
/// record follows.
#[verifier::rlimit(50)]
pub proof fn reread_publishes_the_observable_flags<T: DbTable>(
    th: Seq<AsicRows>,
    m: MappingView,
    tr: Trace,
    skip_cmis_mgr: bool,
    port: usize,
    name: Seq<char>,
    a: int,
    secs: u64,
    raw: Vals,
    i: int,
    x: Seq<char>,
)
    requires
        steady(tr.answers, port, secs),
        seated(m, th, port, name, a),
        monitored(th[a], name, skip_cmis_mgr),
        th[a].vdm.flags.len() == 4,
        th[a].vdm.thresholds.len() == 4,
        reply_true(says(tr.answers, port, "is_transceiver_vdm_supported"@)),
        !reply_true(says(tr.answers, port, "is_flat_memory"@)),
        says(tr.answers, port, "get_transceiver_vdm_flags"@) matches Some(r) && r.fields == Some(
            raw,
        ),
        by_ending(raw),
        0 <= i < 4,
        bare(x),
        field(raw, x + ending(i)) is Some,
        x != "last_update_time"@,
    ensures
        ({
            let after = reread::<T>(th, m, tr, skip_cmis_mgr, port).0;
            let v = field(raw, x + ending(i))->0;
            &&& after.len() == th.len()
            &&& (forall|e: int| 0 <= e <= i ==> #[trigger] has_ending(raw, e)) ==> value_at(
                after[a].vdm.flags[i].value,
                name,
                x,
            ) == Some(py_str(v))
            &&& records_ready::<T>(th[a].vdm.flags[i], name) ==> flag_follows(
                th[a].vdm.flags[i],
                after[a].vdm.flags[i],
                name,
                x,
                v,
                stamp(secs),
            )
        }),
{
    monitored_is_not_off(th, m, skip_cmis_mgr, port, name, a);
    let t1 = tr.then_ask(Ask::Stop);
    let t2 = t1.then_ask(Ask::Presence(port));
    assert(!tr.stop());
    assert(t1.present(port));
    steady_flags::<T>(
        th[a].dom_flags,
        m,
        t2,
        name,
        Reader::DomFlags,
        Beautify::Dom,
        port,
        secs,
    );
    let t3 = posted_flag_family::<T>(
        th[a].dom_flags,
        None,
        m,
        t2,
        name,
        Reader::DomFlags,
        Beautify::Dom,
    ).2;
    steady_flags::<T>(
        th[a].status_flags,
        m,
        t3,
        name,
        Reader::StatusFlags,
        Beautify::Plain,
        port,
        secs,
    );
    let t4 = posted_flag_family::<T>(
        th[a].status_flags,
        None,
        m,
        t3,
        name,
        Reader::StatusFlags,
        Beautify::Plain,
    ).2;
    assert(t4.json(port, "is_transceiver_vdm_supported"@) == says(
        tr.answers,
        port,
        "is_transceiver_vdm_supported"@,
    ));
    let t5 = t4.then_ask(Ask::Json(port, "is_transceiver_vdm_supported"@));
    steady_observables::<T>(th[a].vdm, m, t5, name, true, port, secs, raw, i, x);
}

// ---- a pass ----

proof fn answers_stay_monitor<T: DbTable>(
    rows: Rows,
    m: MappingView,
    tr: Trace,
    name: Seq<char>,
    reader: Reader,
    b: Beautify,
)
    ensures
        posted_monitor::<T>(rows, None, m, tr, name, reader, b).2.answers == tr.answers,
{
}

proof fn answers_stay_confirmed(
    u: VdmUtils,
    tr: Trace,
    port: usize,
    status: Seq<char>,
    start: u64,
    left: nat,
)
    ensures
        confirmed(u, tr, port, status, start, left).1.answers == tr.answers,
    decreases left,
{
    if left > 0 {
        let t3 = tr.then_ask(Ask::Uptime).then_ask(Ask::Json(port, status)).then_ask(
            Ask::Sleep(u.poll),
        );
        answers_stay_confirmed(u, t3, port, status, start, (left - 1) as nat);
    }
}

proof fn answers_stay_acted(
    u: VdmUtils,
    tr: Trace,
    port: usize,
    action: Seq<char>,
    status: Seq<char>,
)
    ensures
        acted(u, tr, port, action, status).1.answers == tr.answers,
{
    let t2 = tr.then_ask(Ask::Json(port, action)).then_ask(Ask::Sleep(u.settle));
    answers_stay_confirmed(
        u,
        t2.then_ask(Ask::Uptime),
        port,
        status,
        t2.uptime(),
        further_looks(u),
    );
}

/// Taking the statistics of a module does not change what it would answer.
pub proof fn answers_stay_statistics<T: DbTable>(
    pm: Rows,
    m: MappingView,
    tr: Trace,
    u: VdmUtils,
    name: Seq<char>,
    port: usize,
)
    ensures
        statistics_taken::<T>(pm, m, tr, u, name, port).2.answers == tr.answers,
{
    let t2 = tr.then_ask(Ask::Json(port, "is_vdm_statistic_supported"@)).then_ask(
        Ask::Lpmode(port),
    );
    answers_stay_acted(u, t2, port, "freeze_vdm_stats"@, "get_vdm_freeze_status"@);
    let t3 = froze(u, t2, port).1;
    let t4 = t3.then_ask(Ask::Json(port, "get_transceiver_vdm_real_value_statistic"@));
    let t5 = posted_pm::<T>(pm, None, m, t4, name).2;
    answers_stay_acted(u, t3, port, "unfreeze_vdm_stats"@, "get_vdm_unfreeze_status"@);
    answers_stay_acted(u, t5, port, "unfreeze_vdm_stats"@, "get_vdm_unfreeze_status"@);
}

proof fn steady_monitor<T: DbTable>(
    rows: Rows,
    m: MappingView,
    tr: Trace,
    name: Seq<char>,
    reader: Reader,
    b: Beautify,
    port: usize,
    secs: u64,
    f: Vals,
    x: Seq<char>,
)
    requires
        steady(tr.answers, port, secs),
        m.physical_of(name) == Some(port),
        m.asic_of(name) is Some,
        reading(reader, says(tr.answers, port, getter(reader))) matches Some(r) && r.fields == Some(
            f,
        ),
        tellable(f),
        field(f, x) is Some,
    ensures
        ({
            let after = posted_monitor::<T>(rows, None, m, tr, name, reader, b).0;
            &&& value_at(after, name, x) == Some(shown(b, x, field(f, x)->0))
            &&& value_at(after, name, "last_update_time"@) == Some(stamp(secs))
        }),
{
    let t1 = tr.then_ask(Ask::Stop);
    let t2 = t1.then_ask(Ask::Presence(port));
    assert(!tr.stop());
    assert(t1.present(port));
    assert(validated(m, tr, name, false) == (Some(port), t2));
    assert(t2.json(port, getter(reader)) == says(tr.answers, port, getter(reader)));
    let t3 = t2.then_ask(Ask::Json(port, getter(reader)));
    assert(t3.clock() == secs);
    field_at_first(f, x);
    stamped_row_is_read_back::<T>(rows, name, b, f, secs, x);
}

/// The alarm and warning thresholds that a module reports are in the row of its
/// port after they are published.
pub proof fn thresholds_are_published<T: DbTable>(
    rows: Rows,
    m: MappingView,
    tr: Trace,
    name: Seq<char>,
    port: usize,
    secs: u64,
    f: Vals,
    x: Seq<char>,
)
    requires
        steady(tr.answers, port, secs),
        m.physical_of(name) == Some(port),
        says(tr.answers, port, "get_transceiver_threshold_info"@) matches Some(r) && r.fields
            == Some(f),
        tellable(f),
        field(f, x) is Some,
    ensures
        value_at(
            posted_monitor::<T>(rows, None, m, tr, name, Reader::Thresholds, Beautify::Dom).0,
            name,
            x,
        ) == Some(dom_text(x, field(f, x)->0)),
{
    steady_monitor::<T>(
        rows,
        m,
        tr,
        name,
        Reader::Thresholds,
        Beautify::Dom,
        port,
        secs,
        f,
        x,
    );
}

/// The thresholds of the observables that a module with paged memory reports are,
/// after they are published, each in the table of its ending.
pub proof fn observable_thresholds_are_published<T: DbTable>(
    v: VdmRows,
    m: MappingView,
    tr: Trace,
    name: Seq<char>,
    port: usize,
    secs: u64,
    raw: Vals,
    i: int,
    x: Seq<char>,
)
    requires
        steady(tr.answers, port, secs),
        m.physical_of(name) == Some(port),
        !reply_true(says(tr.answers, port, "is_flat_memory"@)),
        says(tr.answers, port, "get_transceiver_vdm_thresholds"@) matches Some(r) && r.fields
            == Some(raw),
        by_ending(raw),
        v.flags.len() == 4,
        v.thresholds.len() == 4,
        0 <= i < 4,
        bare(x),
        x != "last_update_time"@,
        field(raw, x + ending(i)) is Some,
        forall|e: int| 0 <= e <= i ==> #[trigger] has_ending(raw, e),
    ensures
        value_at(posted_vdm::<T>(v, None, m, tr, name, false).0.thresholds[i], name, x) == Some(
            py_str(field(raw, x + ending(i))->0),
        ),
        posted_vdm::<T>(v, None, m, tr, name, false).0.flags == v.flags,
{
    steady_observables::<T>(v, m, tr, name, false, port, secs, raw, i, x);
}

/// Where a port is polled: what of the tables and of the trace each part of the
/// pass starts from.
proof fn poll_parts<T: DbTable>(
    th: Seq<AsicRows>,
    m: MappingView,
    tr: Trace,
    u: VdmUtils,
    skip_cmis_mgr: bool,
    port: usize,
    name: Seq<char>,
    a: int,
    secs: u64,
) -> (t: (Trace, Trace, Trace, Trace, Trace, Trace))
    requires
        steady(tr.answers, port, secs),
        seated(m, th, port, name, a),
        monitored(th[a], name, skip_cmis_mgr),
    ensures
        t.0.answers == tr.answers,
        t.1.answers == tr.answers,
        t.2.answers == tr.answers,
        t.3.answers == tr.answers,
        t.4.answers == tr.answers,
        t.5.answers == tr.answers,
        m.physical_of(name) == Some(port),
        ({
            let after = polled_port::<T>(th, m, tr, u, skip_cmis_mgr, port).0;
            let old = th[a];
            let new = after[a];
            let rest = posted_vdm_diagnostics::<T>(
                AsicRows {
                    firmware_info: new.firmware_info,
                    dom: new.dom,
                    dom_flags: new.dom_flags,
                    status: new.status,
                    status_flags: new.status_flags,
                    ..old
                },
                m,
                t.5,
                u,
                name,
                port,
            ).0;
            &&& after.len() == th.len()
            &&& new.firmware_info == posted_firmware::<T>(old.firmware_info, None, m, t.0, name).0
            &&& new.dom == posted_monitor::<T>(
                old.dom,
                None,
                m,
                t.1,
                name,
                Reader::Sensor,
                Beautify::Dom,
            ).0
            &&& new.dom_flags == posted_flag_family::<T>(
                old.dom_flags,
                None,
                m,
                t.2,
                name,
                Reader::DomFlags,
                Beautify::Dom,
            ).0
            &&& new.status == posted_monitor::<T>(
                old.status,
                None,
                m,
                t.3,
                name,
                Reader::Status,
                Beautify::Plain,
            ).0
            &&& new.status_flags == posted_flag_family::<T>(
                old.status_flags,
                None,
                m,
                t.4,
                name,
                Reader::StatusFlags,
                Beautify::Plain,
            ).0
            &&& new.pm == rest.pm
            &&& new.vdm == rest.vdm
        }),
{
    monitored_is_not_off(th, m, skip_cmis_mgr, port, name, a);
    assert(tr.present(port));
    let t0 = tr.then_ask(Ask::Presence(port));
    let t1 = posted_firmware::<T>(th[a].firmware_info, None, m, t0, name).2;
    answers_stay_monitor::<T>(th[a].dom, m, t1, name, Reader::Sensor, Beautify::Dom);
    let t2 = posted_monitor::<T>(th[a].dom, None, m, t1, name, Reader::Sensor, Beautify::Dom).2;
    steady_flags::<T>(
        th[a].dom_flags,
        m,
        t2,
        name,
        Reader::DomFlags,
        Beautify::Dom,
        port,
        secs,
    );
    let t3 = posted_flag_family::<T>(
        th[a].dom_flags,
        None,
        m,
        t2,
        name,
        Reader::DomFlags,
        Beautify::Dom,
    ).2;
    answers_stay_monitor::<T>(th[a].status, m, t3, name, Reader::Status, Beautify::Plain);
    let t4 = posted_monitor::<T>(
        th[a].status,
        None,
        m,
        t3,
        name,
        Reader::Status,
        Beautify::Plain,
    ).2;
    steady_flags::<T>(
        th[a].status_flags,
        m,
        t4,
        name,
        Reader::StatusFlags,
        Beautify::Plain,
        port,
        secs,
    );
    let t5 = posted_flag_family::<T>(
        th[a].status_flags,
        None,
        m,
        t4,
        name,
        Reader::StatusFlags,
        Beautify::Plain,
    ).2;
    (t0, t1, t2, t3, t4, t5)
}

/// A pass puts each monitor value that the module of a monitored port reports in
/// the row of the port, without its unit, with the time of the pass.
pub proof fn pass_publishes_the_monitors<T: DbTable>(
    th: Seq<AsicRows>,
    m: MappingView,
    tr: Trace,
    u: VdmUtils,
    skip_cmis_mgr: bool,
    port: usize,
    name: Seq<char>,
    a: int,
    secs: u64,
    f: Vals,
    x: Seq<char>,
)
    requires
        steady(tr.answers, port, secs),
        seated(m, th, port, name, a),
        monitored(th[a], name, skip_cmis_mgr),
        says(tr.answers, port, "get_transceiver_dom_real_value"@) matches Some(r) && r.fields
            == Some(f),
        tellable(f),
        field(f, x) is Some,
    ensures
        ({
            let after = polled_port::<T>(th, m, tr, u, skip_cmis_mgr, port).0;
            &&& value_at(after[a].dom, name, x) == Some(dom_text(x, field(f, x)->0))
            &&& value_at(after[a].dom, name, "last_update_time"@) == Some(stamp(secs))
        }),
{
    let t = poll_parts::<T>(th, m, tr, u, skip_cmis_mgr, port, name, a, secs);
    steady_monitor::<T>(
        th[a].dom,
        m,
        t.1,
        name,
        Reader::Sensor,
        Beautify::Dom,
        port,
        secs,
        f,
        x,
    );
}

proof fn masking_keeps_tellable(f: Vals, lane: nat)
    requires
        tellable(f),
        1 <= lane <= 9,
    ensures
        tellable(masked_from(f, lane)),
    decreases 9 - lane,
{
    if lane <= 8 {
        reveal_strlit("config_state_hostlane");
        reveal_strlit("last_update_time");
        assert(config_key(lane)[0] == 'c');
        assert("last_update_time"@[0] == 'l');
        setting_keeps_tellable(f, config_key(lane), Val::Str("ConfigUndefined"@));
        masking_keeps_tellable(lane_masked(f, lane), lane + 1);
    }
}

/// A pass puts the status that the module of a monitored port reports in the row
/// of the port.
pub proof fn pass_publishes_the_status<T: DbTable>(
    th: Seq<AsicRows>,
    m: MappingView,
    tr: Trace,
    u: VdmUtils,
    skip_cmis_mgr: bool,
    port: usize,
    name: Seq<char>,
    a: int,
    secs: u64,
    f: Vals,
    x: Seq<char>,
)
    requires
        steady(tr.answers, port, secs),
        seated(m, th, port, name, a),
        monitored(th[a], name, skip_cmis_mgr),
        says(tr.answers, port, "get_transceiver_status"@) matches Some(r) && r.fields == Some(f),
        tellable(f),
        field(f, x) is Some,
        forall|l: nat| 1 <= l <= 8 ==> x != "config_state_hostlane"@ + #[trigger] decimal(l),
    ensures
        value_at(polled_port::<T>(th, m, tr, u, skip_cmis_mgr, port).0[a].status, name, x) == Some(
            py_str(field(f, x)->0),
        ),
{
    let t = poll_parts::<T>(th, m, tr, u, skip_cmis_mgr, port, name, a, secs);
    masking_keeps_tellable(f, 1);
    assert forall|l: nat| 1 <= l <= 8 implies x != #[trigger] config_key(l) by {
        assert(x != "config_state_hostlane"@ + decimal(l));
    }
    masking_leaves_other_fields(f, x);
    steady_monitor::<T>(
        th[a].status,
        m,
        t.3,
        name,
        Reader::Status,
        Beautify::Plain,
        port,
        secs,
        masked_from(f, 1),
        x,
    );
}

/// A pass shows the configuration state of a host lane as the module reports it
/// where the data path of the lane is not down, and as undefined where it is.
#[verifier::rlimit(50)]
pub proof fn pass_masks_stale_configurations<T: DbTable>(
    th: Seq<AsicRows>,
    m: MappingView,
    tr: Trace,
    u: VdmUtils,
    skip_cmis_mgr: bool,
    port: usize,
    name: Seq<char>,
    a: int,
    secs: u64,
    f: Vals,
    lane: nat,
)
    requires
        steady(tr.answers, port, secs),
        seated(m, th, port, name, a),
        monitored(th[a], name, skip_cmis_mgr),
        says(tr.answers, port, "get_transceiver_status"@) matches Some(r) && r.fields == Some(f),
        tellable(f),
        1 <= lane <= 8,
        field(f, "config_state_hostlane"@ + decimal(lane)) is Some,
    ensures
        value_at(
            polled_port::<T>(th, m, tr, u, skip_cmis_mgr, port).0[a].status,
            name,
            "config_state_hostlane"@ + decimal(lane),
        ) == Some(
            if field(f, "DP"@ + decimal(lane) + "State"@) == Some(Val::Str("DataPathDeactivated"@)) {
                "ConfigUndefined"@
            } else {
                py_str(field(f, "config_state_hostlane"@ + decimal(lane))->0)
            },
        ),
{
    let t = poll_parts::<T>(th, m, tr, u, skip_cmis_mgr, port, name, a, secs);
    masking_keeps_tellable(f, 1);
    stale_configuration_is_masked(f, lane);
    steady_monitor::<T>(
        th[a].status,
        m,
        t.3,
        name,
        Reader::Status,
        Beautify::Plain,
        port,
        secs,
        masked_from(f, 1),
        "config_state_hostlane"@ + decimal(lane),
    );
}

/// A pass puts each monitor flag that the module of a monitored port reports in
/// the row of the port, and its record follows.
pub proof fn pass_publishes_the_monitor_flags<T: DbTable>(
    th: Seq<AsicRows>,
    m: MappingView,
    tr: Trace,
    u: VdmUtils,
    skip_cmis_mgr: bool,
    port: usize,
    name: Seq<char>,
    a: int,
    secs: u64,
    f: Vals,
    x: Seq<char>,
)
    requires
        steady(tr.answers, port, secs),
        seated(m, th, port, name, a),
        monitored(th[a], name, skip_cmis_mgr),
        says(tr.answers, port, "get_transceiver_dom_flags"@) matches Some(r) && r.fields == Some(f),
        tellable(f),
        field(f, x) is Some,
    ensures
        ({
            let after = polled_port::<T>(th, m, tr, u, skip_cmis_mgr, port).0;
            let v = field(f, x)->0;
            &&& value_at(after[a].dom_flags.value, name, x) == Some(dom_text(x, v))
            &&& records_ready::<T>(th[a].dom_flags, name) ==> flag_follows(
                th[a].dom_flags,
                after[a].dom_flags,
                name,
                x,
                v,
                stamp(secs),
            )
        }),
{
    let t = poll_parts::<T>(th, m, tr, u, skip_cmis_mgr, port, name, a, secs);
    steady_flags_outcome::<T>(
        th[a].dom_flags,
        m,
        t.2,
        name,
        Reader::DomFlags,
        Beautify::Dom,
        port,
        secs,
        f,
        x,
    );
}

/// A pass puts each status flag that the module of a monitored port reports in
/// the row of the port, and its record follows.
pub proof fn pass_publishes_the_status_flags<T: DbTable>(
    th: Seq<AsicRows>,
    m: MappingView,
    tr: Trace,
    u: VdmUtils,
    skip_cmis_mgr: bool,
    port: usize,
    name: Seq<char>,
    a: int,
    secs: u64,
    f: Vals,
    x: Seq<char>,
)
    requires
        steady(tr.answers, port, secs),
        seated(m, th, port, name, a),
        monitored(th[a], name, skip_cmis_mgr),
        says(tr.answers, port, "get_transceiver_status_flags"@) matches Some(r) && r.fields == Some(
            f,
        ),
        tellable(f),
        field(f, x) is Some,
    ensures
        ({
            let after = polled_port::<T>(th, m, tr, u, skip_cmis_mgr, port).0;
            let v = field(f, x)->0;
            &&& value_at(after[a].status_flags.value, name, x) == Some(py_str(v))
            &&& records_ready::<T>(th[a].status_flags, name) ==> flag_follows(
                th[a].status_flags,
                after[a].status_flags,
                name,
                x,
                v,
                stamp(secs),
            )
        }),
{
    let t = poll_parts::<T>(th, m, tr, u, skip_cmis_mgr, port, name, a, secs);
    steady_flags_outcome::<T>(
        th[a].status_flags,
        m,
        t.4,
        name,
        Reader::StatusFlags,
        Beautify::Plain,
        port,
        secs,
        f,
        x,
    );
}

proof fn same_row_for_all<T: DbTable>(
    rows: Rows,
    names: Seq<Seq<char>>,
    f: Vals,
    other: Seq<char>,
    x: Seq<char>,
)
    requires
        distinct_names(f),
        field(f, x) is Some,
        names.no_duplicates(),
    ensures
        names.contains(other) ==> value_at(
            put_all::<T>(rows, names, shown_row(Beautify::Plain, f)),
            other,
            x,
        ) == Some(py_str(field(f, x)->0)),
        !names.contains(other) ==> row_at(
            put_all::<T>(rows, names, shown_row(Beautify::Plain, f)),
            other,
        ) == row_at(rows, other),
    decreases names.len(),
{
    let row = shown_row(Beautify::Plain, f);
    if names.len() > 0 {
        let rest = names.skip(1);
        let next = put::<T>(rows, names[0], row);
        assert(rest.no_duplicates()) by {
            assert forall|i: int, j: int| 0 <= i < j < rest.len() implies rest[i] != rest[j] by {
                assert(names[i + 1] != names[j + 1]);
            }
        }
        same_row_for_all::<T>(next, rest, f, other, x);
        if rest.contains(other) {
            let i = rest.index_of(other);
            assert(names[i + 1] == other);
            assert(names[0] != names[i + 1]);
        } else if names.contains(other) {
            let i = names.index_of(other);
            if i > 0 {
                assert(rest[i - 1] == other);
            }
            assert(names[0] == other);
            assert(distinct_fields(row)) by {
                assert forall|i: int, j: int| 0 <= i < j < row.len() implies (#[trigger] row[i]).0
                    != (#[trigger] row[j]).0 by {
                    assert(f[i].0 != f[j].0);
                }
            }
            T::stored_is_read_back(row_at(rows, names[0]), row);
            field_at_first(f, x);
            let n = crate::json::field_at(f, x);
            assert(row[n] == (f[n].0, py_str(f[n].1)));
        }
    }
}

/// A pass puts the firmware versions that the module of a monitored port reports
/// in the row of every port on its slot, and of no other port.
pub proof fn pass_publishes_the_firmware<T: DbTable>(
    th: Seq<AsicRows>,
    m: MappingView,
    tr: Trace,
    u: VdmUtils,
    skip_cmis_mgr: bool,
    port: usize,
    name: Seq<char>,
    a: int,
    secs: u64,
    f: Vals,
    x: Seq<char>,
    other: Seq<char>,
)
    requires
        steady(tr.answers, port, secs),
        seated(m, th, port, name, a),
        monitored(th[a], name, skip_cmis_mgr),
        parsed_i64(name) is None,
        says(tr.answers, port, "get_transceiver_info_firmware_versions"@) matches Some(r)
            && r.fields == Some(f),
        distinct_names(f),
        field(f, x) is Some,
    ensures
        ({
            let after = polled_port::<T>(th, m, tr, u, skip_cmis_mgr, port).0;
            &&& m.physical_of(other) == Some(port) ==> value_at(after[a].firmware_info, other, x)
                == Some(py_str(field(f, x)->0))
            &&& m.physical_of(other) != Some(port) ==> row_at(after[a].firmware_info, other)
                == row_at(th[a].firmware_info, other)
        }),
{
    let t = poll_parts::<T>(th, m, tr, u, skip_cmis_mgr, port, name, a, secs);
    first_port_sits_on_its_slot(m, port, name);
    let t1 = t.0.then_ask(Ask::Stop);
    let t2 = t1.then_ask(Ask::Presence(port));
    assert(!t.0.stop());
    assert(t1.present(port));
    assert(t2.json(port, "get_transceiver_info_firmware_versions"@) == says(
        tr.answers,
        port,
        "get_transceiver_info_firmware_versions"@,
    ));
    field_at_first(f, x);
    assert(m.logical_on(port).contains(other) <==> m.physical_of(other) == Some(port)) by {
        if m.physical_of(other) == Some(port) {
            assert(m.seats.dom().contains(other));
        }
    }
    same_row_for_all::<T>(th[a].firmware_info, m.logical_on(port), f, other, x);
}

/// A pass over a monitored port whose module has observables puts each of their
/// flags in the table of its ending, and its record follows.
pub proof fn pass_publishes_the_observable_flags<T: DbTable>(
    th: Seq<AsicRows>,
    m: MappingView,
    tr: Trace,
    u: VdmUtils,
    skip_cmis_mgr: bool,
    port: usize,
    name: Seq<char>,
    a: int,
    secs: u64,
    raw: Vals,
    i: int,
    x: Seq<char>,
)
    requires
        steady(tr.answers, port, secs),
        seated(m, th, port, name, a),
        monitored(th[a], name, skip_cmis_mgr),
        th[a].vdm.flags.len() == 4,
        th[a].vdm.thresholds.len() == 4,
        reply_true(says(tr.answers, port, "is_transceiver_vdm_supported"@)),
        !reply_true(says(tr.answers, port, "is_flat_memory"@)),
        says(tr.answers, port, "get_transceiver_vdm_flags"@) matches Some(r) && r.fields == Some(
            raw,
        ),
        by_ending(raw),
        0 <= i < 4,
        bare(x),
        x != "last_update_time"@,
        field(raw, x + ending(i)) is Some,
    ensures
        ({
            let after = polled_port::<T>(th, m, tr, u, skip_cmis_mgr, port).0;
            let v = field(raw, x + ending(i))->0;
            &&& (forall|e: int| 0 <= e <= i ==> #[trigger] has_ending(raw, e)) ==> value_at(
                after[a].vdm.flags[i].value,
                name,
                x,
            ) == Some(py_str(v))
            &&& records_ready::<T>(th[a].vdm.flags[i], name) ==> flag_follows(
                th[a].vdm.flags[i],
                after[a].vdm.flags[i],
                name,
                x,
                v,
                stamp(secs),
            )
        }),
{
    let t = poll_parts::<T>(th, m, tr, u, skip_cmis_mgr, port, name, a, secs);
    let t1 = t.5.then_ask(Ask::Json(port, "is_transceiver_vdm_supported"@));
    assert(t.5.json(port, "is_transceiver_vdm_supported"@) == says(
        tr.answers,
        port,
        "is_transceiver_vdm_supported"@,
    ));
    let (pm, statistic, t2) = statistics_taken::<T>(th[a].pm, m, t1, u, name, port);
    answers_stay_statistics::<T>(th[a].pm, m, t1, u, name, port);
    let t3 = t2.then_ask(Ask::Json(port, "get_transceiver_vdm_real_value_basic"@));
    let basic = object_fields(t2.json(port, "get_transceiver_vdm_real_value_basic"@));
    let (shown_values, t4) = posted_real_values::<T>(
        th[a].vdm.real_value,
        m,
        t3,
        name,
        merged_values(basic, statistic),
    );
    let v = VdmRows {
        real_value: shown_values,
        flags: th[a].vdm.flags,
        thresholds: th[a].vdm.thresholds,
    };
    steady_observables::<T>(v, m, t4, name, true, port, secs, raw, i, x);
}

proof fn merging_keeps_tellable(f: Vals, g: Vals)
    requires
        tellable(f),
        tellable(g),
    ensures
        tellable(with_fields(f, g)),
        with_fields(f, g).len() >= f.len(),
        g.len() > 0 ==> with_fields(f, g).len() > 0,
    decreases g.len(),
{
    if g.len() > 0 {
        let rest = g.skip(1);
        field_at_first(g, "last_update_time"@);
        first_of_fields(g, "last_update_time"@);
        assert(distinct_names(rest)) by {
            assert forall|i: int, j: int| 0 <= i < j < rest.len() implies (#[trigger] rest[i]).0 != (
            #[trigger] rest[j]).0 by {
                assert(g[i + 1].0 != g[j + 1].0);
            }
        }
        setting_keeps_tellable(f, g[0].0, g[0].1);
        merging_keeps_tellable(with_field(f, g[0].0, g[0].1), rest);
    }
}

/// Whether the statistics of the module in slot `port` can be taken: it has some,
/// is not in low-power mode, and confirms a freeze within the time.
pub open spec fn freezes(a: Answers, u: VdmUtils, port: usize) -> bool {
    &&& reply_true(says(a, port, "is_vdm_statistic_supported"@))
    &&& forall|h: Seq<Ask>| #[trigger] (a.lpmode)(h, port) != Some(true)
    &&& reply_true(says(a, port, "freeze_vdm_stats"@))
    &&& reply_true(says(a, port, "get_vdm_freeze_status"@))
    &&& forall|h: Seq<Ask>, k: Seq<Ask>| #[trigger]
        (a.uptime)(k) < #[trigger] (a.uptime)(h) + u.timeout
}

proof fn steady_real_values<T: DbTable>(
    rows: Rows,
    m: MappingView,
    tr: Trace,
    name: Seq<char>,
    port: usize,
    secs: u64,
    f: Vals,
    x: Seq<char>,
)
    requires
        steady(tr.answers, port, secs),
        m.physical_of(name) == Some(port),
        m.asic_of(name) is Some,
        !reply_true(says(tr.answers, port, "is_flat_memory"@)),
        tellable(f),
        field(f, x) is Some,
    ensures
        value_at(posted_real_values::<T>(rows, m, tr, name, f).0, name, x) == Some(
            py_str(field(f, x)->0),
        ),
{
    let t1 = tr.then_ask(Ask::Stop);
    let t2 = t1.then_ask(Ask::Presence(port));
    let t3 = t2.then_ask(Ask::Json(port, "is_flat_memory"@));
    assert(!tr.stop());
    assert(t1.present(port));
    assert(t2.json(port, "is_flat_memory"@) == says(tr.answers, port, "is_flat_memory"@));
    assert(validated(m, tr, name, true) == (Some(port), t3));
    assert(t3.clock() == secs);
    field_at_first(f, x);
    stamped_row_is_read_back::<T>(rows, name, Beautify::Plain, f, secs, x);
}

/// A pass over a monitored port whose module has observables puts their values in
/// the row of the port: a statistic where the statistics could be taken while
/// frozen and the module reports one, and else the present value.
pub proof fn pass_publishes_the_observables<T: DbTable>(
    th: Seq<AsicRows>,
    m: MappingView,
    tr: Trace,
    u: VdmUtils,
    skip_cmis_mgr: bool,
    port: usize,
    name: Seq<char>,
    a: int,
    secs: u64,
    basic: Vals,
    statistic: Vals,
    x: Seq<char>,
)
    requires
        steady(tr.answers, port, secs),
        seated(m, th, port, name, a),
        monitored(th[a], name, skip_cmis_mgr),
        th[a].vdm.flags.len() == 4,
        reply_true(says(tr.answers, port, "is_transceiver_vdm_supported"@)),
        !reply_true(says(tr.answers, port, "is_flat_memory"@)),
        says(tr.answers, port, "get_transceiver_vdm_real_value_basic"@) matches Some(r) && r.fields
            == Some(basic),
        says(tr.answers, port, "get_transceiver_vdm_real_value_statistic"@) matches Some(r)
            && r.fields == Some(statistic),
        tellable(basic),
        tellable(statistic),
    ensures
        ({
            let after = polled_port::<T>(th, m, tr, u, skip_cmis_mgr, port).0;
            let row_has = value_at(after[a].vdm.real_value, name, x);
            &&& freezes(tr.answers, u, port) && field(statistic, x) is Some ==> row_has == Some(
                py_str(field(statistic, x)->0),
            )
            &&& freezes(tr.answers, u, port) && field(statistic, x) is None && field(
                basic,
                x,
            ) is Some ==> row_has == Some(py_str(field(basic, x)->0))
            &&& !reply_true(says(tr.answers, port, "is_vdm_statistic_supported"@)) && field(
                basic,
                x,
            ) is Some ==> row_has == Some(py_str(field(basic, x)->0))
        }),
{
    let t = poll_parts::<T>(th, m, tr, u, skip_cmis_mgr, port, name, a, secs);
    let t1 = t.5.then_ask(Ask::Json(port, "is_transceiver_vdm_supported"@));
    assert(t.5.json(port, "is_transceiver_vdm_supported"@) == says(
        tr.answers,
        port,
        "is_transceiver_vdm_supported"@,
    ));
    let (pm, taken, t2) = statistics_taken::<T>(th[a].pm, m, t1, u, name, port);
    answers_stay_statistics::<T>(th[a].pm, m, t1, u, name, port);
    assert(t1.json(port, "is_vdm_statistic_supported"@) == says(
        tr.answers,
        port,
        "is_vdm_statistic_supported"@,
    ));
    if freezes(tr.answers, u, port) {
        steady_statistics::<T>(th[a].pm, m, t1, u, name, port, secs);
        assert(taken == statistic);
    }
    if freezes(tr.answers, u, port) || !reply_true(
        says(tr.answers, port, "is_vdm_statistic_supported"@),
    ) {
        let none: Vals = Seq::empty();
        field_at_first(none, "last_update_time"@);
        field_at_first(none, x);
        assert(tellable(none));
        assert(tellable(taken));
        merging_keeps_tellable(none, basic);
        merging_keeps_tellable(with_fields(none, basic), taken);
        merged_value(none, basic, x);
        merged_value(with_fields(none, basic), taken, x);
        let t3 = t2.then_ask(Ask::Json(port, "get_transceiver_vdm_real_value_basic"@));
        assert(t2.json(port, "get_transceiver_vdm_real_value_basic"@) == says(
            tr.answers,
            port,
            "get_transceiver_vdm_real_value_basic"@,
        ));
        let all = merged_values(basic, taken);
        if field(all, x) is Some {
            steady_real_values::<T>(th[a].vdm.real_value, m, t3, name, port, secs, all, x);
        }
        let (shown_values, t4) = posted_real_values::<T>(th[a].vdm.real_value, m, t3, name, all);
        let v = VdmRows {
            real_value: shown_values,
            flags: th[a].vdm.flags,
            thresholds: th[a].vdm.thresholds,
        };
        flags_leave_the_values::<T>(v, m, t4, name);
    }
}

proof fn families_leave_the_values<T: DbTable>(
    v: VdmRows,
    split: Seq<Vals>,
    tr: Trace,
    name: Seq<char>,
    k: nat,
)
    ensures
        posted_families::<T>(v, split, tr, name, true, k).0.real_value == v.real_value,
    decreases 4 - k,
{
    if k < 4 && split[k as int].len() > 0 {
        let f = v.flags[k as int];
        let row = family_row(split[k as int], tr.clock());
        let v1 = VdmRows {
            real_value: v.real_value,
            flags: v.flags.update(
                k as int,
                FlagRows {
                    value: put::<T>(f.value, name, row),
                    change_count: f.change_count,
                    set_time: f.set_time,
                    clear_time: f.clear_time,
                },
            ),
            thresholds: v.thresholds,
        };
        families_leave_the_values::<T>(v1, split, tr.then_ask(Ask::Clock), name, k + 1);
    }
}

proof fn flags_leave_the_values<T: DbTable>(v: VdmRows, m: MappingView, tr: Trace, name: Seq<char>)
    ensures
        posted_vdm::<T>(v, None, m, tr, name, true).0.real_value == v.real_value,
{
    let (port, t1) = validated(m, tr, name, true);
    if let Some(p) = port {
        if let Some(r) = t1.json(p, vdm_getter(true)) {
            if let Some(raw) = r.fields {
                let t2 = t1.then_ask(Ask::Json(p, vdm_getter(true)));
                let split = families_of(raw);
                let noted = VdmRows {
                    real_value: v.real_value,
                    flags: noted_families::<T>(v.flags, split, name, stamp(t2.clock()), 0),
                    thresholds: v.thresholds,
                };
                families_leave_the_values::<T>(noted, split, t2.then_ask(Ask::Clock), name, 0);
            }
        }
    }
}

proof fn steady_statistics<T: DbTable>(
    pm: Rows,
    m: MappingView,
    tr: Trace,
    u: VdmUtils,
    name: Seq<char>,
    port: usize,
    secs: u64,
) -> (t: Trace)
    requires
        steady(tr.answers, port, secs),
        freezes(tr.answers, u, port),
    ensures
        t.answers == tr.answers,
        statistics_taken::<T>(pm, m, tr, u, name, port).1 == object_fields(
            says(tr.answers, port, "get_transceiver_vdm_real_value_statistic"@),
        ),
        statistics_taken::<T>(pm, m, tr, u, name, port).0 == posted_pm::<T>(
            pm,
            None,
            m,
            t,
            name,
        ).0,
{
    let t1 = tr.then_ask(Ask::Json(port, "is_vdm_statistic_supported"@));
    let t2 = t1.then_ask(Ask::Lpmode(port));
    assert(tr.json(port, "is_vdm_statistic_supported"@) == says(
        tr.answers,
        port,
        "is_vdm_statistic_supported"@,
    ));
    assert(!t1.low_power(port));
    let f1 = t2.then_ask(Ask::Json(port, "freeze_vdm_stats"@));
    let f2 = f1.then_ask(Ask::Sleep(u.settle));
    let f3 = f2.then_ask(Ask::Uptime);
    let f4 = f3.then_ask(Ask::Uptime);
    assert(t2.json(port, "freeze_vdm_stats"@) == says(tr.answers, port, "freeze_vdm_stats"@));
    assert((tr.answers.uptime)(f3.asked) < (tr.answers.uptime)(f2.asked) + u.timeout);
    assert(since(f2.uptime(), f3.uptime()) < u.timeout);
    assert(f4.json(port, "get_vdm_freeze_status"@) == says(
        tr.answers,
        port,
        "get_vdm_freeze_status"@,
    ));
    let t3 = f4.then_ask(Ask::Json(port, "get_vdm_freeze_status"@));
    assert(froze(u, t2, port) == (true, t3));
    assert(t3.json(port, "get_transceiver_vdm_real_value_statistic"@) == says(
        tr.answers,
        port,
        "get_transceiver_vdm_real_value_statistic"@,
    ));
    t3.then_ask(Ask::Json(port, "get_transceiver_vdm_real_value_statistic"@))
}

/// A pass over a monitored port whose module has statistics that freeze puts the
/// performance figures that the module reports in the row of the port.
pub proof fn pass_publishes_the_performance<T: DbTable>(
    th: Seq<AsicRows>,
    m: MappingView,
    tr: Trace,
    u: VdmUtils,
    skip_cmis_mgr: bool,
    port: usize,
    name: Seq<char>,
    a: int,
    secs: u64,
    f: Vals,
    x: Seq<char>,
)
    requires
        steady(tr.answers, port, secs),
        seated(m, th, port, name, a),
        monitored(th[a], name, skip_cmis_mgr),
        parsed_i64(name) is None,
        reply_true(says(tr.answers, port, "is_transceiver_vdm_supported"@)),
        !reply_true(says(tr.answers, port, "is_flat_memory"@)),
        freezes(tr.answers, u, port),
        says(tr.answers, port, "get_transceiver_pm"@) matches Some(r) && r.fields == Some(f),
        distinct_names(f),
        field(f, x) is Some,
    ensures
        value_at(polled_port::<T>(th, m, tr, u, skip_cmis_mgr, port).0[a].pm, name, x) == Some(
            py_str(field(f, x)->0),
        ),
{
    let t = poll_parts::<T>(th, m, tr, u, skip_cmis_mgr, port, name, a, secs);
    first_port_sits_on_its_slot(m, port, name);
    let t1 = t.5.then_ask(Ask::Json(port, "is_transceiver_vdm_supported"@));
    assert(t.5.json(port, "is_transceiver_vdm_supported"@) == says(
        tr.answers,
        port,
        "is_transceiver_vdm_supported"@,
    ));
    let s = steady_statistics::<T>(th[a].pm, m, t1, u, name, port, secs);
    let s1 = s.then_ask(Ask::Stop);
    let s2 = s1.then_ask(Ask::Presence(port));
    let s3 = s2.then_ask(Ask::Json(port, "is_flat_memory"@));
    assert(!s.stop());
    assert(s1.present(port));
    assert(s2.json(port, "is_flat_memory"@) == says(tr.answers, port, "is_flat_memory"@));
    assert(s3.json(port, "get_transceiver_pm"@) == says(tr.answers, port, "get_transceiver_pm"@));
    field_at_first(f, x);
    let names = seq![name];
    assert(names.contains(name)) by {
        assert(names[0] == name);
    }
    same_row_for_all::<T>(th[a].pm, names, f, name, x);
    assert(names.skip(1) =~= Seq::empty());
    assert(put_all::<T>(th[a].pm, names, shown_row(Beautify::Plain, f)) == put::<T>(
        th[a].pm,
        name,
        shown_row(Beautify::Plain, f),
    )) by {
        assert(put_all::<T>(
            put::<T>(th[a].pm, name, shown_row(Beautify::Plain, f)),
            names.skip(1),
            shown_row(Beautify::Plain, f),
        ) == put::<T>(th[a].pm, name, shown_row(Beautify::Plain, f)));
    }
}

/// A pass of the temperature task puts the temperature that the module of a port
/// reports in the row of the port, without its unit. The bring-up of the data
/// path does not matter to it.
pub proof fn temperature_is_published<T: DbTable>(
    th: Seq<AsicRows>,
    m: MappingView,
    tr: Trace,
    port: usize,
    name: Seq<char>,
    a: int,
    secs: u64,
)
    requires
        steady(tr.answers, port, secs),
        seated(m, th, port, name, a),
        monitored(th[a], name, true),
        says(tr.answers, port, "get_temperature"@) is Some,
    ensures
        value_at(temperature_polled::<T>(th, m, tr, port).0[a].dom_temperature, name, "temperature"@)
            == Some(unit_stripped(says(tr.answers, port, "get_temperature"@)->0.value, "C"@)),
{
    monitored_is_not_off(th, m, true, port, name, a);
    assert(tr.present(port));
    let v = says(tr.answers, port, "get_temperature"@)->0.value;
    let f: Vals = seq![("temperature"@, v)];
    reveal_strlit("temperature");
    reveal_strlit("last_update_time");
    assert("temperature"@.len() != "last_update_time"@.len());
    crate::json::field_at_is(f, "temperature"@, 0);
    crate::json::field_at_is(f, "last_update_time"@, 1);
    steady_monitor::<T>(
        th[a].dom_temperature,
        m,
        tr.then_ask(Ask::Presence(port)),
        name,
        Reader::Temperature,
        Beautify::Dom,
        port,
        secs,
        f,
        "temperature"@,
    );
}

/// A port that is not monitored keeps all its rows, in a pass and in a re-read,
/// and so do those of every other port.
pub proof fn unmonitored_port_keeps_its_rows<T: DbTable>(
    th: Seq<AsicRows>,
    m: MappingView,
    tr: Trace,
    u: VdmUtils,
    skip_cmis_mgr: bool,
    port: usize,
    name: Seq<char>,
    a: int,
)
    requires
        seated(m, th, port, name, a),
        !monitored(th[a], name, skip_cmis_mgr),
    ensures
        polled_port::<T>(th, m, tr, u, skip_cmis_mgr, port).0 == th,
        reread::<T>(th, m, tr, skip_cmis_mgr, port).0 == th,
{
    monitored_is_not_off(th, m, skip_cmis_mgr, port, name, a);
}

/// A slot without a module leaves all rows as they are, in a pass and in a
/// re-read.
pub proof fn empty_slot_keeps_the_rows<T: DbTable>(
    th: Seq<AsicRows>,
    m: MappingView,
    tr: Trace,
    u: VdmUtils,
    skip_cmis_mgr: bool,
    port: usize,
)
    requires
        forall|h: Seq<Ask>| #[trigger] (tr.answers.presence)(h, port) != Some(true),
    ensures
        polled_port::<T>(th, m, tr, u, skip_cmis_mgr, port).0 == th,
        reread::<T>(th, m, tr, skip_cmis_mgr, port).0 == th,
{
    assert(!tr.present(port));
    assert(!tr.then_ask(Ask::Stop).present(port));
}

} // verus!
