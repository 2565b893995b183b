//! What rows, time stamps and the mapping of ports are for.

use vstd::prelude::*;

use crate::assoc::without;
use crate::bridge::{plain_text, texts_of};
use crate::clock::{
    day_number, days_in_month, is_leap, month_name, stamp, stamp_has_its_date, two_digits,
    valid_date, weekday_name,
};
use crate::db::{first_value, last_value, row_at, row_with, row_without};
use crate::error::{error_text, XcvrdError};
use crate::json::{py_str, Row, Val, Vals};
use crate::port::{removed_port_is_gone, slot_in, MappingView};
use crate::tables::no_rows;
use crate::text::{decimal, digit_char, parsed_i64, parsed_u64, signed_decimal};

verus! {

// ---- rows ----

/// A field that is written is read back, and no other field changes.
pub proof fn written_field_is_read_back(row: Row, f: Seq<char>, v: Seq<char>, g: Seq<char>)
    ensures
        first_value(row_with(row, f, v), g) == (if g == f {
            Some(v)
        } else {
            first_value(row, g)
        }),
    decreases row.len(),
{
    let w = row_with(row, f, v);
    if row.len() == 0 {
        assert(w.skip(1) =~= Row::empty());
        assert(row =~= Row::empty());
        assert(first_value(Row::empty(), g) is None);
    } else if row[0].0 == f {
        assert(w.skip(1) =~= row.skip(1));
        assert(w[0] == (f, v));
    } else {
        written_field_is_read_back(row.skip(1), f, v, g);
        assert(w.skip(1) =~= row_with(row.skip(1), f, v));
        assert(w[0] == row[0]);
    }
}

/// Writing a field that is there keeps the row as long as it was and every field in
/// its place; writing a new one puts it last.
pub proof fn written_field_keeps_its_place(row: Row, f: Seq<char>, v: Seq<char>, i: int)
    requires
        0 <= i < row.len(),
    ensures
        row_with(row, f, v).len() == row.len() + (if first_value(row, f) is Some {
            0int
        } else {
            1int
        }),
        row_with(row, f, v)[i].0 == row[i].0,
        first_value(row, f) is None ==> row_with(row, f, v) == row.push((f, v)),
    decreases row.len(),
{
    let w = row_with(row, f, v);
    let rest = row.skip(1);
    if row[0].0 == f {
        if i > 0 {
            assert(w[i] == rest[i - 1]);
        }
    } else {
        if rest.len() > 0 {
            let k = if i > 0 {
                i - 1
            } else {
                0
            };
            written_field_keeps_its_place(rest, f, v, k);
            if i > 0 {
                assert(w[i] == row_with(rest, f, v)[i - 1]);
                assert(rest[i - 1] == row[i]);
            }
        }
        if first_value(row, f) is None {
            if rest.len() == 0 {
                assert(row_with(rest, f, v) =~= rest.push((f, v)));
            }
            assert(w =~= row.push((f, v)));
        }
    }
}

/// A field that is taken out is not found any more, and no other field changes.
pub proof fn field_taken_out_is_gone(row: Row, f: Seq<char>, g: Seq<char>)
    ensures
        last_value(row_without(row, f), g) == (if g == f {
            None
        } else {
            last_value(row, g)
        }),
    decreases row.len(),
{
    if row.len() > 0 {
        let d = row.drop_last();
        field_taken_out_is_gone(d, f, g);
        if row.last().0 != f {
            let w = row_without(d, f).push(row.last());
            assert(w.drop_last() =~= row_without(d, f));
            assert(w.last() == row.last());
        }
    }
}

/// A value found from the front is that of a field with the name before which no
/// other has it; one found from the back is that of a field behind which no other
/// has it.
pub proof fn values_are_found_from_both_ends(row: Row, f: Seq<char>, v: Seq<char>, i: int)
    requires
        0 <= i < row.len(),
        row[i] == (f, v),
    ensures
        (forall|j: int| 0 <= j < i ==> (#[trigger] row[j]).0 != f) ==> first_value(row, f) == Some(
            v,
        ),
        (forall|j: int| i < j < row.len() ==> (#[trigger] row[j]).0 != f) ==> last_value(row, f)
            == Some(v),
    decreases row.len(),
{
    if forall|j: int| 0 <= j < i ==> (#[trigger] row[j]).0 != f {
        if i > 0 {
            let t = row.skip(1);
            assert(row[0].0 != f);
            assert(t[i - 1] == row[i]);
            assert forall|j: int| 0 <= j < i - 1 implies (#[trigger] t[j]).0 != f by {
                assert(t[j] == row[j + 1]);
            }
            values_are_found_from_both_ends(t, f, v, i - 1);
        }
    }
    if forall|j: int| i < j < row.len() ==> (#[trigger] row[j]).0 != f {
        if i < row.len() - 1 {
            let d = row.drop_last();
            assert(row[row.len() - 1].0 != f);
            assert forall|j: int| i < j < d.len() implies (#[trigger] d[j]).0 != f by {
                assert(d[j] == row[j]);
            }
            values_are_found_from_both_ends(d, f, v, i);
        }
    }
}

/// The text of a value on the way from the platform differs from the one that is
/// published only in how true, false and nothing are spelled.
pub proof fn plain_texts_are_json(v: Val)
    ensures
        v == Val::Bool(true) ==> plain_text(v) == seq!['t', 'r', 'u', 'e'],
        v == Val::Bool(false) ==> plain_text(v) == seq!['f', 'a', 'l', 's', 'e'],
        v is Null ==> plain_text(v) == seq!['n', 'u', 'l', 'l'],
        !(v is Bool) && !(v is Null) ==> plain_text(v) == py_str(v),
{
    reveal_strlit("true");
    reveal_strlit("false");
    reveal_strlit("null");
    assert("true"@ =~= seq!['t', 'r', 'u', 'e']);
    assert("false"@ =~= seq!['f', 'a', 'l', 's', 'e']);
    assert("null"@ =~= seq!['n', 'u', 'l', 'l']);
}

/// The fields of an answer keep their names and their order when they become texts;
/// an answer that is no object has none.
pub proof fn answers_become_texts(f: Vals, i: int)
    requires
        0 <= i < f.len(),
    ensures
        texts_of(Some(f)).len() == f.len(),
        texts_of(Some(f))[i] == (f[i].0, plain_text(f[i].1)),
        texts_of(None).len() == 0,
{
}

/// New tables hold no row.
pub proof fn new_tables_are_empty(key: Seq<char>)
    ensures
        row_at(no_rows().dom, key) is None,
        row_at(no_rows().status, key) is None,
        row_at(no_rows().dom_flags.value, key) is None,
        row_at(no_rows().pm, key) is None,
        row_at(no_rows().cfg_port, key) is None,
        no_rows().vdm.flags.len() == 4,
{
}

/// An error tells where it comes from and what was said there.
pub proof fn errors_name_their_layer(m: String)
    ensures
        error_text(XcvrdError::Bridge(m)) == "platform-bridge error: "@ + m@,
        error_text(XcvrdError::Db(m)) == "state-db error: "@ + m@,
        error_text(XcvrdError::Other(m)) == m@,
{
}

// ---- dates ----

/// A year that can be divided by 4 is a leap year, but of the full centuries only
/// those that can be divided by 400.
pub proof fn leap_years_come_every_four_years(k: int, r: int)
    ensures
        is_leap(400 * k),
        1 <= r <= 3 ==> !is_leap(400 * k + 100 * r),
        0 < r < 25 ==> is_leap(100 * k + 4 * r),
        1 <= r <= 3 ==> !is_leap(4 * k + r),
{
    assert((400 * k) % 4 == 0 && (400 * k) % 400 == 0);
    if 1 <= r <= 3 {
        assert((400 * k + 100 * r) % 100 == 0);
        assert((400 * k + 100 * r) % 400 == 100 * r);
        assert((4 * k + r) % 4 == r);
    }
    if 0 < r < 25 {
        assert((100 * k + 4 * r) % 100 == 4 * r);
        assert((100 * k + 4 * r) % 4 == 0);
    }
}

/// The days follow each other: the day behind a date is the next of its month, the
/// first of the next month behind the last, and New Year behind the last of
/// December. The count begins in 1970.
pub proof fn days_follow_each_other(y: int, m: int, d: int)
    requires
        valid_date(y, m, d),
    ensures
        day_number(1970, 1, 1) == 0,
        day_number(y, m, d + 1) == day_number(y, m, d) + 1,
        d == days_in_month(y, m) && m < 12 ==> day_number(y, m + 1, 1) == day_number(y, m, d) + 1,
        d == 31 && m == 12 ==> day_number(y + 1, 1, 1) == day_number(y, m, d) + 1,
{
    let a = y / 4 - (y - 1) / 4;
    let b = y / 100 - (y - 1) / 100;
    let c = y / 400 - (y - 1) / 400;
    assert(a == (if y % 4 == 0 {
        1int
    } else {
        0int
    }));
    assert(b == (if y % 100 == 0 {
        1int
    } else {
        0int
    }));
    assert(c == (if y % 400 == 0 {
        1int
    } else {
        0int
    }));
    assert(y % 100 == 0 ==> y % 4 == 0);
    assert(y % 400 == 0 ==> y % 100 == 0);
    assert(is_leap(y) ==> a - b + c == 1);
    assert(!is_leap(y) ==> a - b + c == 0);
}

/// February has 28 days, and 29 in a leap year; April, June, September and November
/// have 30, and the other months 31.
pub proof fn months_have_their_days(y: int, m: int)
    ensures
        m == 2 ==> days_in_month(y, m) == (if is_leap(y) {
            29int
        } else {
            28int
        }),
        m == 4 || m == 6 || m == 9 || m == 11 ==> days_in_month(y, m) == 30,
        m == 1 || m == 3 || m == 5 || m == 7 || m == 8 || m == 10 || m == 12 ==> days_in_month(
            y,
            m,
        ) == 31,
{
}

/// A number below a hundred in two digits: what is left of it with a hundred added
/// when the first digit is taken off.
pub open spec fn in_two_digits(n: int) -> Seq<char> {
    decimal((100 + n) as nat).skip(1)
}

proof fn two_digits_are(n: nat)
    requires
        n < 100,
    ensures
        two_digits(n) == in_two_digits(n as int),
        two_digits(n).len() == 2,
{
    let h = 100 + n;
    reveal_with_fuel(decimal, 3);
    assert(h / 10 == 10 + n / 10 && h % 10 == n % 10);
    assert((h / 10) / 10 == 1 && (h / 10) % 10 == n / 10);
    assert(decimal(h) =~= seq![digit_char(1), digit_char(n / 10), digit_char(n % 10)]);
    assert(decimal(h).skip(1) =~= two_digits(n));
}

/// A line of a stamp with given parts, as it is put together.
spec fn line_of(
    w: Seq<char>,
    m: Seq<char>,
    d: Seq<char>,
    h: Seq<char>,
    mi: Seq<char>,
    s: Seq<char>,
    y: Seq<char>,
) -> Seq<char> {
    w + " "@ + m + " "@ + d + " "@ + h + ":"@ + mi + ":"@ + s + " "@ + y
}

proof fn line_has_its_parts(
    w: Seq<char>,
    m: Seq<char>,
    d: Seq<char>,
    h: Seq<char>,
    mi: Seq<char>,
    s: Seq<char>,
    y: Seq<char>,
)
    requires
        w.len() == 3 && m.len() == 3,
        d.len() == 2 && h.len() == 2 && mi.len() == 2 && s.len() == 2,
    ensures
        ({
            let t = line_of(w, m, d, h, mi, s, y);
            &&& t.subrange(0, 3) == w
            &&& t.subrange(4, 7) == m
            &&& t.subrange(8, 10) == d
            &&& t.subrange(11, 13) == h
            &&& t.subrange(14, 16) == mi
            &&& t.subrange(17, 19) == s
            &&& t.skip(20) == y
            &&& t[3] == ' ' && t[7] == ' ' && t[10] == ' ' && t[19] == ' '
            &&& t[13] == ':' && t[16] == ':'
        }),
{
    reveal_strlit(" ");
    reveal_strlit(":");
    let t = line_of(w, m, d, h, mi, s, y);
    let b = seq![w[0], w[1], w[2], ' ', m[0], m[1], m[2], ' ', d[0], d[1], ' '] + seq![
        h[0],
        h[1],
        ':',
        mi[0],
        mi[1],
        ':',
        s[0],
        s[1],
        ' ',
    ] + y;
    assert(t =~= b);
    assert(t.subrange(0, 3) =~= w);
    assert(t.subrange(4, 7) =~= m);
    assert(t.subrange(8, 10) =~= d);
    assert(t.subrange(11, 13) =~= h);
    assert(t.subrange(14, 16) =~= mi);
    assert(t.subrange(17, 19) =~= s);
    assert(t.skip(20) =~= y);
}

proof fn names_have_three_letters(w: int, m: int)
    ensures
        weekday_name(w).len() == 3,
        month_name(m).len() == 3,
{
    reveal_strlit("Sun");
    reveal_strlit("Mon");
    reveal_strlit("Tue");
    reveal_strlit("Wed");
    reveal_strlit("Thu");
    reveal_strlit("Fri");
    reveal_strlit("Sat");
    reveal_strlit("Jan");
    reveal_strlit("Feb");
    reveal_strlit("Mar");
    reveal_strlit("Apr");
    reveal_strlit("May");
    reveal_strlit("Jun");
    reveal_strlit("Jul");
    reveal_strlit("Aug");
    reveal_strlit("Sep");
    reveal_strlit("Oct");
    reveal_strlit("Nov");
    reveal_strlit("Dec");
}

proof fn stamp_is_a_line(y: int, mo: int, d: int, h: int, mi: int, s: int, secs: u64)
    requires
        valid_date(y, mo, d),
        0 <= h < 24,
        0 <= mi < 60,
        0 <= s < 60,
        0 <= day_number(y, mo, d),
        secs == 86_400 * day_number(y, mo, d) + 3_600 * h + 60 * mi + s,
    ensures
        stamp(secs) == line_of(
            weekday_name((day_number(y, mo, d) % 7 + 4) % 7),
            month_name(mo),
            two_digits(d as nat),
            two_digits(h as nat),
            two_digits(mi as nat),
            two_digits(s as nat),
            signed_decimal(y),
        ),
{
    let n = secs as nat;
    let days = day_number(y, mo, d);
    let tod = 3_600 * h + 60 * mi + s;
    assert(n / 86400 == days && n % 86400 == tod);
    assert(tod / 3600 == h && tod % 3600 == 60 * mi + s);
    assert((60 * mi + s) / 60 == mi && tod % 60 == s);
    stamp_has_its_date(secs, y, mo, d);
}

/// A time stamp has its parts in their places: the weekday, the month, the day, the
/// hour, the minute, the second and the year of the moment it is taken from. The
/// weekdays come in turn, with a Thursday as the first day of 1970.
pub proof fn stamp_has_its_parts(y: int, mo: int, d: int, h: int, mi: int, s: int, secs: u64)
    requires
        valid_date(y, mo, d),
        0 <= h < 24,
        0 <= mi < 60,
        0 <= s < 60,
        0 <= day_number(y, mo, d),
        secs == 86_400 * day_number(y, mo, d) + 3_600 * h + 60 * mi + s,
    ensures
        ({
            let t = stamp(secs);
            let w = day_number(y, mo, d) % 7;
            &&& t.subrange(0, 3) == (if w == 0 {
                "Thu"@
            } else if w == 1 {
                "Fri"@
            } else if w == 2 {
                "Sat"@
            } else if w == 3 {
                "Sun"@
            } else if w == 4 {
                "Mon"@
            } else if w == 5 {
                "Tue"@
            } else {
                "Wed"@
            })
            &&& t.subrange(4, 7) == (if mo == 1 {
                "Jan"@
            } else if mo == 2 {
                "Feb"@
            } else if mo == 3 {
                "Mar"@
            } else if mo == 4 {
                "Apr"@
            } else if mo == 5 {
                "May"@
            } else if mo == 6 {
                "Jun"@
            } else if mo == 7 {
                "Jul"@
            } else if mo == 8 {
                "Aug"@
            } else if mo == 9 {
                "Sep"@
            } else if mo == 10 {
                "Oct"@
            } else if mo == 11 {
                "Nov"@
            } else {
                "Dec"@
            })
            &&& t.subrange(8, 10) == in_two_digits(d)
            &&& t.subrange(11, 13) == in_two_digits(h)
            &&& t.subrange(14, 16) == in_two_digits(mi)
            &&& t.subrange(17, 19) == in_two_digits(s)
            &&& t.skip(20) == signed_decimal(y)
            &&& t[3] == ' ' && t[7] == ' ' && t[10] == ' ' && t[19] == ' '
            &&& t[13] == ':' && t[16] == ':'
        }),
{
    stamp_is_a_line(y, mo, d, h, mi, s, secs);
    two_digits_are(d as nat);
    two_digits_are(h as nat);
    two_digits_are(mi as nat);
    two_digits_are(s as nat);
    let w = (day_number(y, mo, d) % 7 + 4) % 7;
    names_have_three_letters(w, mo);
    line_has_its_parts(
        weekday_name(w),
        month_name(mo),
        two_digits(d as nat),
        two_digits(h as nat),
        two_digits(mi as nat),
        two_digits(s as nat),
        signed_decimal(y),
    );
}

// ---- ports and slots ----

/// The first port on a slot stays the first when others are added behind it, and a
/// port that is added to an empty slot is the first there. The slots keep their
/// order, with one that was not in use last.
pub proof fn first_port_stays_first(
    m: MappingView,
    name: Seq<char>,
    physical: usize,
    asic: usize,
    first: Seq<char>,
)
    requires
        !m.seats.dom().contains(name),
    ensures
        ({
            let r = m.more(name, physical, asic);
            &&& m.first_on(physical) == Some(first) ==> r.first_on(physical) == Some(first)
            &&& m.first_on(physical) is None ==> r.first_on(physical) == Some(name)
            &&& m.tenants.dom().contains(physical) ==> r.slots == m.slots
            &&& !m.tenants.dom().contains(physical) ==> r.slots == m.slots.push(physical)
            &&& forall|q: usize| q != physical ==> #[trigger] r.logical_on(q) == m.logical_on(q)
            &&& r.ports == m.ports.push(name)
        }),
{
    let r = m.more(name, physical, asic);
    assert(m.less(name) == m);
    let l = m.logical_on(physical);
    assert(r.logical_on(physical) == l.push(name));
    if l.len() > 0 {
        assert(l.push(name)[0] == l[0]);
    }
}

/// A port that moves to another slot is found there alone, and no other port moves.
pub proof fn moved_port_leaves_its_slot(
    m: MappingView,
    name: Seq<char>,
    physical: usize,
    asic: usize,
    other: Seq<char>,
)
    requires
        m.agrees(),
        other != name,
        m.physical_of(name) matches Some(p) && p != physical,
    ensures
        ({
            let r = m.more(name, physical, asic);
            &&& r.physical_of(name) == Some(physical) && r.asic_of(name) == Some(asic)
            &&& !r.logical_on(m.physical_of(name)->0).contains(name)
            &&& r.physical_of(other) == m.physical_of(other)
            &&& r.asic_of(other) == m.asic_of(other)
        }),
{
    removed_port_is_gone(m, name, other);
}

proof fn leaving_out_keeps_the_order<A>(s: Seq<A>, k: A, i: int, j: int)
    requires
        0 <= i < j < s.len(),
        s[i] != k,
        s[j] != k,
    ensures
        exists|a: int, b: int|
            0 <= a < b < without(s, k).len() && #[trigger] without(s, k)[a] == s[i]
                && #[trigger] without(s, k)[b] == s[j],
    decreases s.len(),
{
    let d = s.drop_last();
    let w = without(s, k);
    if j < s.len() - 1 {
        leaving_out_keeps_the_order(d, k, i, j);
        let v = without(d, k);
        let (a, b) = choose|a: int, b: int|
            0 <= a < b < v.len() && #[trigger] v[a] == d[i] && #[trigger] v[b] == d[j];
        assert(w[a] == s[i] && w[b] == s[j]);
    } else {
        let v = without(d, k);
        crate::assoc::without_leaves_the_others(d, k);
        assert(d[i] == s[i]);
        assert(d.contains(s[i]));
        assert(v.contains(s[i]));
        let a = v.index_of(s[i]);
        assert(w == v.push(s[j]));
        assert(w[a] == s[i] && w[v.len() as int] == s[j]);
    }
}

/// When a port is taken off a slot the others keep their order there, so the first
/// of those that are left is the first then.
pub proof fn removal_keeps_the_order(m: MappingView, name: Seq<char>, i: int, j: int)
    requires
        m.physical_of(name) is Some,
        ({
            let l = m.logical_on(m.physical_of(name)->0);
            0 <= i < j < l.len() && l[i] != name && l[j] != name
        }),
    ensures
        ({
            let p = m.physical_of(name)->0;
            let l = m.logical_on(p);
            let r = m.less(name).logical_on(p);
            exists|a: int, b: int|
                0 <= a < b < r.len() && #[trigger] r[a] == l[i] && #[trigger] r[b] == l[j]
        }),
{
    let p = m.physical_of(name)->0;
    let l = m.logical_on(p);
    leaving_out_keeps_the_order(l, name, i, j);
    let r = without(l, name);
    assert(r.len() > 0);
    assert(m.less(name).logical_on(p) == r);
}

/// A name that spells a number stands for the slot with that number, unless the
/// number is negative or has more than 32 bits; any other name stands for the slot
/// that its port sits on.
pub proof fn numbers_name_slots(m: MappingView, name: Seq<char>, n: i64)
    ensures
        parsed_i64(name) == Some(n) && 0 <= n < 0x1_0000_0000 ==> m.slot_named(name) == Some(
            n as usize,
        ),
        parsed_i64(name) == Some(n) && !(0 <= n < 0x1_0000_0000) ==> m.slot_named(name)
            == m.physical_of(name),
        parsed_i64(name) is None ==> m.slot_named(name) == m.physical_of(name),
{
}

/// A slot is the number that the index of a row spells.
pub proof fn index_names_the_slot(row: Row, s: Seq<char>, n: u64)
    requires
        first_value(row, "index"@) == Some(s),
    ensures
        parsed_u64(s) == Some(n) && n <= usize::MAX ==> slot_in(row) == Some(n as usize),
        parsed_u64(s) is None ==> slot_in(row) is None,
        slot_in(Row::empty()) is None,
{
}

} // verus!
