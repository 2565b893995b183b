//! What the work on texts and values is for: what is taken apart can be put
//! together again, and what is written can be read back.

use vstd::prelude::*;

use crate::json::{
    filled_fields, json_of, json_quoted, members_written, object_reply, object_written, py_str,
    reply_true, truthy, unit_stripped, ReplyView, Row, Val, Vals,
};
use crate::text::{
    all_digits, before, decimal, decimal_reads_back, digits_value, is_digit, is_space, occurs,
    occurs_at, parsed_i64, parsed_u32, parsed_u64, parts, replaced, signed_decimal, trimmed,
    trimmed_end, trimmed_start, without_suffix,
};

verus! {

// ---- numbers ----

/// A number is written with its last digit last: ten times a number and a digit is
/// the text of the number with the digit behind it.
pub proof fn digits_stand_in_order(n: nat, d: nat)
    requires
        d < 10,
    ensures
        decimal(d).len() == 1 && decimal(d)[0] as u32 == 48 + d,
        n > 0 ==> decimal(10 * n + d) == decimal(n) + decimal(d),
{
    if n > 0 {
        assert((10 * n + d) / 10 == n && (10 * n + d) % 10 == d);
        assert(decimal(10 * n + d) =~= decimal(n) + decimal(d));
    }
}

/// A number other than zero has no leading zero.
pub proof fn no_leading_zero(n: nat)
    requires
        n > 0,
    ensures
        decimal(n)[0] != '0',
    decreases n,
{
    if n >= 10 {
        no_leading_zero(n / 10);
        decimal_reads_back(n / 10);
    }
}

/// A negative number is written with a minus sign before the number without it.
pub proof fn sign_stands_first(n: int)
    ensures
        n >= 0 ==> signed_decimal(n) == decimal(n as nat),
        n < 0 ==> signed_decimal(n) == seq!['-'] + signed_decimal(-n),
{
}

/// Digits behind others count ten times less each.
pub proof fn digits_have_places(s: Seq<char>, c: char)
    requires
        is_digit(c),
    ensures
        digits_value(s.push(c)) == 10 * digits_value(s) + (c as u32 - 48),
        digits_value(Seq::empty()) == 0,
{
    assert(s.push(c).drop_last() =~= s);
}

/// A run of digits is parsed as its number where that fits, with a plus sign or
/// without. A minus sign makes it negative where a number may be.
pub proof fn signs_are_parsed(s: Seq<char>)
    requires
        s.len() > 0,
        all_digits(s),
    ensures
        ({
            let v = digits_value(s);
            let plus = seq!['+'] + s;
            let minus = seq!['-'] + s;
            &&& parsed_i64(s) == (if v <= i64::MAX {
                Some(v as i64)
            } else {
                None
            })
            &&& parsed_i64(plus) == parsed_i64(s)
            &&& parsed_i64(minus) == (if -v >= i64::MIN {
                Some((-v) as i64)
            } else {
                None
            })
            &&& parsed_u32(s) == (if v <= u32::MAX {
                Some(v as u32)
            } else {
                None
            })
            &&& parsed_u32(plus) == parsed_u32(s)
            &&& parsed_u32(minus) is None
            &&& parsed_u64(s) == (if v <= u64::MAX {
                Some(v as u64)
            } else {
                None
            })
            &&& parsed_u64(plus) == parsed_u64(s)
            &&& parsed_u64(minus) is None
        }),
{
    let plus = seq!['+'] + s;
    let minus = seq!['-'] + s;
    assert(plus.skip(1) =~= s);
    assert(minus.skip(1) =~= s);
    assert(is_digit(s[0]));
}

/// Anything but digits, behind a sign at most, is no number.
pub proof fn other_texts_are_no_numbers(s: Seq<char>, i: int)
    requires
        s.len() == 0 || 0 <= i < s.len() && !is_digit(s[i]) && (i > 0 || s[0] != '+' && s[0] != '-'
            || s.len() == 1),
    ensures
        parsed_i64(s) is None,
        parsed_u32(s) is None,
        parsed_u64(s) is None,
{
    if s.len() > 0 && (s[0] == '+' || s[0] == '-') {
        let body = s.skip(1);
        if s.len() > 1 {
            assert(body[i - 1] == s[i]);
        }
    }
}

// ---- whitespace ----

/// Whether every character of a text is whitespace.
pub open spec fn all_spaces(s: Seq<char>) -> bool {
    forall|i: int| 0 <= i < s.len() ==> is_space(#[trigger] s[i])
}

proof fn start_is_trimmed(s: Seq<char>) -> (a: Seq<char>)
    ensures
        all_spaces(a),
        s == a + trimmed_start(s),
        trimmed_start(s).len() > 0 ==> !is_space(trimmed_start(s)[0]),
    decreases s.len(),
{
    if s.len() > 0 && is_space(s[0]) {
        let a = start_is_trimmed(s.skip(1));
        let r = seq![s[0]] + a;
        assert(s =~= seq![s[0]] + s.skip(1));
        assert(s =~= r + trimmed_start(s));
        assert forall|i: int| 0 <= i < r.len() implies is_space(#[trigger] r[i]) by {
            if i > 0 {
                assert(r[i] == a[i - 1]);
            }
        }
        r
    } else {
        assert(s =~= Seq::<char>::empty() + s);
        Seq::empty()
    }
}

proof fn end_is_trimmed(s: Seq<char>) -> (b: Seq<char>)
    ensures
        all_spaces(b),
        s == trimmed_end(s) + b,
        trimmed_end(s).len() > 0 ==> !is_space(trimmed_end(s).last()),
    decreases s.len(),
{
    if s.len() > 0 && is_space(s.last()) {
        let b = end_is_trimmed(s.drop_last());
        let r = b.push(s.last());
        assert(s =~= s.drop_last().push(s.last()));
        assert(s =~= trimmed_end(s) + r);
        assert forall|i: int| 0 <= i < r.len() implies is_space(#[trigger] r[i]) by {
            if i < b.len() {
                assert(r[i] == b[i]);
            }
        }
        r
    } else {
        assert(s =~= s + Seq::<char>::empty());
        Seq::empty()
    }
}

/// Trimming takes off whitespace at both ends, all of it and nothing else.
pub proof fn trimming_takes_off_spaces(s: Seq<char>)
    ensures
        exists|a: Seq<char>, b: Seq<char>| #[trigger]
            all_spaces(a) && #[trigger] all_spaces(b) && s == a + trimmed(s) + b,
        trimmed(s).len() > 0 ==> !is_space(trimmed(s)[0]) && !is_space(trimmed(s).last()),
{
    let a = start_is_trimmed(s);
    let m = trimmed_start(s);
    let b = end_is_trimmed(m);
    assert(s =~= a + trimmed(s) + b);
    if trimmed(s).len() > 0 {
        assert(m[0] == (trimmed(s) + b)[0]);
    }
    assert(all_spaces(a) && all_spaces(b));
}

/// A text without whitespace at its ends stays as it is.
pub proof fn trimmed_text_stays(s: Seq<char>)
    requires
        s.len() > 0 ==> !is_space(s[0]) && !is_space(s.last()),
    ensures
        trimmed(s) == s,
{
}

/// Blanks, tabs and the ends of lines are whitespace, and no other character of
/// ASCII is. Beyond ASCII the next line, the blanks that do not break or have a
/// width of their own, and the separators of lines and paragraphs are.
pub proof fn blanks_are_spaces(c: char)
    ensures
        c as u32 <= 0x7f ==> (is_space(c) <==> c == ' ' || '\t' <= c <= '\r'),
        c == '\u{85}' || c == '\u{a0}' || c == '\u{1680}' || c == '\u{202f}' || c == '\u{205f}' || c
            == '\u{3000}' ==> is_space(c),
        '\u{2000}' <= c <= '\u{200a}' || c == '\u{2028}' || c == '\u{2029}' ==> is_space(c),
        is_space(c) && c as u32 > 0x7f ==> c == '\u{85}' || c == '\u{a0}' || c == '\u{1680}'
            || '\u{2000}' <= c <= '\u{200a}' || c == '\u{2028}' || c == '\u{2029}' || c
            == '\u{202f}' || c == '\u{205f}' || c == '\u{3000}',
{
}

// ---- parts of a text ----

/// What a text ends in is taken off, and only that.
pub proof fn suffix_is_taken_off(s: Seq<char>, p: Seq<char>)
    ensures
        without_suffix(s + p, p) == Some(s),
        without_suffix(s, p) matches Some(t) ==> t + p == s,
{
    let w = s + p;
    assert(w.subrange(s.len() as int, w.len() as int) =~= p);
    assert(w.take(s.len() as int) =~= s);
    if let Some(t) = without_suffix(s, p) {
        let n = s.len() - p.len();
        assert(s =~= s.take(n) + s.subrange(n, n + p.len()));
    }
}

/// The parts of a text with the separator between them.
pub open spec fn joined(p: Seq<Seq<char>>, c: char) -> Seq<char>
    decreases p.len(),
{
    if p.len() == 0 {
        Seq::empty()
    } else if p.len() == 1 {
        p[0]
    } else {
        joined(p.drop_last(), c).push(c) + p.last()
    }
}

proof fn joining_a_longer_last(p: Seq<Seq<char>>, c: char, x: char)
    requires
        p.len() > 0,
    ensures
        joined(p.drop_last().push(p.last().push(x)), c) == joined(p, c).push(x),
{
    let q = p.drop_last().push(p.last().push(x));
    assert(q.drop_last() =~= p.drop_last());
    assert(q.last() == p.last().push(x));
    if p.len() > 1 {
        assert(joined(q, c) =~= joined(p, c).push(x));
    }
}

/// A text is its parts with the separator between them, and no part has the
/// separator in it.
pub proof fn parts_are_joined(s: Seq<char>, c: char)
    ensures
        joined(parts(s, c), c) == s,
        parts(s, c).len() > 0,
        forall|i: int| 0 <= i < parts(s, c).len() ==> !(#[trigger] parts(s, c)[i]).contains(c),
    decreases s.len(),
{
    if s.len() == 0 {
        assert(s =~= Seq::empty());
    } else {
        let front = s.drop_last();
        let p = parts(front, c);
        parts_are_joined(front, c);
        let q = parts(s, c);
        if s.last() == c {
            assert(q.drop_last() =~= p);
            assert(joined(q, c) =~= s);
            assert forall|i: int| 0 <= i < q.len() implies !(#[trigger] q[i]).contains(c) by {
                if i < p.len() {
                    assert(q[i] == p[i]);
                }
            }
        } else {
            joining_a_longer_last(p, c, s.last());
            assert(s =~= front.push(s.last()));
            assert forall|i: int| 0 <= i < q.len() implies !(#[trigger] q[i]).contains(c) by {
                if i < p.len() - 1 {
                    assert(q[i] == p[i]);
                } else {
                    let l = p.last();
                    assert(!p[p.len() - 1].contains(c));
                    if q[i].contains(c) {
                        let k = q[i].index_of(c);
                        if k < l.len() {
                            assert(l[k] == c);
                        }
                    }
                }
            }
        }
    }
}

/// Where a text does not occur nothing is replaced, and where one is met first the
/// replacement stands for it and the rest is gone through in turn.
pub proof fn occurrences_are_replaced(a: Seq<char>, p: Seq<char>, b: Seq<char>, r: Seq<char>)
    requires
        p.len() > 0,
        forall|i: int| 0 <= i < a.len() ==> !#[trigger] occurs_at(a + p + b, p, i),
    ensures
        replaced(a + p + b, p, r) == a + r + replaced(b, p, r),
    decreases a.len(),
{
    let s = a + p + b;
    if a.len() == 0 {
        assert(s.subrange(0, p.len() as int) =~= p);
        assert(occurs_at(s, p, 0));
        assert(s.skip(p.len() as int) =~= b);
        assert(a + r + replaced(b, p, r) =~= r + replaced(b, p, r));
    } else {
        assert(!occurs_at(s, p, 0));
        let a1 = a.skip(1);
        let s1 = a1 + p + b;
        assert(s.skip(1) =~= s1);
        assert(s[0] == a[0]);
        assert forall|i: int| 0 <= i < a1.len() implies !#[trigger] occurs_at(s1, p, i) by {
            if occurs_at(s1, p, i) {
                assert(s.subrange(i + 1, i + 1 + p.len()) =~= s1.subrange(i, i + p.len()));
                assert(occurs_at(s, p, i + 1));
            }
        }
        occurrences_are_replaced(a1, p, b, r);
        assert(a + r + replaced(b, p, r) =~= seq![a[0]] + (a1 + r + replaced(b, p, r)));
    }
}

/// A text that does not occur is not replaced.
pub proof fn nothing_is_replaced(s: Seq<char>, p: Seq<char>, r: Seq<char>)
    requires
        !occurs(s, p),
    ensures
        replaced(s, p, r) == s,
    decreases s.len(),
{
    if s.len() > 0 && p.len() > 0 {
        assert(!occurs_at(s, p, 0));
        let s1 = s.skip(1);
        if occurs(s1, p) {
            let i = choose|i: int| occurs_at(s1, p, i);
            assert(s.subrange(i + 1, i + 1 + p.len()) =~= s1.subrange(i, i + p.len()));
            assert(occurs_at(s, p, i + 1));
        }
        nothing_is_replaced(s1, p, r);
        assert(seq![s[0]] + s1 =~= s);
    }
}

/// Texts are ordered by their first difference, and a text stands before those
/// that go on from it.
pub proof fn first_difference_decides(
    p: Seq<char>,
    x: char,
    y: char,
    a: Seq<char>,
    b: Seq<char>,
)
    ensures
        x != y ==> before(p.push(x) + a, p.push(y) + b) == (x < y),
        before(p, p.push(x) + a),
        !before(p.push(x) + a, p),
    decreases p.len(),
{
    let s = p.push(x) + a;
    let t = p.push(y) + b;
    if p.len() > 0 {
        let q = p.skip(1);
        first_difference_decides(q, x, y, a, b);
        assert(s.skip(1) =~= q.push(x) + a);
        assert(t.skip(1) =~= q.push(y) + b);
        assert(s[0] == p[0] && t[0] == p[0]);
    } else {
        assert(s[0] == x && t[0] == y);
    }
}

// ---- values ----

/// A text is published without its unit where it ends in it and as it is where it
/// does not. What is no text has no unit.
pub proof fn unit_is_taken_off(s: Seq<char>, unit: Seq<char>, b: bool)
    ensures
        unit_stripped(Val::Str(s + unit), unit) == s,
        !occurs_at(s, unit, s.len() - unit.len()) ==> unit_stripped(Val::Str(s), unit) == s,
        unit_stripped(Val::Bool(b), unit) == py_str(Val::Bool(b)),
        unit_stripped(Val::Null, unit) == py_str(Val::Null),
{
    suffix_is_taken_off(s, unit);
}

/// Values are published in the spelling of Python, where true, false and nothing
/// begin with a capital; every other value is published as its text.
pub proof fn values_are_spelled(v: Val)
    ensures
        v == Val::Bool(true) ==> py_str(v) == seq!['T', 'r', 'u', 'e'],
        v == Val::Bool(false) ==> py_str(v) == seq!['F', 'a', 'l', 's', 'e'],
        v is Null ==> py_str(v) == seq!['N', 'o', 'n', 'e'],
        v matches Val::Str(s) ==> py_str(v) == s,
        v matches Val::Number { text, .. } ==> py_str(v) == text,
        v matches Val::Nested { text, .. } ==> py_str(v) == text,
{
    reveal_strlit("True");
    reveal_strlit("False");
    reveal_strlit("None");
    assert("True"@ =~= seq!['T', 'r', 'u', 'e']);
    assert("False"@ =~= seq!['F', 'a', 'l', 's', 'e']);
    assert("None"@ =~= seq!['N', 'o', 'n', 'e']);
}

/// Nothing, false itself, zero, the empty text and the empty list or object are taken
/// for false, and every other value for true.
pub proof fn empty_values_are_false(v: Val)
    ensures
        v matches Val::Bool(b) ==> truthy(v) == b,
        v is Null ==> !truthy(v),
        v matches Val::Number { zero, .. } ==> truthy(v) != zero,
        v matches Val::Str(s) ==> (truthy(v) <==> s != Seq::<char>::empty()),
        v matches Val::Nested { empty, .. } ==> truthy(v) != empty,
        !reply_true(None),
{
    if let Val::Str(s) = v {
        if s.len() == 0 {
            assert(s =~= Seq::<char>::empty());
        }
    }
}

/// An answer without fields gives none, and no more does one that is no object.
pub proof fn empty_answers_give_nothing(r: ReplyView, f: Vals)
    ensures
        r.fields is None ==> filled_fields(Some(r)) is None,
        r.fields == Some(f) && f.len() > 0 ==> filled_fields(Some(r)) == Some(f),
        r.fields == Some(f) && f.len() == 0 ==> filled_fields(Some(r)) is None,
        filled_fields(None) is None,
{
}

/// The members of an object stand in order with a comma between each two.
pub proof fn members_stand_in_order(a: Row, b: Row)
    requires
        a.len() > 0,
        b.len() > 0,
    ensures
        members_written(a + b) == members_written(a) + ","@ + members_written(b),
    decreases b.len(),
{
    let s = a + b;
    let m = b.last().0 + ":"@ + b.last().1;
    assert(s.last() == b.last());
    if b.len() == 1 {
        assert(s.drop_last() =~= a);
    } else {
        members_stand_in_order(a, b.drop_last());
        assert(s.drop_last() =~= a + b.drop_last());
        assert(members_written(s) =~= members_written(a) + ","@ + members_written(b));
    }
}

/// An object stands in braces, and a member is its name, a colon and its value.
pub proof fn objects_stand_in_braces(name: Seq<char>, value: Seq<char>, all: Row)
    ensures
        object_written(all) == seq!['{'] + members_written(all) + seq!['}'],
        members_written(seq![(name, value)]) == name + seq![':'] + value,
        members_written(Seq::empty()) == Seq::<char>::empty(),
{
    reveal_strlit("{");
    reveal_strlit("}");
    reveal_strlit(":");
    assert("{"@ =~= seq!['{']);
    assert("}"@ =~= seq!['}']);
    assert(":"@ =~= seq![':']);
    let one = seq![(name, value)];
    assert(one.last() == (name, value));
}

/// The JSON text of a value: a text in quotes, true, false and nothing in small
/// letters, and every other value as it is.
pub proof fn json_values_are_spelled(v: Val)
    ensures
        v == Val::Bool(true) ==> json_of(v) == seq!['t', 'r', 'u', 'e'],
        v == Val::Bool(false) ==> json_of(v) == seq!['f', 'a', 'l', 's', 'e'],
        v is Null ==> json_of(v) == seq!['n', 'u', 'l', 'l'],
        v matches Val::Str(s) ==> json_of(v) == json_quoted(s),
        v matches Val::Number { text, .. } ==> json_of(v) == text,
        v matches Val::Nested { text, .. } ==> json_of(v) == text,
{
    reveal_strlit("true");
    reveal_strlit("false");
    reveal_strlit("null");
    assert("true"@ =~= seq!['t', 'r', 'u', 'e']);
    assert("false"@ =~= seq!['f', 'a', 'l', 's', 'e']);
    assert("null"@ =~= seq!['n', 'u', 'l', 'l']);
}

/// An answer that is an object has the fields and, as its value, the text of the
/// object with a member for each of them. It counts as empty where it has none.
pub proof fn object_answers_are_whole(f: Vals)
    ensures
        object_reply(f).fields == Some(f),
        object_reply(f).value matches Val::Nested { text, empty } && empty == (f.len() == 0)
            && text == object_written(
            f.map_values(|p: (Seq<char>, Val)| (json_quoted(p.0), json_of(p.1))),
        ),
        reply_true(Some(object_reply(f))) == (f.len() > 0),
{
    assert(crate::json::member_texts(f) =~= f.map_values(
        |p: (Seq<char>, Val)| (json_quoted(p.0), json_of(p.1)),
    ));
}

} // verus!
