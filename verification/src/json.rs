//! What the modules answer, as plain values.
//!
//! A module getter answers with JSON. The library reads a dictionary of named
//! values one level deep; of anything nested deeper it only ever needs the
//! text and whether it is empty. The types here hold exactly that.

use vstd::prelude::*;

use crate::text::{owned, str_eq, strip_suffix, without_suffix};

verus! {

/// A JSON number: its text, whether it is zero, and its value where it is an
/// unsigned integer of 64 bits.
#[derive(Debug, PartialEq)]
pub struct Number {
    pub text: String,
    pub zero: bool,
    pub unsigned: Option<u64>,
}

/// An array or an object inside a reply: its JSON text and whether it is empty.
#[derive(Debug, PartialEq)]
pub struct Nested {
    pub text: String,
    pub empty: bool,
}

/// One JSON value.
#[derive(Debug, PartialEq)]
pub enum Value {
    Null,
    Bool(bool),
    Number(Number),
    Str(String),
    Nested(Nested),
}

/// [`Value`] as contracts see it.
pub enum Val {
    Null,
    Bool(bool),
    Number { text: Seq<char>, zero: bool, unsigned: Option<u64> },
    Str(Seq<char>),
    Nested { text: Seq<char>, empty: bool },
}

impl View for Value {
    type V = Val;

    open spec fn view(&self) -> Val {
        match *self {
            Value::Null => Val::Null,
            Value::Bool(b) => Val::Bool(b),
            Value::Number(n) => Val::Number { text: n.text@, zero: n.zero, unsigned: n.unsigned },
            Value::Str(s) => Val::Str(s@),
            Value::Nested(n) => Val::Nested { text: n.text@, empty: n.empty },
        }
    }
}

/// The named values of an object, in order.
pub type Fields = Vec<(String, Value)>;

/// [`Fields`] as contracts see them.
pub type Vals = Seq<(Seq<char>, Val)>;

/// The named values that a list of fields holds.
pub open spec fn vals(f: Seq<(String, Value)>) -> Vals {
    f.map_values(|p: (String, Value)| (p.0@, p.1@))
}

/// What a module getter answered: the value, and its fields where it is an
/// object.
#[derive(Debug, PartialEq)]
pub struct Reply {
    pub value: Value,
    pub fields: Option<Fields>,
}

/// [`Reply`] as the contracts see it.
pub struct ReplyView {
    pub value: Val,
    pub fields: Option<Vals>,
}

impl View for Reply {
    type V = ReplyView;

    open spec fn view(&self) -> ReplyView {
        ReplyView {
            value: self.value@,
            fields: match self.fields {
                Some(f) => Some(vals(f@)),
                None => None,
            },
        }
    }
}

/// The view of an optional reply.
pub open spec fn reply_view(r: Option<Reply>) -> Option<ReplyView> {
    match r {
        Some(r) => Some(r@),
        None => None,
    }
}

/// A database row: field names and texts, in order.
pub type Row = Seq<(Seq<char>, Seq<char>)>;

/// A row as it is handed to a table.
pub type Fvs = Vec<(String, String)>;

/// The row that a list of field/value strings stands for.
pub open spec fn row_of(fvs: Seq<(String, String)>) -> Row {
    fvs.map_values(|p: (String, String)| (p.0@, p.1@))
}

impl Clone for Number {
    fn clone(&self) -> (r: Self)
        ensures
            r == *self,
    {
        Number { text: self.text.clone(), zero: self.zero, unsigned: self.unsigned }
    }
}

impl Clone for Nested {
    fn clone(&self) -> (r: Self)
        ensures
            r == *self,
    {
        Nested { text: self.text.clone(), empty: self.empty }
    }
}

impl Clone for Value {
    fn clone(&self) -> (r: Self)
        ensures
            r == *self,
    {
        match self {
            Value::Null => Value::Null,
            Value::Bool(b) => Value::Bool(*b),
            Value::Number(n) => Value::Number(n.clone()),
            Value::Str(s) => Value::Str(s.clone()),
            Value::Nested(n) => Value::Nested(n.clone()),
        }
    }
}

/// A copy of the fields.
pub fn clone_fields(f: &Fields) -> (r: Fields)
    ensures
        r@ == f@,
{
    let mut r: Fields = Vec::new();
    let mut i: usize = 0;
    while i < f.len()
        invariant
            i <= f@.len(),
            r@ == f@.take(i as int),
        decreases f.len() - i,
    {
        let p = (f[i].0.clone(), f[i].1.clone());
        r.push(p);
        i += 1;
        assert(f@.take(i as int) =~= f@.take(i - 1).push(f@[i - 1]));
    }
    assert(f@.take(i as int) =~= f@);
    r
}

impl Clone for Reply {
    fn clone(&self) -> (r: Self)
        ensures
            r@ == self@,
    {
        Reply {
            value: self.value.clone(),
            fields: match &self.fields {
                Some(f) => Some(clone_fields(f)),
                None => None,
            },
        }
    }
}

// ---- objects ----

/// A text in double quotes, with what JSON does not allow in a string escaped, as
/// `serde_json` writes it.
pub uninterp spec fn json_quoted(s: Seq<char>) -> Seq<char>;

/// Writes a text as a JSON string: the text that the `Display` impl of
/// `serde_json::Value` gives for a `String` value. It depends on the text alone;
/// which characters are escaped, and how, is left unsaid.
#[verifier::external_body]
fn quoted(s: &str) -> (r: String)
    ensures
        r@ == json_quoted(s@),
{
    serde_json::Value::String(s.to_owned()).to_string()
}

/// The JSON text of a value.
pub open spec fn json_of(v: Val) -> Seq<char> {
    match v {
        Val::Null => "null"@,
        Val::Bool(b) => if b {
            "true"@
        } else {
            "false"@
        },
        Val::Number { text, .. } => text,
        Val::Str(s) => json_quoted(s),
        Val::Nested { text, .. } => text,
    }
}

/// The JSON text of a value.
fn json_of_value(v: &Value) -> (r: String)
    ensures
        r@ == json_of(v@),
{
    match v {
        Value::Null => owned("null"),
        Value::Bool(b) => if *b {
            owned("true")
        } else {
            owned("false")
        },
        Value::Number(n) => n.text.clone(),
        Value::Str(s) => quoted(s.as_str()),
        Value::Nested(n) => n.text.clone(),
    }
}

/// Members one after the other, each a quoted name and the text of a value.
pub open spec fn members_written(parts: Row) -> Seq<char>
    decreases parts.len(),
{
    if parts.len() == 0 {
        Seq::empty()
    } else {
        let front = members_written(parts.drop_last());
        let member = parts.last().0 + ":"@ + parts.last().1;
        if parts.len() == 1 {
            member
        } else {
            front + ","@ + member
        }
    }
}

/// The JSON text of the object with the given members, each a quoted name and
/// the text of a value.
pub open spec fn object_written(parts: Row) -> Seq<char> {
    "{"@ + members_written(parts) + "}"@
}

/// Writes the JSON text of an object. Each member is a name, already quoted, and
/// the text of a value.
pub fn write_object(parts: &Fvs) -> (r: String)
    ensures
        r@ == object_written(row_of(parts@)),
{
    let ghost row = row_of(parts@);
    let mut out = owned("{");
    let mut i: usize = 0;
    assert(row.take(0) =~= Seq::empty());
    assert(out@ =~= "{"@ + members_written(row.take(0)));
    while i < parts.len()
        invariant
            i <= parts@.len(),
            row == row_of(parts@),
            out@ == "{"@ + members_written(row.take(i as int)),
        decreases parts.len() - i,
    {
        let ghost before = members_written(row.take(i as int));
        assert(row.take(i + 1).drop_last() =~= row.take(i as int));
        if i > 0 {
            out.append(",");
        }
        out.append(parts[i].0.as_str());
        out.append(":");
        out.append(parts[i].1.as_str());
        proof {
            let member = row[i as int].0 + ":"@ + row[i as int].1;
            assert(members_written(row.take(i + 1)) == (if i == 0 {
                member
            } else {
                before + ","@ + member
            }));
            if i == 0 {
                assert(before =~= Seq::<char>::empty());
            }
            assert(out@ =~= "{"@ + members_written(row.take(i + 1)));
        }
        i += 1;
    }
    assert(row.take(i as int) =~= row);
    out.append("}");
    out
}

/// The members of an object as they are written.
pub open spec fn member_texts(f: Vals) -> Row {
    f.map_values(|p: (Seq<char>, Val)| (json_quoted(p.0), json_of(p.1)))
}

/// The answer that is the object with the fields `f`.
pub open spec fn object_reply(f: Vals) -> ReplyView {
    ReplyView {
        value: Val::Nested { text: object_written(member_texts(f)), empty: f.len() == 0 },
        fields: Some(f),
    }
}

/// An answer that is the object with the given fields.
pub fn object_of(f: Fields) -> (r: Reply)
    ensures
        r@ == object_reply(vals(f@)),
{
    let ghost want = member_texts(vals(f@));
    let mut parts: Fvs = Vec::new();
    let mut i: usize = 0;
    assert(row_of(parts@) =~= want.take(0));
    while i < f.len()
        invariant
            i <= f@.len(),
            want == member_texts(vals(f@)),
            row_of(parts@) == want.take(i as int),
        decreases f.len() - i,
    {
        let ghost before = parts@;
        parts.push((quoted(f[i].0.as_str()), json_of_value(&f[i].1)));
        i += 1;
        assert(row_of(parts@) =~= row_of(before).push(want[i - 1]));
        assert(want.take(i as int) =~= want.take(i - 1).push(want[i - 1]));
    }
    assert(want.take(i as int) =~= want);
    let text = write_object(&parts);
    let empty = f.len() == 0;
    Reply { value: Value::Nested(Nested { text, empty }), fields: Some(f) }
}

/// The answer that is an object without fields.
pub open spec fn empty_object() -> ReplyView {
    object_reply(Seq::empty())
}

/// An answer that is an object without fields.
pub fn no_fields() -> (r: Reply)
    ensures
        r@ == empty_object(),
{
    let f: Fields = Vec::new();
    assert(vals(f@) =~= Seq::<(Seq<char>, Val)>::empty());
    object_of(f)
}

/// Whether an answer holds one thing: where it has fields, its value is the
/// object with them.
pub open spec fn is_whole(r: ReplyView) -> bool {
    match r.fields {
        Some(f) => r == object_reply(f),
        None => true,
    }
}

/// A copy of an optional reply.
pub fn clone_reply(r: &Option<Reply>) -> (c: Option<Reply>)
    ensures
        reply_view(c) == reply_view(*r),
{
    match r {
        Some(x) => Some(x.clone()),
        None => None,
    }
}

// ---- the text of a value ----

/// The text that a value is published with: booleans and null in Python's
/// spelling, strings as they are, everything else as its JSON text.
pub open spec fn py_str(v: Val) -> Seq<char> {
    match v {
        Val::Null => "None"@,
        Val::Bool(b) => if b {
            "True"@
        } else {
            "False"@
        },
        Val::Number { text, .. } => text,
        Val::Str(s) => s,
        Val::Nested { text, .. } => text,
    }
}

/// The text that a value is published with.
pub fn value_to_py_str(v: &Value) -> (r: String)
    ensures
        r@ == py_str(v@),
{
    match v {
        Value::Null => owned("None"),
        Value::Bool(b) => if *b {
            owned("True")
        } else {
            owned("False")
        },
        Value::Number(n) => n.text.clone(),
        Value::Str(s) => s.clone(),
        Value::Nested(n) => n.text.clone(),
    }
}

/// The text of a value without the unit that a string value ends in.
pub open spec fn unit_stripped(v: Val, unit: Seq<char>) -> Seq<char> {
    match v {
        Val::Str(s) => match without_suffix(s, unit) {
            Some(t) => t,
            None => s,
        },
        _ => py_str(v),
    }
}

/// Takes the unit off a string value; any other value gives its text.
pub fn strip_unit(v: &Value, unit: &str) -> (r: String)
    ensures
        r@ == unit_stripped(v@, unit@),
{
    if let Value::Str(s) = v {
        if let Some(t) = strip_suffix(s.as_str(), unit) {
            return t;
        }
    }
    value_to_py_str(v)
}

/// Python truthiness: zero, the empty string, the empty container, null and
/// false are false.
pub open spec fn truthy(v: Val) -> bool {
    match v {
        Val::Null => false,
        Val::Bool(b) => b,
        Val::Number { zero, .. } => !zero,
        Val::Str(s) => s.len() > 0,
        Val::Nested { empty, .. } => !empty,
    }
}

/// Python truthiness of a value.
pub fn py_truthy(v: &Value) -> (r: bool)
    ensures
        r == truthy(v@),
{
    match v {
        Value::Null => false,
        Value::Bool(b) => *b,
        Value::Number(n) => !n.zero,
        Value::Str(s) => !s.as_str().is_empty(),
        Value::Nested(n) => !n.empty,
    }
}

/// Whether a getter answered, and answered with something true.
pub open spec fn reply_true(r: Option<ReplyView>) -> bool {
    match r {
        Some(v) => truthy(v.value),
        None => false,
    }
}

/// Whether a getter answered, and answered with something true.
pub fn reply_truthy(r: &Option<Reply>) -> (b: bool)
    ensures
        b == reply_true(reply_view(*r)),
{
    match r {
        Some(v) => py_truthy(&v.value),
        None => false,
    }
}

// ---- fields ----

/// The position of the first field named `k`, or the number of fields.
pub open spec fn field_at(f: Vals, k: Seq<char>) -> int
    decreases f.len(),
{
    if f.len() == 0 || f[0].0 == k {
        0
    } else {
        1 + field_at(f.skip(1), k)
    }
}

/// The value of the first field named `k`.
pub open spec fn field(f: Vals, k: Seq<char>) -> Option<Val> {
    let i = field_at(f, k);
    if i < f.len() {
        Some(f[i].1)
    } else {
        None
    }
}

/// Whether no two fields have the same name.
pub open spec fn distinct_names(f: Vals) -> bool {
    forall|i: int, j: int| 0 <= i < j < f.len() ==> (#[trigger] f[i]).0 != (#[trigger] f[j]).0
}

/// The position that `field_at` gives is in range, holds the name where one
/// does, and none before it does.
pub proof fn field_at_first(f: Vals, k: Seq<char>)
    ensures
        0 <= field_at(f, k) <= f.len(),
        field_at(f, k) < f.len() ==> f[field_at(f, k)].0 == k,
        forall|i: int| 0 <= i < field_at(f, k) ==> (#[trigger] f[i]).0 != k,
    decreases f.len(),
{
    if f.len() > 0 && f[0].0 != k {
        field_at_first(f.skip(1), k);
        let n = field_at(f.skip(1), k);
        assert forall|i: int| 0 <= i < n + 1 implies (#[trigger] f[i]).0 != k by {
            if i > 0 {
                assert(f.skip(1)[i - 1] == f[i]);
            }
        }
        if n < f.len() - 1 {
            assert(f.skip(1)[n] == f[n + 1]);
        }
    }
}

/// The first position of a name is the one that holds it with none before it.
pub proof fn field_at_is(f: Vals, k: Seq<char>, i: int)
    requires
        0 <= i <= f.len(),
        i < f.len() ==> f[i].0 == k,
        forall|j: int| 0 <= j < i ==> (#[trigger] f[j]).0 != k,
    ensures
        field_at(f, k) == i,
{
    field_at_first(f, k);
    let n = field_at(f, k);
    if n < i {
        assert(f[n].0 != k);
    }
    if i < n {
        assert(f[i].0 != k);
    }
}

/// The position of the first field named `k`, or the number of fields.
pub fn find_field(f: &Fields, k: &str) -> (r: usize)
    ensures
        r == field_at(vals(f@), k@),
        r <= f@.len(),
{
    let ghost v = vals(f@);
    let mut i: usize = 0;
    while i < f.len()
        invariant
            i <= f@.len(),
            v == vals(f@),
            forall|j: int| 0 <= j < i ==> (#[trigger] v[j]).0 != k@,
        decreases f.len() - i,
    {
        if str_eq(f[i].0.as_str(), k) {
            proof {
                field_at_is(v, k@, i as int);
            }
            return i;
        }
        i += 1;
    }
    proof {
        field_at_is(v, k@, i as int);
    }
    i
}

/// The view of an optional value.
pub open spec fn val_view(v: Option<Value>) -> Option<Val> {
    match v {
        Some(v) => Some(v@),
        None => None,
    }
}

/// The value of the first field named `k`.
pub fn get_field(f: &Fields, k: &str) -> (r: Option<Value>)
    ensures
        val_view(r) == field(vals(f@), k@),
{
    let i = find_field(f, k);
    if i < f.len() {
        Some(f[i].1.clone())
    } else {
        None
    }
}

/// The fields with `k` set to `v`: in its place where it is there, at the end
/// where it is not.
pub open spec fn with_field(f: Vals, k: Seq<char>, v: Val) -> Vals {
    let i = field_at(f, k);
    if i < f.len() {
        f.update(i, (k, v))
    } else {
        f.push((k, v))
    }
}

/// Sets the field `k` to `v`.
pub fn put_field(f: &mut Fields, k: String, v: Value)
    ensures
        vals(final(f)@) == with_field(vals(old(f)@), k@, v@),
{
    let i = find_field(f, k.as_str());
    let ghost before = vals(f@);
    if i < f.len() {
        f.set(i, (k, v));
        assert(vals(f@) =~= before.update(i as int, (k@, v@)));
    } else {
        f.push((k, v));
        assert(vals(f@) =~= before.push((k@, v@)));
    }
}

/// The fields `f` with each of `g` set in turn.
pub open spec fn with_fields(f: Vals, g: Vals) -> Vals
    decreases g.len(),
{
    if g.len() == 0 {
        f
    } else {
        with_fields(with_field(f, g[0].0, g[0].1), g.skip(1))
    }
}

/// Sets each field of `g` in `f`, in turn.
pub fn put_fields(f: &mut Fields, g: &Fields)
    ensures
        vals(final(f)@) == with_fields(vals(old(f)@), vals(g@)),
{
    let ghost start = vals(f@);
    let ghost gv = vals(g@);
    let mut i: usize = 0;
    assert(gv.skip(0) =~= gv);
    while i < g.len()
        invariant
            i <= g@.len(),
            gv == vals(g@),
            with_fields(vals(f@), gv.skip(i as int)) == with_fields(start, gv),
        decreases g.len() - i,
    {
        put_field(f, g[i].0.clone(), g[i].1.clone());
        assert(gv.skip(i as int).skip(1) =~= gv.skip(i + 1));
        i += 1;
    }
}

/// Merging leaves the value that was set last: each name of the second list
/// has its last value there, and each other name the value it had.
pub proof fn merged_value(f: Vals, g: Vals, k: Seq<char>)
    requires
        distinct_names(g),
    ensures
        field(with_fields(f, g), k) == (if field(g, k) is Some {
            field(g, k)
        } else {
            field(f, k)
        }),
    decreases g.len(),
{
    field_at_first(g, k);
    if g.len() > 0 {
        let f1 = with_field(f, g[0].0, g[0].1);
        let rest = g.skip(1);
        assert forall|i: int, j: int| 0 <= i < j < rest.len() implies (#[trigger] rest[i]).0 != (
        #[trigger] rest[j]).0 by {
            assert(g[i + 1].0 != g[j + 1].0);
        }
        merged_value(f1, rest, k);
        set_field_value(f, g[0].0, g[0].1, k);
        field_at_first(rest, k);
        if g[0].0 == k {
            let n = field_at(rest, k);
            if n < rest.len() {
                assert(rest[n] == g[n + 1]);
                assert(g[0].0 != g[n + 1].0);
            }
        }
    }
}

/// Setting a field gives it its value and leaves the other names alone.
pub proof fn set_field_value(f: Vals, k: Seq<char>, v: Val, other: Seq<char>)
    ensures
        field(with_field(f, k, v), other) == (if other == k {
            Some(v)
        } else {
            field(f, other)
        }),
{
    let w = with_field(f, k, v);
    field_at_first(f, k);
    field_at_first(f, other);
    let i = field_at(f, k);
    if other == k {
        assert forall|j: int| 0 <= j < i implies (#[trigger] w[j]).0 != k by {
            assert(f[j].0 != k);
        }
        field_at_is(w, k, i);
    } else {
        let n = field_at(f, other);
        if n < f.len() {
            assert forall|j: int| 0 <= j < n implies (#[trigger] w[j]).0 != other by {
                assert(f[j].0 != other);
            }
            field_at_is(w, other, n);
        } else {
            assert forall|j: int| 0 <= j < w.len() implies (#[trigger] w[j]).0 != other by {
                if j < f.len() {
                    assert(f[j].0 != other);
                }
            }
            field_at_is(w, other, w.len() as int);
        }
    }
}

/// The fields of an answer that is an object with at least one field.
pub open spec fn filled_fields(r: Option<ReplyView>) -> Option<Vals> {
    match r {
        Some(v) => match v.fields {
            Some(f) if f.len() > 0 => Some(f),
            _ => None,
        },
        None => None,
    }
}

/// The view of optional fields.
pub open spec fn fields_view(f: Option<Fields>) -> Option<Vals> {
    match f {
        Some(f) => Some(vals(f@)),
        None => None,
    }
}

/// The fields of an answer that is an object with at least one field.
pub fn take_filled(r: Option<Reply>) -> (f: Option<Fields>)
    ensures
        fields_view(f) == filled_fields(reply_view(r)),
{
    match r {
        Some(v) => match v.fields {
            Some(f) => if f.len() > 0 {
                Some(f)
            } else {
                None
            },
            None => None,
        },
        None => None,
    }
}

} // verus!
