//! The application advertisement of a module.
//!
//! The platform plugin hands the advertisement over as the text of a Python
//! dictionary. It is rewritten to JSON text, of which single members are read.

use vstd::prelude::*;
use vstd::utf8::encode_utf8;

use crate::db::text_view;
use crate::text::{
    chars_of, decimal, is_digit, is_space, parse_u32, parsed_u32, replace, replaced, string_of, trimmed_end,
    u64_text,
};

verus! {

// ---- rewriting ----

/// A text with each single quote made a double quote.
pub open spec fn double_quoted(s: Seq<char>) -> Seq<char> {
    s.map_values(
        |c: char|
            if c == '\'' {
                '"'
            } else {
                c
            },
    )
}

/// A text with the Python literals spelled as in JSON.
pub open spec fn json_literals(s: Seq<char>) -> Seq<char> {
    replaced(replaced(replaced(s, "True"@, "true"@), "False"@, "false"@), "None"@, "null"@)
}

/// The bytes of a text, each as the character with its number. A text in ASCII
/// stays as it is.
pub open spec fn byte_chars(s: Seq<char>) -> Seq<char> {
    encode_utf8(s).map_values(|b: u8| b as char)
}

/// A text in ASCII is its own list of bytes.
pub proof fn ascii_keeps_its_characters(s: Seq<char>)
    requires
        vstd::utf8::is_ascii_chars(s),
    ensures
        byte_chars(s) == s,
{
    vstd::utf8::is_ascii_chars_encode_utf8(s);
    assert forall|i: int| 0 <= i < s.len() implies byte_chars(s)[i] == #[trigger] s[i] by {
        assert(s[i] as u8 == encode_utf8(s)[i]);
    }
    assert(byte_chars(s) =~= s);
}

/// The end of the run of digits at `i`.
pub open spec fn digits_end(s: Seq<char>, i: nat) -> nat
    decreases s.len() - i,
{
    if i < s.len() && is_digit(s[i as int]) {
        digits_end(s, i + 1)
    } else {
        i
    }
}

/// The end of the run of blanks at `i`.
pub open spec fn blanks_end(s: Seq<char>, i: nat) -> nat
    decreases s.len() - i,
{
    if i < s.len() && s[i as int] == ' ' {
        blanks_end(s, i + 1)
    } else {
        i
    }
}

/// Whether the digits at `i` are a key: they follow an opening brace or a comma
/// and a colon follows them.
pub open spec fn is_int_key(s: Seq<char>, i: nat, out: Seq<char>) -> bool {
    let before = trimmed_end(out);
    let k = blanks_end(s, digits_end(s, i));
    &&& before.len() > 0
    &&& before.last() == '{' || before.last() == ','
    &&& k < s.len()
    &&& s[k as int] == ':'
}

/// The text from `i` on with integer keys put in double quotes, after `out`.
/// `quoted` tells whether position `i` is inside double quotes.
pub open spec fn keys_quoted(s: Seq<char>, i: nat, quoted: bool, out: Seq<char>) -> Seq<char>
    decreases s.len() - i,
{
    if i >= s.len() {
        out
    } else {
        let c = s[i as int];
        if c == '"' {
            keys_quoted(s, i + 1, !quoted, out.push(c))
        } else if !quoted && is_digit(c) {
            let j = digits_end(s, i + 1);
            let word = s.subrange(i as int, j as int);
            let next = if is_int_key(s, i, out) {
                out + seq!['"'] + word + seq!['"']
            } else {
                out + word
            };
            proof {
                digits_end_bounds(s, i + 1);
            }
            keys_quoted(s, j, quoted, next)
        } else {
            keys_quoted(s, i + 1, quoted, out.push(c))
        }
    }
}

/// The JSON text for the text of a Python dictionary.
pub open spec fn json_of_repr(s: Seq<char>) -> Seq<char> {
    keys_quoted(byte_chars(json_literals(double_quoted(s))), 0, false, Seq::empty())
}

/// A run of digits ends at or after its start, within the text.
pub proof fn digits_end_bounds(s: Seq<char>, i: nat)
    requires
        i <= s.len(),
    ensures
        i <= digits_end(s, i) <= s.len(),
    decreases s.len() - i,
{
    if i < s.len() && is_digit(s[i as int]) {
        digits_end_bounds(s, i + 1);
    }
}

/// A text without digits has no integer keys, so none of it changes.
pub proof fn text_without_digits_stays(s: Seq<char>, i: nat, quoted: bool, out: Seq<char>)
    requires
        i <= s.len(),
        forall|j: int| i <= j < s.len() ==> !is_digit(#[trigger] s[j]),
    ensures
        keys_quoted(s, i, quoted, out) == out + s.skip(i as int),
    decreases s.len() - i,
{
    if i < s.len() {
        let c = s[i as int];
        let q = if c == '"' {
            !quoted
        } else {
            quoted
        };
        text_without_digits_stays(s, i + 1, q, out.push(c));
        assert(out.push(c) + s.skip((i + 1) as int) =~= out + s.skip(i as int));
    } else {
        assert(out + s.skip(i as int) =~= out);
    }
}

// ---- what quoting does ----

/// Whether position `i` is inside double quotes.
pub open spec fn in_quotes(s: Seq<char>, i: nat) -> bool
    decreases i,
{
    i > 0 && in_quotes(s, (i - 1) as nat) != (s[i - 1] == '"')
}

/// Whether the last character that is no whitespace opens a key's place.
pub open spec fn opens_key(s: Seq<char>) -> bool {
    let before = trimmed_end(s);
    before.len() > 0 && (before.last() == '{' || before.last() == ',')
}

/// Whether the first character from `i` on that is no blank is a colon.
pub open spec fn colon_follows(s: Seq<char>, i: nat) -> bool {
    blanks_end(s, i) < s.len() && s[blanks_end(s, i) as int] == ':'
}

/// Whether an integer key begins at `i`: a run of digits outside double quotes
/// that follows an opening brace or a comma and that a colon follows.
pub open spec fn key_begins(s: Seq<char>, i: nat) -> bool {
    &&& i < s.len()
    &&& is_digit(s[i as int])
    &&& i > 0 ==> !is_digit(s[i - 1])
    &&& !in_quotes(s, i)
    &&& opens_key(s.take(i as int))
    &&& colon_follows(s, digits_end(s, i))
}

/// The text from `i` on with a double quote before and after each integer key
/// and every other character kept.
pub open spec fn keys_marked(s: Seq<char>, i: nat) -> Seq<char>
    decreases s.len() - i,
{
    if i >= s.len() {
        Seq::empty()
    } else if key_begins(s, i) {
        let j = digits_end(s, i + 1);
        proof {
            digits_end_bounds(s, i + 1);
        }
        seq!['"'] + s.subrange(i as int, j as int) + seq!['"'] + keys_marked(s, j)
    } else {
        seq![s[i as int]] + keys_marked(s, i + 1)
    }
}

/// Quoting puts a double quote before and after exactly the integer keys and
/// keeps every other character in its order.
pub proof fn quotes_go_around_keys_only(s: Seq<char>)
    ensures
        keys_quoted(s, 0, false, Seq::empty()) == keys_marked(s, 0),
{
    assert(s.skip(0) =~= s);
    assert(s.take(0) =~= Seq::<char>::empty());
    quoting_goes_on(s, 0, false, Seq::empty());
    marking_goes_on(s, 0);
    assert(Seq::<char>::empty() + quoted_on(s, false, false) =~= quoted_on(s, false, false));
}

/// Quoting the integer keys twice is quoting them once.
pub proof fn quoting_is_idempotent(s: Seq<char>)
    ensures
        ({
            let r = keys_quoted(s, 0, false, Seq::empty());
            keys_quoted(r, 0, false, Seq::empty()) == r
        }),
{
    let r = keys_quoted(s, 0, false, Seq::empty());
    assert(s.skip(0) =~= s);
    assert(r.skip(0) =~= r);
    quoting_goes_on(s, 0, false, Seq::empty());
    quoting_goes_on(r, 0, false, Seq::empty());
    assert(r =~= quoted_on(s, false, false));
    quoted_text_stays(s, false, false);
    assert(Seq::<char>::empty() + quoted_on(r, false, false) =~= quoted_on(r, false, false));
}

/// Quoting the integer keys of a text in ASCII puts a double quote before and
/// after exactly these keys. The result is in ASCII, and quoting its keys again
/// changes nothing.
pub proof fn quoted_ascii_stays(s: Seq<char>)
    requires
        vstd::utf8::is_ascii_chars(s),
    ensures
        ({
            let r = keys_quoted(byte_chars(s), 0, false, Seq::empty());
            &&& r == keys_marked(s, 0)
            &&& vstd::utf8::is_ascii_chars(r)
            &&& keys_quoted(byte_chars(r), 0, false, Seq::empty()) == r
        }),
{
    ascii_keeps_its_characters(s);
    quotes_go_around_keys_only(s);
    let r = keys_quoted(s, 0, false, Seq::empty());
    assert(s.skip(0) =~= s);
    quoting_goes_on(s, 0, false, Seq::empty());
    assert(r =~= quoted_on(s, false, false));
    quoted_on_is_ascii(s, false, false);
    ascii_keeps_its_characters(r);
    quoting_is_idempotent(s);
}

/// A text with its integer keys quoted. `quoted` tells whether its start is
/// inside double quotes and `open` whether a key may stand there.
spec fn quoted_on(s: Seq<char>, quoted: bool, open: bool) -> Seq<char>
    decreases s.len(),
{
    if s.len() == 0 {
        s
    } else if s[0] == '"' {
        seq!['"'] + quoted_on(s.skip(1), !quoted, false)
    } else if !quoted && is_digit(s[0]) {
        let j = digits_end(s, 1);
        let word = s.take(j as int);
        proof {
            digits_end_bounds(s, 1);
        }
        (if open && colon_follows(s, j) {
            seq!['"'] + word + seq!['"']
        } else {
            word
        }) + quoted_on(s.skip(j as int), false, false)
    } else {
        seq![s[0]] + quoted_on(s.skip(1), quoted, still_open(open, s[0]))
    }
}

spec fn still_open(open: bool, c: char) -> bool {
    if is_space(c) {
        open
    } else {
        c == '{' || c == ','
    }
}

proof fn opens_key_push(s: Seq<char>, c: char)
    ensures
        opens_key(s.push(c)) == still_open(opens_key(s), c),
{
    assert(s.push(c).drop_last() =~= s);
}

proof fn digits_end_shift(s: Seq<char>, i: nat, n: nat)
    requires
        i + n <= s.len(),
    ensures
        digits_end(s, i + n) == i + digits_end(s.skip(i as int), n),
    decreases s.len() - i - n,
{
    if i + n < s.len() && is_digit(s[(i + n) as int]) {
        digits_end_shift(s, i, n + 1);
    }
}

proof fn blanks_end_shift(s: Seq<char>, i: nat, n: nat)
    requires
        i + n <= s.len(),
    ensures
        blanks_end(s, i + n) == i + blanks_end(s.skip(i as int), n),
        colon_follows(s, i + n) == colon_follows(s.skip(i as int), n),
    decreases s.len() - i - n,
{
    if i + n < s.len() && s[(i + n) as int] == ' ' {
        blanks_end_shift(s, i, n + 1);
    }
}

proof fn run_is_digits(s: Seq<char>, i: nat)
    requires
        i <= s.len(),
    ensures
        i <= digits_end(s, i) <= s.len(),
        forall|k: int| i <= k < digits_end(s, i) ==> is_digit(#[trigger] s[k]),
        digits_end(s, i) < s.len() ==> !is_digit(s[digits_end(s, i) as int]),
    decreases s.len() - i,
{
    if i < s.len() && is_digit(s[i as int]) {
        run_is_digits(s, i + 1);
    }
}

proof fn quoting_goes_on(s: Seq<char>, i: nat, quoted: bool, out: Seq<char>)
    requires
        i <= s.len(),
    ensures
        keys_quoted(s, i, quoted, out) == out + quoted_on(
            s.skip(i as int),
            quoted,
            opens_key(out),
        ),
    decreases s.len() - i,
{
    let t = s.skip(i as int);
    if i < s.len() {
        let c = s[i as int];
        assert(t[0] == c);
        if c != '"' && !quoted && is_digit(c) {
            let j = digits_end(s, i + 1);
            let word = s.subrange(i as int, j as int);
            run_is_digits(s, i + 1);
            digits_end_shift(s, i, 1);
            let n = digits_end(t, 1);
            assert(j == i + n);
            blanks_end_shift(s, i, n);
            assert(digits_end(s, i) == j);
            assert(word =~= t.take(n as int));
            assert(t.skip(n as int) =~= s.skip(j as int));
            assert(is_int_key(s, i, out) == (opens_key(out) && colon_follows(t, n)));
            let next = if is_int_key(s, i, out) {
                out + seq!['"'] + word + seq!['"']
            } else {
                out + word
            };
            if is_int_key(s, i, out) {
                opens_key_push(out + seq!['"'] + word, '"');
                assert(next =~= (out + seq!['"'] + word).push('"'));
            } else {
                assert(is_digit(s[j - 1]));
                opens_key_push(next.drop_last(), next.last());
                assert(next.drop_last().push(next.last()) =~= next);
            }
            quoting_goes_on(s, j, quoted, next);
            assert(keys_quoted(s, i, quoted, out) =~= out + quoted_on(t, quoted, opens_key(out)));
        } else {
            let q = if c == '"' {
                !quoted
            } else {
                quoted
            };
            opens_key_push(out, c);
            quoting_goes_on(s, i + 1, q, out.push(c));
            assert(t.skip(1) =~= s.skip((i + 1) as int));
            assert(keys_quoted(s, i, quoted, out) =~= out + quoted_on(t, quoted, opens_key(out)));
        }
    } else {
        assert(out + t =~= out);
    }
}

proof fn marking_goes_on(s: Seq<char>, i: nat)
    requires
        i <= s.len(),
        0 < i < s.len() && !in_quotes(s, i) && is_digit(s[i as int]) ==> !is_digit(s[i - 1]),
    ensures
        keys_marked(s, i) == quoted_on(
            s.skip(i as int),
            in_quotes(s, i),
            opens_key(s.take(i as int)),
        ),
    decreases s.len() - i,
{
    let t = s.skip(i as int);
    let open = opens_key(s.take(i as int));
    if i < s.len() {
        let c = s[i as int];
        assert(t[0] == c);
        if c != '"' && !in_quotes(s, i) && is_digit(c) {
            let j = digits_end(s, i + 1);
            run_is_digits(s, i + 1);
            digits_end_shift(s, i, 1);
            let n = digits_end(t, 1);
            blanks_end_shift(s, i, n);
            assert(digits_end(s, i) == j);
            let word = s.subrange(i as int, j as int);
            assert(word =~= t.take(n as int));
            assert(t.skip(n as int) =~= s.skip(j as int));
            digits_stay_unquoted(s, i, j);
            assert(is_digit(s[j - 1]));
            opens_key_push(s.take(j - 1), s[j - 1]);
            assert(s.take(j - 1).push(s[j - 1]) =~= s.take(j as int));
            marking_goes_on(s, j);
            assert(key_begins(s, i) == (open && colon_follows(t, n)));
            if !key_begins(s, i) {
                run_is_kept(s, i, j);
            }
            assert(keys_marked(s, i) =~= quoted_on(t, false, open));
        } else {
            opens_key_push(s.take(i as int), c);
            assert(s.take(i as int).push(c) =~= s.take((i + 1) as int));
            marking_goes_on(s, i + 1);
            assert(t.skip(1) =~= s.skip((i + 1) as int));
        }
    }
}

proof fn digits_stay_unquoted(s: Seq<char>, i: nat, j: nat)
    requires
        i <= j <= s.len(),
        !in_quotes(s, i),
        forall|k: int| i <= k < j ==> is_digit(#[trigger] s[k]),
    ensures
        !in_quotes(s, j),
    decreases j - i,
{
    if i < j {
        assert(is_digit(s[i as int]));
        digits_stay_unquoted(s, i + 1, j);
    }
}

proof fn run_is_kept(s: Seq<char>, i: nat, j: nat)
    requires
        i < j <= s.len(),
        !key_begins(s, i),
        forall|k: int| i <= k < j ==> is_digit(#[trigger] s[k]),
    ensures
        keys_marked(s, i) == s.subrange(i as int, j as int) + keys_marked(s, j),
    decreases j - i,
{
    if i + 1 < j {
        assert(is_digit(s[i as int]));
        assert(!key_begins(s, i + 1));
        run_is_kept(s, i + 1, j);
    } else {
        assert(s.subrange(j as int, j as int) =~= Seq::<char>::empty());
    }
    assert(keys_marked(s, i) =~= s.subrange(i as int, j as int) + keys_marked(s, j));
}

proof fn colon_stays(s: Seq<char>, open: bool)
    ensures
        colon_follows(quoted_on(s, false, open), 0) == colon_follows(s, 0),
    decreases s.len(),
{
    let r = quoted_on(s, false, open);
    if s.len() > 0 {
        if s[0] == ' ' {
            let t = quoted_on(s.skip(1), false, open);
            assert(r =~= seq![' '] + t);
            assert(r.skip(1) =~= t);
            colon_stays(s.skip(1), open);
            blanks_end_shift(s, 1, 0);
            blanks_end_shift(r, 1, 0);
            assert(blanks_end(s, 0) == blanks_end(s, 1));
            assert(blanks_end(r, 0) == blanks_end(r, 1));
        } else {
            run_is_digits(s, 1);
            assert(r[0] == s[0] || r[0] == '"' && is_digit(s[0]));
        }
    }
}

proof fn quoted_word_passes(word: Seq<char>, rest: Seq<char>, open: bool)
    requires
        forall|k: int| 0 <= k < word.len() ==> is_digit(#[trigger] word[k]),
    ensures
        quoted_on(word + seq!['"'] + rest, true, open) == word + seq!['"'] + quoted_on(
            rest,
            false,
            false,
        ),
    decreases word.len(),
{
    let s = word + seq!['"'] + rest;
    if word.len() == 0 {
        assert(s.skip(1) =~= rest);
        assert(s[0] == '"');
        assert(quoted_on(s, true, open) =~= word + seq!['"'] + quoted_on(rest, false, false));
    } else {
        let w = word.skip(1);
        assert forall|k: int| 0 <= k < w.len() implies is_digit(#[trigger] w[k]) by {
            assert(is_digit(word[k + 1]));
        }
        assert(s[0] == word[0]);
        assert(is_digit(word[0]));
        quoted_word_passes(w, rest, still_open(open, s[0]));
        assert(s.skip(1) =~= w + seq!['"'] + rest);
        assert(quoted_on(s, true, open) =~= word + seq!['"'] + quoted_on(rest, false, false));
    }
}

proof fn run_ends_where_it_did(word: Seq<char>, rest: Seq<char>, i: nat)
    requires
        i <= word.len(),
        forall|k: int| 0 <= k < word.len() ==> is_digit(#[trigger] word[k]),
        rest.len() > 0 ==> !is_digit(rest[0]),
    ensures
        digits_end(word + rest, i) == word.len(),
    decreases word.len() - i,
{
    let s = word + rest;
    if i < word.len() {
        assert(is_digit(word[i as int]));
        run_ends_where_it_did(word, rest, i + 1);
    }
}

proof fn quoted_key_stays(s: Seq<char>)
    requires
        s.len() > 0,
        is_digit(s[0]),
        colon_follows(s, digits_end(s, 1)),
        ({
            let rest = quoted_on(s.skip(digits_end(s, 1) as int), false, false);
            quoted_on(rest, false, false) == rest
        }),
    ensures
        quoted_on(quoted_on(s, false, true), false, true) == quoted_on(s, false, true),
{
    let r = quoted_on(s, false, true);
    let j = digits_end(s, 1);
    let word = s.take(j as int);
    let rest = quoted_on(s.skip(j as int), false, false);
    run_is_digits(s, 1);
    assert forall|k: int| 0 <= k < word.len() implies is_digit(#[trigger] word[k]) by {
        assert(is_digit(s[k]));
    }
    assert(r =~= seq!['"'] + (word + seq!['"'] + rest));
    assert(r.skip(1) =~= word + seq!['"'] + rest);
    quoted_word_passes(word, rest, false);
    assert(quoted_on(r, false, true) =~= r);
}

proof fn quoted_run_stays(s: Seq<char>, open: bool)
    requires
        s.len() > 0,
        is_digit(s[0]),
        !(open && colon_follows(s, digits_end(s, 1))),
        ({
            let rest = quoted_on(s.skip(digits_end(s, 1) as int), false, false);
            quoted_on(rest, false, false) == rest
        }),
    ensures
        quoted_on(quoted_on(s, false, open), false, open) == quoted_on(s, false, open),
{
    let r = quoted_on(s, false, open);
    let j = digits_end(s, 1);
    let word = s.take(j as int);
    let t = s.skip(j as int);
    let rest = quoted_on(t, false, false);
    run_is_digits(s, 1);
    assert forall|k: int| 0 <= k < word.len() implies is_digit(#[trigger] word[k]) by {
        assert(is_digit(s[k]));
    }
    assert(r =~= word + rest);
    if t.len() > 0 {
        assert(!is_digit(t[0]));
        assert(rest[0] == t[0]);
    }
    run_ends_where_it_did(word, rest, 1);
    assert(r[0] == s[0]);
    assert(r.take(j as int) =~= word);
    assert(r.skip(j as int) =~= rest);
    blanks_end_shift(s, j, 0);
    blanks_end_shift(r, j, 0);
    colon_stays(t, false);
    assert(quoted_on(r, false, open) =~= r);
}

proof fn quoted_text_stays(s: Seq<char>, quoted: bool, open: bool)
    ensures
        quoted_on(quoted_on(s, quoted, open), quoted, open) == quoted_on(s, quoted, open),
    decreases s.len(),
{
    let r = quoted_on(s, quoted, open);
    if s.len() > 0 {
        if s[0] == '"' {
            quoted_text_stays(s.skip(1), !quoted, false);
            assert(r.skip(1) =~= quoted_on(s.skip(1), !quoted, false));
        } else if !quoted && is_digit(s[0]) {
            run_is_digits(s, 1);
            quoted_text_stays(s.skip(digits_end(s, 1) as int), false, false);
            if open && colon_follows(s, digits_end(s, 1)) {
                quoted_key_stays(s);
            } else {
                quoted_run_stays(s, open);
            }
        } else {
            quoted_text_stays(s.skip(1), quoted, still_open(open, s[0]));
            assert(r.skip(1) =~= quoted_on(s.skip(1), quoted, still_open(open, s[0])));
        }
    }
}

proof fn quoted_on_is_ascii(s: Seq<char>, quoted: bool, open: bool)
    requires
        vstd::utf8::is_ascii_chars(s),
    ensures
        vstd::utf8::is_ascii_chars(quoted_on(s, quoted, open)),
    decreases s.len(),
{
    if s.len() > 0 {
        if s[0] == '"' {
            quoted_on_is_ascii(s.skip(1), !quoted, false);
        } else if !quoted && is_digit(s[0]) {
            run_is_digits(s, 1);
            quoted_on_is_ascii(s.skip(digits_end(s, 1) as int), false, false);
        } else {
            quoted_on_is_ascii(s.skip(1), quoted, still_open(open, s[0]));
        }
    }
}

fn to_double_quotes(s: &str) -> (r: String)
    ensures
        r@ == double_quoted(s@),
{
    let v = chars_of(s);
    let ghost want = double_quoted(s@);
    let mut r = String::new();
    let mut i: usize = 0;
    while i < v.len()
        invariant
            i <= v@.len(),
            v@ == s@,
            want == double_quoted(s@),
            r@ == want.take(i as int),
        decreases v.len() - i,
    {
        let c: char = if v[i] == '\'' {
            '"'
        } else {
            v[i]
        };
        r.push(c);
        i += 1;
        assert(want.take(i as int) =~= want.take(i - 1).push(want[i - 1]));
    }
    assert(want.take(i as int) =~= want);
    r
}

fn bytes_as_chars(s: &str) -> (v: Vec<char>)
    ensures
        v@ == byte_chars(s@),
{
    let b = s.as_bytes();
    let ghost want = byte_chars(s@);
    let mut v: Vec<char> = Vec::new();
    let mut i: usize = 0;
    while i < b.len()
        invariant
            i <= b@.len(),
            b@ == encode_utf8(s@),
            want == byte_chars(s@),
            v@ == want.take(i as int),
        decreases b.len() - i,
    {
        v.push(b[i] as char);
        i += 1;
        assert(want.take(i as int) =~= want.take(i - 1).push(want[i - 1]));
    }
    assert(want.take(i as int) =~= want);
    v
}

/// Puts the integer keys of a text in double quotes. Text that is not in ASCII is
/// taken byte by byte.
pub fn quote_int_keys(s: &str) -> (r: String)
    ensures
        r@ == keys_quoted(byte_chars(s@), 0, false, Seq::empty()),
        r@ == keys_marked(byte_chars(s@), 0),
        vstd::utf8::is_ascii_chars(s@) ==> r@ == keys_marked(s@, 0),
{
    proof {
        quotes_go_around_keys_only(byte_chars(s@));
        if vstd::utf8::is_ascii_chars(s@) {
            ascii_keeps_its_characters(s@);
        }
    }
    let v = bytes_as_chars(s);
    let ghost b = byte_chars(s@);
    let mut out: Vec<char> = Vec::new();
    let mut i: usize = 0;
    let mut quoted = false;
    while i < v.len()
        invariant
            i <= v@.len(),
            v@ == b,
            keys_quoted(b, 0, false, Seq::empty()) == keys_quoted(b, i as nat, quoted, out@),
        decreases v.len() - i,
    {
        let c = v[i];
        if c == '"' {
            quoted = !quoted;
            out.push(c);
            i += 1;
        } else if !quoted && '0' <= c && c <= '9' {
            let j = run_of_digits(&v, i + 1);
            let k = run_of_blanks(&v, j);
            let key = ends_open(&out) && k < v.len() && v[k] == ':';
            assert(digits_end(b, i as nat) == digits_end(b, (i + 1) as nat));
            assert(key == is_int_key(b, i as nat, out@));
            let ghost before = out@;
            if key {
                out.push('"');
            }
            let ghost open = out@;
            let mut m = i;
            while m < j
                invariant
                    i <= m <= j <= v@.len(),
                    v@ == b,
                    out@ == open + b.subrange(i as int, m as int),
                decreases j - m,
            {
                out.push(v[m]);
                m += 1;
                assert(b.subrange(i as int, m as int) =~= b.subrange(i as int, m - 1).push(b[m - 1]));
            }
            if key {
                out.push('"');
                assert(out@ =~= before + seq!['"'] + b.subrange(i as int, j as int) + seq!['"']);
            } else {
                assert(out@ =~= before + b.subrange(i as int, j as int));
            }
            i = j;
        } else {
            out.push(c);
            i += 1;
        }
    }
    let n = out.len();
    let r = string_of(&out, 0, n);
    assert(out@.subrange(0, n as int) =~= out@);
    r
}

fn run_of_digits(v: &Vec<char>, from: usize) -> (r: usize)
    requires
        from <= v@.len(),
    ensures
        r == digits_end(v@, from as nat),
        from <= r <= v@.len(),
{
    let mut j = from;
    while j < v.len() && '0' <= v[j] && v[j] <= '9'
        invariant
            from <= j <= v@.len(),
            digits_end(v@, from as nat) == digits_end(v@, j as nat),
        decreases v.len() - j,
    {
        j += 1;
    }
    j
}

fn run_of_blanks(v: &Vec<char>, from: usize) -> (r: usize)
    requires
        from <= v@.len(),
    ensures
        r == blanks_end(v@, from as nat),
        from <= r <= v@.len(),
{
    let mut j = from;
    while j < v.len() && v[j] == ' '
        invariant
            from <= j <= v@.len(),
            blanks_end(v@, from as nat) == blanks_end(v@, j as nat),
        decreases v.len() - j,
    {
        j += 1;
    }
    j
}

/// Whether the last character that is no whitespace opens a key's place.
fn ends_open(out: &Vec<char>) -> (r: bool)
    ensures
        r == (trimmed_end(out@).len() > 0 && (trimmed_end(out@).last() == '{' || trimmed_end(
            out@,
        ).last() == ',')),
{
    let mut n: usize = out.len();
    assert(out@.take(n as int) =~= out@);
    while n > 0 && crate::text::char_is_space(out[n - 1])
        invariant
            n <= out@.len(),
            trimmed_end(out@) == trimmed_end(out@.take(n as int)),
        decreases n,
    {
        assert(out@.take(n as int).drop_last() =~= out@.take(n - 1));
        n -= 1;
    }
    n > 0 && (out[n - 1] == '{' || out[n - 1] == ',')
}

/// Rewrites the text of a Python dictionary to JSON text.
pub fn rewrite_repr(s: &str) -> (r: String)
    ensures
        r@ == json_of_repr(s@),
{
    proof {
        reveal_strlit("True");
        reveal_strlit("False");
        reveal_strlit("None");
    }
    let dq = to_double_quotes(s);
    let t = replace(dq.as_str(), "True", "true");
    let f = replace(t.as_str(), "False", "false");
    let n = replace(f.as_str(), "None", "null");
    quote_int_keys(n.as_str())
}

// ---- parsing ----

/// Whether `serde_json` takes a text for a JSON value.
pub uninterp spec fn json_text(text: Seq<char>) -> bool;

/// Tells whether `serde_json::from_str` reads a text as a JSON value. The answer
/// depends on the text alone.
#[verifier::external_body]
fn is_json(text: &str) -> (r: bool)
    ensures
        r == json_text(text@),
{
    serde_json::from_str::<serde_json::Value>(text).is_ok()
}

/// The JSON text of a Python dictionary; `None` where what comes out is no JSON.
pub open spec fn parsed_repr(s: Seq<char>) -> Option<Seq<char>> {
    if json_text(json_of_repr(s)) {
        Some(json_of_repr(s))
    } else {
        None
    }
}

/// A text that has been found to be JSON or not, as a result.
pub fn kept_json(text: String, valid: bool) -> (r: Option<String>)
    ensures
        text_view(r) == (if valid {
            Some(text@)
        } else {
            None
        }),
{
    if valid {
        Some(text)
    } else {
        None
    }
}

/// The JSON text of a Python dictionary; `None` where what comes out is no JSON.
pub fn py_repr_to_json(s: &str) -> (r: Option<String>)
    ensures
        text_view(r) == parsed_repr(s@),
{
    let text = rewrite_repr(s);
    let valid = is_json(text.as_str());
    kept_json(text, valid)
}

// ---- members ----

/// What a member of a member of a JSON object is: its value as an unsigned
/// integer of 64 bits and its text, each where it is one.
pub type Member = Option<(Option<u64>, Option<String>)>;

/// [`Member`] as contracts see it.
pub type MemberView = Option<(Option<u64>, Option<Seq<char>>)>;

/// The view of a member.
pub open spec fn member_view(m: Member) -> MemberView {
    match m {
        Some((n, Some(s))) => Some((n, Some(s@))),
        Some((n, None)) => Some((n, None)),
        None => None,
    }
}

/// Member `inner` of member `outer` of the JSON object that `text` holds, as
/// `serde_json` reads it.
pub uninterp spec fn json_member(text: Seq<char>, outer: Seq<char>, inner: Seq<char>) -> MemberView;

/// Reads member `inner` of member `outer` of a JSON object: `serde_json::from_str`
/// parses the text, `serde_json::Value::get` finds the two members, and `as_u64`
/// and `as_str` tell what the second one is. The result is `None` where the text
/// is no JSON or a member is missing. It depends on the three texts alone.
#[verifier::external_body]
fn read_json_member(text: &str, outer: &str, inner: &str) -> (r: Member)
    ensures
        member_view(r) == json_member(text@, outer@, inner@),
        !json_text(text@) ==> r is None,
{
    let v: serde_json::Value = serde_json::from_str(text).ok()?;
    let m = v.get(outer)?.get(inner)?;
    Some((m.as_u64(), m.as_str().map(|s| s.to_string())))
}

/// The unsigned integer of 32 bits that a number or a text stands for; of a
/// larger number the low bits count.
pub open spec fn as_u32(n: Option<u64>, s: Option<Seq<char>>) -> Option<u32> {
    match n {
        Some(n) => Some((n % 0x1_0000_0000) as u32),
        None => match s {
            Some(s) => parsed_u32(s),
            None => None,
        },
    }
}

/// A member as an unsigned integer of 32 bits, or `default`.
pub open spec fn member_u32(m: MemberView, default: u32) -> u32 {
    match m {
        Some((n, s)) => match as_u32(n, s) {
            Some(v) => v,
            None => default,
        },
        None => default,
    }
}

/// The low 32 bits of a number.
pub fn low_u32(n: u64) -> (r: u32)
    ensures
        r == (n % 0x1_0000_0000) as u32,
{
    (n % 0x1_0000_0000) as u32
}

/// A member as an unsigned integer of 32 bits, or `default`.
pub fn member_as_u32(m: &Member, default: u32) -> (r: u32)
    ensures
        r == member_u32(member_view(*m), default),
{
    match m {
        Some((Some(n), _)) => low_u32(*n),
        Some((None, Some(s))) => match parse_u32(s.as_str()) {
            Some(v) => v,
            None => default,
        },
        _ => default,
    }
}

/// Field `name` of application `appl` in an advertisement, or `default`. No
/// advertisement has no fields.
pub open spec fn advert_field(
    advert: Option<Seq<char>>,
    appl: u32,
    name: Seq<char>,
    default: u32,
) -> u32 {
    match advert {
        Some(text) => member_u32(json_member(text, decimal(appl as nat), name), default),
        None => default,
    }
}

/// Field `name` of application `appl` in an advertisement, or `default`.
pub fn advert_field_u32(advert: &Option<String>, appl: u32, name: &str, default: u32) -> (r: u32)
    ensures
        r == advert_field(
            match *advert {
                Some(s) => Some(s@),
                None => None,
            },
            appl,
            name@,
            default,
        ),
{
    match advert {
        Some(text) => {
            let m = read_json_member(text.as_str(), u64_text(appl as u64).as_str(), name);
            member_as_u32(&m, default)
        },
        None => default,
    }
}

} // verus!
