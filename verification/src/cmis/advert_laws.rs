//! What rewriting an advertisement is for: its texts and its literals come out in
//! the spelling of JSON, and its numbers can be read.

use vstd::prelude::*;

use crate::cmis::advert::{
    advert_field, as_u32, ascii_keeps_its_characters, blanks_end, digits_end, double_quoted,
    json_literals, json_member, json_of_repr, member_u32, text_without_digits_stays,
};
use crate::text::{decimal, decimal_reads_back, is_digit, occurs, occurs_at, parsed_u32, replaced};
use crate::text_laws::{nothing_is_replaced, occurrences_are_replaced, signs_are_parsed};

verus! {

/// Single quotes become double quotes, and every other character stays.
pub proof fn quotes_are_doubled(s: Seq<char>, i: int)
    requires
        0 <= i < s.len(),
    ensures
        double_quoted(s).len() == s.len(),
        s[i] == '\'' ==> double_quoted(s)[i] == '"',
        s[i] != '\'' ==> double_quoted(s)[i] == s[i],
{
}

/// Whether no occurrence of `p` begins in `x` and ends behind it in `y`.
spec fn parted(x: Seq<char>, y: Seq<char>, p: Seq<char>) -> bool {
    forall|i: int|
        0 <= i < x.len() && #[trigger] occurs_at(x + y, p, i) ==> i + p.len() <= x.len()
}

proof fn first_keeps_apart(x: Seq<char>, y: Seq<char>, p: Seq<char>)
    requires
        y.len() > 0,
        forall|k: int| 0 < k < p.len() ==> #[trigger] p[k] != y[0],
    ensures
        parted(x, y, p),
{
    assert forall|i: int| 0 <= i < x.len() && #[trigger] occurs_at(x + y, p, i) implies i + p.len()
        <= x.len() by {
        if i + p.len() > x.len() {
            let k = x.len() - i;
            assert((x + y).subrange(i, i + p.len())[k] == (x + y)[x.len() as int]);
            assert(p[k] == y[0]);
        }
    }
}

proof fn last_keeps_apart(x: Seq<char>, y: Seq<char>, p: Seq<char>)
    requires
        x.len() > 0,
        forall|k: int| 0 <= k < p.len() - 1 ==> #[trigger] p[k] != x.last(),
    ensures
        parted(x, y, p),
{
    assert forall|i: int| 0 <= i < x.len() && #[trigger] occurs_at(x + y, p, i) implies i + p.len()
        <= x.len() by {
        if i + p.len() > x.len() {
            let k = x.len() - 1 - i;
            assert((x + y).subrange(i, i + p.len())[k] == (x + y)[x.len() - 1]);
            assert(p[k] == x.last());
        }
    }
}

proof fn replacing_in_parts(x: Seq<char>, y: Seq<char>, p: Seq<char>, r: Seq<char>)
    requires
        p.len() > 0,
        parted(x, y, p),
    ensures
        replaced(x + y, p, r) == replaced(x, p, r) + replaced(y, p, r),
    decreases x.len(),
{
    let s = x + y;
    if x.len() == 0 {
        assert(s =~= y);
        assert(replaced(x, p, r) + replaced(y, p, r) =~= replaced(y, p, r));
    } else if occurs_at(s, p, 0) {
        let n = p.len() as int;
        assert(n <= x.len());
        assert(x.subrange(0, n) =~= s.subrange(0, n));
        assert(occurs_at(x, p, 0));
        let x1 = x.skip(n);
        assert(s.skip(n) =~= x1 + y);
        assert forall|i: int|
            0 <= i < x1.len() && #[trigger] occurs_at(x1 + y, p, i) implies i + p.len()
            <= x1.len() by {
            assert(s.subrange(i + n, i + n + p.len()) =~= (x1 + y).subrange(i, i + p.len()));
            assert(occurs_at(s, p, i + n));
        }
        replacing_in_parts(x1, y, p, r);
        assert(replaced(s, p, r) =~= replaced(x, p, r) + replaced(y, p, r));
    } else {
        assert(!occurs_at(x, p, 0)) by {
            if occurs_at(x, p, 0) {
                assert(x.subrange(0, p.len() as int) =~= s.subrange(0, p.len() as int));
            }
        }
        let x1 = x.skip(1);
        assert(s.skip(1) =~= x1 + y);
        assert forall|i: int|
            0 <= i < x1.len() && #[trigger] occurs_at(x1 + y, p, i) implies i + p.len()
            <= x1.len() by {
            assert(s.subrange(i + 1, i + 1 + p.len()) =~= (x1 + y).subrange(i, i + p.len()));
            assert(occurs_at(s, p, i + 1));
        }
        replacing_in_parts(x1, y, p, r);
        assert(replaced(s, p, r) =~= replaced(x, p, r) + replaced(y, p, r));
    }
}

/// Replacing `p` between two texts that a word keeps apart.
proof fn replacing_around(
    a: Seq<char>,
    w: Seq<char>,
    b: Seq<char>,
    p: Seq<char>,
    r: Seq<char>,
)
    requires
        p.len() > 0,
        w.len() > 0,
        forall|k: int| 0 < k < p.len() ==> #[trigger] p[k] != w[0],
        forall|k: int| 0 <= k < p.len() - 1 ==> #[trigger] p[k] != w.last(),
    ensures
        replaced(a + w + b, p, r) == replaced(a, p, r) + replaced(w, p, r) + replaced(b, p, r),
{
    first_keeps_apart(a, w + b, p);
    last_keeps_apart(w, b, p);
    replacing_in_parts(a, w + b, p, r);
    replacing_in_parts(w, b, p, r);
    assert(a + w + b =~= a + (w + b));
    assert(replaced(a, p, r) + (replaced(w, p, r) + replaced(b, p, r)) =~= replaced(a, p, r)
        + replaced(w, p, r) + replaced(b, p, r));
}

proof fn word_is_replaced(p: Seq<char>, r: Seq<char>)
    requires
        p.len() > 0,
    ensures
        replaced(p, p, r) == r,
{
    let none = Seq::<char>::empty();
    assert(none + p + none =~= p);
    occurrences_are_replaced(none, p, none, r);
    assert(none + r + replaced(none, p, r) =~= r);
}

proof fn word_is_kept(w: Seq<char>, p: Seq<char>, r: Seq<char>)
    requires
        forall|k: int| 0 <= k < w.len() ==> #[trigger] w[k] != p[0],
        p.len() > 0,
    ensures
        replaced(w, p, r) == w,
{
    if occurs(w, p) {
        let i = choose|i: int| occurs_at(w, p, i);
        assert(w.subrange(i, i + p.len())[0] == w[i]);
    }
    nothing_is_replaced(w, p, r);
}

proof fn literals()
    ensures
        "True"@ == seq!['T', 'r', 'u', 'e'],
        "False"@ == seq!['F', 'a', 'l', 's', 'e'],
        "None"@ == seq!['N', 'o', 'n', 'e'],
        "true"@ == seq!['t', 'r', 'u', 'e'],
        "false"@ == seq!['f', 'a', 'l', 's', 'e'],
        "null"@ == seq!['n', 'u', 'l', 'l'],
{
    reveal_strlit("True");
    reveal_strlit("False");
    reveal_strlit("None");
    reveal_strlit("true");
    reveal_strlit("false");
    reveal_strlit("null");
    assert("True"@ =~= seq!['T', 'r', 'u', 'e']);
    assert("False"@ =~= seq!['F', 'a', 'l', 's', 'e']);
    assert("None"@ =~= seq!['N', 'o', 'n', 'e']);
    assert("true"@ =~= seq!['t', 'r', 'u', 'e']);
    assert("false"@ =~= seq!['f', 'a', 'l', 's', 'e']);
    assert("null"@ =~= seq!['n', 'u', 'l', 'l']);
}

/// Wherever true, false or nothing stands in the spelling of Python, it comes out
/// in that of JSON, with what is before it and behind it rewritten by itself.
pub proof fn literals_are_respelled(a: Seq<char>, b: Seq<char>)
    ensures
        json_literals(a + "True"@ + b) == json_literals(a) + "true"@ + json_literals(b),
        json_literals(a + "False"@ + b) == json_literals(a) + "false"@ + json_literals(b),
        json_literals(a + "None"@ + b) == json_literals(a) + "null"@ + json_literals(b),
{
    literals();
    let (pt, pf, pn) = ("True"@, "False"@, "None"@);
    let (jt, jf, jn) = ("true"@, "false"@, "null"@);
    let (a1, b1) = (replaced(a, pt, jt), replaced(b, pt, jt));
    let (a2, b2) = (replaced(a1, pf, jf), replaced(b1, pf, jf));
    // true
    replacing_around(a, pt, b, pt, jt);
    word_is_replaced(pt, jt);
    replacing_around(a1, jt, b1, pf, jf);
    word_is_kept(jt, pf, jf);
    replacing_around(a2, jt, b2, pn, jn);
    word_is_kept(jt, pn, jn);
    // false
    replacing_around(a, pf, b, pt, jt);
    word_is_kept(pf, pt, jt);
    replacing_around(a1, pf, b1, pf, jf);
    word_is_replaced(pf, jf);
    replacing_around(a2, jf, b2, pn, jn);
    word_is_kept(jf, pn, jn);
    // nothing
    replacing_around(a, pn, b, pt, jt);
    word_is_kept(pn, pt, jt);
    replacing_around(a1, pn, b1, pf, jf);
    word_is_kept(pn, pf, jf);
    replacing_around(a2, pn, b2, pn, jn);
    word_is_replaced(pn, jn);
}

/// A text in which no literal of Python begins keeps its spelling.
pub proof fn other_words_keep_their_spelling(s: Seq<char>)
    requires
        forall|k: int|
            0 <= k < s.len() ==> #[trigger] s[k] != 'T' && s[k] != 'F' && s[k] != 'N',
    ensures
        json_literals(s) == s,
{
    literals();
    word_is_kept(s, "True"@, "true"@);
    word_is_kept(s, "False"@, "false"@);
    word_is_kept(s, "None"@, "null"@);
}

/// A text in ASCII without digits comes out with its quotes doubled and its
/// literals respelled, and nothing else changed.
pub proof fn text_without_numbers_is_respelled(s: Seq<char>)
    requires
        vstd::utf8::is_ascii_chars(json_literals(double_quoted(s))),
        forall|j: int|
            0 <= j < json_literals(double_quoted(s)).len() ==> !is_digit(
                #[trigger] json_literals(double_quoted(s))[j],
            ),
    ensures
        json_of_repr(s) == json_literals(double_quoted(s)),
{
    let t = json_literals(double_quoted(s));
    ascii_keeps_its_characters(t);
    text_without_digits_stays(t, 0, false, Seq::empty());
    assert(Seq::<char>::empty() + t.skip(0) =~= t);
}

/// A number of 32 bits is read from a member that is the number or spells it. A
/// member that is neither, and one that is missing, gives the default.
pub proof fn numbers_are_read(n: u32, default: u32, s: Seq<char>)
    ensures
        member_u32(Some((Some(n as u64), None)), default) == n,
        member_u32(Some((None, Some(decimal(n as nat)))), default) == n,
        parsed_u32(s) is None ==> member_u32(Some((None, Some(s))), default) == default,
        member_u32(Some((None, None)), default) == default,
        member_u32(None, default) == default,
        as_u32(Some(n as u64), Some(s)) == Some(n),
{
    decimal_reads_back(n as nat);
    signs_are_parsed(decimal(n as nat));
}

/// A run of blanks or digits ends at the first character that is none.
pub proof fn runs_end_at_the_first_other(s: Seq<char>, i: nat, k: int)
    requires
        i <= s.len(),
    ensures
        i <= blanks_end(s, i) <= s.len(),
        i <= digits_end(s, i) <= s.len(),
        i <= k < blanks_end(s, i) ==> s[k] == ' ',
        i <= k < digits_end(s, i) ==> '0' <= s[k] <= '9',
        blanks_end(s, i) < s.len() ==> s[blanks_end(s, i) as int] != ' ',
        digits_end(s, i) < s.len() ==> !('0' <= s[digits_end(s, i) as int] <= '9'),
    decreases s.len() - i,
{
    if i < s.len() {
        runs_end_at_the_first_other(s, i + 1, k);
    }
}

/// A field of an application is looked for under the number of the application and
/// the name of the field. Without an advertisement there is the default.
pub proof fn fields_stand_under_their_application(
    text: Seq<char>,
    appl: u32,
    name: Seq<char>,
    default: u32,
    n: u32,
)
    ensures
        json_member(text, decimal(appl as nat), name) == Some((Some(n as u64), None::<Seq<char>>))
            ==> advert_field(Some(text), appl, name, default) == n,
        json_member(text, decimal(appl as nat), name) is None ==> advert_field(
            Some(text),
            appl,
            name,
            default,
        ) == default,
        advert_field(None, appl, name, default) == default,
{
}

} // verus!
