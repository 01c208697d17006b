//! Character-level text utilities shared by the tokenizer and the parser:
//! trimming of blanks and splitting on a separator character.

use vstd::prelude::*;
use vstd::string::StrSliceExecFns;

verus! {

/// A blank character, for trimming and for token boundaries: space or tab.
pub open spec fn is_blank(c: char) -> bool {
    c == ' ' || c == '\t'
}

/// Executable test for a blank character.
pub fn is_blank_char(c: char) -> (r: bool)
    ensures
        r == is_blank(c),
{
    c == ' ' || c == '\t'
}

/// The text with leading blanks removed.
pub open spec fn spec_trim_start(s: Seq<char>) -> Seq<char>
    decreases s.len(),
{
    if s.len() > 0 && is_blank(s[0]) {
        spec_trim_start(s.drop_first())
    } else {
        s
    }
}

/// The text with trailing blanks removed.
pub open spec fn spec_trim_end(s: Seq<char>) -> Seq<char>
    decreases s.len(),
{
    if s.len() > 0 && is_blank(s.last()) {
        spec_trim_end(s.drop_last())
    } else {
        s
    }
}

/// The text with both leading and trailing blanks removed.
pub open spec fn spec_trim(s: Seq<char>) -> Seq<char> {
    spec_trim_end(spec_trim_start(s))
}

/// Removing leading blanks keeps a suffix: if the first `a` characters are
/// blank and the one at `a` (if any) is not, the result is `s.skip(a)`.
proof fn lemma_trim_start_skip(s: Seq<char>, a: int)
    requires
        0 <= a <= s.len(),
        forall|k: int| 0 <= k < a ==> is_blank(s[k]),
        a == s.len() || !is_blank(s[a]),
    ensures
        spec_trim_start(s) == s.skip(a),
    decreases a,
{
    if a == 0 {
        assert(s.skip(0) =~= s);
    } else {
        assert(is_blank(s[0]));
        lemma_trim_start_skip(s.drop_first(), a - 1);
        assert(s.drop_first().skip(a - 1) =~= s.skip(a));
    }
}

/// Removing trailing blanks keeps a prefix: if every character from `b` on is
/// blank and the one before `b` (if any) is not, the result is `s.take(b)`.
proof fn lemma_trim_end_take(s: Seq<char>, b: int)
    requires
        0 <= b <= s.len(),
        forall|k: int| b <= k < s.len() ==> is_blank(s[k]),
        b == 0 || !is_blank(s[b - 1]),
    ensures
        spec_trim_end(s) == s.take(b),
    decreases s.len(),
{
    if b == s.len() {
        assert(s.take(b) =~= s);
    } else {
        assert(is_blank(s.last()));
        lemma_trim_end_take(s.drop_last(), b);
        assert(s.drop_last() =~= s.take(s.len() - 1));
        assert(s.take(s.len() - 1).take(b) =~= s.take(b));
    }
}

/// A trimmed text neither starts nor ends with a blank.
pub proof fn lemma_trim_no_outer_blanks(s: Seq<char>)
    ensures
        spec_trim(s).len() > 0 ==> !is_blank(spec_trim(s)[0]),
        spec_trim(s).len() > 0 ==> !is_blank(spec_trim(s).last()),
    decreases s.len(),
{
    lemma_trim_start_no_leading_blank(s);
    lemma_trim_end_keeps_first(spec_trim_start(s));
    lemma_trim_end_no_trailing_blank(spec_trim_start(s));
}

/// Removing leading blanks leaves no leading blank.
proof fn lemma_trim_start_no_leading_blank(s: Seq<char>)
    ensures
        spec_trim_start(s).len() > 0 ==> !is_blank(spec_trim_start(s)[0]),
    decreases s.len(),
{
    if s.len() > 0 && is_blank(s[0]) {
        lemma_trim_start_no_leading_blank(s.drop_first());
    }
}

/// Removing trailing blanks leaves no trailing blank.
proof fn lemma_trim_end_no_trailing_blank(s: Seq<char>)
    ensures
        spec_trim_end(s).len() > 0 ==> !is_blank(spec_trim_end(s).last()),
    decreases s.len(),
{
    if s.len() > 0 && is_blank(s.last()) {
        lemma_trim_end_no_trailing_blank(s.drop_last());
    }
}

/// Removing trailing blanks keeps the first character if anything remains.
proof fn lemma_trim_end_keeps_first(s: Seq<char>)
    ensures
        spec_trim_end(s).len() > 0 ==> spec_trim_end(s)[0] == s[0],
    decreases s.len(),
{
    if s.len() > 0 && is_blank(s.last()) {
        lemma_trim_end_keeps_first(s.drop_last());
    }
}

/// A text without leading or trailing blanks is already trimmed.
pub proof fn lemma_trim_noop(s: Seq<char>)
    requires
        s.len() > 0 ==> !is_blank(s[0]),
        s.len() > 0 ==> !is_blank(s.last()),
    ensures
        spec_trim(s) == s,
{
    lemma_trim_start_skip(s, 0);
    assert(s.skip(0) =~= s);
    lemma_trim_end_take(s, s.len() as int);
    assert(s.take(s.len() as int) =~= s);
}

/// Trimming is idempotent.
pub proof fn lemma_trim_trim(s: Seq<char>)
    ensures
        spec_trim(spec_trim(s)) == spec_trim(s),
{
    lemma_trim_no_outer_blanks(s);
    lemma_trim_noop(spec_trim(s));
}

/// Every character of the trimmed text occurs in the original text.
pub proof fn lemma_trim_keeps_absence(s: Seq<char>, c: char)
    requires
        !s.contains(c),
    ensures
        !spec_trim(s).contains(c),
{
    lemma_trim_start_keeps_absence(s, c);
    lemma_trim_end_keeps_absence(spec_trim_start(s), c);
}

proof fn lemma_trim_start_keeps_absence(s: Seq<char>, c: char)
    requires
        !s.contains(c),
    ensures
        !spec_trim_start(s).contains(c),
    decreases s.len(),
{
    if s.len() > 0 && is_blank(s[0]) {
        assert forall|k: int| 0 <= k < s.drop_first().len() implies s.drop_first()[k] != c by {
            assert(s.drop_first()[k] == s[k + 1]);
        }
        lemma_trim_start_keeps_absence(s.drop_first(), c);
    }
}

proof fn lemma_trim_end_keeps_absence(s: Seq<char>, c: char)
    requires
        !s.contains(c),
    ensures
        !spec_trim_end(s).contains(c),
    decreases s.len(),
{
    if s.len() > 0 && is_blank(s.last()) {
        assert forall|k: int| 0 <= k < s.drop_last().len() implies s.drop_last()[k] != c by {
            assert(s.drop_last()[k] == s[k]);
        }
        lemma_trim_end_keeps_absence(s.drop_last(), c);
    }
}

/// The characters of a text, in order.
pub fn to_chars(s: &str) -> (r: Vec<char>)
    ensures
        r@ == s@,
{
    let n = s.unicode_len();
    let mut r: Vec<char> = Vec::new();
    let mut i: usize = 0;
    while i < n
        invariant
            i <= n,
            n == s@.len(),
            r@ == s@.take(i as int),
        decreases n - i,
    {
        let c = s.get_char(i);
        r.push(c);
        i = i + 1;
        assert(r@ =~= s@.take(i as int));
    }
    assert(r@ =~= s@);
    r
}

/// The text with leading and trailing blanks removed.
pub fn trim_chars(v: &Vec<char>) -> (r: Vec<char>)
    ensures
        r@ == spec_trim(v@),
{
    let n = v.len();
    let mut a: usize = 0;
    while a < n && is_blank_char(v[a])
        invariant
            a <= n,
            n == v@.len(),
            forall|k: int| 0 <= k < a ==> is_blank(v@[k]),
        decreases n - a,
    {
        a = a + 1;
    }
    let mut b: usize = n;
    while b > a && is_blank_char(v[b - 1])
        invariant
            a <= b <= n,
            n == v@.len(),
            forall|k: int| b <= k < n ==> is_blank(v@[k]),
        decreases b,
    {
        b = b - 1;
    }
    let mut r: Vec<char> = Vec::new();
    let mut i: usize = a;
    while i < b
        invariant
            a <= i <= b <= n,
            n == v@.len(),
            r@ == v@.subrange(a as int, i as int),
        decreases b - i,
    {
        let c = v[i];
        r.push(c);
        i = i + 1;
        assert(r@ =~= v@.subrange(a as int, i as int));
    }
    proof {
        lemma_trim_start_skip(v@, a as int);
        let s1 = v@.skip(a as int);
        assert(forall|k: int| b - a <= k < s1.len() ==> is_blank(#[trigger] s1[k]));
        if b > a {
            assert(!is_blank(s1[b - a - 1]));
        }
        lemma_trim_end_take(s1, b - a);
        assert(s1.take(b - a) =~= v@.subrange(a as int, b as int));
    }
    r
}

/// The text with trailing blanks removed.
pub fn trim_end_chars(v: &Vec<char>) -> (r: Vec<char>)
    ensures
        r@ == spec_trim_end(v@),
{
    let n = v.len();
    let mut b: usize = n;
    while b > 0 && is_blank_char(v[b - 1])
        invariant
            b <= n,
            n == v@.len(),
            forall|k: int| b <= k < n ==> is_blank(v@[k]),
        decreases b,
    {
        b = b - 1;
    }
    let mut r: Vec<char> = Vec::new();
    let mut i: usize = 0;
    while i < b
        invariant
            i <= b <= n,
            n == v@.len(),
            r@ == v@.subrange(0, i as int),
        decreases b - i,
    {
        let c = v[i];
        r.push(c);
        i = i + 1;
        assert(r@ =~= v@.subrange(0, i as int));
    }
    proof {
        lemma_trim_end_take(v@, b as int);
        assert(v@.take(b as int) =~= v@.subrange(0, b as int));
    }
    r
}

/// Relies on String::push: it appends the character to the end of the string.
pub assume_specification[ String::push ](s: &mut String, ch: char)
    ensures
        final(s)@ == old(s)@.push(ch),
;

/// A string holding exactly the given characters, in order.
pub fn string_from_chars(v: &Vec<char>) -> (r: String)
    ensures
        r@ == v@,
{
    let mut r = String::new();
    let mut i: usize = 0;
    while i < v.len()
        invariant
            i <= v@.len(),
            r@ == v@.take(i as int),
        decreases v@.len() - i,
    {
        r.push(v[i]);
        i = i + 1;
        assert(r@ =~= v@.take(i as int));
    }
    assert(r@ =~= v@);
    r
}

/// Whether a character occurs in the text.
pub fn contains_char(v: &Vec<char>, c: char) -> (r: bool)
    ensures
        r == v@.contains(c),
{
    let mut i: usize = 0;
    while i < v.len()
        invariant
            i <= v@.len(),
            forall|k: int| 0 <= k < i ==> v@[k] != c,
        decreases v@.len() - i,
    {
        if v[i] == c {
            assert(v@.contains(c));
            return true;
        }
        i = i + 1;
    }
    false
}

} // verus!
