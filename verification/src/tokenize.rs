//! The tokenizer: splits a text into words on runs of blanks, except inside a
//! quoted region. A single or double quote opens a region that ends at the
//! next identical quote; the quote characters themselves are stripped, and an
//! unterminated quote closes silently at the end of the text. Adjacent quoted
//! and unquoted fragments accumulate into one word: a word boundary is an
//! unquoted blank only. Empty words are never emitted.

use vstd::prelude::*;
use crate::text::is_blank;
use crate::text::is_blank_char;
use crate::text::string_from_chars;
use crate::text::to_chars;

verus! {

/// A quote character: single or double quote.
pub open spec fn is_quote(c: char) -> bool {
    c == '\'' || c == '"'
}

/// One left-to-right pass of the tokenizer. `buf` is the word being read
/// (empty if none), `acc` the words already emitted; `in_quotes` and `quote`
/// describe the open quoted region, if any.
pub open spec fn tok_rec(
    s: Seq<char>,
    in_quotes: bool,
    quote: char,
    buf: Seq<char>,
    acc: Seq<Seq<char>>,
) -> Seq<Seq<char>>
    decreases s.len(),
{
    if s.len() == 0 {
        if buf.len() == 0 {
            acc
        } else {
            acc.push(buf)
        }
    } else {
        let c = s[0];
        let rest = s.drop_first();
        if is_quote(c) {
            if in_quotes && c == quote {
                tok_rec(rest, false, quote, buf, acc)
            } else if !in_quotes {
                tok_rec(rest, true, c, buf, acc)
            } else {
                tok_rec(rest, in_quotes, quote, buf.push(c), acc)
            }
        } else if is_blank(c) && !in_quotes {
            if buf.len() == 0 {
                tok_rec(rest, in_quotes, quote, buf, acc)
            } else {
                tok_rec(rest, in_quotes, quote, Seq::empty(), acc.push(buf))
            }
        } else {
            tok_rec(rest, in_quotes, quote, buf.push(c), acc)
        }
    }
}

/// The words of the text: split on runs of blanks outside quotes, quote
/// characters stripped, no empty words.
pub open spec fn spec_tokenize(s: Seq<char>) -> Seq<Seq<char>> {
    tok_rec(s, false, ' ', Seq::empty(), Seq::empty())
}

/// Executable test for a quote character.
fn is_quote_char(c: char) -> (r: bool)
    ensures
        r == is_quote(c),
{
    c == '\'' || c == '"'
}

/// The words of the text, as character vectors.
pub fn tokenize_chars(v: &Vec<char>) -> (r: Vec<Vec<char>>)
    ensures
        r.deep_view() == spec_tokenize(v@),
{
    let mut acc: Vec<Vec<char>> = Vec::new();
    let mut buf: Vec<char> = Vec::new();
    let mut in_quotes = false;
    let mut quote = ' ';
    let mut i: usize = 0;
    proof {
        assert(v@.skip(0) =~= v@);
        assert(acc.deep_view() =~~= Seq::<Seq<char>>::empty());
        assert(buf@ =~= Seq::<char>::empty());
    }
    while i < v.len()
        invariant
            i <= v@.len(),
            tok_rec(v@.skip(i as int), in_quotes, quote, buf@, acc.deep_view()) == spec_tokenize(
                v@,
            ),
        decreases v@.len() - i,
    {
        let ghost pre_acc = acc.deep_view();
        let ghost rest = v@.skip(i as int);
        proof {
            assert(rest[0] == v@[i as int]);
            assert(rest.drop_first() =~= v@.skip(i as int + 1));
        }
        let c = v[i];
        if is_quote_char(c) {
            if in_quotes && c == quote {
                in_quotes = false;
            } else if !in_quotes {
                in_quotes = true;
                quote = c;
            } else {
                buf.push(c);
            }
        } else if is_blank_char(c) && !in_quotes {
            if buf.len() > 0 {
                let ghost pre_buf = buf@;
                acc.push(buf);
                buf = Vec::new();
                proof {
                    assert(acc.deep_view() =~~= pre_acc.push(pre_buf));
                    assert(buf@ =~= Seq::<char>::empty());
                }
            }
        } else {
            buf.push(c);
        }
        i = i + 1;
    }
    proof {
        assert(v@.skip(i as int) =~= Seq::<char>::empty());
    }
    if buf.len() > 0 {
        let ghost pre_acc = acc.deep_view();
        let ghost pre_buf = buf@;
        acc.push(buf);
        proof {
            assert(acc.deep_view() =~~= pre_acc.push(pre_buf));
        }
    }
    acc
}

/// The words of the text, split on runs of blanks outside quotes: quote
/// characters are stripped and empty words never emitted.
pub fn shell_split(s: &str) -> (r: Vec<String>)
    ensures
        r.deep_view() == spec_tokenize(s@),
{
    let chars = to_chars(s);
    let toks = tokenize_chars(&chars);
    let mut r: Vec<String> = Vec::new();
    let mut i: usize = 0;
    while i < toks.len()
        invariant
            i <= toks@.len(),
            r@.len() == i,
            forall|k: int| 0 <= k < i ==> (#[trigger] r@[k])@ == toks@[k]@,
        decreases toks@.len() - i,
    {
        let t = string_from_chars(&toks[i]);
        r.push(t);
        i = i + 1;
    }
    proof {
        assert forall|k: int| 0 <= k < r.deep_view().len() implies r.deep_view()[k]
            == toks.deep_view()[k] by {
            assert(toks@[k].deep_view() =~= toks@[k]@);
        }
        assert(r.deep_view() =~= toks.deep_view());
    }
    r
}

/// Reading a run of characters that are neither blanks nor quotes, outside a
/// quoted region, only extends the current word.
proof fn lemma_tok_rec_plain(
    u: Seq<char>,
    rest: Seq<char>,
    quote: char,
    buf: Seq<char>,
    acc: Seq<Seq<char>>,
)
    requires
        forall|k: int| 0 <= k < u.len() ==> !is_blank(#[trigger] u[k]) && !is_quote(u[k]),
    ensures
        tok_rec(u + rest, false, quote, buf, acc) == tok_rec(rest, false, quote, buf + u, acc),
    decreases u.len(),
{
    if u.len() == 0 {
        assert(u + rest =~= rest);
        assert(buf + u =~= buf);
    } else {
        assert((u + rest)[0] == u[0]);
        assert((u + rest).drop_first() =~= u.drop_first() + rest);
        assert(forall|k: int|
            0 <= k < u.drop_first().len() ==> !is_blank(#[trigger] u.drop_first()[k]) && !is_quote(
                u.drop_first()[k],
            ));
        lemma_tok_rec_plain(u.drop_first(), rest, quote, buf.push(u[0]), acc);
        assert(buf.push(u[0]) + u.drop_first() =~= buf + u);
    }
}

/// Whether every word is non-empty and made only of characters that are
/// neither blanks nor quotes.
pub open spec fn all_plain_words(ts: Seq<Seq<char>>) -> bool {
    forall|k: int|
        0 <= k < ts.len() ==> (#[trigger] ts[k]).len() >= 1 && (forall|j: int|
            0 <= j < ts[k].len() ==> !is_blank(#[trigger] ts[k][j]) && !is_quote(ts[k][j]))
}

/// Tokenizing plain non-empty words joined with single spaces gives the words
/// back, appended to what was already emitted.
proof fn lemma_tok_rec_join(ts: Seq<Seq<char>>, quote: char, acc: Seq<Seq<char>>)
    requires
        ts.len() >= 1,
        all_plain_words(ts),
    ensures
        tok_rec(crate::split::join_with(ts, ' '), false, quote, Seq::empty(), acc) == acc + ts,
    decreases ts.len(),
{
    if ts.len() == 1 {
        assert(crate::split::join_with(ts, ' ') == ts[0]);
        assert(ts[0] + Seq::<char>::empty() =~= ts[0]);
        lemma_tok_rec_plain(ts[0], Seq::empty(), quote, Seq::empty(), acc);
        assert(Seq::<char>::empty() + ts[0] =~= ts[0]);
        assert(tok_rec(Seq::<char>::empty(), false, quote, ts[0], acc) == acc.push(ts[0]));
        assert(acc.push(ts[0]) =~= acc + ts);
    } else {
        let tail = crate::split::join_with(ts.drop_first(), ' ');
        assert(crate::split::join_with(ts, ' ') == ts[0] + seq![' '] + tail);
        assert(ts[0] + seq![' '] + tail =~= ts[0] + (seq![' '] + tail));
        lemma_tok_rec_plain(ts[0], seq![' '] + tail, quote, Seq::empty(), acc);
        assert(Seq::<char>::empty() + ts[0] =~= ts[0]);
        assert((seq![' '] + tail)[0] == ' ');
        assert((seq![' '] + tail).drop_first() =~= tail);
        assert(ts[0].len() >= 1);
        assert(all_plain_words(ts.drop_first())) by {
            assert(forall|k: int| 0 <= k < ts.drop_first().len() ==> ts.drop_first()[k] == ts[k + 1]);
        }
        lemma_tok_rec_join(ts.drop_first(), quote, acc.push(ts[0]));
        assert(acc.push(ts[0]) + ts.drop_first() =~= acc + ts);
    }
}

/// Tokenizing plain non-empty words joined with single spaces gives exactly
/// the words back.
pub proof fn lemma_tokenize_join(ts: Seq<Seq<char>>)
    requires
        ts.len() >= 1,
        all_plain_words(ts),
    ensures
        spec_tokenize(crate::split::join_with(ts, ' ')) == ts,
{
    lemma_tok_rec_join(ts, ' ', Seq::empty());
    assert(Seq::<Seq<char>>::empty() + ts =~= ts);
}

/// Whether the character occurs in none of the words.
pub open spec fn words_lack(ts: Seq<Seq<char>>, c: char) -> bool {
    forall|k: int| 0 <= k < ts.len() ==> !(#[trigger] ts[k]).contains(c)
}

/// A character absent from the text, from the current word and from every
/// word already emitted is absent from every word of the result.
pub proof fn lemma_tok_rec_absence(
    s: Seq<char>,
    in_quotes: bool,
    quote: char,
    buf: Seq<char>,
    acc: Seq<Seq<char>>,
    c: char,
)
    requires
        !s.contains(c),
        !buf.contains(c),
        words_lack(acc, c),
    ensures
        words_lack(tok_rec(s, in_quotes, quote, buf, acc), c),
    decreases s.len(),
{
    if s.len() == 0 {
        if buf.len() > 0 {
            assert forall|k: int| 0 <= k < acc.push(buf).len() implies !(#[trigger] acc.push(
                buf,
            )[k]).contains(c) by {
                if k < acc.len() {
                    assert(acc.push(buf)[k] == acc[k]);
                } else {
                    assert(acc.push(buf)[k] == buf);
                }
            }
        }
    } else {
        let rest = s.drop_first();
        assert(!rest.contains(c)) by {
            assert forall|k: int| 0 <= k < rest.len() implies rest[k] != c by {
                assert(rest[k] == s[k + 1]);
            }
        }
        assert(s[0] != c);
        assert(!buf.push(s[0]).contains(c)) by {
            assert forall|k: int| 0 <= k < buf.push(s[0]).len() implies buf.push(s[0])[k] != c by {
                if k < buf.len() {
                    assert(buf.push(s[0])[k] == buf[k]);
                }
            }
        }
        let h = s[0];
        if is_quote(h) {
            if in_quotes && h == quote {
                lemma_tok_rec_absence(rest, false, quote, buf, acc, c);
            } else if !in_quotes {
                lemma_tok_rec_absence(rest, true, h, buf, acc, c);
            } else {
                lemma_tok_rec_absence(rest, in_quotes, quote, buf.push(h), acc, c);
            }
        } else if is_blank(h) && !in_quotes {
            if buf.len() == 0 {
                lemma_tok_rec_absence(rest, in_quotes, quote, buf, acc, c);
            } else {
                assert forall|k: int| 0 <= k < acc.push(buf).len() implies !(#[trigger] acc.push(
                    buf,
                )[k]).contains(c) by {
                    if k < acc.len() {
                        assert(acc.push(buf)[k] == acc[k]);
                    } else {
                        assert(acc.push(buf)[k] == buf);
                    }
                }
                lemma_tok_rec_absence(rest, in_quotes, quote, Seq::empty(), acc.push(buf), c);
            }
        } else {
            lemma_tok_rec_absence(rest, in_quotes, quote, buf.push(h), acc, c);
        }
    }
}

/// Whether every word is non-empty.
pub open spec fn words_nonempty(ts: Seq<Seq<char>>) -> bool {
    forall|k: int| 0 <= k < ts.len() ==> (#[trigger] ts[k]).len() >= 1
}

/// The tokenizer emits no empty word, whatever word was being read and
/// whatever non-empty words were already emitted.
proof fn lemma_tok_rec_nonempty(
    s: Seq<char>,
    in_quotes: bool,
    quote: char,
    buf: Seq<char>,
    acc: Seq<Seq<char>>,
)
    requires
        words_nonempty(acc),
    ensures
        words_nonempty(tok_rec(s, in_quotes, quote, buf, acc)),
    decreases s.len(),
{
    if s.len() == 0 {
        if buf.len() > 0 {
            assert forall|k: int| 0 <= k < acc.push(buf).len() implies (#[trigger] acc.push(
                buf,
            )[k]).len() >= 1 by {
                if k < acc.len() {
                    assert(acc.push(buf)[k] == acc[k]);
                } else {
                    assert(acc.push(buf)[k] == buf);
                }
            }
        }
    } else {
        let rest = s.drop_first();
        let h = s[0];
        if is_quote(h) {
            if in_quotes && h == quote {
                lemma_tok_rec_nonempty(rest, false, quote, buf, acc);
            } else if !in_quotes {
                lemma_tok_rec_nonempty(rest, true, h, buf, acc);
            } else {
                lemma_tok_rec_nonempty(rest, in_quotes, quote, buf.push(h), acc);
            }
        } else if is_blank(h) && !in_quotes {
            if buf.len() == 0 {
                lemma_tok_rec_nonempty(rest, in_quotes, quote, buf, acc);
            } else {
                assert forall|k: int| 0 <= k < acc.push(buf).len() implies (#[trigger] acc.push(
                    buf,
                )[k]).len() >= 1 by {
                    if k < acc.len() {
                        assert(acc.push(buf)[k] == acc[k]);
                    } else {
                        assert(acc.push(buf)[k] == buf);
                    }
                }
                lemma_tok_rec_nonempty(rest, in_quotes, quote, Seq::empty(), acc.push(buf));
            }
        } else {
            lemma_tok_rec_nonempty(rest, in_quotes, quote, buf.push(h), acc);
        }
    }
}

/// No tokenization of any text holds an empty word.
pub proof fn lemma_tokenize_nonempty(s: Seq<char>)
    ensures
        words_nonempty(spec_tokenize(s)),
{
    lemma_tok_rec_nonempty(s, false, ' ', Seq::empty(), Seq::empty());
}

/// A character absent from a text is absent from every word of its
/// tokenization.
pub proof fn lemma_tokenize_absence(s: Seq<char>, c: char)
    requires
        !s.contains(c),
    ensures
        words_lack(spec_tokenize(s), c),
{
    lemma_tok_rec_absence(s, false, ' ', Seq::empty(), Seq::empty(), c);
}

} // verus!
