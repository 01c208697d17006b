//! Splitting a text on a separator character, and joining parts back with
//! one, with the laws that relate the two.

use vstd::prelude::*;

verus! {

/// One left-to-right pass of splitting: `cur` is the part being read, `acc`
/// the parts already finished. The final part is always emitted, so splitting
/// an empty text yields one empty part, as the splitting of standard library
/// strings does.
pub open spec fn split_rec(s: Seq<char>, sep: char, cur: Seq<char>, acc: Seq<Seq<char>>) -> Seq<
    Seq<char>,
>
    decreases s.len(),
{
    if s.len() == 0 {
        acc.push(cur)
    } else if s[0] == sep {
        split_rec(s.drop_first(), sep, Seq::empty(), acc.push(cur))
    } else {
        split_rec(s.drop_first(), sep, cur.push(s[0]), acc)
    }
}

/// The parts of the text between occurrences of the separator. Always at
/// least one part; parts may be empty.
pub open spec fn spec_split(s: Seq<char>, sep: char) -> Seq<Seq<char>> {
    split_rec(s, sep, Seq::empty(), Seq::empty())
}

/// The parts joined with the separator between adjacent ones.
pub open spec fn join_with(parts: Seq<Seq<char>>, sep: char) -> Seq<char>
    decreases parts.len(),
{
    if parts.len() == 0 {
        Seq::empty()
    } else if parts.len() == 1 {
        parts[0]
    } else {
        parts[0] + seq![sep] + join_with(parts.drop_first(), sep)
    }
}

/// The parts of the text between occurrences of the separator.
pub fn split_on(v: &Vec<char>, sep: char) -> (r: Vec<Vec<char>>)
    ensures
        r.deep_view() == spec_split(v@, sep),
        r@.len() >= 1,
{
    let mut acc: Vec<Vec<char>> = Vec::new();
    let mut cur: Vec<char> = Vec::new();
    let mut i: usize = 0;
    proof {
        assert(v@.skip(0) =~= v@);
        assert(acc.deep_view() =~~= Seq::<Seq<char>>::empty());
        assert(cur.deep_view() =~= Seq::<char>::empty());
    }
    while i < v.len()
        invariant
            i <= v@.len(),
            split_rec(v@.skip(i as int), sep, cur@, acc.deep_view()) == spec_split(v@, sep),
        decreases v@.len() - i,
    {
        let ghost pre_acc = acc.deep_view();
        let ghost rest = v@.skip(i as int);
        proof {
            assert(rest[0] == v@[i as int]);
            assert(rest.drop_first() =~= v@.skip(i as int + 1));
        }
        let c = v[i];
        if c == sep {
            let ghost pre_cur = cur@;
            acc.push(cur);
            cur = Vec::new();
            proof {
                assert(acc.deep_view() =~~= pre_acc.push(pre_cur));
                assert(cur@ =~= Seq::<char>::empty());
            }
        } else {
            cur.push(c);
        }
        i = i + 1;
    }
    proof {
        assert(v@.skip(i as int) =~= Seq::<char>::empty());
    }
    let ghost pre_acc = acc.deep_view();
    let ghost pre_cur = cur@;
    acc.push(cur);
    proof {
        assert(acc.deep_view() =~~= pre_acc.push(pre_cur));
    }
    acc
}

/// Reading a separator-free prefix only extends the current part.
proof fn lemma_split_rec_plain(u: Seq<char>, rest: Seq<char>, sep: char, cur: Seq<char>, acc: Seq<Seq<char>>)
    requires
        !u.contains(sep),
    ensures
        split_rec(u + rest, sep, cur, acc) == split_rec(rest, sep, cur + u, acc),
    decreases u.len(),
{
    if u.len() == 0 {
        assert(u + rest =~= rest);
        assert(cur + u =~= cur);
    } else {
        assert((u + rest)[0] == u[0]);
        assert(u[0] != sep);
        assert((u + rest).drop_first() =~= u.drop_first() + rest);
        assert(!u.drop_first().contains(sep)) by {
            assert forall|k: int| 0 <= k < u.drop_first().len() implies u.drop_first()[k] != sep by {
                assert(u.drop_first()[k] == u[k + 1]);
            }
        }
        lemma_split_rec_plain(u.drop_first(), rest, sep, cur.push(u[0]), acc);
        assert(cur.push(u[0]) + u.drop_first() =~= cur + u);
    }
}

/// Splitting the join of separator-free parts gives the parts back, appended
/// to what was already accumulated.
proof fn lemma_split_rec_join(ps: Seq<Seq<char>>, sep: char, acc: Seq<Seq<char>>)
    requires
        ps.len() >= 1,
        forall|k: int| 0 <= k < ps.len() ==> !(#[trigger] ps[k]).contains(sep),
    ensures
        split_rec(join_with(ps, sep), sep, Seq::empty(), acc) == acc + ps,
    decreases ps.len(),
{
    if ps.len() == 1 {
        assert(join_with(ps, sep) == ps[0]);
        assert(ps[0] + Seq::<char>::empty() =~= ps[0]);
        lemma_split_rec_plain(ps[0], Seq::empty(), sep, Seq::empty(), acc);
        assert(Seq::<char>::empty() + ps[0] =~= ps[0]);
        assert(split_rec(Seq::<char>::empty(), sep, ps[0], acc) == acc.push(ps[0]));
        assert(acc.push(ps[0]) =~= acc + ps);
    } else {
        let tail = join_with(ps.drop_first(), sep);
        assert(join_with(ps, sep) == ps[0] + seq![sep] + tail);
        assert(ps[0] + seq![sep] + tail =~= ps[0] + (seq![sep] + tail));
        lemma_split_rec_plain(ps[0], seq![sep] + tail, sep, Seq::empty(), acc);
        assert(Seq::<char>::empty() + ps[0] =~= ps[0]);
        assert((seq![sep] + tail)[0] == sep);
        assert((seq![sep] + tail).drop_first() =~= tail);
        assert(forall|k: int| 0 <= k < ps.drop_first().len() ==> !(#[trigger] ps.drop_first()[k]).contains(sep));
        lemma_split_rec_join(ps.drop_first(), sep, acc.push(ps[0]));
        assert(acc.push(ps[0]) + ps.drop_first() =~= acc + ps);
    }
}

/// Splitting the join of separator-free parts gives exactly the parts back.
pub proof fn lemma_split_of_join(ps: Seq<Seq<char>>, sep: char)
    requires
        ps.len() >= 1,
        forall|k: int| 0 <= k < ps.len() ==> !(#[trigger] ps[k]).contains(sep),
    ensures
        spec_split(join_with(ps, sep), sep) == ps,
{
    lemma_split_rec_join(ps, sep, Seq::empty());
    assert(Seq::<Seq<char>>::empty() + ps =~= ps);
}

/// A text without the separator splits into the one part that is the text.
pub proof fn lemma_split_no_sep(s: Seq<char>, sep: char)
    requires
        !s.contains(sep),
    ensures
        spec_split(s, sep) == seq![s],
{
    let ps = seq![s];
    assert(join_with(ps, sep) == s);
    lemma_split_of_join(ps, sep);
}

/// Appending one more part appends one separator and the part to the join.
pub proof fn lemma_join_snoc(ps: Seq<Seq<char>>, x: Seq<char>, sep: char)
    requires
        ps.len() >= 1,
    ensures
        join_with(ps.push(x), sep) == join_with(ps, sep) + seq![sep] + x,
    decreases ps.len(),
{
    if ps.len() == 1 {
        assert(ps.push(x)[0] == ps[0]);
        assert(ps.push(x).drop_first() =~= seq![x]);
        assert(join_with(seq![x], sep) == x);
    } else {
        assert(ps.push(x)[0] == ps[0]);
        assert(ps.push(x).drop_first() =~= ps.drop_first().push(x));
        lemma_join_snoc(ps.drop_first(), x, sep);
        assert(ps[0] + seq![sep] + (join_with(ps.drop_first(), sep) + seq![sep] + x) =~= (ps[0]
            + seq![sep] + join_with(ps.drop_first(), sep)) + seq![sep] + x);
    }
}

/// A character other than the separator and absent from every part is absent
/// from the join.
pub proof fn lemma_join_absence(ps: Seq<Seq<char>>, sep: char, c: char)
    requires
        c != sep,
        forall|k: int| 0 <= k < ps.len() ==> !(#[trigger] ps[k]).contains(c),
    ensures
        !join_with(ps, sep).contains(c),
    decreases ps.len(),
{
    if ps.len() == 0 {
    } else if ps.len() == 1 {
        assert(forall|k: int| 0 <= k < ps[0].len() ==> ps[0][k] != c);
    } else {
        assert(forall|k: int|
            0 <= k < ps.drop_first().len() ==> !(#[trigger] ps.drop_first()[k]).contains(c));
        lemma_join_absence(ps.drop_first(), sep, c);
        let tail = join_with(ps.drop_first(), sep);
        let j = ps[0] + seq![sep] + tail;
        assert forall|k: int| 0 <= k < j.len() implies j[k] != c by {
            if k < ps[0].len() {
                assert(j[k] == ps[0][k]);
            } else if k == ps[0].len() {
                assert(j[k] == sep);
            } else {
                assert(j[k] == tail[k - ps[0].len() - 1]);
            }
        }
    }
}

/// The join of non-empty parts is non-empty, starts with the first part's
/// first character and ends with the last part's last character.
pub proof fn lemma_join_ends(ps: Seq<Seq<char>>, sep: char)
    requires
        ps.len() >= 1,
        forall|k: int| 0 <= k < ps.len() ==> (#[trigger] ps[k]).len() >= 1,
    ensures
        join_with(ps, sep).len() >= 1,
        join_with(ps, sep)[0] == ps[0][0],
        join_with(ps, sep).last() == ps.last().last(),
    decreases ps.len(),
{
    if ps.len() == 1 {
    } else {
        let tail = join_with(ps.drop_first(), sep);
        assert(forall|k: int| 0 <= k < ps.drop_first().len() ==> (#[trigger] ps.drop_first()[k]).len() >= 1);
        lemma_join_ends(ps.drop_first(), sep);
        assert(ps.drop_first().last() == ps.last());
        let j = ps[0] + seq![sep] + tail;
        assert(j[0] == ps[0][0]);
        assert(j.last() == tail.last());
    }
}

} // verus!
