//! Laws that relate the parser, the tokenizer and the renderer across whole
//! classes of inputs.

use vstd::prelude::*;
use crate::pipeline::wf_pipeline;
use crate::render::spec_render;
use crate::render::spec_segment_texts;
use crate::split::join_with;
use crate::split::lemma_split_of_join;
use crate::split::lemma_join_ends;
use crate::split::lemma_join_absence;
use crate::text::is_blank;
use crate::text::lemma_trim_noop;
use crate::tokenize::is_quote;
use crate::tokenize::all_plain_words;
use crate::tokenize::lemma_tokenize_join;
use crate::parse::spec_parse;
use crate::parse::spec_strip_background;
use crate::parse::spec_redirect;
use crate::parse::spec_stages_from;
use crate::parse::RedirectSplit;
use crate::pipeline::ParseError;
use crate::pipeline::PipelineView;
use crate::split::spec_split;
use crate::split::lemma_split_no_sep;
use crate::text::spec_trim;
use crate::text::lemma_trim_keeps_absence;
use crate::text::lemma_trim_trim;
use crate::tokenize::spec_tokenize;
use crate::tokenize::lemma_tokenize_absence;
use crate::tokenize::words_lack;

verus! {

/// A line without pipe, redirection or background characters parses to a
/// single foreground stage whose words are the tokenization of the trimmed
/// line, with no redirection — provided the line has at least one word and no
/// null byte (a wordless line is rejected as an empty command, a null byte as
/// an illegal argument).
pub proof fn lemma_parse_plain_line(line: Seq<char>)
    requires
        !line.contains('|'),
        !line.contains('<'),
        !line.contains('>'),
        !line.contains('&'),
        !line.contains('\0'),
        spec_tokenize(spec_trim(line)).len() >= 1,
    ensures
        spec_parse(line) == Ok::<PipelineView, ParseError>(
            PipelineView {
                background: false,
                input: None,
                output: None,
                stages: seq![spec_tokenize(spec_trim(line))],
            },
        ),
{
    let t = spec_trim(line);
    lemma_trim_keeps_absence(line, '|');
    lemma_trim_keeps_absence(line, '<');
    lemma_trim_keeps_absence(line, '>');
    lemma_trim_keeps_absence(line, '&');
    lemma_trim_keeps_absence(line, '\0');
    if t.len() == 0 {
        assert(spec_tokenize(t).len() == 0);
        assert(false);
    }
    assert(t[t.len() - 1] != '&') by {
        if t[t.len() - 1] == '&' {
            assert(t.contains('&'));
        }
    }
    assert(spec_strip_background(line) == (false, t));
    lemma_split_no_sep(t, '|');
    let segs = spec_split(t, '|').map_values(|s: Seq<char>| spec_trim(s));
    lemma_trim_trim(line);
    assert(segs =~~= seq![t]) by {
        assert(spec_split(t, '|') =~= seq![t]);
        assert(segs.len() == 1);
        assert(segs[0] == spec_trim(t));
    }
    lemma_split_no_sep(t, '>');
    assert(spec_redirect(t, '>') is Absent) by {
        assert(spec_split(t, '>').len() == 1);
    }
    lemma_split_no_sep(t, '<');
    assert(spec_redirect(t, '<') is Absent) by {
        assert(spec_split(t, '<').len() == 1);
    }
    let toks = spec_tokenize(t);
    lemma_tokenize_absence(t, '\0');
    assert(words_lack(toks, '\0'));
    assert(spec_stages_from(seq![t], 0) == Ok::<Seq<Seq<Seq<char>>>, ParseError>(seq![toks])) by {
        assert(seq![t][0] == t);
        assert(spec_stages_from(seq![t], 1) == Ok::<Seq<Seq<Seq<char>>>, ParseError>(
            Seq::empty(),
        ));
        assert(seq![toks] + Seq::<Seq<Seq<char>>>::empty() =~= seq![toks]);
    }
    assert(segs[0] == t);
    assert(segs.len() - 1 == 0);
}

/// The same, stated on the line itself: without outer blanks the trimming
/// changes nothing, so the single stage is exactly the tokenization of the
/// input.
pub proof fn lemma_parse_plain_line_exact(line: Seq<char>)
    requires
        !line.contains('|'),
        !line.contains('<'),
        !line.contains('>'),
        !line.contains('&'),
        !line.contains('\0'),
        line.len() >= 1,
        !is_blank(line[0]),
        !is_blank(line.last()),
        spec_tokenize(line).len() >= 1,
    ensures
        spec_parse(line) == Ok::<PipelineView, ParseError>(
            PipelineView {
                background: false,
                input: None,
                output: None,
                stages: seq![spec_tokenize(line)],
            },
        ),
{
    lemma_trim_noop(line);
    lemma_parse_plain_line(line);
}

/// What a successful stage build guarantees: one stage per segment read, each
/// non-empty and free of null bytes.
proof fn lemma_stages_from_ok(segs: Seq<Seq<char>>, i: int, sts: Seq<Seq<Seq<char>>>)
    requires
        0 <= i <= segs.len(),
        spec_stages_from(segs, i) == Ok::<Seq<Seq<Seq<char>>>, ParseError>(sts),
    ensures
        sts.len() == segs.len() - i,
        forall|k: int| 0 <= k < sts.len() ==> (#[trigger] sts[k]).len() >= 1,
        forall|k: int| 0 <= k < sts.len() ==> words_lack(#[trigger] sts[k], '\0'),
    decreases segs.len() - i,
{
    if i == segs.len() {
    } else {
        let toks = spec_tokenize(segs[i]);
        match spec_stages_from(segs, i + 1) {
            Ok(rest) => {
                lemma_stages_from_ok(segs, i + 1, rest);
                assert(sts == seq![toks] + rest);
                assert(sts[0] == toks);
                assert(forall|k: int| 1 <= k < sts.len() ==> sts[k] == rest[k - 1]);
            },
            Err(_) => {},
        }
    }
}

/// Splitting yields at least one part, whatever was accumulated before.
proof fn lemma_split_rec_len(s: Seq<char>, sep: char, cur: Seq<char>, acc: Seq<Seq<char>>)
    ensures
        crate::split::split_rec(s, sep, cur, acc).len() >= acc.len() + 1,
    decreases s.len(),
{
    if s.len() == 0 {
    } else if s[0] == sep {
        lemma_split_rec_len(s.drop_first(), sep, Seq::empty(), acc.push(cur));
    } else {
        lemma_split_rec_len(s.drop_first(), sep, cur.push(s[0]), acc);
    }
}

/// Validity: whatever description the parser accepts is well-formed — at
/// least one stage, every stage with at least one word, no null byte in any
/// word, and non-empty redirection targets.
pub proof fn lemma_parse_wf(line: Seq<char>)
    requires
        spec_parse(line) is Ok,
    ensures
        wf_pipeline(spec_parse(line)->Ok_0),
{
    let t = spec_strip_background(line).1;
    let segs = spec_split(t, '|').map_values(|s: Seq<char>| crate::text::spec_trim(s));
    lemma_split_rec_len(t, '|', Seq::empty(), Seq::empty());
    assert(segs.len() >= 1);
    let last = segs.len() - 1;
    let osplit = spec_redirect(segs[last], '>');
    let segs1 = match osplit {
        RedirectSplit::Target(cmd, _) => segs.update(last, cmd),
        _ => segs,
    };
    let isplit = spec_redirect(segs1[0], '<');
    let segs2 = match isplit {
        RedirectSplit::Target(cmd, _) => segs1.update(0, cmd),
        _ => segs1,
    };
    let p = spec_parse(line)->Ok_0;
    lemma_stages_from_ok(segs2, 0, p.stages);
    assert(p.stages.len() == segs2.len());
    assert forall|i: int, j: int|
        0 <= i < p.stages.len() && 0 <= j < p.stages[i].len() implies !(
    #[trigger] p.stages[i][j]).contains('\0') by {
        assert(words_lack(p.stages[i], '\0'));
    }
}

/// A word that re-serialized text carries unambiguously: non-empty, with no
/// blank, quote, pipe, redirection, ampersand or null character.
pub open spec fn plain_word(w: Seq<char>) -> bool {
    w.len() >= 1 && forall|j: int|
        0 <= j < w.len() ==> !is_blank(#[trigger] w[j]) && !is_quote(w[j]) && w[j] != '|' && w[j]
            != '<' && w[j] != '>' && w[j] != '&' && w[j] != '\0'
}

/// A redirection target that re-serialized text carries unambiguously:
/// non-empty, no outer blanks, and no pipe, redirection or ampersand
/// character.
pub open spec fn plain_path(f: Seq<char>) -> bool {
    f.len() >= 1 && !is_blank(f[0]) && !is_blank(f.last()) && !f.contains('|') && !f.contains('<')
        && !f.contains('>') && !f.contains('&')
}

/// A pipeline description whose canonical command-line text is unambiguous:
/// at least one stage, every stage at least one word, every word and every
/// redirection target plain.
pub open spec fn unambiguous(p: PipelineView) -> bool {
    &&& p.stages.len() >= 1
    &&& forall|i: int| 0 <= i < p.stages.len() ==> (#[trigger] p.stages[i]).len() >= 1
    &&& forall|i: int, j: int|
        0 <= i < p.stages.len() && 0 <= j < p.stages[i].len() ==> plain_word(
            #[trigger] p.stages[i][j],
        )
    &&& match p.input {
        Some(f) => plain_path(f),
        None => true,
    }
    &&& match p.output {
        Some(f) => plain_path(f),
        None => true,
    }
}

/// The canonical text of one stage: non-empty, no outer blanks, and free of
/// the structural characters that its words are free of.
proof fn lemma_stage_text(st: Seq<Seq<char>>)
    requires
        st.len() >= 1,
        forall|j: int| 0 <= j < st.len() ==> plain_word(#[trigger] st[j]),
    ensures
        join_with(st, ' ').len() >= 1,
        !is_blank(join_with(st, ' ')[0]),
        !is_blank(join_with(st, ' ').last()),
        !join_with(st, ' ').contains('|'),
        !join_with(st, ' ').contains('<'),
        !join_with(st, ' ').contains('>'),
        !join_with(st, ' ').contains('&'),
        !join_with(st, ' ').contains('\0'),
{
    assert(forall|j: int| 0 <= j < st.len() ==> (#[trigger] st[j]).len() >= 1);
    lemma_join_ends(st, ' ');
    assert(!is_blank(st[0][0]));
    assert(!is_blank(st.last().last())) by {
        assert(plain_word(st[st.len() - 1]));
    }
    assert forall|c: char| c == '|' || c == '<' || c == '>' || c == '&' || c == '\0' implies !join_with(
        st,
        ' ',
    ).contains(c) by {
        assert forall|k: int| 0 <= k < st.len() implies !(#[trigger] st[k]).contains(c) by {
            assert(forall|j: int| 0 <= j < st[k].len() ==> st[k][j] != c);
        }
        lemma_join_absence(st, ' ', c);
    }
}

/// A text, one structural character, and a second text, concatenated, split
/// back into the two texts on that character when neither contains it.
proof fn lemma_split_pair(a: Seq<char>, sep: char, b: Seq<char>)
    requires
        !a.contains(sep),
        !b.contains(sep),
    ensures
        crate::split::spec_split(a + seq![sep] + b, sep) == seq![a, b],
{
    let ps = seq![a, b];
    assert(ps.drop_first() =~= seq![b]);
    assert(join_with(ps, sep) == a + seq![sep] + b) by {
        assert(join_with(seq![b], sep) == b);
    }
    lemma_split_of_join(ps, sep);
}

/// A concatenation `a + sep + b` lacks a character distinct from `sep` that
/// both sides lack.
proof fn lemma_concat_absence(a: Seq<char>, sep: char, b: Seq<char>, c: char)
    requires
        c != sep,
        !a.contains(c),
        !b.contains(c),
    ensures
        !(a + seq![sep] + b).contains(c),
{
    let ps = seq![a, b];
    assert(ps.drop_first() =~= seq![b]);
    assert(join_with(ps, sep) == a + seq![sep] + b) by {
        assert(join_with(seq![b], sep) == b);
    }
    assert forall|k: int| 0 <= k < ps.len() implies !(#[trigger] ps[k]).contains(c) by {}
    lemma_join_absence(ps, sep, c);
}

/// The stages made of the canonical stage texts, from `i` on, are the stages
/// themselves: each text tokenizes back to its words.
proof fn lemma_stages_from_texts(sts: Seq<Seq<Seq<char>>>, i: int)
    requires
        0 <= i <= sts.len(),
        forall|k: int| 0 <= k < sts.len() ==> (#[trigger] sts[k]).len() >= 1,
        forall|k: int, j: int|
            0 <= k < sts.len() && 0 <= j < sts[k].len() ==> plain_word(#[trigger] sts[k][j]),
    ensures
        spec_stages_from(Seq::new(sts.len(), |k: int| join_with(sts[k], ' ')), i) == Ok::<
            Seq<Seq<Seq<char>>>,
            ParseError,
        >(sts.skip(i)),
    decreases sts.len() - i,
{
    let texts = Seq::new(sts.len(), |k: int| join_with(sts[k], ' '));
    if i == sts.len() {
        assert(sts.skip(i) =~= Seq::<Seq<Seq<char>>>::empty());
    } else {
        assert(all_plain_words(sts[i]));
        lemma_tokenize_join(sts[i]);
        assert(spec_tokenize(texts[i]) == sts[i]);
        assert(words_lack(sts[i], '\0')) by {
            assert forall|k: int| 0 <= k < sts[i].len() implies !(#[trigger] sts[i][k]).contains(
                '\0',
            ) by {
                assert(plain_word(sts[i][k]));
                assert(forall|j: int| 0 <= j < sts[i][k].len() ==> sts[i][k][j] != '\0');
            }
        }
        lemma_stages_from_texts(sts, i + 1);
        assert(seq![sts[i]] + sts.skip(i + 1) =~= sts.skip(i));
    }
}

/// Round trip: parsing the canonical re-serialization of an unambiguous
/// pipeline description reproduces it exactly.
pub proof fn lemma_render_parse_round_trip(p: PipelineView)
    requires
        unambiguous(p),
    ensures
        spec_parse(spec_render(p)) == Ok::<PipelineView, ParseError>(p),
{
    let n = p.stages.len();
    let texts = Seq::new(n, |i: int| join_with(p.stages[i], ' '));
    assert forall|i: int| 0 <= i < n implies {
        &&& (#[trigger] texts[i]).len() >= 1
        &&& !is_blank(texts[i][0])
        &&& !is_blank(texts[i].last())
        &&& !texts[i].contains('|')
        &&& !texts[i].contains('<')
        &&& !texts[i].contains('>')
        &&& !texts[i].contains('&')
        &&& !texts[i].contains('\0')
    } by {
        lemma_stage_text(p.stages[i]);
    }
    let texts1 = match p.input {
        Some(f) => texts.update(0, texts[0] + seq!['<'] + f),
        None => texts,
    };
    // The first segment text keeps its shape and loses no guarantee but
    // absence of the input redirection character.
    assert(texts1.len() == n);
    match p.input {
        Some(f) => {
            let t0 = texts[0] + seq!['<'] + f;
            assert(t0[0] == texts[0][0]);
            assert(t0.last() == f.last());
            lemma_concat_absence(texts[0], '<', f, '|');
            lemma_concat_absence(texts[0], '<', f, '>');
            lemma_concat_absence(texts[0], '<', f, '&');
        },
        None => {},
    }
    assert(forall|i: int|
        0 <= i < n ==> (#[trigger] texts1[i]).len() >= 1 && !is_blank(texts1[i][0]) && !is_blank(
            texts1[i].last(),
        ) && !texts1[i].contains('|') && !texts1[i].contains('>') && !texts1[i].contains('&'));
    let texts2 = spec_segment_texts(p);
    assert(texts2 == match p.output {
        Some(f) => texts1.update(n - 1, texts1[n - 1] + seq!['>'] + f),
        None => texts1,
    });
    assert(texts2.len() == n);
    match p.output {
        Some(f) => {
            let tl = texts1[n - 1] + seq!['>'] + f;
            assert(tl[0] == texts1[n - 1][0]);
            assert(tl.last() == f.last());
            lemma_concat_absence(texts1[n - 1], '>', f, '|');
            lemma_concat_absence(texts1[n - 1], '>', f, '&');
        },
        None => {},
    }
    assert(forall|i: int|
        0 <= i < n ==> (#[trigger] texts2[i]).len() >= 1 && !is_blank(texts2[i][0]) && !is_blank(
            texts2[i].last(),
        ) && !texts2[i].contains('|') && !texts2[i].contains('&'));
    let t = join_with(texts2, '|');
    lemma_join_ends(texts2, '|');
    assert(!is_blank(t[0]));
    assert(!is_blank(t.last()));
    assert(t.last() != '&') by {
        if texts2[n - 1].last() == '&' {
            assert(texts2[n - 1].contains('&'));
        }
    }
    let full = spec_render(p);
    // Trimming the rendered text changes nothing, and the trailing ampersand
    // is recognized exactly when the description is background.
    if p.background {
        assert(full == t.push('&'));
        assert(full[0] == t[0]);
        assert(full.last() == '&');
        lemma_trim_noop(full);
        assert(full.drop_last() =~= t);
        assert(spec_strip_background(full) == (true, t)) by {
            assert(crate::text::spec_trim_end(t) == t);
        }
    } else {
        assert(full == t);
        lemma_trim_noop(full);
        assert(spec_strip_background(full) == (false, t));
    }
    assert(t.len() >= 1);
    // The pipe split returns the segment texts, each already trimmed.
    lemma_split_of_join(texts2, '|');
    let segs = crate::split::spec_split(t, '|').map_values(|s: Seq<char>| crate::text::spec_trim(s));
    assert(segs =~~= texts2) by {
        assert forall|i: int| 0 <= i < n implies segs[i] == texts2[i] by {
            lemma_trim_noop(texts2[i]);
        }
    }
    // The output redirection is read back first, from the last segment.
    let osplit = spec_redirect(segs[n - 1], '>');
    match p.output {
        Some(f) => {
            lemma_split_pair(texts1[n - 1], '>', f);
            lemma_trim_noop(f);
            lemma_trim_noop(texts1[n - 1]);
            assert(osplit == RedirectSplit::Target(texts1[n - 1], f));
        },
        None => {
            crate::split::lemma_split_no_sep(segs[n - 1], '>');
            assert(osplit is Absent);
        },
    }
    let segs1 = match osplit {
        RedirectSplit::Target(cmd, _) => segs.update(n - 1, cmd),
        _ => segs,
    };
    assert(segs1 =~~= texts1);
    // The input redirection is read back from the first segment.
    let isplit = spec_redirect(segs1[0], '<');
    match p.input {
        Some(f) => {
            lemma_split_pair(texts[0], '<', f);
            lemma_trim_noop(f);
            lemma_trim_noop(texts[0]);
            assert(isplit == RedirectSplit::Target(texts[0], f));
        },
        None => {
            crate::split::lemma_split_no_sep(segs1[0], '<');
            assert(isplit is Absent);
        },
    }
    let segs2 = match isplit {
        RedirectSplit::Target(cmd, _) => segs1.update(0, cmd),
        _ => segs1,
    };
    assert(segs2 =~~= texts);
    // Each segment tokenizes back to its stage's words.
    lemma_stages_from_texts(p.stages, 0);
    assert(p.stages.skip(0) =~= p.stages);
    assert(spec_stages_from(segs2, 0) == Ok::<Seq<Seq<Seq<char>>>, ParseError>(p.stages));
    let q = PipelineView {
        background: p.background,
        input: p.input,
        output: p.output,
        stages: p.stages,
    };
    assert(q == p);
}

/// Every unambiguous pipeline description is well-formed, so the round trip
/// covers only descriptions the parser itself could have produced.
pub proof fn lemma_unambiguous_wf(p: PipelineView)
    requires
        unambiguous(p),
    ensures
        wf_pipeline(p),
{
    assert forall|i: int, j: int|
        0 <= i < p.stages.len() && 0 <= j < p.stages[i].len() implies !(
    #[trigger] p.stages[i][j]).contains('\0') by {
        assert(plain_word(p.stages[i][j]));
        assert(forall|k: int| 0 <= k < p.stages[i][j].len() ==> p.stages[i][j][k] != '\0');
    }
}

} // verus!
