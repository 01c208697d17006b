//! Re-serialization of a pipeline description back to command-line text: the
//! words of each stage joined with single spaces, stage texts joined with the
//! pipe character, the input redirection appended to the first stage and the
//! output redirection to the last, and a trailing ampersand for a background
//! pipeline.

use vstd::prelude::*;
use vstd::string::StringExecFns;
use crate::pipeline::PipelineDescription;
use crate::pipeline::PipelineView;
use crate::split::join_with;
use crate::split::lemma_join_snoc;

verus! {

/// The canonical texts of the segments of a pipeline description: one stage's
/// words joined with single spaces, with the redirection targets attached to
/// the first and last segment.
pub open spec fn spec_segment_texts(p: PipelineView) -> Seq<Seq<char>> {
    let texts = Seq::new(p.stages.len(), |i: int| join_with(p.stages[i], ' '));
    let texts1 = match p.input {
        Some(f) => texts.update(0, texts[0] + seq!['<'] + f),
        None => texts,
    };
    match p.output {
        Some(f) => texts1.update(
            p.stages.len() - 1,
            texts1[p.stages.len() - 1] + seq!['>'] + f,
        ),
        None => texts1,
    }
}

/// The canonical command line of a pipeline description.
pub open spec fn spec_render(p: PipelineView) -> Seq<char> {
    let t = join_with(spec_segment_texts(p), '|');
    if p.background {
        t.push('&')
    } else {
        t
    }
}

/// The canonical command-line text of the pipeline description.
#[verifier::loop_isolation(false)]
pub fn render(pl: &PipelineDescription) -> (r: String)
    requires
        pl@.stages.len() >= 1,
    ensures
        r@ == spec_render(pl@),
{
    let n = pl.stages.len();
    let ghost gtexts = Seq::new(pl@.stages.len(), |i: int| join_with(pl@.stages[i], ' '));
    let mut texts: Vec<String> = Vec::new();
    let mut i: usize = 0;
    while i < n
        invariant
            i <= n,
            texts@.len() == i,
            forall|k: int| 0 <= k < i ==> (#[trigger] texts@[k])@ == gtexts[k],
        decreases n - i,
    {
        let ghost stv = pl.stages@[i as int]@;
        let mut cur = String::new();
        let mut j: usize = 0;
        while j < pl.stages[i].argv.len()
            invariant
                i < n,
                j <= pl.stages@[i as int].argv@.len(),
                j == 0 ==> cur@.len() == 0,
                j >= 1 ==> cur@ == join_with(stv.take(j as int), ' '),
            decreases pl.stages@[i as int].argv@.len() - j,
        {
            if j > 0 {
                cur.push(' ');
            }
            cur.append(pl.stages[i].argv[j].as_str());
            proof {
                assert(stv[j as int] == pl.stages@[i as int].argv@[j as int].deep_view());
                assert(stv[j as int] =~= pl.stages@[i as int].argv@[j as int]@);
                if j == 0 {
                    assert(stv.take(1)[0] == stv[0]);
                    assert(cur@ =~= stv[0]);
                    assert(join_with(stv.take(1), ' ') == stv.take(1)[0]);
                } else {
                    lemma_join_snoc(stv.take(j as int), stv[j as int], ' ');
                    assert(stv.take(j as int).push(stv[j as int]) =~= stv.take(j as int + 1));
                    assert(cur@ =~= join_with(stv.take(j as int), ' ') + seq![' '] + stv[
                        j as int]);
                }
            }
            j = j + 1;
        }
        proof {
            if j == 0 {
                assert(stv.len() == 0);
                assert(cur@ =~= join_with(stv, ' '));
            } else {
                assert(stv.take(j as int) =~= stv);
            }
        }
        texts.push(cur);
        i = i + 1;
    }
    match &pl.input_path {
        Some(f) => {
            let mut s0 = texts[0].clone();
            s0.push('<');
            s0.append(f.as_str());
            proof {
                assert(s0@ =~= gtexts[0] + seq!['<'] + f@);
            }
            texts.set(0, s0);
        },
        None => {},
    }
    let ghost gtexts1 = match pl@.input {
        Some(f) => gtexts.update(0, gtexts[0] + seq!['<'] + f),
        None => gtexts,
    };
    proof {
        assert(forall|k: int| 0 <= k < n ==> (#[trigger] texts@[k])@ == gtexts1[k]);
    }
    match &pl.output_path {
        Some(f) => {
            let mut sl = texts[n - 1].clone();
            sl.push('>');
            sl.append(f.as_str());
            proof {
                assert(sl@ =~= gtexts1[n - 1] + seq!['>'] + f@);
            }
            texts.set(n - 1, sl);
        },
        None => {},
    }
    let ghost gtexts2 = spec_segment_texts(pl@);
    proof {
        assert(forall|k: int| 0 <= k < n ==> (#[trigger] texts@[k])@ == gtexts2[k]);
    }
    let mut out = String::new();
    let mut i: usize = 0;
    while i < n
        invariant
            i <= n,
            i == 0 ==> out@.len() == 0,
            i >= 1 ==> out@ == join_with(gtexts2.take(i as int), '|'),
        decreases n - i,
    {
        if i > 0 {
            out.push('|');
        }
        out.append(texts[i].as_str());
        proof {
            if i == 0 {
                assert(gtexts2.take(1)[0] == gtexts2[0]);
                assert(out@ =~= gtexts2[0]);
                assert(join_with(gtexts2.take(1), '|') == gtexts2.take(1)[0]);
            } else {
                lemma_join_snoc(gtexts2.take(i as int), gtexts2[i as int], '|');
                assert(gtexts2.take(i as int).push(gtexts2[i as int]) =~= gtexts2.take(
                    i as int + 1,
                ));
                assert(out@ =~= join_with(gtexts2.take(i as int), '|') + seq!['|'] + gtexts2[
                    i as int]);
            }
        }
        i = i + 1;
    }
    proof {
        assert(gtexts2.take(n as int) =~= gtexts2);
    }
    if pl.background {
        out.push('&');
    }
    out
}

} // verus!
