//! The line parser: turns one raw command line into a pipeline description.
//! In order: trim the line; a trailing ampersand sets the background flag and
//! is removed; the rest splits on the pipe character into trimmed segments;
//! the last segment may carry one output redirection and the first segment one
//! input redirection; each remaining segment tokenizes into one stage.
//! Redirections are read on raw segment text, before tokenization, so a
//! redirection character inside quotes is still taken as an operator: an
//! accepted limitation of the grammar.

use vstd::prelude::*;
use vstd::pervasive::VecAdditionalExecFns;
use crate::pipeline::ParseError;
use crate::pipeline::PipelineDescription;
use crate::pipeline::PipelineView;
use crate::pipeline::Stage;
use crate::split::spec_split;
use crate::split::split_on;
use crate::text::spec_trim;
use crate::text::spec_trim_end;
use crate::text::string_from_chars;
use crate::text::to_chars;
use crate::text::trim_chars;
use crate::text::trim_end_chars;
use crate::text::contains_char;
use crate::tokenize::spec_tokenize;
use crate::tokenize::tokenize_chars;
use crate::tokenize::words_lack;

verus! {

/// The background flag and the text that remains once a trailing ampersand
/// and outer blanks are removed.
pub open spec fn spec_strip_background(line: Seq<char>) -> (bool, Seq<char>) {
    let t = spec_trim(line);
    if t.len() > 0 && t.last() == '&' {
        (true, spec_trim_end(t.drop_last()))
    } else {
        (false, t)
    }
}

/// Outcome of inspecting one segment for a redirection character.
pub enum RedirectSplit {
    /// The segment has no redirection character.
    Absent,
    /// Exactly one redirection character: the remaining segment text and the
    /// trimmed, non-empty target.
    Target(Seq<char>, Seq<char>),
    /// More than one redirection character.
    TooMany,
    /// A redirection character whose target is empty after trimming.
    MissingTarget,
}

/// How one segment splits on a redirection character.
pub open spec fn spec_redirect(seg: Seq<char>, sep: char) -> RedirectSplit {
    let parts = spec_split(seg, sep);
    if parts.len() == 1 {
        RedirectSplit::Absent
    } else if parts.len() != 2 {
        RedirectSplit::TooMany
    } else if spec_trim(parts[1]).len() == 0 {
        RedirectSplit::MissingTarget
    } else {
        RedirectSplit::Target(spec_trim(parts[0]), spec_trim(parts[1]))
    }
}

/// The stages made of the segments from `i` on: each segment tokenizes to a
/// non-empty argument vector free of null bytes, or the first offence is the
/// error.
pub open spec fn spec_stages_from(segs: Seq<Seq<char>>, i: int) -> Result<
    Seq<Seq<Seq<char>>>,
    ParseError,
>
    decreases segs.len() - i,
{
    if i < 0 || i >= segs.len() {
        Ok(Seq::empty())
    } else {
        let toks = spec_tokenize(segs[i]);
        if toks.len() == 0 {
            Err(ParseError::EmptySegment)
        } else if !words_lack(toks, '\0') {
            Err(ParseError::NulInArgument)
        } else {
            match spec_stages_from(segs, i + 1) {
                Ok(rest) => Ok(seq![toks] + rest),
                Err(e) => Err(e),
            }
        }
    }
}

/// What parsing one command line yields: the pipeline description, or the
/// first error in parsing order. Output redirection is read before input
/// redirection, so that a single segment may carry both, written input first.
pub open spec fn spec_parse(line: Seq<char>) -> Result<PipelineView, ParseError> {
    let bt = spec_strip_background(line);
    let background = bt.0;
    let t = bt.1;
    if t.len() == 0 {
        Err(ParseError::EmptyCommand)
    } else {
        let segs = spec_split(t, '|').map_values(|s: Seq<char>| spec_trim(s));
        let last = segs.len() - 1;
        match spec_redirect(segs[last], '>') {
            RedirectSplit::TooMany => Err(ParseError::InvalidOutputRedirection),
            RedirectSplit::MissingTarget => Err(ParseError::MissingOutputFilename),
            out_split => {
                let output = match out_split {
                    RedirectSplit::Target(_, f) => Some(f),
                    _ => None,
                };
                let segs1 = match out_split {
                    RedirectSplit::Target(cmd, _) => segs.update(last, cmd),
                    _ => segs,
                };
                match spec_redirect(segs1[0], '<') {
                    RedirectSplit::TooMany => Err(ParseError::InvalidInputRedirection),
                    RedirectSplit::MissingTarget => Err(ParseError::MissingInputFilename),
                    in_split => {
                        let input = match in_split {
                            RedirectSplit::Target(_, f) => Some(f),
                            _ => None,
                        };
                        let segs2 = match in_split {
                            RedirectSplit::Target(cmd, _) => segs1.update(0, cmd),
                            _ => segs1,
                        };
                        match spec_stages_from(segs2, 0) {
                            Ok(stages) => Ok(
                                PipelineView { background, input, output, stages },
                            ),
                            Err(e) => Err(e),
                        }
                    },
                }
            },
        }
    }
}

/// Parse one command line into a pipeline description, or report the first
/// error in parsing order.
#[verifier::loop_isolation(false)]
pub fn parse_line(line: &str) -> (r: Result<PipelineDescription, ParseError>)
    ensures
        match r {
            Ok(p) => spec_parse(line@) == Ok::<PipelineView, ParseError>(p@),
            Err(e) => spec_parse(line@) == Err::<PipelineView, ParseError>(e),
        },
{
    let chars = to_chars(line);
    let t0 = trim_chars(&chars);
    let mut background = false;
    let mut t = t0;
    if t.len() > 0 && t[t.len() - 1] == '&' {
        background = true;
        t.pop();
        let t2 = trim_end_chars(&t);
        t = t2;
    }
    proof {
        assert(spec_strip_background(line@).0 == background);
        assert(spec_strip_background(line@).1 == t@);
    }
    if t.len() == 0 {
        return Err(ParseError::EmptyCommand);
    }
    let raw = split_on(&t, '|');
    let ghost gsegs = spec_split(t@, '|').map_values(|s: Seq<char>| spec_trim(s));
    let mut segs: Vec<Vec<char>> = Vec::new();
    let mut i: usize = 0;
    while i < raw.len()
        invariant
            i <= raw@.len(),
            segs@.len() == i,
            gsegs == spec_split(t@, '|').map_values(|s: Seq<char>| spec_trim(s)),
            raw.deep_view() == spec_split(t@, '|'),
            forall|k: int| 0 <= k < i ==> (#[trigger] segs@[k])@ == gsegs[k],
        decreases raw@.len() - i,
    {
        let piece = trim_chars(&raw[i]);
        proof {
            assert(raw@[i as int].deep_view() =~= raw@[i as int]@);
            assert(raw.deep_view()[i as int] == raw@[i as int].deep_view());
        }
        segs.push(piece);
        i = i + 1;
    }
    proof {
        assert(segs.deep_view() =~~= gsegs);
    }
    // Output redirection, inspected on the last segment first so that a
    // single segment may carry an input and an output redirection.
    let last = segs.len() - 1;
    let oparts = split_on(&segs[last], '>');
    proof {
        assert(segs@[last as int].deep_view() =~= segs@[last as int]@);
        assert(oparts.deep_view() == spec_split(gsegs[last as int], '>'));
    }
    let mut output: Option<Vec<char>> = None;
    if oparts.len() == 2 {
        let f = trim_chars(&oparts[1]);
        proof {
            assert(oparts@[1].deep_view() =~= oparts@[1]@);
            assert(f@ == spec_trim(oparts.deep_view()[1]));
        }
        if f.len() == 0 {
            proof {
                assert(spec_redirect(gsegs[last as int], '>') is MissingTarget);
            }
            return Err(ParseError::MissingOutputFilename);
        }
        let cmd = trim_chars(&oparts[0]);
        proof {
            assert(oparts@[0].deep_view() =~= oparts@[0]@);
            assert(cmd@ == spec_trim(oparts.deep_view()[0]));
        }
        segs.set(last, cmd);
        output = Some(f);
    } else if oparts.len() > 2 {
        proof {
            assert(spec_redirect(gsegs[last as int], '>') is TooMany);
        }
        return Err(ParseError::InvalidOutputRedirection);
    }
    let ghost gsegs1 = match spec_redirect(gsegs[last as int], '>') {
        RedirectSplit::Target(cmd, _) => gsegs.update(last as int, cmd),
        _ => gsegs,
    };
    proof {
        assert(segs.deep_view() =~~= gsegs1);
    }
    // Input redirection, inspected on the first segment.
    let iparts = split_on(&segs[0], '<');
    proof {
        assert(segs@[0].deep_view() =~= segs@[0]@);
        assert(iparts.deep_view() == spec_split(gsegs1[0], '<'));
    }
    let mut input: Option<Vec<char>> = None;
    if iparts.len() == 2 {
        let f = trim_chars(&iparts[1]);
        proof {
            assert(iparts@[1].deep_view() =~= iparts@[1]@);
            assert(f@ == spec_trim(iparts.deep_view()[1]));
        }
        if f.len() == 0 {
            proof {
                assert(spec_redirect(gsegs1[0], '<') is MissingTarget);
            }
            return Err(ParseError::MissingInputFilename);
        }
        let cmd = trim_chars(&iparts[0]);
        proof {
            assert(iparts@[0].deep_view() =~= iparts@[0]@);
            assert(cmd@ == spec_trim(iparts.deep_view()[0]));
        }
        segs.set(0, cmd);
        input = Some(f);
    } else if iparts.len() > 2 {
        proof {
            assert(spec_redirect(gsegs1[0], '<') is TooMany);
        }
        return Err(ParseError::InvalidInputRedirection);
    }
    let ghost gsegs2 = match spec_redirect(gsegs1[0], '<') {
        RedirectSplit::Target(cmd, _) => gsegs1.update(0, cmd),
        _ => gsegs1,
    };
    proof {
        assert(segs.deep_view() =~~= gsegs2);
    }
    // Tokenize each segment into one stage.
    let mut stages: Vec<Stage> = Vec::new();
    let mut i: usize = 0;
    while i < segs.len()
        invariant
            i <= segs@.len(),
            stages@.len() == i,
            segs.deep_view() == gsegs2,
            forall|k: int|
                0 <= k < i ==> (#[trigger] stages@[k])@ == spec_tokenize(gsegs2[k]),
            match spec_stages_from(gsegs2, i as int) {
                Ok(rest) => spec_stages_from(gsegs2, 0) == Ok::<_, ParseError>(
                    Seq::new(i as nat, |k: int| stages@[k]@) + rest,
                ),
                Err(e) => spec_stages_from(gsegs2, 0) == Err::<Seq<Seq<Seq<char>>>, _>(e),
            },
        decreases segs@.len() - i,
    {
        let ghost views_i = Seq::new(i as nat, |k: int| stages@[k]@);
        let toks = tokenize_chars(&segs[i]);
        proof {
            assert(segs@[i as int].deep_view() =~= segs@[i as int]@);
            assert(toks.deep_view() == spec_tokenize(gsegs2[i as int]));
        }
        if toks.len() == 0 {
            proof {
                assert(spec_stages_from(gsegs2, i as int) == Err::<Seq<Seq<Seq<char>>>, ParseError>(
                    ParseError::EmptySegment,
                ));
            }
            return Err(ParseError::EmptySegment);
        }
        let mut j: usize = 0;
        while j < toks.len()
            invariant
                j <= toks@.len(),
                toks.deep_view() == spec_tokenize(gsegs2[i as int]),
                forall|k: int| 0 <= k < j ==> !(#[trigger] toks@[k])@.contains('\0'),
            decreases toks@.len() - j,
        {
            if contains_char(&toks[j], '\0') {
                proof {
                    assert(toks@[j as int].deep_view() =~= toks@[j as int]@);
                    assert(toks.deep_view()[j as int].contains('\0'));
                    assert(!words_lack(toks.deep_view(), '\0'));
                    assert(spec_stages_from(gsegs2, i as int) == Err::<
                        Seq<Seq<Seq<char>>>,
                        ParseError,
                    >(ParseError::NulInArgument));
                }
                return Err(ParseError::NulInArgument);
            }
            j = j + 1;
        }
        proof {
            assert(words_lack(toks.deep_view(), '\0')) by {
                assert forall|k: int|
                    0 <= k < toks.deep_view().len() implies !(#[trigger] toks.deep_view()[
                    k]).contains('\0') by {
                    assert(toks@[k].deep_view() =~= toks@[k]@);
                }
            }
        }
        let mut argv: Vec<String> = Vec::new();
        let mut j: usize = 0;
        while j < toks.len()
            invariant
                j <= toks@.len(),
                argv@.len() == j,
                forall|k: int| 0 <= k < j ==> (#[trigger] argv@[k])@ == toks@[k]@,
            decreases toks@.len() - j,
        {
            let w = string_from_chars(&toks[j]);
            argv.push(w);
            j = j + 1;
        }
        let stage = Stage { argv };
        proof {
            assert(stage@ =~~= toks.deep_view()) by {
                assert forall|k: int|
                    0 <= k < stage@.len() implies stage@[k] == toks.deep_view()[k] by {
                    assert(toks@[k].deep_view() =~= toks@[k]@);
                }
            }
        }
        stages.push(stage);
        i = i + 1;
        proof {
            let views_n = Seq::new(i as nat, |k: int| stages@[k]@);
            assert(views_n =~~= views_i.push(spec_tokenize(gsegs2[i - 1])));
            match spec_stages_from(gsegs2, i as int) {
                Ok(rest) => {
                    assert(views_i + (seq![spec_tokenize(gsegs2[i - 1])] + rest) =~= views_n
                        + rest);
                },
                Err(_) => {},
            }
        }
    }
    proof {
        assert(spec_stages_from(gsegs2, i as int) == Ok::<Seq<Seq<Seq<char>>>, ParseError>(
            Seq::empty(),
        ));
        let views = Seq::new(i as nat, |k: int| stages@[k]@);
        assert(views + Seq::<Seq<Seq<char>>>::empty() =~= views);
    }
    let input_path = match &input {
        Some(v) => Some(string_from_chars(v)),
        None => None,
    };
    let output_path = match &output {
        Some(v) => Some(string_from_chars(v)),
        None => None,
    };
    let p = PipelineDescription { background, input_path, output_path, stages };
    proof {
        let gp = spec_parse(line@);
        assert(gp is Ok);
        assert(p@.stages =~~= gp->Ok_0.stages);
        assert(p@ == gp->Ok_0);
    }
    Ok(p)
}

} // verus!
