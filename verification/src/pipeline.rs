//! The parsed, validated representation of one command line: an ordered,
//! non-empty sequence of stages, optional input and output redirection files,
//! and a background flag. A description is built fresh per line and carries no
//! cross-line state.

use vstd::prelude::*;

verus! {

/// One pipeline segment: the executable name followed by its arguments.
#[derive(Clone, PartialEq, Eq, Debug)]
pub struct Stage {
    /// The argument vector; `argv[0]` is the executable name, resolved via the
    /// search-path convention at execution time.
    pub argv: Vec<String>,
}

impl View for Stage {
    type V = Seq<Seq<char>>;

    open spec fn view(&self) -> Seq<Seq<char>> {
        self.argv.deep_view()
    }
}

/// The mathematical shape of a pipeline description: each stage an ordered
/// sequence of words, each word a sequence of characters.
pub struct PipelineView {
    /// Whether the parent should not block on completion.
    pub background: bool,
    /// File to attach as the first stage's standard input, if any.
    pub input: Option<Seq<char>>,
    /// File to attach as the last stage's standard output, if any.
    pub output: Option<Seq<char>>,
    /// The argument vectors of the stages, in pipeline order.
    pub stages: Seq<Seq<Seq<char>>>,
}

/// The parsed, validated representation of one command line.
#[derive(Clone, PartialEq, Eq, Debug)]
pub struct PipelineDescription {
    /// If true, the parent does not block on completion.
    pub background: bool,
    /// File to attach as the first stage's standard input; attaches only to
    /// stage 0.
    pub input_path: Option<String>,
    /// File to attach as the last stage's standard output; attaches only to
    /// the final stage.
    pub output_path: Option<String>,
    /// The stages, in pipeline order; never empty for a parsed line.
    pub stages: Vec<Stage>,
}

impl View for PipelineDescription {
    type V = PipelineView;

    open spec fn view(&self) -> PipelineView {
        PipelineView {
            background: self.background,
            input: self.input_path.deep_view(),
            output: self.output_path.deep_view(),
            stages: Seq::new(self.stages@.len(), |i: int| self.stages@[i]@),
        }
    }
}

/// A pipeline description as the parser promises it: at least one stage, every
/// stage with at least one word, no null byte in any word, and non-empty
/// redirection targets.
pub open spec fn wf_pipeline(p: PipelineView) -> bool {
    &&& p.stages.len() >= 1
    &&& forall|i: int| 0 <= i < p.stages.len() ==> (#[trigger] p.stages[i]).len() >= 1
    &&& forall|i: int, j: int|
        0 <= i < p.stages.len() && 0 <= j < p.stages[i].len() ==> !(
        #[trigger] p.stages[i][j]).contains('\0')
    &&& match p.input {
        Some(f) => f.len() >= 1,
        None => true,
    }
    &&& match p.output {
        Some(f) => f.len() >= 1,
        None => true,
    }
}

/// Why a command line was rejected.
#[derive(Clone, Copy, PartialEq, Eq, Debug)]
pub enum ParseError {
    /// Nothing but blanks (and possibly one trailing ampersand) on the line.
    EmptyCommand,
    /// More than one input redirection character in the first segment.
    InvalidInputRedirection,
    /// An input redirection character with nothing after it.
    MissingInputFilename,
    /// More than one output redirection character in the last segment.
    InvalidOutputRedirection,
    /// An output redirection character with nothing after it.
    MissingOutputFilename,
    /// A pipeline segment with no words.
    EmptySegment,
    /// A null byte inside a word: illegal in process arguments.
    NulInArgument,
}

impl ParseError {
    /// A short description of the error, for display by the surrounding loop.
    pub fn message(&self) -> (r: &'static str)
        ensures
            r@ == match *self {
                ParseError::EmptyCommand => "empty command"@,
                ParseError::InvalidInputRedirection => "invalid input redirection"@,
                ParseError::MissingInputFilename => "missing input filename"@,
                ParseError::InvalidOutputRedirection => "invalid output redirection"@,
                ParseError::MissingOutputFilename => "missing output filename"@,
                ParseError::EmptySegment => "empty pipeline segment"@,
                ParseError::NulInArgument => "NUL in arg"@,
            },
    {
        match self {
            ParseError::EmptyCommand => "empty command",
            ParseError::InvalidInputRedirection => "invalid input redirection",
            ParseError::MissingInputFilename => "missing input filename",
            ParseError::InvalidOutputRedirection => "invalid output redirection",
            ParseError::MissingOutputFilename => "missing output filename",
            ParseError::EmptySegment => "empty pipeline segment",
            ParseError::NulInArgument => "NUL in arg",
        }
    }
}

} // verus!
