use vssh::builtin::cd_target;
use vssh::builtin::CdError;
use vssh::parse::parse_line;
use vssh::pipeline::ParseError;
use vssh::pipeline::PipelineDescription;
use vssh::pipeline::Stage;
use vssh::render::render;
use vssh::tokenize::shell_split;

fn stage(words: &[&str]) -> Stage {
    Stage { argv: words.iter().map(|w| w.to_string()).collect() }
}

#[test]
fn plain_line_is_one_stage() {
    let p = parse_line("echo hi there").unwrap();
    assert_eq!(p.stages.len(), 1);
    assert_eq!(p.stages[0].argv, vec!["echo", "hi", "there"]);
    assert!(!p.background);
    assert!(p.input_path.is_none());
    assert!(p.output_path.is_none());
    let toks = shell_split("echo hi there");
    assert_eq!(p.stages[0].argv, toks);
}

#[test]
fn three_stages() {
    let p = parse_line("cmd1 | cmd2 | cmd3").unwrap();
    assert_eq!(p.stages.len(), 3);
    assert_eq!(p.stages[0].argv, vec!["cmd1"]);
    assert_eq!(p.stages[1].argv, vec!["cmd2"]);
    assert_eq!(p.stages[2].argv, vec!["cmd3"]);
    assert!(!p.background);
    assert!(p.input_path.is_none());
    assert!(p.output_path.is_none());
}

#[test]
fn both_redirections_on_one_stage() {
    let p = parse_line("sort < in.txt > out.txt").unwrap();
    assert_eq!(p.stages.len(), 1);
    assert_eq!(p.stages[0].argv, vec!["sort"]);
    assert_eq!(p.input_path.as_deref(), Some("in.txt"));
    assert_eq!(p.output_path.as_deref(), Some("out.txt"));
    assert!(!p.background);
}

#[test]
fn trailing_ampersand_sets_background() {
    let p = parse_line("cmd &").unwrap();
    assert!(p.background);
    assert_eq!(p.stages.len(), 1);
    assert_eq!(p.stages[0].argv, vec!["cmd"]);
}

#[test]
fn quoted_whitespace_stays_in_one_token() {
    let toks = shell_split("a 'b c' d");
    assert_eq!(toks, vec!["a", "b c", "d"]);
}

#[test]
fn adjacent_fragments_make_one_token() {
    let toks = shell_split("a\"b c\"d");
    assert_eq!(toks, vec!["ab cd"]);
}

#[test]
fn unterminated_quote_closes_at_end() {
    let toks = shell_split("a 'b c");
    assert_eq!(toks, vec!["a", "b c"]);
}

#[test]
fn blanks_only_yields_no_tokens() {
    let toks = shell_split(" \t  ");
    assert!(toks.is_empty());
}

#[test]
fn empty_segments_are_rejected() {
    assert_eq!(parse_line("a |").unwrap_err(), ParseError::EmptySegment);
    assert_eq!(parse_line("| a").unwrap_err(), ParseError::EmptySegment);
    assert_eq!(parse_line("").unwrap_err(), ParseError::EmptyCommand);
}

#[test]
fn redirection_errors() {
    assert_eq!(
        parse_line("a < b < c").unwrap_err(),
        ParseError::InvalidInputRedirection
    );
    assert_eq!(parse_line("a <").unwrap_err(), ParseError::MissingInputFilename);
    assert_eq!(
        parse_line("a > b > c").unwrap_err(),
        ParseError::InvalidOutputRedirection
    );
    assert_eq!(parse_line("a >").unwrap_err(), ParseError::MissingOutputFilename);
}

#[test]
fn nul_byte_in_argument_is_rejected() {
    assert_eq!(parse_line("echo a\0b").unwrap_err(), ParseError::NulInArgument);
}

#[test]
fn error_messages() {
    assert_eq!(ParseError::EmptyCommand.message(), "empty command");
    assert_eq!(ParseError::EmptySegment.message(), "empty pipeline segment");
    assert_eq!(ParseError::InvalidInputRedirection.message(), "invalid input redirection");
    assert_eq!(ParseError::MissingInputFilename.message(), "missing input filename");
    assert_eq!(ParseError::InvalidOutputRedirection.message(), "invalid output redirection");
    assert_eq!(ParseError::MissingOutputFilename.message(), "missing output filename");
    assert_eq!(ParseError::NulInArgument.message(), "NUL in arg");
}

#[test]
fn render_then_parse_reproduces_description() {
    let p = PipelineDescription {
        background: true,
        input_path: Some("in.txt".to_string()),
        output_path: Some("out.txt".to_string()),
        stages: vec![stage(&["grep", "-v", "x"]), stage(&["sort", "-r"]), stage(&["head"])],
    };
    let text = render(&p);
    assert_eq!(text, "grep -v x<in.txt|sort -r|head>out.txt&");
    let q = parse_line(&text).unwrap();
    assert_eq!(q, p);
}

#[test]
fn render_single_stage_round_trip() {
    let p = PipelineDescription {
        background: false,
        input_path: Some("a b".to_string()),
        output_path: Some("f.txt".to_string()),
        stages: vec![stage(&["echo", "hi"])],
    };
    let text = render(&p);
    assert_eq!(text, "echo hi<a b>f.txt");
    let q = parse_line(&text).unwrap();
    assert_eq!(q, p);
}

#[test]
fn pipes_without_spaces() {
    let p = parse_line("cmd1|cmd2").unwrap();
    assert_eq!(p.stages.len(), 2);
    assert_eq!(p.stages[0].argv, vec!["cmd1"]);
    assert_eq!(p.stages[1].argv, vec!["cmd2"]);
}

#[test]
fn tabs_separate_tokens() {
    let p = parse_line("a\tb").unwrap();
    assert_eq!(p.stages[0].argv, vec!["a", "b"]);
}

#[test]
fn lone_ampersand_is_empty_command() {
    assert_eq!(parse_line("&").unwrap_err(), ParseError::EmptyCommand);
    assert_eq!(parse_line("   ").unwrap_err(), ParseError::EmptyCommand);
}

#[test]
fn background_pipeline() {
    let p = parse_line("a | b &").unwrap();
    assert!(p.background);
    assert_eq!(p.stages.len(), 2);
    assert_eq!(p.stages[0].argv, vec!["a"]);
    assert_eq!(p.stages[1].argv, vec!["b"]);
}

#[test]
fn quotes_of_the_other_kind_are_kept() {
    assert_eq!(shell_split("\"a'b\""), vec!["a'b"]);
    assert_eq!(shell_split("'a\"b'"), vec!["a\"b"]);
}

#[test]
fn parse_render_parse_is_stable() {
    let p = parse_line("grep x < in | sort > out &").unwrap();
    assert_eq!(p.input_path.as_deref(), Some("in"));
    assert_eq!(p.output_path.as_deref(), Some("out"));
    let text = render(&p);
    let q = parse_line(&text).unwrap();
    assert_eq!(q, p);
}

#[test]
fn cd_line_with_target() {
    assert_eq!(cd_target("cd /tmp", None), Ok("/tmp".to_string()));
}

#[test]
fn cd_line_without_target_uses_home() {
    assert_eq!(cd_target("cd", Some("/home/u".to_string())), Ok("/home/u".to_string()));
    assert_eq!(cd_target("cd", None), Err(CdError::HomeNotSet));
    assert_eq!(CdError::HomeNotSet.message(), "HOME not set");
}
