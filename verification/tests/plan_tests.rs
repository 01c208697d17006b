use vssh::parse::parse_line;
use vssh::plan::build_plan;
use vssh::plan::wait_completes;
use vssh::plan::StdinWiring;
use vssh::plan::StdoutWiring;
use vssh::plan::WaitEvent;
use vssh::plan::EXEC_FAILURE_STATUS;

#[test]
fn single_stage_with_output_file() {
    let p = parse_line("echo hi > f.txt").unwrap();
    let plan = build_plan(&p);
    assert!(!plan.background);
    assert_eq!(plan.stages.len(), 1);
    assert_eq!(plan.stages[0].argv, vec!["echo", "hi"]);
    assert_eq!(plan.stages[0].stdin, StdinWiring::Inherit);
    assert_eq!(plan.stages[0].stdout, StdoutWiring::ToFile("f.txt".to_string()));
    assert!(!plan.stages[0].opens_channel);
}

#[test]
fn three_stage_wiring() {
    let p = parse_line("printf 'b\na\nc\n' | sort | head -n 2").unwrap();
    let plan = build_plan(&p);
    assert!(!plan.background);
    assert_eq!(plan.stages.len(), 3);
    assert_eq!(plan.stages[0].argv, vec!["printf", "b\na\nc\n"]);
    assert_eq!(plan.stages[1].argv, vec!["sort"]);
    assert_eq!(plan.stages[2].argv, vec!["head", "-n", "2"]);
    assert_eq!(plan.stages[0].stdin, StdinWiring::Inherit);
    assert_eq!(plan.stages[0].stdout, StdoutWiring::ToChannel);
    assert!(plan.stages[0].opens_channel);
    assert_eq!(plan.stages[1].stdin, StdinWiring::FromChannel);
    assert_eq!(plan.stages[1].stdout, StdoutWiring::ToChannel);
    assert!(plan.stages[1].opens_channel);
    assert_eq!(plan.stages[2].stdin, StdinWiring::FromChannel);
    assert_eq!(plan.stages[2].stdout, StdoutWiring::Inherit);
    assert!(!plan.stages[2].opens_channel);
}

#[test]
fn input_file_applies_only_to_first_stage() {
    let p = parse_line("sort < in.txt | head").unwrap();
    let plan = build_plan(&p);
    assert_eq!(plan.stages.len(), 2);
    assert_eq!(plan.stages[0].stdin, StdinWiring::FromFile("in.txt".to_string()));
    assert_eq!(plan.stages[0].stdout, StdoutWiring::ToChannel);
    assert_eq!(plan.stages[1].stdin, StdinWiring::FromChannel);
    assert_eq!(plan.stages[1].stdout, StdoutWiring::Inherit);
}

#[test]
fn background_plan_does_not_wait() {
    let p = parse_line("sleep 5 &").unwrap();
    let plan = build_plan(&p);
    assert!(plan.background);
    assert_eq!(plan.stages.len(), 1);
    assert_eq!(plan.stages[0].argv, vec!["sleep", "5"]);
}

#[test]
fn wait_loop_retries_until_exit_or_signal() {
    assert!(wait_completes(&WaitEvent::Exited(0)));
    assert!(wait_completes(&WaitEvent::Exited(EXEC_FAILURE_STATUS)));
    assert!(wait_completes(&WaitEvent::Signaled(9)));
    assert!(!wait_completes(&WaitEvent::Stopped));
    assert!(!wait_completes(&WaitEvent::Continued));
    assert!(!wait_completes(&WaitEvent::Other));
}

#[test]
fn exec_failure_status_is_reserved() {
    assert_eq!(EXEC_FAILURE_STATUS, 127);
}
