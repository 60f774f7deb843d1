//! Pipeline execution decisions.

use agx::executor::ExecSession;
use agx::plan::{PlanStep, WorkflowPlan};
use agx::registry::ToolRegistry;

fn step(n: u32, command: &str) -> PlanStep {
    PlanStep {
        task_number: n,
        command: command.into(),
        args: vec![],
        timeout_secs: 300,
        input_from_task: if n > 1 { Some(n - 1) } else { None },
    }
}

#[test]
fn empty_plan_returns_input_unchanged() {
    let plan = WorkflowPlan { plan_id: None, plan_description: None, tasks: vec![] };
    let registry = ToolRegistry::new();
    let input = b"alpha\nbeta\n".to_vec();
    let session = ExecSession::prepare(&plan, &registry, input.clone()).unwrap();
    assert!(session.finished());
    assert_eq!(session.into_output(), input);
}

#[test]
fn unknown_tool_fails_before_anything_runs() {
    let plan = WorkflowPlan {
        plan_id: None,
        plan_description: None,
        tasks: vec![step(1, "sort"), step(2, "does-not-exist")],
    };
    let registry = ToolRegistry::new();
    let err = ExecSession::prepare(&plan, &registry, vec![]).unwrap_err();
    assert_eq!(err, "unknown tool in plan: does-not-exist");
}

#[test]
fn policy_failure_reports_status_and_trimmed_stderr() {
    let plan = WorkflowPlan {
        plan_id: None,
        plan_description: None,
        tasks: vec![step(1, "sort")],
    };
    let registry = ToolRegistry::new();
    let mut session = ExecSession::prepare(&plan, &registry, b"in".to_vec()).unwrap();
    assert!(!session.finished());
    let err = session
        .on_stage_output(Some(2), false, vec![], "  boom: bad flag \n")
        .unwrap_err();
    assert_eq!(err, "command 'sort' failed with status 2: boom: bad flag");
    assert!(!session.finished());
}

#[test]
fn grep_no_match_exit_code_is_policy_success() {
    let plan = WorkflowPlan {
        plan_id: None,
        plan_description: None,
        tasks: vec![step(1, "grep")],
    };
    let registry = ToolRegistry::new();
    let mut session = ExecSession::prepare(&plan, &registry, b"in".to_vec()).unwrap();
    session.on_stage_output(Some(1), false, b"".to_vec(), "").expect("exit 1 is in grep's ok set");
    assert!(session.finished());
    assert_eq!(session.into_output(), b"".to_vec());
}

#[test]
fn stages_chain_the_buffer() {
    let plan = WorkflowPlan {
        plan_id: None,
        plan_description: None,
        tasks: vec![step(1, "sort"), step(2, "uniq")],
    };
    let registry = ToolRegistry::new();
    let mut session = ExecSession::prepare(&plan, &registry, b"b\na\nb\n".to_vec()).unwrap();

    let first = session.current_stage().expect("first stage").clone();
    assert_eq!(first.command, "sort");
    assert_eq!(session.data(), &b"b\na\nb\n".to_vec());
    session.on_stage_output(Some(0), true, b"a\nb\nb\n".to_vec(), "").unwrap();

    let second = session.current_stage().expect("second stage").clone();
    assert_eq!(second.command, "uniq");
    assert_eq!(session.data(), &b"a\nb\nb\n".to_vec());
    session.on_stage_output(Some(0), true, b"a\nb\n".to_vec(), "").unwrap();

    assert!(session.finished());
    assert_eq!(session.into_output(), b"a\nb\n".to_vec());
}
