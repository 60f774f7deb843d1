//! Plan recovery, quote repair, and normalization.

use agx::plan::{PlanStep, WorkflowPlan};
use agx::plan_parse::repair_unescaped_quotes;

#[test]
fn repairs_unescaped_quotes_in_args() {
    let broken = r#"{
            "plan": [
                {"cmd": "sort"},
                {"cmd": "awk", "args": ["-F"/"/,NR==1;print length($NF)"]}
            ]
        }"#;

    let plan = WorkflowPlan::from_str(broken).expect("plan should be repaired");
    assert_eq!(plan.tasks.len(), 2);
    assert_eq!(plan.tasks[1].command, "awk");
    assert_eq!(plan.tasks[1].args, vec!["-F\"/\",NR==1;print length($NF)".to_string()]);
}

#[test]
fn leaves_valid_json_unchanged() {
    let valid = r#"{"plan":[{"cmd":"cat","args":["file.txt"]}]}"#;
    let repaired = repair_unescaped_quotes(valid);

    assert_eq!(valid, repaired);
}

#[test]
fn repairs_awk_argument_to_one_task() {
    let broken = r#"{"plan":[{"cmd":"awk","args":["-F"/"/,NR==1;print length($NF)"]}]}"#;
    let plan = WorkflowPlan::from_str(broken).expect("plan should be repaired");
    assert_eq!(plan.tasks.len(), 1);
    assert_eq!(plan.tasks[0].command, "awk");
    assert_eq!(plan.tasks[0].args, vec!["-F\"/\",NR==1;print length($NF)".to_string()]);
}

#[test]
fn simple_uniq_normalizes_to_sort_then_uniq() {
    let plan = WorkflowPlan::from_str(r#"{"plan":["uniq"]}"#).expect("simple plan parses");
    let normalized = plan.normalize_for_execution();
    assert_eq!(normalized.tasks.len(), 2);
    assert_eq!(normalized.tasks[0].command, "sort");
    assert_eq!(normalized.tasks[0].task_number, 1);
    assert_eq!(normalized.tasks[1].command, "uniq");
    assert_eq!(normalized.tasks[1].task_number, 2);
    assert_eq!(normalized.tasks[1].input_from_task, Some(1));
}

#[test]
fn normalize_twice_is_the_same() {
    let plan = WorkflowPlan {
        plan_id: None,
        plan_description: None,
        tasks: vec![
            PlanStep {
                task_number: 7,
                command: "grep".into(),
                args: vec!["-v".into(), "noise".into()],
                timeout_secs: 30,
                input_from_task: None,
            },
            PlanStep {
                task_number: 9,
                command: "sort".into(),
                args: vec![],
                timeout_secs: 300,
                input_from_task: Some(7),
            },
        ],
    };
    let once = plan.normalize_for_execution();
    let twice = once.clone().normalize_for_execution();
    assert_eq!(once.tasks.len(), twice.tasks.len());
    for (a, b) in once.tasks.iter().zip(twice.tasks.iter()) {
        assert_eq!(a.task_number, b.task_number);
        assert_eq!(a.command, b.command);
        assert_eq!(a.args, b.args);
        assert_eq!(a.timeout_secs, b.timeout_secs);
        assert_eq!(a.input_from_task, b.input_from_task);
    }
}

#[test]
fn normalization_renumbers_contiguously() {
    let plan = WorkflowPlan::from_str(
        r#"{"tasks":[
            {"task_number":5,"command":"grep","args":["x"]},
            {"task_number":9,"command":"sort"},
            {"task_number":2,"command":"uniq"}
        ]}"#,
    )
    .expect("canonical plan parses");
    let normalized = plan.normalize_for_execution();
    for (i, task) in normalized.tasks.iter().enumerate() {
        assert_eq!(task.task_number as usize, i + 1);
    }
}

#[test]
fn strips_markdown_fence() {
    let fenced = "```json\n{\"plan\":[\"sort\"]}\n```";
    let plan = WorkflowPlan::from_str(fenced).expect("fenced plan parses");
    assert_eq!(plan.tasks.len(), 1);
    assert_eq!(plan.tasks[0].command, "sort");
}

#[test]
fn extracts_plan_from_surrounding_prose() {
    let noisy = "Here is your plan: {\"plan\":[\"sort\",\"uniq\"]} hope it helps!";
    let plan = WorkflowPlan::from_str(noisy).expect("embedded plan parses");
    assert_eq!(plan.tasks.len(), 2);
    assert_eq!(plan.tasks[0].command, "sort");
    assert_eq!(plan.tasks[1].command, "uniq");
}

#[test]
fn legacy_plan_defaults_and_numbering() {
    let plan = WorkflowPlan::from_str(
        r#"{"plan":[{"cmd":"grep","args":["-i","x"],"timeout_secs":45},
                    {"cmd":"sort","input_from_step":1}]}"#,
    )
    .expect("legacy plan parses");
    assert_eq!(plan.tasks.len(), 2);
    assert_eq!(plan.tasks[0].task_number, 1);
    assert_eq!(plan.tasks[0].timeout_secs, 45);
    assert_eq!(plan.tasks[1].task_number, 2);
    assert_eq!(plan.tasks[1].timeout_secs, 300);
    assert_eq!(plan.tasks[1].input_from_task, Some(1));
}

#[test]
fn bare_array_of_commands_parses() {
    let plan = WorkflowPlan::from_str(r#"["grep","sort","uniq"]"#).expect("bare array parses");
    assert_eq!(plan.tasks.len(), 3);
    assert_eq!(plan.tasks[2].command, "uniq");
    assert_eq!(plan.tasks[2].task_number, 3);
}

#[test]
fn unparseable_text_reports_invalid_json() {
    let err = WorkflowPlan::from_str("this is not even close").unwrap_err();
    assert!(err.describe().contains("invalid JSON"));
}

#[test]
fn valid_json_of_unknown_shape_is_refused() {
    let err = WorkflowPlan::from_str(r#"{"something":"else"}"#).unwrap_err();
    assert!(err.describe().contains("plan shape"));
}

#[test]
fn append_tasks_preserves_dependencies() {
    let mut buffer = WorkflowPlan {
        plan_id: None,
        plan_description: None,
        tasks: vec![
            PlanStep {
                task_number: 1,
                command: "cat".into(),
                args: vec![],
                timeout_secs: 300,
                input_from_task: None,
            },
            PlanStep {
                task_number: 2,
                command: "sort".into(),
                args: vec![],
                timeout_secs: 300,
                input_from_task: Some(1),
            },
        ],
    };
    let fresh = vec![PlanStep {
        task_number: 1,
        command: "uniq".into(),
        args: vec![],
        timeout_secs: 300,
        input_from_task: None,
    }];
    buffer.append_tasks(fresh);
    assert_eq!(buffer.tasks.len(), 3);
    assert_eq!(buffer.tasks[2].task_number, 3);
    assert_eq!(buffer.tasks[2].input_from_task, None);
}

#[test]
fn plan_append_preserves_task_dependencies() {
    let mut buffer = WorkflowPlan {
        plan_id: None,
        plan_description: None,
        tasks: vec![
            PlanStep {
                task_number: 1,
                command: "cat".into(),
                args: vec![],
                timeout_secs: 300,
                input_from_task: None,
            },
            PlanStep {
                task_number: 2,
                command: "sort".into(),
                args: vec![],
                timeout_secs: 300,
                input_from_task: Some(1),
            },
        ],
    };

    let new_plan = WorkflowPlan {
        plan_id: None,
        plan_description: None,
        tasks: vec![PlanStep {
            task_number: 1,
            command: "uniq".into(),
            args: vec![],
            timeout_secs: 300,
            input_from_task: None,
        }],
    };

    buffer.append_tasks(new_plan.tasks);

    assert_eq!(buffer.tasks.len(), 3);
    assert_eq!(buffer.tasks[0].task_number, 1);
    assert_eq!(buffer.tasks[0].command, "cat");
    assert_eq!(buffer.tasks[0].input_from_task, None);

    assert_eq!(buffer.tasks[1].task_number, 2);
    assert_eq!(buffer.tasks[1].command, "sort");
    assert_eq!(buffer.tasks[1].input_from_task, Some(1));

    assert_eq!(buffer.tasks[2].task_number, 3);
    assert_eq!(buffer.tasks[2].command, "uniq");
    assert_eq!(buffer.tasks[2].input_from_task, None);
}

#[test]
fn encode_then_decode_keeps_every_task_field() {
    let plan = WorkflowPlan {
        plan_id: Some("plan-7".into()),
        plan_description: Some("three stages".into()),
        tasks: vec![
            PlanStep {
                task_number: 1,
                command: "grep".into(),
                args: vec!["-e".into(), "a\"b\\c".into()],
                timeout_secs: 12,
                input_from_task: None,
            },
            PlanStep {
                task_number: 2,
                command: "sort".into(),
                args: vec![],
                timeout_secs: 300,
                input_from_task: Some(1),
            },
            PlanStep {
                task_number: 3,
                command: "uniq".into(),
                args: vec!["-c".into()],
                timeout_secs: 1,
                input_from_task: Some(2),
            },
        ],
    };
    let text = plan.to_json_text();
    let back = WorkflowPlan::from_str(text.as_str()).expect("printed plan parses");
    assert_eq!(back.plan_id, plan.plan_id);
    assert_eq!(back.plan_description, plan.plan_description);
    assert_eq!(back.tasks.len(), plan.tasks.len());
    for (a, b) in plan.tasks.iter().zip(back.tasks.iter()) {
        assert_eq!(a.task_number, b.task_number);
        assert_eq!(a.command, b.command);
        assert_eq!(a.args, b.args);
        assert_eq!(a.timeout_secs, b.timeout_secs);
        assert_eq!(a.input_from_task, b.input_from_task);
    }
}

#[test]
fn unknown_fractional_fields_are_ignored() {
    let plan = WorkflowPlan::from_str(
        r#"{"tasks":[{"task_number":1,"command":"sort"}],"confidence":0.9}"#,
    )
    .expect("extra non-integer field is passed over");
    assert_eq!(plan.tasks.len(), 1);
    assert_eq!(plan.tasks[0].command, "sort");
}

#[test]
fn fractional_schema_field_is_refused() {
    let err = WorkflowPlan::from_str(
        r#"{"tasks":[{"task_number":1,"command":"sort","timeout_secs":0.9}]}"#,
    )
    .unwrap_err();
    assert!(err.describe().contains("plan shape"));
}
