//! Envelope building and validation.

use agx::job::{build_job_envelope, EnvelopeValidationError, JobEnvelope, JobTask};
use agx::plan::{PlanStep, WorkflowPlan};

#[test]
fn builds_envelope_with_task_numbers() {
    let plan = WorkflowPlan {
        plan_id: None,
        plan_description: None,
        tasks: vec![
            PlanStep {
                task_number: 1,
                command: "sort".into(),
                args: vec![],
                timeout_secs: 300,
                input_from_task: None,
            },
            PlanStep {
                task_number: 2,
                command: "uniq".into(),
                args: vec![],
                timeout_secs: 30,
                input_from_task: Some(1),
            },
        ],
    };

    let env = JobEnvelope::from_plan(plan, "job-1".into(), "plan-1".into(), Some("desc".into()));
    assert_eq!(env.tasks.len(), 2);
    assert_eq!(env.tasks[0].task_number, 1);
    assert_eq!(env.tasks[1].task_number, 2);
    assert_eq!(env.tasks[1].input_from_task, Some(1));
    assert_eq!(env.tasks[1].timeout_secs, 30);
}

#[test]
fn validates_monotonic_tasks() {
    let env = JobEnvelope {
        job_id: "job".into(),
        plan_id: "plan".into(),
        plan_description: None,
        tasks: vec![
            JobTask {
                task_number: 1,
                command: "c".into(),
                args: vec![],
                timeout_secs: 300,
                input_from_task: None,
            },
            JobTask {
                task_number: 3,
                command: "c".into(),
                args: vec![],
                timeout_secs: 300,
                input_from_task: None,
            },
        ],
    };

    let err = env.validate(10).unwrap_err();
    assert!(matches!(err, EnvelopeValidationError::NonMonotonicTasks));
}

#[test]
fn rejects_invalid_input_refs() {
    let env = JobEnvelope {
        job_id: "job".into(),
        plan_id: "plan".into(),
        plan_description: None,
        tasks: vec![
            JobTask {
                task_number: 1,
                command: "c".into(),
                args: vec![],
                timeout_secs: 300,
                input_from_task: None,
            },
            JobTask {
                task_number: 2,
                command: "c".into(),
                args: vec![],
                timeout_secs: 300,
                input_from_task: Some(5),
            },
        ],
    };

    let err = env.validate(10).unwrap_err();
    assert!(matches!(err, EnvelopeValidationError::BadInputReference(_)));
}

#[test]
fn build_job_envelope_assigns_ids_and_validates() {
    let plan = WorkflowPlan {
        plan_id: None,
        plan_description: None,
        tasks: vec![
            PlanStep {
                task_number: 1,
                command: "sort".into(),
                args: vec![],
                timeout_secs: 300,
                input_from_task: None,
            },
            PlanStep {
                task_number: 2,
                command: "uniq".into(),
                args: vec![],
                timeout_secs: 300,
                input_from_task: Some(1),
            },
        ],
    };

    let env = build_job_envelope(plan, None).expect("envelope should build");
    assert_eq!(env.tasks.len(), 2);
    assert!(!env.job_id.is_empty());
    assert!(!env.plan_id.is_empty());
}

#[test]
fn rejects_empty_plans() {
    let env = JobEnvelope {
        job_id: "job".into(),
        plan_id: "plan".into(),
        plan_description: None,
        tasks: vec![],
    };
    let err = env.validate(10).unwrap_err();
    assert!(matches!(err, EnvelopeValidationError::EmptyTasks));
    assert_eq!(err.describe(), "plan contains no tasks");
}

#[test]
fn rejects_first_task_not_one() {
    let env = JobEnvelope {
        job_id: "job".into(),
        plan_id: "plan".into(),
        plan_description: None,
        tasks: vec![JobTask {
            task_number: 4,
            command: "c".into(),
            args: vec![],
            timeout_secs: 300,
            input_from_task: None,
        }],
    };
    let err = env.validate(10).unwrap_err();
    assert!(matches!(err, EnvelopeValidationError::FirstTaskNotOne(4)));
    assert_eq!(err.describe(), "first task number must be 1 (found 4)");
}

#[test]
fn rejects_too_many_tasks() {
    let tasks: Vec<JobTask> = (1..=3)
        .map(|n| JobTask {
            task_number: n,
            command: "c".into(),
            args: vec![],
            timeout_secs: 300,
            input_from_task: None,
        })
        .collect();
    let env = JobEnvelope {
        job_id: "job".into(),
        plan_id: "plan".into(),
        plan_description: None,
        tasks,
    };
    let err = env.validate(2).unwrap_err();
    assert!(matches!(err, EnvelopeValidationError::TooManyTasks(3)));
    assert_eq!(err.describe(), "plan has too many tasks (3)");
}

#[test]
fn accepts_backward_references_only() {
    let env = JobEnvelope {
        job_id: "job".into(),
        plan_id: "plan".into(),
        plan_description: None,
        tasks: vec![
            JobTask {
                task_number: 1,
                command: "a".into(),
                args: vec![],
                timeout_secs: 300,
                input_from_task: None,
            },
            JobTask {
                task_number: 2,
                command: "b".into(),
                args: vec![],
                timeout_secs: 300,
                input_from_task: Some(1),
            },
            JobTask {
                task_number: 3,
                command: "c".into(),
                args: vec![],
                timeout_secs: 300,
                input_from_task: Some(2),
            },
        ],
    };
    assert!(env.validate(10).is_ok());
}

#[test]
fn fresh_action_ids_carry_the_prefix() {
    let id = agx::job::fresh_action_id();
    assert!(id.starts_with("action_"));
    assert_eq!(id.len(), "action_".len() + 32);
}
