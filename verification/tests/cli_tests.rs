//! Command-line parsing.

use agx::cli::{ActionCommand, CliConfig, Command, OpsCommand, PlanCommand};

#[test]
fn parse_plan_new_command() {
    let config = CliConfig::from_args(vec!["PLAN".to_string(), "new".to_string()]).expect("valid");

    match config.command {
        Some(Command::Plan(PlanCommand::New)) => {}
        other => panic!("unexpected command: {other:?}"),
    }
}

#[test]
fn parse_plan_add_command_with_spaces() {
    let config = CliConfig::from_args(vec![
        "PLAN".to_string(),
        "add".to_string(),
        "sort".to_string(),
        "and".to_string(),
        "uniq".to_string(),
    ])
    .expect("valid");

    match config.command {
        Some(Command::Plan(PlanCommand::Add { instruction })) => {
            assert_eq!(instruction, "sort and uniq");
        }
        other => panic!("unexpected command: {other:?}"),
    }
}

#[test]
fn plan_add_requires_instruction() {
    let result = CliConfig::from_args(vec!["PLAN".to_string(), "add".to_string()]);
    assert!(result.is_err());
}

#[test]
fn parse_plan_validate_command() {
    let config =
        CliConfig::from_args(vec!["PLAN".to_string(), "validate".to_string()]).expect("valid");

    match config.command {
        Some(Command::Plan(PlanCommand::Validate)) => {}
        other => panic!("unexpected command: {other:?}"),
    }
}

#[test]
fn plan_validate_no_extra_args() {
    let result = CliConfig::from_args(vec![
        "PLAN".to_string(),
        "validate".to_string(),
        "extra".to_string(),
    ]);
    match result {
        Err(msg) => assert!(msg.contains("unexpected argument after `PLAN validate`")),
        Ok(_) => panic!("Expected error but got Ok"),
    }
}

#[test]
fn parse_plan_submit_without_json() {
    let config =
        CliConfig::from_args(vec!["PLAN".to_string(), "submit".to_string()]).expect("valid");

    match config.command {
        Some(Command::Plan(PlanCommand::Submit { json: false })) => {}
        other => panic!("unexpected command: {other:?}"),
    }
}

#[test]
fn parse_plan_submit_with_json() {
    let config = CliConfig::from_args(vec![
        "PLAN".to_string(),
        "submit".to_string(),
        "--json".to_string(),
    ])
    .expect("valid");

    match config.command {
        Some(Command::Plan(PlanCommand::Submit { json: true })) => {}
        other => panic!("unexpected command: {other:?}"),
    }
}

#[test]
fn plan_submit_rejects_unknown_flag() {
    let result = CliConfig::from_args(vec![
        "PLAN".to_string(),
        "submit".to_string(),
        "--unknown".to_string(),
    ]);
    match result {
        Err(msg) => assert!(msg.contains("unexpected argument after `PLAN submit`")),
        Ok(_) => panic!("Expected error but got Ok"),
    }
}

#[test]
fn parse_plan_list_without_json() {
    let config =
        CliConfig::from_args(vec!["PLAN".to_string(), "list".to_string()]).expect("valid");

    match config.command {
        Some(Command::Plan(PlanCommand::List { json: false })) => {}
        other => panic!("unexpected command: {other:?}"),
    }
}

#[test]
fn parse_plan_list_with_json() {
    let config = CliConfig::from_args(vec![
        "PLAN".to_string(),
        "list".to_string(),
        "--json".to_string(),
    ])
    .expect("valid");

    match config.command {
        Some(Command::Plan(PlanCommand::List { json: true })) => {}
        other => panic!("unexpected command: {other:?}"),
    }
}

#[test]
fn parse_plan_get() {
    let config = CliConfig::from_args(vec![
        "PLAN".to_string(),
        "get".to_string(),
        "plan_abc123".to_string(),
    ])
    .expect("valid");

    match config.command {
        Some(Command::Plan(PlanCommand::Get { plan_id })) => {
            assert_eq!(plan_id, "plan_abc123");
        }
        other => panic!("unexpected command: {other:?}"),
    }
}

#[test]
fn cli_plan_get_requires_plan_id() {
    let result = CliConfig::from_args(vec!["PLAN".to_string(), "get".to_string()]);
    match result {
        Err(msg) => assert!(msg.contains("requires a plan-id")),
        Ok(_) => panic!("Expected error but got Ok"),
    }
}

#[test]
fn plan_get_rejects_extra_args() {
    let result = CliConfig::from_args(vec![
        "PLAN".to_string(),
        "get".to_string(),
        "plan_abc123".to_string(),
        "extra".to_string(),
    ]);
    match result {
        Err(msg) => assert!(msg.contains("unexpected argument after `PLAN get")),
        Ok(_) => panic!("Expected error but got Ok"),
    }
}

#[test]
fn parse_jobs_list_with_json_flag() {
    let config = CliConfig::from_args(vec![
        "JOBS".to_string(),
        "list".to_string(),
        "--json".to_string(),
    ])
    .expect("valid");

    match config.command {
        Some(Command::Ops(OpsCommand::Jobs { json })) => assert!(json),
        other => panic!("unexpected: {other:?}"),
    }
}

#[test]
fn parse_workers_list_without_json() {
    let config =
        CliConfig::from_args(vec!["WORKERS".to_string(), "list".to_string()]).expect("valid");

    match config.command {
        Some(Command::Ops(OpsCommand::Workers { json })) => assert!(!json),
        other => panic!("unexpected: {other:?}"),
    }
}

#[test]
fn parse_queue_stats_unknown_subcommand_errors() {
    let res = CliConfig::from_args(vec![
        "QUEUE".to_string(),
        "bad".to_string(),
        "--json".to_string(),
    ]);
    assert!(res.is_err());
}

#[test]
fn parse_action_submit_with_plan_id() {
    let config = CliConfig::from_args(vec![
        "ACTION".to_string(),
        "submit".to_string(),
        "--plan-id".to_string(),
        "plan-123".to_string(),
    ])
    .expect("valid");

    match config.command {
        Some(Command::Action(ActionCommand::Submit { plan_id, input, inputs_file, json })) => {
            assert_eq!(plan_id, "plan-123");
            assert_eq!(input, None);
            assert_eq!(inputs_file, None);
            assert_eq!(json, false);
        }
        other => panic!("unexpected command: {other:?}"),
    }
}

#[test]
fn parse_action_submit_with_input() {
    let config = CliConfig::from_args(vec![
        "ACTION".to_string(),
        "submit".to_string(),
        "--plan-id".to_string(),
        "plan-123".to_string(),
        "--input".to_string(),
        "{\"key\":\"value\"}".to_string(),
    ])
    .expect("valid");

    match config.command {
        Some(Command::Action(ActionCommand::Submit { plan_id, input, inputs_file, json })) => {
            assert_eq!(plan_id, "plan-123");
            assert_eq!(input, Some("{\"key\":\"value\"}".to_string()));
            assert_eq!(inputs_file, None);
            assert_eq!(json, false);
        }
        other => panic!("unexpected command: {other:?}"),
    }
}

#[test]
fn parse_action_submit_with_inputs_file() {
    let config = CliConfig::from_args(vec![
        "ACTION".to_string(),
        "submit".to_string(),
        "--plan-id".to_string(),
        "plan-123".to_string(),
        "--inputs-file".to_string(),
        "/path/to/inputs.json".to_string(),
    ])
    .expect("valid");

    match config.command {
        Some(Command::Action(ActionCommand::Submit { plan_id, input, inputs_file, json })) => {
            assert_eq!(plan_id, "plan-123");
            assert_eq!(input, None);
            assert_eq!(inputs_file, Some("/path/to/inputs.json".to_string()));
            assert_eq!(json, false);
        }
        other => panic!("unexpected command: {other:?}"),
    }
}

#[test]
fn action_submit_requires_plan_id() {
    let result = CliConfig::from_args(vec!["ACTION".to_string(), "submit".to_string()]);
    assert!(result.is_err());
    assert!(result.unwrap_err().contains("--plan-id"));
}

#[test]
fn action_submit_plan_id_requires_value() {
    let result = CliConfig::from_args(vec![
        "ACTION".to_string(),
        "submit".to_string(),
        "--plan-id".to_string(),
    ]);
    assert!(result.is_err());
    assert!(result.unwrap_err().contains("requires a value"));
}

#[test]
fn action_submit_rejects_unknown_flags() {
    let result = CliConfig::from_args(vec![
        "ACTION".to_string(),
        "submit".to_string(),
        "--plan-id".to_string(),
        "plan-123".to_string(),
        "--unknown".to_string(),
    ]);
    assert!(result.is_err());
    assert!(result.unwrap_err().contains("unexpected argument"));
}

#[test]
fn action_submit_rejects_both_input_flags() {
    let result = CliConfig::from_args(vec![
        "ACTION".to_string(),
        "submit".to_string(),
        "--plan-id".to_string(),
        "plan-123".to_string(),
        "--input".to_string(),
        "{}".to_string(),
        "--inputs-file".to_string(),
        "file.json".to_string(),
    ]);
    assert!(result.is_err());
    assert!(result.unwrap_err().contains("cannot specify both"));
}

#[test]
fn action_submit_rejects_empty_plan_id() {
    let result = CliConfig::from_args(vec![
        "ACTION".to_string(),
        "submit".to_string(),
        "--plan-id".to_string(),
        "".to_string(),
    ]);
    assert!(result.is_err());
    assert!(result.unwrap_err().contains("cannot be empty"));
}

#[test]
fn parse_action_submit_with_json_flag() {
    let config = CliConfig::from_args(vec![
        "ACTION".to_string(),
        "submit".to_string(),
        "--plan-id".to_string(),
        "plan-123".to_string(),
        "--input".to_string(),
        "{\"path\":\"/tmp\"}".to_string(),
        "--json".to_string(),
    ])
    .expect("valid");

    match config.command {
        Some(Command::Action(ActionCommand::Submit { plan_id, input, inputs_file, json })) => {
            assert_eq!(plan_id, "plan-123");
            assert_eq!(input, Some("{\"path\":\"/tmp\"}".to_string()));
            assert_eq!(inputs_file, None);
            assert_eq!(json, true);
        }
        other => panic!("unexpected command: {other:?}"),
    }
}

#[test]
fn enforce_instruction_limit_rejects_large() {
    let long_instruction = "x".repeat(9 * 1024);
    let command = PlanCommand::Add { instruction: long_instruction };

    let result = agx::cli::enforce_instruction_limit(&command);
    assert!(result.is_err());
}

#[test]
fn validate_file_path_rejects_absolute_paths() {
    let result = agx::cli::validate_file_path("/etc/passwd");
    assert!(result.is_err());
    assert!(result.unwrap_err().contains("absolute paths not allowed"));
}

#[test]
fn validate_file_path_rejects_parent_references() {
    let result = agx::cli::validate_file_path("../../../etc/passwd");
    assert!(result.is_err());
    assert!(result.unwrap_err().contains("parent directory references"));
}

#[test]
fn validate_file_path_accepts_relative_paths() {
    let result = agx::cli::validate_file_path("inputs.json");
    assert!(result.is_ok());

    let result2 = agx::cli::validate_file_path("data/inputs.json");
    assert!(result2.is_ok());
}
