//! Session-line parsing and persisted-state behavior.

use agx::repl::{ReplCommand, ReplState, MAX_HISTORY_SIZE};

#[test]
fn parse_add_command() {
    let cmd = ReplCommand::parse("add convert PDF to text").unwrap();
    assert_eq!(cmd, ReplCommand::Add("convert PDF to text".to_string()));
}

#[test]
fn parse_add_requires_instruction() {
    let result = ReplCommand::parse("add");
    assert!(result.is_err());
    assert!(result.unwrap_err().contains("requires an instruction"));
}

#[test]
fn parse_preview_command() {
    assert_eq!(ReplCommand::parse("preview").unwrap(), ReplCommand::Preview);
    assert_eq!(ReplCommand::parse("show").unwrap(), ReplCommand::Preview);
    assert_eq!(ReplCommand::parse("list").unwrap(), ReplCommand::Preview);
}

#[test]
fn parse_edit_command() {
    let cmd = ReplCommand::parse("edit 3").unwrap();
    assert_eq!(cmd, ReplCommand::Edit(3));
}

#[test]
fn parse_edit_requires_step_number() {
    let result = ReplCommand::parse("edit");
    assert!(result.is_err());
}

#[test]
fn parse_edit_rejects_zero() {
    let result = ReplCommand::parse("edit 0");
    assert!(result.is_err());
    assert!(result.unwrap_err().contains("start at 1"));
}

#[test]
fn parse_remove_command() {
    assert_eq!(ReplCommand::parse("remove 2").unwrap(), ReplCommand::Remove(2));
    assert_eq!(ReplCommand::parse("delete 2").unwrap(), ReplCommand::Remove(2));
    assert_eq!(ReplCommand::parse("rm 2").unwrap(), ReplCommand::Remove(2));
}

#[test]
fn parse_clear_command() {
    assert_eq!(ReplCommand::parse("clear").unwrap(), ReplCommand::Clear);
    assert_eq!(ReplCommand::parse("reset").unwrap(), ReplCommand::Clear);
    assert_eq!(ReplCommand::parse("new").unwrap(), ReplCommand::Clear);
}

#[test]
fn parse_validate_command() {
    assert_eq!(ReplCommand::parse("validate").unwrap(), ReplCommand::Validate);
}

#[test]
fn parse_submit_command() {
    assert_eq!(ReplCommand::parse("submit").unwrap(), ReplCommand::Submit);
}

#[test]
fn parse_help_command() {
    assert_eq!(ReplCommand::parse("help").unwrap(), ReplCommand::Help);
    assert_eq!(ReplCommand::parse("?").unwrap(), ReplCommand::Help);
}

#[test]
fn parse_quit_command() {
    assert_eq!(ReplCommand::parse("quit").unwrap(), ReplCommand::Quit);
    assert_eq!(ReplCommand::parse("exit").unwrap(), ReplCommand::Quit);
    assert_eq!(ReplCommand::parse("q").unwrap(), ReplCommand::Quit);
}

#[test]
fn parse_unknown_command() {
    let result = ReplCommand::parse("foobar");
    assert!(result.is_err());
    assert!(result.unwrap_err().contains("unknown command"));
}

#[test]
fn parse_empty_command() {
    let result = ReplCommand::parse("");
    assert!(result.is_err());
}

#[test]
fn parse_add_shortcut() {
    let cmd = ReplCommand::parse("a sort numbers").unwrap();
    assert_eq!(cmd, ReplCommand::Add("sort numbers".to_string()));
}

#[test]
fn parse_preview_shortcut() {
    assert_eq!(ReplCommand::parse("p").unwrap(), ReplCommand::Preview);
}

#[test]
fn parse_edit_shortcut() {
    let cmd = ReplCommand::parse("e 2").unwrap();
    assert_eq!(cmd, ReplCommand::Edit(2));
}

#[test]
fn parse_remove_shortcut() {
    let cmd = ReplCommand::parse("r 1").unwrap();
    assert_eq!(cmd, ReplCommand::Remove(1));
}

#[test]
fn parse_clear_shortcut() {
    assert_eq!(ReplCommand::parse("c").unwrap(), ReplCommand::Clear);
}

#[test]
fn parse_validate_shortcut() {
    assert_eq!(ReplCommand::parse("v").unwrap(), ReplCommand::Validate);
}

#[test]
fn parse_submit_shortcut() {
    assert_eq!(ReplCommand::parse("s").unwrap(), ReplCommand::Submit);
}

#[test]
fn parse_help_shortcut() {
    assert_eq!(ReplCommand::parse("h").unwrap(), ReplCommand::Help);
}

#[test]
fn parse_quit_shortcut() {
    assert_eq!(ReplCommand::parse("q").unwrap(), ReplCommand::Quit);
}

#[test]
fn parse_jobs_command() {
    assert_eq!(ReplCommand::parse("jobs").unwrap(), ReplCommand::JobList);
}

#[test]
fn parse_jobs_shortcut() {
    assert_eq!(ReplCommand::parse("j").unwrap(), ReplCommand::JobList);
}

#[test]
fn parse_workers_command() {
    assert_eq!(ReplCommand::parse("workers").unwrap(), ReplCommand::WorkerList);
}

#[test]
fn parse_workers_shortcut() {
    assert_eq!(ReplCommand::parse("w").unwrap(), ReplCommand::WorkerList);
}

#[test]
fn parse_stats_command() {
    assert_eq!(ReplCommand::parse("stats").unwrap(), ReplCommand::QueueStats);
}

#[test]
fn parse_queue_command() {
    assert_eq!(ReplCommand::parse("queue").unwrap(), ReplCommand::QueueStats);
}

#[test]
fn test_state_history_limit() {
    let mut state = ReplState::default();

    for i in 0..1500 {
        state.history.push(format!("command {}", i));
    }

    state.trim_history();

    assert_eq!(state.history.len(), MAX_HISTORY_SIZE);
    assert_eq!(state.history[0], "command 500");
    assert_eq!(state.history[999], "command 1499");
}

#[test]
fn test_overflow_protection() {
    let result = u32::try_from(usize::MAX);
    assert!(result.is_err());

    let max_u32 = u32::MAX;
    assert!(max_u32.checked_add(1).is_none());
}

#[test]
fn parse_plan_list_command() {
    let cmd = ReplCommand::parse("plan list").unwrap();
    assert_eq!(cmd, ReplCommand::PlanList);
}

#[test]
fn parse_plan_get_command() {
    let cmd = ReplCommand::parse("plan get plan_abc123").unwrap();
    assert_eq!(cmd, ReplCommand::PlanGet("plan_abc123".to_string()));
}

#[test]
fn repl_plan_get_requires_plan_id() {
    let result = ReplCommand::parse("plan get");
    assert!(result.is_err());
    assert!(result.unwrap_err().contains("requires plan-id"));
}

#[test]
fn plan_requires_subcommand() {
    let result = ReplCommand::parse("plan");
    assert!(result.is_err());
    assert!(result.unwrap_err().contains("requires subcommand"));
}

#[test]
fn plan_rejects_unknown_subcommand() {
    let result = ReplCommand::parse("plan invalid");
    assert!(result.is_err());
    assert!(result.unwrap_err().contains("unknown plan subcommand"));
}

#[test]
fn parse_action_command_no_input() {
    let cmd = ReplCommand::parse("action plan_abc123").unwrap();
    assert_eq!(
        cmd,
        ReplCommand::ActionSubmit { plan_id: "plan_abc123".to_string(), input: None }
    );
}

#[test]
fn parse_action_command_with_input() {
    let cmd = ReplCommand::parse("action plan_abc123 {\"path\":\"/tmp\"}").unwrap();
    assert_eq!(
        cmd,
        ReplCommand::ActionSubmit {
            plan_id: "plan_abc123".to_string(),
            input: Some("{\"path\":\"/tmp\"}".to_string())
        }
    );
}

#[test]
fn action_requires_plan_id() {
    let result = ReplCommand::parse("action");
    assert!(result.is_err());
    assert!(result.unwrap_err().contains("requires plan-id"));
}
