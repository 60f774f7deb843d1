//! Prompt rendering and planner-output parsing.

use agx::planner::{ModelRole, OllamaBackend, PlanContext, PlannerOutput, ToolInfo};

#[test]
fn test_ollama_prompt_generation() {
    let backend = OllamaBackend::new("phi3:mini".to_string());
    let context = PlanContext {
        tool_registry: vec![ToolInfo::new("ls", "list files")],
        input_summary: Some("test input".to_string()),
        ..Default::default()
    };

    let prompt = backend.build_prompt("list files", &context);

    assert!(prompt.contains("list files"));
    assert!(prompt.contains("test input"));
    assert!(prompt.contains("ls: list files"));
}

#[test]
fn test_tool_list_formatting() {
    let tools = vec![ToolInfo::new("ls", "list files"), ToolInfo::new("grep", "search text")];

    let formatted = tools
        .iter()
        .map(|t| format!("{} ({})", t.name, t.description))
        .collect::<Vec<_>>()
        .join(", ");

    assert!(formatted.contains("ls (list files)"));
    assert!(formatted.contains("grep (search text)"));
}

#[test]
fn test_model_role_enum() {
    assert_eq!(ModelRole::Echo, ModelRole::Echo);
    assert_ne!(ModelRole::Echo, ModelRole::Delta);
}

#[test]
fn planner_output_parses_canonical_text() {
    let out = PlannerOutput {
        raw_json: r#"{"tasks":[{"task_number":1,"command":"sort","args":[],"timeout_secs":300}]}"#
            .to_string(),
    };
    let plan = out.parse().expect("canonical text parses");
    assert_eq!(plan.tasks.len(), 1);
    assert_eq!(plan.tasks[0].command, "sort");
}

#[test]
fn planner_output_reports_parse_failures() {
    let out = PlannerOutput { raw_json: "no plan here at all".to_string() };
    let err = out.parse().unwrap_err();
    assert!(err.contains("failed to parse planner JSON"));
}

#[test]
fn parse_plan_response_recovers_tasks() {
    let backend = OllamaBackend::new("phi3:mini".to_string());
    let tasks = backend
        .parse_plan_response("```json\n{\"plan\":[\"sort\",\"uniq\"]}\n```")
        .expect("fenced reply parses");
    assert_eq!(tasks.len(), 2);
    assert_eq!(tasks[0].command, "sort");
}
