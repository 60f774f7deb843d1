//! Wire framing, reply interpretation, identifier validation, and the
//! credential-first session.

use agx::client::{
    interpret_action_reply, interpret_get_plan_reply, interpret_list_plans_reply,
    interpret_ops_reply, interpret_submit_reply, submit_plan_request, validate_plan_id,
    ActionEnvelope, AgqClient, AgqConfig, AgqSession, ClientError, SessionPhase,
};
use agx::resp::{read_resp_value, resp_array, RespError, RespValue};

#[test]
fn action_envelope_validates_jobs_created_match() {
    let valid_envelope = ActionEnvelope {
        action_id: "act-1".into(),
        plan_id: "plan-1".into(),
        plan_description: None,
        jobs_created: 2,
        job_ids: vec!["job-1".into(), "job-2".into()],
    };
    assert!(valid_envelope.validate().is_ok());

    let invalid_envelope = ActionEnvelope {
        action_id: "act-1".into(),
        plan_id: "plan-1".into(),
        plan_description: None,
        jobs_created: 3,
        job_ids: vec!["job-1".into(), "job-2".into()],
    };
    let result = invalid_envelope.validate();
    assert!(result.is_err());
    assert!(result.unwrap_err().contains("jobs_created (3) != job_ids.len() (2)"));
}

#[test]
fn action_submit_handles_empty_job_ids() {
    let response = ActionEnvelope {
        action_id: "action_123".to_string(),
        plan_id: "plan_456".to_string(),
        plan_description: Some("test plan".to_string()),
        jobs_created: 0,
        job_ids: vec![],
    };

    let job_id = response.job_ids.first().cloned().unwrap_or_default();
    assert_eq!(job_id, "");

    let invalid_response = ActionEnvelope {
        action_id: "action_123".to_string(),
        plan_id: "plan_456".to_string(),
        plan_description: Some("test plan".to_string()),
        jobs_created: 1,
        job_ids: vec![],
    };

    assert!(invalid_response.validate().is_err());
}

#[test]
fn action_submit_validates_plan_id_format() {
    assert!("plan_abc123".chars().all(|c| c.is_alphanumeric() || c == '_' || c == '-'));
    assert!("plan-abc-123".chars().all(|c| c.is_alphanumeric() || c == '_' || c == '-'));

    assert!(!"plan;DROP TABLE".chars().all(|c| c.is_alphanumeric() || c == '_' || c == '-'));
    assert!(!"plan\r\nSOME.COMMAND"
        .chars()
        .all(|c| c.is_alphanumeric() || c == '_' || c == '-'));
    assert!(!"plan with spaces".chars().all(|c| c.is_alphanumeric() || c == '_' || c == '-'));
}

#[test]
fn action_submit_validates_plan_id_length() {
    let valid = "a".repeat(128);
    assert!(validate_plan_id(&valid).is_ok());

    let invalid = "a".repeat(129);
    assert!(validate_plan_id(&invalid).is_err());
}

#[test]
fn get_plan_validates_plan_id() {
    let result = validate_plan_id("plan\n123");
    assert!(result.is_err());
    assert!(result.unwrap_err().contains("invalid plan_id"));

    let result = validate_plan_id("");
    assert!(result.is_err());
    assert!(result.unwrap_err().contains("cannot be empty"));

    let long_id = "a".repeat(129);
    let result = validate_plan_id(&long_id);
    assert!(result.is_err());
    assert!(result.unwrap_err().contains("too long"));

    assert!(validate_plan_id("plan_abc-123").is_ok());
}

#[test]
fn submit_reply_carries_the_job_id() {
    let ok = interpret_submit_reply(RespValue::BulkString("job-42".into())).unwrap();
    assert_eq!(ok.job_id, "job-42");

    let ok = interpret_submit_reply(RespValue::SimpleString("job-7".into())).unwrap();
    assert_eq!(ok.job_id, "job-7");

    let err = interpret_submit_reply(RespValue::Error("ERR invalid plan".into())).unwrap_err();
    assert!(matches!(err, ClientError::Remote(m) if m == "ERR invalid plan"));

    let err = interpret_submit_reply(RespValue::Integer(3)).unwrap_err();
    assert!(matches!(err, ClientError::UnexpectedReply));
}

#[test]
fn action_reply_rejects_count_mismatch() {
    let body = r#"{"action_id":"act-1","plan_id":"plan-1","jobs_created":3,"job_ids":["a","b"]}"#;
    let err = interpret_action_reply(RespValue::BulkString(body.into())).unwrap_err();
    match err {
        ClientError::InconsistentAction(m) => {
            assert!(m.contains("jobs_created (3) != job_ids.len() (2)"));
        }
        other => panic!("unexpected error: {other:?}"),
    }
}

#[test]
fn action_reply_accepts_consistent_receipt() {
    let body = r#"{"action_id":"act-1","plan_id":"plan-1","plan_description":null,"jobs_created":2,"job_ids":["a","b"]}"#;
    let env = interpret_action_reply(RespValue::BulkString(body.into())).unwrap();
    assert_eq!(env.action_id, "act-1");
    assert_eq!(env.plan_id, "plan-1");
    assert_eq!(env.plan_description, None);
    assert_eq!(env.jobs_created, 2);
    assert_eq!(env.job_ids, vec!["a".to_string(), "b".to_string()]);
}

#[test]
fn list_plans_reply_decodes_summaries() {
    let s1 = r#"{"plan_id":"plan_123","description":"Test plan","task_count":3,"created_at":"2025-01-19"}"#;
    let s2 = r#"{"plan_id":"plan_456","description":null,"task_count":1,"created_at":null}"#;
    let reply = RespValue::Array(vec![
        RespValue::BulkString(s1.into()),
        RespValue::BulkString(s2.into()),
    ]);
    let plans = interpret_list_plans_reply(reply).unwrap();
    assert_eq!(plans.len(), 2);
    assert_eq!(plans[0].plan_id, "plan_123");
    assert_eq!(plans[0].description, Some("Test plan".to_string()));
    assert_eq!(plans[0].task_count, 3);
    assert_eq!(plans[1].plan_id, "plan_456");
}

#[test]
fn list_plans_handles_empty_response() {
    let plans = interpret_list_plans_reply(RespValue::Array(vec![])).unwrap();
    assert_eq!(plans.len(), 0);
}

#[test]
fn list_plans_reply_aborts_on_unexpected_element() {
    let reply = RespValue::Array(vec![RespValue::Integer(5)]);
    assert!(interpret_list_plans_reply(reply).is_err());
}

#[test]
fn get_plan_reply_decodes_a_plan() {
    let body = r#"{"tasks":[{"task_number":1,"command":"echo","args":["hello"],"timeout_secs":300}]}"#;
    let plan = interpret_get_plan_reply(RespValue::BulkString(body.into())).unwrap();
    assert_eq!(plan.tasks.len(), 1);
    assert_eq!(plan.tasks[0].command, "echo");
}

#[test]
fn ops_reply_coerces_to_lines() {
    let reply = RespValue::Array(vec![
        RespValue::SimpleString("worker-1".into()),
        RespValue::Integer(17),
        RespValue::Null,
        RespValue::BulkString("worker-2".into()),
    ]);
    let lines = interpret_ops_reply(reply).unwrap();
    assert_eq!(lines, vec!["worker-1".to_string(), "17".to_string(), "worker-2".to_string()]);

    let err = interpret_ops_reply(RespValue::Error("ERR down".into())).unwrap_err();
    assert!(matches!(err, ClientError::Remote(m) if m == "ERR down"));
}

#[test]
fn request_frames_are_length_prefixed() {
    let frame = submit_plan_request("{\"plan\": []}");
    assert_eq!(frame, b"*2\r\n$11\r\nPLAN.SUBMIT\r\n$12\r\n{\"plan\": []}\r\n".to_vec());

    let auth = resp_array(&vec!["AUTH".to_string(), "secret".to_string()]);
    assert_eq!(auth, b"*2\r\n$4\r\nAUTH\r\n$6\r\nsecret\r\n".to_vec());
}

#[test]
fn reads_wire_values_from_buffers() {
    let (v, n) = read_resp_value(&b"+OK\r\n".to_vec(), 0).unwrap();
    assert!(matches!(v, RespValue::SimpleString(s) if s == "OK"));
    assert_eq!(n, 5);

    let (v, _) = read_resp_value(&b"$6\r\njob-42\r\n".to_vec(), 0).unwrap();
    assert!(matches!(v, RespValue::BulkString(s) if s == "job-42"));

    let (v, _) = read_resp_value(&b":-7\r\n".to_vec(), 0).unwrap();
    assert!(matches!(v, RespValue::Integer(-7)));

    let (v, _) = read_resp_value(&b"$-1\r\n".to_vec(), 0).unwrap();
    assert!(matches!(v, RespValue::Null));

    let (v, _) = read_resp_value(&b"*2\r\n+a\r\n:3\r\n".to_vec(), 0).unwrap();
    match v {
        RespValue::Array(items) => {
            assert_eq!(items.len(), 2);
            assert!(matches!(&items[0], RespValue::SimpleString(s) if s == "a"));
            assert!(matches!(&items[1], RespValue::Integer(3)));
        }
        other => panic!("unexpected value: {other:?}"),
    }
}

#[test]
fn incomplete_buffers_ask_for_more() {
    let err = read_resp_value(&b"$6\r\njob-".to_vec(), 0).unwrap_err();
    assert_eq!(err, RespError::Incomplete);

    let err = read_resp_value(&b"+OK".to_vec(), 0).unwrap_err();
    assert_eq!(err, RespError::Incomplete);

    let err = read_resp_value(&b"%what\r\n".to_vec(), 0).unwrap_err();
    assert_eq!(err, RespError::Malformed);
}

#[test]
fn session_sends_auth_first_and_aborts_on_auth_error() {
    let client = AgqClient::new(AgqConfig {
        addr: "127.0.0.1:6380".to_string(),
        session_key: Some("secret".to_string()),
        timeout_secs: 5,
    });
    let command = submit_plan_request("{\"plan\": []}");
    let mut session = AgqSession::new(&client, command.clone());

    let first = session.next_frame().expect("a frame to send");
    assert_eq!(first, resp_array(&vec!["AUTH".to_string(), "secret".to_string()]));
    assert_ne!(first, command);

    let err = session.on_auth_reply(RespValue::Error("ERR invalid session".into())).unwrap_err();
    match err {
        ClientError::AuthFailed(m) => assert_eq!(m, "AUTH failed: ERR invalid session"),
        other => panic!("unexpected error: {other:?}"),
    }
    assert_eq!(session.phase(), SessionPhase::Failed);
    assert!(session.next_frame().is_none());
}

#[test]
fn session_sends_command_after_accepted_auth() {
    let client = AgqClient::new(AgqConfig {
        addr: "127.0.0.1:6380".to_string(),
        session_key: Some("secret".to_string()),
        timeout_secs: 5,
    });
    let command = submit_plan_request("{\"plan\": []}");
    let mut session = AgqSession::new(&client, command.clone());

    let _auth = session.next_frame().expect("auth frame");
    session.on_auth_reply(RespValue::SimpleString("OK".into())).expect("auth accepted");
    let second = session.next_frame().expect("command frame");
    assert_eq!(second, command);
    assert_eq!(session.phase(), SessionPhase::SentCommand);
}

#[test]
fn session_without_credential_sends_command_at_once() {
    let client = AgqClient::new(AgqConfig {
        addr: "127.0.0.1:6380".to_string(),
        session_key: None,
        timeout_secs: 5,
    });
    let command = submit_plan_request("{}");
    let mut session = AgqSession::new(&client, command.clone());
    let first = session.next_frame().expect("command frame");
    assert_eq!(first, command);
}
