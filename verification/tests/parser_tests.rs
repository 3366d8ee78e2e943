use conductor::json::parse_json;
use conductor::parser::{parse_stream_json_line, summarize_tool_input, ParsedEvent};

#[test]
fn test_parse_tool_use_event() {
    let line = r#"{"type":"assistant","message":{"content":[{"type":"tool_use","name":"Read","input":{"file_path":"src/main.rs"}}]}}"#;
    let event = parse_stream_json_line(line).unwrap();
    match event {
        ParsedEvent::ToolUse {
            tool_name,
            input_summary,
        } => {
            assert_eq!(tool_name, "Read");
            assert_eq!(input_summary, "Reading src/main.rs");
        }
        _ => panic!("Expected ToolUse, got {:?}", event),
    }
}

#[test]
fn test_parse_tool_use_bash() {
    let line = r#"{"type":"assistant","message":{"content":[{"type":"tool_use","name":"Bash","input":{"command":"cargo test"}}]}}"#;
    let event = parse_stream_json_line(line).unwrap();
    match event {
        ParsedEvent::ToolUse {
            tool_name,
            input_summary,
        } => {
            assert_eq!(tool_name, "Bash");
            assert_eq!(input_summary, "Running: cargo test");
        }
        _ => panic!("Expected ToolUse, got {:?}", event),
    }
}

#[test]
fn test_parse_tool_use_edit() {
    let line = r#"{"type":"assistant","message":{"content":[{"type":"tool_use","name":"Edit","input":{"file_path":"src/lib.rs"}}]}}"#;
    let event = parse_stream_json_line(line).unwrap();
    match event {
        ParsedEvent::ToolUse {
            tool_name,
            input_summary,
        } => {
            assert_eq!(tool_name, "Edit");
            assert_eq!(input_summary, "Editing src/lib.rs");
        }
        _ => panic!("Expected ToolUse"),
    }
}

#[test]
fn test_parse_tool_use_write() {
    let line = r#"{"type":"assistant","message":{"content":[{"type":"tool_use","name":"Write","input":{"file_path":"new_file.rs"}}]}}"#;
    let event = parse_stream_json_line(line).unwrap();
    match event {
        ParsedEvent::ToolUse {
            tool_name,
            input_summary,
        } => {
            assert_eq!(tool_name, "Write");
            assert_eq!(input_summary, "Writing new_file.rs");
        }
        _ => panic!("Expected ToolUse"),
    }
}

#[test]
fn test_parse_tool_use_grep() {
    let line = r#"{"type":"assistant","message":{"content":[{"type":"tool_use","name":"Grep","input":{"pattern":"fn main"}}]}}"#;
    let event = parse_stream_json_line(line).unwrap();
    match event {
        ParsedEvent::ToolUse {
            tool_name,
            input_summary,
        } => {
            assert_eq!(tool_name, "Grep");
            assert_eq!(input_summary, "Searching for 'fn main'");
        }
        _ => panic!("Expected ToolUse"),
    }
}

#[test]
fn test_parse_tool_use_glob() {
    let line = r#"{"type":"assistant","message":{"content":[{"type":"tool_use","name":"Glob","input":{"pattern":"**/*.rs"}}]}}"#;
    let event = parse_stream_json_line(line).unwrap();
    match event {
        ParsedEvent::ToolUse {
            tool_name,
            input_summary,
        } => {
            assert_eq!(tool_name, "Glob");
            assert_eq!(input_summary, "Finding files matching '**/*.rs'");
        }
        _ => panic!("Expected ToolUse"),
    }
}

#[test]
fn test_parse_tool_use_unknown_tool() {
    let line = r#"{"type":"assistant","message":{"content":[{"type":"tool_use","name":"CustomTool","input":{}}]}}"#;
    let event = parse_stream_json_line(line).unwrap();
    match event {
        ParsedEvent::ToolUse {
            tool_name,
            input_summary,
        } => {
            assert_eq!(tool_name, "CustomTool");
            assert_eq!(input_summary, "Using CustomTool");
        }
        _ => panic!("Expected ToolUse"),
    }
}

#[test]
fn test_parse_text_message() {
    let line = r#"{"type":"assistant","message":{"content":[{"type":"text","text":"Hello world"}]}}"#;
    let event = parse_stream_json_line(line).unwrap();
    match event {
        ParsedEvent::TextMessage { text } => {
            assert_eq!(text, "Hello world");
        }
        _ => panic!("Expected TextMessage, got {:?}", event),
    }
}

#[test]
fn test_parse_empty_text_returns_none() {
    let line = r#"{"type":"assistant","message":{"content":[{"type":"text","text":""}]}}"#;
    assert!(parse_stream_json_line(line).is_none());
}

#[test]
fn test_parse_text_delta() {
    let line = r#"{"type":"content_block_delta","delta":{"text":"streaming text"}}"#;
    let event = parse_stream_json_line(line).unwrap();
    match event {
        ParsedEvent::TextDelta { text } => {
            assert_eq!(text, "streaming text");
        }
        _ => panic!("Expected TextDelta, got {:?}", event),
    }
}

#[test]
fn test_parse_result() {
    let line = r#"{"type":"result","session_id":"sess-123","result":"Task completed","cost_usd":0.42,"usage":{"input_tokens":100,"output_tokens":50}}"#;
    let event = parse_stream_json_line(line).unwrap();
    match event {
        ParsedEvent::Result {
            session_id,
            result_text,
            cost_micros,
            input_tokens,
            output_tokens,
        } => {
            assert_eq!(session_id, "sess-123");
            assert_eq!(result_text, "Task completed");
            assert_eq!(cost_micros, 420_000);
            assert_eq!(input_tokens, 100);
            assert_eq!(output_tokens, 50);
        }
        _ => panic!("Expected Result, got {:?}", event),
    }
}

#[test]
fn test_parse_result_missing_fields() {
    let line = r#"{"type":"result"}"#;
    let event = parse_stream_json_line(line).unwrap();
    match event {
        ParsedEvent::Result {
            session_id,
            result_text,
            cost_micros,
            input_tokens,
            output_tokens,
        } => {
            assert_eq!(session_id, "");
            assert_eq!(result_text, "");
            assert_eq!(cost_micros, 0);
            assert_eq!(input_tokens, 0);
            assert_eq!(output_tokens, 0);
        }
        _ => panic!("Expected Result"),
    }
}

#[test]
fn test_parse_tool_result_success() {
    let line = r#"{"type":"tool_result","tool_name":"Bash","is_error":false,"output":"test passed"}"#;
    let event = parse_stream_json_line(line).unwrap();
    match event {
        ParsedEvent::ToolResult {
            tool_name,
            success,
            summary,
        } => {
            assert_eq!(tool_name, "Bash");
            assert!(success);
            assert_eq!(summary, "test passed");
        }
        _ => panic!("Expected ToolResult, got {:?}", event),
    }
}

#[test]
fn test_parse_tool_result_error() {
    let line = r#"{"type":"tool_result","tool_name":"Bash","is_error":true,"output":"command failed"}"#;
    let event = parse_stream_json_line(line).unwrap();
    match event {
        ParsedEvent::ToolResult {
            tool_name,
            success,
            summary,
        } => {
            assert_eq!(tool_name, "Bash");
            assert!(!success);
            assert_eq!(summary, "command failed");
        }
        _ => panic!("Expected ToolResult"),
    }
}

#[test]
fn test_parse_tool_result_long_output_truncated() {
    let long_output = "x".repeat(300);
    let line = format!(
        r#"{{"type":"tool_result","tool_name":"Bash","is_error":false,"output":"{}"}}"#,
        long_output
    );
    let event = parse_stream_json_line(&line).unwrap();
    match event {
        ParsedEvent::ToolResult { summary, .. } => {
            assert!(summary.len() <= 204); // 200 + "..."
            assert!(summary.ends_with("..."));
        }
        _ => panic!("Expected ToolResult"),
    }
}

#[test]
fn test_parse_tool_output_variant() {
    let line = r#"{"type":"tool_output","name":"Read","content":"file contents"}"#;
    let event = parse_stream_json_line(line).unwrap();
    match event {
        ParsedEvent::ToolResult {
            tool_name,
            success,
            summary,
        } => {
            assert_eq!(tool_name, "Read");
            assert!(success);
            assert_eq!(summary, "file contents");
        }
        _ => panic!("Expected ToolResult"),
    }
}

#[test]
fn test_parse_error() {
    let line = r#"{"type":"error","error":"Rate limit exceeded"}"#;
    let event = parse_stream_json_line(line).unwrap();
    match event {
        ParsedEvent::Error { message } => {
            assert_eq!(message, "Rate limit exceeded");
        }
        _ => panic!("Expected Error, got {:?}", event),
    }
}

#[test]
fn test_parse_error_with_message_field() {
    let line = r#"{"type":"error","message":"Something went wrong"}"#;
    let event = parse_stream_json_line(line).unwrap();
    match event {
        ParsedEvent::Error { message } => {
            assert_eq!(message, "Something went wrong");
        }
        _ => panic!("Expected Error"),
    }
}

#[test]
fn test_parse_system_message() {
    let line = r#"{"type":"system","message":"Agent initialized"}"#;
    let event = parse_stream_json_line(line).unwrap();
    match event {
        ParsedEvent::System { message } => {
            assert_eq!(message, "Agent initialized");
        }
        _ => panic!("Expected System, got {:?}", event),
    }
}

#[test]
fn test_parse_empty_system_message_returns_none() {
    let line = r#"{"type":"system","message":""}"#;
    assert!(parse_stream_json_line(line).is_none());
}

#[test]
fn test_parse_unknown_type_returns_none() {
    let line = r#"{"type":"unknown_event","data":"something"}"#;
    assert!(parse_stream_json_line(line).is_none());
}

#[test]
fn test_parse_invalid_json_returns_none() {
    assert!(parse_stream_json_line("not json at all").is_none());
    assert!(parse_stream_json_line("").is_none());
    assert!(parse_stream_json_line("{}").is_none()); // no type field
}

#[test]
fn test_parse_missing_type_returns_none() {
    let line = r#"{"data":"no type field"}"#;
    assert!(parse_stream_json_line(line).is_none());
}

#[test]
fn test_parse_content_block_delta_no_text_returns_none() {
    let line = r#"{"type":"content_block_delta","delta":{"other":"value"}}"#;
    assert!(parse_stream_json_line(line).is_none());
}

#[test]
fn test_parse_bash_long_command_truncated() {
    let long_cmd = "a".repeat(200);
    let line = format!(
        r#"{{"type":"assistant","message":{{"content":[{{"type":"tool_use","name":"Bash","input":{{"command":"{}"}}}}]}}}}"#,
        long_cmd
    );
    let event = parse_stream_json_line(&line).unwrap();
    match event {
        ParsedEvent::ToolUse { input_summary, .. } => {
            // "Running: " (9 chars) + 80 chars + "..." = 92
            assert!(input_summary.len() <= 93);
            assert!(input_summary.contains("..."));
        }
        _ => panic!("Expected ToolUse"),
    }
}

#[test]
fn test_summarize_tool_input_missing_fields() {
    let input = parse_json("{}").unwrap();
    assert_eq!(summarize_tool_input("Read", &input), "Reading ?");
    assert_eq!(summarize_tool_input("Bash", &input), "Running: ?");
    assert_eq!(summarize_tool_input("Grep", &input), "Searching for '?'");
}

#[test]
fn test_parse_assistant_with_usage_still_parses_content() {
    // Assistant messages with usage data should still parse content (text/tool_use),
    // not be hijacked as cost records. Token tracking happens in the supervisor.
    let line = r#"{"type":"assistant","message":{"model":"m1","id":"msg_test","type":"message","role":"assistant","content":[{"type":"text","text":"Hello"}],"usage":{"input_tokens":100,"cache_creation_input_tokens":1000,"cache_read_input_tokens":500,"output_tokens":50}},"session_id":"sess-123"}"#;
    let event = parse_stream_json_line(line).unwrap();
    match event {
        ParsedEvent::TextMessage { text } => {
            assert_eq!(text, "Hello");
        }
        _ => panic!("Expected TextOutput, got {:?}", event),
    }
}

#[test]
fn test_parse_result_with_usage() {
    let line = r#"{"type":"result","session_id":"sess-123","result":"Done","total_cost_usd":0.42,"usage":{"input_tokens":200,"cache_creation_input_tokens":2000,"cache_read_input_tokens":1000,"output_tokens":100}}"#;
    let event = parse_stream_json_line(line).unwrap();
    match event {
        ParsedEvent::Result {
            session_id,
            result_text,
            cost_micros,
            input_tokens,
            output_tokens,
        } => {
            assert_eq!(session_id, "sess-123");
            assert_eq!(result_text, "Done");
            assert_eq!(cost_micros, 420_000);
            assert_eq!(input_tokens, 200);
            assert_eq!(output_tokens, 100);
        }
        _ => panic!("Expected Result, got {:?}", event),
    }
}

#[test]
fn test_parse_api_request_cost_record() {
    let line = r#"{"type":"api_request","model":"sonnet","cost_usd":0.15,"usage":{"input_tokens":10,"output_tokens":5}}"#;
    let event = parse_stream_json_line(line).unwrap();
    match event {
        ParsedEvent::ApiRequest {
            model,
            cost_micros,
            input_tokens,
            output_tokens,
        } => {
            assert_eq!(model, "sonnet");
            assert_eq!(cost_micros, 150_000);
            assert_eq!(input_tokens, 10);
            assert_eq!(output_tokens, 5);
        }
        _ => panic!("Expected ApiRequest, got {:?}", event),
    }
}

#[test]
fn test_parser_total_on_random_corpus() {
    // Half well-formed records, half garbage: the parser never fails, and
    // the recognised count equals the well-formed records with a known type.
    let mut recognised = 0usize;
    let mut expected = 0usize;
    let mut seed: u64 = 0x2545F4914F6CDD1D;
    for i in 0..1000 {
        let line = if i % 2 == 0 {
            expected += 1;
            format!(
                r#"{{"type":"error","error":"e{}"}}"#,
                i
            )
        } else {
            // pseudo-random garbage
            seed = seed.wrapping_mul(6364136223846793005).wrapping_add(1442695040888963407);
            format!("garbage {} {{ not json ]", seed)
        };
        if parse_stream_json_line(&line).is_some() {
            recognised += 1;
        }
    }
    assert_eq!(recognised, expected);
}
