use rpi::json::Json;
use rpi::json_stream::parse_json_with_repair;
use rpi::system_prompt::{
    build_system_prompt, format_tool_call_for_display, format_tool_result_for_display,
};
use rpi::types::ToolDefinition;

fn json(text: &str) -> Json {
    parse_json_with_repair(text).unwrap()
}


#[test]
fn test_build_system_prompt_no_tools() {
    let prompt = build_system_prompt(Some("Be helpful."), &vec![], "/home/user/project");
    assert!(prompt.contains("Be helpful."));
    assert!(prompt.contains("/home/user/project"));
    assert!(!prompt.contains("Available Tools"));
}

#[test]
fn test_build_system_prompt_with_tools() {
    let tools = vec![ToolDefinition {
        name: "bash".to_string(),
        description: "Execute a bash command.".to_string(),
        parameters: json(r#"{"type": "object", "properties": {"command": {"type": "string"}}}"#),
    }];
    let prompt = build_system_prompt(None, &tools, "/tmp");
    assert!(prompt.contains("bash"));
    assert!(prompt.contains("Execute a bash command."));
    assert!(prompt.contains("Available Tools"));
}

#[test]
fn test_format_tool_call() {
    let args = json(r#"{"command": "ls -la"}"#);
    let display = format_tool_call_for_display("bash", &args);
    assert!(display.contains("bash"));
    assert!(display.contains("ls -la"));
}

#[test]
fn test_format_tool_result() {
    let display = format_tool_result_for_display("file.txt", false);
    assert!(display.contains("Result:"));

    let error_display = format_tool_result_for_display("not found", true);
    assert!(error_display.contains("Error:"));
}

#[test]
fn test_format_tool_result_truncates_utf8_safely() {
    let mut result = String::new();
    for _ in 0..300 {
        result.push_str("ä");
    }
    let formatted = format_tool_result_for_display(&result, false);
    assert!(formatted.contains("...(truncated)"));
}

#[test]
fn test_format_tool_result_short_string() {
    let result = "short string";
    let formatted = format_tool_result_for_display(result, false);
    assert!(!formatted.contains("...(truncated)"));
}

#[test]
fn system_prompt_is_exact() {
    let tools = vec![
        ToolDefinition {
            name: "a".to_string(),
            description: "b".to_string(),
            parameters: json(r#"{"type":"object"}"#),
        },
        ToolDefinition {
            name: "c".to_string(),
            description: "d".to_string(),
            parameters: Json::Null,
        },
    ];
    assert_eq!(
        build_system_prompt(None, &tools, "/w"),
        "You are a helpful coding assistant.\n\nWorking directory: /w\n\n## Available Tools\n\n\
         You have access to the following tools. Use them to help the user.\n\n### a\nb\n\n\
         Parameters:\n```json\n{\n  \"type\": \"object\"\n}\n```\n\n### c\nd\n\n"
    );
}

#[test]
fn displayed_results_are_exact() {
    assert_eq!(format_tool_result_for_display(&"x".repeat(500), false).len(), 8 + 500);
    assert_eq!(
        format_tool_result_for_display(&"x".repeat(501), false),
        format!("Result: {}...(truncated)", "x".repeat(500))
    );
    assert_eq!(
        format_tool_result_for_display(&"x".repeat(501), true),
        format!("Error: {}", "x".repeat(501))
    );
    assert_eq!(
        format_tool_call_for_display("t", &Json::Array(vec![])),
        "Tool: t\nArgs: []"
    );
}
