use rpi::cli::{is_interactive, read_input, safe_tool_summary, validate_tui_mode, Input};
use rpi::json::Json;
use rpi::json_stream::parse_json_with_repair;

fn json(text: &str) -> Json {
    parse_json_with_repair(text).unwrap()
}

#[test]
fn validate_tui_mode_rejects_single_prompt_mode() {
    let error = validate_tui_mode(false, true).unwrap_err();

    assert!(error.contains("--tui"));
    assert!(error.contains("interactive"));
}

#[test]
fn validate_tui_mode_accepts_interactive_tui() {
    validate_tui_mode(true, true).unwrap();
}


#[test]
fn safe_tool_summary_uses_builtin_allowlist() {
    assert_eq!(
        safe_tool_summary("read_file", &json(r#"{"path": "CONTEXT.md", "limit": 10}"#)),
        Some("CONTEXT.md".to_string())
    );
    assert_eq!(
        safe_tool_summary("grep", &json(r#"{"pattern": "secret", "path": "src"}"#)),
        Some("pattern secret in src".to_string())
    );
    assert_eq!(
        safe_tool_summary("unknown", &json(r#"{"token": "do-not-leak"}"#)),
        None
    );
}

#[test]
fn shown_summaries_are_exact() {
    let both = json(r#"{"pattern": "p", "path": "d"}"#);
    assert_eq!(safe_tool_summary("find", &both).as_deref(), Some("p in d"));
    assert_eq!(safe_tool_summary("ls", &both).as_deref(), Some("d"));
    assert_eq!(
        safe_tool_summary("find", &json(r#"{"pattern": "p", "path": ""}"#)).as_deref(),
        Some("p")
    );
    assert_eq!(safe_tool_summary("grep", &json(r#"{"path": "d"}"#)), None);
    assert_eq!(
        safe_tool_summary("bash", &json(r#"{"command": "env"}"#)).as_deref(),
        Some("command")
    );
    assert_eq!(safe_tool_summary("write_file", &json(r#"{"path": 3}"#)), None);
}

#[test]
fn interactive_unless_something_else_is_asked() {
    assert!(is_interactive(false, false, false, false));
    assert!(!is_interactive(true, false, false, false));
    assert!(!is_interactive(false, true, false, false));
    assert!(!is_interactive(false, false, true, false));
    assert!(!is_interactive(false, false, false, true));
}

#[test]
fn lines_are_commands_or_messages() {
    assert_eq!(read_input("  \n"), Input::Nothing);
    assert_eq!(read_input(" /quit\n"), Input::Quit);
    assert_eq!(read_input("/exit"), Input::Quit);
    assert_eq!(read_input("/q"), Input::Quit);
    assert_eq!(read_input("/help"), Input::Help);
    assert_eq!(read_input("/h"), Input::Help);
    assert_eq!(read_input("/clear"), Input::Clear);
    assert_eq!(read_input("/c"), Input::Clear);
    assert_eq!(read_input("/config"), Input::ShowConfig);
    assert_eq!(read_input("/model"), Input::ShowModel);
    assert_eq!(
        read_input("/quit now"),
        Input::Unknown {
            command: "/quit now".to_string()
        }
    );
    assert_eq!(
        read_input(" do /this \n"),
        Input::Message {
            text: "do /this".to_string()
        }
    );
}
