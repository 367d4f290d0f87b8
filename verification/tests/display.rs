use rpi::agent_loop::AgentEvent;
use rpi::compaction::CompactionResult;
use rpi::display::{
    available_models, print_event, truncate_chars, Printed, ToolSummaries, TuiEvent, TurnOutput,
};
use rpi::json_stream::parse_json_with_repair;
use rpi::types::{Message, Role, Usage};

fn note(text: &str) -> Printed {
    Printed::Note {
        text: text.to_string(),
    }
}

fn start(id: &str) -> AgentEvent {
    AgentEvent::ToolExecutionStart {
        id: id.to_string(),
        name: "read_file".to_string(),
        arguments: parse_json_with_repair("{\"path\":\"a.rs\"}").unwrap(),
    }
}

fn end(id: &str, result: &str, is_error: bool) -> AgentEvent {
    AgentEvent::ToolExecutionEnd {
        id: id.to_string(),
        name: "read_file".to_string(),
        result: result.to_string(),
        is_error,
    }
}

#[test]
fn events_are_printed() {
    let text = AgentEvent::TextDelta {
        text: "hi".to_string(),
    };
    assert_eq!(
        print_event(&text),
        Printed::Output {
            text: "hi".to_string()
        }
    );
    assert_eq!(print_event(&start("c")), note("\n[Tool: read_file]\n"));
    assert_eq!(print_event(&end("c", "bad", true)), note("[Error: bad]\n"));
    let long = end("c", &"x".repeat(300), false);
    assert_eq!(
        print_event(&long),
        note(&format!("[Result: {}]\n", truncate_chars(&"x".repeat(300), 200)))
    );
    let done = AgentEvent::Done {
        turns: 2,
        total_usage: Usage {
            prompt_tokens: 1,
            completion_tokens: 2,
            total_tokens: 3,
        },
    };
    assert_eq!(print_event(&done), note("\n[Completed in 2 turns, 3 tokens]\n"));
    assert_eq!(
        print_event(&AgentEvent::Error {
            error: "e".to_string()
        }),
        note("\n[Error: e]\n")
    );
    assert_eq!(print_event(&AgentEvent::TurnStart { turn: 0 }), Printed::Nothing);
}

#[test]
fn texts_are_shortened_by_characters() {
    assert_eq!(truncate_chars("\u{e9}\u{e9}", 2), "\u{e9}\u{e9}");
    assert!(truncate_chars("\u{e9}\u{e9}\u{e9}", 2).starts_with("\u{e9}\u{e9}"));
    assert!(!truncate_chars("\u{e9}\u{e9}\u{e9}", 2).starts_with("\u{e9}\u{e9}\u{e9}"));
}

#[test]
fn output_of_a_turn_is_gathered() {
    let mut output = TurnOutput::new();
    for text in ["a", "b"] {
        output.observe(&AgentEvent::TextDelta {
            text: text.to_string(),
        });
    }
    output.observe(&AgentEvent::CompactionComplete {
        result: CompactionResult {
            summary: "s".to_string(),
            first_kept_message_index: 1,
            tokens_before: 9,
            tokens_after: 4,
        },
    });
    output.observe(&AgentEvent::TurnStart { turn: 1 });
    assert_eq!(output.text, "ab");
    assert_eq!(output.compactions.len(), 1);
    assert_eq!(output.compactions[0].summary, "s");
}

#[test]
fn summaries_come_back_when_tools_finish() {
    let mut summaries = ToolSummaries::new();
    let started = summaries.render_event(&start("c"));
    assert_eq!(
        started,
        Some(TuiEvent::ToolStarted {
            name: "read_file".to_string(),
            summary: Some("a.rs".to_string())
        })
    );
    let finished = |summary: Option<&str>| {
        Some(TuiEvent::ToolFinished {
            name: "read_file".to_string(),
            summary: summary.map(str::to_string),
            is_error: false,
        })
    };
    assert_eq!(summaries.render_event(&end("other", "", false)), finished(None));
    assert_eq!(summaries.render_event(&end("c", "", false)), finished(Some("a.rs")));
    assert_eq!(summaries.render_event(&end("c", "", false)), finished(None));
    let over = AgentEvent::TurnEnd {
        turn: 0,
        message: Message::text(Role::Assistant, "x".to_string()),
        usage: None,
    };
    assert_eq!(summaries.render_event(&over), Some(TuiEvent::TurnFinished));
    assert_eq!(summaries.render_event(&AgentEvent::TurnStart { turn: 0 }), None);
}

#[test]
fn models_are_offered() {
    assert_eq!(
        available_models(),
        vec![
            "openai/gpt-4o",
            "openai/gpt-4o-mini",
            "openai/gpt-4-turbo",
            "openai/o1-preview",
            "openai/o1-mini",
        ]
    );
}
