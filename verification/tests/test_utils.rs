use rpi::json_stream::parse_json_with_repair;
use rpi::test_utils::{assistant_text_response, MockProvider, MockTool};
use rpi::traits::StreamChunk;
use rpi::types::{
    AgentConfig, FinishReason, Message, MessageContent, ModelId, Role, ToolDefinition, Usage,
};

fn config() -> AgentConfig {
    AgentConfig {
        model: ModelId::new("mock", "one"),
        max_tokens: Some(5),
        temperature: Some(parse_json_with_repair("0.5").unwrap()),
        system_prompt: Some("be brief".to_string()),
        max_iterations: 3,
    }
}

fn definition() -> ToolDefinition {
    ToolDefinition {
        name: "ls".to_string(),
        description: "List".to_string(),
        parameters: parse_json_with_repair("{\"type\":\"object\"}").unwrap(),
    }
}

fn chunk(text: &str) -> StreamChunk {
    StreamChunk {
        delta: Some(text.to_string()),
        tool_calls: vec![],
        finish_reason: None,
        usage: None,
    }
}

#[test]
fn mock_provider_answers_in_order_and_keeps_requests() {
    let mut provider = MockProvider::new("mock")
        .with_chat_response(assistant_text_response("first"))
        .with_chat_response(assistant_text_response("second"));
    let messages = vec![Message::text(Role::User, "hi".to_string())];
    let tools = vec![definition()];
    let first = provider.chat("one", &messages, &tools, &config()).unwrap();
    assert_eq!(first, assistant_text_response("first"));
    let second = provider.chat("two", &vec![], &vec![], &config()).unwrap();
    assert_eq!(second, assistant_text_response("second"));
    let error = provider.chat("three", &vec![], &vec![], &config()).unwrap_err();
    assert!(error.to_text().contains("mock provider has no queued chat response"));

    let requests = provider.requests();
    assert_eq!(requests.len(), 3);
    assert_eq!(requests[0].model, "one");
    assert_eq!(requests[0].messages, messages);
    assert_eq!(requests[0].tools, tools);
    assert_eq!(requests[0].config, config());
    assert_eq!(requests[1].model, "two");
    assert_eq!(requests[2].model, "three");
    assert_eq!(provider.id(), "mock");
}

#[test]
fn mock_provider_streams_queued_chunks() {
    let mut provider = MockProvider::new("mock").with_stream_chunks(vec![chunk("a"), chunk("b")]);
    let chunks = provider.chat_stream("one", &vec![], &vec![], &config()).unwrap();
    let texts: Vec<String> = chunks.into_iter().map(|c| c.delta.unwrap()).collect();
    assert_eq!(texts, vec!["a".to_string(), "b".to_string()]);
    let error = provider.chat_stream("one", &vec![], &vec![], &config()).unwrap_err();
    assert!(error.to_text().contains("mock provider has no queued stream response"));
    assert_eq!(provider.requests().len(), 2);
}

#[test]
fn mock_provider_counts_as_told() {
    let provider = MockProvider::new("mock");
    assert_eq!(provider.count_tokens(&vec![]), None);
    assert_eq!(provider.with_token_count(42).count_tokens(&vec![]), Some(42));
}

#[test]
fn mock_tool_gives_its_result_and_keeps_arguments() {
    let mut tool = MockTool::new(definition(), "done");
    let arguments = parse_json_with_repair("{\"path\":\".\"}").unwrap();
    assert_eq!(tool.name(), "ls");
    assert_eq!(tool.definition(), definition());
    assert!(tool.calls().is_empty());
    assert_eq!(tool.execute(&arguments).unwrap(), "done");
    assert_eq!(tool.calls(), vec![arguments]);
}

#[test]
fn assistant_text_response_stops_with_no_usage() {
    let response = assistant_text_response("hello");
    assert_eq!(response.message.role, Role::Assistant);
    assert_eq!(response.message.content, Some(MessageContent::Text("hello".to_string())));
    assert_eq!(response.message.tool_calls, None);
    assert_eq!(response.finish_reason, FinishReason::Stop);
    assert_eq!(
        response.usage,
        Usage { prompt_tokens: 0, completion_tokens: 0, total_tokens: 0 }
    );
}
