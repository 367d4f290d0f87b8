use rpi::types::{
    escape_xml_tags, extract_text, ContentBlock, FinishReason, Message, MessageContent, ModelId,
    Role, StopReason,
};

#[test]
fn test_escape_xml_tags() {
    assert_eq!(escape_xml_tags("hello"), "hello");
    assert_eq!(escape_xml_tags("<test>"), "&lt;test&gt;");
    assert_eq!(escape_xml_tags("a & b"), "a &amp; b");
    assert_eq!(escape_xml_tags("<a>&</a>"), "&lt;a&gt;&amp;&lt;/a&gt;");
    assert_eq!(escape_xml_tags(""), "");
}

#[test]
fn model_ids_are_read_back() {
    let id = ModelId::parse("openai/a/b").unwrap();
    assert_eq!(id.provider, "openai");
    assert_eq!(id.model, "a/b");
    assert_eq!(id.to_text(), "openai/a/b");
    assert!(ModelId::parse("openai").is_none());
    assert!(ModelId::parse("/a").is_none());
    assert!(ModelId::parse("a/").is_none());
    assert_eq!("x/y".parse::<ModelId>().unwrap().model, "y");
    assert!("x".parse::<ModelId>().is_err());
}

#[test]
fn reasons_are_carried_over() {
    assert_eq!(StopReason::from(FinishReason::Stop), StopReason::Stop);
    assert_eq!(StopReason::from(FinishReason::Length), StopReason::Length);
    assert_eq!(StopReason::from(FinishReason::ToolCalls), StopReason::ToolUse);
    assert_eq!(StopReason::from(FinishReason::ContentFilter), StopReason::Error);
}

#[test]
fn only_text_blocks_are_text() {
    let blocks = vec![
        ContentBlock::Text {
            text: "a".to_string(),
        },
        ContentBlock::Image {
            media_type: "image/png".to_string(),
            data: "x".to_string(),
        },
        ContentBlock::Text {
            text: "b".to_string(),
        },
    ];
    assert_eq!(extract_text(&Some(MessageContent::Blocks(blocks))), "ab");
    assert_eq!(extract_text(&None), "");
    let message = Message::text(Role::System, "s".to_string());
    assert_eq!(message.role, Role::System);
    assert_eq!(extract_text(&message.content), "s");
}
