use rpi::agent::{AgentRunner, ProviderChoiceError, TurnError};
use rpi::compaction::CompactionResult;
use rpi::config::Config;
use rpi::session::{Session, SessionEntry, Timestamp};
use rpi::types::{Message, MessageContent, ProviderConfig, Role};

fn user_msg(text: &str) -> Message {
    Message {
        role: Role::User,
        content: Some(MessageContent::Text(text.to_string())),
        tool_calls: None,
        tool_call_id: None,
        name: None,
    }
}

fn assistant_msg(text: &str) -> Message {
    Message {
        role: Role::Assistant,
        content: Some(MessageContent::Text(text.to_string())),
        tool_calls: None,
        tool_call_id: None,
        name: None,
    }
}

fn result(summary: &str, first_kept_message_index: usize, tokens_before: u32) -> CompactionResult {
    CompactionResult {
        summary: summary.to_string(),
        first_kept_message_index,
        tokens_before,
        tokens_after: tokens_before / 2,
    }
}

fn build_runner(msg_count: usize) -> (AgentRunner, Vec<String>) {
    let mut session = Session::new("test-model");
    let entry_ids: Vec<String> = (0..msg_count)
        .map(|i| session.append_message(user_msg(&format!("msg {i}"))))
        .collect();
    let runner = AgentRunner::with_session(Config::default(), None, session);
    (runner, entry_ids)
}

fn texts_of(messages: &[Message]) -> Vec<String> {
    messages
        .iter()
        .filter_map(|m| match &m.content {
            Some(MessageContent::Text(t)) => Some(t.clone()),
            _ => None,
        })
        .collect()
}

#[test]
fn compaction_persists_all_kept_messages() {
    let (mut runner, _entry_ids) = build_runner(6);
    let initial_entry_count = runner.session.entries.len();
    let (_, context_entry_ids) = runner.take_messages();

    let messages = vec![
        user_msg("<summary>compacted</summary>"),
        assistant_msg("kept 0"),
        assistant_msg("kept 1"),
        assistant_msg("kept 2"),
        user_msg("new from loop 1"),
        assistant_msg("new from loop 2"),
    ];

    runner
        .finish_turn(&messages, &vec![result("compacted", 3, 100)], &context_entry_ids)
        .unwrap();

    let texts = texts_of(&runner.session.build_context());
    assert!(
        texts.iter().any(|t| t.contains("new from loop 1")),
        "new message 1 missing from session after compaction"
    );
    assert!(
        texts.iter().any(|t| t.contains("new from loop 2")),
        "new message 2 missing from session after compaction"
    );

    let expected_entries = initial_entry_count + 2 + 4;
    assert_eq!(
        runner.session.entries.len(),
        expected_entries,
        "kept messages were duplicated in session"
    );
}

#[test]
fn compaction_errors_on_missing_entry_id() {
    let (mut runner, _entry_ids) = build_runner(2);

    let messages = vec![
        user_msg("<summary>compacted</summary>"),
        assistant_msg("kept 0"),
    ];
    let err = runner
        .finish_turn(&messages, &vec![result("compacted", 1, 100)], &vec![None, None])
        .unwrap_err();
    assert!(
        err.to_text().contains("first_kept_entry_id missing"),
        "unexpected error: {err:?}"
    );
    assert!(
        err.to_text().contains("len: 2"),
        "error should include context length: {err:?}"
    );
}

#[test]
fn multiple_compactions_all_persisted() {
    let (mut runner, entry_ids) = build_runner(6);
    let (_, context_entry_ids) = runner.take_messages();

    let messages = vec![
        user_msg("<summary>summary1</summary>"),
        assistant_msg("kept m4"),
        assistant_msg("kept m5"),
        user_msg("new m6"),
        assistant_msg("new m7"),
        user_msg("new m8"),
    ];

    runner
        .finish_turn(
            &messages,
            &vec![result("summary0", 3, 100), result("summary1", 2, 80)],
            &context_entry_ids,
        )
        .unwrap();

    let compaction_entries: Vec<_> = runner
        .session
        .entries
        .iter()
        .filter(|e| matches!(e, SessionEntry::Compaction { .. }))
        .collect();
    assert_eq!(
        compaction_entries.len(),
        2,
        "expected 2 compaction entries, found {}",
        compaction_entries.len()
    );

    for (entry, expected) in compaction_entries.iter().zip([&entry_ids[3], &entry_ids[4]]) {
        if let SessionEntry::Compaction {
            first_kept_entry_id,
            ..
        } = entry
        {
            assert_eq!(first_kept_entry_id, expected);
        } else {
            unreachable!();
        }
    }

    let texts = texts_of(&runner.session.build_context());
    for label in ["new m6", "new m7", "new m8"] {
        assert!(
            texts.iter().any(|t| t.contains(label)),
            "{label} missing from session after multi-compaction"
        );
    }
}

#[test]
fn turn_extends_the_session() {
    let (mut runner, _) = build_runner(1);
    runner.begin_prompt("go on");
    let (mut messages, entry_ids) = runner.take_messages();
    assert_eq!(messages.len(), 2);
    assert!(runner.context.is_empty());
    messages.push(assistant_msg("done"));
    runner.finish_turn(&messages, &vec![], &entry_ids).unwrap();
    assert_eq!(
        texts_of(&runner.session.build_context()),
        vec!["msg 0", "go on", "done"]
    );
}

#[test]
fn failed_turn_leaves_what_the_session_holds() {
    let (mut runner, _) = build_runner(1);
    runner.begin_prompt("go on");
    let _ = runner.take_messages();
    runner.fail_turn();
    let kept: Vec<Message> = runner.context.iter().map(|c| c.message.clone()).collect();
    assert_eq!(texts_of(&kept), vec!["msg 0", "go on"]);
}

#[test]
fn each_turn_error_has_its_input() {
    let (mut runner, _) = build_runner(2);
    let (_, entry_ids) = runner.take_messages();
    let messages = vec![user_msg("s")];
    let keeps_summary = runner
        .finish_turn(
            &messages,
            &vec![result("a", 1, 10), result("b", 0, 10)],
            &entry_ids,
        )
        .unwrap_err();
    assert_eq!(keeps_summary, TurnError::KeepsSummary { compaction: 1 });
    assert_eq!(
        keeps_summary.to_text(),
        "first_kept_message_index is 0 for compaction 1"
    );
    let missing = runner
        .finish_turn(&messages, &vec![result("a", 5, 10)], &entry_ids)
        .unwrap_err();
    assert_eq!(missing, TurnError::MissingEntry { index: 5, len: 2 });
}

#[test]
fn providers_are_chosen_by_the_model() {
    let choose = |model: &str, config: Config, env: &[(&str, &str)]| {
        let env: Vec<(String, String)> = env
            .iter()
            .map(|(name, value)| (name.to_string(), value.to_string()))
            .collect();
        AgentRunner::new(config, Some(model.to_string())).build_provider(&env)
    };
    let keyed = Config::default().set("api_key.anthropic", "k").unwrap();
    match choose("anthropic/sonnet", keyed, &[]) {
        Ok((ProviderConfig::Anthropic { api_key, base_url }, name)) => {
            assert_eq!(api_key, "k");
            assert_eq!(base_url, None);
            assert_eq!(name, "sonnet");
        }
        _ => panic!("unexpected choice"),
    }
    match choose("ollama/llama", Config::default(), &[("OLLAMA_API_KEY", "x")]) {
        Ok((ProviderConfig::Ollama { base_url }, _)) => {
            assert_eq!(base_url, "http://localhost:11434")
        }
        _ => panic!("unexpected choice"),
    }
    let error = |model: &str| choose(model, Config::default(), &[("X_API_KEY", "k")]).err().unwrap();
    assert_eq!(error("plain"), ProviderChoiceError::NoProvider);
    assert_eq!(
        error("openai/gpt-4o").to_text(),
        "No API key for provider 'openai'. Set via config or OPENAI_API_KEY env var."
    );
    assert_eq!(error("x/y").to_text(), "Unknown provider: x");
}

#[test]
fn cleared_agents_start_anew() {
    let (mut runner, _) = build_runner(3);
    let before = runner.session.session_id.clone();
    runner.clear_messages();
    assert!(runner.context.is_empty());
    assert_ne!(runner.session.session_id, before);
    assert_eq!(runner.model_display(), "test-model");
    assert_eq!(runner.config().max_tokens, Some(4096));
    let config = runner.build_agent_config("m", None);
    assert_eq!(config.model.provider, "test-model");
    assert_eq!(config.max_iterations, 20);
    assert!(runner.build_loop_config().stream);
}

#[test]
fn given_ids_are_used_for_turns() {
    let session = Session::with_ids(
        "m",
        "root".to_string(),
        "l0".to_string(),
        Timestamp { seconds: 0, nanos: 0 },
    );
    let mut runner = AgentRunner::with_session(Config::default(), None, session);
    let ids = vec![("e1".to_string(), "l1".to_string())];
    runner
        .finish_turn_as(&vec![assistant_msg("a")], &vec![], &vec![], &ids)
        .unwrap();
    assert_eq!(runner.session.leaf_id, "l1");
    assert_eq!(runner.context[0].entry_id.as_deref(), Some("e1"));
}
