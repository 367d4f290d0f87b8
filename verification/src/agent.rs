//! The agent: a conversation, the session that it is kept in, and what is taken
//! over from each turn.

use vstd::prelude::*;

use crate::agent_loop::AgentLoopConfig;
use crate::compaction::{CompactionResult, CompactionSettings, CompactionView};
use crate::config::{find_text, value_named, Config, ConfigView, Env};
use crate::json::Json;
use crate::session::{
    fresh_id, is_id_text, new_session, session_context, with_compaction, with_message,
    ContextMessage, ContextView, Session, SessionView,
};
use crate::session_laws::{are_fresh, law_appended_message_ends_context};
use crate::text::{
    chars_of, clone_optional_text, decimal, decimal_text, find_char, index_of, lemma_index_of,
    same_text, string_between, to_uppercase, uppercase,
};
use crate::types::{
    model_parts, text_message, AgentConfig, Message, MessageView, ModelId, ProviderConfig, Role,
};

verus! {

// ---------------------------------------------------------------------------
// Errors
// ---------------------------------------------------------------------------

/// Why what a turn did could not be kept.
#[derive(Debug, Clone, Copy, PartialEq, Eq)]
pub enum TurnError {
    /// A compaction after the first keeps the summary of the one before it.
    KeepsSummary {
        /// Which compaction.
        compaction: usize,
    },
    /// A compaction keeps what is beyond all messages.
    OutOfRange {
        /// Which compaction.
        compaction: usize,
    },
    /// The first message that is kept has no entry in the session.
    MissingEntry {
        /// The place of the message.
        index: usize,
        /// The number of messages before the turn.
        len: usize,
    },
}

/// The text of a turn error.
pub open spec fn turn_error_text(e: TurnError) -> Seq<char> {
    match e {
        TurnError::KeepsSummary { compaction } => {
            "first_kept_message_index is 0 for compaction "@ + decimal(compaction as nat)
        },
        TurnError::OutOfRange { compaction } => {
            "cumulative_first_kept overflow at compaction "@ + decimal(compaction as nat)
        },
        TurnError::MissingEntry { index, len } => "first_kept_entry_id missing for index "@
            + decimal(index as nat) + " (context_entry_ids len: "@ + decimal(len as nat) + ")"@,
    }
}

impl TurnError {
    /// The text of the error.
    pub fn to_text(&self) -> (r: String)
        ensures
            r@ == turn_error_text(*self),
    {
        match self {
            TurnError::KeepsSummary { compaction } => {
                let mut r: String = "first_kept_message_index is 0 for compaction ".to_owned();
                r.push_str(&decimal_text(*compaction as u64));
                r
            },
            TurnError::OutOfRange { compaction } => {
                let mut r: String = "cumulative_first_kept overflow at compaction ".to_owned();
                r.push_str(&decimal_text(*compaction as u64));
                r
            },
            TurnError::MissingEntry { index, len } => {
                let mut r: String = "first_kept_entry_id missing for index ".to_owned();
                r.push_str(&decimal_text(*index as u64));
                r.push_str(" (context_entry_ids len: ");
                r.push_str(&decimal_text(*len as u64));
                r.push_str(")");
                r
            },
        }
    }
}

/// Why there is no provider for a model.
#[derive(Debug, PartialEq, Eq)]
#[allow(inconsistent_fields)]
pub enum ProviderChoiceError {
    /// The model is not named as provider and model.
    NoProvider,
    /// There is no key for the provider.
    NoApiKey {
        /// The provider.
        provider: String,
    },
    /// The provider is not known.
    UnknownProvider {
        /// The provider.
        provider: String,
    },
}

/// The text of the error that there is no provider.
pub open spec fn choice_error_text(e: ProviderChoiceError) -> Seq<char> {
    match e {
        ProviderChoiceError::NoProvider => {
            "Model must be in provider/model format (e.g. openai/gpt-4o)"@
        },
        ProviderChoiceError::NoApiKey { provider } => "No API key for provider '"@ + provider@
            + "'. Set via config or "@ + uppercase(provider@) + "_API_KEY env var."@,
        ProviderChoiceError::UnknownProvider { provider } => "Unknown provider: "@ + provider@,
    }
}

impl ProviderChoiceError {
    /// The text of the error.
    pub fn to_text(&self) -> (r: String)
        ensures
            r@ == choice_error_text(*self),
    {
        match self {
            ProviderChoiceError::NoProvider => {
                "Model must be in provider/model format (e.g. openai/gpt-4o)".to_owned()
            },
            ProviderChoiceError::NoApiKey { provider } => {
                let mut r: String = "No API key for provider '".to_owned();
                r.push_str(provider);
                r.push_str("'. Set via config or ");
                r.push_str(&to_uppercase(provider));
                r.push_str("_API_KEY env var.");
                r
            },
            ProviderChoiceError::UnknownProvider { provider } => {
                let mut r: String = "Unknown provider: ".to_owned();
                r.push_str(provider);
                r
            },
        }
    }
}

// ---------------------------------------------------------------------------
// The agent
// ---------------------------------------------------------------------------

/// A conversation and the session that it is kept in.
pub struct AgentRunner {
    /// The configuration.
    pub config: Config,
    /// The model, as provider and model.
    pub model: String,
    /// The session.
    pub session: Session,
    /// The messages of the conversation.
    pub context: Vec<ContextMessage>,
    /// The system prompt.
    pub system_prompt: Option<String>,
    /// When and how the conversation is compacted.
    pub compaction_settings: Option<CompactionSettings>,
}

/// What an agent holds.
pub struct RunnerView {
    pub config: ConfigView,
    pub model: Seq<char>,
    pub session: SessionView,
    pub context: Seq<ContextView>,
    pub system_prompt: Option<Seq<char>>,
    pub compaction_settings: Option<CompactionSettings>,
}

impl DeepView for AgentRunner {
    type V = RunnerView;

    open spec fn deep_view(&self) -> RunnerView {
        RunnerView {
            config: self.config.deep_view(),
            model: self.model@,
            session: self.session.deep_view(),
            context: self.context.deep_view(),
            system_prompt: self.system_prompt.deep_view(),
            compaction_settings: self.compaction_settings,
        }
    }
}

/// The settings for compaction of a configuration.
pub open spec fn settings_of(config: ConfigView) -> Option<CompactionSettings> {
    match config.compaction {
        Some(c) => Some(
            CompactionSettings {
                reserve_tokens: c.reserve_tokens,
                keep_recent_tokens: c.keep_recent_tokens,
                enabled: c.enabled,
                context_window: c.context_window,
            },
        ),
        None => None,
    }
}

/// An agent that goes on with a session.
pub open spec fn runner_for(
    config: ConfigView,
    model: Seq<char>,
    session: SessionView,
    context: Seq<ContextView>,
) -> RunnerView {
    RunnerView {
        config,
        model,
        session,
        context,
        system_prompt: config.system_prompt,
        compaction_settings: settings_of(config),
    }
}

/// The name of the environment variable with a provider's key.
pub open spec fn key_variable(provider: Seq<char>) -> Seq<char> {
    uppercase(provider) + "_API_KEY"@
}

/// The key for a provider: from the configuration, or else from the environment.
pub open spec fn key_for(config: ConfigView, provider: Seq<char>, env: Env) -> Option<Seq<char>> {
    match value_named(config.api_keys, provider) {
        Some(key) => Some(key),
        None => value_named(env, key_variable(provider)),
    }
}

/// A choice of a provider is the one for a model. Without a key there is none, not
/// even where the provider takes none.
pub open spec fn is_choice(
    r: Result<(ProviderConfig, String), ProviderChoiceError>,
    config: ConfigView,
    model: Seq<char>,
    env: Env,
) -> bool {
    match model_parts(model) {
        None => r == Err::<(ProviderConfig, String), ProviderChoiceError>(
            ProviderChoiceError::NoProvider,
        ),
        Some((provider, name)) => match key_for(config, provider, env) {
            None => r matches Err(ProviderChoiceError::NoApiKey { provider: p }) && p@ == provider,
            Some(key) => {
                let url = value_named(config.base_urls, provider);
                if provider == "openai"@ || provider == "azure"@ {
                    r matches Ok((ProviderConfig::OpenAi { api_key, base_url }, m)) && api_key@
                        == key && base_url.deep_view() == url && m@ == name
                } else if provider == "anthropic"@ {
                    r matches Ok((ProviderConfig::Anthropic { api_key, base_url }, m)) && api_key@
                        == key && base_url.deep_view() == url && m@ == name
                } else if provider == "ollama"@ {
                    r matches Ok((ProviderConfig::Ollama { base_url }, m)) && base_url@
                        == match url {
                        Some(url) => url,
                        None => "http://localhost:11434"@,
                    } && m@ == name
                } else if provider == "gitlawb"@ {
                    r matches Ok((ProviderConfig::Gitlawb { api_key, base_url }, m)) && api_key@
                        == key && base_url.deep_view() == url && m@ == name
                } else {
                    r matches Err(ProviderChoiceError::UnknownProvider { provider: p }) && p@
                        == provider
                }
            },
        },
    }
}

/// The part of a text before the first slash; the whole where there is none.
pub open spec fn before_slash(s: Seq<char>) -> Seq<char> {
    match index_of(s, '/') {
        Some(i) => s.take(i),
        None => s,
    }
}

impl AgentRunner {
    /// An agent with a new session.
    pub fn new(config: Config, model: Option<String>) -> (r: Self)
        ensures
            r.deep_view() == runner_for(
                config.deep_view(),
                match model {
                    Some(model) => model@,
                    None => "openai/gpt-4o"@,
                },
                new_session(
                    r.model@,
                    r.session.session_id@,
                    r.session.leaf_id@,
                    r.session.created_at,
                ),
                seq![],
            ),
            is_id_text(r.session.session_id@),
            is_id_text(r.session.leaf_id@),
    {
        let model: String = match model {
            Some(model) => model,
            None => "openai/gpt-4o".to_owned(),
        };
        let session: Session = Session::new(&model);
        let system_prompt: Option<String> = clone_optional_text(&config.system_prompt);
        let compaction_settings: Option<CompactionSettings> = match &config.compaction {
            Some(c) => Some(c.to_core_settings()),
            None => None,
        };
        let context: Vec<ContextMessage> = Vec::new();
        assert(context.deep_view() =~= seq![]);
        AgentRunner { config, model, session, context, system_prompt, compaction_settings }
    }

    /// An agent that goes on with a session.
    pub fn with_session(config: Config, model: Option<String>, session: Session) -> (r: Self)
        ensures
            r.deep_view() == runner_for(
                config.deep_view(),
                match model {
                    Some(model) => model@,
                    None => session.model@,
                },
                session.deep_view(),
                session_context(session.deep_view()),
            ),
    {
        let model: String = match model {
            Some(model) => model,
            None => session.model.clone(),
        };
        let system_prompt: Option<String> = clone_optional_text(&config.system_prompt);
        let compaction_settings: Option<CompactionSettings> = match &config.compaction {
            Some(c) => Some(c.to_core_settings()),
            None => None,
        };
        let context: Vec<ContextMessage> = session.build_context_with_entry_ids();
        AgentRunner { config, model, session, context, system_prompt, compaction_settings }
    }

    /// Take a prompt of the user into the conversation, and into the session. Returns
    /// the ID of the entry.
    pub fn begin_prompt(&mut self, prompt: &str) -> (r: String)
        ensures
            is_id_text(r@),
            is_id_text(final(self).session.leaf_id@),
            final(self).deep_view() == (RunnerView {
                session: with_message(
                    old(self).deep_view().session,
                    text_message(Role::User, prompt@),
                    r@,
                    final(self).session.leaf_id@,
                ),
                context: old(self).deep_view().context.push(
                    ContextView {
                        message: text_message(Role::User, prompt@),
                        entry_id: Some(r@),
                    },
                ),
                ..old(self).deep_view()
            }),
    {
        let ghost before = self.context.deep_view();
        let entry_id: String = self.session.append_message(
            Message::text(Role::User, prompt.to_owned()),
        );
        let message: ContextMessage = ContextMessage {
            message: Message::text(Role::User, prompt.to_owned()),
            entry_id: Some(entry_id.clone()),
        };
        let ghost m = message.deep_view();
        self.context.push(message);
        assert(self.context.deep_view() =~= before.push(m));
        entry_id
    }

    /// The provider for the model, and the model's name at that provider.
    pub fn build_provider(&self, env: &Vec<(String, String)>) -> (r: Result<
        (ProviderConfig, String),
        ProviderChoiceError,
    >)
        ensures
            is_choice(r, self.deep_view().config, self.model@, env.deep_view()),
    {
        let id: ModelId = match ModelId::parse(&self.model) {
            Some(id) => id,
            None => {
                return Err(ProviderChoiceError::NoProvider);
            },
        };
        let api_key: String = match self.config.get_api_key(&id.provider) {
            Some(key) => key.to_owned(),
            None => {
                let mut name: String = to_uppercase(&id.provider);
                name.push_str("_API_KEY");
                match find_text(env, &name) {
                    Some(key) => key.to_owned(),
                    None => {
                        return Err(ProviderChoiceError::NoApiKey { provider: id.provider });
                    },
                }
            },
        };
        let base_url: Option<String> = match self.config.get_base_url(&id.provider) {
            Some(url) => Some(url.to_owned()),
            None => None,
        };
        let config: ProviderConfig = if same_text(&id.provider, "openai") || same_text(
            &id.provider,
            "azure",
        ) {
            ProviderConfig::OpenAi { api_key, base_url }
        } else if same_text(&id.provider, "anthropic") {
            ProviderConfig::Anthropic { api_key, base_url }
        } else if same_text(&id.provider, "ollama") {
            ProviderConfig::Ollama {
                base_url: match base_url {
                    Some(url) => url,
                    None => "http://localhost:11434".to_owned(),
                },
            }
        } else if same_text(&id.provider, "gitlawb") {
            ProviderConfig::Gitlawb { api_key, base_url }
        } else {
            return Err(ProviderChoiceError::UnknownProvider { provider: id.provider });
        };
        Ok((config, id.model))
    }

    /// The configuration for requests. The temperature is given as the JSON value
    /// that requests carry.
    pub fn build_agent_config(&self, model_name: &str, temperature: Option<Json>) -> (r:
        AgentConfig)
        ensures
            r.model.deep_view() == (before_slash(self.model@), model_name@),
            r.max_tokens == self.config.max_tokens,
            r.temperature == temperature,
            r.system_prompt.deep_view() == self.system_prompt.deep_view(),
            r.max_iterations == 20,
    {
        let chars: Vec<char> = chars_of(&self.model);
        proof {
            lemma_index_of(self.model@, '/');
        }
        let end: usize = match find_char(&chars, '/') {
            Some(i) => i,
            None => chars.len(),
        };
        let provider: String = string_between(&chars, 0, end);
        assert(provider@ =~= before_slash(self.model@));
        AgentConfig {
            model: ModelId::new(&provider, model_name),
            max_tokens: self.config.max_tokens,
            temperature,
            system_prompt: clone_optional_text(&self.system_prompt),
            max_iterations: 20,
        }
    }

    /// The configuration for the agent loop.
    pub fn build_loop_config(&self) -> (r: AgentLoopConfig)
        ensures
            r == (AgentLoopConfig {
                max_tool_rounds: 20,
                stream: true,
                compaction: self.compaction_settings,
            }),
    {
        AgentLoopConfig {
            max_tool_rounds: 20,
            stream: true,
            compaction: self.compaction_settings,
        }
    }

    /// The configuration.
    pub fn config(&self) -> (r: &Config)
        ensures
            *r == self.config,
    {
        &self.config
    }

    /// The model.
    pub fn model_display(&self) -> (r: &str)
        ensures
            r@ == self.model@,
    {
        self.model.as_str()
    }

    /// Start a new conversation, in a new session.
    pub fn clear_messages(&mut self)
        ensures
            final(self).deep_view() == (RunnerView {
                session: new_session(
                    old(self).model@,
                    final(self).session.session_id@,
                    final(self).session.leaf_id@,
                    final(self).session.created_at,
                ),
                context: seq![],
                ..old(self).deep_view()
            }),
            is_id_text(final(self).session.session_id@),
    {
        self.context = Vec::new();
        self.session = Session::new(&self.model);
        assert(self.context.deep_view() =~= seq![]);
    }
}

// ---------------------------------------------------------------------------
// Turns
// ---------------------------------------------------------------------------

/// A session with more messages, under the given IDs: for each message, that of
/// its entry and that of the leaf on it.
pub open spec fn with_messages(s: SessionView, messages: Seq<MessageView>, ids: Env) -> SessionView
    decreases messages.len(),
{
    if messages.len() == 0 {
        s
    } else {
        let n = messages.len() - 1;
        with_message(
            with_messages(s, messages.drop_last(), ids),
            messages.last(),
            ids[n].0,
            ids[n].1,
        )
    }
}

/// Messages with the IDs of their entries.
pub open spec fn with_ids(messages: Seq<MessageView>, ids: Env) -> Seq<ContextView> {
    Seq::new(
        messages.len(),
        |i: int| ContextView { message: messages[i], entry_id: Some(ids[i].0) },
    )
}

/// The place, among the messages before a turn, of the first that is kept after
/// some compactions. Each keeps from a place among the messages at that time, of
/// which, but for the first compaction, the first is the summary of the one before.
pub open spec fn first_kept(results: Seq<CompactionView>) -> int
    decreases results.len(),
{
    if results.len() == 0 {
        0
    } else if results.len() == 1 {
        results[0].first_kept_message_index
    } else {
        first_kept(results.drop_last()) + results.last().first_kept_message_index - 1
    }
}

/// Why the last of some compactions cannot be kept in a session.
pub open spec fn compaction_problem(
    results: Seq<CompactionView>,
    entry_ids: Seq<Option<Seq<char>>>,
) -> Option<TurnError> {
    let n = results.len() - 1;
    let k = first_kept(results);
    if n > 0 && results.last().first_kept_message_index == 0 {
        Some(TurnError::KeepsSummary { compaction: n as usize })
    } else if k > usize::MAX {
        Some(TurnError::OutOfRange { compaction: n as usize })
    } else if 0 <= k < entry_ids.len() && entry_ids[k] is Some {
        None
    } else {
        Some(TurnError::MissingEntry { index: k as usize, len: entry_ids.len() as usize })
    }
}

/// A session with the compactions of a turn, under the given IDs, up to the first
/// that cannot be kept, and why that cannot be.
pub open spec fn with_compactions(
    s: SessionView,
    results: Seq<CompactionView>,
    entry_ids: Seq<Option<Seq<char>>>,
    ids: Env,
) -> (SessionView, Option<TurnError>)
    decreases results.len(),
{
    if results.len() == 0 {
        (s, None)
    } else {
        let (front, problem) = with_compactions(s, results.drop_last(), entry_ids, ids);
        let n = results.len() - 1;
        if problem is Some {
            (front, problem)
        } else if compaction_problem(results, entry_ids) is Some {
            (front, compaction_problem(results, entry_ids))
        } else {
            (
                with_compaction(
                    front,
                    results.last().summary,
                    entry_ids[first_kept(results)]->0,
                    results.last().tokens_before,
                    ids[n].0,
                    ids[n].1,
                ),
                None,
            )
        }
    }
}

/// The messages that a turn has added, where there were compactions: those after
/// the summary and what was kept of the messages before the turn.
pub open spec fn added_messages(
    messages: Seq<MessageView>,
    results: Seq<CompactionView>,
    before: int,
) -> Seq<MessageView> {
    let start = 1 + before - first_kept(results);
    if 0 <= start <= messages.len() {
        messages.skip(start)
    } else {
        seq![]
    }
}

/// An agent after a turn that went well, and why not all of it was kept, where that
/// is so. `entry_ids` are those of the messages before the turn.
pub open spec fn turn_kept(
    r: RunnerView,
    messages: Seq<MessageView>,
    results: Seq<CompactionView>,
    entry_ids: Seq<Option<Seq<char>>>,
    ids: Env,
) -> (RunnerView, Option<TurnError>) {
    if results.len() == 0 {
        let added = messages.skip(entry_ids.len() as int);
        (
            RunnerView {
                session: with_messages(r.session, added, ids),
                context: r.context + with_ids(added, ids),
                ..r
            },
            None,
        )
    } else {
        let (compacted, problem) = with_compactions(r.session, results, entry_ids, ids);
        if problem is Some {
            (RunnerView { session: compacted, ..r }, problem)
        } else {
            let session = with_messages(
                compacted,
                added_messages(messages, results, entry_ids.len() as int),
                ids.skip(results.len() as int),
            );
            (RunnerView { session, context: session_context(session), ..r }, None)
        }
    }
}

/// The IDs of entries that messages have.
pub open spec fn entry_ids_of(context: Seq<ContextView>) -> Seq<Option<Seq<char>>> {
    context.map_values(|c: ContextView| c.entry_id)
}

/// The messages without the IDs of their entries.
pub open spec fn messages_of(context: Seq<ContextView>) -> Seq<MessageView> {
    context.map_values(|c: ContextView| c.message)
}

/// Each of some IDs is one that can be drawn.
pub open spec fn are_id_texts(ids: Env) -> bool {
    forall|i: int| 0 <= i < ids.len() ==> is_id_text((#[trigger] ids[i]).0) && is_id_text(ids[i].1)
}

/// What came of a turn: the problem, where there is one.
pub open spec fn problem_of(r: Result<(), TurnError>) -> Option<TurnError> {
    match r {
        Ok(_) => None,
        Err(e) => Some(e),
    }
}

proof fn lemma_compactions_fail(
    s: SessionView,
    results: Seq<CompactionView>,
    entry_ids: Seq<Option<Seq<char>>>,
    ids: Env,
    n: int,
)
    requires
        0 <= n <= results.len(),
        with_compactions(s, results.take(n), entry_ids, ids).1 is Some,
    ensures
        with_compactions(s, results, entry_ids, ids) == with_compactions(
            s,
            results.take(n),
            entry_ids,
            ids,
        ),
    decreases results.len() - n,
{
    if n < results.len() {
        assert(results.take(n + 1).drop_last() =~= results.take(n));
        lemma_compactions_fail(s, results, entry_ids, ids, n + 1);
    } else {
        assert(results.take(n) =~= results);
    }
}

fn clone_id(id: &Option<String>) -> (r: Option<String>)
    ensures
        r.deep_view() == id.deep_view(),
{
    clone_optional_text(id)
}

impl AgentRunner {
    /// Take the messages out of the conversation for a turn, and the IDs of their
    /// entries.
    pub fn take_messages(&mut self) -> (r: (Vec<Message>, Vec<Option<String>>))
        ensures
            r.0.deep_view() == messages_of(old(self).deep_view().context),
            r.1.deep_view() == entry_ids_of(old(self).deep_view().context),
            final(self).deep_view() == (RunnerView { context: seq![], ..old(self).deep_view() }),
    {
        let ghost all = self.context.deep_view();
        let mut messages: Vec<Message> = Vec::new();
        let mut ids: Vec<Option<String>> = Vec::new();
        let mut i: usize = 0;
        assert(messages.deep_view() =~= messages_of(all).take(0));
        assert(ids.deep_view() =~= entry_ids_of(all).take(0));
        while i < self.context.len()
            invariant
                all == self.context.deep_view(),
                *self == *old(self),
                i <= self.context@.len(),
                messages.deep_view() == messages_of(all).take(i as int),
                ids.deep_view() == entry_ids_of(all).take(i as int),
            decreases self.context@.len() - i,
        {
            let ghost before = messages.deep_view();
            let ghost ids_before = ids.deep_view();
            assert(all[i as int] == self.context@[i as int].deep_view());
            messages.push(self.context[i].message.clone());
            ids.push(clone_id(&self.context[i].entry_id));
            assert(messages.deep_view() =~= before.push(messages_of(all)[i as int]));
            assert(ids.deep_view() =~= ids_before.push(entry_ids_of(all)[i as int]));
            i = i + 1;
            assert(messages.deep_view() =~= messages_of(all).take(i as int));
            assert(ids.deep_view() =~= entry_ids_of(all).take(i as int));
        }
        assert(messages_of(all).take(all.len() as int) =~= messages_of(all));
        assert(entry_ids_of(all).take(all.len() as int) =~= entry_ids_of(all));
        self.context = Vec::new();
        assert(self.context.deep_view() =~= seq![]);
        (messages, ids)
    }

    /// Append messages to the session from a place on, under the given IDs from a
    /// place on, and to the conversation where that is asked for.
    fn append_messages(
        &mut self,
        messages: &Vec<Message>,
        from: usize,
        ids: &Vec<(String, String)>,
        ids_from: usize,
        to_context: bool,
    )
        requires
            from <= messages@.len(),
            ids_from + messages@.len() <= ids@.len(),
        ensures
            final(self).deep_view() == ({
                let added = messages.deep_view().skip(from as int);
                let used = ids.deep_view().skip(ids_from as int);
                let r = old(self).deep_view();
                RunnerView {
                    session: with_messages(r.session, added, used),
                    context: if to_context {
                        r.context + with_ids(added, used)
                    } else {
                        r.context
                    },
                    ..r
                }
            }),
    {
        let ghost start = self.deep_view();
        let ghost all = messages.deep_view();
        let ghost added = all.skip(from as int);
        let ghost used = ids.deep_view().skip(ids_from as int);
        let count: usize = ids.len();
        let mut i: usize = from;
        assert(added.take(0) =~= seq![]);
        assert(start.context + with_ids(added.take(0), used) =~= start.context);
        while i < messages.len()
            invariant
                all == messages.deep_view(),
                added == all.skip(from as int),
                used == ids.deep_view().skip(ids_from as int),
                from <= i <= messages@.len(),
                count == ids@.len(),
                ids_from + messages@.len() <= count,
                self.deep_view() == (RunnerView {
                    session: with_messages(start.session, added.take(i - from), used),
                    context: if to_context {
                        start.context + with_ids(added.take(i - from), used)
                    } else {
                        start.context
                    },
                    ..start
                }),
            decreases messages@.len() - i,
        {
            let ghost n = i - from;
            assert(added.take(n + 1).drop_last() =~= added.take(n));
            assert(added.take(n + 1).last() == messages@[i as int].deep_view());
            let k: usize = ids_from + (i - from);
            assert(used[n] == ids@[k as int].deep_view());
            self.session.append_message_as(
                messages[i].clone(),
                ids[k].0.clone(),
                ids[k].1.clone(),
            );
            if to_context {
                let ghost before = self.context.deep_view();
                let entry: ContextMessage = ContextMessage {
                    message: messages[i].clone(),
                    entry_id: Some(ids[k].0.clone()),
                };
                let ghost e = entry.deep_view();
                self.context.push(entry);
                assert(self.context.deep_view() =~= before.push(e));
                assert(self.context.deep_view() =~= start.context + with_ids(
                    added.take(n + 1),
                    used,
                ));
            }
            i = i + 1;
        }
        assert(added.take(added.len() as int) =~= added);
    }

    /// Keep what a turn has done that went well: append the compactions and the new
    /// messages to the session, under the given IDs. `entry_ids` are those of the
    /// messages before the turn, as they were taken out of the conversation.
    pub fn finish_turn_as(
        &mut self,
        messages: &Vec<Message>,
        compactions: &Vec<CompactionResult>,
        entry_ids: &Vec<Option<String>>,
        ids: &Vec<(String, String)>,
    ) -> (r: Result<(), TurnError>)
        requires
            compactions@.len() == 0 ==> entry_ids@.len() <= messages@.len(),
            ids@.len() >= compactions@.len() + messages@.len(),
        ensures
            (final(self).deep_view(), problem_of(r)) == turn_kept(
                old(self).deep_view(),
                messages.deep_view(),
                compactions.deep_view(),
                entry_ids.deep_view(),
                ids.deep_view(),
            ),
    {
        let ghost start = self.deep_view();
        let ghost all = messages.deep_view();
        let ghost results = compactions.deep_view();
        let ghost places = entry_ids.deep_view();
        let ghost used = ids.deep_view();
        if compactions.len() == 0 {
            assert(used.skip(0) =~= used);
            self.append_messages(messages, entry_ids.len(), ids, 0, true);
            return Ok(());
        }
        let mut kept: usize = 0;
        let mut i: usize = 0;
        assert(results.take(0) =~= seq![]);
        while i < compactions.len()
            invariant
                start == old(self).deep_view(),
                results == compactions.deep_view(),
                places == entry_ids.deep_view(),
                used == ids.deep_view(),
                all == messages.deep_view(),
                compactions@.len() > 0,
                i <= compactions@.len(),
                ids@.len() >= compactions@.len() + messages@.len(),
                kept == first_kept(results.take(i as int)),
                i > 0 ==> kept < entry_ids@.len(),
                with_compactions(start.session, results.take(i as int), places, used) == (
                    self.deep_view().session,
                    None::<TurnError>,
                ),
                self.deep_view() == (RunnerView { session: self.deep_view().session, ..start }),
            decreases compactions@.len() - i,
        {
            let ghost now = results.take(i + 1);
            assert(now.drop_last() =~= results.take(i as int));
            assert(now.last() == compactions@[i as int].deep_view());
            let index: usize = compactions[i].first_kept_message_index;
            if i > 0 && index == 0 {
                proof {
                    lemma_compactions_fail(start.session, results, places, used, i + 1);
                }
                return Err(TurnError::KeepsSummary { compaction: i });
            }
            let next: usize = if i == 0 {
                index
            } else if index - 1 > usize::MAX - kept {
                proof {
                    lemma_compactions_fail(start.session, results, places, used, i + 1);
                }
                return Err(TurnError::OutOfRange { compaction: i });
            } else {
                kept + (index - 1)
            };
            assert(next == first_kept(now));
            if next >= entry_ids.len() {
                proof {
                    lemma_compactions_fail(start.session, results, places, used, i + 1);
                }
                return Err(TurnError::MissingEntry { index: next, len: entry_ids.len() });
            }
            assert(places[next as int] == entry_ids@[next as int].deep_view());
            let entry_id: String = match &entry_ids[next] {
                Some(id) => id.clone(),
                None => {
                    proof {
                        lemma_compactions_fail(start.session, results, places, used, i + 1);
                    }
                    return Err(TurnError::MissingEntry { index: next, len: entry_ids.len() });
                },
            };
            assert(used[i as int] == ids@[i as int].deep_view());
            self.session.append_compaction_as(
                compactions[i].summary.clone(),
                entry_id,
                compactions[i].tokens_before,
                ids[i].0.clone(),
                ids[i].1.clone(),
            );
            kept = next;
            i = i + 1;
        }
        assert(results.take(results.len() as int) =~= results);
        let original: usize = entry_ids.len() - kept;
        let ghost compacted = self.deep_view().session;
        if original < messages.len() {
            self.append_messages(messages, original + 1, ids, compactions.len(), false);
        } else {
            assert(added_messages(all, results, places.len() as int) =~= seq![]);
        }
        assert(self.deep_view().session == with_messages(
            compacted,
            added_messages(all, results, places.len() as int),
            used.skip(results.len() as int),
        ));
        self.context = self.session.build_context_with_entry_ids();
        Ok(())
    }

    /// Keep what a turn has done that went well, under IDs that are drawn.
    pub fn finish_turn(
        &mut self,
        messages: &Vec<Message>,
        compactions: &Vec<CompactionResult>,
        entry_ids: &Vec<Option<String>>,
    ) -> (r: Result<(), TurnError>)
        requires
            compactions@.len() == 0 ==> entry_ids@.len() <= messages@.len(),
        ensures
            exists|ids: Env| #[trigger]
                are_id_texts(ids) && (final(self).deep_view(), problem_of(r)) == turn_kept(
                    old(self).deep_view(),
                    messages.deep_view(),
                    compactions.deep_view(),
                    entry_ids.deep_view(),
                    ids,
                ),
    {
        let mut ids: Vec<(String, String)> = Vec::new();
        let mut i: usize = 0;
        while i < compactions.len()
            invariant
                *self == *old(self),
                i <= compactions@.len(),
                ids@.len() == i,
                are_id_texts(ids.deep_view()),
            decreases compactions@.len() - i,
        {
            draw_ids(&mut ids);
            i = i + 1;
        }
        let mut j: usize = 0;
        while j < messages.len()
            invariant
                *self == *old(self),
                j <= messages@.len(),
                ids@.len() == compactions@.len() + j,
                are_id_texts(ids.deep_view()),
            decreases messages@.len() - j,
        {
            draw_ids(&mut ids);
            j = j + 1;
        }
        self.finish_turn_as(messages, compactions, entry_ids, &ids)
    }

    /// After a turn that failed, the conversation is what the session holds of it.
    pub fn fail_turn(&mut self)
        ensures
            final(self).deep_view() == (RunnerView {
                context: session_context(old(self).deep_view().session),
                ..old(self).deep_view()
            }),
    {
        self.context = self.session.build_context_with_entry_ids();
    }
}

fn draw_ids(ids: &mut Vec<(String, String)>)
    requires
        are_id_texts(old(ids).deep_view()),
    ensures
        final(ids)@.len() == old(ids)@.len() + 1,
        are_id_texts(final(ids).deep_view()),
{
    let ghost before = ids.deep_view();
    let pair: (String, String) = (fresh_id(), fresh_id());
    let ghost p = pair.deep_view();
    ids.push(pair);
    assert(ids.deep_view() =~= before.push(p));
}

/// IDs that are each new to a session by the time that they are used.
pub open spec fn stay_fresh(s: SessionView, messages: Seq<MessageView>, ids: Env) -> bool {
    forall|i: int|
        0 <= i < messages.len() ==> are_fresh(
            with_messages(s, #[trigger] messages.take(i), ids),
            ids[i].0,
            ids[i].1,
        )
}

/// Messages that are appended to a session end its conversation, with the IDs of
/// their entries. So after a turn without compaction, what the session holds is
/// what was taken out of the conversation and what has been put into it.
pub proof fn law_turn_extends_session(s: SessionView, messages: Seq<MessageView>, ids: Env)
    requires
        stay_fresh(s, messages, ids),
    ensures
        session_context(with_messages(s, messages, ids)) == session_context(s) + with_ids(
            messages,
            ids,
        ),
    decreases messages.len(),
{
    if messages.len() == 0 {
        assert(session_context(s) + with_ids(messages, ids) =~= session_context(s));
    } else {
        let front = messages.drop_last();
        let n = messages.len() - 1;
        assert forall|i: int| 0 <= i < front.len() implies are_fresh(
            with_messages(s, #[trigger] front.take(i), ids),
            ids[i].0,
            ids[i].1,
        ) by {
            assert(front.take(i) =~= messages.take(i));
        }
        law_turn_extends_session(s, front, ids);
        assert(messages.take(n) =~= front);
        law_appended_message_ends_context(
            with_messages(s, front, ids),
            messages.last(),
            ids[n].0,
            ids[n].1,
        );
        assert(session_context(s) + with_ids(messages, ids) =~= (session_context(s) + with_ids(
            front,
            ids,
        )).push(ContextView { message: messages.last(), entry_id: Some(ids[n].0) }));
    }
}

/// After a turn with compactions that was kept, the conversation is what the
/// session holds of it.
pub proof fn law_compacted_turn_follows_session(
    r: RunnerView,
    messages: Seq<MessageView>,
    results: Seq<CompactionView>,
    entry_ids: Seq<Option<Seq<char>>>,
    ids: Env,
)
    requires
        results.len() > 0,
    ensures
        ({
            let (after, problem) = turn_kept(r, messages, results, entry_ids, ids);
            problem is None ==> after.context == session_context(after.session)
        }),
{
}

/// A compaction that can be kept keeps from one of the messages before the turn.
pub proof fn law_kept_messages_are_there(
    s: SessionView,
    results: Seq<CompactionView>,
    entry_ids: Seq<Option<Seq<char>>>,
    ids: Env,
)
    requires
        results.len() > 0,
        with_compactions(s, results, entry_ids, ids).1 is None,
    ensures
        0 <= first_kept(results) < entry_ids.len(),
{
}

} // verus!
